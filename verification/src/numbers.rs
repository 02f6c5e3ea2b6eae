//! Unsigned integers read from text, as `str::parse` and `from_str_radix`
//! read them: an optional `+`, then at least one digit of the radix, and a
//! value that fits.

use vstd::prelude::*;
use crate::text::chars_of;

verus! {

/// The value of one digit in a radix of at most 36, if it is one.
pub open spec fn digit_value(c: char, radix: nat) -> Option<nat> {
    let v: int = if '0' <= c && c <= '9' {
        c as int - '0' as int
    } else if 'a' <= c && c <= 'z' {
        c as int - 'a' as int + 10
    } else if 'A' <= c && c <= 'Z' {
        c as int - 'A' as int + 10
    } else {
        99
    };
    if v < radix {
        Some(v as nat)
    } else {
        None
    }
}

/// The value of a run of digits, most significant first; `None` when some
/// character is not a digit of the radix.
pub open spec fn digits_value(s: Seq<char>, radix: nat) -> Option<nat>
    decreases s.len(),
{
    if s.len() == 0 {
        Some(0)
    } else {
        match (digits_value(s.drop_last(), radix), digit_value(s.last(), radix)) {
            (Some(v), Some(d)) => Some(v * radix + d),
            _ => None,
        }
    }
}

/// An optional `+` followed by at least one digit.
pub open spec fn parse_unsigned_spec(s: Seq<char>, radix: nat) -> Option<nat> {
    let body = if s.len() > 0 && s[0] == '+' {
        s.drop_first()
    } else {
        s
    };
    if body.len() == 0 {
        None
    } else {
        digits_value(body, radix)
    }
}

/// The value `s` reads as, when it reads as one no larger than `max`.
pub open spec fn parse_bounded_spec(s: Seq<char>, radix: nat, max: nat) -> Option<nat> {
    match parse_unsigned_spec(s, radix) {
        Some(v) => if v <= max {
            Some(v)
        } else {
            None
        },
        None => None,
    }
}

fn digit_of(c: char, radix: u32) -> (d: Option<u32>)
    requires
        2 <= radix <= 36,
    ensures
        match d {
            Some(v) => digit_value(c, radix as nat) == Some(v as nat),
            None => digit_value(c, radix as nat) is None,
        },
{
    let code = c as u32;
    let v: u32 = if '0' <= c && c <= '9' {
        code - ('0' as u32)
    } else if 'a' <= c && c <= 'z' {
        code - ('a' as u32) + 10
    } else if 'A' <= c && c <= 'Z' {
        code - ('A' as u32) + 10
    } else {
        99
    };
    if v < radix {
        Some(v)
    } else {
        None
    }
}

/// A run of digits that all are digits has a value at least that of any of
/// its prefixes.
proof fn lemma_digits_grow(s: Seq<char>, radix: nat, k: int)
    requires
        radix >= 1,
        0 <= k <= s.len(),
        digits_value(s, radix) is Some,
    ensures
        digits_value(s.take(k), radix) is Some,
        digits_value(s.take(k), radix)->0 <= digits_value(s, radix)->0,
    decreases s.len(),
{
    if k == s.len() {
        assert(s.take(k) =~= s);
    } else {
        lemma_digits_grow(s.drop_last(), radix, k);
        assert(s.drop_last().take(k) =~= s.take(k));
        let v = digits_value(s.drop_last(), radix)->0;
        let d = digit_value(s.last(), radix)->0;
        assert(v <= v * radix + d) by (nonlinear_arith)
            requires
                radix >= 1,
                d >= 0,
        ;
    }
}

/// The value of `s` in `radix`, as `from_str_radix` reads it, when it is no
/// larger than `max`.
pub fn parse_radix(s: &str, radix: u32, max: u64) -> (value: Option<u64>)
    requires
        2 <= radix <= 36,
    ensures
        match value {
            Some(v) => parse_bounded_spec(s@, radix as nat, max as nat) == Some(v as nat),
            None => parse_bounded_spec(s@, radix as nat, max as nat) is None,
        },
{
    let chars = chars_of(s);
    let start: usize = if chars.len() > 0 && chars[0] == '+' {
        1
    } else {
        0
    };
    let ghost body = if s@.len() > 0 && s@[0] == '+' {
        s@.drop_first()
    } else {
        s@
    };
    assert(body =~= chars@.skip(start as int));
    if start == chars.len() {
        return None;
    }
    let mut acc: u64 = 0;
    let mut i = start;
    while i < chars.len()
        invariant
            chars@ == s@,
            2 <= radix <= 36,
            start <= i <= chars@.len(),
            body == chars@.skip(start as int),
            body == (if s@.len() > 0 && s@[0] == '+' {
                s@.drop_first()
            } else {
                s@
            }),
            digits_value(body.take(i - start), radix as nat) == Some(acc as nat),
            acc <= max,
        decreases chars.len() - i,
    {
        let ghost prefix = body.take(i - start);
        let ghost next = body.take(i + 1 - start);
        assert(next.drop_last() =~= prefix);
        assert(next.last() == chars@[i as int]);
        match digit_of(chars[i], radix) {
            None => {
                proof {
                    assert(digits_value(next, radix as nat) is None);
                    if digits_value(body, radix as nat) is Some {
                        lemma_digits_grow(body, radix as nat, i + 1 - start);
                    }
                }
                return None;
            },
            Some(d) => {
                assert((acc as u128) * (radix as u128) <= 36 * 0xffff_ffff_ffff_ffffu128) by (nonlinear_arith)
                    requires
                        acc <= 0xffff_ffff_ffff_ffffu64,
                        radix <= 36,
                ;
                let grown: u128 = (acc as u128) * (radix as u128) + (d as u128);
                assert(grown == acc * radix + d);
                if grown > max as u128 {
                    proof {
                        if digits_value(body, radix as nat) is Some {
                            lemma_digits_grow(body, radix as nat, i + 1 - start);
                        }
                    }
                    return None;
                }
                acc = grown as u64;
            },
        }
        i += 1;
    }
    assert(body.take(chars@.len() - start) =~= body);
    Some(acc)
}

} // verus!
