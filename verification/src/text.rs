//! Character-level helpers shared by the parsers in this crate. Templates and
//! addresses are handled as sequences of `char`, so every specification in the
//! crate speaks of `Seq<char>`.

use vstd::prelude::*;

verus! {

/// `String::push` appends one character.
pub assume_specification[ String::push ](string: &mut String, ch: char)
    ensures
        final(string)@ == old(string)@.push(ch),
;

/// `String::push_str` appends a whole string slice.
pub assume_specification[ String::push_str ](string: &mut String, other: &str)
    ensures
        final(string)@ == old(string)@ + other@,
;

/// The characters of `s`, in order.
pub fn chars_of(s: &str) -> (chars: Vec<char>)
    ensures
        chars@ == s@,
{
    let mut chars: Vec<char> = Vec::new();
    for c in it: s.chars()
        invariant
            chars@ == it.seq().take(it.index() as int),
    {
        chars.push(c);
    }
    chars
}

/// A fresh string holding `chars[start..end]`.
pub fn string_of(chars: &Vec<char>, start: usize, end: usize) -> (s: String)
    requires
        start <= end <= chars.len(),
    ensures
        s@ == chars@.subrange(start as int, end as int),
{
    let mut s = String::new();
    let mut i = start;
    while i < end
        invariant
            start <= i <= end <= chars.len(),
            s@ == chars@.subrange(start as int, i as int),
        decreases end - i,
    {
        s.push(chars[i]);
        i += 1;
    }
    s
}

/// A fresh string holding all of `chars`.
pub fn string_from(chars: &Vec<char>) -> (s: String)
    ensures
        s@ == chars@,
{
    let s = string_of(chars, 0, chars.len());
    assert(chars@.subrange(0, chars@.len() as int) =~= chars@);
    s
}

/// An owned copy of a string slice.
pub fn owned(s: &str) -> (copy: String)
    ensures
        copy@ == s@,
{
    let mut copy = String::new();
    copy.push_str(s);
    copy
}

/// Whether two character sequences are equal.
pub fn same_chars(left: &Vec<char>, right: &Vec<char>) -> (same: bool)
    ensures
        same == (left@ == right@),
{
    if left.len() != right.len() {
        return false;
    }
    let mut i: usize = 0;
    while i < left.len()
        invariant
            left.len() == right.len(),
            i <= left.len(),
            forall|j: int| 0 <= j < i ==> left@[j] == right@[j],
        decreases left.len() - i,
    {
        if left[i] != right[i] {
            return false;
        }
        i += 1;
    }
    assert(left@ =~= right@);
    true
}

/// Whether two string slices hold the same characters.
pub fn str_eq(left: &str, right: &str) -> (same: bool)
    ensures
        same == (left@ == right@),
{
    let l = chars_of(left);
    let r = chars_of(right);
    same_chars(&l, &r)
}

} // verus!

verus! {

/// Whether `pattern` occurs in `t` at index `i`.
pub open spec fn occurs_at(t: Seq<char>, pattern: Seq<char>, i: int) -> bool {
    0 <= i && i + pattern.len() <= t.len() && t.subrange(i, i + pattern.len()) == pattern
}

/// `t[i..]` with every occurrence of `pattern` replaced by `replacement`,
/// scanning left to right and never reusing replaced text.
pub open spec fn replaced_from(t: Seq<char>, pattern: Seq<char>, replacement: Seq<char>, i: int) -> Seq<
    char,
>
    recommends
        pattern.len() > 0,
    decreases t.len() - i,
{
    if i < 0 || i >= t.len() || pattern.len() == 0 {
        if 0 <= i <= t.len() {
            t.subrange(i, t.len() as int)
        } else {
            seq![]
        }
    } else if occurs_at(t, pattern, i) {
        replacement + replaced_from(t, pattern, replacement, i + pattern.len())
    } else {
        seq![t[i]] + replaced_from(t, pattern, replacement, i + 1)
    }
}

/// `t` with every occurrence of `pattern` replaced by `replacement`, as
/// `str::replace` does it.
pub open spec fn replaced(t: Seq<char>, pattern: Seq<char>, replacement: Seq<char>) -> Seq<char> {
    replaced_from(t, pattern, replacement, 0)
}

/// Whether `pattern` occurs in `chars` at index `at`.
fn occurs_at_exec(chars: &Vec<char>, pattern: &Vec<char>, at: usize) -> (found: bool)
    ensures
        found == occurs_at(chars@, pattern@, at as int),
{
    if at > chars.len() || pattern.len() > chars.len() - at {
        return false;
    }
    let mut k: usize = 0;
    while k < pattern.len()
        invariant
            at + pattern.len() <= chars.len(),
            k <= pattern.len(),
            forall|j: int| 0 <= j < k ==> chars@[at + j] == pattern@[j],
        decreases pattern.len() - k,
    {
        if chars[at + k] != pattern[k] {
            assert(chars@.subrange(at as int, at + pattern.len())[k as int] != pattern@[k as int]);
            return false;
        }
        k += 1;
    }
    assert(chars@.subrange(at as int, at + pattern.len()) =~= pattern@);
    true
}

proof fn lemma_replaced_tail(t: Seq<char>, pattern: Seq<char>, replacement: Seq<char>, i: int)
    requires
        pattern.len() > 0,
        0 <= i <= t.len(),
    ensures
        i == t.len() ==> replaced_from(t, pattern, replacement, i) == Seq::<char>::empty(),
{
    if i == t.len() {
        assert(t.subrange(i, t.len() as int) =~= Seq::<char>::empty());
    }
}

/// `text` with every occurrence of `pattern` replaced by `replacement`.
pub fn replace_all(text: &str, pattern: &str, replacement: &str) -> (result: String)
    requires
        pattern@.len() > 0,
    ensures
        result@ == replaced(text@, pattern@, replacement@),
{
    let chars = chars_of(text);
    let pattern_chars = chars_of(pattern);
    let mut result = String::new();
    let mut i: usize = 0;
    while i < chars.len()
        invariant
            chars@ == text@,
            pattern_chars@ == pattern@,
            pattern@.len() > 0,
            i <= chars.len(),
            result@ + replaced_from(chars@, pattern@, replacement@, i as int) == replaced(
                text@,
                pattern@,
                replacement@,
            ),
        decreases chars.len() - i,
    {
        let ghost before = result@;
        if occurs_at_exec(&chars, &pattern_chars, i) {
            result.push_str(replacement);
            proof {
                assert(before + replaced_from(chars@, pattern@, replacement@, i as int) =~= result@
                    + replaced_from(chars@, pattern@, replacement@, i + pattern@.len()));
            }
            i = i + pattern_chars.len();
        } else {
            result.push(chars[i]);
            proof {
                assert(before + replaced_from(chars@, pattern@, replacement@, i as int) =~= result@
                    + replaced_from(chars@, pattern@, replacement@, i + 1));
            }
            i = i + 1;
        }
    }
    proof {
        lemma_replaced_tail(chars@, pattern@, replacement@, i as int);
        assert(result@ + Seq::<char>::empty() =~= result@);
    }
    result
}

/// Text in which `pattern` does not occur is left as it is.
pub proof fn lemma_replace_without_pattern(t: Seq<char>, pattern: Seq<char>, replacement: Seq<char>, i: int)
    requires
        pattern.len() > 0,
        0 <= i <= t.len(),
        forall|k: int| 0 <= k < t.len() ==> !occurs_at(t, pattern, k),
    ensures
        replaced_from(t, pattern, replacement, i) == t.subrange(i, t.len() as int),
    decreases t.len() - i,
{
    if i < t.len() {
        lemma_replace_without_pattern(t, pattern, replacement, i + 1);
        assert(t.subrange(i, t.len() as int) =~= seq![t[i]] + t.subrange(i + 1, t.len() as int));
    }
}

} // verus!

verus! {

/// Unicode `White_Space`, the set `char::is_whitespace` and `str::trim` use.
pub open spec fn is_whitespace(c: char) -> bool {
    ('\u{9}' <= c && c <= '\u{d}') || c == ' ' || c == '\u{85}' || c == '\u{a0}' || c == '\u{1680}'
        || ('\u{2000}' <= c && c <= '\u{200a}') || c == '\u{2028}' || c == '\u{2029}' || c
        == '\u{202f}' || c == '\u{205f}' || c == '\u{3000}'
}

pub fn is_whitespace_exec(c: char) -> (ws: bool)
    ensures
        ws == is_whitespace(c),
{
    ('\u{9}' <= c && c <= '\u{d}') || c == ' ' || c == '\u{85}' || c == '\u{a0}' || c == '\u{1680}'
        || ('\u{2000}' <= c && c <= '\u{200a}') || c == '\u{2028}' || c == '\u{2029}' || c
        == '\u{202f}' || c == '\u{205f}' || c == '\u{3000}'
}

/// `s` without its leading whitespace.
pub open spec fn trim_start_ws(s: Seq<char>) -> Seq<char>
    decreases s.len(),
{
    if s.len() > 0 && is_whitespace(s[0]) {
        trim_start_ws(s.drop_first())
    } else {
        s
    }
}

/// `s` without its trailing whitespace.
pub open spec fn trim_end_ws(s: Seq<char>) -> Seq<char>
    decreases s.len(),
{
    if s.len() > 0 && is_whitespace(s.last()) {
        trim_end_ws(s.drop_last())
    } else {
        s
    }
}

/// `s` without leading or trailing whitespace, as `str::trim` gives it.
pub open spec fn trim_ws(s: Seq<char>) -> Seq<char> {
    trim_end_ws(trim_start_ws(s))
}

/// `s` without any trailing `c`, as `str::trim_end_matches` gives it.
pub open spec fn trim_end_char(s: Seq<char>, c: char) -> Seq<char>
    decreases s.len(),
{
    if s.len() > 0 && s.last() == c {
        trim_end_char(s.drop_last(), c)
    } else {
        s
    }
}

/// `s` without any leading `c`, as `str::trim_start_matches` gives it.
pub open spec fn trim_start_char(s: Seq<char>, c: char) -> Seq<char>
    decreases s.len(),
{
    if s.len() > 0 && s[0] == c {
        trim_start_char(s.drop_first(), c)
    } else {
        s
    }
}

proof fn lemma_trim_start_ws_is(s: Seq<char>, k: int)
    requires
        0 <= k <= s.len(),
        forall|m: int| 0 <= m < k ==> is_whitespace(s[m]),
        k == s.len() || !is_whitespace(s[k]),
    ensures
        trim_start_ws(s) == s.skip(k),
    decreases k,
{
    if k > 0 {
        lemma_trim_start_ws_is(s.drop_first(), k - 1);
        assert(s.drop_first().skip(k - 1) =~= s.skip(k));
    } else {
        assert(s.skip(0) =~= s);
    }
}

proof fn lemma_trim_end_ws_is(s: Seq<char>, k: int)
    requires
        0 <= k <= s.len(),
        forall|m: int| k <= m < s.len() ==> is_whitespace(s[m]),
        k == 0 || !is_whitespace(s[k - 1]),
    ensures
        trim_end_ws(s) == s.take(k),
    decreases s.len() - k,
{
    if k < s.len() {
        lemma_trim_end_ws_is(s.drop_last(), k);
        assert(s.drop_last().take(k) =~= s.take(k));
    } else {
        assert(s.take(k) =~= s);
    }
}

pub proof fn lemma_trim_end_char_is(s: Seq<char>, c: char, k: int)
    requires
        0 <= k <= s.len(),
        forall|m: int| k <= m < s.len() ==> s[m] == c,
        k == 0 || s[k - 1] != c,
    ensures
        trim_end_char(s, c) == s.take(k),
    decreases s.len() - k,
{
    if k < s.len() {
        lemma_trim_end_char_is(s.drop_last(), c, k);
        assert(s.drop_last().take(k) =~= s.take(k));
    } else {
        assert(s.take(k) =~= s);
    }
}

pub proof fn lemma_trim_start_char_is(s: Seq<char>, c: char, k: int)
    requires
        0 <= k <= s.len(),
        forall|m: int| 0 <= m < k ==> s[m] == c,
        k == s.len() || s[k] != c,
    ensures
        trim_start_char(s, c) == s.skip(k),
    decreases k,
{
    if k > 0 {
        lemma_trim_start_char_is(s.drop_first(), c, k - 1);
        assert(s.drop_first().skip(k - 1) =~= s.skip(k));
    } else {
        assert(s.skip(0) =~= s);
    }
}

/// The bounds of `chars[start..end]` with its whitespace trimmed.
pub fn trim_bounds(chars: &Vec<char>, start: usize, end: usize) -> (bounds: (usize, usize))
    requires
        start <= end <= chars.len(),
    ensures
        start <= bounds.0 <= bounds.1 <= end,
        chars@.subrange(bounds.0 as int, bounds.1 as int) == trim_ws(
            chars@.subrange(start as int, end as int),
        ),
{
    let ghost s = chars@.subrange(start as int, end as int);
    let mut i = start;
    while i < end && is_whitespace_exec(chars[i])
        invariant
            start <= i <= end <= chars.len(),
            forall|m: int| start <= m < i ==> is_whitespace(chars@[m]),
        decreases end - i,
    {
        i += 1;
    }
    proof {
        assert forall|m: int| 0 <= m < i - start implies is_whitespace(s[m]) by {
            assert(s[m] == chars@[start + m]);
        }
        if i < end {
            assert(s[i - start] == chars@[i as int]);
        }
        lemma_trim_start_ws_is(s, i - start);
    }
    let mut j = end;
    while j > i && is_whitespace_exec(chars[j - 1])
        invariant
            start <= i <= j <= end <= chars.len(),
            forall|m: int| j <= m < end ==> is_whitespace(chars@[m]),
        decreases j - i,
    {
        j -= 1;
    }
    proof {
        let u = s.skip(i - start);
        assert(u =~= chars@.subrange(i as int, end as int));
        assert forall|m: int| j - i <= m < u.len() implies is_whitespace(u[m]) by {
            assert(u[m] == chars@[i + m]);
        }
        if j > i {
            assert(u[j - i - 1] == chars@[j - 1]);
        }
        lemma_trim_end_ws_is(u, j - i);
        assert(u.take(j - i) =~= chars@.subrange(i as int, j as int));
    }
    (i, j)
}

/// The end of `chars[start..end]` once trailing `c` are trimmed.
pub fn trim_end_bound(chars: &Vec<char>, start: usize, end: usize, c: char) -> (trimmed: usize)
    requires
        start <= end <= chars.len(),
    ensures
        start <= trimmed <= end,
        chars@.subrange(start as int, trimmed as int) == trim_end_char(
            chars@.subrange(start as int, end as int),
            c,
        ),
{
    let ghost s = chars@.subrange(start as int, end as int);
    let mut j = end;
    while j > start && chars[j - 1] == c
        invariant
            start <= j <= end <= chars.len(),
            forall|m: int| j <= m < end ==> chars@[m] == c,
        decreases j - start,
    {
        j -= 1;
    }
    proof {
        assert forall|m: int| j - start <= m < s.len() implies s[m] == c by {
            assert(s[m] == chars@[start + m]);
        }
        if j > start {
            assert(s[j - start - 1] == chars@[j - 1]);
        }
        lemma_trim_end_char_is(s, c, j - start);
        assert(s.take(j - start) =~= chars@.subrange(start as int, j as int));
    }
    j
}

/// The start of `chars[start..end]` once leading `c` are trimmed.
pub fn trim_start_bound(chars: &Vec<char>, start: usize, end: usize, c: char) -> (trimmed: usize)
    requires
        start <= end <= chars.len(),
    ensures
        start <= trimmed <= end,
        chars@.subrange(trimmed as int, end as int) == trim_start_char(
            chars@.subrange(start as int, end as int),
            c,
        ),
{
    let ghost s = chars@.subrange(start as int, end as int);
    let mut i = start;
    while i < end && chars[i] == c
        invariant
            start <= i <= end <= chars.len(),
            forall|m: int| start <= m < i ==> chars@[m] == c,
        decreases end - i,
    {
        i += 1;
    }
    proof {
        assert forall|m: int| 0 <= m < i - start implies s[m] == c by {
            assert(s[m] == chars@[start + m]);
        }
        if i < end {
            assert(s[i - start] == chars@[i as int]);
        }
        lemma_trim_start_char_is(s, c, i - start);
        assert(s.skip(i - start) =~= chars@.subrange(i as int, end as int));
    }
    i
}

/// The ASCII lower-case form of a character; other characters are kept.
pub open spec fn ascii_lower(c: char) -> char {
    if 'A' <= c && c <= 'Z' {
        ((c as u32) + 32) as char
    } else {
        c
    }
}

/// `s` with ASCII upper-case letters lowered, as `str::to_ascii_lowercase`
/// gives it.
pub open spec fn ascii_lowercase(s: Seq<char>) -> Seq<char> {
    s.map_values(|c: char| ascii_lower(c))
}

pub fn ascii_lower_exec(c: char) -> (lowered: char)
    ensures
        lowered == ascii_lower(c),
{
    if 'A' <= c && c <= 'Z' {
        let code = (c as u32) + 32;
        assert(code <= 'z' as u32);
        char_from_ascii(code)
    } else {
        c
    }
}

/// The character with an ASCII code.
fn char_from_ascii(code: u32) -> (c: char)
    requires
        code < 128,
    ensures
        c == code as char,
{
    let byte = code as u8;
    byte as char
}

/// The first index at or after `from` where `pattern` occurs in `t`, or
/// `t.len()`.
pub open spec fn find_sub_from(t: Seq<char>, pattern: Seq<char>, from: int) -> int
    decreases t.len() - from,
{
    if from < 0 || from >= t.len() {
        t.len() as int
    } else if occurs_at(t, pattern, from) {
        from
    } else {
        find_sub_from(t, pattern, from + 1)
    }
}

proof fn lemma_find_sub_is(t: Seq<char>, pattern: Seq<char>, from: int, k: int)
    requires
        0 <= from <= k <= t.len(),
        forall|m: int| from <= m < k ==> !occurs_at(t, pattern, m),
        k == t.len() || occurs_at(t, pattern, k),
    ensures
        find_sub_from(t, pattern, from) == k,
    decreases k - from,
{
    if from < k {
        lemma_find_sub_is(t, pattern, from + 1, k);
    }
}

/// The first index in `chars` where `pattern` occurs, or `chars.len()`.
pub fn find_sub(chars: &Vec<char>, pattern: &Vec<char>) -> (found: usize)
    ensures
        found == find_sub_from(chars@, pattern@, 0),
        found <= chars.len(),
{
    let mut k: usize = 0;
    while k < chars.len() && !occurs_at_exec(chars, pattern, k)
        invariant
            k <= chars.len(),
            forall|m: int| 0 <= m < k ==> !occurs_at(chars@, pattern@, m),
        decreases chars.len() - k,
    {
        k += 1;
    }
    proof {
        lemma_find_sub_is(chars@, pattern@, 0, k as int);
    }
    k
}


/// A fresh vector holding `chars[start..end]`.
pub fn chars_between(chars: &Vec<char>, start: usize, end: usize) -> (part: Vec<char>)
    requires
        start <= end <= chars.len(),
    ensures
        part@ == chars@.subrange(start as int, end as int),
{
    let mut part: Vec<char> = Vec::new();
    let mut i = start;
    while i < end
        invariant
            start <= i <= end <= chars.len(),
            part@ == chars@.subrange(start as int, i as int),
        decreases end - i,
    {
        part.push(chars[i]);
        i += 1;
    }
    part
}

/// Whether `s` ends with `suffix`.
pub open spec fn ends_with(s: Seq<char>, suffix: Seq<char>) -> bool {
    s.len() >= suffix.len() && s.skip(s.len() - suffix.len()) == suffix
}

/// Whether `chars[start..end]` ends with `suffix`.
pub fn ends_with_in(chars: &Vec<char>, start: usize, end: usize, suffix: &Vec<char>) -> (found: bool)
    requires
        start <= end <= chars.len(),
    ensures
        found == ends_with(chars@.subrange(start as int, end as int), suffix@),
{
    let ghost s = chars@.subrange(start as int, end as int);
    if end - start < suffix.len() {
        return false;
    }
    let at = end - suffix.len();
    let found = occurs_at_exec(chars, suffix, at);
    proof {
        assert(s.skip(s.len() - suffix@.len()) =~= chars@.subrange(at as int, end as int));
    }
    found
}

/// `chars[start..end]` with ASCII letters lowered.
pub fn ascii_lowercase_of(chars: &Vec<char>, start: usize, end: usize) -> (lowered: Vec<char>)
    requires
        start <= end <= chars.len(),
    ensures
        lowered@ == ascii_lowercase(chars@.subrange(start as int, end as int)),
{
    let mut lowered: Vec<char> = Vec::new();
    let mut i = start;
    while i < end
        invariant
            start <= i <= end <= chars.len(),
            lowered@ == ascii_lowercase(chars@.subrange(start as int, i as int)),
        decreases end - i,
    {
        let c = ascii_lower_exec(chars[i]);
        proof {
            assert(chars@.subrange(start as int, i + 1) =~= chars@.subrange(start as int, i as int).push(
                chars@[i as int],
            ));
        }
        lowered.push(c);
        proof {
            assert(lowered@ =~= ascii_lowercase(chars@.subrange(start as int, i + 1)));
        }
        i += 1;
    }
    lowered
}

/// A result with its strings taken by their characters.
pub open spec fn result_view(result: Result<String, String>) -> Result<Seq<char>, Seq<char>> {
    match result {
        Ok(value) => Ok(value@),
        Err(message) => Err(message@),
    }
}

/// An optional string taken by its characters.
pub open spec fn option_view(value: Option<String>) -> Option<Seq<char>> {
    match value {
        Some(text) => Some(text@),
        None => None,
    }
}


/// Whether `s` starts with `prefix`.
pub open spec fn starts_with(s: Seq<char>, prefix: Seq<char>) -> bool {
    s.len() >= prefix.len() && s.take(prefix.len() as int) == prefix
}

/// Whether `s` starts with `prefix`, as `str::starts_with` answers it.
pub fn str_starts_with(s: &str, prefix: &str) -> (found: bool)
    ensures
        found == starts_with(s@, prefix@),
{
    let chars = chars_of(s);
    let pattern = chars_of(prefix);
    let found = occurs_at_exec(&chars, &pattern, 0);
    proof {
        if chars@.len() >= pattern@.len() {
            assert(chars@.subrange(0, pattern@.len() as int) =~= chars@.take(pattern@.len() as int));
        }
    }
    found
}

/// The decimal digit for `d < 10`.
pub open spec fn digit(d: nat) -> char {
    ((d + 48) as u32) as char
}

/// `n` written in decimal, without leading zeros.
pub open spec fn decimal(n: nat) -> Seq<char>
    decreases n,
{
    if n < 10 {
        seq![digit(n)]
    } else {
        decimal(n / 10).push(digit(n % 10))
    }
}

/// `n` written in decimal with at least two digits, as `{:02}` writes it.
pub open spec fn two_digits(n: nat) -> Seq<char> {
    if n < 10 {
        seq!['0', digit(n)]
    } else {
        decimal(n)
    }
}

fn digit_char(d: u64) -> (c: char)
    requires
        d < 10,
    ensures
        c == digit(d as nat),
{
    let byte = (d + 48) as u8;
    byte as char
}

/// `n` written in decimal.
pub fn decimal_text(n: u64) -> (text: String)
    ensures
        text@ == decimal(n as nat),
    decreases n,
{
    if n < 10 {
        let mut text = String::new();
        text.push(digit_char(n));
        proof {
            assert(text@ =~= seq![digit(n as nat)]);
        }
        text
    } else {
        let mut text = decimal_text(n / 10);
        text.push(digit_char(n % 10));
        text
    }
}

/// `n` written with at least two decimal digits.
pub fn two_digit_text(n: u64) -> (text: String)
    ensures
        text@ == two_digits(n as nat),
{
    if n < 10 {
        let mut text = String::new();
        text.push('0');
        text.push(digit_char(n));
        proof {
            assert(text@ =~= seq!['0', digit(n as nat)]);
        }
        text
    } else {
        decimal_text(n)
    }
}


/// A word that neither starts nor ends with whitespace is its own trim.
pub proof fn lemma_trim_ws_of_word(s: Seq<char>)
    requires
        s.len() > 0,
        !is_whitespace(s[0]),
        !is_whitespace(s.last()),
    ensures
        trim_ws(s) == s,
{
}

} // verus!
