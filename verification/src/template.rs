//! Value templates: text in which `$(instance:name)` is replaced by what an
//! instance published under `name`.
//!
//! `$$` is a literal dollar. Anything else that is not a well-formed reference
//! is left as written: an unmatched `$(` is far more likely to be text the user
//! meant than a binding worth hiding.

use vstd::prelude::*;
use crate::identifiers::IntegrationId;
use crate::text::{chars_of, string_of, owned};

verus! {

/// The namespace a button writes into when it keeps its own state.
pub const USER_NAMESPACE: &'static str = "user";

/// One value an instance publishes: the instance and the value's name.
#[derive(Debug, Eq, Hash)]
pub struct VariableRef {
    pub integration_id: IntegrationId,
    pub name: String,
}

impl Clone for VariableRef {
    fn clone(&self) -> (copy: Self)
        ensures
            copy == *self,
    {
        VariableRef { integration_id: self.integration_id.clone(), name: self.name.clone() }
    }
}

impl View for VariableRef {
    type V = (Seq<char>, Seq<char>);

    open spec fn view(&self) -> (Seq<char>, Seq<char>) {
        (self.integration_id@, self.name@)
    }
}

impl PartialEq for VariableRef {
    fn eq(&self, other: &Self) -> (same: bool) {
        self.integration_id.0 == other.integration_id.0 && self.name == other.name
    }
}

impl vstd::std_specs::cmp::PartialEqSpecImpl for VariableRef {
    open spec fn obeys_eq_spec() -> bool {
        true
    }

    open spec fn eq_spec(&self, other: &VariableRef) -> bool {
        self@ == other@
    }
}

impl VariableRef {
    pub fn new(integration_id: &str, name: &str) -> (reference: VariableRef)
        ensures
            reference@ == (integration_id@, name@),
    {
        VariableRef { integration_id: IntegrationId(owned(integration_id)), name: owned(name) }
    }

    /// A value in the namespace buttons write into themselves.
    pub fn user(name: &str) -> (reference: VariableRef)
        ensures
            reference@ == (USER_NAMESPACE@, name@),
    {
        Self::new(USER_NAMESPACE, name)
    }

    /// How the reference is written inside a template: `$(instance:name)`.
    pub fn to_template(&self) -> (written: String)
        ensures
            written@ == written_reference(self@),
    {
        let mut written = String::new();
        written.push('$');
        written.push('(');
        written.push_str(self.integration_id.0.as_str());
        written.push(':');
        written.push_str(self.name.as_str());
        written.push(')');
        written
    }
}

/// `$(instance:name)` for a reference.
pub open spec fn written_reference(reference: (Seq<char>, Seq<char>)) -> Seq<char> {
    seq!['$', '('] + reference.0 + seq![':'] + reference.1 + seq![')']
}

/// The characters a reference part may use.
pub open spec fn is_part_char(c: char) -> bool {
    ('a' <= c && c <= 'z') || ('A' <= c && c <= 'Z') || ('0' <= c && c <= '9') || c == '-' || c
        == '_' || c == '.'
}

/// An instance id or a value name as a reference may spell it: not empty, and
/// only ASCII letters, digits, `-`, `_` and `.`.
pub open spec fn is_reference_part_spec(part: Seq<char>) -> bool {
    part.len() > 0 && forall|i: int| 0 <= i < part.len() ==> is_part_char(#[trigger] part[i])
}

/// The first index at or after `from` that holds `target`, or `t.len()` when
/// there is none.
pub open spec fn find_from(t: Seq<char>, target: char, from: int) -> int
    decreases t.len() - from,
{
    if from < 0 || from >= t.len() {
        t.len() as int
    } else if t[from] == target {
        from
    } else {
        find_from(t, target, from + 1)
    }
}

/// `instance:name`, split at its first colon, when both sides are reference
/// parts.
pub open spec fn parse_reference_spec(body: Seq<char>) -> Option<(Seq<char>, Seq<char>)> {
    let colon = find_from(body, ':', 0);
    if colon < body.len() && is_reference_part_spec(body.take(colon))
        && is_reference_part_spec(body.skip(colon + 1)) {
        Some((body.take(colon), body.skip(colon + 1)))
    } else {
        None
    }
}

/// What one position of a template contributes: a character written as is,
/// or a reference to be replaced.
pub ghost enum Piece {
    Char(char),
    Ref((Seq<char>, Seq<char>)),
}

/// The reference that starts at `i` (with `$(`), and the index of its closing
/// parenthesis, if the text there is a well-formed reference.
pub open spec fn reference_at(t: Seq<char>, i: int) -> Option<((Seq<char>, Seq<char>), int)> {
    let close = find_from(t, ')', i + 2);
    if 0 <= i && i + 1 < t.len() && t[i] == '$' && t[i + 1] == '(' && i + 2 <= close < t.len() {
        match parse_reference_spec(t.subrange(i + 2, close)) {
            Some(reference) => Some((reference, close)),
            None => None,
        }
    } else {
        None
    }
}

/// The pieces of `t` from index `i` on.
pub open spec fn pieces_from(t: Seq<char>, i: int) -> Seq<Piece>
    decreases t.len() - i,
{
    if i < 0 || i >= t.len() {
        seq![]
    } else if t[i] != '$' {
        seq![Piece::Char(t[i])] + pieces_from(t, i + 1)
    } else if i + 1 < t.len() && t[i + 1] == '$' {
        seq![Piece::Char('$')] + pieces_from(t, i + 2)
    } else {
        match reference_at(t, i) {
            Some((reference, close)) => if i < close {
                seq![Piece::Ref(reference)] + pieces_from(t, close + 1)
            } else {
                seq![]
            },
            None => seq![Piece::Char('$')] + pieces_from(t, i + 1),
        }
    }
}

/// The pieces of a whole template.
pub open spec fn pieces(t: Seq<char>) -> Seq<Piece> {
    pieces_from(t, 0)
}

/// The references among some pieces, in order.
pub open spec fn references_in(ps: Seq<Piece>) -> Seq<(Seq<char>, Seq<char>)>
    decreases ps.len(),
{
    if ps.len() == 0 {
        seq![]
    } else {
        match ps.last() {
            Piece::Char(_) => references_in(ps.drop_last()),
            Piece::Ref(reference) => references_in(ps.drop_last()).push(reference),
        }
    }
}

/// Every well-formed reference in a template, in the order they appear.
pub open spec fn template_references(t: Seq<char>) -> Seq<(Seq<char>, Seq<char>)> {
    references_in(pieces(t))
}

/// The text some pieces render to when the k-th reference among them
/// renders as `values[k]`.
pub open spec fn render_pieces(ps: Seq<Piece>, values: Seq<Seq<char>>) -> Seq<char>
    decreases ps.len(),
{
    if ps.len() == 0 {
        seq![]
    } else {
        match ps.last() {
            Piece::Char(c) => render_pieces(ps.drop_last(), values).push(c),
            Piece::Ref(_) => render_pieces(ps.drop_last(), values.drop_last()) + values.last(),
        }
    }
}

/// What a template renders to when its k-th reference renders as `values[k]`.
pub open spec fn render_template(t: Seq<char>, values: Seq<Seq<char>>) -> Seq<char> {
    render_pieces(pieces(t), values)
}

/// A lookup answer as rendered text: the value, or nothing.
pub open spec fn text_or_empty(answer: Option<String>) -> Seq<char> {
    match answer {
        Some(text) => text@,
        None => seq![],
    }
}

/// The pieces from `i` are `piece` followed by the pieces from `next`.
pub open spec fn piece_then(t: Seq<char>, i: int, piece: Piece, next: int) -> bool {
    pieces_from(t, i) === seq![piece] + pieces_from(t, next)
}

/// One step of the scan: what the piece at `i` is and where the next starts.
proof fn lemma_pieces_step(t: Seq<char>, i: int)
    requires
        0 <= i < t.len(),
    ensures
        t[i] != '$' ==> piece_then(t, i, Piece::Char(t[i]), i + 1),
        t[i] == '$' && i + 1 < t.len() && t[i + 1] == '$' ==> piece_then(
            t,
            i,
            Piece::Char('$'),
            i + 2,
        ),
        t[i] == '$' && !(i + 1 < t.len() && t[i + 1] == '$') ==> match reference_at(t, i) {
            Some((reference, close)) => piece_then(t, i, Piece::Ref(reference), close + 1),
            None => piece_then(t, i, Piece::Char('$'), i + 1),
        },
{
}

pub proof fn lemma_find_from_bounds(t: Seq<char>, target: char, from: int)
    requires
        0 <= from,
    ensures
        from <= find_from(t, target, from) || from > t.len(),
        0 <= find_from(t, target, from) <= t.len(),
        find_from(t, target, from) < t.len() ==> t[find_from(t, target, from)] == target,
        forall|k: int| from <= k < find_from(t, target, from) ==> t[k] != target,
    decreases t.len() - from,
{
    if from >= t.len() {
    } else if t[from] == target {
    } else {
        lemma_find_from_bounds(t, target, from + 1);
    }
}

/// `find_from` is the first hit: a scan that met no `target` in `[from, k)`
/// and stops at `k` on a hit or at the end has found it.
proof fn lemma_find_from_is(t: Seq<char>, target: char, from: int, k: int)
    requires
        0 <= from <= k <= t.len(),
        forall|m: int| from <= m < k ==> t[m] != target,
        k == t.len() || t[k] == target,
    ensures
        find_from(t, target, from) == k,
    decreases k - from,
{
    if from < k {
        lemma_find_from_is(t, target, from + 1, k);
    }
}

fn is_part_char_exec(c: char) -> (ok: bool)
    ensures
        ok == is_part_char(c),
{
    ('a' <= c && c <= 'z') || ('A' <= c && c <= 'Z') || ('0' <= c && c <= '9') || c == '-' || c
        == '_' || c == '.'
}

/// Whether `t[start..end]` is a reference part.
fn is_reference_part(t: &Vec<char>, start: usize, end: usize) -> (ok: bool)
    requires
        start <= end <= t.len(),
    ensures
        ok == is_reference_part_spec(t@.subrange(start as int, end as int)),
{
    if start == end {
        return false;
    }
    let mut i = start;
    while i < end
        invariant
            start <= i <= end <= t.len(),
            forall|j: int| start <= j < i ==> is_part_char(t@[j]),
        decreases end - i,
    {
        if !is_part_char_exec(t[i]) {
            assert(t@.subrange(start as int, end as int)[i - start] == t@[i as int]);
            return false;
        }
        i += 1;
    }
    assert forall|j: int| 0 <= j < end - start implies is_part_char(
        #[trigger] t@.subrange(start as int, end as int)[j],
    ) by {
        assert(t@.subrange(start as int, end as int)[j] == t@[start + j]);
    }
    true
}

/// The first index in `[from, end)` holding `target`, or `end`.
pub fn find_in(t: &Vec<char>, target: char, from: usize, end: usize) -> (found: usize)
    requires
        from <= end <= t.len(),
    ensures
        from <= found <= end,
        found == from + find_from(t@.subrange(from as int, end as int), target, 0),
        found == find_from(t@.subrange(0, end as int), target, from as int),
{
    let mut k = from;
    while k < end && t[k] != target
        invariant
            from <= k <= end <= t.len(),
            forall|m: int| from <= m < k ==> t@[m] != target,
        decreases end - k,
    {
        k += 1;
    }
    proof {
        let window = t@.subrange(from as int, end as int);
        assert forall|m: int| 0 <= m < k - from implies window[m] != target by {
            assert(window[m] == t@[from + m]);
        }
        if k < end {
            assert(window[k - from] == t@[k as int]);
        }
        lemma_find_from_is(window, target, 0, k - from);
        let prefix = t@.subrange(0, end as int);
        assert forall|m: int| from <= m < k implies prefix[m] != target by {
            assert(prefix[m] == t@[m]);
        }
        lemma_find_from_is(prefix, target, from as int, k as int);
    }
    k
}

/// Splits `t[start..end]` at its first colon into a reference, when both sides
/// are reference parts.
fn parse_reference(t: &Vec<char>, start: usize, end: usize) -> (parsed: Option<VariableRef>)
    requires
        start <= end <= t.len(),
    ensures
        match parse_reference_spec(t@.subrange(start as int, end as int)) {
            Some(reference) => parsed is Some && parsed->0@ == reference,
            None => parsed is None,
        },
{
    let ghost body = t@.subrange(start as int, end as int);
    let colon = find_in(t, ':', start, end);
    if colon == end {
        return None;
    }
    assert(body.take(colon - start) =~= t@.subrange(start as int, colon as int));
    assert(body.skip(colon - start + 1) =~= t@.subrange(colon + 1, end as int));
    if !is_reference_part(t, start, colon) || !is_reference_part(t, colon + 1, end) {
        return None;
    }
    let integration_id = string_of(t, start, colon);
    let name = string_of(t, colon + 1, end);
    Some(VariableRef { integration_id: IntegrationId(integration_id), name })
}

/// One piece of a template as the scanner produces it.
enum Segment {
    Literal(char),
    Reference(VariableRef),
}

impl Segment {
    spec fn piece(self) -> Piece {
        match self {
            Segment::Literal(c) => Piece::Char(c),
            Segment::Reference(reference) => Piece::Ref(reference@),
        }
    }
}

spec fn pieces_of(segments: Seq<Segment>) -> Seq<Piece> {
    segments.map_values(|segment: Segment| segment.piece())
}

/// Pushing a segment and its piece keeps the two sequences in step.
proof fn lemma_scanned_push(found: Seq<Segment>, pushed: Segment, scanned: Seq<Piece>, piece: Piece)
    requires
        found.len() == scanned.len(),
        forall|k: int| 0 <= k < found.len() ==> (#[trigger] found[k]).piece() === scanned[k],
        pushed.piece() === piece,
    ensures
        forall|k: int|
            0 <= k < found.len() + 1 ==> (#[trigger] found.push(pushed)[k]).piece() === scanned.push(
                piece,
            )[k],
{
    assert forall|k: int| 0 <= k < found.len() + 1 implies (#[trigger] found.push(pushed)[k]).piece()
        === scanned.push(piece)[k] by {
        if k < found.len() {
            assert(found.push(pushed)[k] === found[k]);
            assert(scanned.push(piece)[k] === scanned[k]);
        }
    }
}

/// Two sequences with the same length and the same elements are the same.
pub proof fn lemma_seq_same<A>(a: Seq<A>, b: Seq<A>)
    requires
        a.len() == b.len(),
        forall|k: int| 0 <= k < a.len() ==> a[k] === b[k],
    ensures
        a === b,
{
    assert(a =~= b);
}

/// Moving one element across a concatenation.
pub proof fn lemma_push_then_concat<A>(a: Seq<A>, p: A, b: Seq<A>)
    ensures
        a.push(p) + b === a + (seq![p] + b),
{
    assert(a.push(p) + b =~= a + (seq![p] + b));
}

/// Scans the piece that starts at `i`: what it is and where the next starts.
fn scan_piece(t: &Vec<char>, i: usize) -> (scanned: (Segment, usize))
    requires
        i < t.len(),
    ensures
        i < scanned.1 <= t.len(),
        piece_then(t@, i as int, scanned.0.piece(), scanned.1 as int),
{
    let n = t.len();
    proof {
        lemma_pieces_step(t@, i as int);
    }
    let c = t[i];
    if c != '$' {
        return (Segment::Literal(c), i + 1);
    }
    if i + 1 < n && t[i + 1] == '$' {
        return (Segment::Literal('$'), i + 2);
    }
    if i + 1 < n && t[i + 1] == '(' {
        let close = find_in(t, ')', i + 2, n);
        proof {
            assert(t@.subrange(0, n as int) =~= t@);
            assert(close == find_from(t@, ')', i + 2));
            lemma_find_from_bounds(t@, ')', i + 2);
        }
        if close < n {
            match parse_reference(t, i + 2, close) {
                Some(reference) => {
                    assert(reference_at(t@, i as int) == Some((reference@, close as int)));
                    return (Segment::Reference(reference), close + 1);
                },
                None => {},
            }
        }
    }
    (Segment::Literal('$'), i + 1)
}

/// Splits a template into its pieces.
fn segments(template: &str) -> (found: Vec<Segment>)
    ensures
        pieces_of(found@) === pieces(template@),
{
    let t = chars_of(template);
    let n = t.len();
    let mut found: Vec<Segment> = Vec::new();
    let ghost mut scanned: Seq<Piece> = seq![];
    let mut i: usize = 0;
    while i < n
        invariant
            n == t.len(),
            t@ == template@,
            i <= n,
            scanned + pieces_from(t@, i as int) === pieces(t@),
            found@.len() == scanned.len(),
            forall|k: int| 0 <= k < found@.len() ==> (#[trigger] found@[k]).piece() === scanned[k],
        decreases n - i,
    {
        let (segment, next) = scan_piece(&t, i);
        let ghost piece = segment.piece();
        let ghost before = found@;
        proof {
            lemma_push_then_concat(scanned, piece, pieces_from(t@, next as int));
            lemma_scanned_push(before, segment, scanned, piece);
        }
        found.push(segment);
        proof {
            scanned = scanned.push(piece);
        }
        i = next;
    }
    proof {
        let ps = pieces_of(found@);
        assert forall|k: int| 0 <= k < ps.len() implies ps[k] === scanned[k] by {
            assert(ps[k] === found@[k].piece());
        }
        lemma_seq_same(ps, scanned);
        assert(pieces_from(t@, n as int) === Seq::<Piece>::empty());
        assert(scanned + Seq::<Piece>::empty() =~= scanned);
    }
    found
}

/// The rendered text of each lookup answer, in order.
pub open spec fn answers(looked: Seq<(VariableRef, Option<String>)>) -> Seq<Seq<char>> {
    looked.map_values(|entry: (VariableRef, Option<String>)| text_or_empty(entry.1))
}

/// `looked` pairs each of `references`, in order, with an answer `lookup`
/// may give for it.
pub open spec fn lookups_made<F: Fn(&VariableRef) -> Option<String>>(
    lookup: F,
    references: Seq<(Seq<char>, Seq<char>)>,
    looked: Seq<(VariableRef, Option<String>)>,
) -> bool {
    &&& looked.len() == references.len()
    &&& forall|k: int|
        0 <= k < looked.len() ==> (#[trigger] looked[k]).0@ == references[k] && call_ensures(
            lookup,
            (&looked[k].0,),
            looked[k].1,
        )
}

/// Renders a template, replacing each well-formed reference with what `lookup`
/// answers for it, or with nothing when it answers `None`.
///
/// The lookup is asked once per reference, in order; `looked` in the
/// postcondition records each reference it was asked about and the answer it
/// gave.
pub fn interpolate<F: Fn(&VariableRef) -> Option<String>>(template: &str, lookup: F) -> (rendered:
    String)
    requires
        forall|reference: &VariableRef| call_requires(lookup, (reference,)),
    ensures
        exists|looked: Seq<(VariableRef, Option<String>)>|
            #[trigger] lookups_made(lookup, template_references(template@), looked) && rendered@
                == render_template(template@, answers(looked)),
        template_references(template@).len() == 0 && no_doubled_dollar(template@) ==> rendered@ == template@,
{
    let found = segments(template);
    let mut rendered = String::new();
    let ghost mut looked: Seq<(VariableRef, Option<String>)> = seq![];
    let mut i: usize = 0;
    while i < found.len()
        invariant
            i <= found.len(),
            forall|reference: &VariableRef| call_requires(lookup, (reference,)),
            pieces_of(found@) === pieces(template@),
            lookups_made(lookup, references_in(pieces_of(found@.take(i as int))), looked),
            rendered@ == render_pieces(pieces_of(found@.take(i as int)), answers(looked)),
        decreases found.len() - i,
    {
        let ghost prefix = pieces_of(found@.take(i as int));
        let ghost next = pieces_of(found@.take(i + 1));
        assert(next.drop_last() =~= prefix);
        assert(next.last() == found@[i as int].piece());
        match &found[i] {
            Segment::Literal(c) => {
                rendered.push(*c);
            },
            Segment::Reference(reference) => {
                let answer = lookup(reference);
                proof {
                    let old_looked = looked;
                    looked = looked.push((*reference, answer));
                    assert(looked.drop_last() =~= old_looked);
                    assert(answers(looked).drop_last() =~= answers(old_looked));
                }
                match answer {
                    Some(text) => rendered.push_str(text.as_str()),
                    None => {},
                }
            },
        }
        i += 1;
    }
    assert(found@.take(found@.len() as int) =~= found@);
    assert(lookups_made(lookup, template_references(template@), looked));
    proof {
        if template_references(template@).len() == 0 && no_doubled_dollar(template@) {
            lemma_unreferenced_template_renders_as_written(template@, answers(looked));
        }
    }
    rendered
}

/// Every well-formed reference in a template, in order.
pub fn references(template: &str) -> (found: Vec<VariableRef>)
    ensures
        found@.map_values(|reference: VariableRef| reference@) == template_references(template@),
{
    let segments = segments(template);
    let mut found: Vec<VariableRef> = Vec::new();
    let mut i: usize = 0;
    while i < segments.len()
        invariant
            i <= segments.len(),
            found@.map_values(|reference: VariableRef| reference@) == references_in(
                pieces_of(segments@.take(i as int)),
            ),
        decreases segments.len() - i,
    {
        let ghost prefix = pieces_of(segments@.take(i as int));
        let ghost next = pieces_of(segments@.take(i + 1));
        assert(next.drop_last() =~= prefix);
        assert(next.last() == segments@[i as int].piece());
        let ghost before = found@;
        match &segments[i] {
            Segment::Literal(_) => {},
            Segment::Reference(reference) => {
                found.push(reference.clone());
                assert(found@.map_values(|reference: VariableRef| reference@) =~= before.map_values(
                    |reference: VariableRef| reference@,
                ).push(reference@));
            },
        }
        i += 1;
    }
    assert(segments@.take(segments@.len() as int) =~= segments@);
    found
}

/// Whether a template holds at least one well-formed reference.
pub fn has_reference(template: &str) -> (found: bool)
    ensures
        found == (template_references(template@).len() > 0),
{
    let all = references(template);
    assert(all@.map_values(|reference: VariableRef| reference@).len() == all@.len());
    all.len() > 0
}

} // verus!

verus! {

/// Dropping the last element of `[x] + rest` keeps `x` in front.
pub proof fn lemma_front_drop_last<A>(x: A, rest: Seq<A>)
    requires
        rest.len() > 0,
    ensures
        (seq![x] + rest).drop_last() === seq![x] + rest.drop_last(),
        (seq![x] + rest).last() === rest.last(),
{
    assert((seq![x] + rest).drop_last() =~= seq![x] + rest.drop_last());
}

/// Facts about one-element sequences.
pub proof fn lemma_single<A>(x: A)
    ensures
        seq![x].drop_last() === Seq::<A>::empty(),
        seq![x].last() === x,
        seq![x] + Seq::<A>::empty() === seq![x],
        Seq::<A>::empty().push(x) === seq![x],
        seq![x].len() == 1,
{
    assert(seq![x].drop_last() =~= Seq::<A>::empty());
    assert(seq![x] + Seq::<A>::empty() =~= seq![x]);
    assert(Seq::<A>::empty().push(x) =~= seq![x]);
}

/// A character in front of some pieces.
pub open spec fn char_then(c: char, rest: Seq<Piece>) -> Seq<Piece> {
    seq![Piece::Char(c)] + rest
}

/// Rendering a character in front of some pieces puts it in front of what
/// they render to.
proof fn lemma_render_char_front(c: char, rest: Seq<Piece>, values: Seq<Seq<char>>)
    ensures
        render_pieces(char_then(c, rest), values) == seq![c] + render_pieces(rest, values),
    decreases rest.len(),
{
    let whole = seq![Piece::Char(c)] + rest;
    if rest.len() == 0 {
        lemma_single(Piece::Char(c));
        assert(rest === Seq::<Piece>::empty());
        assert(whole === seq![Piece::Char(c)]);
        assert(render_pieces(whole, values) == render_pieces(Seq::<Piece>::empty(), values).push(c));
        assert(render_pieces(whole, values) =~= seq![c] + render_pieces(rest, values));
    } else {
        lemma_front_drop_last(Piece::Char(c), rest);
        match rest.last() {
            Piece::Char(d) => {
                lemma_render_char_front(c, rest.drop_last(), values);
                assert(render_pieces(whole, values) =~= seq![c] + render_pieces(rest, values));
            },
            Piece::Ref(_) => {
                lemma_render_char_front(c, rest.drop_last(), values.drop_last());
                assert(render_pieces(whole, values) =~= seq![c] + render_pieces(rest, values));
            },
        }
    }
}

/// A character in front of some pieces adds no reference.
proof fn lemma_references_char_front(c: char, rest: Seq<Piece>)
    ensures
        references_in(char_then(c, rest)) === references_in(rest),
    decreases rest.len(),
{
    let whole = seq![Piece::Char(c)] + rest;
    if rest.len() == 0 {
        lemma_single(Piece::Char(c));
        assert(rest === Seq::<Piece>::empty());
        assert(whole === seq![Piece::Char(c)]);
    } else {
        lemma_front_drop_last(Piece::Char(c), rest);
        lemma_references_char_front(c, rest.drop_last());
    }
}

/// The pieces of text without a `$` render to the text and hold no reference.
proof fn lemma_plain_from(t: Seq<char>, i: int, values: Seq<Seq<char>>)
    requires
        0 <= i <= t.len(),
        forall|k: int| 0 <= k < t.len() ==> t[k] != '$',
    ensures
        render_pieces(pieces_from(t, i), values) == t.subrange(i, t.len() as int),
        references_in(pieces_from(t, i)) === Seq::<(Seq<char>, Seq<char>)>::empty(),
    decreases t.len() - i,
{
    if i == t.len() {
        assert(pieces_from(t, i) === Seq::<Piece>::empty());
        assert(render_pieces(Seq::<Piece>::empty(), values) === Seq::<char>::empty());
        assert(references_in(Seq::<Piece>::empty()) === Seq::<(Seq<char>, Seq<char>)>::empty());
        assert(t.subrange(i, t.len() as int) =~= Seq::<char>::empty());
    } else {
        lemma_pieces_step(t, i);
        assert(piece_then(t, i, Piece::Char(t[i]), i + 1));
        lemma_plain_from(t, i + 1, values);
        lemma_render_char_front(t[i], pieces_from(t, i + 1), values);
        lemma_references_char_front(t[i], pieces_from(t, i + 1));
        let rest = pieces_from(t, i + 1);
        let front = char_then(t[i], rest);
        assert(pieces_from(t, i) === front);
        assert(render_pieces(front, values) == seq![t[i]] + render_pieces(rest, values));
        assert(references_in(front) === references_in(rest));
        assert(t.subrange(i, t.len() as int) =~= seq![t[i]] + t.subrange(i + 1, t.len() as int));
    }
}

/// Whether no `$` in `t` is followed by another: no escaped dollar.
pub open spec fn no_doubled_dollar(t: Seq<char>) -> bool {
    forall|k: int| 0 <= k && k + 1 < t.len() && #[trigger] t[k] == '$' ==> t[k + 1] != '$'
}

/// A reference in front of some pieces adds one reference.
proof fn lemma_references_ref_front(reference: (Seq<char>, Seq<char>), rest: Seq<Piece>)
    ensures
        references_in(seq![Piece::Ref(reference)] + rest).len() == references_in(rest).len() + 1,
    decreases rest.len(),
{
    let whole = seq![Piece::Ref(reference)] + rest;
    if rest.len() == 0 {
        lemma_single(Piece::Ref(reference));
        assert(rest === Seq::<Piece>::empty());
        assert(whole === seq![Piece::Ref(reference)]);
        assert(references_in(Seq::<Piece>::empty()) === Seq::<(Seq<char>, Seq<char>)>::empty());
    } else {
        lemma_front_drop_last(Piece::Ref(reference), rest);
        lemma_references_ref_front(reference, rest.drop_last());
    }
}

/// The pieces from `i` of text with no well-formed reference there and no
/// escaped dollar render to the text from `i`.
proof fn lemma_unreferenced_from(t: Seq<char>, i: int, values: Seq<Seq<char>>)
    requires
        0 <= i <= t.len(),
        no_doubled_dollar(t),
        references_in(pieces_from(t, i)).len() == 0,
    ensures
        render_pieces(pieces_from(t, i), values) == t.subrange(i, t.len() as int),
    decreases t.len() - i,
{
    if i == t.len() {
        assert(pieces_from(t, i) === Seq::<Piece>::empty());
        assert(render_pieces(Seq::<Piece>::empty(), values) === Seq::<char>::empty());
        assert(t.subrange(i, t.len() as int) =~= Seq::<char>::empty());
    } else {
        lemma_pieces_step(t, i);
        if t[i] == '$' {
            if i + 1 < t.len() {
                assert(t[i + 1] != '$');
            }
            match reference_at(t, i) {
                Some((reference, close)) => {
                    assert(i < close);
                    lemma_references_ref_front(reference, pieces_from(t, close + 1));
                    assert(false);
                },
                None => {},
            }
        }
        let rest = pieces_from(t, i + 1);
        let front = char_then(t[i], rest);
        assert(pieces_from(t, i) === front);
        lemma_references_char_front(t[i], rest);
        lemma_unreferenced_from(t, i + 1, values);
        lemma_render_char_front(t[i], rest, values);
        assert(t.subrange(i, t.len() as int) =~= seq![t[i]] + t.subrange(i + 1, t.len() as int));
    }
}

/// A template without a well-formed reference and without an escaped dollar
/// renders exactly as written, whatever the lookups answer: a malformed
/// reference such as `$(no-colon)` and a lone `$` are kept as text.
pub proof fn lemma_unreferenced_template_renders_as_written(t: Seq<char>, values: Seq<Seq<char>>)
    requires
        template_references(t).len() == 0,
        no_doubled_dollar(t),
    ensures
        render_template(t, values) == t,
{
    lemma_unreferenced_from(t, 0, values);
    assert(t.subrange(0, t.len() as int) =~= t);
}

/// Text without a `$` renders exactly as written, whatever the lookups
/// answer, and binds nothing.
pub proof fn lemma_plain_text_renders_as_written(t: Seq<char>, values: Seq<Seq<char>>)
    requires
        forall|k: int| 0 <= k < t.len() ==> t[k] != '$',
    ensures
        render_template(t, values) == t,
        template_references(t).len() == 0,
{
    lemma_plain_from(t, 0, values);
    assert(t.subrange(0, t.len() as int) =~= t);
}

/// A reference written out as `$(instance:name)` is read back as exactly that
/// reference, and the template renders to whatever that reference renders to.
pub proof fn lemma_written_reference_round_trip(
    reference: (Seq<char>, Seq<char>),
    values: Seq<Seq<char>>,
)
    requires
        is_reference_part_spec(reference.0),
        is_reference_part_spec(reference.1),
        values.len() == 1,
    ensures
        template_references(written_reference(reference)) === seq![reference],
        render_template(written_reference(reference), values) == values[0],
{
    let (a, b) = reference;
    let t = written_reference(reference);
    let close = t.len() - 1;
    assert(t.len() == a.len() + b.len() + 4);
    assert(t[0] == '$' && t[1] == '(');
    assert forall|m: int| 2 <= m < close implies t[m] != ')' by {
        if m < 2 + a.len() {
            assert(t[m] == a[m - 2]);
            assert(is_part_char(a[m - 2]));
        } else if m == 2 + a.len() {
            assert(t[m] == ':');
        } else {
            assert(t[m] == b[m - 3 - a.len()]);
            assert(is_part_char(b[m - 3 - a.len()]));
        }
    }
    assert(t[close] == ')');
    lemma_find_from_is(t, ')', 2, close);
    let body = t.subrange(2, close);
    assert(body =~= a + seq![':'] + b);
    assert forall|m: int| 0 <= m < a.len() implies body[m] != ':' by {
        assert(body[m] == a[m]);
        assert(is_part_char(a[m]));
    }
    assert(body[a.len() as int] == ':');
    lemma_find_from_is(body, ':', 0, a.len() as int);
    assert(body.take(a.len() as int) =~= a);
    assert(body.skip(a.len() as int + 1) =~= b);
    assert(reference_at(t, 0) == Some((reference, close)));
    lemma_pieces_step(t, 0);
    assert(piece_then(t, 0, Piece::Ref(reference), close + 1));
    assert(pieces_from(t, close + 1) === Seq::<Piece>::empty());
    lemma_single(Piece::Ref(reference));
    lemma_single(reference);
    let ps = seq![Piece::Ref(reference)];
    assert(pieces(t) === ps);
    assert(ps.len() == 1);
    assert(ps.last() === Piece::Ref(reference));
    assert(ps.drop_last() === Seq::<Piece>::empty());
    assert(references_in(Seq::<Piece>::empty()) === Seq::<(Seq<char>, Seq<char>)>::empty());
    assert(references_in(ps) === references_in(ps.drop_last()).push(reference));
    assert(references_in(ps) === Seq::<(Seq<char>, Seq<char>)>::empty().push(reference));
    assert(render_pieces(ps, values) == render_pieces(Seq::<Piece>::empty(), values.drop_last())
        + values.last());
    assert(render_pieces(ps, values) =~= values[0]);
}

} // verus!
