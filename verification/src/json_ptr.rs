//! Paths to numeric leaves: a list of raw segments, escaped and joined into a
//! JSON pointer (RFC 6901).
use crate::json::{
    as_number, descend, lookup, number_at, number_bits, reference_tokens, replace_pair, resolve,
    split_on_slash, unescape_token,
};
use crate::text::push_char;
use serde_json::Value;
use vstd::prelude::*;

verus! {

/// An escaped path to a node of a document, built once from raw segments.
///
/// What it holds is always the pointer of some segment list: see
/// [`JsonPtr::segments`].
#[derive(Debug)]
pub struct JsonPtr(String);

impl View for JsonPtr {
    type V = Seq<char>;

    /// The escaped pointer, as [`JsonPtr::as_str`] returns it.
    closed spec fn view(&self) -> Seq<char> {
        self.0@
    }
}

impl JsonPtr {
    #[verifier::type_invariant]
    spec fn well_formed(self) -> bool {
        self.0@ == pointer_text(pointer_segments(self.0@))
    }

    /// The raw segments that the pointer was built from.
    pub closed spec fn segments(&self) -> Seq<Seq<char>> {
        pointer_segments(self.0@)
    }

    /// Returns the escaped path.
    pub fn as_str(&self) -> (r: &str)
        ensures
            r@ == self@,
            r@ == pointer_text(self.segments()),
    {
        proof {
            use_type_invariant(self);
        }
        self.0.as_str()
    }

    /// Builds the pointer for a list of raw segments: each segment is escaped
    /// and gets a `/` in front. No segments give the empty pointer.
    pub fn new(path: &[&str]) -> (r: JsonPtr)
        ensures
            r@ == pointer_text(segment_views(path@)),
            r.segments() == segment_views(path@),
    {
        let ghost segments = segment_views(path@);
        let mut text = String::new();
        let mut i: usize = 0;
        while i < path.len()
            invariant
                i <= path.len(),
                segments == segment_views(path@),
                text@ == pointer_text(segments.take(i as int)),
            decreases path.len() - i,
        {
            push_char(&mut text, '/');
            escape_into(&mut text, path[i]);
            proof {
                let upto = segments.take(i + 1);
                assert(upto.drop_last() =~= segments.take(i as int));
                assert(upto.last() == path@[i as int]@);
            }
            i += 1;
        }
        proof {
            assert(segments.take(i as int) =~= segments);
            lemma_segments_of_pointer_text(segments);
        }
        JsonPtr(text)
    }

    /// Walks the pointer in `val` and returns the number found there, as the
    /// bit pattern of a 64-bit float. `None` if a segment is missing or the node
    /// is not a number. The empty pointer addresses `val` itself.
    pub fn get_f64(&self, val: &Value) -> (r: Option<u64>)
        ensures
            r == number_at(*val, self@),
            r == number_of(walk(*val, self.segments())),
    {
        proof {
            use_type_invariant(self);
            lemma_resolve_follows_segments(*val, self.segments());
        }
        match lookup(val, self.0.as_str()) {
            Some(node) => as_number(node),
            None => None,
        }
    }
}

impl Default for JsonPtr {
    /// The empty pointer, which addresses the document root.
    fn default() -> (r: JsonPtr)
        ensures
            r@ == Seq::<char>::empty(),
            r.segments() == Seq::<Seq<char>>::empty(),
    {
        JsonPtr(String::new())
    }
}

/// Appends the escaped form of `segment` to `out`.
fn escape_into(out: &mut String, segment: &str)
    ensures
        final(out)@ == old(out)@ + escape_segment(segment@),
{
    let ghost before = out@;
    proof {
        reveal_strlit("~0");
        reveal_strlit("~1");
    }
    for c in it: segment.chars()
        invariant
            it.seq() == segment@,
            out@ == before + escape_segment(segment@.take(it.index())),
            "~0"@ == seq!['~', '0'],
            "~1"@ == seq!['~', '1'],
    {
        proof {
            let done = segment@.take(it.index());
            lemma_escape_push(done, c);
            assert(segment@.take(it.index() + 1) =~= done.push(c));
        }
        if c == '~' {
            out.append("~0");
        } else if c == '/' {
            out.append("~1");
        } else {
            push_char(out, c);
        }
    }
    proof {
        assert(segment@.take(segment@.len() as int) =~= segment@);
    }
}

/// `s` with every occurrence of `from` replaced by `to`.
pub open spec fn replace_char(s: Seq<char>, from: char, to: Seq<char>) -> Seq<char>
    decreases s.len(),
{
    if s.len() == 0 {
        Seq::empty()
    } else {
        (if s[0] == from {
            to
        } else {
            seq![s[0]]
        }) + replace_char(s.skip(1), from, to)
    }
}

/// A raw segment as it stands in a pointer: first every `~` becomes `~0`, then
/// every `/` becomes `~1`. In the other order the `~` of each `~1` would be
/// escaped a second time.
pub open spec fn escape_segment(segment: Seq<char>) -> Seq<char> {
    replace_char(replace_char(segment, '~', seq!['~', '0']), '/', seq!['~', '1'])
}

/// What one character of a raw segment becomes in a pointer.
pub open spec fn escape_char(c: char) -> Seq<char> {
    if c == '~' {
        seq!['~', '0']
    } else if c == '/' {
        seq!['~', '1']
    } else {
        seq![c]
    }
}

/// The pointer for a list of raw segments: each segment escaped, with a `/` in
/// front of it. The empty list gives the empty pointer, which addresses the
/// document root.
pub open spec fn pointer_text(segments: Seq<Seq<char>>) -> Seq<char>
    decreases segments.len(),
{
    if segments.len() == 0 {
        Seq::empty()
    } else {
        pointer_text(segments.drop_last()) + seq!['/'] + escape_segment(segments.last())
    }
}

/// The raw segments that a pointer stands for.
pub open spec fn pointer_segments(pointer: Seq<char>) -> Seq<Seq<char>> {
    if pointer.len() == 0 {
        Seq::empty()
    } else {
        reference_tokens(pointer)
    }
}

/// The views of a slice of string slices.
pub open spec fn segment_views(path: Seq<&str>) -> Seq<Seq<char>> {
    path.map_values(|segment: &str| segment@)
}

/// The node reached from the root of `doc` by going down one raw segment at a
/// time.
pub open spec fn walk(doc: Value, segments: Seq<Seq<char>>) -> Option<Value> {
    descend(Some(doc), segments)
}

/// The number that a node holds, if there is a node and it is a number.
pub open spec fn number_of(node: Option<Value>) -> Option<u64> {
    match node {
        Some(node) => number_bits(node),
        None => None,
    }
}

proof fn lemma_replace_char_concat(a: Seq<char>, b: Seq<char>, from: char, to: Seq<char>)
    ensures
        replace_char(a + b, from, to) == replace_char(a, from, to) + replace_char(b, from, to),
    decreases a.len(),
{
    if a.len() == 0 {
        assert(a + b =~= b);
    } else {
        lemma_replace_char_concat(a.skip(1), b, from, to);
        assert((a + b).skip(1) =~= a.skip(1) + b);
        assert((a + b)[0] == a[0]);
    }
}

proof fn lemma_replace_char_one(c: char, from: char, to: Seq<char>)
    ensures
        replace_char(seq![c], from, to) == if c == from {
            to
        } else {
            seq![c]
        },
{
    let s = seq![c];
    assert(s.skip(1) =~= Seq::<char>::empty());
    assert(replace_char(s.skip(1), from, to) =~= Seq::<char>::empty());
    reveal_with_fuel(replace_char, 2);
}

proof fn lemma_replace_char_two(first: char, second: char, from: char, to: Seq<char>)
    requires
        first != from,
        second != from,
    ensures
        replace_char(seq![first, second], from, to) == seq![first, second],
{
    let s = seq![first, second];
    assert(s =~= seq![first] + seq![second]);
    lemma_replace_char_concat(seq![first], seq![second], from, to);
    lemma_replace_char_one(first, from, to);
    lemma_replace_char_one(second, from, to);
}

/// Escaping works character by character.
pub proof fn lemma_escape_one(c: char)
    ensures
        escape_segment(seq![c]) == escape_char(c),
{
    lemma_replace_char_one(c, '~', seq!['~', '0']);
    if c == '~' {
        lemma_replace_char_two('~', '0', '/', seq!['~', '1']);
    } else {
        lemma_replace_char_one(c, '/', seq!['~', '1']);
    }
}

/// Escaping distributes over concatenation.
pub proof fn lemma_escape_concat(a: Seq<char>, b: Seq<char>)
    ensures
        escape_segment(a + b) == escape_segment(a) + escape_segment(b),
{
    let tilde = seq!['~', '0'];
    let slash = seq!['~', '1'];
    lemma_replace_char_concat(a, b, '~', tilde);
    lemma_replace_char_concat(replace_char(a, '~', tilde), replace_char(b, '~', tilde), '/', slash);
}

proof fn lemma_escape_unfold(s: Seq<char>)
    requires
        s.len() > 0,
    ensures
        escape_segment(s) == escape_char(s[0]) + escape_segment(s.skip(1)),
{
    assert(s =~= seq![s[0]] + s.skip(1));
    lemma_escape_concat(seq![s[0]], s.skip(1));
    lemma_escape_one(s[0]);
}

proof fn lemma_escape_push(s: Seq<char>, c: char)
    ensures
        escape_segment(s.push(c)) == escape_segment(s) + escape_char(c),
{
    assert(s.push(c) =~= s + seq![c]);
    lemma_escape_concat(s, seq![c]);
    lemma_escape_one(c);
}

/// An escaped segment holds no `/`, so the slashes of a pointer are exactly the
/// ones that separate its segments.
pub proof fn lemma_escape_has_no_slash(s: Seq<char>)
    ensures
        forall|i: int| 0 <= i < escape_segment(s).len() ==> escape_segment(s)[i] != '/',
    decreases s.len(),
{
    if s.len() == 0 {
    } else {
        lemma_escape_unfold(s);
        lemma_escape_has_no_slash(s.skip(1));
    }
}

proof fn lemma_tilde_pass_unfold(s: Seq<char>)
    requires
        s.len() > 0,
    ensures
        replace_char(s, '~', seq!['~', '0']) == (if s[0] == '~' {
            seq!['~', '0']
        } else {
            seq![s[0]]
        }) + replace_char(s.skip(1), '~', seq!['~', '0']),
{
}

proof fn lemma_undo_slash_pass(s: Seq<char>)
    ensures
        replace_pair(escape_segment(s), '~', '1', '/') == replace_char(s, '~', seq!['~', '0']),
    decreases s.len(),
{
    if s.len() == 0 {
    } else {
        let rest = escape_segment(s.skip(1));
        let w = escape_segment(s);
        lemma_escape_unfold(s);
        lemma_undo_slash_pass(s.skip(1));
        lemma_tilde_pass_unfold(s);
        if s[0] == '~' {
            let w1 = w.skip(1);
            assert(w1 =~= seq!['0'] + rest);
            assert(w1.skip(1) =~= rest);
            assert(replace_pair(w1, '~', '1', '/') == seq!['0'] + replace_pair(rest, '~', '1', '/'));
            assert(replace_pair(w, '~', '1', '/') == seq!['~'] + replace_pair(w1, '~', '1', '/'));
            assert(seq!['~'] + (seq!['0'] + replace_pair(rest, '~', '1', '/')) =~= seq!['~', '0']
                + replace_pair(rest, '~', '1', '/'));
        } else if s[0] == '/' {
            assert(w.skip(2) =~= rest);
        } else {
            assert(w.skip(1) =~= rest);
        }
    }
}

proof fn lemma_undo_tilde_pass(s: Seq<char>)
    ensures
        replace_pair(replace_char(s, '~', seq!['~', '0']), '~', '0', '~') == s,
    decreases s.len(),
{
    if s.len() == 0 {
    } else {
        let rest = replace_char(s.skip(1), '~', seq!['~', '0']);
        let w = replace_char(s, '~', seq!['~', '0']);
        lemma_undo_tilde_pass(s.skip(1));
        lemma_tilde_pass_unfold(s);
        if s[0] == '~' {
            assert(w.skip(2) =~= rest);
            assert(seq!['~'] + s.skip(1) =~= s);
        } else {
            assert(w.skip(1) =~= rest);
            assert(seq![s[0]] + s.skip(1) =~= s);
        }
    }
}

/// Unescaping a token, as a pointer lookup does, undoes the escaping of a
/// segment.
pub proof fn lemma_unescape_escape(s: Seq<char>)
    ensures
        unescape_token(escape_segment(s)) == s,
{
    lemma_undo_slash_pass(s);
    lemma_undo_tilde_pass(s);
}

proof fn lemma_split_append_piece(x: Seq<char>, e: Seq<char>)
    requires
        forall|i: int| 0 <= i < e.len() ==> e[i] != '/',
    ensures
        split_on_slash(x + seq!['/'] + e) == split_on_slash(x).push(e),
    decreases e.len(),
{
    let w = x + seq!['/'] + e;
    if e.len() == 0 {
        assert(w.drop_last() =~= x);
        assert(e =~= Seq::<char>::empty());
    } else {
        let shorter = e.drop_last();
        lemma_split_append_piece(x, shorter);
        assert(w.drop_last() =~= x + seq!['/'] + shorter);
        assert(w.last() == e.last());
        assert(shorter.push(e.last()) =~= e);
        let before = split_on_slash(x).push(shorter);
        assert(before.update(before.len() - 1, before.last().push(e.last())) =~= split_on_slash(
            x,
        ).push(e));
    }
}

proof fn lemma_split_pointer_text(segments: Seq<Seq<char>>)
    ensures
        split_on_slash(pointer_text(segments)) == seq![Seq::<char>::empty()] + segments.map_values(
            |s: Seq<char>| escape_segment(s),
        ),
    decreases segments.len(),
{
    let escaped = segments.map_values(|s: Seq<char>| escape_segment(s));
    if segments.len() == 0 {
        assert(seq![Seq::<char>::empty()] + escaped =~= seq![Seq::<char>::empty()]);
    } else {
        let front = segments.drop_last();
        lemma_split_pointer_text(front);
        lemma_escape_has_no_slash(segments.last());
        lemma_split_append_piece(pointer_text(front), escape_segment(segments.last()));
        let front_escaped = front.map_values(|s: Seq<char>| escape_segment(s));
        assert((seq![Seq::<char>::empty()] + front_escaped).push(escape_segment(segments.last()))
            =~= seq![Seq::<char>::empty()] + escaped);
    }
}

/// A pointer built from at least one segment starts with `/`.
pub proof fn lemma_pointer_text_starts_with_slash(segments: Seq<Seq<char>>)
    requires
        segments.len() > 0,
    ensures
        pointer_text(segments).len() > 0,
        pointer_text(segments)[0] == '/',
    decreases segments.len(),
{
    let front = pointer_text(segments.drop_last());
    if segments.len() > 1 {
        lemma_pointer_text_starts_with_slash(segments.drop_last());
    } else {
        assert(front.len() == 0);
    }
    assert((front + seq!['/'])[0] == '/');
}

/// Cutting a built pointer into reference tokens, as a lookup does, gives back
/// the raw segments it was built from.
pub proof fn lemma_segments_of_pointer_text(segments: Seq<Seq<char>>)
    ensures
        pointer_segments(pointer_text(segments)) == segments,
{
    if segments.len() > 0 {
        lemma_pointer_text_starts_with_slash(segments);
        lemma_split_pointer_text(segments);
        let escaped = segments.map_values(|s: Seq<char>| escape_segment(s));
        assert((seq![Seq::<char>::empty()] + escaped).skip(1) =~= escaped);
        assert forall|i: int| 0 <= i < segments.len() implies unescape_token(
            #[trigger] escaped[i],
        ) == segments[i] by {
            lemma_unescape_escape(segments[i]);
        }
        assert(escaped.map_values(|piece: Seq<char>| unescape_token(piece)) =~= segments);
    }
}

/// Distinct segment lists never give the same pointer.
pub proof fn lemma_pointer_text_injective(a: Seq<Seq<char>>, b: Seq<Seq<char>>)
    requires
        pointer_text(a) == pointer_text(b),
    ensures
        a == b,
{
    lemma_segments_of_pointer_text(a);
    lemma_segments_of_pointer_text(b);
}

/// Looking up the pointer built from `segments` finds the node reached by
/// going down from the root of `doc` one raw segment at a time, whatever
/// characters the segments hold.
pub proof fn lemma_resolve_follows_segments(doc: Value, segments: Seq<Seq<char>>)
    ensures
        resolve(doc, pointer_text(segments)) == walk(doc, segments),
        number_at(doc, pointer_text(segments)) == number_of(walk(doc, segments)),
{
    lemma_segments_of_pointer_text(segments);
    if segments.len() > 0 {
        lemma_pointer_text_starts_with_slash(segments);
    }
}

/// Extraction finds again what sits below the segments a path was built from:
/// if going down from the root of `doc` through `segments` ends at a number,
/// that number is what is read at the pointer built from `segments`.
pub proof fn lemma_leaf_is_found_again(doc: Value, segments: Seq<Seq<char>>, bits: u64)
    ensures
        number_of(walk(doc, segments)) == Some(bits) ==> number_at(doc, pointer_text(segments))
            == Some(bits),
{
    lemma_resolve_follows_segments(doc, segments);
}

} // verus!
