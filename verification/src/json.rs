//! The boundary with `serde_json`: decoding a buffer into a document, looking a
//! node up by a JSON pointer, and reading a node as a number.
//!
//! A decoded document is a `serde_json::Value`. Verus sees nothing inside one, so
//! what the three calls return is described over three uninterpreted functions,
//! [`parsed`], [`child`] and [`number_bits`]. The only structure stated here is
//! the one the pointer syntax itself has: how a pointer string is cut into
//! reference tokens, and that a lookup descends one token at a time.
use serde_json::Value;
use vstd::prelude::*;

verus! {

/// `serde_json::Value`, a decoded document or a node of one. Nothing inside it
/// is visible here.
#[verifier::external_type_specification]
#[verifier::external_body]
pub struct ExValue(serde_json::Value);

/// `serde_json::Error`, why a buffer did not decode. It is only ever dropped.
#[verifier::external_type_specification]
#[verifier::external_body]
pub struct ExDecodeError(serde_json::Error);

/// The document that `serde_json::from_slice::<Value>` decodes from `bytes`,
/// `None` where it returns an error.
pub uninterp spec fn parsed(bytes: Seq<u8>) -> Option<Value>;

/// The node that `Value::pointer` reaches from `node` by the single reference
/// token `token`: a member of an object, an element of an array, `None` where
/// there is none or `node` is a scalar.
pub uninterp spec fn child(node: Value, token: Seq<char>) -> Option<Value>;

/// The IEEE-754 bit pattern of what `Value::as_f64` returns for `node`, `None`
/// where it returns `None`.
pub uninterp spec fn number_bits(node: Value) -> Option<u64>;

/// The pieces of `s` between its `/` characters, as `str::split('/')` yields
/// them: a string with `k` slashes has `k + 1` pieces, any of which may be empty.
pub open spec fn split_on_slash(s: Seq<char>) -> Seq<Seq<char>>
    decreases s.len(),
{
    if s.len() == 0 {
        seq![Seq::empty()]
    } else {
        let before = split_on_slash(s.drop_last());
        if s.last() == '/' {
            before.push(Seq::empty())
        } else {
            before.update(before.len() - 1, before.last().push(s.last()))
        }
    }
}

/// `s` with every occurrence of the two characters `first`, `second` replaced
/// by `with`, matching from the left without overlap, as `str::replace` does
/// for a two-character pattern.
pub open spec fn replace_pair(s: Seq<char>, first: char, second: char, with: char) -> Seq<char>
    decreases s.len(),
{
    if s.len() == 0 {
        s
    } else if s.len() >= 2 && s[0] == first && s[1] == second {
        seq![with] + replace_pair(s.skip(2), first, second, with)
    } else {
        seq![s[0]] + replace_pair(s.skip(1), first, second, with)
    }
}

/// A reference token with its escapes undone: `~1` becomes `/`, then `~0`
/// becomes `~`.
pub open spec fn unescape_token(token: Seq<char>) -> Seq<char> {
    replace_pair(replace_pair(token, '~', '1', '/'), '~', '0', '~')
}

/// The reference tokens of a pointer that starts with `/`: the pieces after the
/// first slash, each unescaped.
pub open spec fn reference_tokens(pointer: Seq<char>) -> Seq<Seq<char>> {
    split_on_slash(pointer).skip(1).map_values(|piece: Seq<char>| unescape_token(piece))
}

/// Descends from `start` through `tokens`, one [`child`] per token; `None` as
/// soon as a step finds nothing.
pub open spec fn descend(start: Option<Value>, tokens: Seq<Seq<char>>) -> Option<Value>
    decreases tokens.len(),
{
    if tokens.len() == 0 {
        start
    } else {
        match start {
            Some(node) => descend(child(node, tokens[0]), tokens.skip(1)),
            None => None,
        }
    }
}

/// The node of `doc` that `pointer` addresses. The empty pointer addresses the
/// document itself; any other pointer must start with `/`.
pub open spec fn resolve(doc: Value, pointer: Seq<char>) -> Option<Value> {
    if pointer.len() == 0 {
        Some(doc)
    } else if pointer[0] != '/' {
        None
    } else {
        descend(child(doc, reference_tokens(pointer)[0]), reference_tokens(pointer).skip(1))
    }
}

/// The number at `pointer` in `doc`, as a bit pattern: `None` where the pointer
/// addresses nothing or what it addresses is not a number.
pub open spec fn number_at(doc: Value, pointer: Seq<char>) -> Option<u64> {
    match resolve(doc, pointer) {
        Some(node) => number_bits(node),
        None => None,
    }
}

/// A borrowed node is the node `found`, or both are absent.
pub open spec fn refers_to(r: Option<&Value>, found: Option<Value>) -> bool {
    match r {
        Some(node) => found == Some(*node),
        None => found is None,
    }
}

/// Calls `serde_json::from_slice::<Value>`. Trusted: the call succeeds exactly
/// where [`parsed`] is `Some`, and then returns that document. The whole buffer
/// has to be one document; bytes after it, other than white space, are an error.
#[verifier::external_body]
pub(crate) fn decode(bytes: &[u8]) -> (r: Result<Value, serde_json::Error>)
    ensures
        r is Ok <==> parsed(bytes@) is Some,
        r matches Ok(doc) ==> parsed(bytes@) == Some(doc),
{
    serde_json::from_slice::<Value>(bytes)
}

/// Calls `Value::pointer`. Trusted: the empty pointer yields `doc`; a pointer
/// that does not start with `/` yields nothing; any other is split at its
/// slashes, the piece before the first slash dropped, each remaining piece
/// unescaped, and the lookup descends from `doc` through these tokens in order.
#[verifier::external_body]
pub(crate) fn lookup<'a>(doc: &'a Value, pointer: &str) -> (r: Option<&'a Value>)
    ensures
        pointer@.len() == 0 ==> r == Some(doc),
        pointer@.len() > 0 && pointer@[0] != '/' ==> r is None,
        pointer@.len() > 0 && pointer@[0] == '/' ==> refers_to(
            r,
            descend(child(*doc, reference_tokens(pointer@)[0]), reference_tokens(pointer@).skip(1)),
        ),
{
    doc.pointer(pointer)
}

/// Calls `Value::as_f64` and hands the number on as its bit pattern
/// (`to_bits`). Trusted: the result is [`number_bits`] of the node.
#[verifier::external_body]
pub(crate) fn as_number(node: &Value) -> (r: Option<u64>)
    ensures
        r == number_bits(*node),
{
    node.as_f64().map(|number| number.to_bits())
}

} // verus!
