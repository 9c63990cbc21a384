//! The HTTP header types that a message carries, and what is known of them.

use vstd::prelude::*;
use vstd::utf8::encode_utf8;
use http::header::{HeaderMap, HeaderName, HeaderValue, InvalidHeaderName, InvalidHeaderValue};

verus! {

#[verifier::external_type_specification]
#[verifier::external_body]
pub struct ExHeaderValue(HeaderValue);

#[verifier::external_type_specification]
#[verifier::external_body]
pub struct ExHeaderName(HeaderName);

#[verifier::external_type_specification]
#[verifier::external_body]
pub struct ExInvalidHeaderValue(InvalidHeaderValue);

#[verifier::external_type_specification]
#[verifier::external_body]
pub struct ExInvalidHeaderName(InvalidHeaderName);

#[verifier::external_type_specification]
#[verifier::external_body]
#[verifier::reject_recursive_types(T)]
pub struct ExHeaderMap<T>(HeaderMap<T>);

/// The bytes that a `HeaderValue` holds.
pub uninterp spec fn header_value_bytes(v: HeaderValue) -> Seq<u8>;

/// Whether `b` may stand in a header value: visible ASCII, obs-text, or a tab.
pub open spec fn is_header_value_byte(b: u8) -> bool {
    (b >= 32 && b != 127) || b == 9
}

pub open spec fn is_header_value_text(bs: Seq<u8>) -> bool {
    forall|i: int| 0 <= i < bs.len() ==> is_header_value_byte(#[trigger] bs[i])
}

/// `HeaderValue::from_str`: checks every byte of `s` with `is_valid`
/// (`b >= 32 && b != 127 || b == b'\t'`) and, when all pass, holds a copy of them.
#[verifier::external_body]
pub(crate) fn header_value_from_str(s: &str) -> (r: Result<HeaderValue, InvalidHeaderValue>)
    ensures
        r is Ok <==> is_header_value_text(encode_utf8(s@)),
        r matches Ok(v) ==> header_value_bytes(v) == encode_utf8(s@),
{
    HeaderValue::from_str(s)
}


/// The bytes of a `HeaderName`, as `HeaderName::as_str` gives them (lower case).
pub uninterp spec fn header_name_bytes(n: HeaderName) -> Seq<u8>;

/// The `(name, value)` pairs of a `HeaderMap`, in the order in which `HeaderMap::iter`
/// yields them: each name once per value that it holds.
pub uninterp spec fn header_map_items(m: HeaderMap) -> Seq<(Seq<u8>, Seq<u8>)>;

/// Whether some pair in `items` carries the name `name`.
pub open spec fn has_header(items: Seq<(Seq<u8>, Seq<u8>)>, name: Seq<u8>) -> bool {
    exists|i: int| 0 <= i < items.len() && (#[trigger] items[i]).0 == name
}

/// Whether a pair carries the name `name`.
pub open spec fn named(name: Seq<u8>) -> spec_fn((Seq<u8>, Seq<u8>)) -> bool {
    |e: (Seq<u8>, Seq<u8>)| e.0 == name
}

/// Whether a pair carries a name other than `name`.
pub open spec fn not_named(name: Seq<u8>) -> spec_fn((Seq<u8>, Seq<u8>)) -> bool {
    |e: (Seq<u8>, Seq<u8>)| e.0 != name
}

/// `items` with the first pair named `name` given the value `value` and every later pair of
/// that name left out.
pub open spec fn replace_header(items: Seq<(Seq<u8>, Seq<u8>)>, name: Seq<u8>, value: Seq<u8>) -> Seq<
    (Seq<u8>, Seq<u8>),
>
    decreases items.len(),
{
    if items.len() == 0 {
        items
    } else if items[0].0 == name {
        seq![(name, value)] + items.drop_first().filter(not_named(name))
    } else {
        seq![items[0]] + replace_header(items.drop_first(), name, value)
    }
}

/// What `HeaderMap::insert` makes of the pairs: a name that is present keeps its place and
/// now has `value` as its only value; a new name goes last.
pub open spec fn insert_header(items: Seq<(Seq<u8>, Seq<u8>)>, name: Seq<u8>, value: Seq<u8>) -> Seq<
    (Seq<u8>, Seq<u8>),
> {
    if has_header(items, name) {
        replace_header(items, name, value)
    } else {
        items.push((name, value))
    }
}

/// Below this many pairs, `HeaderMap::insert` cannot reach the map's largest size
/// (`MAX_SIZE`, 1 << 15 slots) and panic: it doubles its slots only while its entries fill a
/// fifth of them (or three quarters), and the entries are never more than the pairs.
pub const HEADER_INSERT_LIMIT: usize = 6552;

/// Whether `b` may stand in a lower-case header name: a lower-case letter, a digit, or one of
/// ``! " # $ % & ' * + - . ^ _ ` | ~`` (the table `HEADER_CHARS_H2` of `http`).
pub open spec fn is_lowercase_header_name_byte(b: u8) -> bool {
    ||| 33 <= b <= 39
    ||| b == 42 || b == 43 || b == 45 || b == 46
    ||| 48 <= b <= 57
    ||| 94 <= b <= 122
    ||| b == 124 || b == 126
}

/// Whether `bs` is a header name as `HeaderName::from_lowercase` and `HeaderName::from_static`
/// accept it: one to 65535 bytes, each of them allowed in a lower-case name.
pub open spec fn is_lowercase_header_name(bs: Seq<u8>) -> bool {
    &&& 1 <= bs.len() <= 65535
    &&& forall|i: int| 0 <= i < bs.len() ==> is_lowercase_header_name_byte(#[trigger] bs[i])
}

/// `HeaderName::from_lowercase`: maps each byte through `HEADER_CHARS_H2`, refusing an empty
/// name, one longer than `MAX_HEADER_NAME_LEN` (65535) and any byte that the table maps to 0;
/// an accepted name holds the given bytes (a standard name is recognised by those same bytes).
#[verifier::external_body]
pub(crate) fn header_name_from_lowercase(s: &[u8]) -> (r: Result<HeaderName, InvalidHeaderName>)
    ensures
        r is Ok <==> is_lowercase_header_name(s@),
        r matches Ok(n) ==> header_name_bytes(n) == s@,
{
    HeaderName::from_lowercase(s)
}

/// `HeaderValue::from_bytes`: checks every byte with `is_valid` and, when all pass, holds a
/// copy of them.
#[verifier::external_body]
pub(crate) fn header_value_from_bytes(s: &[u8]) -> (r: Result<HeaderValue, InvalidHeaderValue>)
    ensures
        r is Ok <==> is_header_value_text(s@),
        r matches Ok(v) ==> header_value_bytes(v) == s@,
{
    HeaderValue::from_bytes(s)
}

/// `HeaderMap::new`: a map with no pairs.
#[verifier::external_body]
pub(crate) fn header_map_new() -> (m: HeaderMap)
    ensures
        header_map_items(m) == Seq::<(Seq<u8>, Seq<u8>)>::empty(),
{
    HeaderMap::new()
}

/// `HeaderMap::len`: the number of values held, one per pair that `iter` yields.
#[verifier::external_body]
pub(crate) fn header_map_len(m: &HeaderMap) -> (n: usize)
    ensures
        n == header_map_items(*m).len(),
{
    m.len()
}

/// `HeaderMap::insert`: replaces every value of `name` by `value` where the name is present
/// (the entry keeps its place), or appends a new entry. It panics only when the map would
/// outgrow `MAX_SIZE`, which `HEADER_INSERT_LIMIT` keeps out.
#[verifier::external_body]
pub(crate) fn header_map_insert(m: &mut HeaderMap, name: HeaderName, value: HeaderValue)
    requires
        header_map_items(*old(m)).len() < HEADER_INSERT_LIMIT,
    ensures
        header_map_items(*final(m)) == insert_header(
            header_map_items(*old(m)),
            header_name_bytes(name),
            header_value_bytes(value),
        ),
{
    m.insert(name, value);
}

/// `HeaderMap::iter`, each pair handed out as the bytes of `HeaderName::as_str` and of
/// `HeaderValue::as_bytes`.
#[verifier::external_body]
pub(crate) fn header_map_pairs(m: &HeaderMap) -> (r: Vec<(Vec<u8>, Vec<u8>)>)
    ensures
        r@.len() == header_map_items(*m).len(),
        forall|i: int|
            0 <= i < r@.len() ==> (#[trigger] r@[i]).0@ == header_map_items(*m)[i].0 && r@[i].1@
                == header_map_items(*m)[i].1,
{
    m.iter().map(|(k, v)| (k.as_str().as_bytes().to_vec(), v.as_bytes().to_vec())).collect()
}

} // verus!
