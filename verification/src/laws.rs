//! Properties of the library as a whole: of its boundaries, of the body it writes and of
//! the header pairs of a part.

use vstd::prelude::*;
use vstd::utf8::{encode_utf8, is_ascii_chars, is_ascii_chars_encode_utf8};
use crate::boundary::{
    boundary_text,
    hex16,
    hex_digit,
    hex_digits,
    is_generated_boundary,
    is_lower_hex_char,
    xorshift,
    xorshift4,
};
use crate::encoding::{
    close_delimiter,
    content_type_text,
    crlf,
    delimiter_line,
    header_line,
    header_lines,
    message_bytes,
    part_bytes,
    part_head,
    parts_bytes,
    MultipartView,
    PartView,
};
use crate::header::{
    has_header,
    insert_header,
    is_header_value_byte,
    is_header_value_text,
    named,
    not_named,
    replace_header,
};

verus! {

proof fn lemma_hex_digits(n: nat, k: nat)
    ensures
        hex_digits(n, k).len() == k,
        forall|i: int| 0 <= i < k ==> is_lower_hex_char(#[trigger] hex_digits(n, k)[i]),
    decreases k,
{
    if k > 0 {
        lemma_hex_digits(n / 16, (k - 1) as nat);
        let d = n % 16;
        assert(is_lower_hex_char(hex_digit(d)));
    }
}

/// A generated boundary is 64 characters, each a lower-case hexadecimal digit.
pub proof fn law_generated_boundary_is_hex(s: Seq<char>)
    requires
        is_generated_boundary(s),
    ensures
        s.len() == 64,
        forall|i: int| 0 <= i < s.len() ==> is_lower_hex_char(#[trigger] s[i]),
{
    let seed = choose|seed: u64| seed != 0 && s == boundary_text(seed);
    let a = xorshift(seed);
    let b = xorshift(a);
    let c = xorshift(b);
    let d = xorshift(c);
    lemma_hex_digits(a as nat, 16);
    lemma_hex_digits(b as nat, 16);
    lemma_hex_digits(c as nat, 16);
    lemma_hex_digits(d as nat, 16);
    assert forall|i: int| 0 <= i < s.len() implies is_lower_hex_char(#[trigger] s[i]) by {
        if i < 16 {
            assert(s[i] == hex16(a)[i]);
        } else if i < 32 {
            assert(s[i] == hex16(b)[i - 16]);
        } else if i < 48 {
            assert(s[i] == hex16(c)[i - 32]);
        } else {
            assert(s[i] == hex16(d)[i - 48]);
        }
    }
}

/// The xorshift64 state never falls to zero from a non-zero state, so a non-zero seed keeps
/// the generator going.
pub proof fn law_xorshift_keeps_nonzero(n: u64)
    requires
        n != 0,
    ensures
        xorshift(n) != 0,
{
    assert(n != 0 ==> ((n ^ (n << 13u64)) ^ ((n ^ (n << 13u64)) >> 7u64)) ^ (((n ^ (n
        << 13u64)) ^ ((n ^ (n << 13u64)) >> 7u64)) << 17u64) != 0) by (bit_vector);
}

/// The `content-type` header of a message whose boundary was generated is always a valid
/// header value.
pub proof fn law_generated_boundary_header_is_valid(s: Seq<char>)
    requires
        is_generated_boundary(s),
    ensures
        is_header_value_text(encode_utf8(content_type_text(s))),
{
    law_generated_boundary_is_hex(s);
    let prefix = "multipart/form-data; boundary="@;
    reveal_strlit("multipart/form-data; boundary=");
    let t = content_type_text(s);
    assert forall|i: int| 0 <= i < t.len() implies 32 <= (#[trigger] t[i]) as u32 && (t[i] as u32)
        < 127 by {
        if i < prefix.len() {
            assert(t[i] == prefix[i]);
        } else {
            assert(t[i] == s[i - prefix.len()]);
        }
    }
    assert(is_ascii_chars(t));
    is_ascii_chars_encode_utf8(t);
    let bytes = encode_utf8(t);
    assert forall|i: int| 0 <= i < bytes.len() implies is_header_value_byte(#[trigger] bytes[i]) by {
        assert(bytes[i] == t[i] as u8);
    }
}

/// The body of a message with no parts is the closing delimiter alone.
pub proof fn law_empty_message_body(boundary: Seq<char>)
    ensures
        message_bytes(MultipartView { boundary, parts: Seq::empty() }) == close_delimiter(
            encode_utf8(boundary),
        ),
{
    assert(parts_bytes(encode_utf8(boundary), Seq::empty()) =~= Seq::<u8>::empty());
    assert(Seq::<u8>::empty() + close_delimiter(encode_utf8(boundary)) =~= close_delimiter(
        encode_utf8(boundary),
    ));
}

/// The parts are written one after another: the bytes of two runs of parts are the bytes of
/// the first run followed by those of the second.
pub proof fn law_parts_concatenate(boundary: Seq<u8>, first: Seq<PartView>, second: Seq<PartView>)
    ensures
        parts_bytes(boundary, first + second) == parts_bytes(boundary, first) + parts_bytes(
            boundary,
            second,
        ),
    decreases second.len(),
{
    if second.len() == 0 {
        assert(first + second =~= first);
        assert(parts_bytes(boundary, second) =~= Seq::<u8>::empty());
        assert(parts_bytes(boundary, first) + Seq::<u8>::empty() =~= parts_bytes(boundary, first));
    } else {
        assert((first + second).drop_last() =~= first + second.drop_last());
        assert((first + second).last() == second.last());
        law_parts_concatenate(boundary, first, second.drop_last());
        assert(parts_bytes(boundary, first + second) =~= parts_bytes(boundary, first)
            + parts_bytes(boundary, second));
    }
}

/// Adding a part to a message writes that part after the others and before the closing
/// delimiter.
pub proof fn law_add_part_body(m: MultipartView, p: PartView)
    ensures
        message_bytes(MultipartView { boundary: m.boundary, parts: m.parts.push(p) })
            == parts_bytes(encode_utf8(m.boundary), m.parts) + part_bytes(
            encode_utf8(m.boundary),
            p,
        ) + close_delimiter(encode_utf8(m.boundary)),
{
    assert(m.parts.push(p).drop_last() =~= m.parts);
}

/// Each part opens with the delimiter line `--boundary\r\n`; its head ends with a blank line
/// (two line breaks), after which come its content and a line break.
pub proof fn law_part_layout(boundary: Seq<u8>, p: PartView)
    ensures
        part_head(boundary, p).take(delimiter_line(boundary).len() as int) == delimiter_line(
            boundary,
        ),
        part_head(boundary, p).skip(part_head(boundary, p).len() - 4) == crlf() + crlf(),
        part_bytes(boundary, p) == part_head(boundary, p) + p.content + crlf(),
{
    lemma_crlf();
    let h = part_head(boundary, p);
    let d = delimiter_line(boundary);
    assert(h.take(d.len() as int) =~= d);
    let before = h.take(h.len() - 2);
    assert(h =~= before + crlf());
    // What precedes the last line break ends with a line break itself.
    if p.headers.len() > 0 {
        let last = header_line(p.headers.last());
        assert(last.skip(last.len() - 2) =~= crlf());
    } else {
        assert(header_lines(p.headers) =~= Seq::<u8>::empty());
    }
    assert(before.skip(before.len() - 2) =~= crlf());
    assert(h.skip(h.len() - 4) =~= crlf() + crlf());
}

/// A line break is the two bytes `13, 10`.
pub proof fn lemma_crlf()
    ensures
        crlf() == seq![13u8, 10u8],
{
    reveal_strlit("\r\n");
    let t = "\r\n"@;
    assert(is_ascii_chars(t));
    is_ascii_chars_encode_utf8(t);
    assert(crlf() =~= seq![13u8, 10u8]);
}

proof fn lemma_filter_twice(items: Seq<(Seq<u8>, Seq<u8>)>, name: Seq<u8>)
    ensures
        items.filter(not_named(name)).filter(not_named(name)) == items.filter(not_named(name)),
        items.filter(not_named(name)).filter(named(name)) == Seq::<(Seq<u8>, Seq<u8>)>::empty(),
    decreases items.len(),
{
    reveal(Seq::filter);
    if items.len() > 0 {
        lemma_filter_twice(items.drop_last(), name);
        let f = items.drop_last().filter(not_named(name));
        if not_named(name)(items.last()) {
            assert(f.push(items.last()).drop_last() =~= f);
        }
    }
}

proof fn lemma_replace_header(items: Seq<(Seq<u8>, Seq<u8>)>, name: Seq<u8>, value: Seq<u8>)
    requires
        has_header(items, name),
    ensures
        replace_header(items, name, value).filter(named(name)) == seq![(name, value)],
        replace_header(items, name, value).filter(not_named(name)) == items.filter(
            not_named(name),
        ),
    decreases items.len(),
{
    broadcast use Seq::lemma_filter_prepend;

    let rest = items.drop_first();
    assert(items =~= seq![items[0]] + rest);
    if items[0].0 == name {
        lemma_filter_twice(rest, name);
        assert(seq![(name, value)] + Seq::<(Seq<u8>, Seq<u8>)>::empty() =~= seq![(name, value)]);
    } else {
        let i = choose|i: int| 0 <= i < items.len() && (#[trigger] items[i]).0 == name;
        assert(rest[i - 1] == items[i]);
        lemma_replace_header(rest, name, value);
    }
}

proof fn lemma_filter_none(items: Seq<(Seq<u8>, Seq<u8>)>, name: Seq<u8>)
    requires
        !has_header(items, name),
    ensures
        items.filter(named(name)) == Seq::<(Seq<u8>, Seq<u8>)>::empty(),
        items.filter(not_named(name)) == items,
    decreases items.len(),
{
    reveal(Seq::filter);
    if items.len() > 0 {
        let init = items.drop_last();
        assert forall|i: int| 0 <= i < init.len() implies (#[trigger] init[i]).0 != name by {
            assert(init[i] == items[i]);
        }
        lemma_filter_none(init, name);
        assert(items.last() == items[items.len() - 1]);
        assert(init.push(items.last()) =~= items);
    }
}

/// After a header is added, the part holds exactly one pair of that name, with the new value,
/// and the pairs of every other name are those it held before, in the same order.
pub proof fn law_insert_header(items: Seq<(Seq<u8>, Seq<u8>)>, name: Seq<u8>, value: Seq<u8>)
    ensures
        insert_header(items, name, value).filter(named(name)) == seq![(name, value)],
        insert_header(items, name, value).filter(not_named(name)) == items.filter(
            not_named(name),
        ),
{
    if has_header(items, name) {
        lemma_replace_header(items, name, value);
    } else {
        reveal(Seq::filter);
        lemma_filter_none(items, name);
        assert(items.push((name, value)).drop_last() =~= items);
        assert(Seq::<(Seq<u8>, Seq<u8>)>::empty().push((name, value)) =~= seq![(name, value)]);
    }
}


proof fn lemma_shift_left_xor_injective(a: u64, b: u64, k: u64)
    requires
        1 <= k < 64,
    ensures
        (a ^ (a << k)) == (b ^ (b << k)) ==> a == b,
{
    assert(1 <= k < 64 ==> ((a ^ (a << k)) == (b ^ (b << k)) ==> a == b)) by (bit_vector);
}

proof fn lemma_shift_right_xor_injective(a: u64, b: u64, k: u64)
    requires
        1 <= k < 64,
    ensures
        (a ^ (a >> k)) == (b ^ (b >> k)) ==> a == b,
{
    assert(1 <= k < 64 ==> ((a ^ (a >> k)) == (b ^ (b >> k)) ==> a == b)) by (bit_vector);
}

/// The xorshift64 step is one-to-one: two states with the same successor are the same state.
pub proof fn law_xorshift_injective(a: u64, b: u64)
    ensures
        xorshift(a) == xorshift(b) ==> a == b,
{
    let a1 = a ^ (a << 13u64);
    let b1 = b ^ (b << 13u64);
    let a2 = a1 ^ (a1 >> 7u64);
    let b2 = b1 ^ (b1 >> 7u64);
    lemma_shift_left_xor_injective(a2, b2, 17);
    lemma_shift_right_xor_injective(a1, b1, 7);
    lemma_shift_left_xor_injective(a, b, 13);
}

/// No non-zero state comes back within one, two or four steps of the generator.
#[verifier::rlimit(100)]
pub proof fn law_xorshift_no_short_cycle(n: u64)
    requires
        n != 0,
    ensures
        xorshift(n) != n,
        xorshift(xorshift(n)) != n,
        xorshift4(n) != n,
{
    assert(n != 0 ==> xorshift(xorshift(xorshift(xorshift(n)))) != n) by (bit_vector);
    if xorshift(n) == n {
        assert(xorshift4(n) == n);
    }
    if xorshift(xorshift(n)) == n {
        assert(xorshift4(n) == n);
    }
}

/// `16` to the power `k`, the first number that `k` hexadecimal digits cannot write.
pub open spec fn hex_bound(k: nat) -> nat
    decreases k,
{
    if k == 0 {
        1
    } else {
        16 * hex_bound((k - 1) as nat)
    }
}

proof fn lemma_hex_digit_injective(d: nat, e: nat)
    requires
        d < 16,
        e < 16,
        hex_digit(d) == hex_digit(e),
    ensures
        d == e,
{
}

proof fn lemma_hex_digits_injective(n: nat, m: nat, k: nat)
    requires
        n < hex_bound(k),
        m < hex_bound(k),
        hex_digits(n, k) == hex_digits(m, k),
    ensures
        n == m,
    decreases k,
{
    if k > 0 {
        let hn = hex_digits(n / 16, (k - 1) as nat);
        let hm = hex_digits(m / 16, (k - 1) as nat);
        lemma_hex_digits(n / 16, (k - 1) as nat);
        lemma_hex_digits(m / 16, (k - 1) as nat);
        assert(hex_digits(n, k).last() == hex_digit(n % 16));
        assert(hex_digits(m, k).last() == hex_digit(m % 16));
        lemma_hex_digit_injective(n % 16, m % 16);
        assert(hn =~= hex_digits(n, k).drop_last());
        assert(hm =~= hex_digits(m, k).drop_last());
        lemma_hex_digits_injective(n / 16, m / 16, (k - 1) as nat);
    }
}

proof fn lemma_hex16_injective(a: u64, b: u64)
    requires
        hex16(a) == hex16(b),
    ensures
        a == b,
{
    reveal_with_fuel(hex_bound, 17);
    assert(hex_bound(16) == 0x1_0000_0000_0000_0000);
    lemma_hex_digits_injective(a as nat, b as nat, 16);
}

proof fn lemma_hex_digits_zero(k: nat)
    ensures
        hex_digits(0, k) == Seq::new(k, |i: int| '0'),
    decreases k,
{
    if k > 0 {
        lemma_hex_digits_zero((k - 1) as nat);
        assert(hex_digits(0, k) =~= Seq::new(k, |i: int| '0'));
    } else {
        assert(hex_digits(0, k) =~= Seq::new(k, |i: int| '0'));
    }
}

/// A generator with a non-zero state never gives the boundary of all zeros, and two boundaries
/// that it gives one after the other differ.
pub proof fn law_successive_boundaries_differ(state: u64)
    requires
        state != 0,
    ensures
        boundary_text(state) != Seq::new(64, |i: int| '0'),
        boundary_text(state) != boundary_text(xorshift4(state)),
{
    let a = xorshift(state);
    law_xorshift_keeps_nonzero(state);
    let a2 = xorshift(xorshift4(state));
    assert(a2 == xorshift4(a));
    law_xorshift_no_short_cycle(a);
    lemma_hex_digits(a as nat, 16);
    lemma_hex_digits(a2 as nat, 16);
    let b1 = boundary_text(state);
    let b2 = boundary_text(xorshift4(state));
    assert(b1.take(16) =~= hex16(a));
    assert(b2.take(16) =~= hex16(a2));
    if b1 == b2 {
        lemma_hex16_injective(a, a2);
    }
    let zeros = Seq::new(64, |i: int| '0');
    if b1 == zeros {
        lemma_hex_digits_zero(16);
        assert(hex16(a) =~= hex16(0));
        lemma_hex16_injective(a, 0);
    }
}

} // verus!
