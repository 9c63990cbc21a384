//! A body determines the parts it was written from: two messages with the same boundary whose
//! bodies are equal have equal parts, as long as no part holds the bytes that a reader takes
//! for the end of a field or of the part.

use vstd::prelude::*;
use vstd::utf8::{encode_utf8, encode_utf8_decode_utf8, is_ascii_chars, is_ascii_chars_encode_utf8};
use crate::encoding::{
    close_delimiter,
    content_type_line,
    crlf,
    delimiter_line,
    disposition_line,
    filename_field,
    header_line,
    header_lines,
    message_bytes,
    part_bytes,
    parts_bytes,
    MultipartView,
    PartView,
};
use crate::laws::{law_parts_concatenate, lemma_crlf};

verus! {

/// Whether no byte of `s` is `c`.
pub open spec fn lacks_byte(s: Seq<u8>, c: u8) -> bool {
    forall|i: int| 0 <= i < s.len() ==> s[i] != c
}

/// The bytes of a part between its delimiter line and the line break that precedes the next
/// delimiter: its header lines, a blank line and its content.
pub open spec fn part_inner(p: PartView) -> Seq<u8> {
    disposition_line(p.name, p.filename) + content_type_line(p.mime) + header_lines(p.headers)
        + crlf() + p.content
}

/// `\r\n--boundary`: what a reader takes for the end of a part.
pub open spec fn delimiter_marker(boundary: Seq<u8>) -> Seq<u8> {
    crlf() + encode_utf8("--"@) + boundary
}

/// Whether `marker` starts nowhere inside `inner` when `marker` follows it.
pub open spec fn free_of_marker(inner: Seq<u8>, marker: Seq<u8>) -> bool {
    forall|i: int|
        0 <= i < inner.len() ==> #[trigger] (inner + marker).subrange(i, i + marker.len())
            != marker
}

/// A header pair that a reader splits back as it was: no `:` or carriage return in the name,
/// which is not `Content-Type`, and no carriage return in the value.
pub open spec fn header_unambiguous(item: (Seq<u8>, Seq<u8>)) -> bool {
    &&& lacks_byte(item.0, 58)
    &&& lacks_byte(item.0, 13)
    &&& item.0 != encode_utf8("Content-Type"@)
    &&& lacks_byte(item.1, 13)
}

/// A part that a reader splits back as it was: no `"` in its name or file name, no carriage
/// return in its media type, unambiguous header pairs, and no delimiter marker inside it.
pub open spec fn part_unambiguous(boundary: Seq<u8>, p: PartView) -> bool {
    &&& lacks_byte(encode_utf8(p.name), 34)
    &&& (p.filename matches Some(f) ==> lacks_byte(encode_utf8(f), 34))
    &&& (p.mime matches Some(m) ==> lacks_byte(encode_utf8(m), 13))
    &&& forall|i: int| 0 <= i < p.headers.len() ==> header_unambiguous(#[trigger] p.headers[i])
    &&& free_of_marker(part_inner(p), delimiter_marker(boundary))
}

pub open spec fn parts_unambiguous(boundary: Seq<u8>, parts: Seq<PartView>) -> bool {
    forall|i: int| 0 <= i < parts.len() ==> part_unambiguous(boundary, #[trigger] parts[i])
}

proof fn lemma_cancel(a: Seq<u8>, x: Seq<u8>, y: Seq<u8>)
    requires
        a + x == a + y,
    ensures
        x == y,
{
    assert(x =~= (a + x).skip(a.len() as int));
    assert(y =~= (a + y).skip(a.len() as int));
}

/// Two splits of one sequence at the first byte `c` are the same split.
proof fn lemma_stop(a1: Seq<u8>, x1: Seq<u8>, a2: Seq<u8>, x2: Seq<u8>, c: u8)
    requires
        a1 + x1 == a2 + x2,
        lacks_byte(a1, c),
        lacks_byte(a2, c),
        x1.len() > 0 && x1[0] == c,
        x2.len() > 0 && x2[0] == c,
    ensures
        a1 == a2,
        x1 == x2,
{
    let s = a1 + x1;
    if a1.len() < a2.len() {
        assert(s[a1.len() as int] == c);
        assert((a2 + x2)[a1.len() as int] == a2[a1.len() as int]);
    } else if a2.len() < a1.len() {
        assert((a2 + x2)[a2.len() as int] == c);
        assert(s[a2.len() as int] == a1[a2.len() as int]);
    }
    assert(a1 =~= s.take(a1.len() as int));
    assert(a2 =~= (a2 + x2).take(a2.len() as int));
    lemma_cancel(a1, x1, x2);
}

/// Two splits of one sequence at the first marker are the same split.
proof fn lemma_marker(i1: Seq<u8>, x1: Seq<u8>, i2: Seq<u8>, x2: Seq<u8>, mk: Seq<u8>)
    requires
        i1 + (mk + x1) == i2 + (mk + x2),
        free_of_marker(i1, mk),
        free_of_marker(i2, mk),
    ensures
        i1 == i2,
        x1 == x2,
{
    let s = i1 + (mk + x1);
    if i1.len() < i2.len() {
        let k = i1.len() as int;
        assert(s.subrange(k, k + mk.len()) =~= mk);
        assert((i2 + mk).subrange(k, k + mk.len()) =~= s.subrange(k, k + mk.len()));
    } else if i2.len() < i1.len() {
        let k = i2.len() as int;
        assert(s.subrange(k, k + mk.len()) =~= mk);
        assert((i1 + mk).subrange(k, k + mk.len()) =~= s.subrange(k, k + mk.len()));
    }
    assert(i1 =~= s.take(i1.len() as int));
    assert(i2 =~= s.take(i2.len() as int));
    lemma_cancel(i1, mk + x1, mk + x2);
    lemma_cancel(mk, x1, x2);
}

pub(crate) proof fn lemma_ascii(t: Seq<char>)
    requires
        is_ascii_chars(t),
    ensures
        encode_utf8(t).len() == t.len(),
        forall|i: int| 0 <= i < t.len() ==> #[trigger] encode_utf8(t)[i] == t[i] as u8,
{
    is_ascii_chars_encode_utf8(t);
}

pub(crate) proof fn lemma_literal_bytes()
    ensures
        encode_utf8("\""@) == seq![34u8],
        encode_utf8("; filename=\""@).len() > 0 && encode_utf8("; filename=\""@)[0] == 59u8,
        encode_utf8(": "@).len() > 0 && encode_utf8(": "@)[0] == 58u8,
        encode_utf8("--"@).len() == 2,
        encode_utf8("--\r\n"@).len() > 0 && encode_utf8("--\r\n"@)[0] == 45u8,
        crlf() == seq![13u8, 10u8],
{
    reveal_strlit("\"");
    reveal_strlit("; filename=\"");
    reveal_strlit(": ");
    reveal_strlit("--");
    reveal_strlit("--\r\n");
    lemma_ascii("\""@);
    lemma_ascii("; filename=\""@);
    lemma_ascii(": "@);
    lemma_ascii("--"@);
    lemma_ascii("--\r\n"@);
    assert(encode_utf8("\""@) =~= seq![34u8]);
    lemma_crlf();
}

/// The bytes of `Content-Type: `: the only `:` is the twelfth byte, after the bytes of
/// `Content-Type`, and the first is not a carriage return.
proof fn lemma_content_type_bytes()
    ensures
        encode_utf8("Content-Type: "@).len() == 14,
        encode_utf8("Content-Type: "@)[12] == 58u8,
        encode_utf8("Content-Type: "@)[0] != 13u8,
        forall|i: int| 0 <= i < 12 ==> #[trigger] encode_utf8("Content-Type: "@)[i] != 58u8,
        encode_utf8("Content-Type: "@).take(12) == encode_utf8("Content-Type"@),
{
    reveal_strlit("Content-Type: ");
    reveal_strlit("Content-Type");
    let t = "Content-Type: "@;
    let u = "Content-Type"@;
    lemma_ascii(t);
    lemma_ascii(u);
    assert(encode_utf8(t).take(12) =~= encode_utf8(u));
}

/// The lines of a run of header pairs, first pair first.
proof fn lemma_header_lines_front(items: Seq<(Seq<u8>, Seq<u8>)>)
    requires
        items.len() > 0,
    ensures
        header_lines(items) == header_line(items[0]) + header_lines(items.drop_first()),
    decreases items.len(),
{
    if items.len() == 1 {
        assert(items.drop_last().len() == 0);
        assert(items.drop_first().len() == 0);
        assert(header_lines(items.drop_first()) =~= Seq::<u8>::empty());
        assert(header_lines(items.drop_last()) =~= Seq::<u8>::empty());
        assert(header_lines(items) =~= header_line(items[0]) + Seq::<u8>::empty());
    } else {
        lemma_header_lines_front(items.drop_last());
        assert(items.drop_last().drop_first() =~= items.drop_first().drop_last());
        assert(items.drop_first().last() == items.last());
        assert(items.drop_last()[0] == items[0]);
        assert(header_lines(items) =~= header_line(items[0]) + header_lines(items.drop_first()));
    }
}

/// Header lines followed by a blank line split back into the same pairs and the same rest.
proof fn lemma_headers_unique(
    h1: Seq<(Seq<u8>, Seq<u8>)>,
    c1: Seq<u8>,
    h2: Seq<(Seq<u8>, Seq<u8>)>,
    c2: Seq<u8>,
)
    requires
        header_lines(h1) + (crlf() + c1) == header_lines(h2) + (crlf() + c2),
        forall|i: int| 0 <= i < h1.len() ==> header_unambiguous(#[trigger] h1[i]),
        forall|i: int| 0 <= i < h2.len() ==> header_unambiguous(#[trigger] h2[i]),
    ensures
        h1 == h2,
        c1 == c2,
    decreases h1.len(),
{
    lemma_literal_bytes();
    if h1.len() == 0 && h2.len() == 0 {
        assert(header_lines(h1) =~= Seq::<u8>::empty());
        assert(header_lines(h2) =~= Seq::<u8>::empty());
        assert(h1 =~= h2);
        lemma_cancel(crlf(), c1, c2);
    } else if h1.len() == 0 || h2.len() == 0 {
        // One side starts the blank line where the other starts a header line.
        let (h, c, o) = if h1.len() == 0 {
            (h2, c1, c2)
        } else {
            (h1, c2, c1)
        };
        assert(header_unambiguous(h[0]));
        lemma_header_lines_front(h);
        let line = header_line(h[0]);
        let s = line + header_lines(h.drop_first()) + (crlf() + o);
        assert(header_lines(h) + (crlf() + o) =~= s);
        if h1.len() == 0 {
            assert(header_lines(h1) =~= Seq::<u8>::empty());
            assert(s[0] == (crlf() + c)[0]);
        } else {
            assert(header_lines(h2) =~= Seq::<u8>::empty());
            assert(s[0] == (crlf() + c)[0]);
        }
        if h[0].0.len() > 0 {
            assert(s[0] == h[0].0[0]);
        } else {
            assert(s[0] == encode_utf8(": "@)[0]);
        }
    } else {
        assert(header_unambiguous(h1[0]));
        assert(header_unambiguous(h2[0]));
        lemma_header_lines_front(h1);
        lemma_header_lines_front(h2);
        let (n1, v1) = h1[0];
        let (n2, v2) = h2[0];
        let r1 = header_lines(h1.drop_first()) + (crlf() + c1);
        let r2 = header_lines(h2.drop_first()) + (crlf() + c2);
        let sep = encode_utf8(": "@);
        assert(header_lines(h1) + (crlf() + c1) =~= n1 + (sep + (v1 + (crlf() + r1))));
        assert(header_lines(h2) + (crlf() + c2) =~= n2 + (sep + (v2 + (crlf() + r2))));
        lemma_stop(n1, sep + (v1 + (crlf() + r1)), n2, sep + (v2 + (crlf() + r2)), 58u8);
        lemma_cancel(sep, v1 + (crlf() + r1), v2 + (crlf() + r2));
        lemma_stop(v1, crlf() + r1, v2, crlf() + r2, 13u8);
        lemma_cancel(crlf(), r1, r2);
        assert forall|i: int| 0 <= i < h1.drop_first().len() implies header_unambiguous(
            #[trigger] h1.drop_first()[i],
        ) by {
            assert(h1.drop_first()[i] == h1[i + 1]);
        }
        assert forall|i: int| 0 <= i < h2.drop_first().len() implies header_unambiguous(
            #[trigger] h2.drop_first()[i],
        ) by {
            assert(h2.drop_first()[i] == h2[i + 1]);
        }
        lemma_headers_unique(h1.drop_first(), c1, h2.drop_first(), c2);
        assert(h1 =~= seq![h1[0]] + h1.drop_first());
        assert(h2 =~= seq![h2[0]] + h2.drop_first());
    }
}

/// A media type line never reads as header lines or as the blank line.
proof fn lemma_media_line_not_headers(
    m: Seq<u8>,
    x: Seq<u8>,
    h: Seq<(Seq<u8>, Seq<u8>)>,
    c: Seq<u8>,
)
    requires
        forall|i: int| 0 <= i < h.len() ==> header_unambiguous(#[trigger] h[i]),
    ensures
        encode_utf8("Content-Type: "@) + (m + (crlf() + x)) != header_lines(h) + (crlf() + c),
{
    lemma_literal_bytes();
    lemma_content_type_bytes();
    let ct = encode_utf8("Content-Type: "@);
    let s = ct + (m + (crlf() + x));
    let t = header_lines(h) + (crlf() + c);
    assert(s[0] == ct[0]);
    if s != t {
    } else if h.len() == 0 {
        assert(header_lines(h) =~= Seq::<u8>::empty());
        assert(t[0] == 13u8);
    } else {
        lemma_header_lines_front(h);
        let n = h[0].0;
        assert(header_unambiguous(h[0]));
        let rest = h[0].1 + crlf() + header_lines(h.drop_first()) + (crlf() + c);
        assert(t =~= n + (encode_utf8(": "@) + rest));
        if n.len() < 12 {
            assert(t[n.len() as int] == 58u8);
            assert(s[n.len() as int] == ct[n.len() as int]);
        } else if n.len() > 12 {
            assert(t[12] == n[12]);
            assert(s[12] == ct[12]);
        } else {
            assert(n =~= t.take(12));
            assert(ct.take(12) =~= s.take(12));
        }
    }
}

proof fn lemma_media_both(a1: Seq<char>, t1: Seq<u8>, a2: Seq<char>, t2: Seq<u8>)
    requires
        encode_utf8("Content-Type: "@) + (encode_utf8(a1) + (crlf() + t1)) == encode_utf8(
            "Content-Type: "@,
        ) + (encode_utf8(a2) + (crlf() + t2)),
        lacks_byte(encode_utf8(a1), 13),
        lacks_byte(encode_utf8(a2), 13),
    ensures
        a1 == a2,
        t1 == t2,
{
    let ct = encode_utf8("Content-Type: "@);
    let e1 = encode_utf8(a1);
    let e2 = encode_utf8(a2);
    lemma_cancel(ct, e1 + (crlf() + t1), e2 + (crlf() + t2));
    lemma_literal_bytes();
    lemma_stop(e1, crlf() + t1, e2, crlf() + t2, 13u8);
    lemma_cancel(crlf(), t1, t2);
    encode_utf8_decode_utf8(a1);
    encode_utf8_decode_utf8(a2);
}

proof fn lemma_media_line(m: Option<Seq<char>>, t: Seq<u8>)
    ensures
        m matches Some(a) ==> content_type_line(m) + t == encode_utf8("Content-Type: "@) + (
        encode_utf8(a) + (crlf() + t)),
        m is None ==> content_type_line(m) + t == t,
{
    match m {
        Some(a) => {
            assert(content_type_line(m) + t =~= encode_utf8("Content-Type: "@) + (encode_utf8(a) + (
            crlf() + t)));
        },
        None => {
            assert(content_type_line(m) + t =~= t);
        },
    }
}

/// After the `Content-Disposition` line: the media type line, if any, then the header lines and
/// the blank line, split back as written.
proof fn lemma_after_disposition_unique(
    m1: Option<Seq<char>>,
    h1: Seq<(Seq<u8>, Seq<u8>)>,
    c1: Seq<u8>,
    m2: Option<Seq<char>>,
    h2: Seq<(Seq<u8>, Seq<u8>)>,
    c2: Seq<u8>,
)
    requires
        content_type_line(m1) + (header_lines(h1) + (crlf() + c1)) == content_type_line(m2) + (
        header_lines(h2) + (crlf() + c2)),
        m1 matches Some(m) ==> lacks_byte(encode_utf8(m), 13),
        m2 matches Some(m) ==> lacks_byte(encode_utf8(m), 13),
        forall|i: int| 0 <= i < h1.len() ==> header_unambiguous(#[trigger] h1[i]),
        forall|i: int| 0 <= i < h2.len() ==> header_unambiguous(#[trigger] h2[i]),
    ensures
        m1 == m2,
        h1 == h2,
        c1 == c2,
{
    let t1 = header_lines(h1) + (crlf() + c1);
    let t2 = header_lines(h2) + (crlf() + c2);
    lemma_media_line(m1, t1);
    lemma_media_line(m2, t2);
    if m1 is Some && m2 is Some {
        lemma_media_both(m1->0, t1, m2->0, t2);
    } else if m1 is Some && m2 is None {
        lemma_media_line_not_headers(encode_utf8(m1->0), t1, h2, c2);
    } else if m1 is None && m2 is Some {
        lemma_media_line_not_headers(encode_utf8(m2->0), t2, h1, c1);
    }
    lemma_headers_unique(h1, c1, h2, c2);
}

/// The `; filename="..."` field, if any, and the line break after it, split back as written.
proof fn lemma_filename_unique(a1: Option<Seq<char>>, r1: Seq<u8>, a2: Option<Seq<char>>, r2: Seq<u8>)
    requires
        filename_field(a1) + (crlf() + r1) == filename_field(a2) + (crlf() + r2),
        a1 matches Some(f) ==> lacks_byte(encode_utf8(f), 34),
        a2 matches Some(f) ==> lacks_byte(encode_utf8(f), 34),
    ensures
        a1 == a2,
        r1 == r2,
{
    lemma_literal_bytes();
    let q = encode_utf8("\""@);
    let fq = encode_utf8("; filename=\""@);
    let f1 = filename_field(a1) + (crlf() + r1);
    let f2 = filename_field(a2) + (crlf() + r2);
    match (a1, a2) {
        (Some(b1), Some(b2)) => {
            let e1 = encode_utf8(b1);
            let e2 = encode_utf8(b2);
            assert(f1 =~= fq + (e1 + (q + (crlf() + r1))));
            assert(f2 =~= fq + (e2 + (q + (crlf() + r2))));
            lemma_cancel(fq, e1 + (q + (crlf() + r1)), e2 + (q + (crlf() + r2)));
            lemma_stop(e1, q + (crlf() + r1), e2, q + (crlf() + r2), 34u8);
            lemma_cancel(q, crlf() + r1, crlf() + r2);
            lemma_cancel(crlf(), r1, r2);
            encode_utf8_decode_utf8(b1);
            encode_utf8_decode_utf8(b2);
        },
        (None, None) => {
            assert(f1 =~= crlf() + r1);
            assert(f2 =~= crlf() + r2);
            lemma_cancel(crlf(), r1, r2);
        },
        (Some(b1), None) => {
            assert(f1 =~= fq + (encode_utf8(b1) + (q + (crlf() + r1))));
            assert(f2 =~= crlf() + r2);
            assert(f1[0] == fq[0]);
            assert(f2[0] == crlf()[0]);
        },
        (None, Some(b2)) => {
            assert(f2 =~= fq + (encode_utf8(b2) + (q + (crlf() + r2))));
            assert(f1 =~= crlf() + r1);
            assert(f2[0] == fq[0]);
            assert(f1[0] == crlf()[0]);
        },
    }
}

/// The bytes after the name of a part.
pub open spec fn after_name(p: PartView) -> Seq<u8> {
    filename_field(p.filename) + (crlf() + (content_type_line(p.mime) + (header_lines(p.headers)
        + (crlf() + p.content))))
}

proof fn lemma_regroup(
    a: Seq<u8>,
    b: Seq<u8>,
    c: Seq<u8>,
    d: Seq<u8>,
    e: Seq<u8>,
    f: Seq<u8>,
    g: Seq<u8>,
    h: Seq<u8>,
    i: Seq<u8>,
)
    ensures
        a + b + c + d + e + f + g + h + i == (a + b) + (c + (d + (e + (f + (g + (h + i)))))),
{
    assert(a + b + c + d + e + f + g + h + i =~= (a + b) + (c + (d + (e + (f + (g + (h + i)))))));
}

proof fn lemma_inner_shape(p: PartView)
    ensures
        part_inner(p) == (encode_utf8("Content-Disposition: form-data; "@) + encode_utf8(
            "name=\""@,
        )) + (encode_utf8(p.name) + (encode_utf8("\""@) + after_name(p))),
{
    lemma_regroup(
        encode_utf8("Content-Disposition: form-data; "@),
        encode_utf8("name=\""@),
        encode_utf8(p.name),
        encode_utf8("\""@),
        filename_field(p.filename),
        crlf(),
        content_type_line(p.mime),
        header_lines(p.headers),
        crlf() + p.content,
    );
    assert(part_inner(p) == disposition_line(p.name, p.filename) + content_type_line(p.mime)
        + header_lines(p.headers) + (crlf() + p.content));
}

/// A part's inner bytes determine the part.
proof fn lemma_part_unique(p1: PartView, p2: PartView)
    requires
        part_inner(p1) == part_inner(p2),
        lacks_byte(encode_utf8(p1.name), 34),
        lacks_byte(encode_utf8(p2.name), 34),
        p1.filename matches Some(f) ==> lacks_byte(encode_utf8(f), 34),
        p2.filename matches Some(f) ==> lacks_byte(encode_utf8(f), 34),
        p1.mime matches Some(m) ==> lacks_byte(encode_utf8(m), 13),
        p2.mime matches Some(m) ==> lacks_byte(encode_utf8(m), 13),
        forall|i: int| 0 <= i < p1.headers.len() ==> header_unambiguous(#[trigger] p1.headers[i]),
        forall|i: int| 0 <= i < p2.headers.len() ==> header_unambiguous(#[trigger] p2.headers[i]),
    ensures
        p1 == p2,
{
    let pre = encode_utf8("Content-Disposition: form-data; "@) + encode_utf8("name=\""@);
    let q = encode_utf8("\""@);
    let n1 = encode_utf8(p1.name);
    let n2 = encode_utf8(p2.name);
    lemma_inner_shape(p1);
    lemma_inner_shape(p2);
    lemma_cancel(pre, n1 + (q + after_name(p1)), n2 + (q + after_name(p2)));
    assert(q == seq![34u8]) by {
        lemma_literal_bytes();
    }
    lemma_stop(n1, q + after_name(p1), n2, q + after_name(p2), 34u8);
    lemma_cancel(q, after_name(p1), after_name(p2));
    encode_utf8_decode_utf8(p1.name);
    encode_utf8_decode_utf8(p2.name);
    let r1 = content_type_line(p1.mime) + (header_lines(p1.headers) + (crlf() + p1.content));
    let r2 = content_type_line(p2.mime) + (header_lines(p2.headers) + (crlf() + p2.content));
    lemma_filename_unique(p1.filename, r1, p2.filename, r2);
    lemma_after_disposition_unique(p1.mime, p1.headers, p1.content, p2.mime, p2.headers, p2.content);
}

proof fn lemma_part_bytes_shape(b: Seq<u8>, p: PartView)
    ensures
        part_bytes(b, p) == delimiter_line(b) + (part_inner(p) + crlf()),
{
    lemma_regroup(
        delimiter_line(b),
        disposition_line(p.name, p.filename),
        content_type_line(p.mime),
        header_lines(p.headers),
        crlf(),
        p.content,
        crlf(),
        Seq::empty(),
        Seq::empty(),
    );
    assert(part_bytes(b, p) =~= delimiter_line(b) + (part_inner(p) + crlf()));
}

proof fn lemma_parts_front(b: Seq<u8>, ps: Seq<PartView>)
    requires
        ps.len() > 0,
    ensures
        parts_bytes(b, ps) == part_bytes(b, ps[0]) + parts_bytes(b, ps.drop_first()),
{
    let first = seq![ps[0]];
    law_parts_concatenate(b, first, ps.drop_first());
    assert(first + ps.drop_first() =~= ps);
    assert(first.drop_last() =~= Seq::<PartView>::empty());
    assert(parts_bytes(b, Seq::<PartView>::empty()) =~= Seq::<u8>::empty());
    assert(parts_bytes(b, first) =~= part_bytes(b, ps[0]));
}

/// What follows a part: the next part or the closing delimiter, both opening with `--boundary`.
proof fn lemma_rest_opens(b: Seq<u8>, ps: Seq<PartView>)
    ensures
        (parts_bytes(b, ps) + close_delimiter(b)).len() >= 2 + b.len(),
        (parts_bytes(b, ps) + close_delimiter(b)).take(2 + b.len() as int) == encode_utf8("--"@) + b,
{
    lemma_literal_bytes();
    let r = parts_bytes(b, ps) + close_delimiter(b);
    let open = encode_utf8("--"@) + b;
    if ps.len() == 0 {
        assert(parts_bytes(b, ps) =~= Seq::<u8>::empty());
        assert(r =~= open + encode_utf8("--\r\n"@));
    } else {
        lemma_parts_front(b, ps);
        lemma_part_bytes_shape(b, ps[0]);
        assert(r =~= open + (crlf() + (part_inner(ps[0]) + crlf()) + parts_bytes(b, ps.drop_first())
            + close_delimiter(b)));
    }
    assert(r.take(2 + b.len() as int) =~= open);
}

/// A closing delimiter never reads as the opening of a part.
proof fn lemma_close_not_part(b: Seq<u8>, ps: Seq<PartView>)
    requires
        ps.len() > 0,
    ensures
        parts_bytes(b, ps) + close_delimiter(b) != close_delimiter(b),
{
    lemma_literal_bytes();
    let k: int = 2 + b.len() as int;
    let x = parts_bytes(b, ps) + close_delimiter(b);
    lemma_parts_front(b, ps);
    lemma_part_bytes_shape(b, ps[0]);
    assert(x =~= encode_utf8("--"@) + b + (crlf() + (part_inner(ps[0]) + crlf() + parts_bytes(
        b,
        ps.drop_first(),
    ) + close_delimiter(b))));
    assert(x[k] == 13u8);
    let y = close_delimiter(b);
    assert(y[k] == 45u8);
}

/// A body that opens with a part: the delimiter line, the part's inner bytes, the delimiter
/// marker, and what follows the marker.
proof fn lemma_split_first(b: Seq<u8>, ps: Seq<PartView>)
    requires
        ps.len() > 0,
    ensures
        ({
            let k = 2 + b.len() as int;
            let r = parts_bytes(b, ps.drop_first()) + close_delimiter(b);
            &&& parts_bytes(b, ps) + close_delimiter(b) == delimiter_line(b) + (part_inner(ps[0])
                + (delimiter_marker(b) + r.skip(k)))
            &&& r == (encode_utf8("--"@) + b) + r.skip(k)
        }),
{
    let k = 2 + b.len() as int;
    let r = parts_bytes(b, ps.drop_first()) + close_delimiter(b);
    let i = part_inner(ps[0]);
    lemma_parts_front(b, ps);
    lemma_part_bytes_shape(b, ps[0]);
    lemma_rest_opens(b, ps.drop_first());
    lemma_assoc_body(
        delimiter_line(b),
        i,
        crlf(),
        parts_bytes(b, ps.drop_first()),
        close_delimiter(b),
    );
    lemma_literal_bytes();
    assert(k == (encode_utf8("--"@) + b).len());
    lemma_marker_shape(crlf(), encode_utf8("--"@) + b, r, k);
}

proof fn lemma_assoc_body(d: Seq<u8>, i: Seq<u8>, c: Seq<u8>, t: Seq<u8>, e: Seq<u8>)
    ensures
        (d + (i + c)) + t + e == d + (i + (c + (t + e))),
{
    assert((d + (i + c)) + t + e =~= d + (i + (c + (t + e))));
}

proof fn lemma_marker_shape(c: Seq<u8>, open: Seq<u8>, r: Seq<u8>, k: int)
    requires
        k == open.len(),
        r.len() >= k,
        r.take(k) == open,
    ensures
        r == open + r.skip(k),
        c + r == (c + open) + r.skip(k),
{
    assert(r =~= open + r.skip(k));
    assert(c + r =~= (c + open) + r.skip(k));
}

/// Two bodies that both open with a part split into the same first part and the same rest.
proof fn lemma_first_part(b: Seq<u8>, ps1: Seq<PartView>, ps2: Seq<PartView>)
    requires
        ps1.len() > 0,
        ps2.len() > 0,
        parts_bytes(b, ps1) + close_delimiter(b) == parts_bytes(b, ps2) + close_delimiter(b),
        free_of_marker(part_inner(ps1[0]), delimiter_marker(b)),
        free_of_marker(part_inner(ps2[0]), delimiter_marker(b)),
    ensures
        part_inner(ps1[0]) == part_inner(ps2[0]),
        parts_bytes(b, ps1.drop_first()) + close_delimiter(b) == parts_bytes(b, ps2.drop_first())
            + close_delimiter(b),
{
    let k = 2 + b.len() as int;
    let r1 = parts_bytes(b, ps1.drop_first()) + close_delimiter(b);
    let r2 = parts_bytes(b, ps2.drop_first()) + close_delimiter(b);
    let mk = delimiter_marker(b);
    lemma_split_first(b, ps1);
    lemma_split_first(b, ps2);
    let i1 = part_inner(ps1[0]);
    let i2 = part_inner(ps2[0]);
    lemma_cancel(delimiter_line(b), i1 + (mk + r1.skip(k)), i2 + (mk + r2.skip(k)));
    lemma_marker(i1, r1.skip(k), i2, r2.skip(k), mk);
}

proof fn lemma_parts_unique(b: Seq<u8>, ps1: Seq<PartView>, ps2: Seq<PartView>)
    requires
        parts_bytes(b, ps1) + close_delimiter(b) == parts_bytes(b, ps2) + close_delimiter(b),
        parts_unambiguous(b, ps1),
        parts_unambiguous(b, ps2),
    ensures
        ps1 == ps2,
    decreases ps1.len(),
{
    if ps1.len() == 0 && ps2.len() == 0 {
        assert(ps1 =~= ps2);
    } else if ps1.len() == 0 {
        assert(parts_bytes(b, ps1) =~= Seq::<u8>::empty());
        assert(parts_bytes(b, ps1) + close_delimiter(b) =~= close_delimiter(b));
        lemma_close_not_part(b, ps2);
    } else if ps2.len() == 0 {
        assert(parts_bytes(b, ps2) =~= Seq::<u8>::empty());
        assert(parts_bytes(b, ps2) + close_delimiter(b) =~= close_delimiter(b));
        lemma_close_not_part(b, ps1);
    } else {
        let t1 = ps1.drop_first();
        let t2 = ps2.drop_first();
        assert(part_unambiguous(b, ps1[0]));
        assert(part_unambiguous(b, ps2[0]));
        lemma_first_part(b, ps1, ps2);
        lemma_part_unique(ps1[0], ps2[0]);
        assert forall|i: int| 0 <= i < t1.len() implies part_unambiguous(b, #[trigger] t1[i]) by {
            assert(t1[i] == ps1[i + 1]);
        }
        assert forall|i: int| 0 <= i < t2.len() implies part_unambiguous(b, #[trigger] t2[i]) by {
            assert(t2[i] == ps2[i + 1]);
        }
        lemma_parts_unique(b, t1, t2);
        assert(ps1 =~= seq![ps1[0]] + t1);
        assert(ps2 =~= seq![ps2[0]] + t2);
    }
}

/// A body determines the parts it was written from: of two messages with one boundary, whose
/// parts keep `"` out of names and file names, line breaks out of media types and header
/// values, `:` out of header names, and the delimiter marker `\r\n--boundary` out of the bytes
/// of each part, equal bodies mean equal parts, in the same order.
pub proof fn law_body_determines_parts(m1: MultipartView, m2: MultipartView)
    requires
        m1.boundary == m2.boundary,
        parts_unambiguous(encode_utf8(m1.boundary), m1.parts),
        parts_unambiguous(encode_utf8(m2.boundary), m2.parts),
        message_bytes(m1) == message_bytes(m2),
    ensures
        m1.parts == m2.parts,
{
    lemma_parts_unique(encode_utf8(m1.boundary), m1.parts, m2.parts);
}

} // verus!
