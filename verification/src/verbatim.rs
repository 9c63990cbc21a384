//! What the writer copies verbatim: the boundary that the `content-type` header names, the
//! file name of a part, and the values of its custom headers.

use vstd::prelude::*;
use vstd::utf8::{decode_utf8, encode_utf8, encode_utf8_decode_utf8};
use crate::encoding::{
    close_delimiter,
    content_type_text,
    crlf,
    delimiter_line,
    header_line,
    header_lines,
    message_bytes,
    part_bytes,
    parts_bytes,
    MultipartView,
    PartView,
};
use crate::framing::{lemma_ascii, lemma_literal_bytes};

verus! {

/// The bytes of two texts one after the other are the bytes of the first followed by those of
/// the second.
pub proof fn lemma_encode_concat(a: Seq<char>, b: Seq<char>)
    ensures
        encode_utf8(a + b) == encode_utf8(a) + encode_utf8(b),
    decreases a.len() as int,
{
    if a.len() as int == 0 {
        assert(a + b =~= b);
        assert(encode_utf8(a) + encode_utf8(b) =~= encode_utf8(b));
    } else {
        assert((a + b).drop_first() =~= a.drop_first() + b);
        assert((a + b)[0] == a[0]);
        lemma_encode_concat(a.drop_first(), b);
        assert(encode_utf8(a + b) =~= encode_utf8(a) + encode_utf8(b));
    }
}

/// The `content-type` header names the boundary that delimits the body: after the text
/// `multipart/form-data; boundary=` it holds exactly the bytes that stand between the leading
/// `--` and the trailing `--\r\n` of the body's last line, and these bytes decode to the
/// message's boundary.
pub proof fn law_header_names_body_boundary(m: MultipartView)
    ensures
        ({
            let pre = encode_utf8("multipart/form-data; boundary="@);
            let h = encode_utf8(content_type_text(m.boundary));
            let body = message_bytes(m);
            let named = h.skip(pre.len() as int);
            let end = body.len() as int - 4;
            &&& h.len() as int >= pre.len() as int
            &&& h.take(pre.len() as int) == pre
            &&& decode_utf8(named) == m.boundary
            &&& body.len() as int >= named.len() as int + 6
            &&& body.subrange(end - named.len() as int - 2, end - named.len() as int) == encode_utf8("--"@)
            &&& body.subrange(end - named.len() as int, end) == named
            &&& body.skip(end) == encode_utf8("--\r\n"@)
        }),
{
    let pre = encode_utf8("multipart/form-data; boundary="@);
    let b = encode_utf8(m.boundary);
    let h = encode_utf8(content_type_text(m.boundary));
    assert(h == pre + b && h.take(pre.len() as int) == pre && h.skip(pre.len() as int) == b) by {
        lemma_encode_concat("multipart/form-data; boundary="@, m.boundary);
        assert(h.take(pre.len() as int) =~= pre);
        assert(h.skip(pre.len() as int) =~= b);
    }
    assert(decode_utf8(b) == m.boundary) by {
        encode_utf8_decode_utf8(m.boundary);
    }
    lemma_literal_bytes();
    assert(encode_utf8("--\r\n"@).len() == 4) by {
        reveal_strlit("--\r\n");
        lemma_ascii("--\r\n"@);
    }
    lemma_close_tail(parts_bytes(b, m.parts), encode_utf8("--"@), b, encode_utf8("--\r\n"@));
}

proof fn lemma_close_tail(p: Seq<u8>, dd: Seq<u8>, b: Seq<u8>, tail: Seq<u8>)
    requires
        dd.len() == 2,
        tail.len() == 4,
    ensures
        ({
            let body = p + (dd + b + tail);
            let end = body.len() - 4;
            &&& body.len() >= b.len() + 6
            &&& body.subrange(end - b.len() - 2, end - b.len()) == dd
            &&& body.subrange(end - b.len(), end) == b
            &&& body.skip(end) == tail
        }),
{
    let body = p + (dd + b + tail);
    let end = body.len() - 4;
    assert(body.subrange(end - b.len() - 2, end - b.len()) =~= dd);
    assert(body.subrange(end - b.len(), end) =~= b);
    assert(body.skip(end) =~= tail);
}

/// A part writes its name and its file name verbatim: after the delimiter line and
/// `Content-Disposition: form-data; name="` come the bytes of the name, `"`, `; filename="`,
/// the bytes of the file name and `"`; both runs of bytes decode to the texts given.
pub proof fn law_filename_written_verbatim(b: Seq<u8>, p: PartView)
    requires
        p.filename is Some,
    ensures
        ({
            let f = encode_utf8(p.filename->0);
            let n = encode_utf8(p.name);
            let bytes = part_bytes(b, p);
            let k0 = delimiter_line(b).len() as int + encode_utf8("Content-Disposition: form-data; "@).len() as int
                + encode_utf8("name=\""@).len() as int;
            let k1 = k0 + n.len() as int + 1 + encode_utf8("; filename=\""@).len() as int;
            &&& bytes.len() as int >= k1 + f.len() as int + 1
            &&& bytes.subrange(k0, k0 + n.len() as int) == n
            &&& bytes.subrange(k0 + n.len() as int, k0 + n.len() as int + 1) == encode_utf8("\""@)
            &&& bytes.subrange(k0 + n.len() as int + 1, k1) == encode_utf8("; filename=\""@)
            &&& bytes.subrange(k1, k1 + f.len() as int) == f
            &&& bytes.subrange(k1 + f.len() as int, k1 + f.len() as int + 1) == encode_utf8("\""@)
            &&& decode_utf8(bytes.subrange(k0, k0 + n.len() as int)) == p.name
            &&& decode_utf8(bytes.subrange(k1, k1 + f.len() as int)) == p.filename->0
        }),
{
    lemma_literal_bytes();
    let f = encode_utf8(p.filename->0);
    let n = encode_utf8(p.name);
    let bytes = part_bytes(b, p);
    let d = delimiter_line(b);
    let cd = encode_utf8("Content-Disposition: form-data; "@);
    let nq = encode_utf8("name=\""@);
    let q = encode_utf8("\""@);
    let fq = encode_utf8("; filename=\""@);
    let rest = bytes.skip(d.len() as int + cd.len() as int + nq.len() as int + n.len() as int + 1 + fq.len() as int + f.len() as int + 1);
    assert(bytes =~= d + cd + nq + n + q + fq + f + q + rest);
    let k0 = d.len() as int + cd.len() as int + nq.len() as int;
    let k1 = k0 + n.len() as int + 1 + fq.len() as int;
    assert(bytes.subrange(k0, k0 + n.len() as int) =~= n);
    assert(bytes.subrange(k0 + n.len() as int, k0 + n.len() as int + 1) =~= q);
    assert(bytes.subrange(k0 + n.len() as int + 1, k1) =~= fq);
    assert(bytes.subrange(k1, k1 + f.len() as int) =~= f);
    assert(bytes.subrange(k1 + f.len() as int, k1 + f.len() as int + 1) =~= q);
    encode_utf8_decode_utf8(p.name);
    encode_utf8_decode_utf8(p.filename->0);
}

/// The lines of a run of header pairs are the lines of a prefix followed by those of the rest.
pub proof fn lemma_header_lines_split(items: Seq<(Seq<u8>, Seq<u8>)>, j: int)
    requires
        0 <= j <= items.len() as int,
    ensures
        header_lines(items) == header_lines(items.take(j)) + header_lines(items.skip(j)),
    decreases items.len() as int,
{
    if j == items.len() as int {
        assert(items.take(j) =~= items);
        assert(items.skip(j).len() as int == 0);
        assert(header_lines(items.skip(j)) =~= Seq::<u8>::empty());
        assert(header_lines(items) + Seq::<u8>::empty() =~= header_lines(items));
    } else {
        let init = items.drop_last();
        lemma_header_lines_split(init, j);
        assert(init.take(j) =~= items.take(j));
        assert(items.skip(j).drop_last() =~= init.skip(j));
        assert(items.skip(j).last() == items.last());
        assert(header_lines(items) =~= header_lines(items.take(j)) + header_lines(items.skip(j)));
    }
}

/// Each custom header pair is written verbatim on a line of its own, in order: the line of the
/// pair at `i` starts where the lines of the pairs before it end, and holds the name, `: `,
/// the bytes of the value unchanged, and a line break.
pub proof fn law_header_values_written_verbatim(items: Seq<(Seq<u8>, Seq<u8>)>, i: int)
    requires
        0 <= i < items.len() as int,
    ensures
        ({
            let all = header_lines(items);
            let k = header_lines(items.take(i)).len() as int;
            let n = items[i].0;
            let v = items[i].1;
            let sep = encode_utf8(": "@);
            &&& all.len() as int >= k + n.len() as int + sep.len() as int + v.len() as int + 2
            &&& all.subrange(k, k + n.len() as int) == n
            &&& all.subrange(k + n.len() as int, k + n.len() as int + sep.len() as int) == sep
            &&& all.subrange(k + n.len() as int + sep.len() as int, k + n.len() as int + sep.len() as int + v.len() as int) == v
            &&& all.subrange(
                k + n.len() as int + sep.len() as int + v.len() as int,
                k + n.len() as int + sep.len() as int + v.len() as int + 2,
            ) == seq![13u8, 10u8]
        }),
{
    lemma_literal_bytes();
    lemma_header_lines_split(items, i + 1);
    let t = items.take(i + 1);
    assert(t.drop_last() =~= items.take(i));
    assert(t.last() == items[i]);
    let all = header_lines(items);
    let before = header_lines(items.take(i));
    let n = items[i].0;
    let v = items[i].1;
    let sep = encode_utf8(": "@);
    let after = header_lines(items.skip(i + 1));
    assert(all =~= before + n + sep + v + crlf() + after);
    let k = before.len() as int;
    assert(all.subrange(k, k + n.len() as int) =~= n);
    assert(all.subrange(k + n.len() as int, k + n.len() as int + sep.len() as int) =~= sep);
    assert(all.subrange(k + n.len() as int + sep.len() as int, k + n.len() as int + sep.len() as int + v.len() as int) =~= v);
    assert(all.subrange(k + n.len() as int + sep.len() as int + v.len() as int, k + n.len() as int + sep.len() as int + v.len() as int + 2)
        =~= crlf());
}

} // verus!
