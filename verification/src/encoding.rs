//! The `multipart/form-data` wire format, as spec functions over bytes.

use vstd::prelude::*;
use vstd::utf8::encode_utf8;

verus! {

/// What the library knows of a part: its field name, optional file name and media type,
/// content, and extra header pairs in the order in which they are written.
pub struct PartView {
    pub name: Seq<char>,
    pub filename: Option<Seq<char>>,
    pub mime: Option<Seq<char>>,
    pub content: Seq<u8>,
    pub headers: Seq<(Seq<u8>, Seq<u8>)>,
}

/// What the library knows of a message: its boundary and its parts, in order.
pub struct MultipartView {
    pub boundary: Seq<char>,
    pub parts: Seq<PartView>,
}

pub open spec fn crlf() -> Seq<u8> {
    encode_utf8("\r\n"@)
}

/// `--boundary\r\n`, the line that opens each part.
pub open spec fn delimiter_line(boundary: Seq<u8>) -> Seq<u8> {
    encode_utf8("--"@) + boundary + crlf()
}

/// `--boundary--\r\n`, the line that closes the body.
pub open spec fn close_delimiter(boundary: Seq<u8>) -> Seq<u8> {
    encode_utf8("--"@) + boundary + encode_utf8("--\r\n"@)
}

/// `; filename="..."` where the part has a file name.
pub open spec fn filename_field(filename: Option<Seq<char>>) -> Seq<u8> {
    match filename {
        Some(f) => encode_utf8("; filename=\""@) + encode_utf8(f) + encode_utf8("\""@),
        None => Seq::empty(),
    }
}

/// `Content-Disposition: form-data; name="..."[; filename="..."]\r\n`
pub open spec fn disposition_line(name: Seq<char>, filename: Option<Seq<char>>) -> Seq<u8> {
    encode_utf8("Content-Disposition: form-data; "@) + encode_utf8("name=\""@) + encode_utf8(
        name,
    ) + encode_utf8("\""@) + filename_field(filename) + crlf()
}

/// `Content-Type: ...\r\n` where the part has a media type.
pub open spec fn content_type_line(mime: Option<Seq<char>>) -> Seq<u8> {
    match mime {
        Some(m) => encode_utf8("Content-Type: "@) + encode_utf8(m) + crlf(),
        None => Seq::empty(),
    }
}

/// `name: value\r\n`
pub open spec fn header_line(item: (Seq<u8>, Seq<u8>)) -> Seq<u8> {
    item.0 + encode_utf8(": "@) + item.1 + crlf()
}

/// One line per header pair, in order.
pub open spec fn header_lines(items: Seq<(Seq<u8>, Seq<u8>)>) -> Seq<u8>
    decreases items.len(),
{
    if items.len() == 0 {
        Seq::empty()
    } else {
        header_lines(items.drop_last()) + header_line(items.last())
    }
}

/// Everything of a part up to its content: the delimiter line, its header lines and the
/// blank line after them.
pub open spec fn part_head(boundary: Seq<u8>, p: PartView) -> Seq<u8> {
    delimiter_line(boundary) + disposition_line(p.name, p.filename) + content_type_line(p.mime)
        + header_lines(p.headers) + crlf()
}

/// A whole part: its head, its content and a line break.
pub open spec fn part_bytes(boundary: Seq<u8>, p: PartView) -> Seq<u8> {
    part_head(boundary, p) + p.content + crlf()
}

/// The parts one after the other.
pub open spec fn parts_bytes(boundary: Seq<u8>, parts: Seq<PartView>) -> Seq<u8>
    decreases parts.len(),
{
    if parts.len() == 0 {
        Seq::empty()
    } else {
        parts_bytes(boundary, parts.drop_last()) + part_bytes(boundary, parts.last())
    }
}

/// The body of a message: its parts, then the closing delimiter.
pub open spec fn message_bytes(m: MultipartView) -> Seq<u8> {
    let b = encode_utf8(m.boundary);
    parts_bytes(b, m.parts) + close_delimiter(b)
}

/// The text of the `content-type` header of a message with boundary `boundary`.
pub open spec fn content_type_text(boundary: Seq<char>) -> Seq<char> {
    "multipart/form-data; boundary="@ + boundary
}

/// A prefix of the pairs writes a prefix of the lines.
pub proof fn lemma_header_lines_take(items: Seq<(Seq<u8>, Seq<u8>)>, i: int)
    requires
        0 <= i <= items.len(),
    ensures
        header_lines(items.take(i)).len() <= header_lines(items).len(),
    decreases items.len(),
{
    if i < items.len() {
        assert(items.drop_last().take(i) =~= items.take(i));
        lemma_header_lines_take(items.drop_last(), i);
    } else {
        assert(items.take(i) =~= items);
    }
}

/// A prefix of the parts writes a prefix of the body.
pub proof fn lemma_parts_bytes_take(boundary: Seq<u8>, parts: Seq<PartView>, i: int)
    requires
        0 <= i <= parts.len(),
    ensures
        parts_bytes(boundary, parts.take(i)).len() <= parts_bytes(boundary, parts).len(),
    decreases parts.len(),
{
    if i < parts.len() {
        assert(parts.drop_last().take(i) =~= parts.take(i));
        lemma_parts_bytes_take(boundary, parts.drop_last(), i);
    } else {
        assert(parts.take(i) =~= parts);
    }
}

} // verus!
