//! A part of a `multipart/form-data` message, and how it is written out.

use vstd::prelude::*;
use vstd::utf8::encode_utf8;
use bytes::{Bytes, BytesMut};
use http::header::{HeaderMap, HeaderName};
use crate::buffer::{
    bytes_as_slice,
    bytes_contents,
    bytes_copy_from_slice,
    bytes_mut_contents,
    bytes_mut_extend_from_slice,
    bytes_new,
};
use crate::encoding::{
    content_type_line,
    crlf,
    delimiter_line,
    disposition_line,
    filename_field,
    header_line,
    header_lines,
    lemma_header_lines_take,
    part_bytes,
    part_head,
    PartView,
};
use crate::error::Error;
use crate::header::{
    header_map_insert,
    header_map_items,
    header_map_len,
    header_map_new,
    header_map_pairs,
    header_name_from_lowercase,
    header_name_bytes,
    header_value_from_bytes,
    insert_header,
    is_lowercase_header_name,
    is_header_value_text,
    HEADER_INSERT_LIMIT,
};

verus! {

/// `mime::TEXT_PLAIN_UTF_8` as text (its `as_ref`).
#[verifier::external_body]
fn mime_text_plain_utf_8() -> (s: String)
    ensures
        s@ == "text/plain; charset=utf-8"@,
{
    mime::TEXT_PLAIN_UTF_8.as_ref().to_string()
}

/// `mime::APPLICATION_OCTET_STREAM` as text (its `as_ref`).
#[verifier::external_body]
fn mime_application_octet_stream() -> (s: String)
    ensures
        s@ == "application/octet-stream"@,
{
    mime::APPLICATION_OCTET_STREAM.as_ref().to_string()
}

/// A part of which a multipart request is composed.
pub struct Part {
    /// Field name.
    name: String,
    /// Optional file name.
    filename: Option<String>,
    /// Media type, as text.
    mime: Option<String>,
    /// The content of this part.
    content: Bytes,
    /// Additional headers.
    headers: HeaderMap,
}

/// Whether `s` can be the text of a parsed media type: `mime` accepts tokens, spaces and
/// quoted characters above 31 other than 127, so no control character occurs.
pub open spec fn is_media_type_text(s: Seq<char>) -> bool {
    forall|i: int| 0 <= i < s.len() ==> (#[trigger] s[i] as u32) >= 32 && s[i] as u32 != 127
}

pub open spec fn option_view(o: Option<String>) -> Option<Seq<char>> {
    match o {
        Some(s) => Some(s@),
        None => None,
    }
}

impl View for Part {
    type V = PartView;

    closed spec fn view(&self) -> PartView {
        PartView {
            name: self.name@,
            filename: option_view(self.filename),
            mime: option_view(self.mime),
            content: bytes_contents(self.content),
            headers: header_map_items(self.headers),
        }
    }
}

fn write_delimiter_line(boundary: &str, buffer: &mut BytesMut)
    requires
        bytes_mut_contents(*old(buffer)).len() + delimiter_line(encode_utf8(boundary@)).len()
            <= isize::MAX,
    ensures
        bytes_mut_contents(*final(buffer)) == bytes_mut_contents(*old(buffer)) + delimiter_line(
            encode_utf8(boundary@),
        ),
{
    let ghost start = bytes_mut_contents(*buffer);
    bytes_mut_extend_from_slice(buffer, "--".as_bytes());
    bytes_mut_extend_from_slice(buffer, boundary.as_bytes());
    bytes_mut_extend_from_slice(buffer, "\r\n".as_bytes());
    assert(bytes_mut_contents(*buffer) =~= start + delimiter_line(encode_utf8(boundary@)));
}

impl Part {
    /// Create a new empty part with the given name.
    pub fn empty(name: &str) -> (p: Self)
        ensures
            p@ == (PartView {
                name: name@,
                filename: None,
                mime: None,
                content: Seq::empty(),
                headers: Seq::empty(),
            }),
    {
        Part {
            name: name.to_owned(),
            filename: None,
            mime: None,
            content: bytes_new(),
            headers: header_map_new(),
        }
    }

    /// Create a new part with text content (`text/plain; charset=utf-8`).
    pub fn text(name: &str, value: &str) -> (p: Self)
        ensures
            p@ == (PartView {
                name: name@,
                filename: None,
                mime: Some("text/plain; charset=utf-8"@),
                content: encode_utf8(value@),
                headers: Seq::empty(),
            }),
    {
        Part {
            name: name.to_owned(),
            filename: None,
            mime: Some(mime_text_plain_utf_8()),
            content: bytes_copy_from_slice(value.as_bytes()),
            headers: header_map_new(),
        }
    }

    /// Create a new part with binary content (`application/octet-stream`).
    pub fn bytes(name: &str, value: &[u8]) -> (p: Self)
        ensures
            p@ == (PartView {
                name: name@,
                filename: None,
                mime: Some("application/octet-stream"@),
                content: value@,
                headers: Seq::empty(),
            }),
    {
        Part {
            name: name.to_owned(),
            filename: None,
            mime: Some(mime_application_octet_stream()),
            content: bytes_copy_from_slice(value),
            headers: header_map_new(),
        }
    }

    /// Set the media type of this part, given as the text of a media type (as `Mime::as_ref`
    /// gives it), which holds no control character.
    pub fn with_mime(self, mime: &str) -> (p: Self)
        requires
            is_media_type_text(mime@),
        ensures
            p@ == (PartView { mime: Some(mime@), ..self@ }),
    {
        Part { mime: Some(mime.to_owned()), ..self }
    }

    /// Set the file name of this part.
    pub fn with_filename(self, filename: &str) -> (p: Self)
        ensures
            p@ == (PartView { filename: Some(filename@), ..self@ }),
    {
        Part { filename: Some(filename.to_owned()), ..self }
    }

    /// Set the custom headers of this part.
    pub fn with_headers(self, headers: HeaderMap) -> (p: Self)
        ensures
            p@ == (PartView { headers: header_map_items(headers), ..self@ }),
    {
        Part { headers, ..self }
    }

    /// The number of custom header pairs, which `add_header` needs to stay below
    /// `HEADER_INSERT_LIMIT`.
    pub fn header_count(&self) -> (n: usize)
        ensures
            n == self@.headers.len(),
    {
        header_map_len(&self.headers)
    }

    /// Add an additional custom header. A value with a byte that header values may not hold
    /// is refused.
    pub fn add_header(self, name: HeaderName, value: &[u8]) -> (r: Result<Self, Error>)
        requires
            self@.headers.len() < HEADER_INSERT_LIMIT,
        ensures
            r is Ok <==> is_header_value_text(value@),
            r matches Ok(p) ==> p@ == (PartView {
                headers: insert_header(self@.headers, header_name_bytes(name), value@),
                ..self@
            }),
    {
        match header_value_from_bytes(value) {
            Ok(v) => {
                let mut this = self;
                header_map_insert(&mut this.headers, name, v);
                Ok(this)
            },
            Err(e) => Err(Error::InvalidHeaderValue(e)),
        }
    }

    /// Add an additional custom header whose name is given as text, as `add_header` with a
    /// `&'static str` name: the name must be a valid lower-case header name (where it is not,
    /// `HeaderName::from_static` panics).
    pub fn add_header_str(self, name: &str, value: &[u8]) -> (r: Result<Self, Error>)
        requires
            is_lowercase_header_name(encode_utf8(name@)),
            self@.headers.len() < HEADER_INSERT_LIMIT,
        ensures
            r is Ok <==> is_header_value_text(value@),
            r matches Ok(p) ==> p@ == (PartView {
                headers: insert_header(self@.headers, encode_utf8(name@), value@),
                ..self@
            }),
    {
        match header_name_from_lowercase(name.as_bytes()) {
            Ok(n) => self.add_header(n, value),
            Err(_) => {
                assert(false);
                Ok(self)
            },
        }
    }

    /// Write in the buffer the head of this part: the delimiter line, the
    /// `Content-Disposition` line, the `Content-Type` line, the custom headers and a blank line.
    fn headers_into_bytes(&self, boundary: &str, buffer: &mut BytesMut)
        requires
            bytes_mut_contents(*old(buffer)).len() + part_head(encode_utf8(boundary@), self@).len()
                <= isize::MAX,
        ensures
            bytes_mut_contents(*final(buffer)) == bytes_mut_contents(*old(buffer)) + part_head(
                encode_utf8(boundary@),
                self@,
            ),
    {
        let ghost start = bytes_mut_contents(*buffer);
        let ghost b = encode_utf8(boundary@);
        let ghost v = self@;
        write_delimiter_line(boundary, buffer);
        let ghost s1 = bytes_mut_contents(*buffer);
        self.write_disposition_line(buffer);
        let ghost s2 = bytes_mut_contents(*buffer);
        self.write_content_type_line(buffer);
        let ghost s3 = bytes_mut_contents(*buffer);
        self.write_header_lines(buffer);
        let ghost s4 = bytes_mut_contents(*buffer);
        bytes_mut_extend_from_slice(buffer, "\r\n".as_bytes());
        assert(s1 == start + delimiter_line(b));
        assert(s2 == s1 + disposition_line(v.name, v.filename));
        assert(s3 == s2 + content_type_line(v.mime));
        assert(s4 == s3 + header_lines(v.headers));
        assert(bytes_mut_contents(*buffer) == s4 + crlf());
        assert(bytes_mut_contents(*buffer) =~= start + part_head(b, v));
    }

    fn write_disposition_line(&self, buffer: &mut BytesMut)
        requires
            bytes_mut_contents(*old(buffer)).len() + disposition_line(self@.name, self@.filename).len()
                <= isize::MAX,
        ensures
            bytes_mut_contents(*final(buffer)) == bytes_mut_contents(*old(buffer)) + disposition_line(
                self@.name,
                self@.filename,
            ),
    {
        let ghost start = bytes_mut_contents(*buffer);
        let ghost v = self@;
        bytes_mut_extend_from_slice(buffer, "Content-Disposition: form-data; ".as_bytes());
        bytes_mut_extend_from_slice(buffer, "name=\"".as_bytes());
        bytes_mut_extend_from_slice(buffer, self.name.as_str().as_bytes());
        bytes_mut_extend_from_slice(buffer, "\"".as_bytes());
        let ghost mid = bytes_mut_contents(*buffer);
        match &self.filename {
            Some(filename) => {
                bytes_mut_extend_from_slice(buffer, "; filename=\"".as_bytes());
                bytes_mut_extend_from_slice(buffer, filename.as_str().as_bytes());
                bytes_mut_extend_from_slice(buffer, "\"".as_bytes());
            },
            None => {},
        }
        assert(bytes_mut_contents(*buffer) =~= mid + filename_field(v.filename));
        bytes_mut_extend_from_slice(buffer, "\r\n".as_bytes());
        assert(bytes_mut_contents(*buffer) =~= start + disposition_line(v.name, v.filename));
    }

    fn write_content_type_line(&self, buffer: &mut BytesMut)
        requires
            bytes_mut_contents(*old(buffer)).len() + content_type_line(self@.mime).len()
                <= isize::MAX,
        ensures
            bytes_mut_contents(*final(buffer)) == bytes_mut_contents(*old(buffer))
                + content_type_line(self@.mime),
    {
        let ghost start = bytes_mut_contents(*buffer);
        match &self.mime {
            Some(mime) => {
                bytes_mut_extend_from_slice(buffer, "Content-Type: ".as_bytes());
                bytes_mut_extend_from_slice(buffer, mime.as_str().as_bytes());
                bytes_mut_extend_from_slice(buffer, "\r\n".as_bytes());
            },
            None => {},
        }
        assert(bytes_mut_contents(*buffer) =~= start + content_type_line(self@.mime));
    }

    fn write_header_lines(&self, buffer: &mut BytesMut)
        requires
            bytes_mut_contents(*old(buffer)).len() + header_lines(self@.headers).len()
                <= isize::MAX,
        ensures
            bytes_mut_contents(*final(buffer)) == bytes_mut_contents(*old(buffer)) + header_lines(
                self@.headers,
            ),
    {
        let ghost start = bytes_mut_contents(*buffer);
        let ghost items = self@.headers;
        let pairs = header_map_pairs(&self.headers);
        let n = pairs.len();
        let mut i: usize = 0;
        assert(items.take(0) =~= Seq::<(Seq<u8>, Seq<u8>)>::empty());
        while i < n
            invariant
                0 <= i <= n,
                n == pairs@.len(),
                n == items.len(),
                forall|j: int|
                    0 <= j < n ==> (#[trigger] pairs@[j]).0@ == items[j].0 && pairs@[j].1@
                        == items[j].1,
                start.len() + header_lines(items).len() <= isize::MAX,
                bytes_mut_contents(*buffer) == start + header_lines(items.take(i as int)),
            decreases n - i,
        {
            proof {
                lemma_header_lines_take(items, i + 1);
                assert(items.take(i + 1).drop_last() =~= items.take(i as int));
                assert(items.take(i + 1).last() == items[i as int]);
            }
            let ghost before = bytes_mut_contents(*buffer);
            let pair = &pairs[i];
            bytes_mut_extend_from_slice(buffer, pair.0.as_slice());
            bytes_mut_extend_from_slice(buffer, ": ".as_bytes());
            bytes_mut_extend_from_slice(buffer, pair.1.as_slice());
            bytes_mut_extend_from_slice(buffer, "\r\n".as_bytes());
            assert(bytes_mut_contents(*buffer) =~= before + header_line(items[i as int]));
            i = i + 1;
        }
        assert(items.take(n as int) =~= items);
    }

    /// The number of bytes of the custom header lines, or `None` where it passes `usize::MAX`.
    fn header_lines_len(&self) -> (r: Option<usize>)
        ensures
            r matches Some(n) ==> n == header_lines(self@.headers).len(),
            r is None ==> header_lines(self@.headers).len() > usize::MAX,
    {
        let ghost items = self@.headers;
        let pairs = header_map_pairs(&self.headers);
        let n = pairs.len();
        let sep = ": ".as_bytes().len();
        let nl = "\r\n".as_bytes().len();
        let mut total: usize = 0;
        let mut i: usize = 0;
        assert(items.take(0) =~= Seq::<(Seq<u8>, Seq<u8>)>::empty());
        while i < n
            invariant
                0 <= i <= n,
                n == pairs@.len(),
                n == items.len(),
                items == self@.headers,
                sep == encode_utf8(": "@).len(),
                nl == crlf().len(),
                forall|j: int|
                    0 <= j < n ==> (#[trigger] pairs@[j]).0@ == items[j].0 && pairs@[j].1@
                        == items[j].1,
                total == header_lines(items.take(i as int)).len(),
            decreases n - i,
        {
            proof {
                lemma_header_lines_take(items, i + 1);
                assert(items.take(i + 1).drop_last() =~= items.take(i as int));
                assert(items.take(i + 1).last() == items[i as int]);
                assert(header_lines(items.take(i + 1)) == header_lines(items.take(i as int))
                    + header_line(items[i as int]));
                assert(header_lines(items.take(i + 1)).len() <= header_lines(items).len());
            }
            let pair = &pairs[i];
            assert(header_line(items[i as int]).len() == pair.0@.len() + sep + pair.1@.len() + nl);
            let next = total as u128 + pair.0.len() as u128 + sep as u128 + pair.1.len() as u128
                + nl as u128;
            if next > usize::MAX as u128 {
                return None;
            }
            total = next as usize;
            i = i + 1;
        }
        assert(items.take(n as int) =~= items);
        Some(total)
    }

    /// The number of bytes that `write_into` writes for this part with boundary `boundary`, or
    /// `None` where it passes `usize::MAX`.
    pub(crate) fn encoded_len(&self, boundary: &str) -> (r: Option<usize>)
        ensures
            r matches Some(n) ==> n == part_bytes(encode_utf8(boundary@), self@).len(),
            r is None ==> part_bytes(encode_utf8(boundary@), self@).len() > usize::MAX,
    {
        let ghost v = self@;
        let nl = "\r\n".as_bytes().len() as u128;
        let delimiter = "--".as_bytes().len() as u128 + boundary.as_bytes().len() as u128 + nl;
        let filename: u128 = match &self.filename {
            Some(f) => "; filename=\"".as_bytes().len() as u128 + f.as_str().as_bytes().len() as u128 + "\"".as_bytes().len() as u128,
            None => 0,
        };
        let disposition = "Content-Disposition: form-data; ".as_bytes().len() as u128 + "name=\"".as_bytes().len() as u128
            + self.name.as_str().as_bytes().len() as u128 + "\"".as_bytes().len() as u128 + filename + nl;
        let media: u128 = match &self.mime {
            Some(m) => "Content-Type: ".as_bytes().len() as u128 + m.as_str().as_bytes().len() as u128 + nl,
            None => 0,
        };
        let headers = match self.header_lines_len() {
            Some(h) => h as u128,
            None => {
                return None;
            },
        };
        let content = bytes_as_slice(&self.content).len() as u128;
        let total = delimiter + disposition + media + headers + nl + content + nl;
        assert(delimiter == delimiter_line(encode_utf8(boundary@)).len());
        assert(filename == filename_field(v.filename).len());
        assert(disposition == disposition_line(v.name, v.filename).len());
        assert(media == content_type_line(v.mime).len());
        assert(total == part_bytes(encode_utf8(boundary@), v).len());
        if total > usize::MAX as u128 {
            None
        } else {
            Some(total as usize)
        }
    }

    /// Write this part in the buffer: its head, its content and a line break.
    pub(crate) fn write_into(&self, boundary: &str, buffer: &mut BytesMut)
        requires
            bytes_mut_contents(*old(buffer)).len() + part_bytes(encode_utf8(boundary@), self@).len()
                <= isize::MAX,
        ensures
            bytes_mut_contents(*final(buffer)) == bytes_mut_contents(*old(buffer)) + part_bytes(
                encode_utf8(boundary@),
                self@,
            ),
    {
        let ghost start = bytes_mut_contents(*buffer);
        self.headers_into_bytes(boundary, buffer);
        bytes_mut_extend_from_slice(buffer, bytes_as_slice(&self.content));
        bytes_mut_extend_from_slice(buffer, "\r\n".as_bytes());
    }
}

} // verus!
