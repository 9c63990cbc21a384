//! A `multipart/form-data` message: a boundary and its parts.

use vstd::prelude::*;
use vstd::string::StringExecFns;
use vstd::utf8::encode_utf8;
use bytes::Bytes;
use http::header::HeaderValue;
use crate::boundary::{boundary_text, generate_random_boundary, xorshift4, BoundaryGenerator};
use crate::buffer::{bytes_contents, bytes_mut_contents, bytes_mut_extend_from_slice, bytes_mut_freeze, bytes_mut_new};
use crate::encoding::{
    close_delimiter,
    content_type_text,
    lemma_parts_bytes_take,
    message_bytes,
    parts_bytes,
    MultipartView,
    PartView,
};
use crate::error::Error;
use crate::header::{header_value_bytes, header_value_from_str, is_header_value_text};
use crate::part::Part;

verus! {

/// A `multipart/form-data` request.
pub struct Multipart {
    /// Boundary delimiter of each part.
    boundary: String,
    /// Parts contained in this message.
    parts: Vec<Part>,
}

pub open spec fn parts_view(parts: Seq<Part>) -> Seq<PartView> {
    parts.map_values(|p: Part| p@)
}

impl View for Multipart {
    type V = MultipartView;

    closed spec fn view(&self) -> MultipartView {
        MultipartView { boundary: self.boundary@, parts: parts_view(self.parts@) }
    }
}

impl Multipart {
    /// Create a new empty message, with the next boundary of `generator`.
    pub fn empty(generator: &mut BoundaryGenerator) -> (m: Self)
        ensures
            m@.parts == Seq::<PartView>::empty(),
            m@.boundary == boundary_text(old(generator)@),
            final(generator)@ == xorshift4(old(generator)@),
            old(generator)@ != 0,
            final(generator)@ != 0,
            m@.boundary != boundary_text(final(generator)@),
    {
        let m = Multipart { boundary: generate_random_boundary(generator), parts: Vec::new() };
        assert(parts_view(m.parts@) =~= Seq::<PartView>::empty());
        m
    }

    /// Create a new message, with the next boundary of `generator`, collecting the given parts
    /// in order.
    pub fn from_parts(parts: Vec<Part>, generator: &mut BoundaryGenerator) -> (m: Self)
        ensures
            m@.parts == parts_view(parts@),
            m@.boundary == boundary_text(old(generator)@),
            final(generator)@ == xorshift4(old(generator)@),
            old(generator)@ != 0,
            final(generator)@ != 0,
            m@.boundary != boundary_text(final(generator)@),
    {
        let ghost given = parts@;
        let mut this = Self::empty(generator);
        assert(this.parts@.len() == 0) by {
            assert(parts_view(this.parts@).len() == this.parts@.len());
        }
        let mut parts = parts;
        this.parts.append(&mut parts);
        assert(this.parts@ =~= given);
        assert(parts_view(this.parts@) =~= parts_view(given));
        this
    }

    /// Add a new part at the end of the message.
    pub fn add_part(self, part: Part) -> (m: Self)
        ensures
            m@ == (MultipartView { boundary: self@.boundary, parts: self@.parts.push(part@) }),
    {
        let mut this = self;
        this.parts.push(part);
        assert(parts_view(this.parts@) =~= parts_view(self.parts@).push(part@));
        this
    }

    /// Set the boundary used by this message.
    pub fn with_boundary(self, boundary: &str) -> (m: Self)
        ensures
            m@ == (MultipartView { boundary: boundary@, parts: self@.parts }),
    {
        Multipart { boundary: boundary.to_owned(), ..self }
    }

    /// Get the `content-type` header value: `multipart/form-data; boundary=` and the boundary.
    /// A boundary with a byte that header values may not hold gives an error.
    pub fn get_content_type_header(&self) -> (r: Result<HeaderValue, Error>)
        ensures
            r is Ok <==> is_header_value_text(encode_utf8(content_type_text(self@.boundary))),
            r matches Ok(v) ==> header_value_bytes(v) == encode_utf8(
                content_type_text(self@.boundary),
            ),
    {
        let mut text = "multipart/form-data; boundary=".to_owned();
        text.append(self.boundary.as_str());
        match header_value_from_str(text.as_str()) {
            Ok(v) => Ok(v),
            Err(e) => Err(Error::InvalidHeaderValue(e)),
        }
    }

    /// The number of bytes of the body that `into_bytes` gives, or `None` where it passes
    /// `usize::MAX`. `into_bytes` needs it to be at most `isize::MAX`.
    pub fn body_len(&self) -> (r: Option<usize>)
        ensures
            r matches Some(n) ==> n == message_bytes(self@).len(),
            r is None ==> message_bytes(self@).len() > usize::MAX,
    {
        let ghost v = self@;
        let ghost b = encode_utf8(v.boundary);
        let n = self.parts.len();
        let mut total: usize = 0;
        let mut i: usize = 0;
        assert(v.parts.take(0) =~= Seq::<PartView>::empty());
        while i < n
            invariant
                0 <= i <= n,
                n == self.parts@.len(),
                v == self@,
                b == encode_utf8(v.boundary),
                v.boundary == self.boundary@,
                v.parts.len() == n,
                total == parts_bytes(b, v.parts.take(i as int)).len(),
            decreases n - i,
        {
            proof {
                lemma_parts_bytes_take(b, v.parts, i + 1);
                assert(v.parts.take(i + 1).drop_last() =~= v.parts.take(i as int));
                assert(v.parts.take(i + 1).last() == v.parts[i as int]);
                assert(v.parts[i as int] == self.parts@[i as int]@);
            }
            let part_len = match self.parts[i].encoded_len(self.boundary.as_str()) {
                Some(l) => l,
                None => {
                    return None;
                },
            };
            let next = total as u128 + part_len as u128;
            if next > usize::MAX as u128 {
                return None;
            }
            total = next as usize;
            i = i + 1;
        }
        assert(v.parts.take(n as int) =~= v.parts);
        let close = "--".as_bytes().len() as u128 + self.boundary.as_str().as_bytes().len() as u128
            + "--\r\n".as_bytes().len() as u128;
        assert(close == close_delimiter(b).len());
        let all = total as u128 + close;
        if all > usize::MAX as u128 {
            None
        } else {
            Some(all as usize)
        }
    }

    /// Convert the message in a buffer: each part, then the closing delimiter.
    pub fn into_bytes(self) -> (r: Bytes)
        requires
            message_bytes(self@).len() <= isize::MAX,
        ensures
            bytes_contents(r) == message_bytes(self@),
    {
        let ghost v = self@;
        let ghost b = encode_utf8(v.boundary);
        let mut buffer = bytes_mut_new();
        let n = self.parts.len();
        let mut i: usize = 0;
        assert(v.parts.take(0) =~= Seq::<PartView>::empty());
        while i < n
            invariant
                0 <= i <= n,
                n == self.parts@.len(),
                v == self@,
                b == encode_utf8(v.boundary),
                v.boundary == self.boundary@,
                v.parts.len() == n,
                parts_bytes(b, v.parts).len() + close_delimiter(b).len() <= isize::MAX,
                bytes_mut_contents(buffer) == parts_bytes(b, v.parts.take(i as int)),
            decreases n - i,
        {
            proof {
                lemma_parts_bytes_take(b, v.parts, i + 1);
                assert(v.parts.take(i + 1).drop_last() =~= v.parts.take(i as int));
                assert(v.parts.take(i + 1).last() == v.parts[i as int]);
                assert(v.parts[i as int] == self.parts@[i as int]@);
            }
            self.parts[i].write_into(self.boundary.as_str(), &mut buffer);
            i = i + 1;
        }
        assert(v.parts.take(n as int) =~= v.parts);
        let ghost body = bytes_mut_contents(buffer);
        bytes_mut_extend_from_slice(&mut buffer, "--".as_bytes());
        bytes_mut_extend_from_slice(&mut buffer, self.boundary.as_str().as_bytes());
        bytes_mut_extend_from_slice(&mut buffer, "--\r\n".as_bytes());
        assert(bytes_mut_contents(buffer) =~= body + close_delimiter(b));
        bytes_mut_freeze(buffer)
    }
}

} // verus!
