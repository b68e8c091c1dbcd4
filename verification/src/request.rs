//! Reading a request from a connection, and the form data it carries.

use vstd::prelude::*;
use vstd::utf8::valid_utf8;
use crate::bytes::{append_bytes, copy_range, find_from, find_seq_from, lemma_find_seq_bounds};
use crate::head::{analyze_head, analyze_head_spec, blank_line, HeadInfo, HeadModel, RequestError, empty_head};
use crate::inspect::{inspect_content, inspect_spec, ContentKind};
use crate::utf8::{is_utf8, lemma_prefix_end_bounds, utf8_prefix_len, valid_up_to};

verus! {

/// What the connection loop does after a read.
#[derive(Debug, Clone, Copy, PartialEq, Eq, Structural)]
pub enum ReadStep {
    /// Read again.
    Continue,
    /// The request is complete: stop reading.
    Done,
}

/// The request read so far and, once the first block is in, its head.
pub struct ReaderModel {
    pub data: Seq<u8>,
    pub head: Option<HeadModel>,
}

/// Accumulates the blocks read from a connection.
pub struct RequestReader {
    data: Vec<u8>,
    head: Option<HeadInfo>,
}

/// The number of body bytes the head announces (0 when it announces none).
pub open spec fn announced_length(head: HeadModel) -> nat {
    match head.content_length {
        Some(n) => n,
        None => 0,
    }
}

/// Reading stops once exactly the head and the announced body are in, or
/// when nothing at all was received.
pub open spec fn read_complete(len: nat, head: HeadModel) -> bool {
    len == 0 || len == announced_length(head) + head.header_len
}

impl View for RequestReader {
    type V = ReaderModel;

    closed spec fn view(&self) -> ReaderModel {
        ReaderModel {
            data: self.data@,
            head: match self.head {
                Some(h) => Some(h@),
                None => None,
            },
        }
    }
}

impl RequestReader {
    /// A reader that has received nothing.
    pub fn new() -> (r: RequestReader)
        ensures
            r@.data == Seq::<u8>::empty(),
            r@.head is None,
    {
        RequestReader { data: Vec::new(), head: None }
    }

    /// Takes in a successful read of `size` bytes into `block`. The first
    /// read also analyses the whole `block` as the request head.
    pub fn on_read(&mut self, block: &[u8], size: usize) -> (r: Result<ReadStep, RequestError>)
        requires
            size <= block@.len(),
        ensures
            final(self)@.data == old(self)@.data + block@.subrange(0, size as int),
            old(self)@.head is Some ==> final(self)@.head == old(self)@.head,
            old(self)@.head is None ==> match analyze_head_spec(block@) {
                Err(e) => r == Err::<ReadStep, RequestError>(e),
                Ok(h) => final(self)@.head == Some(h),
            },
            r is Err <==> (old(self)@.head is None && analyze_head_spec(block@) is Err),
            r is Ok ==> final(self)@.head is Some,
            r matches Ok(step) ==> (step == ReadStep::Done <==> read_complete(
                final(self)@.data.len(),
                final(self)@.head->0,
            )),
    {
        let chunk = vstd::slice::slice_subrange(block, 0, size);
        append_bytes(&mut self.data, chunk);
        if self.head.is_none() {
            match analyze_head(block) {
                Err(e) => {
                    return Err(e);
                },
                Ok(h) => {
                    self.head = Some(h);
                },
            }
        }
        let len = self.data.len();
        let (header_len, length) = match &self.head {
            Some(h) => (
                h.header_len,
                match h.content_length {
                    Some(n) => n,
                    None => 0,
                },
            ),
            None => (0, 0),
        };
        if len == 0 {
            return Ok(ReadStep::Done);
        }
        if length <= len && len - length == header_len {
            Ok(ReadStep::Done)
        } else {
            Ok(ReadStep::Continue)
        }
    }

    /// The request received and its head (the empty head when no read
    /// succeeded).
    pub fn finish(self) -> (r: (Vec<u8>, HeadInfo))
        ensures
            r.0@ == self@.data,
            r.1@ == match self@.head {
                Some(h) => h,
                None => empty_head(),
            },
    {
        let head = match self.head {
            Some(h) => h,
            None => HeadInfo::empty(),
        };
        (self.data, head)
    }
}

/// The form data of a request: when the head announced both a boundary and
/// a length, the bytes after `header_len + 1`, cut down to the payload of the
/// single part (binary data: from the end of its leading UTF-8 text; text
/// data: from after the part's blank line), without the closing boundary
/// line (`boundary.len() + 8` bytes). Otherwise there is no form data.
pub open spec fn form_data_spec(request: Seq<u8>, head: HeadModel) -> Result<Seq<u8>, RequestError> {
    match (head.boundary, head.content_length) {
        (Some(b), Some(_)) => {
            let tail = b.len() + 8;
            if head.header_len + 1 > request.len() {
                Err(RequestError::BodyOutOfRange)
            } else {
                let data = request.subrange(head.header_len + 1 as int, request.len() as int);
                if inspect_spec(data) is Binary {
                    if valid_utf8(data) {
                        Err(RequestError::BinaryBodyIsUtf8)
                    } else if data.len() < tail {
                        Err(RequestError::BodyTooShort)
                    } else if utf8_prefix_len(data) > data.len() - tail {
                        Err(RequestError::BodyOutOfRange)
                    } else {
                        let payload = data.subrange(utf8_prefix_len(data), data.len() - tail);
                        if valid_utf8(payload) {
                            Ok(payload)
                        } else {
                            Err(RequestError::BinaryBodyNotText)
                        }
                    }
                } else if !valid_utf8(data) {
                    Err(RequestError::FormDataNotUtf8)
                } else {
                    match find_seq_from(data, blank_line(), 0) {
                        None => Err(RequestError::NoPartHeaderEnd),
                        Some(i) => {
                            let rest = data.subrange(i + 4, data.len() as int);
                            if rest.len() < tail {
                                Err(RequestError::BodyTooShort)
                            } else {
                                Ok(rest.subrange(0, rest.len() - tail))
                            }
                        },
                    }
                }
            }
        },
        _ => Ok(Seq::<u8>::empty()),
    }
}

/// The form data is the run of request bytes that ends right before the
/// closing boundary line (the last `boundary.len() + 8` bytes).
pub proof fn law_form_data_precedes_closing_line(request: Seq<u8>, head: HeadModel)
    ensures
        form_data_spec(request, head) matches Ok(p) ==> (p.len() == 0 || ({
            let tail = head.boundary->0.len() + 8;
            &&& head.boundary is Some
            &&& p.len() + tail <= request.len()
            &&& request.subrange(request.len() - tail - p.len(), request.len() - tail) == p
        })),
{
    if let (Some(b), Some(_)) = (head.boundary, head.content_length) {
        let tail = b.len() + 8;
        if head.header_len + 1 <= request.len() {
            let start = head.header_len + 1;
            let data = request.subrange(start as int, request.len() as int);
            if form_data_spec(request, head) is Ok {
                if inspect_spec(data) is Binary {
                    let v = utf8_prefix_len(data);
                    lemma_prefix_end_bounds(data, 0);
                    assert(request.subrange(start + v, request.len() - tail) =~= data.subrange(
                        v,
                        data.len() - tail,
                    ));
                } else {
                    let i = find_seq_from(data, blank_line(), 0)->0;
                    lemma_find_seq_bounds(data, blank_line(), 0);
                    let rest = data.subrange(i + 4, data.len() as int);
                    assert(request.subrange(start + i + 4, request.len() - tail) =~= rest.subrange(
                        0,
                        rest.len() - tail,
                    ));
                }
            }
        }
    }
}

/// A byte-string outcome taken by its view.
pub open spec fn bytes_result_view(r: Result<Vec<u8>, RequestError>) -> Result<Seq<u8>, RequestError> {
    match r {
        Ok(v) => Ok(v@),
        Err(e) => Err(e),
    }
}

/// Cuts the form data out of a received request.
pub fn extract_form_data(request: &[u8], head: &HeadInfo) -> (r: Result<Vec<u8>, RequestError>)
    ensures
        bytes_result_view(r) == form_data_spec(request@, head@),
{
    let b_len = match &head.boundary {
        Some(b) => b.len(),
        None => {
            return Ok(Vec::new());
        },
    };
    if head.content_length.is_none() {
        return Ok(Vec::new());
    }
    if b_len > usize::MAX - 8 {
        // The closing line is longer than any request: it cannot fit.
        if head.header_len >= request.len() {
            return Err(RequestError::BodyOutOfRange);
        }
        let data = vstd::slice::slice_subrange(request, head.header_len + 1, request.len());
        let kind = inspect_content(data);
        if kind.is_binary() {
            if is_utf8(data) {
                return Err(RequestError::BinaryBodyIsUtf8);
            }
            return Err(RequestError::BodyTooShort);
        }
        if !is_utf8(data) {
            return Err(RequestError::FormDataNotUtf8);
        }
        let blank: [u8; 4] = [0x0du8, 0x0au8, 0x0du8, 0x0au8];
        assert(blank@ =~= blank_line());
        match find_from(data, &blank, 0) {
            None => {
                return Err(RequestError::NoPartHeaderEnd);
            },
            Some(i) => {
                proof {
                    lemma_find_seq_bounds(data@, blank_line(), 0);
                }
                return Err(RequestError::BodyTooShort);
            },
        }
    }
    let tail = b_len + 8;
    if head.header_len >= request.len() {
        return Err(RequestError::BodyOutOfRange);
    }
    let data = vstd::slice::slice_subrange(request, head.header_len + 1, request.len());
    let kind = inspect_content(data);
    if kind.is_binary() {
        let v = valid_up_to(data);
        if v == data.len() {
            return Err(RequestError::BinaryBodyIsUtf8);
        }
        if data.len() < tail {
            return Err(RequestError::BodyTooShort);
        }
        let end = data.len() - tail;
        if v > end {
            return Err(RequestError::BodyOutOfRange);
        }
        let payload = copy_range(data, v, end);
        if is_utf8(payload.as_slice()) {
            Ok(payload)
        } else {
            Err(RequestError::BinaryBodyNotText)
        }
    } else {
        if !is_utf8(data) {
            return Err(RequestError::FormDataNotUtf8);
        }
        let blank: [u8; 4] = [0x0du8, 0x0au8, 0x0du8, 0x0au8];
        assert(blank@ =~= blank_line());
        match find_from(data, &blank, 0) {
            None => Err(RequestError::NoPartHeaderEnd),
            Some(i) => {
                proof {
                    lemma_find_seq_bounds(data@, blank_line(), 0);
                }
                let start = i + 4;
                let rest_len = data.len() - start;
                if rest_len < tail {
                    return Err(RequestError::BodyTooShort);
                }
                let r = copy_range(data, start, start + (rest_len - tail));
                assert(r@ =~= data@.subrange(start as int, data@.len() as int).subrange(
                    0,
                    rest_len - tail,
                ));
                Ok(r)
            },
        }
    }
}

} // verus!
