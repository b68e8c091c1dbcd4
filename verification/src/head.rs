//! Analysis of the first block read from a connection: where the HTTP head
//! ends, the declared `Content-Length`, and the multipart boundary.

use vstd::prelude::*;
use vstd::string::StringSliceAdditionalSpecFns;
use vstd::utf8::*;
use crate::bytes::{
    contains, contains_seq, decimal, field_after, field_after_sep, find_byte_from, find_from,
    find_seq_from, has_prefix, is_digit, occurs_at, lemma_decimal, lemma_find_byte_absent,
    lemma_find_byte_at, lemma_find_byte_bounds, lemma_find_seq_absent, lemma_find_seq_at,
    lemma_find_seq_bounds,
    lemma_parse_decimal, parse_usize, parse_usize_spec, remove_spaces, starts_with, without_spaces,
};
use crate::utf8::{
    at_char_start, lemma_ascii_neighbors, lemma_ascii_valid, lemma_valid_between,
    lemma_without_spaces_concat,
    lemma_without_spaces_no_space, lemma_without_spaces_valid, str_from_utf8,
};

verus! {

/// Why a request cannot be served: each case is an input on which the
/// server gives up on the connection without answering.
#[derive(Debug, Clone, Copy, PartialEq, Eq, Structural)]
pub enum RequestError {
    /// The first block read is not valid UTF-8.
    HeadNotUtf8,
    /// A `multipart/form-data` line has no `=` to give the boundary.
    MissingBoundary,
    /// The boundary, used as a regular expression, does not compile or does
    /// not match the first block.
    BoundaryNotFound,
    /// A `Content-Length` line has no `:`.
    MissingContentLength,
    /// The `Content-Length` value is not a `usize` number.
    BadContentLength,
    /// The head is longer than the bytes received.
    BodyOutOfRange,
    /// The form data is shorter than the closing boundary line.
    BodyTooShort,
    /// The form data looks binary but is valid UTF-8.
    BinaryBodyIsUtf8,
    /// The binary form data does not leave a UTF-8 payload.
    BinaryBodyNotText,
    /// The text form data is not valid UTF-8.
    FormDataNotUtf8,
    /// The text form data has no blank line after its part header.
    NoPartHeaderEnd,
    /// The request is not UTF-8 although it does not look binary, or looks
    /// binary although it is UTF-8.
    RequestNotUtf8,
    /// The request line has fewer than two words.
    RequestLineIncomplete,
    /// The request target holds no `/`.
    TargetWithoutSlash,
}

/// What the head analysis finds.
pub struct HeadModel {
    /// One past the end of the first blank line (`\r\n\r\n`), or 0.
    pub header_len: nat,
    /// The value of the last `Content-Length` line, if any.
    pub content_length: Option<nat>,
    /// The boundary of the last `multipart/form-data` line, if any.
    pub boundary: Option<Seq<u8>>,
}

/// The findings of the head analysis.
pub struct HeadInfo {
    pub header_len: usize,
    pub content_length: Option<usize>,
    pub boundary: Option<Vec<u8>>,
}

impl View for HeadInfo {
    type V = HeadModel;

    open spec fn view(&self) -> HeadModel {
        HeadModel {
            header_len: self.header_len as nat,
            content_length: match self.content_length {
                Some(n) => Some(n as nat),
                None => None,
            },
            boundary: match self.boundary {
                Some(b) => Some(b@),
                None => None,
            },
        }
    }
}

impl HeadInfo {
    /// The findings before anything was read: no head, no length, no
    /// boundary.
    pub fn empty() -> (r: HeadInfo)
        ensures
            r@ == empty_head(),
    {
        HeadInfo { header_len: 0, content_length: None, boundary: None }
    }
}

/// A head analysis outcome, with the findings taken by their view.
pub open spec fn result_view(r: Result<HeadInfo, RequestError>) -> Result<HeadModel, RequestError> {
    match r {
        Ok(h) => Ok(h@),
        Err(e) => Err(e),
    }
}

pub open spec fn empty_head() -> HeadModel {
    HeadModel { header_len: 0, content_length: None, boundary: None }
}

pub open spec fn crlf() -> Seq<u8> {
    seq![0x0du8, 0x0au8]
}

pub open spec fn blank_line() -> Seq<u8> {
    seq![0x0du8, 0x0au8, 0x0du8, 0x0au8]
}

pub open spec fn form_data_marker() -> Seq<u8> {
    "multipart/form-data".spec_bytes()
}

pub open spec fn content_length_name() -> Seq<u8> {
    "Content-Length".spec_bytes()
}

/// The regular expression `pattern` compiles, and it matches somewhere in
/// `haystack`.
pub uninterp spec fn regex_finds(pattern: Seq<char>, haystack: Seq<char>) -> bool;

/// `regex::Regex::new(pattern)` followed by `Regex::find(haystack)`: true
/// when the pattern compiles and finds a match. Which texts a pattern
/// matches is the regex crate's and is only named here, by `regex_finds`.
#[verifier::external_body]
fn regex_finds_in(pattern: &str, haystack: &str) -> (r: bool)
    ensures
        r == regex_finds(pattern@, haystack@),
{
    match regex::Regex::new(pattern) {
        Ok(re) => re.find(haystack).is_some(),
        Err(_) => false,
    }
}

/// The end of the line that starts at `from`: the next `\r\n`, or the end.
pub open spec fn line_end(s: Seq<u8>, from: int) -> int {
    match find_seq_from(s, crlf(), from) {
        Some(e) => e,
        None => s.len() as int,
    }
}

/// The end of the first blank line, or 0 when there is none.
pub open spec fn header_end(s: Seq<u8>) -> nat {
    match find_seq_from(s, blank_line(), 0) {
        Some(i) => (i + 4) as nat,
        None => 0,
    }
}

/// A nonzero head length ends right after the first blank line: the four
/// bytes before it are `\r\n\r\n`, and no blank line starts earlier.
pub proof fn law_head_ends_at_first_blank_line(block: Seq<u8>)
    ensures
        header_end(block) > 0 ==> ({
            let h = header_end(block) as int;
            &&& 4 <= h <= block.len()
            &&& block.subrange(h - 4, h) == blank_line()
            &&& forall|j: int| 0 <= j < h - 4 ==> !occurs_at(block, blank_line(), j)
        }),
{
    lemma_find_seq_bounds(block, blank_line(), 0);
}

/// A `multipart/form-data` line records the text between its first and
/// second `=`, without spaces, as the boundary; that boundary must work as a
/// regular expression that matches the whole block `text`.
pub open spec fn scan_boundary(text: Seq<u8>, line: Seq<u8>, acc: HeadModel) -> Result<
    HeadModel,
    RequestError,
> {
    if contains_seq(line, form_data_marker()) {
        match field_after(line, 0x3du8) {
            None => Err(RequestError::MissingBoundary),
            Some(v) => {
                let b = without_spaces(v);
                if regex_finds(decode_utf8(b), decode_utf8(text)) {
                    Ok(HeadModel { header_len: acc.header_len, content_length: acc.content_length, boundary: Some(b) })
                } else {
                    Err(RequestError::BoundaryNotFound)
                }
            },
        }
    } else {
        Ok(acc)
    }
}

/// A line that begins with `Content-Length` records the number between its
/// first and second `:`, without spaces.
pub open spec fn scan_content_length(line: Seq<u8>, acc: HeadModel) -> Result<
    HeadModel,
    RequestError,
> {
    if starts_with(line, content_length_name()) {
        match field_after(line, 0x3au8) {
            None => Err(RequestError::MissingContentLength),
            Some(v) => match parse_usize_spec(without_spaces(v)) {
                None => Err(RequestError::BadContentLength),
                Some(n) => Ok(HeadModel { header_len: acc.header_len, content_length: Some(n), boundary: acc.boundary }),
            },
        }
    } else {
        Ok(acc)
    }
}

pub open spec fn scan_line(text: Seq<u8>, line: Seq<u8>, acc: HeadModel) -> Result<
    HeadModel,
    RequestError,
> {
    match scan_boundary(text, line, acc) {
        Err(e) => Err(e),
        Ok(a) => scan_content_length(line, a),
    }
}

/// Scans the lines of `text` (split at `\r\n`) from the one that starts at
/// `from` to the last.
pub open spec fn scan_lines(text: Seq<u8>, from: int, acc: HeadModel) -> Result<
    HeadModel,
    RequestError,
>
    decreases text.len() + 1 - from,
{
    if from < 0 || from > text.len() {
        Ok(acc)
    } else {
        let e = line_end(text, from);
        proof {
            lemma_find_seq_bounds(text, crlf(), from);
        }
        match scan_line(text, text.subrange(from, e), acc) {
            Err(err) => Err(err),
            Ok(a) => if e < text.len() {
                scan_lines(text, e + 2, a)
            } else {
                Ok(a)
            },
        }
    }
}

/// `k` spaces.
pub open spec fn spaces(k: nat) -> Seq<u8> {
    Seq::new(k, |i: int| 0x20u8)
}

/// The header line `Content-Length:` followed by `n` in decimal, with
/// `before` spaces before the number and `after` spaces after it.
pub open spec fn content_length_line(n: nat, before: nat, after: nat) -> Seq<u8> {
    content_length_name() + seq![0x3au8] + spaces(before) + decimal(n) + spaces(after)
}

proof fn lemma_without_spaces_spaces(k: nat)
    ensures
        without_spaces(spaces(k)) == Seq::<u8>::empty(),
    decreases k,
{
    if k > 0 {
        assert(spaces(k).drop_last() =~= spaces((k - 1) as nat));
        lemma_without_spaces_spaces((k - 1) as nat);
    } else {
        assert(spaces(k) =~= Seq::<u8>::empty());
    }
}

/// The length a `Content-Length` line announces is the number written on
/// it, for every number that fits in a `usize` and however many spaces
/// surround it: the line records that value, whatever an earlier line
/// recorded, and keeps the head length and the boundary.
pub proof fn law_content_length_is_announced_value(
    text: Seq<u8>,
    n: nat,
    before: nat,
    after: nat,
    acc: HeadModel,
)
    requires
        n <= usize::MAX,
    ensures
        scan_line(text, content_length_line(n, before, after), acc) == Ok::<
            HeadModel,
            RequestError,
        >(HeadModel { header_len: acc.header_len, content_length: Some(n), boundary: acc.boundary }),
{
    reveal_strlit("Content-Length");
    reveal_strlit("multipart/form-data");
    assert(vstd::string::is_ascii("Content-Length"));
    assert(vstd::string::is_ascii("multipart/form-data"));
    vstd::string::is_ascii_spec_bytes("Content-Length");
    vstd::string::is_ascii_spec_bytes("multipart/form-data");
    let line = content_length_line(n, before, after);
    let d = decimal(n);
    lemma_decimal(n);
    lemma_parse_decimal(n);
    assert(content_length_name().len() == 14);
    let v = spaces(before) + d + spaces(after);
    assert(line =~= content_length_name() + seq![0x3au8] + v);
    // Past the name and the `:`, the line holds spaces and digits only.
    assert forall|j: int| 15 <= j < line.len() implies #[trigger] line[j] == 0x20 || is_digit(
        line[j],
    ) by {
        assert(line[j] == v[j - 15]);
        let k = j - 15;
        if before <= k < before + d.len() {
            assert(v[k] == d[k - before]);
            assert(is_digit(d[k - before]));
        }
    }
    // No `multipart/form-data` in the line: its first letter never occurs.
    assert forall|j: int| 0 <= j < line.len() implies line[j] != form_data_marker()[0] by {
        if j >= 15 {
            assert(line[j] == 0x20 || is_digit(line[j]));
        }
    }
    lemma_find_seq_absent(line, form_data_marker(), 0);
    assert(scan_boundary(text, line, acc) == Ok::<HeadModel, RequestError>(acc));
    // The name is at the start, and the value follows the one `:`.
    assert(line.subrange(0, 14) =~= content_length_name());
    lemma_find_byte_at(line, 0x3au8, 0, 14);
    assert forall|j: int| 15 <= j < line.len() implies line[j] != 0x3au8 by {
        assert(line[j] == 0x20 || is_digit(line[j]));
    }
    lemma_find_byte_absent(line, 0x3au8, 15);
    assert(line.subrange(15, line.len() as int) =~= v);
    assert(field_after(line, 0x3au8) == Some(v));
    lemma_without_spaces_concat(spaces(before), d);
    lemma_without_spaces_concat(spaces(before) + d, spaces(after));
    lemma_without_spaces_spaces(before);
    lemma_without_spaces_spaces(after);
    assert forall|i: int| 0 <= i < d.len() implies d[i] != 0x20 by {
        assert(is_digit(d[i]));
    }
    lemma_without_spaces_no_space(d);
    assert(without_spaces(v) =~= d);
}

/// The bytes of `Content-Length`: visible ASCII, starting with `C`.
proof fn lemma_content_length_name_bytes()
    ensures
        content_length_name().len() == 14,
        content_length_name()[0] == 0x43,
        forall|k: int| 0 <= k < 14 ==> 0x21 <= #[trigger] content_length_name()[k] <= 0x7e,
{
    reveal_strlit("Content-Length");
    assert(vstd::string::is_ascii("Content-Length"));
    vstd::string::is_ascii_spec_bytes("Content-Length");
    assert(content_length_name() =~= seq![
        0x43u8, 0x6fu8, 0x6eu8, 0x74u8, 0x65u8, 0x6eu8, 0x74u8, 0x2du8, 0x4cu8, 0x65u8, 0x6eu8,
        0x67u8, 0x74u8, 0x68u8,
    ]);
}

/// A `Content-Length` line is printable ASCII and starts with `C`.
proof fn lemma_content_length_line_bytes(n: nat, before: nat, after: nat)
    ensures
        content_length_line(n, before, after).len() == 15 + before + decimal(n).len() + after,
        content_length_line(n, before, after)[0] == 0x43,
        forall|k: int|
            0 <= k < content_length_line(n, before, after).len() ==> 0x20
                <= #[trigger] content_length_line(n, before, after)[k] <= 0x7e,
{
    lemma_content_length_name_bytes();
    lemma_decimal(n);
    let line = content_length_line(n, before, after);
    let d = decimal(n);
    assert forall|k: int| 0 <= k < line.len() implies 0x20 <= #[trigger] line[k] <= 0x7e by {
        if k < 14 {
            assert(line[k] == content_length_name()[k]);
        } else if 15 + before <= k < 15 + before + d.len() {
            assert(line[k] == d[k - 15 - before]);
            assert(is_digit(d[k - 15 - before]));
        }
    }
}

/// A head made of a request line, one `Content-Length` line and the blank
/// line that ends it: its analysis gives the whole head as the head length,
/// the number on the `Content-Length` line as the announced length, and no
/// boundary. The request line is any UTF-8 text without `\r` that neither
/// starts with `Content-Length` nor holds `multipart/form-data`.
pub proof fn law_head_with_content_length(request_line: Seq<u8>, n: nat, before: nat, after: nat)
    requires
        n <= usize::MAX,
        valid_utf8(request_line),
        forall|i: int| 0 <= i < request_line.len() ==> #[trigger] request_line[i] != 0x0du8,
        !contains_seq(request_line, form_data_marker()),
        !starts_with(request_line, content_length_name()),
    ensures
        ({
            let block = request_line + crlf() + content_length_line(n, before, after)
                + blank_line();
            analyze_head_spec(block) == Ok::<HeadModel, RequestError>(
                HeadModel { header_len: block.len(), content_length: Some(n), boundary: None },
            )
        }),
{
    let x = request_line.len() as int;
    let line = content_length_line(n, before, after);
    let l = line.len() as int;
    let block = request_line + crlf() + line + blank_line();
    let t = x + l + 6;
    lemma_content_length_line_bytes(n, before, after);
    lemma_content_length_name_bytes();
    reveal_strlit("multipart/form-data");
    assert(vstd::string::is_ascii("multipart/form-data"));
    vstd::string::is_ascii_spec_bytes("multipart/form-data");
    assert(block.len() == t);
    assert forall|k: int| 0 <= k < x implies #[trigger] block[k] == request_line[k] by {}
    assert forall|k: int| x + 2 <= k < x + 2 + l implies #[trigger] block[k] == line[k - x - 2] by {}
    assert(block[x] == 0x0du8 && block[x + 1] == 0x0au8);
    assert(block[x + 2 + l] == 0x0du8 && block[x + 3 + l] == 0x0au8);
    assert(block[x + 4 + l] == 0x0du8 && block[x + 5 + l] == 0x0au8);
    // The block is UTF-8.
    lemma_ascii_valid(crlf());
    lemma_ascii_valid(line);
    lemma_ascii_valid(blank_line());
    vstd::utf8::valid_utf8_concat(request_line, crlf());
    vstd::utf8::valid_utf8_concat(request_line + crlf(), line);
    vstd::utf8::valid_utf8_concat(request_line + crlf() + line, blank_line());
    // The head ends at the blank line after the `Content-Length` line.
    assert(block.subrange(x + l + 2, t) =~= blank_line());
    assert forall|j: int| 0 <= j < x + l + 2 implies !#[trigger] occurs_at(
        block,
        blank_line(),
        j,
    ) by {
        if occurs_at(block, blank_line(), j) {
            assert(block.subrange(j, j + 4)[0] == block[j]);
            assert(block.subrange(j, j + 4)[2] == block[j + 2]);
            if j < x {
                assert(block[j] == request_line[j]);
            } else if j == x {
                assert(block[j + 2] == line[0]);
            } else if j > x + 1 {
                assert(block[j] == line[j - x - 2]);
            }
        }
    }
    lemma_find_seq_at(block, blank_line(), 0, x + l + 2);
    assert(header_end(block) == t);
    let init = HeadModel { header_len: t as nat, content_length: None, boundary: None };
    let found = HeadModel { header_len: t as nat, content_length: Some(n), boundary: None };
    // First line: the request line, which records nothing.
    assert(block.subrange(x, x + 2) =~= crlf());
    assert forall|j: int| 0 <= j < x implies !#[trigger] occurs_at(block, crlf(), j) by {
        if occurs_at(block, crlf(), j) {
            assert(block.subrange(j, j + 2)[0] == block[j]);
        }
    }
    lemma_find_seq_at(block, crlf(), 0, x);
    assert(block.subrange(0, x) =~= request_line);
    assert(scan_line(block, request_line, init) == Ok::<HeadModel, RequestError>(init));
    assert(scan_lines(block, 0, init) == scan_lines(block, x + 2, init));
    // Second line: the `Content-Length` line.
    assert(block.subrange(x + 2 + l, x + 4 + l) =~= crlf());
    assert forall|j: int| x + 2 <= j < x + 2 + l implies !#[trigger] occurs_at(
        block,
        crlf(),
        j,
    ) by {
        if occurs_at(block, crlf(), j) {
            assert(block.subrange(j, j + 2)[0] == block[j]);
            assert(block[j] == line[j - x - 2]);
        }
    }
    lemma_find_seq_at(block, crlf(), x + 2, x + 2 + l);
    assert(block.subrange(x + 2, x + 2 + l) =~= line);
    law_content_length_is_announced_value(block, n, before, after, init);
    assert(scan_lines(block, x + 2, init) == scan_lines(block, x + l + 4, found));
    // Then two empty lines, which record nothing.
    assert(block.subrange(x + l + 4, x + l + 6) =~= crlf());
    lemma_find_seq_at(block, crlf(), x + l + 4, x + l + 4);
    assert(block.subrange(x + l + 4, x + l + 4) =~= Seq::<u8>::empty());
    assert(find_seq_from(Seq::<u8>::empty(), form_data_marker(), 0) is None);
    assert(scan_line(block, Seq::<u8>::empty(), found) == Ok::<HeadModel, RequestError>(found));
    assert(scan_lines(block, x + l + 4, found) == scan_lines(block, t, found));
    assert(block.subrange(t, t) =~= Seq::<u8>::empty());
    assert(scan_lines(block, t, found) == Ok::<HeadModel, RequestError>(found));
}

/// The head analysis of the first block read from a connection.
pub open spec fn analyze_head_spec(block: Seq<u8>) -> Result<HeadModel, RequestError> {
    if !valid_utf8(block) {
        Err(RequestError::HeadNotUtf8)
    } else {
        scan_lines(
            block,
            0,
            HeadModel { header_len: header_end(block), content_length: None, boundary: None },
        )
    }
}

proof fn lemma_field_after_valid(line: Seq<u8>, sep: u8)
    requires
        valid_utf8(line),
        sep < 0x80,
    ensures
        field_after(line, sep) matches Some(v) ==> valid_utf8(v),
{
    lemma_find_byte_bounds(line, sep, 0);
    if let Some(i) = find_byte_from(line, sep, 0) {
        lemma_find_byte_bounds(line, sep, i + 1);
        lemma_ascii_neighbors(line, i);
        let j = match find_byte_from(line, sep, i + 1) {
            Some(j) => j,
            None => line.len() as int,
        };
        if j < line.len() {
            lemma_ascii_neighbors(line, j);
        }
        lemma_valid_between(line, i + 1, j);
    }
}

proof fn lemma_str_view(s: &str, b: Seq<u8>)
    requires
        s.spec_bytes() == b,
    ensures
        valid_utf8(b),
        s@ == decode_utf8(b),
{
    encode_utf8_valid_utf8(s@);
    encode_utf8_decode_utf8(s@);
}

/// One line of the head analysis.
fn scan_line_exec(text: &[u8], text_str: &str, line: &[u8], acc: HeadInfo) -> (r: Result<
    HeadInfo,
    RequestError,
>)
    requires
        text_str.spec_bytes() == text@,
        valid_utf8(line@),
    ensures
        result_view(r) == scan_line(text@, line@, acc@),
{
    let mut acc = acc;
    if contains(line, "multipart/form-data".as_bytes()) {
        proof {
            lemma_field_after_valid(line@, 0x3du8);
        }
        match field_after_sep(line, 0x3du8) {
            None => {
                return Err(RequestError::MissingBoundary);
            },
            Some(v) => {
                let b = remove_spaces(v.as_slice());
                proof {
                    lemma_without_spaces_valid(v@);
                    lemma_str_view(text_str, text@);
                }
                match str_from_utf8(b.as_slice()) {
                    None => {
                        return Err(RequestError::BoundaryNotFound);
                    },
                    Some(pattern) => {
                        proof {
                            lemma_str_view(pattern, b@);
                        }
                        if !regex_finds_in(pattern, text_str) {
                            return Err(RequestError::BoundaryNotFound);
                        }
                    },
                }
                acc.boundary = Some(b);
            },
        }
    }
    if has_prefix(line, "Content-Length".as_bytes()) {
        match field_after_sep(line, 0x3au8) {
            None => {
                return Err(RequestError::MissingContentLength);
            },
            Some(v) => {
                let digits = remove_spaces(v.as_slice());
                match parse_usize(digits.as_slice()) {
                    None => {
                        return Err(RequestError::BadContentLength);
                    },
                    Some(n) => {
                        acc.content_length = Some(n);
                    },
                }
            },
        }
    }
    Ok(acc)
}

/// Analyses the first block read from a connection, as the whole block of
/// `BUFFER` bytes (what was read, then the zeros the buffer started with).
pub fn analyze_head(block: &[u8]) -> (r: Result<HeadInfo, RequestError>)
    ensures
        result_view(r) == analyze_head_spec(block@),
{
    let text_str = match str_from_utf8(block) {
        None => {
            return Err(RequestError::HeadNotUtf8);
        },
        Some(t) => t,
    };
    let n = block.len();
    let blank: [u8; 4] = [0x0du8, 0x0au8, 0x0du8, 0x0au8];
    assert(blank@ =~= blank_line());
    let header_len = match find_from(block, &blank, 0) {
        Some(i) => {
            proof {
                lemma_find_seq_bounds(block@, blank_line(), 0);
            }
            i + 4
        },
        None => 0,
    };
    let crlf_bytes: [u8; 2] = [0x0du8, 0x0au8];
    assert(crlf_bytes@ =~= crlf());
    let mut acc = HeadInfo { header_len, content_length: None, boundary: None };
    let ghost init = acc@;
    let mut from: usize = 0;
    loop
        invariant
            n == block@.len(),
            from <= n,
            text_str.spec_bytes() == block@,
            valid_utf8(block@),
            at_char_start(block@, from as int),
            crlf_bytes@ == crlf(),
            analyze_head_spec(block@) == scan_lines(block@, 0, init),
            scan_lines(block@, 0, init) == scan_lines(block@, from as int, acc@),
        decreases n + 1 - from,
    {
        let found = find_from(block, &crlf_bytes, from);
        proof {
            lemma_find_seq_bounds(block@, crlf(), from as int);
        }
        let e = match found {
            Some(e) => e,
            None => n,
        };
        assert(e as int == line_end(block@, from as int));
        if e < n {
            assert(block@[e as int] == 0x0du8) by {
                assert(block@.subrange(e as int, e + 2)[0] == block@[e as int]);
            }
            proof {
                lemma_ascii_neighbors(block@, e as int);
            }
        }
        proof {
            lemma_valid_between(block@, from as int, e as int);
        }
        let line = vstd::slice::slice_subrange(block, from, e);
        match scan_line_exec(block, text_str, line, acc) {
            Err(err) => {
                return Err(err);
            },
            Ok(a) => {
                acc = a;
            },
        }
        if e == n {
            return Ok(acc);
        }
        assert(block@[e + 1] == 0x0au8) by {
            assert(block@.subrange(e as int, e + 2)[1] == block@[e + 1]);
        }
        proof {
            lemma_ascii_neighbors(block@, e + 1);
        }
        from = e + 2;
    }
}

} // verus!
