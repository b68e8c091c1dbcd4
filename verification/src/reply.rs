//! What the server sends back: file pages, fixed messages, the event
//! stream, and the replies of the scan and run endpoints.

use vstd::prelude::*;
use vstd::string::StringSliceAdditionalSpecFns;
use vstd::utf8::valid_utf8;
use crate::bytes::{append_bytes, copy_range, remove_byte, strip_byte};
use crate::utf8::is_utf8;

verus! {

/// The bytes of a text.
pub fn text_bytes(s: &str) -> (r: Vec<u8>)
    ensures
        r@ == s.spec_bytes(),
{
    let b = s.as_bytes();
    copy_range(b, 0, b.len())
}

pub open spec fn ok_status() -> Seq<u8> {
    "HTTP/1.1 200 OK\r\n\r\n".spec_bytes()
}

pub open spec fn not_found_status() -> Seq<u8> {
    "HTTP/1.1 404 NOT FOUND\r\n\r\n".spec_bytes()
}

pub open spec fn not_found_page() -> Seq<u8> {
    "not_found.html".spec_bytes()
}

pub open spec fn not_implemented_text() -> Seq<u8> {
    "NOT IMPLEMENTED".spec_bytes()
}

pub open spec fn event_stream_header() -> Seq<u8> {
    "HTTP/1.1 200 OK\r\nContent-Type: text/event-stream\r\nCache-Control: no-cache\r\n\r\n".spec_bytes()
}

pub open spec fn event_stream_data() -> Seq<u8> {
    "data: <img src=\"image/test.jpg\" alt=\"sample\">\r\n\r\n".spec_bytes()
}

pub open spec fn timeout_text() -> Seq<u8> {
    "Program timeout reached".spec_bytes()
}

/// The status line of a file reply.
pub open spec fn file_status(found: bool) -> Seq<u8> {
    if found {
        ok_status()
    } else {
        not_found_status()
    }
}

/// The file to read for a page: the requested one when it exists, else the
/// not-found page.
pub fn file_to_serve(found: bool, filename: &[u8]) -> (r: Vec<u8>)
    ensures
        r@ == (if found {
            filename@
        } else {
            not_found_page()
        }),
{
    if found {
        copy_range(filename, 0, filename.len())
    } else {
        text_bytes("not_found.html")
    }
}

/// A page reply: the status line (200 when the file was found, 404 when the
/// not-found page is sent instead) followed by the file's contents.
pub fn file_reply(found: bool, contents: &[u8]) -> (r: Vec<u8>)
    ensures
        r@ == file_status(found) + contents@,
{
    let mut r = if found {
        text_bytes("HTTP/1.1 200 OK\r\n\r\n")
    } else {
        text_bytes("HTTP/1.1 404 NOT FOUND\r\n\r\n")
    };
    append_bytes(&mut r, contents);
    r
}

/// The reply to requests the server does not implement.
pub fn not_implemented_reply() -> (r: Vec<u8>)
    ensures
        r@ == not_implemented_text(),
{
    text_bytes("NOT IMPLEMENTED")
}

/// One message of the test event stream: the stream's header, then one
/// `data:` event.
pub fn event_stream_message() -> (r: Vec<u8>)
    ensures
        r@ == event_stream_header() + event_stream_data(),
{
    let mut r = text_bytes(
        "HTTP/1.1 200 OK\r\nContent-Type: text/event-stream\r\nCache-Control: no-cache\r\n\r\n",
    );
    let d = "data: <img src=\"image/test.jpg\" alt=\"sample\">\r\n\r\n".as_bytes();
    append_bytes(&mut r, d);
    r
}

/// Milliseconds between two messages of the test event stream.
pub const EVENT_INTERVAL_MS: u64 = 10000;

/// What the event stream does after trying to send a message.
#[derive(Debug, Clone, Copy, PartialEq, Eq, Structural)]
pub enum StreamStep {
    /// Wait `EVENT_INTERVAL_MS`, then send the next message.
    WaitAndSend,
    /// The peer is gone: stop.
    Stop,
}

/// The event stream goes on while messages can be sent and stops at the
/// first failed write.
pub fn event_stream_step(sent: bool) -> (r: StreamStep)
    ensures
        r == (if sent {
            StreamStep::WaitAndSend
        } else {
            StreamStep::Stop
        }),
{
    if sent {
        StreamStep::WaitAndSend
    } else {
        StreamStep::Stop
    }
}

/// What an endpoint sends, and whether it finishes: `complete` is false when
/// the endpoint gives up after sending `bytes` (its output was not text).
pub struct Reply {
    pub bytes: Vec<u8>,
    pub complete: bool,
}

/// The reply model: the bytes sent, and whether the endpoint finishes.
pub open spec fn reply_view(r: Reply) -> (Seq<u8>, bool) {
    (r.bytes@, r.complete)
}

/// The file scan reply: the 200 status line, the checksum tool's output and
/// a line break, then the virus scanner's output. Each output must be text;
/// the reply stops before the first one that is not.
pub open spec fn filescan_reply_spec(hash_out: Seq<u8>, scan_out: Seq<u8>) -> (Seq<u8>, bool) {
    if !valid_utf8(hash_out) {
        (ok_status(), false)
    } else if !valid_utf8(scan_out) {
        (ok_status() + hash_out + seq![0x0du8, 0x0au8], false)
    } else {
        (ok_status() + hash_out + seq![0x0du8, 0x0au8] + scan_out, true)
    }
}

/// Builds the file scan reply from the outputs of the two tools.
pub fn filescan_reply(hash_out: &[u8], scan_out: &[u8]) -> (r: Reply)
    ensures
        reply_view(r) == filescan_reply_spec(hash_out@, scan_out@),
{
    let mut bytes = text_bytes("HTTP/1.1 200 OK\r\n\r\n");
    if !is_utf8(hash_out) {
        return Reply { bytes, complete: false };
    }
    append_bytes(&mut bytes, hash_out);
    let crlf: [u8; 2] = [0x0du8, 0x0au8];
    append_bytes(&mut bytes, &crlf);
    assert(crlf@ =~= seq![0x0du8, 0x0au8]);
    if !is_utf8(scan_out) {
        return Reply { bytes, complete: false };
    }
    append_bytes(&mut bytes, scan_out);
    Reply { bytes, complete: true }
}

/// The text of an output with its line breaks taken out (its lines sent
/// one after the other).
pub open spec fn joined_lines(s: Seq<u8>) -> Seq<u8> {
    strip_byte(s, 0x0au8)
}

/// The reply of the run endpoint: the 200 status line, a timeout notice when
/// the program was stopped, then the lines of its standard output. When the
/// program exited with status 1 the lines of its output followed by its
/// error output come next. The reply stops early when the standard output is
/// not text, when the program has no exit status, or when the error output
/// it must send is not text.
pub open spec fn mu_reply_spec(
    timed_out: bool,
    stdout: Seq<u8>,
    stderr: Seq<u8>,
    exit_code: Option<i32>,
) -> (Seq<u8>, bool) {
    let head = if timed_out {
        ok_status() + timeout_text()
    } else {
        ok_status()
    };
    if !valid_utf8(stdout) {
        (head, false)
    } else {
        let first = head + joined_lines(stdout);
        match exit_code {
            None => (first, false),
            Some(code) => if code == 1 {
                if valid_utf8(stderr) {
                    (first + joined_lines(stdout + stderr), true)
                } else {
                    (first, false)
                }
            } else {
                (first, true)
            },
        }
    }
}

/// The scan and run endpoints always start their reply with the 200 status
/// line, and they finish only after sending the whole tool output.
pub proof fn law_endpoint_replies_start_ok(
    hash_out: Seq<u8>,
    scan_out: Seq<u8>,
    timed_out: bool,
    stdout: Seq<u8>,
    stderr: Seq<u8>,
    exit_code: Option<i32>,
)
    ensures
        filescan_reply_spec(hash_out, scan_out).0.subrange(0, ok_status().len() as int)
            == ok_status(),
        mu_reply_spec(timed_out, stdout, stderr, exit_code).0.subrange(
            0,
            ok_status().len() as int,
        ) == ok_status(),
        filescan_reply_spec(hash_out, scan_out).1 ==> filescan_reply_spec(hash_out, scan_out).0
            == ok_status() + hash_out + seq![0x0du8, 0x0au8] + scan_out,
{
    let f = filescan_reply_spec(hash_out, scan_out).0;
    let m = mu_reply_spec(timed_out, stdout, stderr, exit_code).0;
    assert(f.subrange(0, ok_status().len() as int) =~= ok_status());
    assert(m.subrange(0, ok_status().len() as int) =~= ok_status());
}

/// The run reply opens with the 200 status line, and with the timeout notice
/// after it when the program was stopped.
pub open spec fn run_reply_head(timed_out: bool) -> Seq<u8> {
    if timed_out {
        ok_status() + timeout_text()
    } else {
        ok_status()
    }
}

/// A program that ends with a status other than 1 and writes text gets a
/// finished reply made of the reply head and its standard output with the
/// line breaks taken out, and nothing more: its error output is never sent.
pub proof fn law_run_reply_other_status(
    timed_out: bool,
    stdout: Seq<u8>,
    stderr: Seq<u8>,
    other_stderr: Seq<u8>,
    code: i32,
)
    requires
        code != 1,
        valid_utf8(stdout),
    ensures
        mu_reply_spec(timed_out, stdout, stderr, Some(code)) == (run_reply_head(timed_out)
            + strip_byte(stdout, 0x0au8), true),
        mu_reply_spec(timed_out, stdout, stderr, Some(code)) == mu_reply_spec(
            timed_out,
            stdout,
            other_stderr,
            Some(code),
        ),
{
}

/// A program that ends with status 1 and whose outputs are text gets a
/// finished reply made of the reply head, its output lines, then its output
/// lines again followed by its error lines.
pub proof fn law_run_reply_status_one(timed_out: bool, stdout: Seq<u8>, stderr: Seq<u8>)
    requires
        valid_utf8(stdout),
        valid_utf8(stderr),
    ensures
        mu_reply_spec(timed_out, stdout, stderr, Some(1i32)) == (run_reply_head(timed_out)
            + strip_byte(stdout, 0x0au8) + strip_byte(stdout + stderr, 0x0au8), true),
{
}

/// Builds the reply of the run endpoint from what the program left behind.
pub fn mu_reply(timed_out: bool, stdout: &[u8], stderr: &[u8], exit_code: Option<i32>) -> (r:
    Reply)
    ensures
        reply_view(r) == mu_reply_spec(timed_out, stdout@, stderr@, exit_code),
{
    let mut bytes = text_bytes("HTTP/1.1 200 OK\r\n\r\n");
    if timed_out {
        let t = "Program timeout reached".as_bytes();
        append_bytes(&mut bytes, t);
    }
    if !is_utf8(stdout) {
        return Reply { bytes, complete: false };
    }
    let ghost head = bytes@;
    assert(head == (if timed_out {
        ok_status() + timeout_text()
    } else {
        ok_status()
    }));
    let lines = remove_byte(stdout, 0x0au8);
    append_bytes(&mut bytes, lines.as_slice());
    assert(bytes@ == head + joined_lines(stdout@));
    let complete = match exit_code {
        None => false,
        Some(code) => {
            if code == 1 {
                if is_utf8(stderr) {
                    let mut both = copy_range(stdout, 0, stdout.len());
                    append_bytes(&mut both, stderr);
                    assert(both@ == stdout@ + stderr@);
                    let all_lines = remove_byte(both.as_slice(), 0x0au8);
                    append_bytes(&mut bytes, all_lines.as_slice());
                    assert(bytes@ == head + joined_lines(stdout@) + joined_lines(stdout@ + stderr@));
                    true
                } else {
                    false
                }
            } else {
                true
            }
        },
    };
    let r = Reply { bytes, complete };
    // The cases without an exit status and with status 1 need the spec
    // unfolded at this point.
    assert(exit_code is None ==> reply_view(r) == mu_reply_spec(
        timed_out,
        stdout@,
        stderr@,
        exit_code,
    ));
    assert(exit_code == Some(1i32) ==> reply_view(r) == mu_reply_spec(
        timed_out,
        stdout@,
        stderr@,
        exit_code,
    ));
    r
}

} // verus!
