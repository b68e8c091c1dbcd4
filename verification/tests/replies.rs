use websrv_core::reply::{
    event_stream_step, StreamStep,
    event_stream_message, file_reply, file_to_serve, filescan_reply, mu_reply,
    not_implemented_reply, text_bytes,
};

#[test]
fn file_replies_carry_status_and_contents() {
    assert_eq!(file_reply(true, b"<p>hi</p>"), b"HTTP/1.1 200 OK\r\n\r\n<p>hi</p>".to_vec());
    assert_eq!(file_reply(false, b"gone"), b"HTTP/1.1 404 NOT FOUND\r\n\r\ngone".to_vec());
    assert_eq!(file_reply(true, b""), b"HTTP/1.1 200 OK\r\n\r\n".to_vec());
}

#[test]
fn missing_files_are_replaced_by_the_not_found_page() {
    assert_eq!(file_to_serve(true, b"a/b.html"), b"a/b.html".to_vec());
    assert_eq!(file_to_serve(false, b"a/b.html"), b"not_found.html".to_vec());
}

#[test]
fn fixed_messages() {
    assert_eq!(not_implemented_reply(), b"NOT IMPLEMENTED".to_vec());
    assert_eq!(text_bytes("é"), vec![0xc3, 0xa9]);
    assert_eq!(
        event_stream_message(),
        b"HTTP/1.1 200 OK\r\nContent-Type: text/event-stream\r\nCache-Control: no-cache\r\n\r\ndata: <img src=\"image/test.jpg\" alt=\"sample\">\r\n\r\n".to_vec()
    );
}

#[test]
fn filescan_reply_complete() {
    let r = filescan_reply(b"abc123 *f\n", b"f: OK\n");
    assert!(r.complete);
    assert_eq!(r.bytes, b"HTTP/1.1 200 OK\r\n\r\nabc123 *f\n\r\nf: OK\n".to_vec());
}

#[test]
fn filescan_reply_stops_at_binary_output() {
    let r = filescan_reply(b"\xff", b"f: OK\n");
    assert!(!r.complete);
    assert_eq!(r.bytes, b"HTTP/1.1 200 OK\r\n\r\n".to_vec());
    let r = filescan_reply(b"abc", b"\xfe");
    assert!(!r.complete);
    assert_eq!(r.bytes, b"HTTP/1.1 200 OK\r\n\r\nabc\r\n".to_vec());
}

#[test]
fn mu_reply_joins_output_lines() {
    let r = mu_reply(false, b"1\n2\n", b"", Some(0));
    assert!(r.complete);
    assert_eq!(r.bytes, b"HTTP/1.1 200 OK\r\n\r\n12".to_vec());
}

#[test]
fn mu_reply_after_failure_repeats_output_with_errors() {
    let r = mu_reply(false, b"out\n", b"Traceback\nerr\n", Some(1));
    assert!(r.complete);
    assert_eq!(r.bytes, b"HTTP/1.1 200 OK\r\n\r\noutoutTracebackerr".to_vec());
}

#[test]
fn mu_reply_on_timeout() {
    let r = mu_reply(true, b"partial\n", b"", None);
    assert!(!r.complete);
    assert_eq!(r.bytes, b"HTTP/1.1 200 OK\r\n\r\nProgram timeout reachedpartial".to_vec());
    let r = mu_reply(true, b"", b"", Some(0));
    assert!(r.complete);
    assert_eq!(r.bytes, b"HTTP/1.1 200 OK\r\n\r\nProgram timeout reached".to_vec());
}

#[test]
fn mu_reply_stops_at_binary_output() {
    let r = mu_reply(false, b"\xff", b"", Some(0));
    assert!(!r.complete);
    assert_eq!(r.bytes, b"HTTP/1.1 200 OK\r\n\r\n".to_vec());
    let r = mu_reply(false, b"a\n", b"\xff", Some(1));
    assert!(!r.complete);
    assert_eq!(r.bytes, b"HTTP/1.1 200 OK\r\n\r\na".to_vec());
}

#[test]
fn event_stream_goes_on_until_a_write_fails() {
    assert_eq!(event_stream_step(true), StreamStep::WaitAndSend);
    assert_eq!(event_stream_step(false), StreamStep::Stop);
}
