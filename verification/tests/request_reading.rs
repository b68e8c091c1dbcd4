use websrv_core::head::{analyze_head, HeadInfo, RequestError};
use websrv_core::request::{extract_form_data, ReadStep, RequestReader};

const BUFFER: usize = 10000;

fn upload_request() -> Vec<u8> {
    let body = "------B\r\nContent-Disposition: form-data; name=\"f\"; filename=\"a.py\"\r\n\r\nprint(1)\r\n------B--\r\n";
    format!(
        "POST /api/mu.rs HTTP/1.1\r\nHost: x\r\nContent-Type: multipart/form-data; boundary=----B\r\nContent-Length: {}\r\n\r\n{}",
        body.len(),
        body
    )
    .into_bytes()
}

fn padded(bytes: &[u8]) -> Vec<u8> {
    let mut block = vec![0u8; BUFFER];
    block[..bytes.len()].copy_from_slice(bytes);
    block
}

#[test]
fn head_analysis_finds_length_and_boundary() {
    let req = upload_request();
    let head = analyze_head(&padded(&req)).unwrap();
    let text = String::from_utf8(req.clone()).unwrap();
    let header_len = text.find("\r\n\r\n").unwrap() + 4;
    assert_eq!(head.header_len, header_len);
    assert_eq!(head.content_length, Some(req.len() - header_len));
    assert_eq!(head.boundary, Some(b"----B".to_vec()));
}

#[test]
fn head_analysis_of_a_plain_get() {
    let head = analyze_head(&padded(b"GET / HTTP/1.1\r\nHost: x\r\n\r\n")).unwrap();
    assert_eq!(head.header_len, 27);
    assert_eq!(head.content_length, None);
    assert_eq!(head.boundary, None);
    let no_blank = analyze_head(b"GET / HTTP/1.1").unwrap();
    assert_eq!(no_blank.header_len, 0);
}

#[test]
fn head_analysis_keeps_the_last_content_length() {
    let head = analyze_head(b"Content-Length: 3\r\nContent-Length: + 12 \r\n\r\n").unwrap();
    assert_eq!(head.content_length, Some(12));
}

#[test]
fn head_not_utf8() {
    assert_eq!(analyze_head(b"GET /\xff HTTP/1.1\r\n\r\n").err(), Some(RequestError::HeadNotUtf8));
}

#[test]
fn head_boundary_errors() {
    assert_eq!(
        analyze_head(b"Content-Type: multipart/form-data\r\n\r\n").err(),
        Some(RequestError::MissingBoundary)
    );
    // "a b" loses its space and "ab" occurs nowhere in the block
    assert_eq!(
        analyze_head(b"Content-Type: multipart/form-data; boundary=a b\r\n\r\n").err(),
        Some(RequestError::BoundaryNotFound)
    );
    // "(" is not a regular expression
    assert_eq!(
        analyze_head(b"Content-Type: multipart/form-data; boundary=(\r\n\r\n").err(),
        Some(RequestError::BoundaryNotFound)
    );
    // "x.z" is a regular expression: it matches "xyz"
    let head = analyze_head(b"Content-Type: multipart/form-data; boundary=x.z\r\nxyz\r\n\r\n").unwrap();
    assert_eq!(head.boundary, Some(b"x.z".to_vec()));
}

#[test]
fn head_content_length_errors() {
    assert_eq!(
        analyze_head(b"Content-Length 5\r\n\r\n").err(),
        Some(RequestError::MissingContentLength)
    );
    assert_eq!(
        analyze_head(b"Content-Length: five\r\n\r\n").err(),
        Some(RequestError::BadContentLength)
    );
    assert_eq!(analyze_head(b"Content-Length:\r\n\r\n").err(), Some(RequestError::BadContentLength));
}

#[test]
fn reader_stops_when_head_and_body_are_in() {
    let req = upload_request();
    let split = 40;
    let mut buffer = [0u8; BUFFER];
    let mut reader = RequestReader::new();
    buffer[..split].copy_from_slice(&req[..split]);
    // the first block holds the whole request head only when it is long enough
    let first = reader.on_read(&buffer, split);
    assert!(first.is_ok());
    let (data, _) = reader.finish();
    assert_eq!(data, req[..split].to_vec());

    let mut reader = RequestReader::new();
    let cut = req.len() - 10;
    buffer[..cut].copy_from_slice(&req[..cut]);
    assert_eq!(reader.on_read(&buffer, cut), Ok(ReadStep::Continue));
    buffer[..10].copy_from_slice(&req[cut..]);
    assert_eq!(reader.on_read(&buffer, 10), Ok(ReadStep::Done));
    let (data, head) = reader.finish();
    assert_eq!(data, req);
    assert_eq!(head.boundary, Some(b"----B".to_vec()));
}

#[test]
fn reader_done_on_empty_read_and_plain_get() {
    let buffer = [0u8; BUFFER];
    let mut reader = RequestReader::new();
    assert_eq!(reader.on_read(&buffer, 0), Ok(ReadStep::Done));

    let get = b"GET / HTTP/1.1\r\n\r\n";
    let mut reader = RequestReader::new();
    assert_eq!(reader.on_read(&padded(get), get.len()), Ok(ReadStep::Done));
    let (data, head) = reader.finish();
    assert_eq!(data, get.to_vec());
    assert_eq!(head.header_len, get.len());
}

#[test]
fn reader_reports_head_errors() {
    let mut reader = RequestReader::new();
    let bad = padded(b"GET \xff\r\n\r\n");
    assert_eq!(reader.on_read(&bad, 9), Err(RequestError::HeadNotUtf8));
}

#[test]
fn reader_without_reads_gives_empty_head() {
    let (data, head) = RequestReader::new().finish();
    assert!(data.is_empty());
    assert_eq!(head.header_len, 0);
    assert_eq!(head.content_length, None);
    assert_eq!(head.boundary, None);
}

#[test]
fn form_data_of_a_text_upload() {
    let req = upload_request();
    let head = analyze_head(&padded(&req)).unwrap();
    let data = extract_form_data(&req, &head).unwrap();
    assert_eq!(data, b"print(1)".to_vec());
    // the payload sits right before the closing boundary line
    let tail = b"----B".len() + 8;
    assert_eq!(&req[req.len() - tail - data.len()..req.len() - tail], &data[..]);
}

#[test]
fn no_form_data_without_boundary_and_length() {
    let head = HeadInfo { header_len: 3, content_length: Some(4), boundary: None };
    assert_eq!(extract_form_data(b"abcdefg", &head), Ok(vec![]));
    let head = HeadInfo { header_len: 3, content_length: None, boundary: Some(b"B".to_vec()) };
    assert_eq!(extract_form_data(b"abcdefg", &head), Ok(vec![]));
}

fn head_with(header_len: usize, boundary: &[u8]) -> HeadInfo {
    HeadInfo { header_len, content_length: Some(0), boundary: Some(boundary.to_vec()) }
}

#[test]
fn form_data_errors_in_text_uploads() {
    assert_eq!(extract_form_data(b"abc", &head_with(3, b"B")), Err(RequestError::BodyOutOfRange));
    assert_eq!(
        extract_form_data(b"xxxx\xffabc", &head_with(0, b"B")),
        Err(RequestError::FormDataNotUtf8)
    );
    assert_eq!(
        extract_form_data(b"xxxx no blank line here", &head_with(0, b"B")),
        Err(RequestError::NoPartHeaderEnd)
    );
    assert_eq!(
        extract_form_data(b"xx\r\n\r\nshort", &head_with(0, b"B")),
        Err(RequestError::BodyTooShort)
    );
    assert_eq!(
        extract_form_data(b"xx\r\n\r\npayload123456789", &head_with(0, b"B")),
        Ok(b"payload".to_vec())
    );
}

#[test]
fn form_data_errors_in_binary_uploads() {
    // valid UTF-8 that holds a zero byte looks binary
    assert_eq!(
        extract_form_data(b"xab\0cdefghijklmnopq", &head_with(0, b"B")),
        Err(RequestError::BinaryBodyIsUtf8)
    );
    let mut data = b"xab\0".to_vec();
    data.push(0xff);
    data.extend_from_slice(&[b'-'; 13]);
    assert_eq!(extract_form_data(&data, &head_with(0, b"B")), Err(RequestError::BinaryBodyNotText));
    let mut data = b"xab\0".to_vec();
    data.push(0xff);
    data.extend_from_slice(&[b'-'; 8]);
    assert_eq!(extract_form_data(&data, &head_with(0, b"B")), Ok(vec![]));
    let mut data = b"x\0".to_vec();
    data.extend_from_slice(&[b'a'; 14]);
    data.push(0xff);
    assert_eq!(extract_form_data(&data, &head_with(0, b"B")), Err(RequestError::BodyOutOfRange));
    let data = b"x\0\xff".to_vec();
    assert_eq!(extract_form_data(&data, &head_with(0, b"B")), Err(RequestError::BodyTooShort));
}

#[test]
fn reader_fails_only_on_the_first_block() {
    let mut reader = RequestReader::new();
    let get = b"GET / HTTP/1.1\r\nContent-Length: 5\r\n\r\n";
    assert_eq!(reader.on_read(&padded(get), get.len()), Ok(ReadStep::Continue));
    // later blocks are not analysed: even text that is not UTF-8 is taken in
    let later = padded(b"\xff\xfe\x00ab");
    assert_eq!(reader.on_read(&later, 5), Ok(ReadStep::Done));
    let (data, head) = reader.finish();
    assert_eq!(data.len(), get.len() + 5);
    assert_eq!(head.content_length, Some(5));
}
