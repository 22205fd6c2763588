use busa_http::read::line::{LineReader, LineStep, BUFFER_SIZE};
use busa_http::read::request::{parse_request_line, ReadRequestError};
use busa_http::{HttpMethod, HttpStatusCode, HttpVersion};

#[test]
fn read_line_simple() {
    let mut reader = LineReader::new();
    match reader.feed(b"GET * HTTP/1.1\r\n") {
        LineStep::Line(line) => assert_eq!(b"GET * HTTP/1.1".to_vec(), line),
        _ => panic!("expected a line"),
    }
}

#[test]
fn read_line_complex() {
    let mut reader = LineReader::new();
    match reader.feed(
        b"GET https://www.w3.org/Protocols/HTTP/1.0/draft-ietf-http-spec.html#Request HTTP/1.1\r\n",
    ) {
        LineStep::Line(line) => assert_eq!(
            b"GET https://www.w3.org/Protocols/HTTP/1.0/draft-ietf-http-spec.html#Request HTTP/1.1"
                .to_vec(),
            line
        ),
        _ => panic!("expected a line"),
    }
}

#[test]
fn read_request_simple() {
    let mut reader = LineReader::new();
    let line = match reader.feed(b"GET * HTTP/1.1\r\n") {
        LineStep::Line(line) => line,
        _ => panic!("expected a line"),
    };
    let (method, uri, version) = parse_request_line(&line).unwrap();

    assert_eq!(method, HttpMethod::Get);
    assert_eq!(uri, "*");
    assert_eq!(version, HttpVersion::V1_1);
}

#[test]
fn read_request_complex() {
    let mut reader = LineReader::new();
    let line = match reader.feed(
        b"PUT https://www.w3.org/Protocols/HTTP/1.0/draft-ietf-http-spec.html#Request HTTP/1.0\r\n",
    ) {
        LineStep::Line(line) => line,
        _ => panic!("expected a line"),
    };
    let (method, uri, version) = parse_request_line(&line).unwrap();

    assert_eq!(method, HttpMethod::Put);
    assert_eq!(
        uri,
        "https://www.w3.org/Protocols/HTTP/1.0/draft-ietf-http-spec.html#Request"
    );
    assert_eq!(version, HttpVersion::V1_0);
}

#[test]
fn line_longer_than_one_chunk() {
    let mut input = b"GET /".to_vec();
    input.extend(std::iter::repeat(b'a').take(9994));
    input.extend_from_slice(b" HTTP/1.1\r\n");
    assert!(input.len() > BUFFER_SIZE);

    let mut reader = LineReader::new();
    match reader.feed(&input[..BUFFER_SIZE]) {
        LineStep::More => {}
        _ => panic!("expected to need more input"),
    }
    let line = match reader.feed(&input[BUFFER_SIZE..]) {
        LineStep::Line(line) => line,
        _ => panic!("expected a line"),
    };
    assert_eq!(line, input[..input.len() - 2].to_vec());

    let (method, uri, version) = parse_request_line(&line).unwrap();
    assert_eq!(method, HttpMethod::Get);
    assert_eq!(uri.len(), 9995);
    assert_eq!(version, HttpVersion::V1_1);
}

#[test]
fn terminator_straddles_two_reads() {
    let mut first = b"GET /".to_vec();
    first.extend(std::iter::repeat(b'a').take(9994));
    first.push(b'\r');
    assert_eq!(first.len(), BUFFER_SIZE);

    let mut reader = LineReader::new();
    match reader.feed(&first) {
        LineStep::More => {}
        _ => panic!("a trailing CR alone is not yet a terminator"),
    }
    let line = match reader.feed(b"\n") {
        LineStep::Line(line) => line,
        _ => panic!("expected the straddling terminator to be recognized"),
    };
    assert_eq!(line, first[..first.len() - 1].to_vec());
}

#[test]
fn lone_cr_is_not_a_terminator() {
    let mut reader = LineReader::new();
    match reader.feed(b"abc\rdef") {
        LineStep::More => {}
        _ => panic!("CR without LF must not end the line"),
    }
    match reader.feed(b"\r\n") {
        LineStep::Line(line) => assert_eq!(line, b"abc\rdef".to_vec()),
        _ => panic!("expected a line"),
    }
}

#[test]
fn end_of_input_without_terminator() {
    let mut reader = LineReader::new();
    match reader.feed(b"GET * HTTP/1.1") {
        LineStep::More => {}
        _ => panic!("expected to need more input"),
    }
    match reader.feed(b"") {
        LineStep::Unterminated => {}
        _ => panic!("end of input without CRLF must be unterminated"),
    }
}

#[test]
fn immediate_end_of_input() {
    let mut reader = LineReader::new();
    match reader.feed(b"") {
        LineStep::Unterminated => {}
        _ => panic!("an empty source has no line, not an empty one"),
    }
}

#[test]
fn single_space_is_bad_request() {
    let result = parse_request_line(b"GET HTTP/1.1");
    assert!(matches!(result, Err(ReadRequestError::BadRequest)));
}

#[test]
fn empty_line_is_bad_request() {
    let result = parse_request_line(b"");
    assert!(matches!(result, Err(ReadRequestError::BadRequest)));
}

#[test]
fn unrecognized_verb_is_bad_method() {
    let result = parse_request_line(b"FETCH / HTTP/1.1");
    assert!(matches!(result, Err(ReadRequestError::BadMethod)));

    let lowercase = parse_request_line(b"get / HTTP/1.1");
    assert!(matches!(lowercase, Err(ReadRequestError::BadMethod)));
}

#[test]
fn unrecognized_version_is_bad_version() {
    let result = parse_request_line(b"GET / HTTP/2.0");
    assert!(matches!(result, Err(ReadRequestError::BadVersion)));

    let lowercase = parse_request_line(b"GET / http/1.1");
    assert!(matches!(lowercase, Err(ReadRequestError::BadVersion)));
}

#[test]
fn non_utf8_target_is_bad_request() {
    let result = parse_request_line(b"GET /\xff\xfe HTTP/1.1");
    assert!(matches!(result, Err(ReadRequestError::BadRequest)));
}

#[test]
fn every_verb_is_recognized() {
    let verbs: [(&[u8], HttpMethod); 7] = [
        (b"GET", HttpMethod::Get),
        (b"PUT", HttpMethod::Put),
        (b"POST", HttpMethod::Post),
        (b"HEAD", HttpMethod::Head),
        (b"TRACE", HttpMethod::Trace),
        (b"CONNECT", HttpMethod::Connect),
        (b"OPTIONS", HttpMethod::Options),
    ];
    for (verb, expected) in verbs {
        let mut line = verb.to_vec();
        line.extend_from_slice(b" / HTTP/1.1");
        let (method, uri, version) = parse_request_line(&line).unwrap();
        assert_eq!(method, expected);
        assert_eq!(uri, "/");
        assert_eq!(version, HttpVersion::V1_1);
    }
}

#[test]
fn target_with_space_lands_in_version_token() {
    let result = parse_request_line(b"GET /a b HTTP/1.1");
    assert!(matches!(result, Err(ReadRequestError::BadVersion)));
}

#[test]
fn round_trip_reproduces_triple() {
    let (method, uri, version) = parse_request_line(b"PUT /index.html HTTP/1.0").unwrap();
    let verb = match method {
        HttpMethod::Put => "PUT",
        _ => panic!("expected PUT"),
    };
    let name = match version {
        HttpVersion::V1_0 => "HTTP/1.0",
        _ => panic!("expected HTTP/1.0"),
    };
    let wire = format!("{} {} {}\r\n", verb, uri, name).into_bytes();

    let mut reader = LineReader::new();
    let line = match reader.feed(&wire) {
        LineStep::Line(line) => line,
        _ => panic!("expected a line"),
    };
    let (method2, uri2, version2) = parse_request_line(&line).unwrap();
    assert_eq!(method2, HttpMethod::Put);
    assert_eq!(uri2, uri);
    assert_eq!(version2, HttpVersion::V1_0);
}

#[test]
fn io_error_wraps_into_request_error() {
    let err = std::io::Error::from(std::io::ErrorKind::UnexpectedEof);
    assert!(matches!(
        ReadRequestError::from(err),
        ReadRequestError::Io(_)
    ));
}

#[test]
fn versions_are_ordered() {
    assert!(HttpVersion::V1_0 < HttpVersion::V1_1);
    assert_eq!(HttpVersion::V1_1, HttpVersion::V1_1);
}

#[test]
fn status_codes() {
    assert_eq!(HttpStatusCode::Okay.code(), 200);
    assert_eq!(HttpStatusCode::Created.code(), 201);
    assert_eq!(HttpStatusCode::NoContent.code(), 202);
    assert_eq!(HttpStatusCode::MovedPermanently.code(), 301);
}
