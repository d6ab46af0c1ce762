use strix_lc_screen::frame::{decode, encode};
use strix_lc_screen::msg::{
    parse_response, request, request_parts, request_typed, MsgError, Response,
};

fn hex(text: &str) -> Vec<u8> {
    (0..text.len())
        .step_by(2)
        .map(|index| u8::from_str_radix(&text[index..index + 2], 16).unwrap())
        .collect()
}

#[test]
fn rebuilds_the_logged_connect_request() {
    let payload = request("conn", 4, 1_789_937_634_885, None);
    let wire = encode(&payload);
    let expected = hex("5a0035504f535420636f6e6e20310d0a5365714e756d6265723d340d0a446174653d313738393933373633343838350d0a0d0a725a");
    assert_eq!(wire, expected);
}

#[test]
fn rebuilds_the_logged_power_request() {
    let payload = request("power", 1, 1_790_009_966_892, Some(br#"{"event":"resume"}"#));
    assert_eq!(encode(&payload), hex("5a006c504f535420706f77657220310d0a5365714e756d6265723d310d0a446174653d313739303030393936363839320d0a436f6e74656e74547970653d6a736f6e0d0a436f6e74656e744c656e6774683d31380d0a0d0a7b226576656e74223a22726573756d65227d0b5a"));
}

#[test]
fn parses_a_logged_state_response() {
    let wire = hex("5a00f231203230300d0a41636b4e756d6265723d330d0a436f6e74656e74547970653d6a736f6e0d0a436f6e74656e744c656e6774683d3137380d0a0d0a7b227370616365223a36353839362c226272696768746e657373223a3130302c22646567726565223a3138302c226f73645374617465223a302c226d6f6465223a302c226c6f676f223a332c2274696d656f7574223a352c22626f6f7446696e697368223a312c22646973706c6179496e536c656570223a312c227072657365745468656d654964223a302c22736c656570436c6f636b4964223a302c227761746572426c6f636b53637265656e223a317ddc5a");
    let (frame, _) = decode(&wire).unwrap();
    let response = parse_response(&frame.payload).unwrap();
    assert_eq!(response.code, 200);
    assert_eq!(response.header("AckNumber"), Some("3"));
    let json = response.json().unwrap();
    assert_eq!(json["brightness"], 100);
    assert_eq!(json["degree"], 180);
    assert_eq!(json["space"], 65896);
}

#[test]
fn request_with_a_typed_body() {
    assert_eq!(
        request_typed("put", 7, 9, "bin", Some(&[1, 2])),
        b"POST put 1\r\nSeqNumber=7\r\nDate=9\r\nContentType=bin\r\nContentLength=2\r\n\r\n\x01\x02"
    );
}

#[test]
fn request_with_headers_of_its_own() {
    let extra = [("Name", "a".to_string()), ("Index", "3".to_string())];
    assert_eq!(
        request_parts("put", 0, u128::MAX, &extra, "", Some(b"xy")),
        b"POST put 1\r\nSeqNumber=0\r\nDate=340282366920938463463374607431768211455\r\nName=a\r\nIndex=3\r\n\r\nxy"
    );
    assert_eq!(
        request_parts("put", u32::MAX, 0, &extra, "json", None),
        b"POST put 1\r\nSeqNumber=4294967295\r\nDate=0\r\nName=a\r\nIndex=3\r\n\r\n"
    );
}

#[test]
fn response_reads_back() {
    let response = parse_response(b"1 404\r\nAckNumber=12\r\nNote=a=b\r\n\r\nbody").unwrap();
    assert_eq!(
        response,
        Response {
            code: 404,
            headers: vec![
                ("AckNumber".to_string(), "12".to_string()),
                ("Note".to_string(), "a=b".to_string())
            ],
            body: b"body".to_vec(),
        }
    );
}

#[test]
fn header_names_ignore_case_and_the_first_wins() {
    let response = parse_response(b"1 200\r\nacknumber=1\r\nAckNumber=2\r\n\r\n").unwrap();
    assert_eq!(response.header("ACKNUMBER"), Some("1"));
    assert_eq!(response.header("Other"), None);
}

#[test]
fn status_line_is_read_loosely() {
    assert_eq!(parse_response(b" 1\t +0200 OK\r\n\r\n").unwrap().code, 200);
}

#[test]
fn empty_body_reads_as_null() {
    let response = parse_response(b"1 200\r\n\r\n").unwrap();
    assert_eq!(response.json().unwrap(), serde_json::Value::Null);
}

#[test]
fn body_that_is_no_json() {
    let response = parse_response(b"1 200\r\n\r\n{oops").unwrap();
    assert!(response.json().is_err());
}

#[test]
fn each_flaw_of_a_response_has_its_error() {
    let cases: [(&[u8], MsgError); 8] = [
        (b"1 200\r\n", MsgError::NoTerminator),
        (b"1 200\xff\r\n\r\n", MsgError::NotText),
        (b"  \r\n\r\n", MsgError::EmptyStatus),
        (b"2 200\r\n\r\n", MsgError::BadVersion("2".to_string())),
        (b"1 \r\n\r\n", MsgError::NoCode),
        (b"1 65536\r\n\r\n", MsgError::BadCode),
        (b"1 200\r\nplain\r\n\r\n", MsgError::BadHeader("plain".to_string())),
        (b"1 200\r\nContentLength=3\r\n\r\nab", MsgError::BadLength { length: 3, body: 2 }),
    ];
    for (payload, error) in cases {
        assert_eq!(parse_response(payload).unwrap_err(), error);
    }
}

#[test]
fn content_length_is_held_only_where_it_can_be_read() {
    assert!(parse_response(b"1 200\r\nContentLength=x\r\n\r\nab").is_ok());
    assert!(parse_response(b"1 200\r\ncontentlength=9\r\n\r\nab").is_ok());
    assert!(parse_response(b"1 200\r\nContentLength=2\r\nContentLength=9\r\n\r\nab").is_ok());
}

#[test]
fn response_errors_in_words() {
    let words = |payload: &[u8]| parse_response(payload).unwrap_err().message();
    assert_eq!(words(b""), "response has no header terminator");
    assert_eq!(words(b"\xff\r\n\r\n"), "response header is not text");
    assert_eq!(words(b"\r\n\r\n"), "response status line is empty");
    assert_eq!(words(b"11 200\r\n\r\n"), "unexpected response version 11");
    assert_eq!(words(b"1\r\n\r\n"), "response has no status code");
    assert_eq!(words(b"1 x\r\n\r\n"), "status code is not a number");
    assert_eq!(words(b"1 2\r\nab\r\n\r\n"), "bad response header ab");
    assert_eq!(
        words(b"1 2\r\nContentLength=10\r\n\r\nab"),
        "ContentLength was 10, body is 2 bytes"
    );
}
