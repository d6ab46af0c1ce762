use strix_lc_screen::frame::{decode, encode, FrameError};
use strix_lc_screen::msg::{parse_response, MsgError, Response};
use strix_lc_screen::session::{
    channel_reply, check_picture_write, connect_reply, expect_ok, find_screen, state_reply,
    DeviceEntry, Exchange, Panel, SessionError, ShowAct, ShowStage, Transfer, CHUNK, PRODUCT,
    REPORT, USAGE, USAGE_PAGE, VENDOR,
};

fn screen(interface_number: i32) -> DeviceEntry {
    DeviceEntry {
        vendor_id: VENDOR,
        product_id: PRODUCT,
        usage_page: USAGE_PAGE,
        usage: USAGE,
        interface_number,
    }
}

fn response(code: u16, body: &[u8]) -> Response {
    Response { code, headers: Vec::new(), body: body.to_vec() }
}

/// The frame of a reply that carries `ack`.
fn reply(ack: &str, body: &str) -> Vec<u8> {
    encode(format!("1 200\r\nAckNumber={ack}\r\n\r\n{body}").as_bytes())
}

/// The request in an exchange's report, as the device reads it.
fn request_text(exchange: &Exchange) -> String {
    assert_eq!(exchange.report[0], 0);
    let (frame, used) = decode(&exchange.report[1..]).unwrap();
    assert_eq!(used, exchange.report.len() - 1);
    String::from_utf8(frame.payload).unwrap()
}

#[test]
fn screen_with_the_lowest_interface_is_found() {
    let other = DeviceEntry { product_id: 1, ..screen(-5) };
    assert_eq!(find_screen(&[other, screen(2), screen(0), screen(1)]).unwrap(), 2);
    assert_eq!(find_screen(&[screen(1), screen(1)]).unwrap(), 0);
    let none = find_screen(&[
        other,
        DeviceEntry { vendor_id: 1, ..screen(0) },
        DeviceEntry { usage_page: 1, ..screen(0) },
        DeviceEntry { usage: 2, ..screen(0) },
    ])
    .unwrap_err();
    assert!(matches!(none, SessionError::NoScreen));
    assert_eq!(
        none.message(),
        "no ROG Strix LC IV screen found (USB 0B05:1DE7 interface 0)"
    );
    assert!(find_screen(&[]).is_err());
}

#[test]
fn requests_are_numbered_and_framed() {
    let mut panel = Panel::new();
    let conn = panel.connect(5);
    assert_eq!(request_text(&conn), "POST conn 1\r\nSeqNumber=0\r\nDate=5\r\n\r\n");
    let state = panel.state(6);
    assert_eq!(
        request_text(&state),
        "POST devStateGet 1\r\nSeqNumber=1\r\nDate=6\r\n\r\n"
    );
    assert_eq!(panel.seq, 2);
}

#[test]
fn bodies_are_plain_json() {
    let mut panel = Panel::new();
    let power = request_text(&panel.power("suspend", 1));
    assert_eq!(
        power,
        "POST power 1\r\nSeqNumber=0\r\nDate=1\r\nContentType=json\r\nContentLength=19\r\n\r\n{\"event\":\"suspend\"}"
    );
    let quoted = request_text(&panel.power("a\"b\\c\n\u{1}\u{7f}é", 1));
    assert!(quoted.ends_with("\r\n\r\n{\"event\":\"a\\\"b\\\\c\\n\\u0001\u{7f}é\"}"));
    let brightness = request_text(&panel.brightness(80, 1));
    assert!(brightness.starts_with("POST brightness 1\r\nSeqNumber=2\r\n"));
    assert!(brightness.ends_with("\r\n\r\n{\"value\":80}"));
    let rotation = request_text(&panel.rotate(270, 1));
    assert!(rotation.starts_with("POST rotate 1\r\nSeqNumber=3\r\n"));
    assert!(rotation.ends_with("\r\n\r\n{\"degree\":270}"));
    let channel = request_text(&panel.open_channel(1));
    assert!(channel.starts_with("POST realtimeDisplay 1\r\nSeqNumber=4\r\n"));
    assert!(channel.ends_with("\r\n\r\n{\"enable\":true}"));
}

#[test]
fn numbers_start_over() {
    let mut panel = Panel { seq: u32::MAX - 1 };
    panel.skip();
    let mut exchange = panel.connect(0);
    assert_eq!(panel.seq, 0);
    assert!(exchange.receive(&reply("0", "")).unwrap().is_some());
}

#[test]
fn showing_a_picture_wakes_the_screen_first() {
    let mut panel = Panel::new();
    let empty = panel.show_jpeg(&[], false, 0).err().unwrap();
    assert!(matches!(empty, SessionError::EmptyPicture));
    assert_eq!(empty.message(), "picture is empty");
    assert!(panel.show_jpeg(&[1], true, 0).unwrap().is_none());
    assert_eq!(panel.seq, 0);
    let wake = panel.show_jpeg(&[1], false, 7).unwrap().unwrap();
    assert!(request_text(&wake).ends_with("{\"event\":\"resume\"}"));
    assert_eq!(panel.seq, 1);
}

#[test]
fn picture_follows_an_open_channel() {
    for woken in [None, Some(response(500, b"asleep")), Some(response(200, b""))] {
        let mut panel = Panel { seq: 3 };
        let (stage, act) =
            panel.show_step(ShowStage::Waking, woken.as_ref(), &[7], Some(9), Some(2));
        assert_eq!((stage, panel.seq), (ShowStage::Opening, 4));
        let ShowAct::Ask { exchange } = act else {
            panic!("not asked");
        };
        let text = request_text(&exchange);
        assert!(text.starts_with("POST realtimeDisplay 1\r\nSeqNumber=3\r\nDate=9\r\n"));
        assert!(text.ends_with("\r\n\r\n{\"enable\":true}"));
    }
    let mut panel = Panel { seq: 3 };
    let open = response(200, b"");
    let (stage, act) = panel.show_step(ShowStage::Opening, Some(&open), &[7], Some(9), Some(2));
    assert_eq!((stage, panel.seq), (ShowStage::Sending, 3));
    assert!(matches!(act, ShowAct::Send { transfer } if transfer.jpeg == [7] && transfer.id == 2));
    let shut = response(503, b"no");
    let (stage, act) = panel.show_step(ShowStage::Opening, Some(&shut), &[7], Some(9), None);
    assert_eq!(stage, ShowStage::Failed);
    let ShowAct::Refuse { error } = act else {
        panic!("not refused");
    };
    assert_eq!(error.message(), "the screen refused the picture channel: no");
    let (stage, act) = panel.show_step(ShowStage::Opening, None, &[7], Some(9), None);
    assert_eq!(stage, ShowStage::Failed);
    assert!(matches!(act, ShowAct::GiveUp));
    let (stage, act) = panel.show_step(ShowStage::Waking, None, &[7], None, None);
    assert_eq!((stage, panel.seq), (ShowStage::Failed, 4));
    assert!(matches!(act, ShowAct::GiveUp));
    let (stage, act) = panel.show_step(ShowStage::Sending, None, &[7], None, None);
    assert_eq!(stage, ShowStage::Sending);
    assert!(matches!(act, ShowAct::GiveUp));
}

#[test]
fn reply_in_pieces() {
    let mut exchange = Panel::new().connect(0);
    let frame = reply("1", "hi");
    assert!(exchange.receive(&[]).unwrap().is_none());
    assert!(exchange.receive(&[0, frame[0]]).unwrap().is_none());
    for byte in &frame[1..frame.len() - 1] {
        assert!(exchange.receive(&[*byte]).unwrap().is_none());
    }
    let last = exchange.receive(&frame[frame.len() - 1..]).unwrap().unwrap();
    assert_eq!(last.body, b"hi");
    assert!(exchange.pending.is_empty());
    let lone = Panel::new().connect(0).receive(&[0]).unwrap_err();
    assert!(matches!(lone, SessionError::BadFrame { cause: FrameError::BadStart, .. }));
}

#[test]
fn replies_to_other_requests_are_passed_over() {
    let mut exchange = Panel::new().connect(0);
    let mut bytes = reply("9", "old");
    bytes.extend_from_slice(&reply("1", "new")[..4]);
    assert!(exchange.receive(&bytes).unwrap().is_none());
    assert_eq!(exchange.pending, &reply("1", "new")[..4]);
    let response = exchange.receive(&reply("1", "new")[4..]).unwrap().unwrap();
    assert_eq!(response.body, b"new");
}

#[test]
fn bad_replies_are_reported() {
    let mut exchange = Panel::new().connect(0);
    let error = exchange.receive(&encode(b"nonsense")).unwrap_err();
    assert!(matches!(
        &error,
        SessionError::BadReply { why: MsgError::NoTerminator, .. }
    ));
    assert_eq!(error.message(), "conn response was not a text message");
    assert_eq!(
        error.cause_message(),
        Some("response has no header terminator".to_string())
    );
    let mut other = Panel::new().state(0);
    let mut frame = reply("1", "x");
    let sum = frame.len() - 2;
    frame[sum] = if frame[sum] == 1 { 2 } else { 1 };
    let error = other.receive(&frame).unwrap_err();
    assert!(matches!(error, SessionError::BadFrame { cause: FrameError::BadChecksum { .. }, .. }));
    assert_eq!(error.message(), "devStateGet returned a bad frame");
    assert!(error.cause_message().is_some());
    let late = other.no_reply();
    assert_eq!(late.message(), "devStateGet got no matching reply within 2 seconds");
    assert_eq!(late.cause_message(), None);
}

#[test]
fn short_writes_are_reported() {
    let exchange = Panel::new().connect(0);
    let len = exchange.report.len();
    assert!(exchange.check_write(len).is_ok());
    assert!(exchange.check_write(len + 3).is_ok());
    let error = exchange.check_write(2).unwrap_err();
    assert_eq!(error.message(), format!("conn wrote 2 of {len} bytes"));
}

#[test]
fn rejected_replies() {
    assert!(expect_ok(&response(200, b"x"), "rotate").is_ok());
    let error = expect_ok(&response(503, b"busy \xff"), "rotate").unwrap_err();
    assert_eq!(
        error.message(),
        "rotate was rejected with status 503: busy \u{fffd}"
    );
    let refused = channel_reply(&response(500, b"no")).unwrap_err();
    assert_eq!(refused.message(), "the screen refused the picture channel: no");
    assert!(channel_reply(&response(200, b"")).is_ok());
    let panel = Panel::new();
    let transfer = panel.channel_opened(&response(200, b""), &[7], Some(257)).unwrap();
    assert_eq!((transfer.jpeg, transfer.id, transfer.offset), (&[7u8][..], 1, 0));
    let refused = panel.channel_opened(&response(404, b"x"), &[7], None).err().unwrap();
    assert_eq!(refused.message(), "the screen refused the picture channel: x");
}

#[test]
fn documents_out_of_replies() {
    let identity = connect_reply(&response(200, b"{\"sn\":\"A1\"}")).unwrap();
    assert_eq!(identity["sn"], "A1");
    assert!(state_reply(&response(200, b"")).unwrap().is_null());
    let error = state_reply(&response(200, b"{")).unwrap_err();
    assert!(matches!(error, SessionError::NotJson { .. }));
    assert_eq!(error.message(), "state response was not JSON");
    assert_eq!(
        error.cause_message(),
        Some("EOF while parsing an object at line 1 column 1".to_string())
    );
    assert_eq!(
        connect_reply(&response(200, b"{")).unwrap_err().message(),
        "connect response was not JSON"
    );
    assert_eq!(
        connect_reply(&response(401, b"")).unwrap_err().message(),
        "conn was rejected with status 401: "
    );
}

#[test]
fn reports_carry_the_picture() {
    let jpeg: Vec<u8> = (0..2500u32).map(|n| (n % 251) as u8).collect();
    let mut transfer = Panel::new().push_jpeg(&jpeg, Some(0x1234));
    let mut report = Vec::new();
    let mut carried = Vec::new();
    let mut index = 0u8;
    while transfer.next_report(&mut report, false) {
        assert_eq!(report.len(), REPORT);
        let len = report[2] as usize * 256 + report[3] as usize;
        assert_eq!(&report[..2], &[0x00, 0x5c]);
        assert_eq!(&report[4..10], &[0x34, 0, 3, 0, index, 1]);
        assert!(report[10..25].iter().all(|byte| *byte == 0));
        carried.extend_from_slice(&report[25..25 + len - 21]);
        assert!(report[25 + len - 21..].iter().all(|byte| *byte == 0));
        index += 1;
    }
    assert_eq!(index, 3);
    assert_eq!(carried, jpeg);
}

#[test]
fn exact_picture_report() {
    let mut transfer = Transfer::new(&[0xff, 0xd8, 0x07], None);
    let mut report = vec![9; 4];
    assert!(!transfer.next_report(&mut report, true));
    assert_eq!(report, [9; 4]);
    assert!(transfer.next_report(&mut report, false));
    let mut expected = vec![0u8; REPORT];
    expected[..10].copy_from_slice(&[0x00, 0x5c, 0, 24, 1, 0, 1, 0, 0, 1]);
    expected[25..28].copy_from_slice(&[0xff, 0xd8, 0x07]);
    assert_eq!(report, expected);
    assert!(!transfer.next_report(&mut report, false));
}

#[test]
fn block_counts() {
    assert_eq!(Transfer::new(&[], Some(1)).blocks, 1);
    assert_eq!(Transfer::new(&[0; CHUNK], Some(1)).blocks, 1);
    assert_eq!(Transfer::new(&[0; CHUNK + 1], Some(1)).blocks, 2);
    assert!(!Transfer::new(&[], Some(1)).next_report(&mut Vec::new(), false));
}

#[test]
fn picture_writes_must_be_taken() {
    assert!(check_picture_write(1).is_ok());
    assert_eq!(
        check_picture_write(0).unwrap_err().message(),
        "the pump did not accept the picture"
    );
}

#[test]
fn reports_read_back_as_requests() {
    let mut panel = Panel { seq: 41 };
    let exchange = panel.call("conn", 3, Some(b"1 200\r\n\r\n"));
    let text = request_text(&exchange);
    let body = &text[text.find("\r\n\r\n").unwrap() + 4..];
    assert_eq!(parse_response(body.as_bytes()).unwrap().code, 200);
}
