use strix_lc_screen::frame::{decode, encode, FrameError};

fn sample(hex_str: &str) -> Vec<u8> {
    (0..hex_str.len())
        .step_by(2)
        .map(|i| u8::from_str_radix(&hex_str[i..i + 2], 16).unwrap())
        .collect()
}

const CONN: &str = "5a0035504f535420636f6e6e20310d0a5365714e756d6265723d340d0a446174653d313738393933373633343838350d0a0d0a725a";
const CONN_ESCAPED: &str = "5a0035504f535420636f6e6e20310d0a5365714e756d6265723d300d0a446174653d313739303030393936363533340d0a0d0a5b025a";
const POWER: &str = "5a006c504f535420706f77657220310d0a5365714e756d6265723d310d0a446174653d313739303030393936363839320d0a436f6e74656e74547970653d6a736f6e0d0a436f6e74656e744c656e6774683d31380d0a0d0a7b226576656e74223a22726573756d65227d0b5a";

#[test]
fn logged_frames_roundtrip() {
    for hex_str in [CONN, CONN_ESCAPED, POWER] {
        let wire = sample(hex_str);
        let (frame, used) = decode(&wire).unwrap();
        assert_eq!(used, wire.len());
        assert_eq!(encode(&frame.payload), wire);
    }
}

#[test]
fn payload_can_contain_the_end_marker() {
    let payload = b"sn=BYZL\x5a\x5b";
    let wire = encode(payload);
    assert!(wire.windows(2).any(|pair| pair == [0x5b, 0x01]));
    let (frame, used) = decode(&wire).unwrap();
    assert_eq!(used, wire.len());
    assert_eq!(frame.payload, payload);
}

#[test]
fn bytes_behind_a_frame_are_left_alone() {
    let mut wire = encode(b"abc");
    let len = wire.len();
    wire.extend_from_slice(&[0x5a, 0x00, 0x17]);
    let (frame, used) = decode(&wire).unwrap();
    assert_eq!(frame.payload, b"abc");
    assert_eq!(used, len);
    let bad: [&[u8]; 3] = [&[1], &[0x5a, 0, 0x5a], &[0x5a, 0, 6, 0x41, 0, 0x5a]];
    for front in bad {
        let longer = [front, &[0x5a, 7]].concat();
        assert_eq!(decode(&longer), decode(front));
        assert!(decode(front).is_err());
    }
}

#[test]
fn every_part_of_a_frame_is_incomplete() {
    let wire = encode(b"sn=BYZL\x5a\x5b");
    for k in 0..wire.len() {
        let error = decode(&wire[..k]).unwrap_err();
        let expected = if k > 0 && wire[k - 1] == 0x5b {
            FrameError::BadEscape
        } else {
            FrameError::Truncated
        };
        assert_eq!(error, expected);
    }
}

#[test]
fn exact_bytes_of_a_small_frame() {
    assert_eq!(encode(b"A"), [0x5a, 0x00, 0x06, 0x41, 0x47, 0x5a]);
    assert_eq!(encode(b""), [0x5a, 0x00, 0x05, 0x05, 0x5a]);
    assert_eq!(encode(&[0x5a]), [0x5a, 0x00, 0x06, 0x5b, 0x01, 0x60, 0x5a]);
}

#[test]
fn markers_stand_only_at_the_ends() {
    let payload: Vec<u8> = (0..=255u8).collect();
    let wire = encode(&payload);
    let marks: Vec<usize> = (0..wire.len()).filter(|i| wire[*i] == 0x5a).collect();
    assert_eq!(marks, [0, wire.len() - 1]);
}

#[test]
fn oversized_payload_is_refused() {
    let fits = vec![7u8; 65530];
    assert_eq!(decode(&encode(&fits)).unwrap().0.payload, fits);
    let too_long = vec![7u8; 65531];
    assert_eq!(decode(&encode(&too_long)).unwrap_err(), FrameError::BadLength);
}

#[test]
fn each_flaw_has_its_error() {
    assert_eq!(decode(&[]).unwrap_err(), FrameError::Truncated);
    assert_eq!(decode(&[0x5a, 0x00]).unwrap_err(), FrameError::Truncated);
    assert_eq!(decode(&[0x00, 0x5a]).unwrap_err(), FrameError::BadStart);
    assert_eq!(decode(&[0x5a, 0x5a]).unwrap_err(), FrameError::BadLength);
    assert_eq!(decode(&[0x5a, 0x00, 0x07, 0x41, 0x47, 0x5a]).unwrap_err(), FrameError::BadLength);
    assert_eq!(decode(&[0x5a, 0x00, 0x5b]).unwrap_err(), FrameError::BadEscape);
    assert_eq!(
        decode(&[0x5a, 0x00, 0x06, 0x41, 0x48, 0x5a]).unwrap_err(),
        FrameError::BadChecksum { expected: 0x47, actual: 0x48 }
    );
}

#[test]
fn unusual_escapes_are_read_but_not_written() {
    // 5B E8 stands for 41.
    let wire = [0x5a, 0x00, 0x06, 0x5b, 0xe8, 0x47, 0x5a];
    let (frame, used) = decode(&wire).unwrap();
    assert_eq!(frame.payload, b"A");
    assert_eq!(used, 7);
    assert_eq!(encode(&frame.payload), [0x5a, 0x00, 0x06, 0x41, 0x47, 0x5a]);
}

#[test]
fn errors_in_words() {
    assert_eq!(FrameError::Truncated.message(), "frame is incomplete");
    assert_eq!(FrameError::BadStart.message(), "frame does not start with 5A");
    assert_eq!(FrameError::BadLength.message(), "frame length does not match its header");
    assert_eq!(
        FrameError::BadChecksum { expected: 0x0a, actual: 0xff }.message(),
        "checksum was 0xff, expected 0x0a"
    );
    assert_eq!(FrameError::BadEscape.message(), "frame escape byte is incomplete");
}
