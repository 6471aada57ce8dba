use raft::frame::{frame, payload_after, unframe, FrameError};

#[test]
fn frame_prefixes_short_payload_with_one_byte_length() {
    assert_eq!(frame(&[1, 2, 3]), vec![3, 1, 2, 3]);
}

#[test]
fn frame_of_empty_payload_is_a_zero_length() {
    assert_eq!(frame(&[]), vec![0]);
}

#[test]
fn frame_uses_a_two_byte_varint_for_300_bytes() {
    let payload = vec![7u8; 300];
    let framed = frame(&payload);
    assert_eq!(framed.len(), 302);
    assert_eq!(&framed[..2], &[0xAC, 0x02]);
    assert_eq!(&framed[2..], &payload[..]);
}

#[test]
fn unframe_inverts_frame() {
    for len in [0usize, 1, 127, 128, 300, 20000] {
        let payload: Vec<u8> = (0..len).map(|i| (i % 251) as u8).collect();
        assert_eq!(unframe(&frame(&payload)), Ok(payload));
    }
}

#[test]
fn unframe_ignores_bytes_after_the_payload() {
    assert_eq!(unframe(&[2, 9, 8, 7, 6]), Ok(vec![9, 8]));
}

#[test]
fn unframe_reports_a_short_frame() {
    assert_eq!(unframe(&[5, 1, 2]), Err(FrameError::Truncated));
}

#[test]
fn unframe_reports_an_empty_frame() {
    assert_eq!(unframe(&[]), Err(FrameError::BadLength));
}

#[test]
fn unframe_reports_an_unterminated_length() {
    assert_eq!(unframe(&[0x80, 0x80]), Err(FrameError::BadLength));
}

#[test]
fn unframe_reports_an_overlong_length() {
    assert_eq!(unframe(&[0xFF; 12]), Err(FrameError::BadLength));
}

#[test]
fn payload_after_takes_the_announced_bytes() {
    assert_eq!(payload_after(2, &[4, 5, 6]), Ok(vec![4, 5]));
    assert_eq!(payload_after(0, &[]), Ok(vec![]));
    assert_eq!(payload_after(4, &[4, 5, 6]), Err(FrameError::Truncated));
}

#[test]
fn unframe_accepts_a_padded_length_as_prost_does() {
    assert_eq!(unframe(&[0x80, 0x00, 5]), Ok(vec![]));
    assert_eq!(unframe(&[0x81, 0x80, 0x00, 7, 8]), Ok(vec![7]));
}

#[test]
fn unframe_accepts_a_tenth_byte_of_one() {
    let mut f = vec![0xFF; 9];
    f.push(0x01);
    assert_eq!(unframe(&f), Err(FrameError::Truncated));
}

#[test]
fn unframe_refuses_a_tenth_byte_above_one() {
    let mut f = vec![0xFF; 9];
    f.push(0x02);
    f.push(0);
    assert_eq!(unframe(&f), Err(FrameError::BadLength));
}

#[test]
fn unframe_refuses_ten_continuation_bytes() {
    let mut f = vec![0x80; 10];
    f.push(0);
    assert_eq!(unframe(&f), Err(FrameError::BadLength));
}

#[test]
fn unframe_reads_a_ten_byte_length_of_zero_padding() {
    let mut f = vec![0x80; 9];
    f.push(0x00);
    f.push(42);
    assert_eq!(unframe(&f), Ok(vec![]));
}
