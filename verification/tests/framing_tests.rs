use tenant_router::framing::{encode_frame, split_frame};

#[test]
fn frame_has_big_endian_length_prefix() {
    let framed = encode_frame(&b"ping".to_vec());
    assert_eq!(framed, vec![0u8, 0, 0, 4, b'p', b'i', b'n', b'g']);
}

#[test]
fn split_one_frame_and_rest() {
    let mut buf = encode_frame(&b"ping".to_vec());
    buf.extend_from_slice(&encode_frame(&b"pong".to_vec()));
    let (payload, rest) = split_frame(&buf).expect("a complete frame must split");
    assert_eq!(payload, b"ping".to_vec());
    let (payload2, rest2) = split_frame(&rest).expect("the second frame must split");
    assert_eq!(payload2, b"pong".to_vec());
    assert!(rest2.is_empty());
}

#[test]
fn truncated_length_prefix_is_incomplete() {
    assert!(split_frame(&vec![]).is_none());
    assert!(split_frame(&vec![0u8, 0]).is_none());
}

#[test]
fn truncated_payload_is_incomplete() {
    // Announces five payload bytes but carries only two.
    assert!(split_frame(&vec![0u8, 0, 0, 5, 1, 2]).is_none());
}

#[test]
fn empty_payload_frame_round_trips() {
    let buf = encode_frame(&vec![]);
    assert_eq!(buf, vec![0u8, 0, 0, 0]);
    let (payload, rest) = split_frame(&buf).unwrap();
    assert!(payload.is_empty());
    assert!(rest.is_empty());
}
