use tenant_router::codec::{decode_envelope, encode_envelope};

#[test]
fn decode_ping_for_tenant_42() {
    let mut frame = vec![0u8, 0, 0, 0, 0, 0, 0, 42];
    frame.extend_from_slice(b"ping");
    let env = decode_envelope(&frame).expect("well-formed frame must decode");
    assert_eq!(env.tenant_id, 42);
    assert_eq!(env.payload, b"ping".to_vec());
}

#[test]
fn decode_empty_payload() {
    let frame = vec![0u8, 0, 0, 0, 0, 0, 0, 7];
    let env = decode_envelope(&frame).expect("a bare prefix is a valid envelope");
    assert_eq!(env.tenant_id, 7);
    assert!(env.payload.is_empty());
}

#[test]
fn decode_truncated_prefix_fails() {
    assert!(decode_envelope(&vec![]).is_none());
    assert!(decode_envelope(&vec![0u8, 0, 0, 0, 0, 0, 42]).is_none());
}

#[test]
fn encode_exact_bytes() {
    let payload = b"ping".to_vec();
    let frame = encode_envelope(42, &payload);
    let mut expected = vec![0u8, 0, 0, 0, 0, 0, 0, 42];
    expected.extend_from_slice(b"ping");
    assert_eq!(frame, expected);
}

#[test]
fn tenant_id_is_big_endian() {
    let frame = encode_envelope(0x0102_0304_0506_0708, &vec![]);
    assert_eq!(frame, vec![1u8, 2, 3, 4, 5, 6, 7, 8]);
}

#[test]
fn envelope_round_trip() {
    for &tenant in &[0u64, 1, 42, 0xffff_ffff, u64::MAX] {
        let payload = vec![9u8, 8, 7];
        let env = decode_envelope(&encode_envelope(tenant, &payload)).unwrap();
        assert_eq!(env.tenant_id, tenant);
        assert_eq!(env.payload, payload);
    }
}
