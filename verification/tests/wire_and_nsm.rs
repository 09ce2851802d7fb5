use nitro_attestation::nsm::{attestation_document, attestation_request, NsmResponse};
use nitro_attestation::wire::{decode_u64, encode_u64};

#[test]
fn encode_zero_is_eight_zero_bytes() {
    assert_eq!(encode_u64(0), vec![0u8; 8]);
}

#[test]
fn encode_is_little_endian() {
    assert_eq!(
        encode_u64(0x0102_0304_0506_0708),
        vec![0x08, 0x07, 0x06, 0x05, 0x04, 0x03, 0x02, 0x01]
    );
    assert_eq!(encode_u64(4096), vec![0, 16, 0, 0, 0, 0, 0, 0]);
}

#[test]
fn decode_reads_little_endian() {
    assert_eq!(decode_u64(&[1, 0, 0, 0, 0, 0, 0, 0]), 1);
    assert_eq!(decode_u64(&[0xff; 8]), u64::MAX);
    assert_eq!(decode_u64(&[0, 0, 0, 0, 0, 0, 0, 0x80]), 1u64 << 63);
}

#[test]
fn decode_undoes_encode() {
    for v in [0u64, 1, 255, 256, 8192, 0xdead_beef, u64::MAX - 1, u64::MAX] {
        assert_eq!(decode_u64(&encode_u64(v)), v);
    }
}

#[test]
fn server_request_carries_key_and_user_data() {
    let r = attestation_request();
    assert_eq!(r.public_key, Some(b"my super secret key".to_vec()));
    assert_eq!(r.user_data, Some(b"hello, world!".to_vec()));
    assert_eq!(r.nonce, None);
}

#[test]
fn attestation_response_gives_document() {
    let doc = vec![0xd2, 0x84, 1, 2, 3];
    assert_eq!(attestation_document(NsmResponse::Attestation(doc.clone())), Ok(doc));
}

#[test]
fn other_response_is_an_error() {
    assert_eq!(
        attestation_document(NsmResponse::Other("Error(InternalError)".to_string())),
        Err("nsm driver returned invalid response: Error(InternalError)".to_string())
    );
}
