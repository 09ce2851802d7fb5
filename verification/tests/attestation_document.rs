use std::collections::BTreeMap;

use aws_nitro_enclaves_nsm_api::api::{AttestationDoc, Digest};
use nitro_attestation::document::{find_pcr, pcr0, pcr_from_payload, DocumentError};

fn cbor_bytes_header(len: usize) -> Vec<u8> {
    if len < 24 {
        vec![0x40 | len as u8]
    } else if len < 256 {
        vec![0x58, len as u8]
    } else {
        vec![0x59, (len >> 8) as u8, len as u8]
    }
}

/// A tagged COSE_Sign1 structure with an empty protected header map, no
/// unprotected headers, the given payload and an empty signature.
fn cose_sign1(payload: &[u8]) -> Vec<u8> {
    let mut out = vec![0xd2, 0x84, 0x41, 0xa0, 0xa0];
    out.extend(cbor_bytes_header(payload.len()));
    out.extend_from_slice(payload);
    out.push(0x40);
    out
}

fn attestation_payload(pcrs: &[(usize, Vec<u8>)]) -> Vec<u8> {
    let mut map = BTreeMap::new();
    for (i, v) in pcrs {
        map.insert(*i, v.clone());
    }
    AttestationDoc::new(
        "i-0123456789abcdef0-enc0123456789abcdef".to_string(),
        Digest::SHA384,
        1_700_000_000_000,
        map,
        vec![0x30, 0x82],
        vec![vec![0x30, 0x83]],
        Some(b"hello, world!".to_vec()),
        None,
        Some(b"my super secret key".to_vec()),
    )
    .to_binary()
}

#[test]
fn pcr0_is_read_from_signed_document() {
    let pcr0_value = vec![0xab; 48];
    let payload = attestation_payload(&[(0, pcr0_value.clone()), (1, vec![0x11; 48]), (2, vec![0x22; 48])]);
    assert_eq!(pcr0(&cose_sign1(&payload)), Ok(pcr0_value));
}

#[test]
fn other_pcrs_are_read_by_index() {
    let payload = attestation_payload(&[(0, vec![1; 48]), (4, vec![4; 48]), (8, vec![8; 48])]);
    assert_eq!(pcr_from_payload(&payload, 4), Ok(vec![4; 48]));
    assert_eq!(pcr_from_payload(&payload, 8), Ok(vec![8; 48]));
    assert_eq!(pcr_from_payload(&payload, 3), Err(DocumentError::MissingPcr));
}

#[test]
fn missing_pcr0_is_reported() {
    let payload = attestation_payload(&[(1, vec![0x11; 48])]);
    assert_eq!(pcr0(&cose_sign1(&payload)), Err(DocumentError::MissingPcr));
}

#[test]
fn garbage_is_not_a_cose_structure() {
    assert!(matches!(pcr0(&[0x01, 0x02, 0x03]), Err(DocumentError::CoseSign1(d)) if !d.is_empty()));
    match pcr0(&[]) {
        Err(DocumentError::CoseSign1(d)) => assert!(d.contains("SerializationError"), "{}", d),
        other => panic!("unexpected {:?}", other),
    }
}

#[test]
fn payload_that_is_no_attestation_document_is_reported() {
    assert!(matches!(pcr0(&cose_sign1(&[0x01, 0x02])), Err(DocumentError::AttestationDoc(d)) if d.starts_with("Cbor(")));
    match pcr_from_payload(&[0xa0], 0) {
        Err(DocumentError::AttestationDoc(d)) => assert!(d.starts_with("Cbor("), "{}", d),
        other => panic!("unexpected {:?}", other),
    }
}

#[test]
fn find_pcr_takes_the_matching_pair() {
    let pcrs = vec![(0usize, vec![0u8]), (2, vec![2u8]), (5, vec![5u8])];
    assert_eq!(find_pcr(&pcrs, 2), Some(vec![2u8]));
    assert_eq!(find_pcr(&pcrs, 5), Some(vec![5u8]));
    assert_eq!(find_pcr(&pcrs, 1), None);
    assert_eq!(find_pcr(&vec![], 0), None);
}
