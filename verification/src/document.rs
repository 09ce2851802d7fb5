//! Reading a PCR value out of an attestation document.
//!
//! An attestation document, as the Nitro Secure Module hands it out, is a
//! COSE_Sign1 structure whose payload is the CBOR encoding of the document's
//! fields, among them the map from PCR indices to PCR values. Decoding the
//! COSE structure and the CBOR payload is left to the crates that define
//! them; picking the PCR is done here.
use vstd::prelude::*;

use aws_nitro_enclaves_cose::crypto::Openssl;
use aws_nitro_enclaves_cose::CoseSign1;
use aws_nitro_enclaves_nsm_api::api::AttestationDoc;

verus! {

/// The payload of the COSE_Sign1 structure that `CoseSign1::from_bytes`
/// decodes from `bytes`; where it refuses the bytes, the description
/// (`Debug`) of the error it gives.
pub uninterp spec fn cose_sign1_decoded_payload(bytes: Seq<u8>) -> Result<Seq<u8>, Seq<char>>;

/// The PCRs of the attestation document that `AttestationDoc::from_binary`
/// decodes from `payload`, as (index, value) pairs in ascending order of
/// index; where it refuses the payload, the description (`Debug`) of the
/// error it gives.
pub uninterp spec fn decoded_pcrs(payload: Seq<u8>) -> Result<Seq<(usize, Seq<u8>)>, Seq<char>>;

/// Calls `CoseSign1::from_bytes` and reads the payload out of the decoded
/// structure with `CoseSign1::get_payload` without a key, which checks no
/// signature and, as its source shows, always succeeds with a copy of the
/// payload field. An error is handed out as its description (`Debug`). The
/// contract claims that the result is what `cose_sign1_decoded_payload` names.
#[verifier::external_body]
fn decode_cose_sign1_payload(bytes: &[u8]) -> (r: Result<Vec<u8>, String>)
    ensures
        match r {
            Ok(payload) => cose_sign1_decoded_payload(bytes@) == Ok::<Seq<u8>, Seq<char>>(payload@),
            Err(e) => cose_sign1_decoded_payload(bytes@) == Err::<Seq<u8>, Seq<char>>(e@),
        },
{
    let sign1 = CoseSign1::from_bytes(bytes).map_err(|e| format!("{:?}", e))?;
    sign1.get_payload::<Openssl>(None).map_err(|e| format!("{:?}", e))
}

/// Calls `AttestationDoc::from_binary` on `payload` and hands out the
/// document's PCR map as (index, value) pairs; an error is handed out as its
/// description (`Debug`). The contract claims that the result is what
/// `decoded_pcrs` names, and that the pairs come in strictly ascending order
/// of index, as a `BTreeMap` yields them.
#[verifier::external_body]
fn decode_attestation_pcrs(payload: &[u8]) -> (r: Result<Vec<(usize, Vec<u8>)>, String>)
    ensures
        match r {
            Ok(pcrs) => {
                &&& decoded_pcrs(payload@) == Ok::<Seq<(usize, Seq<u8>)>, Seq<char>>(
                    pcr_pairs(pcrs@),
                )
                &&& forall|i: int, j: int|
                    0 <= i < j < pcrs@.len() ==> #[trigger] pcrs@[i].0 < #[trigger] pcrs@[j].0
            },
            Err(e) => decoded_pcrs(payload@) == Err::<Seq<(usize, Seq<u8>)>, Seq<char>>(e@),
        },
{
    let doc = AttestationDoc::from_binary(payload).map_err(|e| format!("{:?}", e))?;
    Ok(doc.pcrs.into_iter().map(|(index, value)| (index, value.into_vec())).collect())
}

/// Why no PCR value could be read from an attestation document.
#[derive(Debug, PartialEq, Eq)]
pub enum DocumentError {
    /// The bytes are not a COSE_Sign1 structure; the decoder's description of why.
    CoseSign1(String),
    /// The payload is not an attestation document; the decoder's description of why.
    AttestationDoc(String),
    /// The document holds no PCR of the index asked for.
    MissingPcr,
}

/// A `DocumentError`, its descriptions taken by their characters.
pub enum DocumentFailure {
    CoseSign1(Seq<char>),
    AttestationDoc(Seq<char>),
    MissingPcr,
}

impl View for DocumentError {
    type V = DocumentFailure;

    open spec fn view(&self) -> DocumentFailure {
        match self {
            DocumentError::CoseSign1(d) => DocumentFailure::CoseSign1(d@),
            DocumentError::AttestationDoc(d) => DocumentFailure::AttestationDoc(d@),
            DocumentError::MissingPcr => DocumentFailure::MissingPcr,
        }
    }
}

/// The (index, value) pairs of `pcrs`, each value by its bytes.
pub open spec fn pcr_pairs(pcrs: Seq<(usize, Vec<u8>)>) -> Seq<(usize, Seq<u8>)> {
    pcrs.map_values(|p: (usize, Vec<u8>)| (p.0, p.1@))
}

/// The value of the first pair of `pcrs` whose index is `index`.
pub open spec fn pcr_lookup(pcrs: Seq<(usize, Seq<u8>)>, index: usize) -> Option<Seq<u8>>
    decreases pcrs.len(),
{
    if pcrs.len() == 0 {
        None
    } else if pcrs[0].0 == index {
        Some(pcrs[0].1)
    } else {
        pcr_lookup(pcrs.drop_first(), index)
    }
}

/// The outcome of reading PCR `index` from the attestation document encoded in `payload`.
pub open spec fn pcr_outcome(payload: Seq<u8>, index: usize) -> Result<Seq<u8>, DocumentFailure> {
    match decoded_pcrs(payload) {
        Err(description) => Err(DocumentFailure::AttestationDoc(description)),
        Ok(pcrs) => match pcr_lookup(pcrs, index) {
            None => Err(DocumentFailure::MissingPcr),
            Some(value) => Ok(value),
        },
    }
}

/// A result with its bytes taken by their view.
pub open spec fn result_bytes(r: Result<Vec<u8>, DocumentError>) -> Result<Seq<u8>, DocumentFailure> {
    match r {
        Ok(v) => Ok(v@),
        Err(e) => Err(e@),
    }
}

/// `pcr_lookup` gives the value of the first pair whose index is `index`,
/// byte for byte as stored, and nothing exactly where no pair has that index.
pub proof fn law_pcr_lookup_first_match(pcrs: Seq<(usize, Seq<u8>)>, index: usize)
    ensures
        match pcr_lookup(pcrs, index) {
            Some(v) => exists|k: int|
                0 <= k < pcrs.len() && #[trigger] pcrs[k].0 == index && pcrs[k].1 == v && (forall|
                    j: int,
                | 0 <= j < k ==> pcrs[j].0 != index),
            None => forall|k: int| 0 <= k < pcrs.len() ==> #[trigger] pcrs[k].0 != index,
        },
    decreases pcrs.len(),
{
    if pcrs.len() > 0 {
        let rest = pcrs.drop_first();
        law_pcr_lookup_first_match(rest, index);
        if pcrs[0].0 == index {
            assert(pcrs[0].0 == index);
        } else {
            match pcr_lookup(rest, index) {
                Some(v) => {
                    let k = choose|k: int|
                        0 <= k < rest.len() && #[trigger] rest[k].0 == index && rest[k].1 == v && (
                        forall|j: int| 0 <= j < k ==> rest[j].0 != index);
                    assert(pcrs[k + 1] == rest[k]);
                    assert forall|j: int| 0 <= j < k + 1 implies pcrs[j].0 != index by {
                        if j > 0 {
                            assert(pcrs[j] == rest[j - 1]);
                        }
                    }
                },
                None => {
                    assert forall|k: int| 0 <= k < pcrs.len() implies #[trigger] pcrs[k].0
                        != index by {
                        if k > 0 {
                            assert(pcrs[k] == rest[k - 1]);
                        }
                    }
                },
            }
        }
    }
}

/// The value stored under `index` in `pcrs`, if any: the value of the first
/// pair with that index, byte for byte.
pub fn find_pcr(pcrs: &Vec<(usize, Vec<u8>)>, index: usize) -> (r: Option<Vec<u8>>)
    ensures
        match r {
            Some(v) => pcr_lookup(pcr_pairs(pcrs@), index) == Some(v@),
            None => pcr_lookup(pcr_pairs(pcrs@), index) is None,
        },
        match r {
            Some(v) => exists|k: int|
                0 <= k < pcrs@.len() && #[trigger] pcrs@[k].0 == index && pcrs@[k].1@ == v@ && (
                forall|j: int| 0 <= j < k ==> pcrs@[j].0 != index),
            None => forall|k: int| 0 <= k < pcrs@.len() ==> #[trigger] pcrs@[k].0 != index,
        },
{
    let ghost all = pcr_pairs(pcrs@);
    let mut i: usize = 0;
    assert(all.skip(0) =~= all);
    while i < pcrs.len()
        invariant
            i <= pcrs@.len(),
            all == pcr_pairs(pcrs@),
            pcr_lookup(all, index) == pcr_lookup(all.skip(i as int), index),
            forall|j: int| 0 <= j < i ==> #[trigger] pcrs@[j].0 != index,
        decreases pcrs@.len() - i,
    {
        let ghost rest = all.skip(i as int);
        assert(rest[0] == (pcrs@[i as int].0, pcrs@[i as int].1@));
        if pcrs[i].0 == index {
            let v = pcrs[i].1.clone();
            assert(pcrs@[i as int].0 == index && pcrs@[i as int].1@ == v@);
            return Some(v);
        }
        assert(rest.drop_first() =~= all.skip(i + 1));
        i = i + 1;
    }
    None
}

/// The value of PCR `index` in the attestation document that `payload` encodes.
pub fn pcr_from_payload(payload: &[u8], index: usize) -> (r: Result<Vec<u8>, DocumentError>)
    ensures
        result_bytes(r) == pcr_outcome(payload@, index),
{
    match decode_attestation_pcrs(payload) {
        Err(description) => Err(DocumentError::AttestationDoc(description)),
        Ok(pcrs) => match find_pcr(&pcrs, index) {
            Some(value) => Ok(value),
            None => Err(DocumentError::MissingPcr),
        },
    }
}

/// The value of PCR 0 (the enclave image's measurement) in the attestation
/// document `document`, as the Nitro Secure Module produced it: a COSE_Sign1
/// structure whose payload is the document's CBOR encoding. The signature is
/// not checked.
pub fn pcr0(document: &[u8]) -> (r: Result<Vec<u8>, DocumentError>)
    ensures
        result_bytes(r) == match cose_sign1_decoded_payload(document@) {
            Err(description) => Err(DocumentFailure::CoseSign1(description)),
            Ok(payload) => pcr_outcome(payload, 0),
        },
{
    let payload = match decode_cose_sign1_payload(document) {
        Ok(payload) => payload,
        Err(description) => return Err(DocumentError::CoseSign1(description)),
    };
    pcr_from_payload(payload.as_slice(), 0)
}

} // verus!
