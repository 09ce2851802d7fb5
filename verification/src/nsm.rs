//! The exchange between the enclave-side server and the Nitro Secure Module:
//! which attestation the server asks for, and how it reads the answer.
use vstd::prelude::*;

use vstd::string::{StrSliceExecFns, StringSliceAdditionalSpecFns};

use crate::messages::prefixed;

verus! {

/// An attestation request to the Nitro Secure Module: the optional fields
/// that the module copies into the attestation document it signs.
#[derive(Debug, PartialEq, Eq)]
pub struct AttestationRequest {
    /// A public key that the document's consumer may encrypt data with.
    pub public_key: Option<Vec<u8>>,
    /// Data of the requester's choosing.
    pub user_data: Option<Vec<u8>>,
    /// A nonce that proves the document's freshness.
    pub nonce: Option<Vec<u8>>,
}

/// The answer of the Nitro Secure Module, as far as the server tells answers apart.
#[derive(Debug, PartialEq, Eq)]
pub enum NsmResponse {
    /// An attestation document: a COSE_Sign1 structure around a CBOR-encoded document.
    Attestation(Vec<u8>),
    /// Any other answer, with its description.
    Other(String),
}

/// A response of the Nitro Secure Module, as the server's decisions see it.
pub enum NsmAnswer {
    /// An attestation document.
    Attestation(Seq<u8>),
    /// Any other answer, with its description.
    Other(Seq<char>),
}

impl View for NsmResponse {
    type V = NsmAnswer;

    open spec fn view(&self) -> NsmAnswer {
        match self {
            NsmResponse::Attestation(document) => NsmAnswer::Attestation(document@),
            NsmResponse::Other(description) => NsmAnswer::Other(description@),
        }
    }
}

/// The public key that the server puts into the documents it requests.
pub open spec fn requested_public_key() -> Seq<u8> {
    "my super secret key".spec_bytes()
}

/// The user data that the server puts into the documents it requests.
pub open spec fn requested_user_data() -> Seq<u8> {
    "hello, world!".spec_bytes()
}

/// Whether `r` is the request that the server makes: the fixed public key and
/// user data, and no nonce.
pub open spec fn is_server_request(r: AttestationRequest) -> bool {
    &&& r.public_key matches Some(k) && k@ == requested_public_key()
    &&& r.user_data matches Some(u) && u@ == requested_user_data()
    &&& r.nonce is None
}

/// The prefix of the error that a response other than an attestation document gives.
pub open spec fn invalid_response_error(description: Seq<char>) -> Seq<char> {
    "nsm driver returned invalid response: "@ + description
}

/// The result that the server takes from the module's response: the
/// document of an attestation response, an error for any other response.
pub open spec fn response_document(response: NsmAnswer) -> Result<Seq<u8>, Seq<char>> {
    match response {
        NsmAnswer::Attestation(document) => Ok(document),
        NsmAnswer::Other(description) => Err(invalid_response_error(description)),
    }
}

/// The request that the server sends to the Nitro Secure Module.
pub fn attestation_request() -> (r: AttestationRequest)
    ensures
        is_server_request(r),
{
    AttestationRequest {
        public_key: Some("my super secret key".as_bytes_vec()),
        user_data: Some("hello, world!".as_bytes_vec()),
        nonce: None,
    }
}

/// The attestation document in the module's `response`, or the error that
/// describes an unexpected response.
pub fn attestation_document(response: NsmResponse) -> (r: Result<Vec<u8>, String>)
    ensures
        match r {
            Ok(d) => response_document(response@) == Ok::<Seq<u8>, Seq<char>>(d@),
            Err(e) => response_document(response@) == Err::<Seq<u8>, Seq<char>>(e@),
        },
{
    match response {
        NsmResponse::Attestation(document) => Ok(document),
        NsmResponse::Other(description) => Err(
            prefixed("nsm driver returned invalid response: ", &description),
        ),
    }
}

} // verus!
