//! Verified protocol logic of a Nitro Enclaves attestation service: the
//! framing and state machines of a client that asks an enclave for its
//! attestation document over vsock, of the enclave-side server that answers
//! with the document that the Nitro Secure Module produced, the extraction of
//! a PCR value from such a document, and the statements of the demonstration
//! proof circuits.
use vstd::prelude::*;

pub mod circuit;
pub mod client;
pub mod document;
pub mod exchange;
pub mod messages;
pub mod nsm;
pub mod server;
pub mod transfer;
pub mod wire;

verus! {

/// The vsock context id on which the server listens: any.
pub const VMADDR_CID_ANY: u32 = 0xFFFF_FFFF;

/// Largest attestation document that the client takes, in bytes.
pub const BUF_MAX_LEN: usize = 8192;

/// Maximum number of outstanding connections in the server socket's listen queue.
pub const BACKLOG: usize = 128;

/// Maximum number of connection attempts of the client.
pub const MAX_CONNECTION_ATTEMPTS: usize = 5;

/// The command by which a client asks the server for an attestation document.
pub const ATTESTATION_REQUEST: u64 = 0;

/// Where the server listens.
#[derive(Debug, Clone, PartialEq, Eq)]
pub struct ServerArgs {
    /// The vsock port.
    pub port: u32,
}

/// Where the client connects to.
#[derive(Debug, Clone, PartialEq, Eq)]
pub struct ClientArgs {
    /// The enclave's vsock context id.
    pub cid: u32,
    /// The vsock port.
    pub port: u32,
}

} // verus!
