# nitro_attestation

Verified logic of a Nitro Enclaves attestation service, written in Verus.

- `src/wire.rs` — the eight-byte little-endian framing of `u64` values, with
  both round-trip laws.
- `src/transfer.rs` — sends and receives of a known number of bytes, piece by piece.
- `src/client.rs` — the client as a state machine (`client_step`): socket,
  connection with exponential back-off, request, length, document; its
  session type `ClientSession`; laws on refusals, on pieces and on bounds.
- `src/server.rs` — the enclave-side server as a state machine
  (`server_step`), which prints each command it receives, and its session
  type `ServerSession`.
- `src/nsm.rs` — the attestation request to the Nitro Secure Module and the
  reading of its response.
- `src/exchange.rs` — laws that relate client and server: the document that
  the module produced reaches the client unchanged, however the sockets cut
  the bytes into sends and reads, and whatever bytes follow it.
- `src/document.rs` — reading a PCR out of a COSE_Sign1 attestation document,
  through `aws-nitro-enclaves-cose` and `aws-nitro-enclaves-nsm-api`.
- `src/circuit.rs` — the standard PLONK table of the demonstration circuit and
  its public input,
  with the laws that it satisfies its constraint exactly when the public input
  is the witness, and the zkVM guests' output.
- `app/` — the program: vsock sockets (`nix`), the clock, the NSM driver and
  the command line (`clap`), driving the sessions of the library.
