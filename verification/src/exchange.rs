//! What client and server achieve together: the bytes that one sends are
//! the bytes that the other reads.
use vstd::prelude::*;

use crate::client::{
    client_accepts, client_read_run, client_step, client_write_run, law_client_reads_document,
    lemma_request_written, ClientInput, ClientOutput, ClientStage, ClientState,
};
use crate::nsm::NsmAnswer;
use crate::server::{
    enter, law_server_reads_command, law_server_writes_document, server_accepts, server_read_run,
    server_step, server_write_run, ServerInput, ServerOutput, ServerStage, ServerState,
};
use crate::wire::{lemma_decode_encode, le_bytes, U64_WIRE_LEN};
use crate::{ATTESTATION_REQUEST, BUF_MAX_LEN, MAX_CONNECTION_ATTEMPTS};

verus! {

/// The bytes of a `Send` action of the client (none for another action).
pub open spec fn client_sends(o: ClientOutput) -> Seq<u8> {
    match o {
        ClientOutput::Send(bytes) => bytes,
        _ => Seq::empty(),
    }
}

/// The bytes of a `Send` action of the server (none for another action).
pub open spec fn server_sends(o: ServerOutput) -> Seq<u8> {
    match o {
        ServerOutput::Send(bytes) => bytes,
        _ => Seq::empty(),
    }
}

/// The attestation document that the Nitro Secure Module gives the server
/// reaches the client unchanged, however the sockets cut the bytes: the
/// client, once connected, sends its request in sends of any sizes; the
/// server, reading those bytes on a fresh connection in reads of any sizes,
/// prints the request and asks the module; it sends the document's length and
/// the document in sends of any sizes; and the client, reading those bytes in
/// reads of any sizes, stops with the document. Each side takes every report
/// on the way, no side reads past what the other sent for it (whatever
/// follows in the streams does not matter), and the server then waits for the
/// next connection.
pub proof fn law_document_reaches_client(
    cid: u32,
    port: u32,
    attempt: nat,
    server_port: u32,
    document: Seq<u8>,
    request_cuts: Seq<nat>,
    command_cuts: Seq<nat>,
    reply_cuts: Seq<nat>,
    read_cuts: Seq<nat>,
    request_tail: Seq<u8>,
    reply_tail: Seq<u8>,
)
    requires
        attempt < MAX_CONNECTION_ATTEMPTS,
        document.len() <= BUF_MAX_LEN,
        forall|c: int| 0 <= c < request_cuts.len() ==> #[trigger] request_cuts[c] > 0,
        forall|c: int| 0 <= c < command_cuts.len() ==> #[trigger] command_cuts[c] > 0,
        forall|c: int| 0 <= c < reply_cuts.len() ==> #[trigger] reply_cuts[c] > 0,
        forall|c: int| 0 <= c < read_cuts.len() ==> #[trigger] read_cuts[c] > 0,
        request_cuts.len() >= U64_WIRE_LEN,
        command_cuts.len() >= U64_WIRE_LEN,
        reply_cuts.len() >= U64_WIRE_LEN + document.len(),
        read_cuts.len() >= U64_WIRE_LEN + document.len(),
    ensures
        ({
            let c0 = ClientState { cid, port, stage: ClientStage::Connecting { attempt } };
            let (c1, send_request) = client_step(c0, ClientInput::Connected);
            let (c2, waiting, request, client_sent) = client_write_run(
                c1,
                client_sends(send_request),
                request_cuts,
            );
            let s0 = ServerState { port: server_port, stage: ServerStage::Accepting };
            let (s1, read_command) = server_step(s0, ServerInput::Accepted);
            let (s2, printed, _, server_read) = server_read_run(
                s1,
                U64_WIRE_LEN as nat,
                request + request_tail,
                command_cuts,
            );
            let (s3, query) = server_step(s2, ServerInput::Reported);
            let answer = ServerInput::NsmAnswered(NsmAnswer::Attestation(document));
            let (s4, header) = server_step(s3, answer);
            let (s5, after, reply, server_sent) = server_write_run(
                s4,
                server_sends(header),
                reply_cuts,
            );
            let (c3, finish, _, client_read) = client_read_run(
                c2,
                U64_WIRE_LEN as nat,
                reply + reply_tail,
                read_cuts,
            );
            &&& client_accepts(c0, ClientInput::Connected)
            &&& client_sent
            &&& waiting == ClientOutput::Receive(U64_WIRE_LEN as nat)
            &&& request == le_bytes(ATTESTATION_REQUEST)
            &&& server_accepts(s0, ServerInput::Accepted)
            &&& read_command == ServerOutput::Receive(U64_WIRE_LEN as nat)
            &&& server_read
            &&& printed == ServerOutput::Report { command: ATTESTATION_REQUEST }
            &&& server_accepts(s2, ServerInput::Reported)
            &&& query == ServerOutput::QueryNsm
            &&& server_accepts(s3, answer)
            &&& server_sent
            &&& reply == le_bytes(document.len() as u64) + document
            &&& after == ServerOutput::Accept
            &&& s5.stage is Accepting
            &&& client_read
            &&& finish == ClientOutput::Finish(Ok(document))
            &&& c3.stage is Finished
        }),
{
    let c0 = ClientState { cid, port, stage: ClientStage::Connecting { attempt } };
    let c1 = client_step(c0, ClientInput::Connected).0;
    lemma_request_written(c1, request_cuts);
    let c2 = client_write_run(c1, le_bytes(ATTESTATION_REQUEST), request_cuts).0;
    let s0 = ServerState { port: server_port, stage: ServerStage::Accepting };
    let s1 = server_step(s0, ServerInput::Accepted).0;
    law_server_reads_command(s1, ATTESTATION_REQUEST, request_tail, command_cuts);
    let s2 = enter(s1, ServerStage::Reporting { command: ATTESTATION_REQUEST });
    let s3 = server_step(s2, ServerInput::Reported).0;
    law_server_writes_document(s3, document, reply_cuts);
    law_client_reads_document(c2, document, reply_tail, read_cuts);
}

/// The server prints every command it receives; a command other than the
/// attestation request is then left alone, and the server goes back to
/// waiting for the next connection.
pub proof fn law_commands_printed_others_ignored(port: u32, command: u64)
    ensures
        ({
            let s = ServerState { port, stage: ServerStage::ReceivingCommand { received: Seq::empty() } };
            let input = ServerInput::Received(le_bytes(command));
            let (s1, printed) = server_step(s, input);
            let (s2, next) = server_step(s1, ServerInput::Reported);
            &&& server_accepts(s, input)
            &&& printed == ServerOutput::Report { command }
            &&& server_accepts(s1, ServerInput::Reported)
            &&& command != ATTESTATION_REQUEST ==> s2.stage is Accepting && next == ServerOutput::Accept
            &&& command == ATTESTATION_REQUEST ==> s2.stage is QueryingNsm && next == ServerOutput::QueryNsm
        }),
{
    lemma_decode_encode(command);
    assert(Seq::<u8>::empty() + le_bytes(command) =~= le_bytes(command));
}

} // verus!
