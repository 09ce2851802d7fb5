//! The enclave-side server that hands out the enclave's attestation document.
//!
//! The server opens a vsock stream socket, binds it to any context id on its
//! port and listens. Then, connection after connection, it reads a command (a
//! `u64`) and prints it; on the attestation request it then asks the Nitro
//! Secure Module for a document and sends its length (a `u64`) followed by the
//! document. Any other command is ignored. The first failure ends the server with its error; it
//! never ends otherwise.
//!
//! As for the client, the decisions are a state machine, `server_step`, run
//! by `ServerSession`.
use vstd::prelude::*;

use crate::messages::prefixed;
use crate::nsm::{
    attestation_document, attestation_request, is_server_request, response_document,
    AttestationRequest, NsmAnswer, NsmResponse,
};
use crate::transfer::{Inbound, Outbound};
use crate::client::min_nat;
use crate::wire::{decode_u64, encode_u64, le_bytes, le_value, lemma_decode_encode, U64_WIRE_LEN};
use crate::{ServerArgs, ATTESTATION_REQUEST, BACKLOG, VMADDR_CID_ANY};

verus! {

/// Where the server stands.
pub enum ServerStage {
    /// About to open the listening socket.
    Opening,
    /// Binding the socket to its address.
    Binding,
    /// Making the socket listen.
    Listening,
    /// Waiting for a connection.
    Accepting,
    /// Reading a command; `received` are its bytes so far.
    ReceivingCommand { received: Seq<u8> },
    /// Printing the command received.
    Reporting { command: u64 },
    /// Waiting for the Nitro Secure Module's answer.
    QueryingNsm,
    /// Sending the document's length (`pending` is what is left of it); the document follows.
    SendingLength { pending: Seq<u8>, document: Seq<u8> },
    /// Sending the document; `pending` is what is left of it.
    SendingDocument { pending: Seq<u8> },
    /// Stopped on an error.
    Finished,
}

/// The server's state: its port and where it stands.
pub struct ServerState {
    pub port: u32,
    pub stage: ServerStage,
}

/// What the sockets or the Nitro Secure Module report to the server.
pub enum ServerInput {
    /// The socket was opened.
    SocketOpened,
    /// No socket could be opened, for the reason described.
    SocketFailed(Seq<char>),
    /// The socket is bound.
    Bound,
    /// The socket could not be bound, for the reason described.
    BindFailed(Seq<char>),
    /// The socket listens.
    Listened,
    /// The socket could not listen, for the reason described.
    ListenFailed(Seq<char>),
    /// A connection was accepted.
    Accepted,
    /// No connection could be accepted, for the reason described.
    AcceptFailed(Seq<char>),
    /// The connection took this many of the bytes offered.
    Sent(nat),
    /// The connection gave these bytes.
    Received(Seq<u8>),
    /// The send or receive call was interrupted before it moved any byte.
    Interrupted,
    /// The send or receive call failed, for the reason described.
    TransferFailed(Seq<char>),
    /// The command was printed.
    Reported,
    /// The Nitro Secure Module answered.
    NsmAnswered(NsmAnswer),
}

/// What the server does next.
pub enum ServerOutput {
    /// Open a vsock stream socket.
    OpenSocket,
    /// Bind the socket to this context id and port.
    Bind { cid: u32, port: u32 },
    /// Make the socket listen with a queue of this many connections.
    Listen { backlog: nat },
    /// Accept the next connection.
    Accept,
    /// Receive at most this many bytes from the connection.
    Receive(nat),
    /// Send these bytes on the connection.
    Send(Seq<u8>),
    /// Print the command received.
    Report { command: u64 },
    /// Ask the Nitro Secure Module for an attestation document.
    QueryNsm,
    /// Stop with this error.
    Finish(Seq<char>),
}

/// The error when no socket can be opened.
pub open spec fn create_error(detail: Seq<char>) -> Seq<char> {
    "Create socket failed: "@ + detail
}

/// The error when the socket cannot be bound.
pub open spec fn bind_error(detail: Seq<char>) -> Seq<char> {
    "Bind failed: "@ + detail
}

/// The error when the socket cannot listen.
pub open spec fn listen_error(detail: Seq<char>) -> Seq<char> {
    "Listen failed: "@ + detail
}

/// The error when no connection can be accepted.
pub open spec fn accept_error(detail: Seq<char>) -> Seq<char> {
    "Accept failed: "@ + detail
}

/// The state `s` with its stage replaced by `stage`.
pub open spec fn enter(s: ServerState, stage: ServerStage) -> ServerState {
    ServerState { port: s.port, stage }
}

/// The state and first action of a server on `port`.
pub open spec fn server_start(port: u32) -> (ServerState, ServerOutput) {
    (ServerState { port, stage: ServerStage::Opening }, ServerOutput::OpenSocket)
}

/// Whether the server in state `s` can take `input`: it is the outcome of
/// the action that the server asked for, and a connection never gives or
/// takes more bytes than asked.
pub open spec fn server_accepts(s: ServerState, input: ServerInput) -> bool {
    match s.stage {
        ServerStage::Opening => input is SocketOpened || input is SocketFailed,
        ServerStage::Binding => input is Bound || input is BindFailed,
        ServerStage::Listening => input is Listened || input is ListenFailed,
        ServerStage::Accepting => input is Accepted || input is AcceptFailed,
        ServerStage::ReceivingCommand { received } => match input {
            ServerInput::Received(chunk) => received.len() + chunk.len() <= U64_WIRE_LEN,
            ServerInput::Interrupted => true,
            ServerInput::TransferFailed(_) => true,
            _ => false,
        },
        ServerStage::Reporting { .. } => input is Reported,
        ServerStage::QueryingNsm => match input {
            ServerInput::NsmAnswered(NsmAnswer::Attestation(document)) => document.len()
                <= usize::MAX,
            ServerInput::NsmAnswered(NsmAnswer::Other(_)) => true,
            _ => false,
        },
        ServerStage::SendingLength { pending, .. } => match input {
            ServerInput::Sent(n) => n <= pending.len(),
            ServerInput::Interrupted => true,
            ServerInput::TransferFailed(_) => true,
            _ => false,
        },
        ServerStage::SendingDocument { pending } => match input {
            ServerInput::Sent(n) => n <= pending.len(),
            ServerInput::Interrupted => true,
            ServerInput::TransferFailed(_) => true,
            _ => false,
        },
        ServerStage::Finished => false,
    }
}

/// What follows once the length has been sent: the document, unless it is empty.
pub open spec fn after_length_sent(s: ServerState, document: Seq<u8>) -> (
    ServerState,
    ServerOutput,
) {
    if document.len() == 0 {
        (enter(s, ServerStage::Accepting), ServerOutput::Accept)
    } else {
        (enter(s, ServerStage::SendingDocument { pending: document }), ServerOutput::Send(document))
    }
}

/// The server's decision: the state that follows `s` on `input`, and what
/// the server does next. An input that `s` does not accept leaves it unchanged.
pub open spec fn server_step(s: ServerState, input: ServerInput) -> (ServerState, ServerOutput) {
    match s.stage {
        ServerStage::Opening => match input {
            ServerInput::SocketOpened => (
                enter(s, ServerStage::Binding),
                ServerOutput::Bind { cid: VMADDR_CID_ANY, port: s.port },
            ),
            ServerInput::SocketFailed(detail) => (
                enter(s, ServerStage::Finished),
                ServerOutput::Finish(create_error(detail)),
            ),
            _ => (s, ServerOutput::Accept),
        },
        ServerStage::Binding => match input {
            ServerInput::Bound => (
                enter(s, ServerStage::Listening),
                ServerOutput::Listen { backlog: BACKLOG as nat },
            ),
            ServerInput::BindFailed(detail) => (
                enter(s, ServerStage::Finished),
                ServerOutput::Finish(bind_error(detail)),
            ),
            _ => (s, ServerOutput::Accept),
        },
        ServerStage::Listening => match input {
            ServerInput::Listened => (enter(s, ServerStage::Accepting), ServerOutput::Accept),
            ServerInput::ListenFailed(detail) => (
                enter(s, ServerStage::Finished),
                ServerOutput::Finish(listen_error(detail)),
            ),
            _ => (s, ServerOutput::Accept),
        },
        ServerStage::Accepting => match input {
            ServerInput::Accepted => (
                enter(s, ServerStage::ReceivingCommand { received: Seq::empty() }),
                ServerOutput::Receive(U64_WIRE_LEN as nat),
            ),
            ServerInput::AcceptFailed(detail) => (
                enter(s, ServerStage::Finished),
                ServerOutput::Finish(accept_error(detail)),
            ),
            _ => (s, ServerOutput::Accept),
        },
        ServerStage::ReceivingCommand { received } => match input {
            ServerInput::Received(chunk) => {
                let got = received + chunk;
                if got.len() < U64_WIRE_LEN {
                    (
                        enter(s, ServerStage::ReceivingCommand { received: got }),
                        ServerOutput::Receive((U64_WIRE_LEN - got.len()) as nat),
                    )
                } else {
                    (
                        enter(s, ServerStage::Reporting { command: le_value(got) }),
                        ServerOutput::Report { command: le_value(got) },
                    )
                }
            },
            ServerInput::Interrupted => (
                s,
                ServerOutput::Receive((U64_WIRE_LEN - received.len()) as nat),
            ),
            ServerInput::TransferFailed(detail) => (
                enter(s, ServerStage::Finished),
                ServerOutput::Finish(detail),
            ),
            _ => (s, ServerOutput::Accept),
        },
        ServerStage::Reporting { command } => match input {
            ServerInput::Reported => if command == ATTESTATION_REQUEST {
                (enter(s, ServerStage::QueryingNsm), ServerOutput::QueryNsm)
            } else {
                (enter(s, ServerStage::Accepting), ServerOutput::Accept)
            },
            _ => (s, ServerOutput::Accept),
        },
        ServerStage::QueryingNsm => match input {
            ServerInput::NsmAnswered(answer) => match response_document(answer) {
                Ok(document) => (
                    enter(
                        s,
                        ServerStage::SendingLength {
                            pending: le_bytes(document.len() as u64),
                            document,
                        },
                    ),
                    ServerOutput::Send(le_bytes(document.len() as u64)),
                ),
                Err(error) => (enter(s, ServerStage::Finished), ServerOutput::Finish(error)),
            },
            _ => (s, ServerOutput::Accept),
        },
        ServerStage::SendingLength { pending, document } => match input {
            ServerInput::Sent(n) => {
                let rest = pending.skip(n as int);
                if rest.len() == 0 {
                    after_length_sent(s, document)
                } else {
                    (
                        enter(s, ServerStage::SendingLength { pending: rest, document }),
                        ServerOutput::Send(rest),
                    )
                }
            },
            ServerInput::Interrupted => (s, ServerOutput::Send(pending)),
            ServerInput::TransferFailed(detail) => (
                enter(s, ServerStage::Finished),
                ServerOutput::Finish(detail),
            ),
            _ => (s, ServerOutput::Accept),
        },
        ServerStage::SendingDocument { pending } => match input {
            ServerInput::Sent(n) => {
                let rest = pending.skip(n as int);
                if rest.len() == 0 {
                    (enter(s, ServerStage::Accepting), ServerOutput::Accept)
                } else {
                    (
                        enter(s, ServerStage::SendingDocument { pending: rest }),
                        ServerOutput::Send(rest),
                    )
                }
            },
            ServerInput::Interrupted => (s, ServerOutput::Send(pending)),
            ServerInput::TransferFailed(detail) => (
                enter(s, ServerStage::Finished),
                ServerOutput::Finish(detail),
            ),
            _ => (s, ServerOutput::Accept),
        },
        ServerStage::Finished => (s, ServerOutput::Accept),
    }
}

/// The states that a server can reach: a transfer in progress has bytes
/// left, and a document's length fits in a `usize`.
pub open spec fn server_wf(s: ServerState) -> bool {
    match s.stage {
        ServerStage::ReceivingCommand { received } => received.len() < U64_WIRE_LEN,
        ServerStage::SendingLength { pending, document } => {
            &&& 0 < pending.len() <= U64_WIRE_LEN
            &&& document.len() <= usize::MAX
        },
        ServerStage::SendingDocument { pending } => 0 < pending.len(),
        _ => true,
    }
}

/// Every step of a server keeps it among the states it can reach, and the
/// server only stops on an error.
pub proof fn law_server_step_wf(s: ServerState, input: ServerInput)
    requires
        server_wf(s),
        server_accepts(s, input),
    ensures
        server_wf(server_step(s, input).0),
        server_step(s, input).0.port == s.port,
        server_step(s, input).0.stage is Finished <==> server_step(s, input).1 is Finish,
{
    match s.stage {
        ServerStage::ReceivingCommand { received } => {
            if let ServerInput::Received(chunk) = input {
                assert((received + chunk).len() == received.len() + chunk.len());
            }
        },
        ServerStage::QueryingNsm => {
            if let ServerInput::NsmAnswered(answer) = input {
                if let NsmAnswer::Attestation(document) = answer {
                    crate::wire::lemma_decode_encode(document.len() as u64);
                }
            }
        },
        ServerStage::SendingLength { pending, .. } => {
            if let ServerInput::Sent(n) = input {
                assert(pending.skip(n as int).len() == pending.len() - n);
            }
        },
        ServerStage::SendingDocument { pending } => {
            if let ServerInput::Sent(n) = input {
                assert(pending.skip(n as int).len() == pending.len() - n);
            }
        },
        _ => {},
    }
}

/// A server that reads `stream` through a connection which, on its i-th
/// read, gives the next `cuts[i]` bytes of the stream, or fewer where the
/// server asked for fewer (`asked` for the first read) or the stream ends.
/// The run stops when the server does something other than read, or when the
/// reads run out. Its result: the server's state and last action, the number
/// of bytes read, and whether the server took every read.
pub open spec fn server_read_run(
    s: ServerState,
    asked: nat,
    stream: Seq<u8>,
    cuts: Seq<nat>,
) -> (ServerState, ServerOutput, nat, bool)
    decreases cuts.len(),
{
    if cuts.len() == 0 {
        (s, ServerOutput::Receive(asked), 0, true)
    } else {
        let k = min_nat(min_nat(cuts[0], asked), stream.len());
        let input = ServerInput::Received(stream.take(k as int));
        let (next, output) = server_step(s, input);
        let took = server_accepts(s, input);
        match output {
            ServerOutput::Receive(n) => {
                let (last, out, read, ok) = server_read_run(
                    next,
                    n,
                    stream.skip(k as int),
                    cuts.drop_first(),
                );
                (last, out, k + read, took && ok)
            },
            _ => (next, output, k, took),
        }
    }
}

/// A server that sends the bytes `offered` through a connection which, on
/// its i-th send, takes `cuts[i]` of the bytes offered, or all of them where
/// fewer are offered. The run stops when the server does something other
/// than send, or when the sends run out. Its result: the server's state and
/// last action, the bytes the connection took, in order, and whether the
/// server took every report.
pub open spec fn server_write_run(s: ServerState, offered: Seq<u8>, cuts: Seq<nat>) -> (
    ServerState,
    ServerOutput,
    Seq<u8>,
    bool,
)
    decreases cuts.len(),
{
    if cuts.len() == 0 {
        (s, ServerOutput::Send(offered), Seq::empty(), true)
    } else {
        let k = min_nat(cuts[0], offered.len());
        let input = ServerInput::Sent(k);
        let (next, output) = server_step(s, input);
        let took = server_accepts(s, input);
        match output {
            ServerOutput::Send(rest) => {
                let (last, out, taken, ok) = server_write_run(next, rest, cuts.drop_first());
                (last, out, offered.take(k as int) + taken, took && ok)
            },
            _ => (next, output, offered.take(k as int), took),
        }
    }
}

/// A server reading a command: `received` are the first bytes of its
/// encoding, and the stream holds the rest of it followed by any bytes.
proof fn lemma_command_read(s: ServerState, command: u64, i: nat, tail: Seq<u8>, cuts: Seq<nat>)
    requires
        server_wf(s),
        s.stage == (ServerStage::ReceivingCommand {
            received: le_bytes(command).take(i as int),
        }),
        i < U64_WIRE_LEN,
        forall|c: int| 0 <= c < cuts.len() ==> #[trigger] cuts[c] > 0,
        cuts.len() >= U64_WIRE_LEN - i,
    ensures
        server_read_run(
            s,
            (U64_WIRE_LEN - i) as nat,
            le_bytes(command).skip(i as int) + tail,
            cuts,
        ) == (
            enter(s, ServerStage::Reporting { command }),
            ServerOutput::Report { command },
            (U64_WIRE_LEN - i) as nat,
            true,
        ),
    decreases cuts.len(),
{
    let header = le_bytes(command);
    lemma_decode_encode(command);
    let stream = header.skip(i as int) + tail;
    let asked = (U64_WIRE_LEN - i) as nat;
    let k = min_nat(min_nat(cuts[0], asked), stream.len());
    let piece = stream.take(k as int);
    assert(k >= 1 && k <= asked);
    assert(piece =~= header.subrange(i as int, (i + k) as int));
    let got = header.take(i as int) + piece;
    assert(got =~= header.take((i + k) as int));
    if i + k < U64_WIRE_LEN {
        let next = enter(s, ServerStage::ReceivingCommand { received: got });
        assert(stream.skip(k as int) =~= header.skip((i + k) as int) + tail);
        assert forall|c: int| 0 <= c < cuts.drop_first().len() implies #[trigger] cuts.drop_first()[c]
            > 0 by {
            assert(cuts.drop_first()[c] == cuts[c + 1]);
        }
        lemma_command_read(next, command, (i + k) as nat, tail, cuts.drop_first());
    } else {
        assert(got =~= header);
    }
}

/// However the connection cuts the stream into reads of at least one byte, a
/// server that awaits a command reads its eight bytes, takes every read, and
/// then prints that command; the bytes that follow are not read.
pub proof fn law_server_reads_command(s: ServerState, command: u64, tail: Seq<u8>, cuts: Seq<nat>)
    requires
        s.stage == (ServerStage::ReceivingCommand { received: Seq::empty() }),
        forall|c: int| 0 <= c < cuts.len() ==> #[trigger] cuts[c] > 0,
        cuts.len() >= U64_WIRE_LEN,
    ensures
        server_read_run(s, U64_WIRE_LEN as nat, le_bytes(command) + tail, cuts) == (
            enter(s, ServerStage::Reporting { command }),
            ServerOutput::Report { command },
            U64_WIRE_LEN as nat,
            true,
        ),
{
    lemma_decode_encode(command);
    assert(le_bytes(command).take(0) =~= Seq::<u8>::empty());
    assert(le_bytes(command).skip(0) =~= le_bytes(command));
    lemma_command_read(s, command, 0, tail, cuts);
}

/// A server sending the rest `pending` of a document hands the connection
/// exactly those bytes and goes back to waiting for a connection.
proof fn lemma_document_written(s: ServerState, cuts: Seq<nat>)
    requires
        server_wf(s),
        s.stage is SendingDocument,
        forall|c: int| 0 <= c < cuts.len() ==> #[trigger] cuts[c] > 0,
        cuts.len() >= s.stage->SendingDocument_pending.len(),
    ensures
        server_write_run(s, s.stage->SendingDocument_pending, cuts) == (
            enter(s, ServerStage::Accepting),
            ServerOutput::Accept,
            s.stage->SendingDocument_pending,
            true,
        ),
    decreases cuts.len(),
{
    let p = s.stage->SendingDocument_pending;
    let k = min_nat(cuts[0], p.len());
    let rest = p.skip(k as int);
    assert(k >= 1);
    if rest.len() == 0 {
        assert(p.take(k as int) =~= p);
    } else {
        let next = enter(s, ServerStage::SendingDocument { pending: rest });
        assert forall|c: int| 0 <= c < cuts.drop_first().len() implies #[trigger] cuts.drop_first()[c]
            > 0 by {
            assert(cuts.drop_first()[c] == cuts[c + 1]);
        }
        lemma_document_written(next, cuts.drop_first());
        assert(p.take(k as int) + rest =~= p);
    }
}

/// A server sending the rest `pending` of the length hands the connection
/// exactly those bytes followed by the document, and goes back to waiting for
/// a connection.
proof fn lemma_reply_written(s: ServerState, cuts: Seq<nat>)
    requires
        server_wf(s),
        s.stage is SendingLength,
        forall|c: int| 0 <= c < cuts.len() ==> #[trigger] cuts[c] > 0,
        cuts.len() >= s.stage->SendingLength_pending.len() + s.stage->SendingLength_document.len(),
    ensures
        server_write_run(s, s.stage->SendingLength_pending, cuts) == (
            enter(s, ServerStage::Accepting),
            ServerOutput::Accept,
            s.stage->SendingLength_pending + s.stage->SendingLength_document,
            true,
        ),
    decreases cuts.len(),
{
    let p = s.stage->SendingLength_pending;
    let d = s.stage->SendingLength_document;
    let k = min_nat(cuts[0], p.len());
    let rest = p.skip(k as int);
    assert(k >= 1);
    assert forall|c: int| 0 <= c < cuts.drop_first().len() implies #[trigger] cuts.drop_first()[c]
        > 0 by {
        assert(cuts.drop_first()[c] == cuts[c + 1]);
    }
    if rest.len() == 0 {
        assert(p.take(k as int) =~= p);
        if d.len() == 0 {
            assert(p + d =~= p);
        } else {
            let next = enter(s, ServerStage::SendingDocument { pending: d });
            lemma_document_written(next, cuts.drop_first());
        }
    } else {
        let next = enter(s, ServerStage::SendingLength { pending: rest, document: d });
        lemma_reply_written(next, cuts.drop_first());
        assert(p.take(k as int) + (rest + d) =~= p + d);
    }
}

/// However the connection cuts what it takes into sends of at least one
/// byte, a server whose Nitro Secure Module answered with `document` hands
/// the connection exactly the eight bytes of the document's length followed
/// by the document, takes every report, and goes back to waiting for a
/// connection.
pub proof fn law_server_writes_document(s: ServerState, document: Seq<u8>, cuts: Seq<nat>)
    requires
        s.stage is QueryingNsm,
        document.len() <= usize::MAX,
        forall|c: int| 0 <= c < cuts.len() ==> #[trigger] cuts[c] > 0,
        cuts.len() >= U64_WIRE_LEN + document.len(),
    ensures
        ({
            let answer = ServerInput::NsmAnswered(NsmAnswer::Attestation(document));
            let (next, header) = server_step(s, answer);
            &&& server_accepts(s, answer)
            &&& header == ServerOutput::Send(le_bytes(document.len() as u64))
            &&& server_write_run(next, le_bytes(document.len() as u64), cuts) == (
                enter(s, ServerStage::Accepting),
                ServerOutput::Accept,
                le_bytes(document.len() as u64) + document,
                true,
            )
        }),
{
    lemma_decode_encode(document.len() as u64);
    let next = server_step(s, ServerInput::NsmAnswered(NsmAnswer::Attestation(document))).0;
    lemma_reply_written(next, cuts);
}

/// The server's transfers move every byte once, in order. An interrupted
/// call moves no byte: the state stays as it was and the server offers or
/// asks for exactly what is still pending. A send that the connection takes
/// in part leaves the rest of the same bytes pending; once the length is
/// sent the document follows, and once the document is sent the server waits
/// for the next connection. A failed send or receive ends the server with
/// that failure.
pub proof fn law_server_transfers_faithful(s: ServerState, input: ServerInput)
    requires
        server_wf(s),
        server_accepts(s, input),
    ensures
        input is Interrupted ==> server_step(s, input).0 == s,
        s.stage matches ServerStage::SendingLength { pending, .. } ==> (input is Interrupted
            ==> server_step(s, input).1 == ServerOutput::Send(pending)),
        s.stage matches ServerStage::SendingDocument { pending } ==> (input is Interrupted
            ==> server_step(s, input).1 == ServerOutput::Send(pending)),
        s.stage matches ServerStage::ReceivingCommand { received } ==> (input is Interrupted
            ==> server_step(s, input).1 == ServerOutput::Receive(
            (U64_WIRE_LEN - received.len()) as nat,
        )),
        s.stage matches ServerStage::SendingLength { pending, document } ==> (input matches ServerInput::Sent(
            n,
        ) ==> server_step(s, input) == if n < pending.len() {
            (
                enter(
                    s,
                    ServerStage::SendingLength { pending: pending.skip(n as int), document },
                ),
                ServerOutput::Send(pending.skip(n as int)),
            )
        } else if document.len() == 0 {
            (enter(s, ServerStage::Accepting), ServerOutput::Accept)
        } else {
            (
                enter(s, ServerStage::SendingDocument { pending: document }),
                ServerOutput::Send(document),
            )
        }),
        s.stage matches ServerStage::SendingDocument { pending } ==> (input matches ServerInput::Sent(
            n,
        ) ==> server_step(s, input) == if n < pending.len() {
            (
                enter(s, ServerStage::SendingDocument { pending: pending.skip(n as int) }),
                ServerOutput::Send(pending.skip(n as int)),
            )
        } else {
            (enter(s, ServerStage::Accepting), ServerOutput::Accept)
        }),
        input matches ServerInput::TransferFailed(detail) ==> server_step(s, input) == (
            enter(s, ServerStage::Finished),
            ServerOutput::Finish(detail),
        ),
{
}

/// What the sockets or the Nitro Secure Module report to a `ServerSession`.
#[derive(Debug, PartialEq, Eq)]
pub enum ServerEvent {
    /// The socket was opened.
    SocketOpened,
    /// No socket could be opened; the description of the error.
    SocketFailed(String),
    /// The socket is bound.
    Bound,
    /// The socket could not be bound; the description of the error.
    BindFailed(String),
    /// The socket listens.
    Listened,
    /// The socket could not listen; the description of the error.
    ListenFailed(String),
    /// A connection was accepted.
    Accepted,
    /// No connection could be accepted; the description of the error.
    AcceptFailed(String),
    /// The connection took this many of the bytes offered.
    Sent(usize),
    /// The connection gave these bytes.
    Received(Vec<u8>),
    /// The call was interrupted before it moved any byte.
    Interrupted,
    /// The send or receive call failed; the description of the error.
    TransferFailed(String),
    /// The command was printed.
    Reported,
    /// The Nitro Secure Module answered.
    NsmAnswered(NsmResponse),
}

impl View for ServerEvent {
    type V = ServerInput;

    open spec fn view(&self) -> ServerInput {
        match self {
            ServerEvent::SocketOpened => ServerInput::SocketOpened,
            ServerEvent::SocketFailed(d) => ServerInput::SocketFailed(d@),
            ServerEvent::Bound => ServerInput::Bound,
            ServerEvent::BindFailed(d) => ServerInput::BindFailed(d@),
            ServerEvent::Listened => ServerInput::Listened,
            ServerEvent::ListenFailed(d) => ServerInput::ListenFailed(d@),
            ServerEvent::Accepted => ServerInput::Accepted,
            ServerEvent::AcceptFailed(d) => ServerInput::AcceptFailed(d@),
            ServerEvent::Sent(n) => ServerInput::Sent(*n as nat),
            ServerEvent::Received(chunk) => ServerInput::Received(chunk@),
            ServerEvent::Interrupted => ServerInput::Interrupted,
            ServerEvent::TransferFailed(d) => ServerInput::TransferFailed(d@),
            ServerEvent::Reported => ServerInput::Reported,
            ServerEvent::NsmAnswered(response) => ServerInput::NsmAnswered(response@),
        }
    }
}

/// What a `ServerSession` asks its caller to do.
#[derive(Debug, PartialEq, Eq)]
pub enum ServerAction {
    /// Open a vsock stream socket.
    OpenSocket,
    /// Bind the socket to this context id and port.
    Bind { cid: u32, port: u32 },
    /// Make the socket listen with a queue of this many connections.
    Listen { backlog: usize },
    /// Accept the next connection.
    Accept,
    /// Receive at most this many bytes from the connection.
    Receive(usize),
    /// Send these bytes on the connection.
    Send(Vec<u8>),
    /// Print the command received.
    Report { command: u64 },
    /// Send this request to the Nitro Secure Module.
    QueryNsm(AttestationRequest),
    /// Stop with this error.
    Finish(String),
}

impl View for ServerAction {
    type V = ServerOutput;

    open spec fn view(&self) -> ServerOutput {
        match self {
            ServerAction::OpenSocket => ServerOutput::OpenSocket,
            ServerAction::Bind { cid, port } => ServerOutput::Bind { cid: *cid, port: *port },
            ServerAction::Listen { backlog } => ServerOutput::Listen { backlog: *backlog as nat },
            ServerAction::Accept => ServerOutput::Accept,
            ServerAction::Receive(n) => ServerOutput::Receive(*n as nat),
            ServerAction::Send(bytes) => ServerOutput::Send(bytes@),
            ServerAction::Report { command } => ServerOutput::Report { command: *command },
            ServerAction::QueryNsm(_) => ServerOutput::QueryNsm,
            ServerAction::Finish(error) => ServerOutput::Finish(error@),
        }
    }
}

enum Stage {
    Opening,
    Binding,
    Listening,
    Accepting,
    ReceivingCommand { command: Inbound },
    Reporting { command: u64 },
    QueryingNsm,
    SendingLength { header: Outbound, document: Vec<u8> },
    SendingDocument { body: Outbound },
    Finished,
}

impl View for Stage {
    type V = ServerStage;

    closed spec fn view(&self) -> ServerStage {
        match self {
            Stage::Opening => ServerStage::Opening,
            Stage::Binding => ServerStage::Binding,
            Stage::Listening => ServerStage::Listening,
            Stage::Accepting => ServerStage::Accepting,
            Stage::ReceivingCommand { command } => ServerStage::ReceivingCommand {
                received: command.received(),
            },
            Stage::Reporting { command } => ServerStage::Reporting { command: *command },
            Stage::QueryingNsm => ServerStage::QueryingNsm,
            Stage::SendingLength { header, document } => ServerStage::SendingLength {
                pending: header@,
                document: document@,
            },
            Stage::SendingDocument { body } => ServerStage::SendingDocument {
                pending: body@,
            },
            Stage::Finished => ServerStage::Finished,
        }
    }
}

/// Whether the transfers of `stage` are of the sizes that its view assumes.
spec fn stage_inv(stage: Stage) -> bool {
    match stage {
        Stage::ReceivingCommand { command } => command.total() == U64_WIRE_LEN,
        _ => true,
    }
}

/// A running server: its state, advanced by `step`.
pub struct ServerSession {
    port: u32,
    stage: Stage,
}

impl View for ServerSession {
    type V = ServerState;

    closed spec fn view(&self) -> ServerState {
        ServerState { port: self.port, stage: self.stage@ }
    }
}

/// Starts a server that accepts connections on the port that `args` names
/// and prints the data it receives: the session, and its first action.
pub fn server(args: ServerArgs) -> (r: (ServerSession, ServerAction))
    ensures
        r.0@ == server_start(args.port).0,
        r.1@ == server_start(args.port).1,
        server_wf(r.0@),
{
    (ServerSession { port: args.port, stage: Stage::Opening }, ServerAction::OpenSocket)
}

impl ServerSession {
    #[verifier::type_invariant]
    spec fn inv(self) -> bool {
        &&& server_wf(self@)
        &&& stage_inv(self.stage)
    }

    /// Whether the session has stopped.
    pub fn is_finished(&self) -> (r: bool)
        ensures
            r == (self@.stage is Finished),
    {
        match self.stage {
            Stage::Finished => true,
            _ => false,
        }
    }

    /// Whether the session can take `event` (see `server_accepts`).
    pub fn accepts(&self, event: &ServerEvent) -> (r: bool)
        ensures
            r == server_accepts(self@, event@),
    {
        proof {
            use_type_invariant(self);
        }
        match &self.stage {
            Stage::Opening => match event {
                ServerEvent::SocketOpened => true,
                ServerEvent::SocketFailed(_) => true,
                _ => false,
            },
            Stage::Binding => match event {
                ServerEvent::Bound => true,
                ServerEvent::BindFailed(_) => true,
                _ => false,
            },
            Stage::Listening => match event {
                ServerEvent::Listened => true,
                ServerEvent::ListenFailed(_) => true,
                _ => false,
            },
            Stage::Accepting => match event {
                ServerEvent::Accepted => true,
                ServerEvent::AcceptFailed(_) => true,
                _ => false,
            },
            Stage::ReceivingCommand { command } => match event {
                ServerEvent::Received(chunk) => chunk.len() <= command.remaining(),
                ServerEvent::Interrupted => true,
                ServerEvent::TransferFailed(_) => true,
                _ => false,
            },
            Stage::Reporting { .. } => match event {
                ServerEvent::Reported => true,
                _ => false,
            },
            Stage::QueryingNsm => match event {
                ServerEvent::NsmAnswered(NsmResponse::Attestation(document)) => {
                    let _n: usize = document.len();
                    true
                },
                ServerEvent::NsmAnswered(NsmResponse::Other(_)) => true,
                _ => false,
            },
            Stage::SendingLength { header, .. } => match event {
                ServerEvent::Sent(n) => *n <= header.remaining(),
                ServerEvent::Interrupted => true,
                ServerEvent::TransferFailed(_) => true,
                _ => false,
            },
            Stage::SendingDocument { body } => match event {
                ServerEvent::Sent(n) => *n <= body.remaining(),
                ServerEvent::Interrupted => true,
                ServerEvent::TransferFailed(_) => true,
                _ => false,
            },
            Stage::Finished => false,
        }
    }

    /// Advances the session by what the sockets or the module reported: the
    /// state becomes the one that `server_step` gives, and so does the action
    /// returned; a request to the module is the server's attestation request.
    pub fn step(&mut self, event: ServerEvent) -> (action: ServerAction)
        requires
            server_accepts(old(self)@, event@),
        ensures
            final(self)@ == server_step(old(self)@, event@).0,
            action@ == server_step(old(self)@, event@).1,
            action matches ServerAction::QueryNsm(request) ==> is_server_request(request),
            server_wf(final(self)@),
    {
        proof {
            use_type_invariant(&*self);
        }
        let mut stage = Stage::Finished;
        std::mem::swap(&mut stage, &mut self.stage);
        let (next, action) = advance(self.port, stage, event);
        self.stage = next;
        action
    }
}

/// The state and action that follow `stage` of a server on `port`, on `event`.
fn advance(port: u32, stage: Stage, event: ServerEvent) -> (r: (Stage, ServerAction))
    requires
        server_wf((ServerState { port, stage: stage@ })),
        stage_inv(stage),
        server_accepts((ServerState { port, stage: stage@ }), event@),
    ensures
        (ServerState { port, stage: r.0@ }) == server_step(
            (ServerState { port, stage: stage@ }),
            event@,
        ).0,
        r.1@ == server_step((ServerState { port, stage: stage@ }), event@).1,
        r.1 matches ServerAction::QueryNsm(request) ==> is_server_request(request),
        server_wf((ServerState { port, stage: r.0@ })),
        stage_inv(r.0),
{
    match stage {
        Stage::Opening => match event {
            ServerEvent::SocketOpened => (
                Stage::Binding,
                ServerAction::Bind { cid: VMADDR_CID_ANY, port },
            ),
            ServerEvent::SocketFailed(detail) => (
                Stage::Finished,
                ServerAction::Finish(prefixed("Create socket failed: ", &detail)),
            ),
            _ => (Stage::Opening, ServerAction::Accept),
        },
        Stage::Binding => match event {
            ServerEvent::Bound => (Stage::Listening, ServerAction::Listen { backlog: BACKLOG }),
            ServerEvent::BindFailed(detail) => (
                Stage::Finished,
                ServerAction::Finish(prefixed("Bind failed: ", &detail)),
            ),
            _ => (Stage::Binding, ServerAction::Accept),
        },
        Stage::Listening => match event {
            ServerEvent::Listened => (Stage::Accepting, ServerAction::Accept),
            ServerEvent::ListenFailed(detail) => (
                Stage::Finished,
                ServerAction::Finish(prefixed("Listen failed: ", &detail)),
            ),
            _ => (Stage::Listening, ServerAction::Accept),
        },
        Stage::Accepting => match event {
            ServerEvent::Accepted => (
                Stage::ReceivingCommand { command: Inbound::new(U64_WIRE_LEN) },
                ServerAction::Receive(U64_WIRE_LEN),
            ),
            ServerEvent::AcceptFailed(detail) => (
                Stage::Finished,
                ServerAction::Finish(prefixed("Accept failed: ", &detail)),
            ),
            _ => (Stage::Accepting, ServerAction::Accept),
        },
        Stage::ReceivingCommand { mut command } => match event {
            ServerEvent::Received(chunk) => {
                command.push(chunk.as_slice());
                let left: usize = command.remaining();
                if left > 0 {
                    (Stage::ReceivingCommand { command }, ServerAction::Receive(left))
                } else {
                    let bytes = command.into_bytes();
                    let command: u64 = decode_u64(bytes.as_slice());
                    (Stage::Reporting { command }, ServerAction::Report { command })
                }
            },
            ServerEvent::Interrupted => {
                let left: usize = command.remaining();
                (Stage::ReceivingCommand { command }, ServerAction::Receive(left))
            },
            ServerEvent::TransferFailed(detail) => (Stage::Finished, ServerAction::Finish(detail)),
            _ => (Stage::ReceivingCommand { command }, ServerAction::Accept),
        },
        Stage::Reporting { command } => match event {
            ServerEvent::Reported => {
                if command == ATTESTATION_REQUEST {
                    (Stage::QueryingNsm, ServerAction::QueryNsm(attestation_request()))
                } else {
                    (Stage::Accepting, ServerAction::Accept)
                }
            },
            _ => (Stage::Reporting { command }, ServerAction::Accept),
        },
        Stage::QueryingNsm => match event {
            ServerEvent::NsmAnswered(response) => match attestation_document(response) {
                Ok(document) => {
                    let len: u64 = document.len() as u64;
                    let header = Outbound::new(encode_u64(len));
                    let bytes = header.pending();
                    (Stage::SendingLength { header, document }, ServerAction::Send(bytes))
                },
                Err(error) => (Stage::Finished, ServerAction::Finish(error)),
            },
            _ => (Stage::QueryingNsm, ServerAction::Accept),
        },
        Stage::SendingLength { mut header, document } => match event {
            ServerEvent::Sent(n) => {
                header.advance(n);
                if header.remaining() > 0 {
                    let bytes = header.pending();
                    (Stage::SendingLength { header, document }, ServerAction::Send(bytes))
                } else if document.len() == 0 {
                    (Stage::Accepting, ServerAction::Accept)
                } else {
                    let body = Outbound::new(document);
                    let bytes = body.pending();
                    (Stage::SendingDocument { body }, ServerAction::Send(bytes))
                }
            },
            ServerEvent::Interrupted => {
                let bytes = header.pending();
                (Stage::SendingLength { header, document }, ServerAction::Send(bytes))
            },
            ServerEvent::TransferFailed(detail) => (Stage::Finished, ServerAction::Finish(detail)),
            _ => (Stage::SendingLength { header, document }, ServerAction::Accept),
        },
        Stage::SendingDocument { mut body } => match event {
            ServerEvent::Sent(n) => {
                body.advance(n);
                if body.remaining() > 0 {
                    let bytes = body.pending();
                    (Stage::SendingDocument { body }, ServerAction::Send(bytes))
                } else {
                    (Stage::Accepting, ServerAction::Accept)
                }
            },
            ServerEvent::Interrupted => {
                let bytes = body.pending();
                (Stage::SendingDocument { body }, ServerAction::Send(bytes))
            },
            ServerEvent::TransferFailed(detail) => (Stage::Finished, ServerAction::Finish(detail)),
            _ => (Stage::SendingDocument { body }, ServerAction::Accept),
        },
        Stage::Finished => (Stage::Finished, ServerAction::Accept),
    }
}

} // verus!
