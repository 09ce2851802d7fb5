//! The client that asks an enclave for its attestation document.
//!
//! The client opens a vsock stream socket and connects to the enclave; a
//! refused connection is retried after an exponentially growing pause, at most
//! `MAX_CONNECTION_ATTEMPTS` times in all. Once connected it sends the
//! attestation request (a `u64`), reads the length of the document (a `u64`)
//! and then the document itself, which may be at most `BUF_MAX_LEN` bytes long.
//!
//! The decisions are a state machine: `client_step` says, for the state and
//! what the socket or the clock reported, which state follows and what the
//! client does next. `ClientSession` runs it; the caller performs each action
//! and reports its outcome.
use vstd::prelude::*;

use crate::messages::prefixed;
use crate::transfer::{Inbound, Outbound};
use crate::wire::{decode_u64, encode_u64, le_bytes, le_value, lemma_decode_encode, U64_WIRE_LEN};
use crate::{ClientArgs, ATTESTATION_REQUEST, BUF_MAX_LEN, MAX_CONNECTION_ATTEMPTS};

verus! {

/// Where the client stands.
pub enum ClientStage {
    /// About to open the socket for connection attempt `attempt` (counted from 0).
    Opening { attempt: nat },
    /// Connecting the socket of attempt `attempt`.
    Connecting { attempt: nat },
    /// Pausing after attempt `attempt` was refused with `error`.
    BackingOff { attempt: nat, error: Seq<char> },
    /// Sending the request; `pending` is what is left of it.
    SendingRequest { pending: Seq<u8> },
    /// Reading the document's length; `received` are its bytes so far.
    ReceivingLength { received: Seq<u8> },
    /// Reading the `expected` bytes of the document; `received` are those so far.
    ReceivingDocument { expected: nat, received: Seq<u8> },
    /// Done: the result has been handed out.
    Finished,
}

/// The client's state: the enclave it talks to and where it stands.
pub struct ClientState {
    pub cid: u32,
    pub port: u32,
    pub stage: ClientStage,
}

/// What the socket or the clock reports to the client.
pub enum ClientInput {
    /// A socket was opened.
    SocketOpened,
    /// No socket could be opened, for the reason described.
    SocketFailed(Seq<char>),
    /// The socket is connected.
    Connected,
    /// The connection was refused, for the reason described.
    ConnectFailed(Seq<char>),
    /// The pause is over.
    Slept,
    /// The socket took this many of the bytes offered.
    Sent(nat),
    /// The socket gave these bytes.
    Received(Seq<u8>),
    /// The send or receive call was interrupted before it moved any byte.
    Interrupted,
    /// The send or receive call failed, for the reason described.
    TransferFailed(Seq<char>),
}

/// What the client does next.
pub enum ClientOutput {
    /// Open a vsock stream socket.
    OpenSocket,
    /// Connect the socket to the enclave.
    Connect { cid: u32, port: u32 },
    /// Pause for this many seconds.
    Sleep { seconds: nat },
    /// Send these bytes.
    Send(Seq<u8>),
    /// Receive at most this many bytes.
    Receive(nat),
    /// Stop, with the attestation document or an error.
    Finish(Result<Seq<u8>, Seq<char>>),
}

/// The pause, in seconds, after the refused attempt `attempt`: 2 to the power `attempt`.
pub open spec fn backoff_seconds(attempt: nat) -> nat
    decreases attempt,
{
    if attempt == 0 {
        1
    } else {
        2 * backoff_seconds((attempt - 1) as nat)
    }
}

/// The error when no socket can be opened.
pub open spec fn socket_error(detail: Seq<char>) -> Seq<char> {
    "Failed to create the socket: "@ + detail
}

/// The error when a connection is refused.
pub open spec fn connect_error(detail: Seq<char>) -> Seq<char> {
    "Failed to connect: "@ + detail
}

/// The error when the announced length does not fit in a `usize`.
pub open spec fn length_conversion_error() -> Seq<char> {
    "TryFromIntError(())"@
}

/// The state `s` with its stage replaced by `stage`.
pub open spec fn enter(s: ClientState, stage: ClientStage) -> ClientState {
    ClientState { cid: s.cid, port: s.port, stage }
}

/// The state and first action of a client of enclave `cid` on `port`.
pub open spec fn client_start(cid: u32, port: u32) -> (ClientState, ClientOutput) {
    (
        ClientState { cid, port, stage: ClientStage::Opening { attempt: 0 } },
        ClientOutput::OpenSocket,
    )
}

/// Whether the eight bytes `header` announce a document that the client can
/// read. A length that does not fit in a `usize` is refused with an error; any
/// other length must fit in the client's buffer.
pub open spec fn announced_length_fits(header: Seq<u8>) -> bool {
    le_value(header) > usize::MAX || le_value(header) <= BUF_MAX_LEN
}

/// Whether the client in state `s` can take `input`: it is the outcome of the
/// action that the client asked for, a socket never gives or takes more
/// bytes than asked, and the announced length of the document fits the client's buffer.
pub open spec fn client_accepts(s: ClientState, input: ClientInput) -> bool {
    match s.stage {
        ClientStage::Opening { .. } => input is SocketOpened || input is SocketFailed,
        ClientStage::Connecting { .. } => input is Connected || input is ConnectFailed,
        ClientStage::BackingOff { .. } => input is Slept,
        ClientStage::SendingRequest { pending } => match input {
            ClientInput::Sent(n) => n <= pending.len(),
            ClientInput::Interrupted => true,
            ClientInput::TransferFailed(_) => true,
            _ => false,
        },
        ClientStage::ReceivingLength { received } => match input {
            ClientInput::Received(chunk) => {
                &&& received.len() + chunk.len() <= U64_WIRE_LEN
                &&& received.len() + chunk.len() == U64_WIRE_LEN ==> announced_length_fits(
                    received + chunk,
                )
            },
            ClientInput::Interrupted => true,
            ClientInput::TransferFailed(_) => true,
            _ => false,
        },
        ClientStage::ReceivingDocument { expected, received } => match input {
            ClientInput::Received(chunk) => received.len() + chunk.len() <= expected,
            ClientInput::Interrupted => true,
            ClientInput::TransferFailed(_) => true,
            _ => false,
        },
        ClientStage::Finished => false,
    }
}

/// What follows once the eight bytes `header` of the length have arrived.
pub open spec fn after_length(s: ClientState, header: Seq<u8>) -> (ClientState, ClientOutput) {
    let n = le_value(header);
    if n > usize::MAX {
        (
            enter(s, ClientStage::Finished),
            ClientOutput::Finish(Err(length_conversion_error())),
        )
    } else if n == 0 {
        (enter(s, ClientStage::Finished), ClientOutput::Finish(Ok(Seq::empty())))
    } else {
        (
            enter(s, ClientStage::ReceivingDocument { expected: n as nat, received: Seq::empty() }),
            ClientOutput::Receive(n as nat),
        )
    }
}

/// The client's decision: the state that follows `s` on `input`, and what
/// the client does next. An input that `s` does not accept leaves it unchanged.
pub open spec fn client_step(s: ClientState, input: ClientInput) -> (ClientState, ClientOutput) {
    match s.stage {
        ClientStage::Opening { attempt } => match input {
            ClientInput::SocketOpened => (
                enter(s, ClientStage::Connecting { attempt }),
                ClientOutput::Connect { cid: s.cid, port: s.port },
            ),
            ClientInput::SocketFailed(detail) => (
                enter(s, ClientStage::Finished),
                ClientOutput::Finish(Err(socket_error(detail))),
            ),
            _ => (s, ClientOutput::OpenSocket),
        },
        ClientStage::Connecting { attempt } => match input {
            ClientInput::Connected => (
                enter(s, ClientStage::SendingRequest { pending: le_bytes(ATTESTATION_REQUEST) }),
                ClientOutput::Send(le_bytes(ATTESTATION_REQUEST)),
            ),
            ClientInput::ConnectFailed(detail) => (
                enter(s, ClientStage::BackingOff { attempt, error: connect_error(detail) }),
                ClientOutput::Sleep { seconds: backoff_seconds(attempt) },
            ),
            _ => (s, ClientOutput::OpenSocket),
        },
        ClientStage::BackingOff { attempt, error } => match input {
            ClientInput::Slept => if attempt + 1 < MAX_CONNECTION_ATTEMPTS {
                (enter(s, ClientStage::Opening { attempt: attempt + 1 }), ClientOutput::OpenSocket)
            } else {
                (enter(s, ClientStage::Finished), ClientOutput::Finish(Err(error)))
            },
            _ => (s, ClientOutput::OpenSocket),
        },
        ClientStage::SendingRequest { pending } => match input {
            ClientInput::Sent(n) => {
                let rest = pending.skip(n as int);
                if rest.len() == 0 {
                    (
                        enter(s, ClientStage::ReceivingLength { received: Seq::empty() }),
                        ClientOutput::Receive(U64_WIRE_LEN as nat),
                    )
                } else {
                    (
                        enter(s, ClientStage::SendingRequest { pending: rest }),
                        ClientOutput::Send(rest),
                    )
                }
            },
            ClientInput::Interrupted => (s, ClientOutput::Send(pending)),
            ClientInput::TransferFailed(detail) => (
                enter(s, ClientStage::Finished),
                ClientOutput::Finish(Err(detail)),
            ),
            _ => (s, ClientOutput::OpenSocket),
        },
        ClientStage::ReceivingLength { received } => match input {
            ClientInput::Received(chunk) => {
                let got = received + chunk;
                if got.len() < U64_WIRE_LEN {
                    (
                        enter(s, ClientStage::ReceivingLength { received: got }),
                        ClientOutput::Receive((U64_WIRE_LEN - got.len()) as nat),
                    )
                } else {
                    after_length(s, got)
                }
            },
            ClientInput::Interrupted => (
                s,
                ClientOutput::Receive((U64_WIRE_LEN - received.len()) as nat),
            ),
            ClientInput::TransferFailed(detail) => (
                enter(s, ClientStage::Finished),
                ClientOutput::Finish(Err(detail)),
            ),
            _ => (s, ClientOutput::OpenSocket),
        },
        ClientStage::ReceivingDocument { expected, received } => match input {
            ClientInput::Received(chunk) => {
                let got = received + chunk;
                if got.len() == expected {
                    (enter(s, ClientStage::Finished), ClientOutput::Finish(Ok(got)))
                } else {
                    (
                        enter(s, ClientStage::ReceivingDocument { expected, received: got }),
                        ClientOutput::Receive((expected - got.len()) as nat),
                    )
                }
            },
            ClientInput::Interrupted => (
                s,
                ClientOutput::Receive((expected - received.len()) as nat),
            ),
            ClientInput::TransferFailed(detail) => (
                enter(s, ClientStage::Finished),
                ClientOutput::Finish(Err(detail)),
            ),
            _ => (s, ClientOutput::OpenSocket),
        },
        ClientStage::Finished => (s, ClientOutput::OpenSocket),
    }
}

/// The states that a client can reach: attempts are counted below the
/// maximum, a transfer in progress has bytes left, and an awaited document
/// fits the client's buffer.
pub open spec fn client_wf(s: ClientState) -> bool {
    match s.stage {
        ClientStage::Opening { attempt } => attempt < MAX_CONNECTION_ATTEMPTS,
        ClientStage::Connecting { attempt } => attempt < MAX_CONNECTION_ATTEMPTS,
        ClientStage::BackingOff { attempt, .. } => attempt < MAX_CONNECTION_ATTEMPTS,
        ClientStage::SendingRequest { pending } => 0 < pending.len() <= U64_WIRE_LEN,
        ClientStage::ReceivingLength { received } => received.len() < U64_WIRE_LEN,
        ClientStage::ReceivingDocument { expected, received } => {
            &&& 0 < expected <= BUF_MAX_LEN
            &&& received.len() < expected
        },
        ClientStage::Finished => true,
    }
}

/// The state and the actions of a client that starts in `s` and takes `inputs` in order.
pub open spec fn client_run(s: ClientState, inputs: Seq<ClientInput>) -> (
    ClientState,
    Seq<ClientOutput>,
)
    decreases inputs.len(),
{
    if inputs.len() == 0 {
        (s, Seq::empty())
    } else {
        let (next, output) = client_step(s, inputs[0]);
        let (last, outputs) = client_run(next, inputs.drop_first());
        (last, seq![output] + outputs)
    }
}

/// Whether a client that starts in `s` can take every one of `inputs` in turn.
pub open spec fn client_run_accepted(s: ClientState, inputs: Seq<ClientInput>) -> bool
    decreases inputs.len(),
{
    inputs.len() == 0 || (client_accepts(s, inputs[0]) && client_run_accepted(
        client_step(s, inputs[0]).0,
        inputs.drop_first(),
    ))
}

/// What the clock and a socket report when every connection is refused:
/// for each refusal, a socket opens, the connection fails with its
/// description, and the pause ends.
pub open spec fn refusals(details: Seq<Seq<char>>) -> Seq<ClientInput>
    decreases details.len(),
{
    if details.len() == 0 {
        Seq::empty()
    } else {
        seq![
            ClientInput::SocketOpened,
            ClientInput::ConnectFailed(details[0]),
            ClientInput::Slept,
        ] + refusals(details.drop_first())
    }
}

/// What a client does on `refusals(details)` from attempt `attempt` on: it
/// connects, pauses for 2 to the power of the attempt, and opens the next
/// socket, except after the last attempt, where it stops with the last refusal.
pub open spec fn refusal_outputs(cid: u32, port: u32, attempt: nat, details: Seq<Seq<char>>) -> Seq<
    ClientOutput,
>
    decreases details.len(),
{
    if details.len() == 0 {
        Seq::empty()
    } else {
        seq![
            ClientOutput::Connect { cid, port },
            ClientOutput::Sleep { seconds: backoff_seconds(attempt) },
            if attempt + 1 < MAX_CONNECTION_ATTEMPTS {
                ClientOutput::OpenSocket
            } else {
                ClientOutput::Finish(Err(connect_error(details[0])))
            },
        ] + refusal_outputs(cid, port, attempt + 1, details.drop_first())
    }
}

/// Running a client on `xs` and then on `ys` is running it on `xs + ys`.
pub proof fn lemma_client_run_append(s: ClientState, xs: Seq<ClientInput>, ys: Seq<ClientInput>)
    ensures
        client_run(s, xs + ys) == ({
            let (mid, first) = client_run(s, xs);
            let (last, second) = client_run(mid, ys);
            (last, first + second)
        }),
        client_run_accepted(s, xs + ys) == (client_run_accepted(s, xs) && client_run_accepted(
            client_run(s, xs).0,
            ys,
        )),
    decreases xs.len(),
{
    if xs.len() == 0 {
        assert(xs + ys =~= ys);
        assert(client_run(s, xs).1 + client_run(s, ys).1 =~= client_run(s, ys).1);
    } else {
        assert((xs + ys).drop_first() =~= xs.drop_first() + ys);
        lemma_client_run_append(client_step(s, xs[0]).0, xs.drop_first(), ys);
        let (next, output) = client_step(s, xs[0]);
        let (mid, first) = client_run(next, xs.drop_first());
        let (last, second) = client_run(mid, ys);
        assert(seq![output] + (first + second) =~= (seq![output] + first) + second);
    }
}

/// A client whose connections are all refused tries `MAX_CONNECTION_ATTEMPTS`
/// times, pausing 1, 2, 4, 8 and 16 seconds after the refusals, and then
/// stops with the error of the last refusal; it takes every report on the way.
pub proof fn law_client_gives_up_after_refusals(cid: u32, port: u32, details: Seq<Seq<char>>)
    requires
        details.len() == MAX_CONNECTION_ATTEMPTS,
    ensures
        client_run(client_start(cid, port).0, refusals(details)) == (
            enter(client_start(cid, port).0, ClientStage::Finished),
            refusal_outputs(cid, port, 0, details),
        ),
        client_run_accepted(client_start(cid, port).0, refusals(details)),
{
    lemma_refusals_from(cid, port, 0, details);
}

proof fn lemma_refusals_from(cid: u32, port: u32, attempt: nat, details: Seq<Seq<char>>)
    requires
        details.len() > 0,
        attempt + details.len() == MAX_CONNECTION_ATTEMPTS,
    ensures
        client_run(
            ClientState { cid, port, stage: ClientStage::Opening { attempt } },
            refusals(details),
        ) == (
            ClientState { cid, port, stage: ClientStage::Finished },
            refusal_outputs(cid, port, attempt, details),
        ),
        client_run_accepted(
            ClientState { cid, port, stage: ClientStage::Opening { attempt } },
            refusals(details),
        ),
    decreases details.len(),
{
    let s = ClientState { cid, port, stage: ClientStage::Opening { attempt } };
    let head = seq![
        ClientInput::SocketOpened,
        ClientInput::ConnectFailed(details[0]),
        ClientInput::Slept,
    ];
    let tail = refusals(details.drop_first());
    assert(refusals(details) == head + tail);
    lemma_client_run_append(s, head, tail);
    let s1 = enter(s, ClientStage::Connecting { attempt });
    let s2 = enter(s, ClientStage::BackingOff { attempt, error: connect_error(details[0]) });
    let (s3, o2) = client_step(s2, ClientInput::Slept);
    assert(client_step(s, head[0]) == (s1, ClientOutput::Connect { cid, port }));
    assert(client_step(s1, head[1]) == (
        s2,
        ClientOutput::Sleep { seconds: backoff_seconds(attempt) },
    ));
    assert(head.drop_first() =~= seq![head[1], head[2]]);
    assert(head.drop_first().drop_first() =~= seq![head[2]]);
    assert(head.drop_first().drop_first().drop_first() =~= Seq::<ClientInput>::empty());
    assert(seq![head[2]].drop_first() =~= Seq::<ClientInput>::empty());
    assert(client_run(s3, Seq::<ClientInput>::empty()) == (s3, Seq::<ClientOutput>::empty()));
    assert(client_run_accepted(s3, Seq::<ClientInput>::empty()));
    assert(client_run(s2, seq![head[2]]).0 == s3);
    assert(client_run(s2, seq![head[2]]).1 =~= seq![o2]);
    assert(client_run_accepted(s2, seq![head[2]]));
    assert(client_run_accepted(s1, head.drop_first()));
    assert(client_run(s1, head.drop_first()).0 == s3);
    assert(client_run(s1, head.drop_first()).1 =~= seq![
        ClientOutput::Sleep { seconds: backoff_seconds(attempt) },
        o2,
    ]);
    let (mid, first) = client_run(s, head);
    assert(mid == s3);
    assert(first =~= seq![
        ClientOutput::Connect { cid, port },
        ClientOutput::Sleep { seconds: backoff_seconds(attempt) },
        o2,
    ]);
    assert(client_run_accepted(s, head));
    if details.len() == 1 {
        assert(details.drop_first().len() == 0);
        assert(tail =~= Seq::<ClientInput>::empty());
        assert(refusal_outputs(cid, port, attempt + 1, details.drop_first()) =~= Seq::<
            ClientOutput,
        >::empty());
        assert(first + client_run(mid, tail).1 =~= first);
    } else {
        lemma_refusals_from(cid, port, attempt + 1, details.drop_first());
    }
}

/// The pause doubles from one second with every refused attempt: 1, 2, 4, 8
/// and 16 seconds after the five attempts.
pub proof fn law_backoff_doubles(attempt: nat)
    ensures
        backoff_seconds(0) == 1,
        backoff_seconds(attempt + 1) == 2 * backoff_seconds(attempt),
        backoff_seconds(1) == 2 && backoff_seconds(2) == 4 && backoff_seconds(3) == 8
            && backoff_seconds(4) == 16,
{
    reveal_with_fuel(backoff_seconds, 5);
}

/// The pause after a refused attempt is at most 16 seconds.
pub proof fn lemma_backoff_bounded(attempt: nat)
    requires
        attempt < MAX_CONNECTION_ATTEMPTS,
    ensures
        1 <= backoff_seconds(attempt) <= 16,
{
    reveal_with_fuel(backoff_seconds, 5);
}

/// Every step of a client keeps it among the states it can reach; it never
/// asks for more bytes than the largest document it takes, never pauses longer
/// than 16 seconds, and never hands out a document longer than its buffer.
pub proof fn law_client_step_bounded(s: ClientState, input: ClientInput)
    requires
        client_wf(s),
        client_accepts(s, input),
    ensures
        client_wf(client_step(s, input).0),
        client_step(s, input).1 matches ClientOutput::Receive(n) ==> 0 < n <= BUF_MAX_LEN,
        client_step(s, input).1 matches ClientOutput::Sleep { seconds } ==> 1 <= seconds <= 16,
        client_step(s, input).1 matches ClientOutput::Finish(Ok(document)) ==> document.len()
            <= BUF_MAX_LEN,
        client_step(s, input).0.cid == s.cid && client_step(s, input).0.port == s.port,
{
    match s.stage {
        ClientStage::Connecting { attempt } => lemma_backoff_bounded(attempt),
        ClientStage::SendingRequest { pending } => {
            if let ClientInput::Sent(n) = input {
                assert(pending.skip(n as int).len() == pending.len() - n);
            }
        },
        ClientStage::ReceivingLength { received } => {
            if let ClientInput::Received(chunk) = input {
                assert((received + chunk).len() == received.len() + chunk.len());
            }
        },
        ClientStage::ReceivingDocument { expected, received } => {
            if let ClientInput::Received(chunk) = input {
                assert((received + chunk).len() == received.len() + chunk.len());
            }
        },
        _ => {},
    }
}

/// The reports of a socket that gives the pieces `chunks`, in order.
pub open spec fn received_pieces(chunks: Seq<Seq<u8>>) -> Seq<ClientInput> {
    chunks.map_values(|c: Seq<u8>| ClientInput::Received(c))
}

/// However the socket cuts the document into non-empty pieces, a client that
/// awaits it takes every piece and stops with exactly the bytes announced:
/// those received before followed by the pieces in order.
pub proof fn law_document_pieces(s: ClientState, chunks: Seq<Seq<u8>>)
    requires
        client_wf(s),
        s.stage is ReceivingDocument,
        chunks.len() > 0,
        forall|i: int| 0 <= i < chunks.len() ==> #[trigger] chunks[i].len() > 0,
        s.stage->ReceivingDocument_received.len() + chunks.flatten().len() == s.stage->ReceivingDocument_expected,
    ensures
        client_run(s, received_pieces(chunks)).0 == enter(s, ClientStage::Finished),
        client_run(s, received_pieces(chunks)).1.last() == ClientOutput::Finish(
            Ok(s.stage->ReceivingDocument_received + chunks.flatten()),
        ),
        client_run_accepted(s, received_pieces(chunks)),
    decreases chunks.len(),
{
    let inputs = received_pieces(chunks);
    let expected = s.stage->ReceivingDocument_expected;
    let received = s.stage->ReceivingDocument_received;
    let got = received + chunks[0];
    assert(inputs[0] == ClientInput::Received(chunks[0]));
    assert(inputs.drop_first() =~= received_pieces(chunks.drop_first()));
    assert(chunks.flatten() == chunks[0] + chunks.drop_first().flatten());
    if chunks.len() == 1 {
        assert(chunks.drop_first().flatten() =~= Seq::<u8>::empty());
        assert(got =~= received + chunks.flatten());
        assert(inputs.drop_first() =~= Seq::<ClientInput>::empty());
        let last = enter(s, ClientStage::Finished);
        let done = ClientOutput::Finish(Ok(got));
        assert(client_step(s, inputs[0]) == (last, done));
        assert(client_run(last, inputs.drop_first()) == (last, Seq::<ClientOutput>::empty()));
        assert(client_run_accepted(last, inputs.drop_first()));
        assert(client_run(s, inputs).1 =~= seq![done]);
    } else {
        let rest = chunks.drop_first();
        assert(rest[0].len() > 0);
        assert(rest.flatten() == rest[0] + rest.drop_first().flatten());
        let next = enter(s, ClientStage::ReceivingDocument { expected, received: got });
        assert(client_step(s, inputs[0]).0 == next);
        law_document_pieces(next, rest);
        assert(got + rest.flatten() =~= received + chunks.flatten());
        let tail = client_run(next, inputs.drop_first()).1;
        assert((seq![client_step(s, inputs[0]).1] + tail).last() == tail.last());
    }
}

/// The smaller of `a` and `b`.
pub open spec fn min_nat(a: nat, b: nat) -> nat {
    if a < b {
        a
    } else {
        b
    }
}

/// A client that reads `stream` through a socket which, on its i-th read,
/// gives the next `cuts[i]` bytes of the stream, or fewer where the client
/// asked for fewer (`asked` for the first read) or the stream ends. The run
/// stops when the client asks for something other than a read, or when the
/// reads run out. Its result: the client's state and last action, the number
/// of bytes read, and whether the client took every read.
pub open spec fn client_read_run(
    s: ClientState,
    asked: nat,
    stream: Seq<u8>,
    cuts: Seq<nat>,
) -> (ClientState, ClientOutput, nat, bool)
    decreases cuts.len(),
{
    if cuts.len() == 0 {
        (s, ClientOutput::Receive(asked), 0, true)
    } else {
        let k = min_nat(min_nat(cuts[0], asked), stream.len());
        let input = ClientInput::Received(stream.take(k as int));
        let (next, output) = client_step(s, input);
        let took = client_accepts(s, input);
        match output {
            ClientOutput::Receive(n) => {
                let (last, out, read, ok) = client_read_run(
                    next,
                    n,
                    stream.skip(k as int),
                    cuts.drop_first(),
                );
                (last, out, k + read, took && ok)
            },
            _ => (next, output, k, took),
        }
    }
}

/// A client that sends the bytes `offered` through a socket which, on its
/// i-th send, takes `cuts[i]` of the bytes offered, or all of them where fewer
/// are offered. The run stops when the client does something other than
/// send, or when the sends run out. Its result: the client's state and last
/// action, the bytes the socket took, in order, and whether the client took
/// every report.
pub open spec fn client_write_run(s: ClientState, offered: Seq<u8>, cuts: Seq<nat>) -> (
    ClientState,
    ClientOutput,
    Seq<u8>,
    bool,
)
    decreases cuts.len(),
{
    if cuts.len() == 0 {
        (s, ClientOutput::Send(offered), Seq::empty(), true)
    } else {
        let k = min_nat(cuts[0], offered.len());
        let input = ClientInput::Sent(k);
        let (next, output) = client_step(s, input);
        let took = client_accepts(s, input);
        match output {
            ClientOutput::Send(rest) => {
                let (last, out, taken, ok) = client_write_run(next, rest, cuts.drop_first());
                (last, out, offered.take(k as int) + taken, took && ok)
            },
            _ => (next, output, offered.take(k as int), took),
        }
    }
}

/// A client sending its request, through a socket that takes at least one
/// byte at a time, hands the socket exactly the bytes pending, takes every
/// report, and then asks for the eight bytes of the length.
pub proof fn lemma_request_written(s: ClientState, cuts: Seq<nat>)
    requires
        client_wf(s),
        s.stage is SendingRequest,
        forall|i: int| 0 <= i < cuts.len() ==> #[trigger] cuts[i] > 0,
        cuts.len() >= s.stage->SendingRequest_pending.len(),
    ensures
        client_write_run(s, s.stage->SendingRequest_pending, cuts) == (
            enter(s, ClientStage::ReceivingLength { received: Seq::empty() }),
            ClientOutput::Receive(U64_WIRE_LEN as nat),
            s.stage->SendingRequest_pending,
            true,
        ),
    decreases cuts.len(),
{
    let p = s.stage->SendingRequest_pending;
    let k = min_nat(cuts[0], p.len());
    let rest = p.skip(k as int);
    assert(k >= 1);
    if rest.len() == 0 {
        assert(p.take(k as int) =~= p);
    } else {
        let next = enter(s, ClientStage::SendingRequest { pending: rest });
        assert(cuts.drop_first().len() >= rest.len());
        assert forall|i: int| 0 <= i < cuts.drop_first().len() implies #[trigger] cuts.drop_first()[i]
            > 0 by {
            assert(cuts.drop_first()[i] == cuts[i + 1]);
        }
        lemma_request_written(next, cuts.drop_first());
        assert(p.take(k as int) + rest =~= p);
    }
}

/// A client reading its document: `received` are the first bytes of
/// `document`, and the stream holds the rest of it followed by any bytes.
proof fn lemma_document_read(
    s: ClientState,
    document: Seq<u8>,
    j: nat,
    tail: Seq<u8>,
    cuts: Seq<nat>,
)
    requires
        client_wf(s),
        s.stage == (ClientStage::ReceivingDocument {
            expected: document.len(),
            received: document.take(j as int),
        }),
        j < document.len(),
        forall|i: int| 0 <= i < cuts.len() ==> #[trigger] cuts[i] > 0,
        cuts.len() >= document.len() - j,
    ensures
        client_read_run(s, (document.len() - j) as nat, document.skip(j as int) + tail, cuts) == (
            enter(s, ClientStage::Finished),
            ClientOutput::Finish(Ok(document)),
            (document.len() - j) as nat,
            true,
        ),
    decreases cuts.len(),
{
    let stream = document.skip(j as int) + tail;
    let asked = (document.len() - j) as nat;
    let k = min_nat(min_nat(cuts[0], asked), stream.len());
    let piece = stream.take(k as int);
    assert(k >= 1 && k <= asked);
    assert(piece =~= document.subrange(j as int, (j + k) as int));
    let got = document.take(j as int) + piece;
    assert(got =~= document.take((j + k) as int));
    if j + k == document.len() {
        assert(got =~= document);
    } else {
        let next = enter(
            s,
            ClientStage::ReceivingDocument { expected: document.len(), received: got },
        );
        assert(stream.skip(k as int) =~= document.skip((j + k) as int) + tail);
        assert forall|i: int| 0 <= i < cuts.drop_first().len() implies #[trigger] cuts.drop_first()[i]
            > 0 by {
            assert(cuts.drop_first()[i] == cuts[i + 1]);
        }
        lemma_document_read(next, document, (j + k) as nat, tail, cuts.drop_first());
    }
}

/// A client reading the length: `received` are the first bytes of its
/// encoding, and the stream holds the rest of it, the document, and any bytes.
proof fn lemma_length_read(
    s: ClientState,
    document: Seq<u8>,
    i: nat,
    tail: Seq<u8>,
    cuts: Seq<nat>,
)
    requires
        client_wf(s),
        document.len() <= BUF_MAX_LEN,
        s.stage == (ClientStage::ReceivingLength {
            received: le_bytes(document.len() as u64).take(i as int),
        }),
        i < U64_WIRE_LEN,
        forall|c: int| 0 <= c < cuts.len() ==> #[trigger] cuts[c] > 0,
        cuts.len() >= U64_WIRE_LEN - i + document.len(),
    ensures
        client_read_run(
            s,
            (U64_WIRE_LEN - i) as nat,
            le_bytes(document.len() as u64).skip(i as int) + document + tail,
            cuts,
        ) == (
            enter(s, ClientStage::Finished),
            ClientOutput::Finish(Ok(document)),
            (U64_WIRE_LEN - i + document.len()) as nat,
            true,
        ),
    decreases cuts.len(),
{
    let header = le_bytes(document.len() as u64);
    lemma_decode_encode(document.len() as u64);
    let stream = header.skip(i as int) + document + tail;
    let asked = (U64_WIRE_LEN - i) as nat;
    let k = min_nat(min_nat(cuts[0], asked), stream.len());
    let piece = stream.take(k as int);
    assert(k >= 1 && k <= asked);
    assert(piece =~= header.subrange(i as int, (i + k) as int));
    let got = header.take(i as int) + piece;
    assert(got =~= header.take((i + k) as int));
    assert forall|c: int| 0 <= c < cuts.drop_first().len() implies #[trigger] cuts.drop_first()[c]
        > 0 by {
        assert(cuts.drop_first()[c] == cuts[c + 1]);
    }
    if i + k < U64_WIRE_LEN {
        let next = enter(s, ClientStage::ReceivingLength { received: got });
        assert(stream.skip(k as int) =~= header.skip((i + k) as int) + document + tail);
        lemma_length_read(next, document, (i + k) as nat, tail, cuts.drop_first());
    } else {
        assert(got =~= header);
        if document.len() == 0 {
            assert(document =~= Seq::<u8>::empty());
        } else {
            let next = enter(
                s,
                ClientStage::ReceivingDocument { expected: document.len(), received: Seq::empty() },
            );
            assert(document.take(0) =~= Seq::<u8>::empty());
            assert(document.skip(0) =~= document);
            assert(stream.skip(k as int) =~= document.skip(0) + tail);
            lemma_document_read(next, document, 0, tail, cuts.drop_first());
        }
    }
}

/// However the socket cuts the stream into reads of at least one byte, a
/// client that awaits the length reads the eight bytes of the length and the
/// document that they announce, takes every read, and stops with exactly
/// that document; the bytes that follow it in the stream are never read and
/// do not change the result.
pub proof fn law_client_reads_document(
    s: ClientState,
    document: Seq<u8>,
    tail: Seq<u8>,
    cuts: Seq<nat>,
)
    requires
        s.stage == (ClientStage::ReceivingLength { received: Seq::empty() }),
        document.len() <= BUF_MAX_LEN,
        forall|c: int| 0 <= c < cuts.len() ==> #[trigger] cuts[c] > 0,
        cuts.len() >= U64_WIRE_LEN + document.len(),
    ensures
        client_read_run(
            s,
            U64_WIRE_LEN as nat,
            le_bytes(document.len() as u64) + document + tail,
            cuts,
        ) == (
            enter(s, ClientStage::Finished),
            ClientOutput::Finish(Ok(document)),
            (U64_WIRE_LEN + document.len()) as nat,
            true,
        ),
{
    let header = le_bytes(document.len() as u64);
    lemma_decode_encode(document.len() as u64);
    assert(header.take(0) =~= Seq::<u8>::empty());
    assert(header.skip(0) =~= header);
    lemma_length_read(s, document, 0, tail, cuts);
}

/// Bytes that follow the announced document never change what the client
/// does: two streams that agree on the length and the document, read in
/// reads of the same sizes, give the same run, which stops with the document.
pub proof fn law_trailing_bytes_ignored(
    s: ClientState,
    document: Seq<u8>,
    tail1: Seq<u8>,
    tail2: Seq<u8>,
    cuts: Seq<nat>,
)
    requires
        s.stage == (ClientStage::ReceivingLength { received: Seq::empty() }),
        document.len() <= BUF_MAX_LEN,
        forall|c: int| 0 <= c < cuts.len() ==> #[trigger] cuts[c] > 0,
        cuts.len() >= U64_WIRE_LEN + document.len(),
    ensures
        client_read_run(s, U64_WIRE_LEN as nat, le_bytes(document.len() as u64) + document + tail1, cuts)
            == client_read_run(
            s,
            U64_WIRE_LEN as nat,
            le_bytes(document.len() as u64) + document + tail2,
            cuts,
        ),
        client_read_run(
            s,
            U64_WIRE_LEN as nat,
            le_bytes(document.len() as u64) + document + tail1,
            cuts,
        ).1 == ClientOutput::Finish(Ok(document)),
{
    law_client_reads_document(s, document, tail1, cuts);
    law_client_reads_document(s, document, tail2, cuts);
}

/// A client hands out a document only when every announced byte has
/// arrived, and then exactly the bytes received, in order: the bytes read
/// before plus the piece that completes them, as many as the header
/// announced. A failed send or receive ends the client with that failure. An
/// interrupted call moves no byte: the state stays as it was and the client
/// asks again for exactly what is still pending.
pub proof fn law_client_transfers_faithful(s: ClientState, input: ClientInput)
    requires
        client_wf(s),
        client_accepts(s, input),
    ensures
        input matches ClientInput::TransferFailed(detail) ==> client_step(s, input) == (
            enter(s, ClientStage::Finished),
            ClientOutput::Finish(Err(detail)),
        ),
        client_step(s, input).1 matches ClientOutput::Finish(Ok(d)) ==> (input matches ClientInput::Received(
            c,
        ) && ((s.stage matches ClientStage::ReceivingDocument { expected, received } && d
            == received + c && d.len() == expected) || (s.stage matches ClientStage::ReceivingLength {
            received,
        } && received.len() + c.len() == U64_WIRE_LEN && le_value(received + c) == 0 && d.len()
            == 0))),
        (s.stage is ReceivingLength && client_step(s, input).0.stage is ReceivingDocument) ==> (
        input matches ClientInput::Received(c) && received_header_complete(s, c) && client_step(
            s,
            input,
        ).0.stage->ReceivingDocument_expected == le_value(s.stage->ReceivingLength_received + c)
            && client_step(s, input).0.stage->ReceivingDocument_received.len() == 0),
        input is Interrupted ==> client_step(s, input).0 == s,
        s.stage matches ClientStage::SendingRequest { pending } ==> (input is Interrupted
            ==> client_step(s, input).1 == ClientOutput::Send(pending)),
        s.stage matches ClientStage::ReceivingLength { received } ==> (input is Interrupted
            ==> client_step(s, input).1 == ClientOutput::Receive(
            (U64_WIRE_LEN - received.len()) as nat,
        )),
        s.stage matches ClientStage::ReceivingDocument { expected, received } ==> (input
            is Interrupted ==> client_step(s, input).1 == ClientOutput::Receive(
            (expected - received.len()) as nat,
        )),
        s.stage matches ClientStage::SendingRequest { pending } ==> (input matches ClientInput::Sent(
            n,
        ) ==> (n < pending.len() ==> client_step(s, input) == (
            enter(s, ClientStage::SendingRequest { pending: pending.skip(n as int) }),
            ClientOutput::Send(pending.skip(n as int)),
        ))),
{
}

/// Whether the piece `c` completes the eight bytes of the length that the
/// client in `s` is reading.
pub open spec fn received_header_complete(s: ClientState, c: Seq<u8>) -> bool {
    s.stage->ReceivingLength_received.len() + c.len() == U64_WIRE_LEN
}

/// What the socket or the clock reports to a `ClientSession`.
#[derive(Debug, PartialEq, Eq)]
pub enum ClientEvent {
    /// A socket was opened.
    SocketOpened,
    /// No socket could be opened; the description of the error.
    SocketFailed(String),
    /// The socket is connected.
    Connected,
    /// The connection was refused; the description of the error.
    ConnectFailed(String),
    /// The pause is over.
    Slept,
    /// The socket took this many of the bytes offered.
    Sent(usize),
    /// The socket gave these bytes.
    Received(Vec<u8>),
    /// The call was interrupted before it moved any byte.
    Interrupted,
    /// The send or receive call failed; the description of the error.
    TransferFailed(String),
}

impl View for ClientEvent {
    type V = ClientInput;

    open spec fn view(&self) -> ClientInput {
        match self {
            ClientEvent::SocketOpened => ClientInput::SocketOpened,
            ClientEvent::SocketFailed(d) => ClientInput::SocketFailed(d@),
            ClientEvent::Connected => ClientInput::Connected,
            ClientEvent::ConnectFailed(d) => ClientInput::ConnectFailed(d@),
            ClientEvent::Slept => ClientInput::Slept,
            ClientEvent::Sent(n) => ClientInput::Sent(*n as nat),
            ClientEvent::Received(chunk) => ClientInput::Received(chunk@),
            ClientEvent::Interrupted => ClientInput::Interrupted,
            ClientEvent::TransferFailed(d) => ClientInput::TransferFailed(d@),
        }
    }
}

/// What a `ClientSession` asks its caller to do.
#[derive(Debug, PartialEq, Eq)]
pub enum ClientAction {
    /// Open a vsock stream socket.
    OpenSocket,
    /// Connect the socket to the enclave.
    Connect { cid: u32, port: u32 },
    /// Pause for this many seconds.
    Sleep { seconds: u64 },
    /// Send these bytes.
    Send(Vec<u8>),
    /// Receive at most this many bytes.
    Receive(usize),
    /// Stop, with the attestation document or an error.
    Finish(Result<Vec<u8>, String>),
}

impl View for ClientAction {
    type V = ClientOutput;

    open spec fn view(&self) -> ClientOutput {
        match self {
            ClientAction::OpenSocket => ClientOutput::OpenSocket,
            ClientAction::Connect { cid, port } => ClientOutput::Connect { cid: *cid, port: *port },
            ClientAction::Sleep { seconds } => ClientOutput::Sleep { seconds: *seconds as nat },
            ClientAction::Send(bytes) => ClientOutput::Send(bytes@),
            ClientAction::Receive(n) => ClientOutput::Receive(*n as nat),
            ClientAction::Finish(Ok(document)) => ClientOutput::Finish(Ok(document@)),
            ClientAction::Finish(Err(error)) => ClientOutput::Finish(Err(error@)),
        }
    }
}

enum Stage {
    Opening { attempt: usize },
    Connecting { attempt: usize },
    BackingOff { attempt: usize, error: String },
    SendingRequest { request: Outbound },
    ReceivingLength { header: Inbound },
    ReceivingDocument { document: Inbound },
    Finished,
}

impl View for Stage {
    type V = ClientStage;

    closed spec fn view(&self) -> ClientStage {
        match self {
            Stage::Opening { attempt } => ClientStage::Opening { attempt: *attempt as nat },
            Stage::Connecting { attempt } => ClientStage::Connecting { attempt: *attempt as nat },
            Stage::BackingOff { attempt, error } => ClientStage::BackingOff {
                attempt: *attempt as nat,
                error: error@,
            },
            Stage::SendingRequest { request } => ClientStage::SendingRequest { pending: request@ },
            Stage::ReceivingLength { header } => ClientStage::ReceivingLength {
                received: header.received(),
            },
            Stage::ReceivingDocument { document } => ClientStage::ReceivingDocument {
                expected: document.total(),
                received: document.received(),
            },
            Stage::Finished => ClientStage::Finished,
        }
    }
}

/// Whether the transfers of `stage` are of the sizes that its view assumes.
spec fn stage_inv(stage: Stage) -> bool {
    match stage {
        Stage::ReceivingLength { header } => header.total() == U64_WIRE_LEN,
        _ => true,
    }
}

/// A running client: its state, advanced by `step`.
pub struct ClientSession {
    cid: u32,
    port: u32,
    stage: Stage,
}

impl View for ClientSession {
    type V = ClientState;

    closed spec fn view(&self) -> ClientState {
        ClientState { cid: self.cid, port: self.port, stage: self.stage@ }
    }
}

/// The pause, in seconds, after the refused attempt `attempt`.
pub fn backoff_delay(attempt: usize) -> (r: u64)
    requires
        attempt < MAX_CONNECTION_ATTEMPTS,
    ensures
        r == backoff_seconds(attempt as nat),
        attempt == 0 ==> r == 1,
        attempt == 1 ==> r == 2,
        attempt == 2 ==> r == 4,
        attempt == 3 ==> r == 8,
        attempt == 4 ==> r == 16,
{
    let a: u64 = attempt as u64;
    assert(a < 5 ==> (a == 0 ==> 1u64 << a == 1) && (a == 1 ==> 1u64 << a == 2) && (a == 2 ==> 1u64
        << a == 4) && (a == 3 ==> 1u64 << a == 8) && (a == 4 ==> 1u64 << a == 16)) by (bit_vector);
    reveal_with_fuel(backoff_seconds, 5);
    1u64 << a
}

/// Starts a client of the enclave that `args` names: the session, and its first action.
pub fn client(args: ClientArgs) -> (r: (ClientSession, ClientAction))
    ensures
        r.0@ == client_start(args.cid, args.port).0,
        r.1@ == client_start(args.cid, args.port).1,
        client_wf(r.0@),
{
    let session = ClientSession {
        cid: args.cid,
        port: args.port,
        stage: Stage::Opening { attempt: 0 },
    };
    (session, ClientAction::OpenSocket)
}

/// The document's length that `header` and `chunk` together announce.
fn announced_length(header: &Inbound, chunk: &[u8]) -> (r: u64)
    requires
        header.received().len() + chunk@.len() == U64_WIRE_LEN,
    ensures
        r == le_value(header.received() + chunk@),
{
    let mut bytes: Vec<u8> = Vec::new();
    let first = header.as_slice();
    let mut i: usize = 0;
    while i < first.len()
        invariant
            i <= first@.len(),
            bytes@ == first@.subrange(0, i as int),
        decreases first@.len() - i,
    {
        bytes.push(first[i]);
        i = i + 1;
        assert(bytes@ =~= first@.subrange(0, i as int));
    }
    let mut j: usize = 0;
    while j < chunk.len()
        invariant
            j <= chunk@.len(),
            bytes@ == first@ + chunk@.subrange(0, j as int),
        decreases chunk@.len() - j,
    {
        bytes.push(chunk[j]);
        j = j + 1;
        assert(bytes@ =~= first@ + chunk@.subrange(0, j as int));
    }
    assert(bytes@ =~= header.received() + chunk@);
    decode_u64(bytes.as_slice())
}

impl ClientSession {
    #[verifier::type_invariant]
    spec fn inv(self) -> bool {
        &&& client_wf(self@)
        &&& stage_inv(self.stage)
    }

    /// Whether the session is done.
    pub fn is_finished(&self) -> (r: bool)
        ensures
            r == (self@.stage is Finished),
    {
        match self.stage {
            Stage::Finished => true,
            _ => false,
        }
    }

    /// Whether the session can take `event` (see `client_accepts`).
    pub fn accepts(&self, event: &ClientEvent) -> (r: bool)
        ensures
            r == client_accepts(self@, event@),
    {
        proof {
            use_type_invariant(self);
        }
        match &self.stage {
            Stage::Opening { .. } => match event {
                ClientEvent::SocketOpened => true,
                ClientEvent::SocketFailed(_) => true,
                _ => false,
            },
            Stage::Connecting { .. } => match event {
                ClientEvent::Connected => true,
                ClientEvent::ConnectFailed(_) => true,
                _ => false,
            },
            Stage::BackingOff { .. } => match event {
                ClientEvent::Slept => true,
                _ => false,
            },
            Stage::SendingRequest { request } => match event {
                ClientEvent::Sent(n) => *n <= request.remaining(),
                ClientEvent::Interrupted => true,
                ClientEvent::TransferFailed(_) => true,
                _ => false,
            },
            Stage::ReceivingLength { header } => match event {
                ClientEvent::Received(chunk) => {
                    let left: usize = header.remaining();
                    if chunk.len() > left {
                        false
                    } else if chunk.len() < left {
                        true
                    } else {
                        let n: u64 = announced_length(header, chunk.as_slice());
                        n > usize::MAX as u64 || n <= BUF_MAX_LEN as u64
                    }
                },
                ClientEvent::Interrupted => true,
                ClientEvent::TransferFailed(_) => true,
                _ => false,
            },
            Stage::ReceivingDocument { document } => match event {
                ClientEvent::Received(chunk) => chunk.len() <= document.remaining(),
                ClientEvent::Interrupted => true,
                ClientEvent::TransferFailed(_) => true,
                _ => false,
            },
            Stage::Finished => false,
        }
    }

    /// Advances the session by what the socket or the clock reported: the
    /// state becomes the one that `client_step` gives, and so does the action returned.
    pub fn step(&mut self, event: ClientEvent) -> (action: ClientAction)
        requires
            client_accepts(old(self)@, event@),
        ensures
            final(self)@ == client_step(old(self)@, event@).0,
            action@ == client_step(old(self)@, event@).1,
            client_wf(final(self)@),
    {
        proof {
            use_type_invariant(&*self);
        }
        let mut stage = Stage::Finished;
        std::mem::swap(&mut stage, &mut self.stage);
        let (next, action) = advance(self.cid, self.port, stage, event);
        self.stage = next;
        action
    }
}

/// The state and action that follow `stage` of a client of enclave `cid` on `port`, on `event`.
fn advance(cid: u32, port: u32, stage: Stage, event: ClientEvent) -> (r: (Stage, ClientAction))
    requires
        client_wf((ClientState { cid, port, stage: stage@ })),
        stage_inv(stage),
        client_accepts((ClientState { cid, port, stage: stage@ }), event@),
    ensures
        (ClientState { cid, port, stage: r.0@ }) == client_step(
            (ClientState { cid, port, stage: stage@ }),
            event@,
        ).0,
        r.1@ == client_step((ClientState { cid, port, stage: stage@ }), event@).1,
        client_wf((ClientState { cid, port, stage: r.0@ })),
        stage_inv(r.0),
{
    match stage {
        Stage::Opening { attempt } => match event {
            ClientEvent::SocketOpened => (
                Stage::Connecting { attempt },
                ClientAction::Connect { cid, port },
            ),
            ClientEvent::SocketFailed(detail) => {
                let error = prefixed("Failed to create the socket: ", &detail);
                (Stage::Finished, ClientAction::Finish(Err(error)))
            },
            _ => (Stage::Opening { attempt }, ClientAction::OpenSocket),
        },
        Stage::Connecting { attempt } => match event {
            ClientEvent::Connected => {
                let request = Outbound::new(encode_u64(ATTESTATION_REQUEST));
                let bytes = request.pending();
                (Stage::SendingRequest { request }, ClientAction::Send(bytes))
            },
            ClientEvent::ConnectFailed(detail) => {
                let error = prefixed("Failed to connect: ", &detail);
                let seconds: u64 = backoff_delay(attempt);
                (Stage::BackingOff { attempt, error }, ClientAction::Sleep { seconds })
            },
            _ => (Stage::Connecting { attempt }, ClientAction::OpenSocket),
        },
        Stage::BackingOff { attempt, error } => match event {
            ClientEvent::Slept => {
                if attempt + 1 < MAX_CONNECTION_ATTEMPTS {
                    (Stage::Opening { attempt: attempt + 1 }, ClientAction::OpenSocket)
                } else {
                    (Stage::Finished, ClientAction::Finish(Err(error)))
                }
            },
            _ => (Stage::BackingOff { attempt, error }, ClientAction::OpenSocket),
        },
        Stage::SendingRequest { mut request } => match event {
            ClientEvent::Sent(n) => {
                request.advance(n);
                if request.remaining() == 0 {
                    (
                        Stage::ReceivingLength { header: Inbound::new(U64_WIRE_LEN) },
                        ClientAction::Receive(U64_WIRE_LEN),
                    )
                } else {
                    let bytes = request.pending();
                    (Stage::SendingRequest { request }, ClientAction::Send(bytes))
                }
            },
            ClientEvent::Interrupted => {
                let bytes = request.pending();
                (Stage::SendingRequest { request }, ClientAction::Send(bytes))
            },
            ClientEvent::TransferFailed(detail) => (
                Stage::Finished,
                ClientAction::Finish(Err(detail)),
            ),
            _ => (Stage::SendingRequest { request }, ClientAction::OpenSocket),
        },
        Stage::ReceivingLength { mut header } => match event {
            ClientEvent::Received(chunk) => {
                header.push(chunk.as_slice());
                let left: usize = header.remaining();
                if left > 0 {
                    (Stage::ReceivingLength { header }, ClientAction::Receive(left))
                } else {
                    let bytes = header.into_bytes();
                    let n: u64 = decode_u64(bytes.as_slice());
                    if n > usize::MAX as u64 {
                        let error = String::from_str("TryFromIntError(())");
                        (Stage::Finished, ClientAction::Finish(Err(error)))
                    } else if n == 0 {
                        (Stage::Finished, ClientAction::Finish(Ok(Vec::new())))
                    } else {
                        let len: usize = n as usize;
                        (
                            Stage::ReceivingDocument { document: Inbound::new(len) },
                            ClientAction::Receive(len),
                        )
                    }
                }
            },
            ClientEvent::Interrupted => {
                let left: usize = header.remaining();
                (Stage::ReceivingLength { header }, ClientAction::Receive(left))
            },
            ClientEvent::TransferFailed(detail) => (
                Stage::Finished,
                ClientAction::Finish(Err(detail)),
            ),
            _ => (Stage::ReceivingLength { header }, ClientAction::OpenSocket),
        },
        Stage::ReceivingDocument { mut document } => match event {
            ClientEvent::Received(chunk) => {
                document.push(chunk.as_slice());
                let left: usize = document.remaining();
                if left > 0 {
                    (Stage::ReceivingDocument { document }, ClientAction::Receive(left))
                } else {
                    (Stage::Finished, ClientAction::Finish(Ok(document.into_bytes())))
                }
            },
            ClientEvent::Interrupted => {
                let left: usize = document.remaining();
                (Stage::ReceivingDocument { document }, ClientAction::Receive(left))
            },
            ClientEvent::TransferFailed(detail) => (
                Stage::Finished,
                ClientAction::Finish(Err(detail)),
            ),
            _ => (Stage::ReceivingDocument { document }, ClientAction::OpenSocket),
        },
        Stage::Finished => (Stage::Finished, ClientAction::OpenSocket),
    }
}

} // verus!
