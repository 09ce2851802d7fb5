use nitro_attestation::client::{backoff_delay, client, ClientAction, ClientEvent};
use nitro_attestation::wire::encode_u64;
use nitro_attestation::{ClientArgs, BUF_MAX_LEN};

fn connected_session() -> nitro_attestation::client::ClientSession {
    let (mut s, first) = client(ClientArgs { cid: 16, port: 5005 });
    assert_eq!(first, ClientAction::OpenSocket);
    assert_eq!(s.step(ClientEvent::SocketOpened), ClientAction::Connect { cid: 16, port: 5005 });
    assert_eq!(s.step(ClientEvent::Connected), ClientAction::Send(vec![0u8; 8]));
    assert_eq!(s.step(ClientEvent::Sent(8)), ClientAction::Receive(8));
    s
}

#[test]
fn backoff_doubles_from_one_second() {
    let delays: Vec<u64> = (0..5).map(backoff_delay).collect();
    assert_eq!(delays, vec![1, 2, 4, 8, 16]);
}

#[test]
fn client_reads_document_in_pieces() {
    let (mut s, _) = client(ClientArgs { cid: 3, port: 7 });
    s.step(ClientEvent::SocketOpened);
    assert_eq!(s.step(ClientEvent::Connected), ClientAction::Send(vec![0u8; 8]));
    assert_eq!(s.step(ClientEvent::Sent(3)), ClientAction::Send(vec![0u8; 5]));
    assert_eq!(s.step(ClientEvent::Interrupted), ClientAction::Send(vec![0u8; 5]));
    assert_eq!(s.step(ClientEvent::Sent(5)), ClientAction::Receive(8));
    let header = encode_u64(5);
    assert_eq!(s.step(ClientEvent::Received(header[..3].to_vec())), ClientAction::Receive(5));
    assert_eq!(s.step(ClientEvent::Received(header[3..].to_vec())), ClientAction::Receive(5));
    assert_eq!(s.step(ClientEvent::Received(vec![1, 2])), ClientAction::Receive(3));
    assert_eq!(s.step(ClientEvent::Received(vec![])), ClientAction::Receive(3));
    assert_eq!(
        s.step(ClientEvent::Received(vec![3, 4, 5])),
        ClientAction::Finish(Ok(vec![1, 2, 3, 4, 5]))
    );
    assert!(s.is_finished());
}

#[test]
fn client_gives_up_after_five_refusals() {
    let (mut s, _) = client(ClientArgs { cid: 16, port: 5005 });
    let mut sleeps = Vec::new();
    let mut last = ClientAction::OpenSocket;
    for _ in 0..5 {
        assert_eq!(s.step(ClientEvent::SocketOpened), ClientAction::Connect { cid: 16, port: 5005 });
        match s.step(ClientEvent::ConnectFailed("ECONNREFUSED: Connection refused".to_string())) {
            ClientAction::Sleep { seconds } => sleeps.push(seconds),
            other => panic!("unexpected {:?}", other),
        }
        last = s.step(ClientEvent::Slept);
    }
    assert_eq!(sleeps, vec![1, 2, 4, 8, 16]);
    assert_eq!(
        last,
        ClientAction::Finish(Err("Failed to connect: ECONNREFUSED: Connection refused".to_string()))
    );
    assert!(s.is_finished());
}

#[test]
fn client_retries_after_one_refusal() {
    let (mut s, _) = client(ClientArgs { cid: 16, port: 5005 });
    s.step(ClientEvent::SocketOpened);
    assert_eq!(
        s.step(ClientEvent::ConnectFailed("ENODEV: No such device".to_string())),
        ClientAction::Sleep { seconds: 1 }
    );
    assert_eq!(s.step(ClientEvent::Slept), ClientAction::OpenSocket);
    assert_eq!(s.step(ClientEvent::SocketOpened), ClientAction::Connect { cid: 16, port: 5005 });
    assert_eq!(s.step(ClientEvent::Connected), ClientAction::Send(vec![0u8; 8]));
}

#[test]
fn client_stops_when_no_socket_opens() {
    let (mut s, _) = client(ClientArgs { cid: 16, port: 5005 });
    assert_eq!(
        s.step(ClientEvent::SocketFailed("EAFNOSUPPORT".to_string())),
        ClientAction::Finish(Err("Failed to create the socket: EAFNOSUPPORT".to_string()))
    );
}

#[test]
fn empty_document_finishes_at_once() {
    let mut s = connected_session();
    assert_eq!(s.step(ClientEvent::Received(encode_u64(0))), ClientAction::Finish(Ok(vec![])));
}

#[test]
fn largest_document_is_accepted() {
    let mut s = connected_session();
    let header = ClientEvent::Received(encode_u64(BUF_MAX_LEN as u64));
    assert!(s.accepts(&header));
    assert_eq!(s.step(header), ClientAction::Receive(BUF_MAX_LEN));
    let doc = vec![7u8; BUF_MAX_LEN];
    assert_eq!(s.step(ClientEvent::Received(doc.clone())), ClientAction::Finish(Ok(doc)));
}

#[test]
fn oversized_document_is_not_accepted() {
    let s = connected_session();
    assert!(!s.accepts(&ClientEvent::Received(encode_u64(BUF_MAX_LEN as u64 + 1))));
    assert!(s.accepts(&ClientEvent::Received(vec![1, 2, 3])));
    assert!(!s.accepts(&ClientEvent::Received(vec![0u8; 9])));
    assert!(!s.accepts(&ClientEvent::Slept));
}

#[test]
fn transfer_failure_ends_the_client() {
    let mut s = connected_session();
    assert_eq!(
        s.step(ClientEvent::TransferFailed("ECONNRESET".to_string())),
        ClientAction::Finish(Err("ECONNRESET".to_string()))
    );
    assert!(!s.accepts(&ClientEvent::Received(vec![0])));
}
