use nitro_attestation::nsm::NsmResponse;
use nitro_attestation::server::{server, ServerAction, ServerEvent, ServerSession};
use nitro_attestation::wire::encode_u64;
use nitro_attestation::{ServerArgs, BACKLOG, VMADDR_CID_ANY};

fn accepting_server() -> ServerSession {
    let (mut s, first) = server(ServerArgs { port: 5005 });
    assert_eq!(first, ServerAction::OpenSocket);
    assert_eq!(
        s.step(ServerEvent::SocketOpened),
        ServerAction::Bind { cid: VMADDR_CID_ANY, port: 5005 }
    );
    assert_eq!(s.step(ServerEvent::Bound), ServerAction::Listen { backlog: BACKLOG });
    assert_eq!(s.step(ServerEvent::Listened), ServerAction::Accept);
    s
}

#[test]
fn server_serves_document_then_waits_again() {
    let mut s = accepting_server();
    assert_eq!(s.step(ServerEvent::Accepted), ServerAction::Receive(8));
    assert_eq!(s.step(ServerEvent::Received(vec![0, 0])), ServerAction::Receive(6));
    assert_eq!(s.step(ServerEvent::Received(vec![0; 6])), ServerAction::Report { command: 0 });
    match s.step(ServerEvent::Reported) {
        ServerAction::QueryNsm(r) => assert_eq!(r.public_key, Some(b"my super secret key".to_vec())),
        other => panic!("unexpected {:?}", other),
    }
    let doc = vec![9u8; 300];
    assert_eq!(
        s.step(ServerEvent::NsmAnswered(NsmResponse::Attestation(doc.clone()))),
        ServerAction::Send(encode_u64(300))
    );
    assert_eq!(s.step(ServerEvent::Sent(8)), ServerAction::Send(doc.clone()));
    assert_eq!(s.step(ServerEvent::Sent(100)), ServerAction::Send(vec![9u8; 200]));
    assert_eq!(s.step(ServerEvent::Interrupted), ServerAction::Send(vec![9u8; 200]));
    assert_eq!(s.step(ServerEvent::Sent(200)), ServerAction::Accept);
    assert_eq!(s.step(ServerEvent::Accepted), ServerAction::Receive(8));
}

#[test]
fn server_ignores_other_commands() {
    let mut s = accepting_server();
    s.step(ServerEvent::Accepted);
    assert_eq!(s.step(ServerEvent::Received(encode_u64(1))), ServerAction::Report { command: 1 });
    assert_eq!(s.step(ServerEvent::Reported), ServerAction::Accept);
    s.step(ServerEvent::Accepted);
    assert_eq!(
        s.step(ServerEvent::Received(encode_u64(u64::MAX))),
        ServerAction::Report { command: u64::MAX }
    );
    assert!(!s.accepts(&ServerEvent::Accepted));
    assert_eq!(s.step(ServerEvent::Reported), ServerAction::Accept);
}

#[test]
fn server_sends_only_length_of_empty_document() {
    let mut s = accepting_server();
    s.step(ServerEvent::Accepted);
    s.step(ServerEvent::Received(encode_u64(0)));
    s.step(ServerEvent::Reported);
    assert_eq!(
        s.step(ServerEvent::NsmAnswered(NsmResponse::Attestation(vec![]))),
        ServerAction::Send(vec![0u8; 8])
    );
    assert_eq!(s.step(ServerEvent::Sent(8)), ServerAction::Accept);
}

#[test]
fn server_stops_on_invalid_nsm_response() {
    let mut s = accepting_server();
    s.step(ServerEvent::Accepted);
    s.step(ServerEvent::Received(encode_u64(0)));
    s.step(ServerEvent::Reported);
    assert_eq!(
        s.step(ServerEvent::NsmAnswered(NsmResponse::Other("Error(InternalError)".to_string()))),
        ServerAction::Finish("nsm driver returned invalid response: Error(InternalError)".to_string())
    );
    assert!(s.is_finished());
}

#[test]
fn server_setup_errors_are_prefixed() {
    let (mut s, _) = server(ServerArgs { port: 1 });
    assert_eq!(
        s.step(ServerEvent::SocketFailed("EACCES".to_string())),
        ServerAction::Finish("Create socket failed: EACCES".to_string())
    );
    let (mut s, _) = server(ServerArgs { port: 1 });
    s.step(ServerEvent::SocketOpened);
    assert_eq!(
        s.step(ServerEvent::BindFailed("EADDRINUSE".to_string())),
        ServerAction::Finish("Bind failed: EADDRINUSE".to_string())
    );
    let mut s = accepting_server();
    assert_eq!(
        s.step(ServerEvent::AcceptFailed("EINVAL".to_string())),
        ServerAction::Finish("Accept failed: EINVAL".to_string())
    );
}

#[test]
fn server_listen_error_is_prefixed() {
    let (mut s, _) = server(ServerArgs { port: 1 });
    s.step(ServerEvent::SocketOpened);
    s.step(ServerEvent::Bound);
    assert_eq!(
        s.step(ServerEvent::ListenFailed("EOPNOTSUPP".to_string())),
        ServerAction::Finish("Listen failed: EOPNOTSUPP".to_string())
    );
}

#[test]
fn server_accepts_only_what_it_asked_for() {
    let mut s = accepting_server();
    assert!(!s.accepts(&ServerEvent::Sent(1)));
    s.step(ServerEvent::Accepted);
    assert!(!s.accepts(&ServerEvent::Received(vec![0u8; 9])));
    assert!(s.accepts(&ServerEvent::Received(vec![0u8; 8])));
}
