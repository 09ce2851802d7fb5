use nitro_attestation::client::{client, ClientAction, ClientEvent};
use nitro_attestation::nsm::NsmResponse;
use nitro_attestation::server::{server, ServerAction, ServerEvent};
use nitro_attestation::{ClientArgs, ServerArgs};

/// Runs a client against a server over a loopback that moves at most
/// `piece` bytes per call, and returns what the client finishes with.
fn exchange(document: Vec<u8>, piece: usize) -> Result<Vec<u8>, String> {
    exchange_with_trailer(document, piece, &[])
}

/// As `exchange`, with `trailer` sent after the reply on the same connection.
fn exchange_with_trailer(document: Vec<u8>, piece: usize, trailer: &[u8]) -> Result<Vec<u8>, String> {
    let (mut srv, mut s_action) = server(ServerArgs { port: 5005 });
    for event in [ServerEvent::SocketOpened, ServerEvent::Bound, ServerEvent::Listened, ServerEvent::Accepted] {
        s_action = srv.step(event);
    }
    assert_eq!(s_action, ServerAction::Receive(8));

    let (mut cli, _) = client(ClientArgs { cid: 16, port: 5005 });
    cli.step(ClientEvent::SocketOpened);
    let mut c_action = cli.step(ClientEvent::Connected);

    let mut to_server: Vec<u8> = Vec::new();
    let mut to_client: Vec<u8> = Vec::new();
    loop {
        match &c_action {
            ClientAction::Finish(result) => return result.clone(),
            ClientAction::Send(bytes) => {
                let n = bytes.len().min(piece);
                to_server.extend_from_slice(&bytes[..n]);
                c_action = cli.step(ClientEvent::Sent(n));
                continue;
            }
            ClientAction::Receive(want) if !to_client.is_empty() => {
                let n = (*want).min(piece).min(to_client.len());
                let chunk: Vec<u8> = to_client.drain(..n).collect();
                c_action = cli.step(ClientEvent::Received(chunk));
                continue;
            }
            _ => {}
        }
        match &s_action {
            ServerAction::Receive(want) if !to_server.is_empty() => {
                let n = (*want).min(to_server.len());
                let chunk: Vec<u8> = to_server.drain(..n).collect();
                s_action = srv.step(ServerEvent::Received(chunk));
            }
            ServerAction::Report { command } => {
                assert_eq!(*command, 0);
                s_action = srv.step(ServerEvent::Reported);
            }
            ServerAction::QueryNsm(_) => {
                s_action = srv.step(ServerEvent::NsmAnswered(NsmResponse::Attestation(document.clone())));
            }
            ServerAction::Send(bytes) => {
                let n = bytes.len().min(piece);
                to_client.extend_from_slice(&bytes[..n]);
                s_action = srv.step(ServerEvent::Sent(n));
                if s_action == ServerAction::Accept {
                    to_client.extend_from_slice(trailer);
                }
            }
            other => panic!("stalled: client {:?}, server {:?}", c_action, other),
        }
    }
}

#[test]
fn document_travels_from_server_to_client() {
    let doc: Vec<u8> = (0..4500u32).map(|i| (i % 251) as u8).collect();
    assert_eq!(exchange(doc.clone(), 4096), Ok(doc.clone()));
    assert_eq!(exchange(doc.clone(), 3), Ok(doc.clone()));
    assert_eq!(exchange(doc.clone(), 1), Ok(doc));
}

#[test]
fn empty_document_travels_too() {
    assert_eq!(exchange(vec![], 5), Ok(vec![]));
}

#[test]
fn bytes_after_the_document_are_not_read() {
    let doc: Vec<u8> = (0..300u32).map(|i| i as u8).collect();
    assert_eq!(exchange_with_trailer(doc.clone(), 7, &[1, 2, 3]), Ok(doc.clone()));
    assert_eq!(exchange_with_trailer(doc.clone(), 7, &[9; 100]), Ok(doc));
}
