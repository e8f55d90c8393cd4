use control_server::addr::SocketAddr;
use control_server::payload::{Error, Event, Payloads, ReceiveMessage};
use control_server::punch::{drop_reached, tick_all, HolePunchSession, PUNCH_INTERVAL};
use control_server::server::Server;
use control_server::shared::Shared;
use control_server::startup::{Hosting, StartStep};
use control_server::transfer::TransferStruct;

const RETRIES: u8 = 3;

fn text(s: &str) -> String {
    s.to_string()
}

fn at(n: u32) -> SocketAddr {
    SocketAddr::V4 { ipv4: 0x0a00_0000 + n, port: 7777 }
}

const RENDEZVOUS: SocketAddr = SocketAddr::V4 { ipv4: 1, port: 5555 };

fn punching() -> (Server, Hosting) {
    let mut server = Server::new(text("host"), text("1.0"), RETRIES);
    let request = server.start_with_hole_punching(false);
    assert!(matches!(
        server.bound::<u8>(request, Ok(())),
        Ok(StartStep::FindRendezvous { is_ipv6: false })
    ));
    let hosting = server.rendezvous_found::<u8>(Ok(RENDEZVOUS)).unwrap();
    (server, hosting)
}

fn named() -> (Server, Hosting) {
    let (mut server, hosting) = punching();
    let received = Payloads::HostingReceived { session_id: text("abc") };
    assert!(server.handle_read(0, Ok((RENDEZVOUS, received))));
    server.take_outbox(0);
    while hosting.server_rx.try_recv().is_ok() {}
    (server, hosting)
}

fn sent(server: &mut Server) -> Vec<(Payloads, SocketAddr)> {
    server.take_outbox(0).into_iter().map(|m| (m.payload, m.target)).collect()
}

fn handshake(id: &str) -> Payloads {
    Payloads::Handshake { session_id: text(id) }
}

fn attempt(server: &mut Server, peer: SocketAddr) {
    assert!(server.handle_read(0, Ok((RENDEZVOUS, Payloads::AttemptConnection { peer }))));
}

#[test]
fn rendezvous_is_asked_for_a_session() {
    let (mut server, hosting) = punching();
    assert_eq!(sent(&mut server), vec![(handshake(""), RENDEZVOUS)]);
    assert!(hosting.server_rx.try_recv().is_err());
    assert_eq!(server.get_session_id(), Some(text("")));
}

#[test]
fn session_opens_with_its_name() {
    let (mut server, hosting) = punching();
    let received = Payloads::HostingReceived { session_id: text("abc") };
    assert!(server.handle_read(0, Ok((RENDEZVOUS, received))));
    assert_eq!(server.get_session_id(), Some(text("abc")));
    assert_eq!(
        hosting.server_rx.try_recv().unwrap(),
        ReceiveMessage::Event(Event::ConnectionEstablished)
    );
    assert_eq!(
        hosting.server_rx.try_recv().unwrap(),
        ReceiveMessage::Payload(Payloads::HostingReceived { session_id: text("abc") })
    );
    assert!(hosting.server_rx.try_recv().is_err());
}

#[test]
fn lost_rendezvous_ends_hosting() {
    let (mut server, hosting) = punching();
    assert!(server.handle_read(0, Err(Error::ConnectionClosed(at(1)))));
    assert!(!server.should_stop());
    assert!(server.handle_read(0, Err(Error::ConnectionClosed(RENDEZVOUS))));
    assert!(server.should_stop());
    assert_eq!(
        hosting.server_rx.try_recv().unwrap(),
        ReceiveMessage::Event(Event::SessionIdFetchFailed)
    );
    assert!(server.finish_round(0, 0));
}

#[test]
fn rendezvous_may_go_once_the_session_has_a_name() {
    let (mut server, hosting) = named();
    assert!(server.handle_read(0, Err(Error::ConnectionClosed(RENDEZVOUS))));
    assert!(!server.should_stop());
    assert!(hosting.server_rx.try_recv().is_err());
}

#[test]
fn silent_peer_is_given_up() {
    let (mut server, hosting) = named();
    attempt(&mut server, at(1));
    assert_eq!(
        hosting.server_rx.try_recv().unwrap(),
        ReceiveMessage::Payload(Payloads::AttemptConnection { peer: at(1) })
    );
    assert_eq!(sent(&mut server), vec![]);
    let start: u128 = 17;
    for k in 0..3 {
        server.finish_round(0, start + k * PUNCH_INTERVAL);
        assert_eq!(sent(&mut server), vec![(handshake("abc"), at(1))]);
    }
    for k in 3..10 {
        server.finish_round(0, start + k * PUNCH_INTERVAL);
        assert_eq!(sent(&mut server), vec![]);
    }
}

#[test]
fn handshakes_keep_a_second_apart() {
    let (mut server, _hosting) = named();
    attempt(&mut server, at(1));
    server.finish_round(0, 5);
    assert_eq!(sent(&mut server).len(), 1);
    server.finish_round(0, 5 + PUNCH_INTERVAL - 1);
    assert_eq!(sent(&mut server).len(), 0);
    // A clock that runs backwards counts as standing still.
    server.finish_round(0, 0);
    assert_eq!(sent(&mut server).len(), 0);
    attempt(&mut server, at(2));
    server.finish_round(0, 5 + PUNCH_INTERVAL - 1);
    assert_eq!(sent(&mut server), vec![(handshake("abc"), at(2))]);
    server.finish_round(0, 5 + PUNCH_INTERVAL);
    assert_eq!(sent(&mut server), vec![(handshake("abc"), at(1))]);
}

#[test]
fn reached_peer_is_left_alone() {
    let (mut server, hosting) = named();
    attempt(&mut server, at(1));
    attempt(&mut server, at(2));
    while hosting.server_rx.try_recv().is_ok() {}
    assert!(server.handle_read(0, Ok((at(1), handshake("abc")))));
    assert_eq!(
        sent(&mut server),
        vec![
            (handshake("abc"), at(1)),
            (Payloads::PeerEstablished { peer: at(1) }, RENDEZVOUS),
        ]
    );
    assert_eq!(
        hosting.server_rx.try_recv().unwrap(),
        ReceiveMessage::Payload(handshake("abc"))
    );
    for k in 0..3 {
        server.finish_round(0, k * PUNCH_INTERVAL);
        assert_eq!(sent(&mut server), vec![(handshake("abc"), at(2))]);
    }
    server.finish_round(0, 3 * PUNCH_INTERVAL);
    assert_eq!(sent(&mut server), vec![]);
}

#[test]
fn stranger_is_reported_but_not_answered() {
    let (mut server, hosting) = named();
    attempt(&mut server, at(1));
    while hosting.server_rx.try_recv().is_ok() {}
    assert!(server.handle_read(0, Ok((at(1), handshake("xyz")))));
    assert_eq!(sent(&mut server), vec![]);
    assert_eq!(
        hosting.server_rx.try_recv().unwrap(),
        ReceiveMessage::Payload(handshake("xyz"))
    );
    server.finish_round(0, 0);
    assert_eq!(sent(&mut server), vec![(handshake("abc"), at(1))]);
}

#[test]
fn without_rendezvous_peers_are_answered_and_kept() {
    let mut shared = Shared::new();
    let mut transfer = TransferStruct::new(text("host"), text("1.0"), RETRIES, None);
    transfer.handle_message(&mut shared, at(9), Payloads::AttemptConnection { peer: at(1) });
    transfer.handle_message(&mut shared, at(1), handshake(""));
    let messages = transfer.take_outbox();
    assert_eq!(messages.len(), 1);
    assert_eq!(messages[0].payload, handshake(""));
    assert_eq!(messages[0].target, at(1));
    transfer.handle_handshake(0);
    assert_eq!(transfer.take_outbox().len(), 1);
}

#[test]
fn session_counts_its_handshakes() {
    let mut session = HolePunchSession::new(at(1));
    assert_eq!(session.retries, 0);
    assert_eq!(session.timer, None);
    assert!(session.is_due(0));
    session.count_handshake(4);
    assert_eq!(session, HolePunchSession { addr: at(1), timer: Some(4), retries: 1 });
    assert!(!session.is_due(4 + PUNCH_INTERVAL - 1));
    assert!(session.is_due(4 + PUNCH_INTERVAL));
}

#[test]
fn ticking_drops_whoever_had_the_last() {
    let mut sessions = vec![
        HolePunchSession { addr: at(1), timer: None, retries: 2 },
        HolePunchSession { addr: at(2), timer: Some(10), retries: 2 },
        HolePunchSession { addr: at(3), timer: Some(0), retries: 0 },
    ];
    let targets = tick_all(&mut sessions, PUNCH_INTERVAL, RETRIES);
    assert_eq!(targets, vec![at(1), at(3)]);
    assert_eq!(
        sessions,
        vec![
            HolePunchSession { addr: at(2), timer: Some(10), retries: 2 },
            HolePunchSession { addr: at(3), timer: Some(PUNCH_INTERVAL), retries: 1 },
        ]
    );
    drop_reached(&mut sessions, at(2));
    assert_eq!(sessions.len(), 1);
    assert_eq!(sessions[0].addr, at(3));
}

#[test]
fn another_session_leaves_the_others_alone() {
    let (mut with, _one) = named();
    let (mut without, _two) = named();
    attempt(&mut with, at(1));
    attempt(&mut without, at(1));
    with.finish_round(0, 0);
    without.finish_round(0, 0);
    assert_eq!(sent(&mut with), sent(&mut without));
    // A second session for the same peer, and one for another.
    attempt(&mut with, at(1));
    for server in [&mut with, &mut without] {
        attempt(server, at(2));
    }
    let mut extra = 0;
    for k in 1..8 {
        with.finish_round(0, k * PUNCH_INTERVAL);
        without.finish_round(0, k * PUNCH_INTERVAL);
        let (more, fewer) = (sent(&mut with), sent(&mut without));
        let to = |all: &Vec<(Payloads, SocketAddr)>, n: u32| {
            all.iter().filter(|(_, target)| *target == at(n)).count()
        };
        assert_eq!(to(&more, 2), to(&fewer, 2));
        extra += to(&more, 1) - to(&fewer, 1);
    }
    assert_eq!(extra, usize::from(RETRIES));
}
