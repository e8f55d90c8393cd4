use control_server::addr::SocketAddr;
use control_server::payload::{Error, Event, Payloads, ReceiveMessage};
use control_server::server::Server;
use control_server::startup::{Hosting, StartStep};
use control_server::steps::{HostingAction, HostingEvent};

const RENDEZVOUS: SocketAddr = SocketAddr::V4 { ipv4: 1, port: 5555 };

fn text(s: &str) -> String {
    s.to_string()
}

fn at(n: u32) -> SocketAddr {
    SocketAddr::V4 { ipv4: 0x0a00_0000 + n, port: 7777 }
}

fn update(n: u8) -> Payloads {
    Payloads::Update { data: vec![n] }
}

fn asks(n: u32, name: &str) -> HostingEvent {
    let request = Payloads::InitHandshake { name: text(name), version: text("1.0") };
    HostingEvent::Read(Ok((at(n), request)))
}

fn says(n: u32, payload: Payloads) -> HostingEvent {
    HostingEvent::Read(Ok((at(n), payload)))
}

fn timeout() -> HostingEvent {
    HostingEvent::Read(Err(Error::ReadTimeout))
}

fn host(server: &mut Server) -> Hosting {
    let request = server.start(false, 25071, false);
    match server.bound::<u8>(request, Ok(())) {
        Ok(StartStep::Hosting(hosting)) => hosting,
        other => panic!("{:?}", other),
    }
}

fn with_ann_and_bob() -> (Server, Hosting) {
    let mut server = Server::new(text("host"), text("1.0"), 3);
    let hosting = host(&mut server);
    assert_eq!(server.advance(0, asks(1, "ann")), HostingAction::Read);
    assert_eq!(server.advance(0, asks(2, "bob")), HostingAction::Read);
    server.take_outbox(0);
    reports(&hosting);
    (server, hosting)
}

fn sent(server: &mut Server) -> Vec<(Payloads, SocketAddr)> {
    server.take_outbox(0).into_iter().map(|m| (m.payload, m.target)).collect()
}

fn reports(hosting: &Hosting) -> Vec<ReceiveMessage> {
    let mut all = Vec::new();
    while let Ok(report) = hosting.server_rx.try_recv() {
        all.push(report);
    }
    all
}

#[test]
fn loop_reads_looks_and_begins_again() {
    let (mut server, _hosting) = with_ann_and_bob();
    assert_eq!(server.advance(0, says(1, update(1))), HostingAction::Read);
    assert_eq!(
        server.advance(0, HostingEvent::Read(Err(Error::ConnectionClosed(at(9))))),
        HostingAction::Read
    );
    assert_eq!(server.advance(0, timeout()), HostingAction::LookAtClock);
    assert_eq!(server.advance(0, HostingEvent::Clock(0)), HostingAction::Read);
    assert_eq!(server.advance(0, timeout()), HostingAction::LookAtClock);
    assert_eq!(server.advance(0, HostingEvent::Clock(1)), HostingAction::Read);
}

#[test]
fn round_handles_each_message_once_and_then_the_application() {
    let (mut server, hosting) = with_ann_and_bob();
    hosting.client_tx.try_send(update(9)).unwrap();
    server.advance(0, says(1, update(1)));
    server.advance(0, HostingEvent::Read(Err(Error::SerdeError(text("bad")))));
    server.advance(0, says(2, update(2)));
    server.advance(0, HostingEvent::Read(Err(Error::Other(text("odd")))));
    server.advance(0, says(1, update(3)));
    server.advance(0, timeout());
    server.advance(0, HostingEvent::Clock(0));
    assert_eq!(
        sent(&mut server),
        vec![
            (update(1), at(2)),
            (update(2), at(1)),
            (update(3), at(2)),
            (update(9), at(1)),
            (update(9), at(2)),
        ]
    );
    assert_eq!(
        reports(&hosting),
        vec![
            ReceiveMessage::Payload(update(1)),
            ReceiveMessage::Payload(update(2)),
            ReceiveMessage::Payload(update(3)),
        ]
    );
}

#[test]
fn handing_over_early_or_late_sends_the_same() {
    let (mut early, _one) = with_ann_and_bob();
    let (mut late, _two) = with_ann_and_bob();
    let mut handed = Vec::new();
    early.transfer_control(text("bob"));
    late.transfer_control(text("bob"));
    for n in 0..3 {
        early.advance(0, says(1, update(n)));
        late.advance(0, says(1, update(n)));
        handed.extend(sent(&mut early));
    }
    for event in [timeout as fn() -> HostingEvent, || HostingEvent::Clock(4)] {
        early.advance(0, event());
        late.advance(0, event());
        handed.extend(sent(&mut early));
    }
    assert_eq!(handed.len(), 5);
    assert_eq!(sent(&mut late), handed);
}

#[test]
fn server_that_is_to_stop_goes_through_one_round() {
    let mut server = Server::new(text("host"), text("1.0"), 3);
    server.stop(text("never mind"));
    let hosting = host(&mut server);
    hosting.client_tx.try_send(update(5)).unwrap();
    assert_eq!(server.advance(0, asks(1, "ann")), HostingAction::Read);
    assert_eq!(server.advance(0, timeout()), HostingAction::LookAtClock);
    server.take_outbox(0);
    assert_eq!(server.advance(0, HostingEvent::Clock(0)), HostingAction::End);
    assert_eq!(sent(&mut server), vec![(update(5), at(1))]);
}

#[test]
fn round_that_is_told_to_stop_still_sends() {
    let (mut server, hosting) = with_ann_and_bob();
    assert_eq!(server.advance(0, timeout()), HostingAction::LookAtClock);
    hosting.client_tx.try_send(update(1)).unwrap();
    hosting.client_tx.try_send(update(2)).unwrap();
    server.stop(text("done"));
    assert_eq!(server.advance(0, HostingEvent::Clock(0)), HostingAction::End);
    assert_eq!(
        sent(&mut server),
        vec![(update(1), at(1)), (update(1), at(2)), (update(2), at(1)), (update(2), at(2))]
    );
}

#[test]
fn lost_rendezvous_ends_the_loop_with_its_round() {
    let mut server = Server::new(text("host"), text("1.0"), 3);
    let request = server.start_with_hole_punching(false);
    assert!(server.bound::<u8>(request, Ok(())).is_ok());
    let hosting = server.rendezvous_found::<u8>(Ok(RENDEZVOUS)).unwrap();
    let lost = HostingEvent::Read(Err(Error::ConnectionClosed(RENDEZVOUS)));
    assert_eq!(server.advance(0, lost), HostingAction::Read);
    assert_eq!(server.advance(0, timeout()), HostingAction::LookAtClock);
    assert_eq!(server.advance(0, HostingEvent::Clock(0)), HostingAction::End);
    assert_eq!(reports(&hosting), vec![ReceiveMessage::Event(Event::SessionIdFetchFailed)]);
}

#[test]
fn application_stays_connected_through_every_step() {
    let (mut server, hosting) = with_ann_and_bob();
    let second = host(&mut server);
    server.transfer_control(text("ann"));
    server.set_observer(text("bob"), true);
    server.advance(0, timeout());
    server.advance(0, HostingEvent::Clock(0));
    server.take_outbox(0);
    server.stop(text("done"));
    reports(&second);
    hosting.client_tx.try_send(update(7)).unwrap();
    server.advance(0, HostingEvent::Clock(1));
    assert_eq!(sent(&mut server), vec![(update(7), at(1)), (update(7), at(2))]);
    server.advance(0, says(1, update(8)));
    assert_eq!(reports(&hosting), vec![ReceiveMessage::Payload(update(8))]);
}

#[test]
fn count_is_that_of_the_clients_through_every_step() {
    let (mut server, _hosting) = with_ann_and_bob();
    host(&mut server);
    assert_eq!(server.advance(1, asks(3, "cid")), HostingAction::Read);
    assert_eq!(server.get_connected_count(), 3);
    server.set_observer(text("cid"), true);
    server.transfer_control(text("cid"));
    server.advance(0, timeout());
    server.advance(0, HostingEvent::Clock(0));
    server.take_outbox(0);
    let request = server.start_with_hole_punching(true);
    assert!(server.bound::<u8>(request, Ok(())).is_ok());
    assert!(server.rendezvous_found::<u8>(Ok(RENDEZVOUS)).is_ok());
    server.stop(text("done"));
    assert_eq!(server.get_connected_count(), 3);
    server.advance(0, HostingEvent::Read(Err(Error::ConnectionClosed(at(1)))));
    assert_eq!(server.get_connected_count(), 2);
}

fn heard(n: u32, payload: Payloads) -> Result<(SocketAddr, Payloads), Error> {
    Ok((at(n), payload))
}

#[test]
fn one_round_at_once() {
    let (mut server, hosting) = with_ann_and_bob();
    hosting.client_tx.try_send(update(9)).unwrap();
    let reads = vec![
        heard(1, update(1)),
        Err(Error::SerdeError(text("bad"))),
        heard(2, update(2)),
        Err(Error::Other(text("odd"))),
        Err(Error::ReadTimeout),
        heard(1, update(3)),
        Err(Error::ConnectionClosed(at(1))),
    ];
    assert!(!server.run_round(0, reads, 0));
    // Nothing after the timeout is looked at.
    assert_eq!(
        sent(&mut server),
        vec![(update(1), at(2)), (update(2), at(1)), (update(9), at(1)), (update(9), at(2))]
    );
    assert_eq!(
        reports(&hosting),
        vec![ReceiveMessage::Payload(update(1)), ReceiveMessage::Payload(update(2))]
    );
    assert_eq!(server.get_connected_count(), 2);
}

#[test]
fn one_round_at_once_and_one_by_one_are_the_same() {
    let (mut whole, _one) = with_ann_and_bob();
    let (mut parts, _two) = with_ann_and_bob();
    let reads = vec![heard(1, update(1)), heard(9, update(2)), Err(Error::ReadTimeout)];
    assert!(!whole.run_round(0, reads, 3));
    parts.advance(0, says(1, update(1)));
    parts.advance(0, says(9, update(2)));
    parts.advance(0, timeout());
    parts.advance(0, HostingEvent::Clock(3));
    assert_eq!(sent(&mut whole), sent(&mut parts));
}

#[test]
fn last_round_ends_the_loop_and_still_sends() {
    let (mut server, hosting) = with_ann_and_bob();
    hosting.client_tx.try_send(update(4)).unwrap();
    server.stop(text("done"));
    assert!(server.run_round(0, vec![heard(2, update(1)), Err(Error::ReadTimeout)], 0));
    assert_eq!(
        sent(&mut server),
        vec![(update(1), at(1)), (update(4), at(1)), (update(4), at(2))]
    );
}

#[test]
fn quiet_round_changes_nothing() {
    let (mut server, hosting) = with_ann_and_bob();
    assert!(!server.run_round(0, vec![], 0));
    assert!(!server.run_round(0, vec![Err(Error::ReadTimeout)], 1));
    assert_eq!(sent(&mut server), vec![]);
    assert_eq!(reports(&hosting), vec![]);
}

#[test]
fn count_is_joins_less_losses() {
    let (mut server, _hosting) = with_ann_and_bob();
    // A third and a fourth client behind one address, whose connection is lost.
    server.advance(0, asks(3, "cid"));
    server.advance(0, asks(3, "dan"));
    assert_eq!(server.get_connected_count(), 4);
    server.advance(0, HostingEvent::Read(Err(Error::ConnectionClosed(at(3)))));
    assert_eq!(server.get_connected_count(), 3);
    // Nobody is left there to be lost.
    server.advance(0, HostingEvent::Read(Err(Error::ConnectionClosed(at(3)))));
    assert_eq!(server.get_connected_count(), 3);
    server.advance(0, HostingEvent::Read(Err(Error::ConnectionClosed(at(1)))));
    server.advance(0, HostingEvent::Read(Err(Error::ConnectionClosed(at(2)))));
    server.advance(0, asks(4, "eve"));
    server.advance(0, HostingEvent::Read(Err(Error::ConnectionClosed(at(4)))));
    assert_eq!(server.get_connected_count(), 1);
}

#[test]
fn session_id_is_that_of_the_latest_start() {
    let mut server = Server::new(text("host"), text("1.0"), 3);
    assert_eq!(server.get_session_id(), None);
    assert!(server.rendezvous_found::<u8>(Ok(RENDEZVOUS)).is_ok());
    assert_eq!(server.get_session_id(), Some(text("")));
    let named = |id: &str| says(5, Payloads::HostingReceived { session_id: text(id) });
    server.advance(0, named("abc"));
    server.advance(0, named("def"));
    assert_eq!(server.get_session_id(), Some(text("def")));
    assert!(server.rendezvous_found::<u8>(Ok(RENDEZVOUS)).is_ok());
    assert_eq!(server.get_session_id(), Some(text("")));
    server.advance(0, named("old"));
    assert_eq!(server.get_session_id(), Some(text("")));
    server.advance(1, named("new"));
    assert_eq!(server.get_session_id(), Some(text("new")));
}

#[test]
fn each_word_from_the_rendezvous_opens_once() {
    let mut server = Server::new(text("host"), text("1.0"), 3);
    let hosting = server.rendezvous_found::<u8>(Ok(RENDEZVOUS)).unwrap();
    let opened = |hosting: &Hosting| {
        let opening = ReceiveMessage::Event(Event::ConnectionEstablished);
        reports(hosting).into_iter().filter(|report| *report == opening).count()
    };
    server.advance(0, asks(1, "ann"));
    server.advance(0, timeout());
    server.advance(0, HostingEvent::Clock(0));
    assert_eq!(opened(&hosting), 0);
    for id in ["abc", "def"] {
        server.advance(0, says(5, Payloads::HostingReceived { session_id: text(id) }));
    }
    server.transfer_control(text("ann"));
    server.stop(text("done"));
    assert_eq!(opened(&hosting), 2);
}

#[test]
fn reports_come_out_in_order() {
    let server = Server::new(text("host"), text("1.0"), 3);
    for n in 0..4 {
        server.get_server_transmitter().try_send(ReceiveMessage::Payload(update(n))).unwrap();
        server.get_transmitter().try_send(update(n + 10)).unwrap();
    }
    for n in 0..4 {
        assert_eq!(
            server.get_receiver().try_recv().unwrap(),
            ReceiveMessage::Payload(update(n))
        );
    }
    assert!(server.get_receiver().try_recv().is_err());
}
