use control_server::addr::SocketAddr;
use control_server::payload::{Error, Event, Outgoing, Payloads, ReceiveMessage};
use control_server::server::Server;
use control_server::startup::{Hosting, StartStep};

const RETRIES: u8 = 4;

fn text(s: &str) -> String {
    s.to_string()
}

fn at(n: u32) -> SocketAddr {
    SocketAddr::V4 { ipv4: 0x0a00_0000 + n, port: 7777 }
}

fn hosted() -> (Server, Hosting) {
    let mut server = Server::new(text("host"), text("1.0"), RETRIES);
    let request = server.start(false, 25071, false);
    match server.bound::<u8>(request, Ok(())) {
        Ok(StartStep::Hosting(hosting)) => (server, hosting),
        other => panic!("{:?}", other),
    }
}

fn ask(server: &mut Server, from: SocketAddr, name: &str) -> bool {
    server.handle_read(
        0,
        Ok((from, Payloads::InitHandshake { name: text(name), version: text("1.0") })),
    )
}

fn joined(name: &str, in_control: bool, is_server: bool, is_observer: bool) -> Payloads {
    Payloads::PlayerJoined { name: text(name), in_control, is_server, is_observer }
}

fn reports(hosting: &Hosting) -> Vec<ReceiveMessage> {
    let mut all = Vec::new();
    while let Ok(report) = hosting.server_rx.try_recv() {
        all.push(report);
    }
    all
}

fn sent(server: &mut Server) -> Vec<(Payloads, SocketAddr)> {
    server.take_outbox(0).into_iter().map(|m: Outgoing| (m.payload, m.target)).collect()
}

fn hosted_with(names: &[(&str, u32)]) -> (Server, Hosting) {
    let (mut server, hosting) = hosted();
    for (name, n) in names {
        assert!(ask(&mut server, at(*n), name));
    }
    sent(&mut server);
    reports(&hosting);
    (server, hosting)
}

#[test]
fn new_server_hosts_nothing() {
    let server = Server::new(text("host"), text("1.0"), RETRIES);
    assert_eq!(server.get_connected_count(), 0);
    assert_eq!(server.get_session_id(), None);
    assert_eq!(server.get_server_name(), "host");
    assert!(server.is_server());
    assert!(!server.should_stop());
    assert!(server.get_receiver().try_recv().is_err());
}

#[test]
fn direct_hosting_is_reported_at_once() {
    let (server, hosting) = hosted();
    assert_eq!(hosting.transfer, 0);
    assert_eq!(reports(&hosting), vec![ReceiveMessage::Event(Event::ConnectionEstablished)]);
    assert_eq!(server.get_session_id(), Some(String::new()));
}

#[test]
fn first_client_meets_the_server() {
    let (mut server, hosting) = hosted();
    reports(&hosting);
    assert!(ask(&mut server, at(1), "ann"));
    assert_eq!(server.get_connected_count(), 1);
    assert_eq!(sent(&mut server), vec![(joined("host", true, true, false), at(1))]);
    assert_eq!(
        reports(&hosting),
        vec![ReceiveMessage::Payload(joined("ann", false, false, true))]
    );
}

#[test]
fn newcomer_and_others_are_introduced() {
    let (mut server, hosting) = hosted_with(&[("ann", 1), ("bob", 2)]);
    assert!(ask(&mut server, at(3), "cid"));
    assert_eq!(server.get_connected_count(), 3);
    assert_eq!(
        sent(&mut server),
        vec![
            (joined("ann", false, false, false), at(3)),
            (joined("bob", false, false, false), at(3)),
            (joined("host", true, true, false), at(3)),
            (joined("cid", false, false, true), at(1)),
            (joined("cid", false, false, true), at(2)),
        ]
    );
    assert_eq!(
        reports(&hosting),
        vec![ReceiveMessage::Payload(joined("cid", false, false, true))]
    );
}

#[test]
fn other_version_is_refused() {
    let (mut server, hosting) = hosted_with(&[("ann", 1)]);
    let request = Payloads::InitHandshake { name: text("bob"), version: text("0.9") };
    assert!(server.handle_read(0, Ok((at(2), request))));
    assert_eq!(
        sent(&mut server),
        vec![(Payloads::InvalidVersion { server_version: text("1.0") }, at(2))]
    );
    assert_eq!(reports(&hosting), vec![]);
    assert_eq!(server.get_connected_count(), 1);
}

#[test]
fn version_is_looked_at_before_the_name() {
    let (mut server, _hosting) = hosted_with(&[("ann", 1)]);
    let request = Payloads::InitHandshake { name: text("ann"), version: text("0.9") };
    assert!(server.handle_read(0, Ok((at(1), request))));
    assert_eq!(
        sent(&mut server),
        vec![(Payloads::InvalidVersion { server_version: text("1.0") }, at(1))]
    );
}

#[test]
fn taken_names_are_refused() {
    let (mut server, hosting) = hosted_with(&[("ann", 1)]);
    assert!(ask(&mut server, at(2), "ann"));
    assert!(ask(&mut server, at(3), "host"));
    assert_eq!(
        sent(&mut server),
        vec![(Payloads::InvalidName {}, at(2)), (Payloads::InvalidName {}, at(3))]
    );
    assert_eq!(reports(&hosting), vec![]);
    assert_eq!(server.get_connected_count(), 1);
}

#[test]
fn asking_twice_changes_nothing() {
    let (mut server, hosting) = hosted_with(&[("ann", 1), ("bob", 2)]);
    assert!(ask(&mut server, at(1), "ann"));
    assert_eq!(sent(&mut server), vec![]);
    assert_eq!(reports(&hosting), vec![]);
    assert_eq!(server.get_connected_count(), 2);
}

#[test]
fn updates_go_to_the_others() {
    let (mut server, hosting) = hosted_with(&[("ann", 1), ("bob", 2), ("cid", 3)]);
    let update = Payloads::Update { data: vec![1, 2, 3] };
    assert!(server.handle_read(0, Ok((at(2), update.clone()))));
    assert_eq!(sent(&mut server), vec![(update.clone(), at(1)), (update.clone(), at(3))]);
    assert_eq!(reports(&hosting), vec![ReceiveMessage::Payload(update)]);
}

#[test]
fn controls_go_where_a_client_gives_them() {
    let (mut server, hosting) = hosted_with(&[("ann", 1), ("bob", 2)]);
    let given = Payloads::TransferControl { from: text("ann"), to: text("bob") };
    assert!(server.handle_read(0, Ok((at(1), given.clone()))));
    assert_eq!(sent(&mut server), vec![(given.clone(), at(2))]);
    assert_eq!(reports(&hosting), vec![ReceiveMessage::Payload(given)]);
    assert!(ask(&mut server, at(3), "cid"));
    let told = sent(&mut server);
    assert_eq!(told[0], (joined("ann", false, false, false), at(3)));
    assert_eq!(told[1], (joined("bob", true, false, false), at(3)));
    assert_eq!(told[2], (joined("host", false, true, false), at(3)));
}

#[test]
fn server_only_payloads_are_ignored() {
    let (mut server, hosting) = hosted_with(&[("ann", 1), ("bob", 2)]);
    let payloads = vec![
        Payloads::InvalidName {},
        Payloads::InvalidVersion { server_version: text("2.0") },
        joined("eve", true, false, false),
        Payloads::PlayerLeft { name: text("ann") },
        Payloads::SetObserver { from: text("bob"), to: text("ann"), is_observer: true },
        Payloads::PeerEstablished { peer: at(9) },
    ];
    for payload in payloads {
        assert!(server.handle_read(0, Ok((at(2), payload))));
    }
    assert_eq!(sent(&mut server), vec![]);
    assert_eq!(reports(&hosting), vec![]);
    assert_eq!(server.get_connected_count(), 2);
}

#[test]
fn lost_connection_is_a_client_leaving() {
    let (mut server, hosting) = hosted_with(&[("ann", 1), ("bob", 2)]);
    assert!(server.handle_read(0, Err(Error::ConnectionClosed(at(1)))));
    let left = Payloads::PlayerLeft { name: text("ann") };
    assert_eq!(sent(&mut server), vec![(left.clone(), at(2))]);
    assert_eq!(reports(&hosting), vec![ReceiveMessage::Payload(left)]);
    assert_eq!(server.get_connected_count(), 1);
    // The name is free again.
    assert!(ask(&mut server, at(4), "ann"));
    assert_eq!(server.get_connected_count(), 2);
}

#[test]
fn leaving_undoes_joining() {
    let (mut server, _hosting) = hosted_with(&[("ann", 1)]);
    assert!(ask(&mut server, at(2), "bob"));
    assert!(server.handle_read(0, Err(Error::ConnectionClosed(at(2)))));
    assert_eq!(server.get_connected_count(), 1);
    sent(&mut server);
    assert!(ask(&mut server, at(3), "cid"));
    assert_eq!(
        sent(&mut server),
        vec![
            (joined("ann", false, false, false), at(3)),
            (joined("host", true, true, false), at(3)),
            (joined("cid", false, false, true), at(1)),
        ]
    );
}

#[test]
fn unknown_peer_is_not_missed() {
    let (mut server, hosting) = hosted_with(&[("ann", 1)]);
    assert!(server.handle_read(0, Err(Error::ConnectionClosed(at(9)))));
    assert_eq!(sent(&mut server), vec![]);
    assert_eq!(reports(&hosting), vec![]);
    assert_eq!(server.get_connected_count(), 1);
}

#[test]
fn two_names_at_one_address_leave_together() {
    let (mut server, hosting) = hosted_with(&[("ann", 1), ("amy", 1), ("bob", 2)]);
    assert_eq!(server.get_connected_count(), 3);
    assert!(server.handle_read(0, Err(Error::ConnectionClosed(at(1)))));
    let left = Payloads::PlayerLeft { name: text("amy") };
    assert_eq!(sent(&mut server), vec![(left.clone(), at(2))]);
    assert_eq!(reports(&hosting), vec![ReceiveMessage::Payload(left)]);
    // One connection was lost, and one is taken off.
    assert_eq!(server.get_connected_count(), 2);
}

#[test]
fn reading_goes_on_until_nothing_is_left() {
    let (mut server, hosting) = hosted_with(&[("ann", 1)]);
    assert!(server.handle_read(0, Err(Error::SerdeError(text("bad")))));
    assert!(server.handle_read(0, Err(Error::Other(text("odd")))));
    assert!(!server.handle_read(0, Err(Error::ReadTimeout)));
    assert_eq!(sent(&mut server), vec![]);
    assert_eq!(reports(&hosting), vec![]);
}

#[test]
fn application_reaches_every_client_in_order() {
    let (mut server, hosting) = hosted_with(&[("ann", 1), ("bob", 2)]);
    let first = Payloads::Update { data: vec![7] };
    let second = Payloads::TransferControl { from: text("host"), to: text("bob") };
    hosting.client_tx.try_send(first.clone()).unwrap();
    hosting.client_tx.try_send(second.clone()).unwrap();
    assert!(!server.finish_round(0, 0));
    assert_eq!(
        sent(&mut server),
        vec![
            (first.clone(), at(1)),
            (first, at(2)),
            (second.clone(), at(1)),
            (second, at(2)),
        ]
    );
    assert_eq!(reports(&hosting), vec![]);
    assert!(!server.finish_round(0, 1));
    assert_eq!(sent(&mut server), vec![]);
    assert!(ask(&mut server, at(3), "cid"));
    assert_eq!(sent(&mut server)[1], (joined("bob", true, false, false), at(3)));
}

#[test]
fn server_gives_the_controls_away() {
    let (mut server, hosting) = hosted_with(&[("ann", 1), ("bob", 2)]);
    server.transfer_control(text("ann"));
    let given = Payloads::TransferControl { from: text("host"), to: text("ann") };
    assert_eq!(reports(&hosting), vec![ReceiveMessage::Payload(given.clone())]);
    assert_eq!(sent(&mut server), vec![]);
    assert!(!server.finish_round(0, 0));
    assert_eq!(sent(&mut server), vec![(given.clone(), at(1)), (given, at(2))]);
    assert!(ask(&mut server, at(3), "cid"));
    let told = sent(&mut server);
    assert_eq!(told[0], (joined("ann", true, false, false), at(3)));
    assert_eq!(told[2], (joined("host", false, true, false), at(3)));
}

#[test]
fn server_makes_an_observer() {
    let (mut server, hosting) = hosted_with(&[("ann", 1), ("bob", 2)]);
    server.set_observer(text("bob"), true);
    server.set_observer(text("nobody"), true);
    assert_eq!(reports(&hosting), vec![]);
    assert!(!server.finish_round(0, 0));
    let said = Payloads::SetObserver { from: text("host"), to: text("bob"), is_observer: true };
    let idle = Payloads::SetObserver { from: text("host"), to: text("nobody"), is_observer: true };
    assert_eq!(
        sent(&mut server),
        vec![(said.clone(), at(1)), (said, at(2)), (idle.clone(), at(1)), (idle, at(2))]
    );
    assert!(ask(&mut server, at(3), "cid"));
    let told = sent(&mut server);
    assert_eq!(told[0], (joined("ann", false, false, false), at(3)));
    assert_eq!(told[1], (joined("bob", false, false, true), at(3)));
    server.set_observer(text("bob"), false);
    sent(&mut server);
    assert!(ask(&mut server, at(4), "dan"));
    assert_eq!(sent(&mut server)[1], (joined("bob", false, false, false), at(4)));
}

#[test]
fn words_before_hosting_wait_in_the_channel() {
    let mut server = Server::new(text("host"), text("1.0"), RETRIES);
    server.transfer_control(text("ann"));
    let given = Payloads::TransferControl { from: text("host"), to: text("ann") };
    assert_eq!(
        server.get_receiver().try_recv().unwrap(),
        ReceiveMessage::Payload(given.clone())
    );
    let request = server.start(true, 1, false);
    assert!(matches!(server.bound::<u8>(request, Ok(())), Ok(StartStep::Hosting(_))));
    assert!(ask(&mut server, at(1), "bob"));
    sent(&mut server);
    assert!(!server.finish_round(0, 0));
    assert_eq!(sent(&mut server), vec![(given, at(1))]);
}

#[test]
fn stopping_is_reported_and_stays() {
    let (mut server, hosting) = hosted_with(&[("ann", 1)]);
    server.stop(text("done"));
    assert!(server.should_stop());
    assert_eq!(
        reports(&hosting),
        vec![ReceiveMessage::Event(Event::ConnectionLost(text("done")))]
    );
    assert!(server.handle_read(0, Ok((at(1), Payloads::Update { data: vec![] }))));
    assert!(server.finish_round(0, 0));
    assert!(server.should_stop());
}

#[test]
fn transmitters_lead_into_the_servers_channels() {
    let (mut server, hosting) = hosted_with(&[("ann", 1)]);
    let update = Payloads::Update { data: vec![5] };
    server.get_transmitter().try_send(update.clone()).unwrap();
    assert!(!server.finish_round(0, 0));
    assert_eq!(sent(&mut server), vec![(update, at(1))]);
    let event = ReceiveMessage::Event(Event::ConnectionEstablished);
    server.get_server_transmitter().try_send(event).unwrap();
    assert_eq!(reports(&hosting), vec![ReceiveMessage::Event(Event::ConnectionEstablished)]);
}

#[test]
fn each_start_has_clients_of_its_own() {
    let (mut server, _hosting) = hosted_with(&[("ann", 1)]);
    let request = server.start(false, 25072, false);
    let second = match server.bound::<u8>(request, Ok(())) {
        Ok(StartStep::Hosting(hosting)) => hosting,
        other => panic!("{:?}", other),
    };
    assert_eq!(second.transfer, 1);
    let request = Payloads::InitHandshake { name: text("ann"), version: text("1.0") };
    assert!(server.handle_read(1, Ok((at(2), request))));
    // The name is free there, and the count is shared.
    assert_eq!(server.get_connected_count(), 2);
    assert_eq!(server.take_outbox(1).len(), 1);
    assert_eq!(sent(&mut server), vec![]);
}

#[test]
fn ipv6_addresses_differ_in_every_part() {
    let (mut server, _hosting) = hosted();
    let one = SocketAddr::V6 { ipv6: 1, port: 9, flowinfo: 0, scope_id: 0 };
    let two = SocketAddr::V6 { ipv6: 1, port: 9, flowinfo: 0, scope_id: 1 };
    assert!(ask(&mut server, one, "ann"));
    assert!(ask(&mut server, two, "bob"));
    sent(&mut server);
    let update = Payloads::Update { data: vec![1] };
    assert!(server.handle_read(0, Ok((one, update.clone()))));
    assert_eq!(sent(&mut server), vec![(update, two)]);
}
