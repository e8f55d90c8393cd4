use control_server::addr::SocketAddr;
use control_server::payload::{Event, ReceiveMessage};
use control_server::server::Server;
use control_server::startup::{
    AfterBind, BindRequest, GatewaySearch, LocalAddress, PortForwardResult, PortMapping,
    StartClientError, StartStep,
};

fn server() -> Server {
    Server::new("host".to_string(), "1.0".to_string(), 5)
}

#[test]
fn start_binds_the_port() {
    let request = server().start(true, 25071, false);
    assert_eq!(
        request,
        BindRequest { is_ipv6: true, port: Some(25071), socket_config: 3, next: AfterBind::Host }
    );
    let request = server().start(false, 25071, true);
    assert_eq!(request.next, AfterBind::Forward { port: 25071 });
}

#[test]
fn hole_punching_binds_any_port() {
    let request = server().start_with_hole_punching(true);
    assert_eq!(
        request,
        BindRequest {
            is_ipv6: true,
            port: None,
            socket_config: 3,
            next: AfterBind::FindRendezvous { is_ipv6: true },
        }
    );
}

#[test]
fn socket_error_is_passed_on() {
    let mut server = server();
    let request = server.start(false, 1, false);
    let step = server.bound(request, Err("in use"));
    assert_eq!(step.unwrap_err(), StartClientError::SocketError("in use"));
    assert_eq!(server.get_session_id(), None);
    assert!(server.get_receiver().try_recv().is_err());
}

#[test]
fn forwarding_comes_before_hosting() {
    let mut server = server();
    let request = server.start(false, 25071, true);
    let step = server.bound::<&str>(request, Ok(()));
    assert!(matches!(step, Ok(StartStep::Forward { port: 25071 })));
    assert_eq!(server.get_session_id(), None);
    let hosting = server.forwarded::<&str>(Ok(())).unwrap();
    assert_eq!(hosting.transfer, 0);
    assert_eq!(server.get_session_id(), Some(String::new()));
    assert_eq!(
        hosting.server_rx.try_recv().unwrap(),
        ReceiveMessage::Event(Event::ConnectionEstablished)
    );
}

#[test]
fn forwarding_error_is_passed_on() {
    let mut server = server();
    let step = server.forwarded(Err(PortForwardResult::AddPortError("refused")));
    assert_eq!(
        step.unwrap_err(),
        StartClientError::PortForwardError(PortForwardResult::AddPortError("refused"))
    );
    assert_eq!(server.get_session_id(), None);
}

#[test]
fn rendezvous_error_is_passed_on() {
    let mut server = server();
    let step = server.rendezvous_found(Err("no such host"));
    assert_eq!(step.unwrap_err(), StartClientError::RendezvousError("no such host"));
    assert_eq!(server.get_session_id(), None);
}

#[test]
fn gateway_is_looked_for_from_the_local_address() {
    let search = server().port_forward::<&str>(25071, LocalAddress::Ipv4(0xc0a8_0105)).unwrap();
    assert_eq!(
        search,
        GatewaySearch {
            bind_addr: SocketAddr::V4 { ipv4: 0xc0a8_0105, port: 0 },
            timeout_secs: 3,
            local_ip: 0xc0a8_0105,
            port: 25071,
        }
    );
    let mapping = search.found::<&str>(Ok(())).unwrap();
    assert_eq!(
        mapping,
        PortMapping {
            external_port: 25071,
            local_ip: 0xc0a8_0105,
            local_port: 25071,
            lease_secs: 86400,
            description: "YourControls",
        }
    );
    assert_eq!(mapping.added::<&str>(Ok(())), Ok(()));
}

#[test]
fn forwarding_fails_in_four_ways() {
    assert_eq!(
        server().port_forward::<&str>(1, LocalAddress::NotFound).unwrap_err(),
        PortForwardResult::LocalAddrNotFound
    );
    assert_eq!(
        server().port_forward::<&str>(1, LocalAddress::NotIpv4("::1".to_string())).unwrap_err(),
        PortForwardResult::LocalAddrNotIPv4("::1".to_string())
    );
    let search = server().port_forward::<&str>(1, LocalAddress::Ipv4(7)).unwrap();
    assert_eq!(
        search.found(Err("silence")).unwrap_err(),
        PortForwardResult::GatewayNotFound("silence")
    );
    let mapping = search.found::<&str>(Ok(())).unwrap();
    assert_eq!(
        mapping.added(Err("refused")).unwrap_err(),
        PortForwardResult::AddPortError("refused")
    );
}
