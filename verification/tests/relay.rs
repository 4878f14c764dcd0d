use typroxy::client::build_packet;
use typroxy::frame::UDP;
use typroxy::relay::{TcpAction, TcpEvent, TcpRelay, UdpAction, UdpEvent, UdpRelay};

fn written(action: TcpAction<Vec<u8>>) -> Vec<u8> {
    match action {
        TcpAction::Write(data) => data,
        other => panic!("{:?}", other),
    }
}

#[test]
fn tcp_relay_writes_in_order() {
    let mut relay = TcpRelay::new(b"first".to_vec());
    assert_eq!(written(relay.step(TcpEvent::Connected(true))), b"first".to_vec());
    assert!(matches!(relay.step(TcpEvent::Written(true)), TcpAction::Serve));
    for data in [b"a".to_vec(), b"bc".to_vec(), b"d".to_vec()] {
        assert_eq!(written(relay.step(TcpEvent::Queued(Some(data.clone())))), data);
        assert!(matches!(relay.step(TcpEvent::Written(true)), TcpAction::Receive));
    }
    assert!(matches!(relay.step(TcpEvent::Queued(None)), TcpAction::End));
}

#[test]
fn tcp_relay_ends_on_failure() {
    let mut relay = TcpRelay::new(b"first".to_vec());
    assert!(matches!(relay.step(TcpEvent::Connected(false)), TcpAction::End));

    let mut relay = TcpRelay::new(b"first".to_vec());
    relay.step(TcpEvent::Connected(true));
    assert!(matches!(relay.step(TcpEvent::Written(false)), TcpAction::End));

    let mut relay = TcpRelay::new(b"first".to_vec());
    relay.step(TcpEvent::Connected(true));
    relay.step(TcpEvent::Written(true));
    relay.step(TcpEvent::Queued(Some(b"x".to_vec())));
    assert!(matches!(relay.step(TcpEvent::Written(false)), TcpAction::End));
}

fn open_udp() -> UdpRelay {
    let mut relay = UdpRelay::new(4, "dns:53".to_string(), b"query".to_vec());
    assert!(matches!(relay.step(UdpEvent::LookedUp(true)), UdpAction::Bind));
    assert!(matches!(relay.step(UdpEvent::Bound(true)), UdpAction::Connect));
    match relay.step(UdpEvent::Connected(true)) {
        UdpAction::Open(first) => assert_eq!(first, b"query".to_vec()),
        other => panic!("{:?}", other),
    }
    relay
}

#[test]
fn udp_relay_sends_what_it_receives() {
    let mut relay = open_udp();
    for datagram in [b"answer".to_vec(), vec![]] {
        match relay.step(UdpEvent::Received(Some(datagram.clone()))) {
            UdpAction::Send(packet) => {
                assert_eq!(packet, build_packet(UDP, 4, "dns:53", &datagram))
            }
            other => panic!("{:?}", other),
        }
        assert!(matches!(relay.step(UdpEvent::Sent(true)), UdpAction::Receive));
    }
    assert!(matches!(relay.step(UdpEvent::Received(None)), UdpAction::Close));
}

#[test]
fn udp_relay_closes_when_the_client_is_gone() {
    let mut relay = open_udp();
    relay.step(UdpEvent::Received(Some(b"answer".to_vec())));
    assert!(matches!(relay.step(UdpEvent::Sent(false)), UdpAction::Close));
}

#[test]
fn udp_relay_gives_up_before_it_is_open() {
    let new = || UdpRelay::new(4, "dns:53".to_string(), b"query".to_vec());
    let mut relay = new();
    assert!(matches!(relay.step(UdpEvent::LookedUp(false)), UdpAction::GiveUp));
    let mut relay = new();
    relay.step(UdpEvent::LookedUp(true));
    assert!(matches!(relay.step(UdpEvent::Bound(false)), UdpAction::GiveUp));
    let mut relay = new();
    relay.step(UdpEvent::LookedUp(true));
    relay.step(UdpEvent::Bound(true));
    assert!(matches!(relay.step(UdpEvent::Connected(false)), UdpAction::GiveUp));
}
