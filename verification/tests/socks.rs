use typroxy::addr::PeerAddr;
use typroxy::client::{ClientSockets, ClientStep};
use typroxy::frame::{TCP, TUN, UDP};
use typroxy::modules::socks5::{
    associate_reply, connect_reply, method_reply, udp_upstream, unwrap_datagram, wrap_datagram,
    AfterSend, Command, ConnIds, Handshake, Next, TcpUpstream,
};
use typroxy::server::build_packet;

enum Talk {
    Incomplete,
    Unsupported,
    BadAddressType,
    Served(Command, String, usize),
}

/// Feeds `stream` to a dialogue; also counts the answers that it asks for.
fn talk(stream: &[u8]) -> (Talk, usize) {
    let mut phase: Handshake<String> = Handshake::Greeting;
    let mut at = 0;
    let mut answers = 0;
    loop {
        let end = at + phase.wanted();
        if stream.len() < end {
            return (Talk::Incomplete, answers);
        }
        match phase.advance(&stream[at..end]) {
            Next::Read(next) => phase = next,
            Next::Answer(next) => {
                answers += 1;
                phase = next;
            }
            Next::Serve { command, key } => return (Talk::Served(command, key, end), answers),
            Next::Unsupported => return (Talk::Unsupported, answers),
            Next::BadAddressType => return (Talk::BadAddressType, answers),
        }
        at = end;
    }
}

fn served(stream: &[u8]) -> (Command, String, usize) {
    match talk(stream) {
        (Talk::Served(command, key, used), 1) => (command, key, used),
        _ => panic!("not served"),
    }
}

#[test]
fn connect_to_ipv4() {
    let stream = [5, 1, 0, 5, 1, 0, 1, 93, 184, 216, 34, 1, 187, 99];
    assert_eq!(
        served(&stream),
        (Command::Connect, "93.184.216.34:443".to_string(), 13)
    );
}

#[test]
fn connect_to_name() {
    let mut stream = vec![5, 2, 0, 2, 5, 1, 0, 3, 11];
    stream.extend_from_slice(b"example.com");
    stream.extend_from_slice(&[0, 80]);
    assert_eq!(
        served(&stream),
        (Command::Connect, "example.com:80".to_string(), stream.len())
    );
}

#[test]
fn associate_with_ipv6() {
    let mut stream = vec![5, 0, 5, 3, 0, 4];
    stream.extend_from_slice(&[0x20, 1, 0xd, 0xb8, 0, 0, 0, 0, 0, 0, 0, 0, 0, 0, 0, 1]);
    stream.extend_from_slice(&[0, 53]);
    assert_eq!(
        served(&stream),
        (Command::Associate, "[2001:db8::1]:53".to_string(), stream.len())
    );
}

#[test]
fn empty_and_malformed_names() {
    assert_eq!(
        served(&[5, 0, 5, 1, 0, 3, 0, 0, 7]),
        (Command::Connect, ":7".to_string(), 9)
    );
    assert_eq!(
        served(&[5, 0, 5, 1, 0, 3, 2, b'a', 0xC3, 0, 7]),
        (Command::Connect, "a\u{FFFD}:7".to_string(), 11)
    );
}

#[test]
fn versions_are_not_looked_at() {
    assert_eq!(
        served(&[4, 0, 9, 1, 77, 1, 1, 2, 3, 4, 0, 1]),
        (Command::Connect, "1.2.3.4:1".to_string(), 12)
    );
}

#[test]
fn other_commands_are_not_served() {
    for command in [0u8, 2, 4, 255] {
        assert!(matches!(
            talk(&[5, 0, 5, command, 0, 9]),
            (Talk::Unsupported, 1)
        ));
    }
}

#[test]
fn unknown_address_types_fail() {
    for kind in [0u8, 2, 5, 255] {
        assert!(matches!(talk(&[5, 0, 5, 1, 0, kind]), (Talk::BadAddressType, 1)));
        assert!(matches!(talk(&[5, 0, 5, 3, 0, kind]), (Talk::BadAddressType, 1)));
    }
}

#[test]
fn every_prefix_is_incomplete() {
    let stream = [5, 1, 0, 5, 1, 0, 3, 2, b'h', b'i', 0, 80];
    for len in 0..stream.len() {
        let (end, answers) = talk(&stream[..len]);
        assert!(matches!(end, Talk::Incomplete));
        assert_eq!(answers, if len < 3 { 0 } else { 1 });
    }
    assert_eq!(served(&stream).1, "hi:80");
}

#[test]
fn replies() {
    assert_eq!(method_reply(), vec![5, 0]);
    assert_eq!(connect_reply(), vec![5, 0, 0, 1, 0, 0, 0, 0, 0, 0]);
    assert_eq!(
        associate_reply(PeerAddr::V4 { ip: [10, 1, 2, 3], port: 0x1234 }),
        vec![5, 0, 0, 1, 10, 1, 2, 3, 0x12, 0x34]
    );
    assert_eq!(
        associate_reply(PeerAddr::V6 { ip6: [9; 16], port: 7, flow_info: 1, scope_id: 2 }),
        vec![5, 0, 0, 1, 127, 0, 0, 1, 0, 7]
    );
}

#[test]
fn ids_count_from_one() {
    let mut ids = ConnIds::new();
    assert_eq!(ids.allocate(), 1);
    assert_eq!(ids.allocate(), 2);
    assert_eq!(ids.allocate(), 3);
}

#[test]
fn tcp_reads_go_into_the_tunnel() {
    let mut relay = TcpUpstream::new(7, "h:1".to_string());
    assert_eq!(relay.on_read(b"data"), build_packet(TCP, 7, "h:1", b"data"));
    assert!(matches!(relay.on_sent(true), AfterSend::Read));
    assert_eq!(relay.on_read(b"more"), build_packet(TCP, 7, "h:1", b"more"));
    assert!(matches!(relay.on_sent(true), AfterSend::Read));
    assert_eq!(relay.on_read(b""), build_packet(TCP, 7, "h:1", b""));
    assert!(matches!(relay.on_sent(true), AfterSend::Close));
}

#[test]
fn failed_writes_are_followed_by_the_end() {
    let mut relay = TcpUpstream::new(7, "h:1".to_string());
    relay.on_read(b"data");
    match relay.on_sent(false) {
        AfterSend::Send(packet) => assert_eq!(packet, build_packet(TCP, 7, "h:1", b"")),
        other => panic!("{:?}", other),
    }
    assert!(matches!(relay.on_sent(false), AfterSend::Close));

    let mut relay = TcpUpstream::new(8, "h:1".to_string());
    relay.on_read(b"");
    assert!(matches!(relay.on_sent(false), AfterSend::Close));
}

#[test]
fn datagrams_are_unwrapped() {
    let v4 = [0, 0, 0, 1, 1, 2, 3, 4, 0, 53, b'q'];
    assert_eq!(unwrap_datagram(&v4), Some(b"q".to_vec()));
    assert_eq!(unwrap_datagram(&v4[..10]), None);
    let mut fragment = v4.to_vec();
    fragment[2] = 1;
    assert_eq!(unwrap_datagram(&fragment), None);

    let mut name = vec![0, 0, 0, 3, 5];
    name.extend_from_slice(b"a.com");
    name.extend_from_slice(&[0, 53]);
    assert_eq!(unwrap_datagram(&name), None);
    name.extend_from_slice(b"xyz");
    assert_eq!(unwrap_datagram(&name), Some(b"xyz".to_vec()));

    let mut v6 = vec![0u8; 22];
    v6[3] = 4;
    assert_eq!(unwrap_datagram(&v6), None);
    v6.push(9);
    assert_eq!(unwrap_datagram(&v6), Some(vec![9]));

    let mut unknown = vec![0u8; 11];
    unknown[3] = 200;
    assert_eq!(unwrap_datagram(&unknown), Some(vec![0]));

    let short_name = [0, 0, 0, 3, 0, 0, 53, 1, 2, 3];
    assert_eq!(unwrap_datagram(&short_name), None);
    let short_name = [0, 0, 0, 3, 0, 0, 53, 1, 2, 3, 4];
    assert_eq!(unwrap_datagram(&short_name), Some(vec![1, 2, 3, 4]));
}

#[test]
fn datagrams_go_into_the_tunnel() {
    let datagram = [0, 0, 0, 1, 1, 2, 3, 4, 0, 53, b'q'];
    assert_eq!(
        udp_upstream(3, "dns:53", &datagram),
        Some(build_packet(UDP, 3, "dns:53", b"q"))
    );
    assert_eq!(udp_upstream(3, "dns:53", &datagram[..10]), None);
}

#[test]
fn datagrams_are_wrapped() {
    assert_eq!(
        wrap_datagram("8.8.8.8:53", b"ab"),
        vec![0, 0, 0, 1, 127, 0, 0, 1, 0, 53, b'a', b'b']
    );
    assert_eq!(
        wrap_datagram("nowhere", b""),
        vec![0, 0, 0, 1, 127, 0, 0, 1, 0, 0]
    );
    assert_eq!(
        unwrap_datagram(&wrap_datagram("h:1", b"payload")),
        Some(b"payload".to_vec())
    );
    assert_eq!(unwrap_datagram(&wrap_datagram("h:1", b"")), None);
}

fn frame(kind: u8, conn_id: u64, key: &str, payload: &[u8]) -> Vec<u8> {
    build_packet(kind, conn_id, key, payload)[2..].to_vec()
}

#[test]
fn tcp_replies_reach_open_connections() {
    let mut sockets = ClientSockets::new();
    let data = frame(TCP, 4, "h:1", b"reply");
    assert!(matches!(sockets.on_frame(&data, true), ClientStep::Ignore));
    sockets.open_tcp(4);
    sockets.open_tcp(5);
    match sockets.on_frame(&data, false) {
        ClientStep::WriteTcp { conn_id, payload } => {
            assert_eq!((conn_id, payload), (4, b"reply".to_vec()))
        }
        other => panic!("{:?}", other),
    }
    sockets.close_tcp(4);
    assert!(matches!(sockets.on_frame(&data, true), ClientStep::Ignore));
    let data = frame(TCP, 5, "h:1", b"");
    assert!(matches!(
        sockets.on_frame(&data, true),
        ClientStep::WriteTcp { conn_id: 5, .. }
    ));
}

#[test]
fn udp_replies_go_to_the_last_sender() {
    let first = PeerAddr::V4 { ip: [127, 0, 0, 1], port: 4000 };
    let last = PeerAddr::V6 { ip6: [1; 16], port: 4001, flow_info: 2, scope_id: 3 };
    let data = frame(UDP, 9, "dns:53", b"answer");
    let mut sockets = ClientSockets::new();
    sockets.heard_from(9, first);
    assert!(matches!(sockets.on_frame(&data, true), ClientStep::Ignore));
    sockets.open_relay(9);
    assert!(matches!(sockets.on_frame(&data, true), ClientStep::Ignore));
    sockets.heard_from(9, first);
    sockets.heard_from(9, last);
    match sockets.on_frame(&data, true) {
        ClientStep::SendDatagram { conn_id, to, datagram } => {
            assert_eq!(conn_id, 9);
            assert_eq!(to, last);
            assert_eq!(datagram, wrap_datagram("dns:53", b"answer"));
        }
        other => panic!("{:?}", other),
    }
    sockets.close_relay(9);
    assert!(matches!(sockets.on_frame(&data, true), ClientStep::Ignore));
}

#[test]
fn device_packets_need_a_device() {
    let sockets = ClientSockets::new();
    let data = frame(TUN, 0, "", b"ip");
    assert!(matches!(sockets.on_frame(&data, false), ClientStep::Ignore));
    match sockets.on_frame(&data, true) {
        ClientStep::SendTun { packet } => assert_eq!(packet, b"ip".to_vec()),
        other => panic!("{:?}", other),
    }
}

#[test]
fn other_frames_are_ignored_by_the_client() {
    let mut sockets = ClientSockets::new();
    sockets.open_tcp(1);
    assert!(matches!(sockets.on_frame(&[0; 10], true), ClientStep::Ignore));
    let data = frame(3, 1, "h:1", b"x");
    assert!(matches!(sockets.on_frame(&data, true), ClientStep::Ignore));
}
