use typroxy::addr::{target_key, target_port};
use typroxy::client::build_packet;
use typroxy::frame::{TCP, TUN, UDP};
use typroxy::server::{
    normalize_key, parse_client_frame, retain_delivered, tcp_downstream, udp_downstream,
    OutboundSockets, ServerStep, TCP_CONNECT_SECONDS, UDP_LOOKUP_SECONDS,
};

fn frame(kind: u8, conn_id: u64, key: &str, payload: &[u8]) -> Vec<u8> {
    build_packet(kind, conn_id, key, payload)[2..].to_vec()
}

#[test]
fn keys_are_normalized() {
    assert_eq!(normalize_key("example.com"), "example.com:80");
    assert_eq!(normalize_key("example.com:443"), "example.com:443");
    assert_eq!(normalize_key(" \0\texample.com \0\0"), "example.com:80");
    assert_eq!(normalize_key("[::1]"), "[::1]");
    assert_eq!(normalize_key(":"), ":");
    assert_eq!(normalize_key(""), "");
    assert_eq!(normalize_key(" \0 "), "");
    assert_eq!(normalize_key("a b"), "a b:80");
    assert_eq!(normalize_key(&normalize_key("\u{3000}x")), "x:80");
}

#[test]
fn client_frames_have_normal_keys() {
    let data = frame(TCP, 6, " host\0", b"x");
    assert_eq!(
        parse_client_frame(&data),
        Some((TCP, 6, "host:80".to_string(), b"x".to_vec()))
    );
    assert_eq!(parse_client_frame(&data[..10]), None);
    assert_eq!(parse_client_frame(&data[..16]), None);
    let mut malformed = vec![TCP, 0, 0, 0, 0, 0, 0, 0, 6, 0, 2, 0xFF, b'h'];
    malformed.push(1);
    assert_eq!(
        parse_client_frame(&malformed),
        Some((TCP, 6, "\u{FFFD}h:80".to_string(), vec![1]))
    );
}

#[test]
fn normal_keys_keep_their_port() {
    for host in ["h", " h", "\0", "", " : ", "[::1]"] {
        for port in [0u16, 53, 65535] {
            assert_eq!(target_port(&normalize_key(&target_key(host, port))), port);
        }
    }
}

#[test]
fn ip_keys_arrive_unchanged() {
    for key in ["1.2.3.4:80", "[2001:db8::1]:53", "[::]:0"] {
        assert_eq!(normalize_key(key), key);
    }
}

#[test]
fn tcp_session() {
    let mut sockets = OutboundSockets::new();
    assert!(matches!(
        sockets.on_frame(&frame(TCP, 1, "h", b""), true),
        ServerStep::Ignore
    ));
    match sockets.on_frame(&frame(TCP, 1, " h", b"one"), true) {
        ServerStep::OpenTcp { conn_id, key, host, payload } => {
            assert_eq!(conn_id, 1);
            assert_eq!(key, "h:80");
            assert_eq!(host, "h:80");
            assert_eq!(payload, b"one".to_vec());
        }
        other => panic!("{:?}", other),
    }
    match sockets.on_frame(&frame(TCP, 1, "elsewhere", b"two"), true) {
        ServerStep::WriteTcp { conn_id, payload } => {
            assert_eq!((conn_id, payload), (1, b"two".to_vec()))
        }
        other => panic!("{:?}", other),
    }
    assert!(matches!(
        sockets.on_frame(&frame(TCP, 1, "h", b""), true),
        ServerStep::CloseTcp { conn_id: 1 }
    ));
    assert!(matches!(
        sockets.on_frame(&frame(TCP, 1, "h", b""), true),
        ServerStep::Ignore
    ));
    assert!(matches!(
        sockets.on_frame(&frame(TCP, 1, "h", b"again"), true),
        ServerStep::OpenTcp { conn_id: 1, .. }
    ));
}

#[test]
fn ended_relays_open_anew() {
    let mut sockets = OutboundSockets::new();
    sockets.on_frame(&frame(TCP, 1, "h", b"one"), true);
    sockets.relay_ended(1);
    assert!(matches!(
        sockets.on_frame(&frame(TCP, 1, "h", b"two"), true),
        ServerStep::OpenTcp { conn_id: 1, .. }
    ));
}

#[test]
fn udp_session() {
    let mut sockets = OutboundSockets::new();
    for _ in 0..2 {
        match sockets.on_frame(&frame(UDP, 2, "dns:53", b"q"), true) {
            ServerStep::OpenUdp { conn_id, key, host, payload } => {
                assert_eq!(conn_id, 2);
                assert_eq!(key, "dns:53");
                assert_eq!(host, "dns:53");
                assert_eq!(payload, b"q".to_vec());
            }
            other => panic!("{:?}", other),
        }
    }
    sockets.udp_opened(2);
    match sockets.on_frame(&frame(UDP, 2, "dns:53", b""), true) {
        ServerStep::SendDatagram { conn_id, payload } => {
            assert_eq!((conn_id, payload), (2, vec![]))
        }
        other => panic!("{:?}", other),
    }
    sockets.relay_ended(2);
    assert!(matches!(
        sockets.on_frame(&frame(UDP, 2, "dns:53", b"q"), true),
        ServerStep::OpenUdp { conn_id: 2, .. }
    ));
}

#[test]
fn one_id_has_one_socket() {
    let mut sockets = OutboundSockets::new();
    sockets.udp_opened(3);
    assert!(matches!(
        sockets.on_frame(&frame(TCP, 3, "h", b""), true),
        ServerStep::Ignore
    ));
    assert!(matches!(
        sockets.on_frame(&frame(TCP, 3, "h", b"x"), true),
        ServerStep::OpenTcp { conn_id: 3, .. }
    ));
    assert!(matches!(
        sockets.on_frame(&frame(UDP, 3, "h", b"x"), true),
        ServerStep::Ignore
    ));
}

#[test]
fn connections_do_not_mix() {
    let mut sockets = OutboundSockets::new();
    sockets.on_frame(&frame(TCP, 1, "a", b"x"), true);
    sockets.on_frame(&frame(TCP, 2, "b", b"y"), true);
    assert!(matches!(
        sockets.on_frame(&frame(TCP, 1, "a", b""), true),
        ServerStep::CloseTcp { conn_id: 1 }
    ));
    assert!(matches!(
        sockets.on_frame(&frame(TCP, 2, "b", b"z"), true),
        ServerStep::WriteTcp { conn_id: 2, .. }
    ));
}

#[test]
fn device_packets_and_other_frames() {
    let mut sockets = OutboundSockets::new();
    match sockets.on_frame(&frame(TUN, 0, "", b"ip"), true) {
        ServerStep::SendTun { packet } => assert_eq!(packet, b"ip".to_vec()),
        other => panic!("{:?}", other),
    }
    assert!(matches!(
        sockets.on_frame(&frame(TUN, 0, "", b"ip"), false),
        ServerStep::Ignore
    ));
    assert!(matches!(
        sockets.on_frame(&frame(9, 0, "h", b"x"), true),
        ServerStep::Ignore
    ));
    assert!(matches!(sockets.on_frame(&[], true), ServerStep::Ignore));
}

#[test]
fn reads_from_targets() {
    assert_eq!(
        tcp_downstream(5, "h:1", b"abc"),
        Some(build_packet(TCP, 5, "h:1", b"abc"))
    );
    assert_eq!(tcp_downstream(5, "h:1", b""), None);
    assert_eq!(
        udp_downstream(5, "h:1", b""),
        build_packet(UDP, 5, "h:1", b"")
    );
}

#[test]
fn subscribers_that_miss_a_packet_are_dropped() {
    let mut subscribers = vec!["a", "b", "c", "d"];
    retain_delivered(&mut subscribers, &vec![true, false, false, true]);
    assert_eq!(subscribers, vec!["a", "d"]);
    retain_delivered(&mut subscribers, &vec![true, true]);
    assert_eq!(subscribers, vec!["a", "d"]);
    retain_delivered(&mut subscribers, &vec![false, false]);
    assert!(subscribers.is_empty());
    retain_delivered(&mut subscribers, &vec![]);
    assert!(subscribers.is_empty());
}

#[test]
fn time_limits() {
    assert_eq!(TCP_CONNECT_SECONDS, 5);
    assert_eq!(UDP_LOOKUP_SECONDS, 3);
}
