use typroxy::client::{build_packet, parse_frame};
use typroxy::frame::{FrameReader, TCP, TUN, UDP};
use typroxy::modules::tun::{tun_packet, tun_upstream};
use typroxy::server;

fn frames_of(stream: &[u8]) -> Vec<Vec<u8>> {
    let mut reader = FrameReader::new();
    let mut frames = Vec::new();
    let mut at = 0;
    while stream.len() - at >= reader.wanted() {
        let end = at + reader.wanted();
        if let Some(frame) = reader.accept(stream[at..end].to_vec()) {
            frames.push(frame);
        }
        at = end;
        if at == stream.len() && reader.wanted() == 2 {
            break;
        }
    }
    frames
}

#[test]
fn packet_layout() {
    assert_eq!(
        build_packet(1, 0x0102, "a:1", &[9, 8]),
        vec![0, 16, 1, 0, 0, 0, 0, 0, 0, 1, 2, 0, 3, b'a', b':', b'1', 9, 8]
    );
    assert_eq!(
        build_packet(TCP, 0x0102_0304_0506_0708, "", &[]),
        vec![0, 11, 0, 1, 2, 3, 4, 5, 6, 7, 8, 0, 0]
    );
}

#[test]
fn both_ends_build_the_same_packet() {
    assert_eq!(
        build_packet(UDP, u64::MAX, "пример:53", b"query"),
        server::build_packet(UDP, u64::MAX, "пример:53", b"query")
    );
}

#[test]
fn key_is_counted_in_bytes() {
    let packet = build_packet(TCP, 1, "я:1", &[7]);
    assert_eq!(packet[..2], [0, 16]);
    assert_eq!(packet[11..13], [0, 4]);
    assert_eq!(packet[13..17], [0xD1, 0x8F, b':', b'1']);
    assert_eq!(packet[17], 7);
}

#[test]
fn lengths_are_written_modulo_65536() {
    let payload = vec![1u8; 65536 - 11];
    let packet = build_packet(TUN, 0, "", &payload);
    assert_eq!(packet.len(), 65536 + 2);
    assert_eq!(packet[..2], [0, 0]);

    let key = "k".repeat(65536 + 3);
    let packet = build_packet(TCP, 0, &key, &[]);
    assert_eq!(packet[..2], [0, 14]);
    assert_eq!(packet[11..13], [0, 3]);
    assert_eq!(packet.len(), 13 + 65536 + 3);
}

#[test]
fn frame_round_trip() {
    for (kind, id, key, payload) in [
        (TCP, 1u64, "example.com:443", b"hello".to_vec()),
        (UDP, u64::MAX, "[::1]:53", vec![0, 255, 1]),
        (TUN, 0, "", vec![]),
        (77, 0x8000_0000_0000_0001, " ключ\0", vec![5; 1000]),
    ] {
        let packet = build_packet(kind, id, key, &payload);
        assert_eq!(
            parse_frame(&packet[2..]),
            Some((kind, id, key.to_string(), payload))
        );
    }
}

#[test]
fn short_frames_are_refused() {
    assert_eq!(parse_frame(&[]), None);
    assert_eq!(parse_frame(&[0; 10]), None);
    assert_eq!(parse_frame(&[0; 11]), Some((0, 0, String::new(), vec![])));
    let mut data = vec![0u8; 13];
    data[10] = 3;
    assert_eq!(parse_frame(&data), None);
    data.push(0);
    assert_eq!(
        parse_frame(&data),
        Some((0, 0, "\0\0\0".to_string(), vec![]))
    );
    let mut data = vec![0u8; 100];
    data[9] = 1;
    assert_eq!(parse_frame(&data), None);
}

#[test]
fn malformed_keys_are_repaired() {
    let mut data = vec![0u8, 0, 0, 0, 0, 0, 0, 0, 9, 0, 3, b'a', 0xFF, b'b'];
    data.extend_from_slice(b"rest");
    assert_eq!(
        parse_frame(&data),
        Some((0, 9, "a\u{FFFD}b".to_string(), b"rest".to_vec()))
    );
}

#[test]
fn reader_cuts_a_stream_into_frames() {
    let mut stream = build_packet(TCP, 1, "a:1", b"one");
    stream.extend_from_slice(&[0, 0]);
    stream.extend_from_slice(&build_packet(UDP, 2, "b:2", b""));
    stream.extend_from_slice(&build_packet(TUN, 0, "", b"three"));
    stream.extend_from_slice(&[0, 5, 1, 2]);
    let frames = frames_of(&stream);
    assert_eq!(frames.len(), 4);
    assert_eq!(
        parse_frame(&frames[0]),
        Some((TCP, 1, "a:1".to_string(), b"one".to_vec()))
    );
    assert_eq!(frames[1], Vec::<u8>::new());
    assert_eq!(
        parse_frame(&frames[2]),
        Some((UDP, 2, "b:2".to_string(), vec![]))
    );
    assert_eq!(
        parse_frame(&frames[3]),
        Some((TUN, 0, String::new(), b"three".to_vec()))
    );
}

#[test]
fn reader_wants_a_length_and_then_a_frame() {
    let mut reader = FrameReader::new();
    assert_eq!(reader.wanted(), 2);
    assert_eq!(reader.accept(vec![1, 2]), None);
    assert_eq!(reader.wanted(), 258);
    assert_eq!(reader.accept(vec![7; 258]), Some(vec![7; 258]));
    assert_eq!(reader.wanted(), 2);
}

#[test]
fn longest_frame_passes_and_the_next_does_not() {
    let fits = vec![3u8; 65535 - 11];
    let frames = frames_of(&tun_packet(&fits));
    assert_eq!(frames.len(), 1);
    assert_eq!(parse_frame(&frames[0]), Some((TUN, 0, String::new(), fits)));

    let too_long = vec![3u8; 65535];
    let packet = tun_packet(&too_long);
    assert_eq!(packet[..2], [0, 10]);
    assert_ne!(frames_of(&packet), vec![packet[2..].to_vec()]);
}

#[test]
fn device_packets_have_no_connection_and_no_key() {
    assert_eq!(
        tun_upstream(&[0x45, 0]),
        Some(vec![0, 13, 2, 0, 0, 0, 0, 0, 0, 0, 0, 0, 0, 0x45, 0])
    );
    assert_eq!(tun_upstream(&[]), None);
    assert_eq!(
        tun_packet(&[]),
        vec![0, 11, 2, 0, 0, 0, 0, 0, 0, 0, 0, 0, 0]
    );
}
