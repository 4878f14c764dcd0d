//! What the two ends of the tunnel do together.

use vstd::prelude::*;

use crate::addr;
use crate::addr::PeerAddr;
use crate::client;
use crate::client::{ClientStep, OpenSockets};
use crate::frame;
use crate::frame::Frame;
use crate::modules::socks5;
use crate::server;
use crate::server::{SocketKind, StepView};
use crate::text;

verus! {

// ---------------------------------------------------------------------------------------------
// From the client to the server
// ---------------------------------------------------------------------------------------------

/// The sockets that are open once the server has taken in `raw`, frame after frame, and what it
/// did with each, where it starts from `open` and no relay ends on the way.
pub open spec fn server_run(
    open: Map<u64, SocketKind>,
    raw: Seq<Seq<u8>>,
    tun_up: bool,
) -> (Map<u64, SocketKind>, Seq<StepView>)
    decreases raw.len(),
{
    if raw.len() == 0 {
        (open, seq![])
    } else {
        let (before, steps) = server_run(open, raw.drop_last(), tun_up);
        let step = server::server_step(before, raw.last(), tun_up);
        (server::after_step(before, step), steps.push(step))
    }
}

/// The frames that the client sends for one TCP connection: one for each chunk that it reads,
/// and an empty one at the end.
pub open spec fn tcp_session(conn_id: u64, key: Seq<char>, chunks: Seq<Seq<u8>>) -> Seq<Frame> {
    Seq::new(
        chunks.len() + 1,
        |i: int|
            Frame {
                kind: frame::TCP,
                conn_id,
                key,
                payload: if i < chunks.len() {
                    chunks[i]
                } else {
                    seq![]
                },
            },
    )
}

/// The relay of a SOCKS5 client's TCP connection sends those frames, and nothing after them.
pub proof fn law_upstream_sends_session(
    conn_id: u64,
    key: Seq<char>,
    chunks: Seq<Seq<u8>>,
    later: Seq<Seq<u8>>,
)
    requires
        forall|i: int| 0 <= i < chunks.len() ==> (#[trigger] chunks[i]).len() > 0,
    ensures
        socks5::upstream_run(conn_id, key, chunks + seq![seq![]] + later) == frame::packets_of(
            tcp_session(conn_id, key, chunks),
        ),
    decreases chunks.len(),
{
    let reads = chunks + seq![Seq::<u8>::empty()] + later;
    let session = tcp_session(conn_id, key, chunks);
    if chunks.len() == 0 {
        assert(session.drop_first() =~= seq![]);
        assert(frame::packets_of(session.drop_first()) =~= seq![]);
        let last = frame::packet_bytes(frame::TCP, conn_id, key, seq![]);
        assert(frame::packets_of(session) =~= last);
        assert(reads[0].len() == 0);
        assert(reads[0] =~= seq![]);
    } else {
        let others = chunks.drop_first();
        assert forall|i: int| 0 <= i < others.len() implies (#[trigger] others[i]).len() > 0 by {
            assert(others[i] == chunks[i + 1]);
        }
        law_upstream_sends_session(conn_id, key, others, later);
        assert(reads.drop_first() =~= others + seq![Seq::<u8>::empty()] + later);
        assert(session.drop_first() =~= tcp_session(conn_id, key, others));
        assert(reads[0] == chunks[0]);
        assert(chunks[0].len() > 0);
    }
}

/// Every chunk of a TCP connection reaches its target, in order: the first opens the connection
/// to the target key in its normal form, the others are written to it, and the end of the
/// connection closes it and leaves the other sockets as they were.
pub proof fn law_tcp_session_reaches_target(
    open: Map<u64, SocketKind>,
    conn_id: u64,
    key: Seq<char>,
    chunks: Seq<Seq<u8>>,
    tun_up: bool,
)
    requires
        !server::is_tcp(open, conn_id),
        chunks.len() > 0,
        forall|i: int|
            0 <= i < chunks.len() ==> (#[trigger] chunks[i]).len() > 0 && frame::length_fits(
                key,
                chunks[i],
            ),
    ensures
        ({
            let sent = frame::packets_of(tcp_session(conn_id, key, chunks));
            let (end, steps) = server_run(open, frame::frames_in(sent), tun_up);
            let target = server::normal_key(key);
            &&& steps.len() == chunks.len() + 1
            &&& steps[0] == StepView::OpenTcp {
                conn_id,
                key: target,
                host: target,
                payload: chunks[0],
            }
            &&& forall|i: int|
                0 < i < chunks.len() ==> #[trigger] steps[i] == (StepView::WriteTcp {
                    conn_id,
                    payload: chunks[i],
                })
            &&& steps[chunks.len() as int] == StepView::CloseTcp { conn_id }
            &&& end == open.remove(conn_id)
        }),
{
    let session = tcp_session(conn_id, key, chunks);
    let sent = frame::packets_of(session);
    let raw = frame::raw_frames(session);
    let n = chunks.len() as int;
    assert forall|i: int| 0 <= i < session.len() implies frame::length_fits(
        (#[trigger] session[i]).key,
        session[i].payload,
    ) by {
        if i < n {
            assert(session[i].payload == chunks[i]);
        } else {
            assert(chunks[0].len() > 0);
        }
    }
    frame::law_tunnel_carries_frames(session, seq![]);
    assert(sent + seq![] =~= sent);
    assert(frame::frames_in(seq![]) =~= seq![]);
    assert(raw + seq![] =~= raw);
    lemma_tcp_session_prefix(open, conn_id, key, chunks, tun_up, chunks.len());
    let (before, steps) = server_run(open, raw.take(n), tun_up);
    assert(raw.drop_last() =~= raw.take(n));
    assert(raw.last() == raw[n]);
    assert(frame::read_frame(raw[n]) == Some(session[n]));
    assert(before.remove(conn_id) =~= open.remove(conn_id));
}

/// What the server has done after the first `count` chunks of a TCP connection.
proof fn lemma_tcp_session_prefix(
    open: Map<u64, SocketKind>,
    conn_id: u64,
    key: Seq<char>,
    chunks: Seq<Seq<u8>>,
    tun_up: bool,
    count: nat,
)
    requires
        !server::is_tcp(open, conn_id),
        0 < count <= chunks.len(),
        forall|i: int|
            0 <= i < chunks.len() ==> (#[trigger] chunks[i]).len() > 0 && frame::length_fits(
                key,
                chunks[i],
            ),
    ensures
        ({
            let raw = frame::raw_frames(tcp_session(conn_id, key, chunks));
            let (end, steps) = server_run(open, raw.take(count as int), tun_up);
            let target = server::normal_key(key);
            &&& end == open.insert(conn_id, SocketKind::Tcp)
            &&& steps.len() == count
            &&& steps[0] == StepView::OpenTcp {
                conn_id,
                key: target,
                host: target,
                payload: chunks[0],
            }
            &&& forall|i: int|
                0 < i < count ==> #[trigger] steps[i] == (StepView::WriteTcp {
                    conn_id,
                    payload: chunks[i],
                })
        }),
    decreases count,
{
    let session = tcp_session(conn_id, key, chunks);
    let raw = frame::raw_frames(session);
    let prefix = raw.take(count as int);
    let last = count - 1;
    let chunk = chunks[last];
    assert(prefix.drop_last() =~= raw.take(last));
    assert(prefix.last() == raw[last]);
    assert(session[last].payload == chunk);
    frame::law_frame_round_trip(frame::TCP, conn_id, key, chunk);
    assert(frame::read_frame(raw[last]) == Some(session[last]));
    server::law_normal_key_is_trimmed(key);
    if count > 1 {
        lemma_tcp_session_prefix(open, conn_id, key, chunks, tun_up, last as nat);
    } else {
        assert(raw.take(0) =~= seq![]);
        assert(server_run(open, raw.take(0), tun_up) == (
            open,
            Seq::<StepView>::empty(),
        ));
    }
}

/// A datagram of the client reaches its target with the payload that it had: it opens the socket
/// of its connection, or is sent from it.
pub proof fn law_datagram_reaches_target(
    open: Map<u64, SocketKind>,
    conn_id: u64,
    key: Seq<char>,
    payload: Seq<u8>,
    tun_up: bool,
)
    requires
        frame::length_fits(key, payload),
        !server::is_tcp(open, conn_id),
    ensures
        ({
            let raw = frame::raw_frame(Frame { kind: frame::UDP, conn_id, key, payload });
            let step = server::server_step(open, raw, tun_up);
            let target = server::normal_key(key);
            &&& frame::frames_in(frame::packet_bytes(frame::UDP, conn_id, key, payload)) == seq![
                raw,
            ]
            &&& step == if open.contains_key(conn_id) {
                StepView::SendDatagram { conn_id, payload }
            } else {
                StepView::OpenUdp { conn_id, key: target, host: target, payload }
            }
            &&& server::after_step(open, step) == open
        }),
{
    lemma_single_packet(Frame { kind: frame::UDP, conn_id, key, payload });
    server::law_normal_key_is_trimmed(key);
}

/// An IP packet of either device is written to the other unchanged, if there is one.
pub proof fn law_ip_packet_reaches_device(
    outbound: Map<u64, SocketKind>,
    open: OpenSockets,
    packet: Seq<u8>,
    tun_up: bool,
)
    requires
        frame::length_fits(seq![], packet),
    ensures
        ({
            let raw = frame::raw_frame(
                Frame { kind: frame::TUN, conn_id: 0, key: seq![], payload: packet },
            );
            &&& frame::frames_in(frame::packet_bytes(frame::TUN, 0, seq![], packet)) == seq![raw]
            &&& server::server_step(outbound, raw, tun_up) == if tun_up {
                StepView::SendTun { packet }
            } else {
                StepView::Ignore
            }
            &&& client::client_step(open, raw, tun_up) == if tun_up {
                ClientStep::SendTun { packet }
            } else {
                ClientStep::Ignore
            }
        }),
{
    lemma_single_packet(Frame { kind: frame::TUN, conn_id: 0, key: seq![], payload: packet });
}

/// One packet on its own is one frame, which says what it said when it was written.
proof fn lemma_single_packet(one: Frame)
    requires
        frame::length_fits(one.key, one.payload),
    ensures
        frame::frames_in(
            frame::packet_bytes(one.kind, one.conn_id, one.key, one.payload),
        ) == seq![frame::raw_frame(one)],
        frame::read_frame(frame::raw_frame(one)) == Some(one),
{
    let frames = seq![one];
    frame::law_tunnel_carries_frames(frames, seq![]);
    assert(frames.drop_first() =~= seq![]);
    assert(frame::packets_of(frames.drop_first()) =~= seq![]);
    let packet = frame::packet_bytes(one.kind, one.conn_id, one.key, one.payload);
    assert(frame::packets_of(frames) + seq![] =~= packet);
    assert(frame::frames_in(seq![]) =~= seq![]);
    assert(frame::raw_frames(frames) + frame::frames_in(seq![]) =~= seq![frame::raw_frame(one)]);
    assert(frame::raw_frames(frames)[0] == frame::raw_frame(one));
}

/// The target key of an IP address reaches the server as it left the client: it is already in
/// normal form, with the port that the SOCKS5 client named.
pub proof fn law_ip_key_is_normal(octets: Seq<u8>, port: u16)
    ensures
        octets.len() == 4 ==> server::normal_key(addr::key_text(addr::dotted_text(octets), port))
            == addr::key_text(addr::dotted_text(octets), port),
        octets.len() == 16 ==> server::normal_key(
            addr::key_text(socks5::bracketed_ipv6(octets), port),
        ) == addr::key_text(socks5::bracketed_ipv6(octets), port),
{
    if octets.len() == 4 {
        text::lemma_decimal_round_trip(octets[0] as nat);
        assert(text::is_decimal_digit(text::digits(octets[0] as nat, 10)[0]));
        lemma_key_is_normal(addr::dotted_text(octets), port);
    }
    if octets.len() == 16 {
        lemma_key_is_normal(socks5::bracketed_ipv6(octets), port);
    }
}

proof fn lemma_key_is_normal(host: Seq<char>, port: u16)
    requires
        host.len() > 0,
        !text::strips(host[0], true),
    ensures
        server::normal_key(addr::key_text(host, port)) == addr::key_text(host, port),
{
    let key = addr::key_text(host, port);
    let number = text::digits(port as nat, 10);
    text::lemma_decimal_round_trip(port as nat);
    assert(text::is_decimal_digit(number[number.len() - 1]));
    assert(key.last() == number.last());
    assert(key[host.len() as int] == ':');
    server::law_proper_key_is_normal(key);
}

/// Whatever host a SOCKS5 client names, the port that it names is the port of the target key in
/// its normal form, and so of the replies that carry that key.
pub proof fn law_normal_key_keeps_port(host: Seq<char>, port: u16)
    ensures
        addr::key_port(server::normal_key(addr::key_text(host, port))) == port,
{
    let key = addr::key_text(host, port);
    let number = text::digits(port as nat, 10);
    let colon = host.len() as int;
    text::lemma_decimal_round_trip(port as nat);
    assert(text::is_decimal_digit(number[number.len() - 1]));
    assert(key[colon] == ':');
    let start = text::lemma_trim_front_stops(key, true, colon);
    let rest = key.skip(start);
    assert(rest.last() == number.last());
    assert(text::trimmed(key, true) == rest);
    assert(rest[colon - start] == ':');
    assert(rest =~= addr::key_text(host.skip(start), port));
    addr::law_key_keeps_port(host.skip(start), port);
}

// ---------------------------------------------------------------------------------------------
// From the server to the client
// ---------------------------------------------------------------------------------------------

/// What the server reads from a TCP target is written to the SOCKS5 client whose connection it
/// is, as long as that is open.
pub proof fn law_reply_reaches_tcp_client(
    open: OpenSockets,
    conn_id: u64,
    key: Seq<char>,
    payload: Seq<u8>,
    tun_up: bool,
)
    requires
        frame::length_fits(key, payload),
    ensures
        ({
            let raw = frame::raw_frame(Frame { kind: frame::TCP, conn_id, key, payload });
            &&& frame::frames_in(frame::packet_bytes(frame::TCP, conn_id, key, payload)) == seq![
                raw,
            ]
            &&& client::client_step(open, raw, tun_up) == if open.tcp.contains(conn_id) {
                ClientStep::WriteTcp { conn_id, payload }
            } else {
                ClientStep::Ignore
            }
        }),
{
    lemma_single_packet(Frame { kind: frame::TCP, conn_id, key, payload });
}

/// What the server receives from a UDP target is sent to the address that the SOCKS5 client last
/// sent from, whatever it sent from before, in a datagram that names the port of the target.
pub proof fn law_reply_reaches_last_sender(
    open: OpenSockets,
    conn_id: u64,
    before: PeerAddr,
    last: PeerAddr,
    key: Seq<char>,
    payload: Seq<u8>,
    tun_up: bool,
)
    requires
        frame::length_fits(key, payload),
        open.relays.contains_key(conn_id),
    ensures
        ({
            let raw = frame::raw_frame(Frame { kind: frame::UDP, conn_id, key, payload });
            let now = client::heard(client::heard(open, conn_id, before), conn_id, last);
            &&& frame::frames_in(frame::packet_bytes(frame::UDP, conn_id, key, payload)) == seq![
                raw,
            ]
            &&& client::client_step(now, raw, tun_up) == (ClientStep::SendDatagram {
                conn_id,
                to: last,
                datagram: socks5::socks_datagram(key, payload),
            })
        }),
{
    lemma_single_packet(Frame { kind: frame::UDP, conn_id, key, payload });
}

// ---------------------------------------------------------------------------------------------
// Connections keep apart
// ---------------------------------------------------------------------------------------------

/// A frame changes no socket but that of its own connection, and what the server does with it
/// depends on no other socket.
pub proof fn law_server_connections_keep_apart(
    open: Map<u64, SocketKind>,
    elsewhere: Map<u64, SocketKind>,
    data: Seq<u8>,
    tun_up: bool,
    other: u64,
)
    requires
        server::read_client_frame(data) matches Some(frame) ==> {
            &&& frame.conn_id != other
            &&& open.contains_key(frame.conn_id) == elsewhere.contains_key(frame.conn_id)
            &&& open.contains_key(frame.conn_id) ==> open[frame.conn_id]
                == elsewhere[frame.conn_id]
        },
    ensures
        ({
            let step = server::server_step(open, data, tun_up);
            let after = server::after_step(open, step);
            &&& after.contains_key(other) == open.contains_key(other)
            &&& open.contains_key(other) ==> after[other] == open[other]
            &&& server::server_step(elsewhere, data, tun_up) == step
        }),
{
}

/// Whether `data` are the bytes of a frame for `conn_id`.
pub open spec fn is_for(data: Seq<u8>, conn_id: u64) -> bool {
    server::read_client_frame(data) matches Some(frame) && frame.conn_id == conn_id
}

/// The frames in `raw` that are for `conn_id`.
pub open spec fn frames_for(raw: Seq<Seq<u8>>, conn_id: u64) -> Seq<Seq<u8>>
    decreases raw.len(),
{
    if raw.len() == 0 {
        seq![]
    } else if is_for(raw.last(), conn_id) {
        frames_for(raw.drop_last(), conn_id).push(raw.last())
    } else {
        frames_for(raw.drop_last(), conn_id)
    }
}

/// Those of `steps`, which were taken for the frames in `raw`, that were taken for `conn_id`.
pub open spec fn steps_for(raw: Seq<Seq<u8>>, steps: Seq<StepView>, conn_id: u64) -> Seq<StepView>
    decreases raw.len(),
{
    if raw.len() == 0 {
        seq![]
    } else if is_for(raw.last(), conn_id) {
        steps_for(raw.drop_last(), steps.drop_last(), conn_id).push(steps.last())
    } else {
        steps_for(raw.drop_last(), steps.drop_last(), conn_id)
    }
}

/// However the frames of different connections are mixed, the server does for each connection
/// what it would do if the frames of that connection had come alone.
pub proof fn law_mixed_connections_are_served_alike(
    open: Map<u64, SocketKind>,
    raw: Seq<Seq<u8>>,
    tun_up: bool,
    conn_id: u64,
)
    ensures
        ({
            let (end, steps) = server_run(open, raw, tun_up);
            let (end_alone, steps_alone) = server_run(open, frames_for(raw, conn_id), tun_up);
            &&& steps_for(raw, steps, conn_id) == steps_alone
            &&& end.contains_key(conn_id) == end_alone.contains_key(conn_id)
            &&& end.contains_key(conn_id) ==> end[conn_id] == end_alone[conn_id]
        }),
    decreases raw.len(),
{
    if raw.len() > 0 {
        let earlier = raw.drop_last();
        let data = raw.last();
        let (before, steps) = server_run(open, earlier, tun_up);
        let (before_alone, steps_alone) = server_run(open, frames_for(earlier, conn_id), tun_up);
        law_mixed_connections_are_served_alike(open, earlier, tun_up, conn_id);
        let step = server::server_step(before, data, tun_up);
        assert(steps.push(step).drop_last() =~= steps);
        if is_for(data, conn_id) {
            let alone = frames_for(raw, conn_id);
            assert(alone.drop_last() =~= frames_for(earlier, conn_id));
            assert(alone.last() == data);
            assert(server::server_step(before_alone, data, tun_up) == step);
        } else {
            law_server_connections_keep_apart(before, before, data, tun_up, conn_id);
        }
    }
}

/// Nothing is written to a TCP connection of the client, nor sent for a UDP association, once it
/// has been closed.
pub proof fn law_closed_connections_are_silent(
    open: OpenSockets,
    conn_id: u64,
    data: Seq<u8>,
    tun_up: bool,
)
    ensures
        ({
            let closed = OpenSockets {
                tcp: open.tcp.remove(conn_id),
                relays: open.relays.remove(conn_id),
            };
            match client::client_step(closed, data, tun_up) {
                ClientStep::WriteTcp { conn_id: id, .. } => id != conn_id,
                ClientStep::SendDatagram { conn_id: id, .. } => id != conn_id,
                _ => true,
            }
        }),
{
}

} // verus!
