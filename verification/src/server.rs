//! The server's end of the tunnel: which frame goes where.

use std::collections::HashMap;

use vstd::prelude::*;
use vstd::string::*;

use crate::bytes;
use crate::frame;
use crate::frame::Frame;
use crate::text;

verus! {

broadcast use vstd::std_specs::hash::group_hash_axioms;

/// How many seconds the look-up of a TCP target and the connection to it may take.
pub const TCP_CONNECT_SECONDS: u64 = 5;

/// How many seconds the look-up of a UDP target may take.
pub const UDP_LOOKUP_SECONDS: u64 = 3;

/// The packet of type `pkt_type` for connection `conn_id`.
pub fn build_packet(pkt_type: u8, conn_id: u64, target_key: &str, payload: &[u8]) -> (packet: Vec<
    u8,
>)
    requires
        frame::allocatable(target_key@, payload@),
    ensures
        packet@ == frame::packet_bytes(pkt_type, conn_id, target_key@, payload@),
{
    frame::encode_packet(pkt_type, conn_id, target_key, payload)
}

// ---------------------------------------------------------------------------------------------
// Target keys
// ---------------------------------------------------------------------------------------------

/// A target key in its normal form: without white space or NUL characters at its ends, and
/// with port 80 where it has no colon. An empty key stays empty.
pub open spec fn normal_key(raw: Seq<char>) -> Seq<char> {
    let key = text::trimmed(raw, true);
    if !key.contains(':') && key.len() > 0 {
        key + seq![':', '8', '0']
    } else {
        key
    }
}

/// The target key `raw` in its normal form.
pub fn normalize_key(raw: &str) -> (key: String)
    ensures
        key@ == normal_key(raw@),
{
    let mut key: String = text::trim(raw, true);
    if !text::contains_char(key.as_str(), ':') && !key.as_str().is_empty() {
        let ghost bare = key@;
        key.append(":80");
        proof {
            reveal_strlit(":80");
        }
        assert(key@ =~= bare + seq![':', '8', '0']);
    }
    key
}

/// The ends of a key in normal form are neither white space nor NUL.
proof fn lemma_normal_key_ends(raw: Seq<char>)
    ensures
        normal_key(raw).len() > 0 ==> {
            &&& !text::strips(normal_key(raw)[0], true)
            &&& !text::strips(normal_key(raw).last(), true)
            &&& normal_key(raw).contains(':')
        },
{
    let bare = text::trimmed(raw, true);
    text::lemma_trimmed_ends(raw, true);
    if !bare.contains(':') && bare.len() > 0 {
        assert(normal_key(raw)[bare.len() as int] == ':');
    }
}

/// Bringing a key into its normal form twice is the same as once.
pub proof fn law_normal_key_is_stable(raw: Seq<char>)
    ensures
        normal_key(normal_key(raw)) == normal_key(raw),
{
    lemma_normal_key_ends(raw);
    text::lemma_trimmed_fixed(normal_key(raw), true);
}

/// A key in normal form is looked up as it is: trimming it takes nothing away.
pub proof fn law_normal_key_is_trimmed(raw: Seq<char>)
    ensures
        text::trimmed(normal_key(raw), false) == normal_key(raw),
{
    lemma_normal_key_ends(raw);
    text::lemma_trimmed_fixed(normal_key(raw), false);
}

/// Whatever white space and NUL characters stand around a key, its normal form is the key without
/// them, with `:80` behind it where it has no colon and is not empty.
pub proof fn law_normal_key_of_padded_key(before: Seq<char>, key: Seq<char>, after: Seq<char>)
    requires
        forall|k: int|
            0 <= k < before.len() ==> text::is_white_space(#[trigger] before[k]) || before[k]
                == '\0',
        forall|k: int|
            0 <= k < after.len() ==> text::is_white_space(#[trigger] after[k]) || after[k] == '\0',
        key.len() > 0 ==> {
            &&& !text::is_white_space(key[0]) && key[0] != '\0'
            &&& !text::is_white_space(key.last()) && key.last() != '\0'
        },
    ensures
        key.contains(':') || key.len() == 0 ==> normal_key(before + key + after) == key,
        !key.contains(':') && key.len() > 0 ==> normal_key(before + key + after) == key + seq![
            ':',
            '8',
            '0',
        ],
{
    text::law_trim_undoes_padding(before, key, after, true);
}

/// A key that has a colon, and neither white space nor NUL at its ends, is in normal form.
pub proof fn law_proper_key_is_normal(key: Seq<char>)
    requires
        key.contains(':'),
        !text::strips(key[0], true),
        !text::strips(key.last(), true),
    ensures
        normal_key(key) == key,
{
    text::lemma_trimmed_fixed(key, true);
}

// ---------------------------------------------------------------------------------------------
// Frames from a client
// ---------------------------------------------------------------------------------------------

/// What the bytes of a frame from a client say, with the target key in its normal form.
pub open spec fn read_client_frame(data: Seq<u8>) -> Option<Frame> {
    match frame::read_frame(data) {
        Some(frame) => Some(Frame { key: normal_key(frame.key), ..frame }),
        None => None,
    }
}

/// The type, connection id, target key and payload in the bytes of a frame from a client, if
/// they are as long as they claim. The target key is brought into its normal form.
pub fn parse_client_frame(data: &[u8]) -> (frame: Option<(u8, u64, String, Vec<u8>)>)
    ensures
        match frame {
            Some((kind, conn_id, key, payload)) => read_client_frame(data@) == Some(
                Frame { kind, conn_id, key: key@, payload: payload@ },
            ),
            None => read_client_frame(data@) is None,
        },
{
    match frame::decode_frame(data) {
        Some((kind, conn_id, raw_key, payload)) => {
            let key = normalize_key(raw_key.as_str());
            Some((kind, conn_id, key, payload))
        },
        None => None,
    }
}

/// What the socket of a connection is.
#[derive(Clone, Copy, Debug, PartialEq, Eq, Structural)]
pub enum SocketKind {
    Tcp,
    Udp,
}

/// The sockets that the server has open for one client, by connection id.
pub struct OutboundSockets {
    kinds: HashMap<u64, SocketKind>,
}

impl View for OutboundSockets {
    type V = Map<u64, SocketKind>;

    closed spec fn view(&self) -> Map<u64, SocketKind> {
        self.kinds@
    }
}

/// What to do with a frame from a client. `S` is a text and `B` a sequence of bytes.
#[derive(Debug)]
pub enum ServerStep<S, B> {
    /// Nothing.
    Ignore,
    /// Connect to `host` by TCP, write `payload`, and relay for `conn_id` under the key `key`
    /// until either end closes.
    OpenTcp { conn_id: u64, key: S, host: S, payload: B },
    /// Write `payload` to the TCP connection `conn_id`.
    WriteTcp { conn_id: u64, payload: B },
    /// Close the TCP connection `conn_id`.
    CloseTcp { conn_id: u64 },
    /// Look up `host`, open a UDP socket to it, send `payload`, and relay for `conn_id` under the
    /// key `key`.
    OpenUdp { conn_id: u64, key: S, host: S, payload: B },
    /// Send `payload` from the UDP socket `conn_id`.
    SendDatagram { conn_id: u64, payload: B },
    /// Write `packet` to the TUN device.
    SendTun { packet: B },
}

/// A step, as contracts speak of it.
pub type StepView = ServerStep<Seq<char>, Seq<u8>>;

impl View for ServerStep<String, Vec<u8>> {
    type V = StepView;

    open spec fn view(&self) -> StepView {
        match *self {
            ServerStep::Ignore => ServerStep::Ignore,
            ServerStep::OpenTcp { conn_id, key, host, payload } => ServerStep::OpenTcp {
                conn_id,
                key: key@,
                host: host@,
                payload: payload@,
            },
            ServerStep::WriteTcp { conn_id, payload } => ServerStep::WriteTcp {
                conn_id,
                payload: payload@,
            },
            ServerStep::CloseTcp { conn_id } => ServerStep::CloseTcp { conn_id },
            ServerStep::OpenUdp { conn_id, key, host, payload } => ServerStep::OpenUdp {
                conn_id,
                key: key@,
                host: host@,
                payload: payload@,
            },
            ServerStep::SendDatagram { conn_id, payload } => ServerStep::SendDatagram {
                conn_id,
                payload: payload@,
            },
            ServerStep::SendTun { packet } => ServerStep::SendTun { packet: packet@ },
        }
    }
}

/// Whether `conn_id` is a TCP connection.
pub open spec fn is_tcp(open: Map<u64, SocketKind>, conn_id: u64) -> bool {
    open.contains_key(conn_id) && open[conn_id] == SocketKind::Tcp
}

/// What to do with a frame from a client, where `tun_up` tells whether there is a TUN device.
pub open spec fn dispatch(
    open: Map<u64, SocketKind>,
    frame: Frame,
    tun_up: bool,
) -> StepView {
    let conn_id = frame.conn_id;
    let key = frame.key;
    let host = text::trimmed(key, false);
    let payload = frame.payload;
    if frame.kind == frame::TCP {
        if is_tcp(open, conn_id) {
            if payload.len() == 0 {
                ServerStep::CloseTcp { conn_id }
            } else {
                ServerStep::WriteTcp { conn_id, payload }
            }
        } else if payload.len() > 0 {
            ServerStep::OpenTcp { conn_id, key, host, payload }
        } else {
            ServerStep::Ignore
        }
    } else if frame.kind == frame::UDP {
        if !open.contains_key(conn_id) {
            ServerStep::OpenUdp { conn_id, key, host, payload }
        } else if open[conn_id] == SocketKind::Udp {
            ServerStep::SendDatagram { conn_id, payload }
        } else {
            ServerStep::Ignore
        }
    } else if frame.kind == frame::TUN && tun_up {
        ServerStep::SendTun { packet: payload }
    } else {
        ServerStep::Ignore
    }
}

/// What to do with the bytes of a frame from a client.
pub open spec fn server_step(open: Map<u64, SocketKind>, data: Seq<u8>, tun_up: bool) -> StepView {
    match read_client_frame(data) {
        Some(frame) => dispatch(open, frame, tun_up),
        None => ServerStep::Ignore,
    }
}

/// The sockets that are open once a step has been taken: a TCP connection counts as open while
/// the server still connects, a UDP socket only when it is there.
pub open spec fn after_step(
    open: Map<u64, SocketKind>,
    step: StepView,
) -> Map<u64, SocketKind> {
    match step {
        ServerStep::OpenTcp { conn_id, .. } => open.insert(conn_id, SocketKind::Tcp),
        ServerStep::CloseTcp { conn_id } => open.remove(conn_id),
        _ => open,
    }
}

/// A step is shown with the same parts, and with their contents.
pub proof fn law_step_is_shown_whole(
    conn_id: u64,
    key: String,
    host: String,
    payload: Vec<u8>,
)
    ensures
        ServerStep::<String, Vec<u8>>::Ignore@ == StepView::Ignore,
        (ServerStep::OpenTcp { conn_id, key, host, payload })@ == (StepView::OpenTcp {
            conn_id,
            key: key@,
            host: host@,
            payload: payload@,
        }),
        (ServerStep::<String, Vec<u8>>::WriteTcp { conn_id, payload })@ == (StepView::WriteTcp {
            conn_id,
            payload: payload@,
        }),
        (ServerStep::<String, Vec<u8>>::CloseTcp { conn_id })@ == (StepView::CloseTcp { conn_id }),
        (ServerStep::OpenUdp { conn_id, key, host, payload })@ == (StepView::OpenUdp {
            conn_id,
            key: key@,
            host: host@,
            payload: payload@,
        }),
        (ServerStep::<String, Vec<u8>>::SendDatagram { conn_id, payload })@
            == (StepView::SendDatagram { conn_id, payload: payload@ }),
        (ServerStep::<String, Vec<u8>>::SendTun { packet: payload })@ == (StepView::SendTun {
            packet: payload@,
        }),
{
}

/// What the server does with any bytes that come from a client, and what is open afterwards.
///
/// The first byte is 0 for TCP, 1 for UDP and 2 for the TUN device. Eight bytes of connection id,
/// two bytes for the length of the key, the key, and the payload follow.
///
/// Bytes that are too short, and bytes of any other kind, are ignored. A TCP payload goes to the
/// connection that is open under its id, and an empty one closes it; where none is open, a payload
/// opens one. A datagram goes to the socket that is open under its id, and where nothing is, asks
/// for one; a TCP connection under its id takes none. An IP packet goes to the device, if there is
/// one. Only TCP changes what is open, and only under its own id.
pub proof fn law_server_sorts_frames(open: Map<u64, SocketKind>, data: Seq<u8>, tun_up: bool)
    ensures
        ({
            let key_len = data[9] * 256 + data[10];
            let whole = data.len() >= 11 && data.len() >= 11 + key_len;
            let id = bytes::weighed(data, 1) as u64;
            let key = normal_key(text::lossy_text(data.subrange(11, 11 + key_len)));
            let payload = data.skip(11 + key_len);
            let has_tcp = open.contains_key(id) && open[id] == SocketKind::Tcp;
            let has_udp = open.contains_key(id) && open[id] == SocketKind::Udp;
            let step = server_step(open, data, tun_up);
            let after = after_step(open, step);
            &&& !whole ==> step == StepView::Ignore && after == open
            &&& whole && data[0] == 0 && has_tcp && payload.len() > 0 ==> step
                == (StepView::WriteTcp { conn_id: id, payload }) && after == open
            &&& whole && data[0] == 0 && has_tcp && payload.len() == 0 ==> step
                == (StepView::CloseTcp { conn_id: id }) && after == open.remove(id)
            &&& whole && data[0] == 0 && !has_tcp && payload.len() > 0 ==> step
                == (StepView::OpenTcp { conn_id: id, key, host: key, payload }) && after
                == open.insert(id, SocketKind::Tcp)
            &&& whole && data[0] == 0 && !has_tcp && payload.len() == 0 ==> step
                == StepView::Ignore && after == open
            &&& whole && data[0] == 1 && has_udp ==> step == (StepView::SendDatagram {
                conn_id: id,
                payload,
            }) && after == open
            &&& whole && data[0] == 1 && has_tcp ==> step == StepView::Ignore && after == open
            &&& whole && data[0] == 1 && !open.contains_key(id) ==> step == (StepView::OpenUdp {
                conn_id: id,
                key,
                host: key,
                payload,
            }) && after == open
            &&& whole && data[0] == 2 && tun_up ==> step == (StepView::SendTun {
                packet: payload,
            }) && after == open
            &&& whole && data[0] == 2 && !tun_up ==> step == StepView::Ignore && after == open
            &&& whole && data[0] > 2 ==> step == StepView::Ignore && after == open
        }),
{
    frame::law_frame_is_read_in_place(data);
    let key_len = data[9] * 256 + data[10];
    law_normal_key_is_trimmed(text::lossy_text(data.subrange(11, 11 + key_len)));
}

/// A frame from a client is read like any other, but for its key, which is in its normal form.
pub proof fn law_client_frame_has_normal_key(data: Seq<u8>)
    ensures
        ({
            let key_len = data[9] * 256 + data[10];
            let whole = data.len() >= 11 && data.len() >= 11 + key_len;
            &&& read_client_frame(data) is Some <==> whole
            &&& read_client_frame(data) matches Some(frame) ==> {
                &&& frame.kind == data[0]
                &&& frame.conn_id == bytes::weighed(data, 1)
                &&& frame.key == normal_key(text::lossy_text(data.subrange(11, 11 + key_len)))
                &&& frame.payload == data.skip(11 + key_len)
            }
        }),
{
    frame::law_frame_is_read_in_place(data);
}

impl OutboundSockets {
    /// Nothing is open.
    pub fn new() -> (sockets: OutboundSockets)
        ensures
            sockets@ == Map::<u64, SocketKind>::empty(),
    {
        OutboundSockets { kinds: HashMap::new() }
    }

    /// The UDP socket for `conn_id` is open from now on.
    pub fn udp_opened(&mut self, conn_id: u64)
        ensures
            final(self)@ == old(self)@.insert(conn_id, SocketKind::Udp),
    {
        self.kinds.insert(conn_id, SocketKind::Udp);
    }

    /// The relay for `conn_id` has ended: whatever socket that id has is closed.
    pub fn relay_ended(&mut self, conn_id: u64)
        ensures
            final(self)@ == old(self)@.remove(conn_id),
    {
        self.kinds.remove(&conn_id);
    }

    /// What to do with the bytes of a frame from a client, where `tun_up` tells whether there is
    /// a TUN device.
    pub fn on_frame(&mut self, data: &[u8], tun_up: bool) -> (step: ServerStep<String, Vec<u8>>)
        ensures
            step@ == server_step(old(self)@, data@, tun_up),
            final(self)@ == after_step(old(self)@, step@),
    {
        let (kind, conn_id, key, payload) = match parse_client_frame(data) {
            Some(parts) => parts,
            None => {
                return ServerStep::Ignore;
            },
        };
        let known: Option<SocketKind> = match self.kinds.get(&conn_id) {
            Some(kind) => Some(*kind),
            None => None,
        };
        match kind {
            frame::TCP => {
                match known {
                    Some(SocketKind::Tcp) => {
                        if payload.len() == 0 {
                            self.kinds.remove(&conn_id);
                            ServerStep::CloseTcp { conn_id }
                        } else {
                            ServerStep::WriteTcp { conn_id, payload }
                        }
                    },
                    _ => {
                        if payload.len() > 0 {
                            self.kinds.insert(conn_id, SocketKind::Tcp);
                            let host = text::trim(key.as_str(), false);
                            ServerStep::OpenTcp { conn_id, key, host, payload }
                        } else {
                            ServerStep::Ignore
                        }
                    },
                }
            },
            frame::UDP => {
                match known {
                    None => {
                        let host = text::trim(key.as_str(), false);
                        ServerStep::OpenUdp { conn_id, key, host, payload }
                    },
                    Some(SocketKind::Udp) => ServerStep::SendDatagram { conn_id, payload },
                    Some(SocketKind::Tcp) => ServerStep::Ignore,
                }
            },
            frame::TUN => {
                if tun_up {
                    ServerStep::SendTun { packet: payload }
                } else {
                    ServerStep::Ignore
                }
            },
            _ => ServerStep::Ignore,
        }
    }
}

// ---------------------------------------------------------------------------------------------
// To the client
// ---------------------------------------------------------------------------------------------

/// The packet that one read from a TCP target sends to the client, if it sends any.
pub open spec fn tcp_reply(conn_id: u64, key: Seq<char>, read: Seq<u8>) -> Option<Seq<u8>> {
    if read.len() > 0 {
        Some(frame::packet_bytes(frame::TCP, conn_id, key, read))
    } else {
        None
    }
}

/// The packet that one datagram from a UDP target sends to the client.
pub open spec fn udp_reply(conn_id: u64, key: Seq<char>, datagram: Seq<u8>) -> Seq<u8> {
    frame::packet_bytes(frame::UDP, conn_id, key, datagram)
}

/// What the server reads from a target goes to the client whole, in one packet with the id and the
/// key of the connection. An empty read from a TCP target sends nothing; an empty datagram is sent
/// like any other.
pub proof fn law_reply_holds_read(conn_id: u64, key: Seq<char>, read: Seq<u8>)
    ensures
        tcp_reply(conn_id, key, read) is Some <==> read.len() > 0,
        tcp_reply(conn_id, key, read) matches Some(packet) ==> frame::carries(
            packet,
            0,
            conn_id,
            key,
            read,
        ),
        frame::carries(udp_reply(conn_id, key, read), 1, conn_id, key, read),
{
    frame::law_packet_carries_its_parts(0, conn_id, key, read);
    frame::law_packet_carries_its_parts(1, conn_id, key, read);
}

/// What one read from a TCP target sends to the client. An empty read stands for the end of the
/// stream, or for a failure: nothing is sent, and the connection is read no more.
pub fn tcp_downstream(conn_id: u64, key: &str, read: &[u8]) -> (packet: Option<Vec<u8>>)
    requires
        frame::allocatable(key@, read@),
    ensures
        match packet {
            Some(bytes) => tcp_reply(conn_id, key@, read@) == Some(bytes@),
            None => tcp_reply(conn_id, key@, read@) is None,
        },
        match packet {
            Some(bytes) => read@.len() > 0 && bytes@ == frame::packet_bytes(
                frame::TCP,
                conn_id,
                key@,
                read@,
            ),
            None => read@.len() == 0,
        },
{
    if read.len() == 0 {
        None
    } else {
        Some(build_packet(frame::TCP, conn_id, key, read))
    }
}

/// What one datagram from a UDP target, even an empty one, sends to the client.
pub fn udp_downstream(conn_id: u64, key: &str, datagram: &[u8]) -> (packet: Vec<u8>)
    requires
        frame::allocatable(key@, datagram@),
    ensures
        packet@ == udp_reply(conn_id, key@, datagram@),
        packet@ == frame::packet_bytes(frame::UDP, conn_id, key@, datagram@),
{
    build_packet(frame::UDP, conn_id, key, datagram)
}

/// Those of `subscribers` for which `delivered` holds true at the same place, in order.
pub open spec fn delivered_only<T>(subscribers: Seq<T>, delivered: Seq<bool>) -> Seq<T>
    decreases subscribers.len(),
{
    if subscribers.len() == 0 {
        seq![]
    } else {
        let earlier = delivered_only(subscribers.drop_last(), delivered.drop_last());
        if delivered.last() {
            earlier.push(subscribers.last())
        } else {
            earlier
        }
    }
}

/// Whether each subscriber stays depends on the delivery to that subscriber alone, and those who
/// stay keep their order.
pub proof fn law_each_subscriber_is_judged_alone<T>(
    ones: Seq<T>,
    fates: Seq<bool>,
    one: T,
    fate: bool,
    others: Seq<T>,
    other_fates: Seq<bool>,
)
    requires
        ones.len() == fates.len(),
        others.len() == other_fates.len(),
    ensures
        delivered_only(ones + seq![one] + others, fates + seq![fate] + other_fates)
            == delivered_only(ones, fates) + (if fate {
            seq![one]
        } else {
            seq![]
        }) + delivered_only(others, other_fates),
        delivered_only(Seq::<T>::empty(), Seq::<bool>::empty()).len() == 0,
    decreases others.len(),
{
    let all = ones + seq![one] + others;
    let all_fates = fates + seq![fate] + other_fates;
    if others.len() == 0 {
        assert(all.drop_last() =~= ones);
        assert(all_fates.drop_last() =~= fates);
        assert(all.last() == one);
        assert(all_fates.last() == fate);
        assert(delivered_only(others, other_fates) =~= seq![]);
    } else {
        law_each_subscriber_is_judged_alone(
            ones,
            fates,
            one,
            fate,
            others.drop_last(),
            other_fates.drop_last(),
        );
        assert(all.drop_last() =~= ones + seq![one] + others.drop_last());
        assert(all_fates.drop_last() =~= fates + seq![fate] + other_fates.drop_last());
        assert(all.last() == others.last());
        assert(all_fates.last() == other_fates.last());
    }
    assert(delivered_only(all, all_fates) =~= delivered_only(ones, fates) + (if fate {
        seq![one]
    } else {
        seq![]
    }) + delivered_only(others, other_fates));
}

/// Keeps the subscribers to the packets of the TUN device to whom the last packet was delivered.
pub fn retain_delivered<T>(subscribers: &mut Vec<T>, delivered: &Vec<bool>)
    requires
        old(subscribers)@.len() == delivered@.len(),
    ensures
        final(subscribers)@ == delivered_only(old(subscribers)@, delivered@),
{
    let ghost all = subscribers@;
    let count: usize = delivered.len();
    let mut seen: usize = 0;
    let mut kept: usize = 0;
    proof {
        assert(all.take(0) =~= seq![]);
        assert(subscribers@ =~= delivered_only(all.take(0), delivered@.take(0)) + all.skip(0));
    }
    while seen < count
        invariant
            kept <= seen <= count,
            count == delivered@.len(),
            all.len() == count,
            kept == delivered_only(all.take(seen as int), delivered@.take(seen as int)).len(),
            subscribers@ == delivered_only(all.take(seen as int), delivered@.take(seen as int))
                + all.skip(seen as int),
        decreases count - seen,
    {
        let ghost now = seen as int;
        let ghost earlier = delivered_only(all.take(now), delivered@.take(now));
        proof {
            assert(all.take(now + 1).drop_last() =~= all.take(now));
            assert(delivered@.take(now + 1).drop_last() =~= delivered@.take(now));
            assert(all.take(now + 1).last() == all[now]);
            assert(delivered@.take(now + 1).last() == delivered@[now]);
        }
        if delivered[seen] {
            kept = kept + 1;
            assert(subscribers@ =~= earlier.push(all[now]) + all.skip(now + 1));
        } else {
            subscribers.remove(kept);
            assert(subscribers@ =~= earlier + all.skip(now + 1));
        }
        seen = seen + 1;
    }
    proof {
        assert(all.take(count as int) =~= all);
        assert(delivered@.take(count as int) =~= delivered@);
        assert(subscribers@ =~= delivered_only(all, delivered@));
    }
}

} // verus!
