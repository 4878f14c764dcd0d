//! The client's end of the tunnel: which frame goes where.

use std::collections::{HashMap, HashSet};

use vstd::prelude::*;
use vstd::string::*;
use vstd::utf8::*;

use crate::addr;
use crate::addr::PeerAddr;
use crate::bytes;
use crate::frame;
use crate::frame::Frame;
use crate::modules::socks5;
use crate::text;

verus! {

broadcast use vstd::std_specs::hash::group_hash_axioms;

/// The packet of type `pkt_type` for connection `conn_id`.
pub fn build_packet(pkt_type: u8, conn_id: u64, target_key: &str, payload: &[u8]) -> (packet: Vec<
    u8,
>)
    requires
        frame::allocatable(target_key@, payload@),
    ensures
        packet@ == frame::packet_bytes(pkt_type, conn_id, target_key@, payload@),
{
    frame::encode_packet(pkt_type, conn_id, target_key, payload)
}

/// The type, connection id, target key and payload in the bytes of a frame, if they are as long
/// as they claim.
pub fn parse_frame(data: &[u8]) -> (frame: Option<(u8, u64, String, Vec<u8>)>)
    ensures
        match frame {
            Some((kind, conn_id, key, payload)) => frame::read_frame(data@) == Some(
                Frame { kind, conn_id, key: key@, payload: payload@ },
            ),
            None => frame::read_frame(data@) is None,
        },
{
    frame::decode_frame(data)
}

// ---------------------------------------------------------------------------------------------
// Routing mode
// ---------------------------------------------------------------------------------------------

/// How the client takes traffic in.
#[derive(Clone, Copy, Debug, PartialEq, Eq, Structural)]
pub enum RoutingMode {
    /// Through a SOCKS5 listener.
    Socks5,
    /// Through a TUN device.
    Tun,
}

/// The routing mode that a lower-case name stands for: every name but `tun` stands for SOCKS5.
pub open spec fn mode_of_name(name: Seq<char>) -> RoutingMode {
    if name == "tun"@ {
        RoutingMode::Tun
    } else {
        RoutingMode::Socks5
    }
}

/// The routing mode that is configured as `configured`, in upper or lower case.
pub open spec fn configured_routing(configured: Seq<char>) -> RoutingMode {
    mode_of_name(text::lowercase(configured))
}

/// In ASCII, the three letters `tun` in any case stand for the TUN device, and everything else
/// for SOCKS5.
pub proof fn law_only_tun_names_the_device(configured: Seq<char>)
    requires
        is_ascii_chars(configured),
    ensures
        configured_routing(configured) == RoutingMode::Tun <==> {
            &&& configured.len() == 3
            &&& configured[0] == 't' || configured[0] == 'T'
            &&& configured[1] == 'u' || configured[1] == 'U'
            &&& configured[2] == 'n' || configured[2] == 'N'
        },
{
    reveal_strlit("tun");
    let lower = text::lowercase(configured);
    if configured.len() == 3 {
        text::law_lowercase_letter_by_letter(configured, 0);
        text::law_lowercase_letter_by_letter(configured, 1);
        text::law_lowercase_letter_by_letter(configured, 2);
        assert(lower == "tun"@ <==> lower[0] == 't' && lower[1] == 'u' && lower[2] == 'n') by {
            if lower[0] == 't' && lower[1] == 'u' && lower[2] == 'n' {
                assert(lower =~= "tun"@);
            }
        }
    } else {
        assert(lower.len() == configured.len());
    }
}

/// Of any names, `tun` alone stands for the TUN device.
pub proof fn law_device_has_one_name(name: Seq<char>)
    ensures
        mode_of_name(name) == RoutingMode::Tun <==> name == seq!['t', 'u', 'n'],
{
    reveal_strlit("tun");
    assert("tun"@ =~= seq!['t', 'u', 'n']);
}

/// The routing mode that the lower-case name `name` stands for.
pub fn routing_mode_of_name(name: &str) -> (mode: RoutingMode)
    ensures
        mode == mode_of_name(name@),
{
    if text::same_text(name, "tun") {
        RoutingMode::Tun
    } else {
        RoutingMode::Socks5
    }
}

/// The routing mode that is configured as `configured`, in upper or lower case.
pub fn routing_mode(configured: &str) -> (mode: RoutingMode)
    ensures
        mode == configured_routing(configured@),
        mode == mode_of_name(text::lowercase(configured@)),
{
    routing_mode_of_name(text::lower_text(configured).as_str())
}

// ---------------------------------------------------------------------------------------------
// Frames from the server
// ---------------------------------------------------------------------------------------------

/// What the client has open.
#[verifier::ext_equal]
pub struct OpenSockets {
    /// The TCP connections of SOCKS5 clients.
    pub tcp: Set<u64>,
    /// The UDP associations of SOCKS5 clients, each with the address that its client last sent
    /// a datagram from.
    pub relays: Map<u64, Option<PeerAddr>>,
}

/// What the client has open.
pub struct ClientSockets {
    tcp: HashSet<u64>,
    relays: HashMap<u64, Option<PeerAddr>>,
}

impl View for ClientSockets {
    type V = OpenSockets;

    closed spec fn view(&self) -> OpenSockets {
        OpenSockets { tcp: self.tcp@, relays: self.relays@ }
    }
}

/// What to do with a frame from the server. `B` is a sequence of bytes.
#[derive(Debug)]
pub enum ClientStep<B> {
    /// Nothing.
    Ignore,
    /// Write `payload` to the TCP connection `conn_id`, and close it if that fails.
    WriteTcp { conn_id: u64, payload: B },
    /// Send `datagram` from the socket of the UDP association `conn_id` to `to`.
    SendDatagram { conn_id: u64, to: PeerAddr, datagram: B },
    /// Write `packet` to the TUN device.
    SendTun { packet: B },
}

impl View for ClientStep<Vec<u8>> {
    type V = ClientStep<Seq<u8>>;

    open spec fn view(&self) -> ClientStep<Seq<u8>> {
        match *self {
            ClientStep::Ignore => ClientStep::Ignore,
            ClientStep::WriteTcp { conn_id, payload } => ClientStep::WriteTcp {
                conn_id,
                payload: payload@,
            },
            ClientStep::SendDatagram { conn_id, to, datagram } => ClientStep::SendDatagram {
                conn_id,
                to,
                datagram: datagram@,
            },
            ClientStep::SendTun { packet } => ClientStep::SendTun { packet: packet@ },
        }
    }
}

/// What to do with a frame from the server, where `tun_up` tells whether there is a TUN device.
pub open spec fn deliver(open: OpenSockets, frame: Frame, tun_up: bool) -> ClientStep<Seq<u8>> {
    if frame.kind == frame::TCP && open.tcp.contains(frame.conn_id) {
        ClientStep::WriteTcp { conn_id: frame.conn_id, payload: frame.payload }
    } else if frame.kind == frame::UDP && open.relays.contains_key(frame.conn_id)
        && open.relays[frame.conn_id] is Some {
        ClientStep::SendDatagram {
            conn_id: frame.conn_id,
            to: open.relays[frame.conn_id]->0,
            datagram: socks5::socks_datagram(frame.key, frame.payload),
        }
    } else if frame.kind == frame::TUN && tun_up {
        ClientStep::SendTun { packet: frame.payload }
    } else {
        ClientStep::Ignore
    }
}

/// What to do with the bytes of a frame from the server.
pub open spec fn client_step(open: OpenSockets, data: Seq<u8>, tun_up: bool) -> ClientStep<
    Seq<u8>,
> {
    match frame::read_frame(data) {
        Some(frame) => deliver(open, frame, tun_up),
        None => ClientStep::Ignore,
    }
}

/// A step is shown with the same parts, and with their contents.
pub proof fn law_step_is_shown_whole(conn_id: u64, to: PeerAddr, payload: Vec<u8>)
    ensures
        ClientStep::<Vec<u8>>::Ignore@ == ClientStep::<Seq<u8>>::Ignore,
        (ClientStep::WriteTcp { conn_id, payload })@ == (ClientStep::WriteTcp {
            conn_id,
            payload: payload@,
        }),
        (ClientStep::SendDatagram { conn_id, to, datagram: payload })@
            == (ClientStep::SendDatagram { conn_id, to, datagram: payload@ }),
        (ClientStep::SendTun { packet: payload })@ == (ClientStep::SendTun { packet: payload@ }),
{
}

/// What the client does with any bytes that come from the server.
///
/// The first byte is 0 for TCP, 1 for UDP and 2 for the TUN device. Eight bytes of connection id,
/// two bytes for the length of the key, the key, and the payload follow.
///
/// A TCP payload, even an empty one, is written to the connection that is open under its id. A
/// datagram is sent to the address that the client of its association last sent from: ten bytes
/// that name the port of the key, and then the payload. An IP packet goes to the device, if there
/// is one. Everything else is ignored.
pub proof fn law_client_sorts_frames(open: OpenSockets, data: Seq<u8>, tun_up: bool)
    ensures
        ({
            let key_len = data[9] * 256 + data[10];
            let whole = data.len() >= 11 && data.len() >= 11 + key_len;
            let id = bytes::weighed(data, 1) as u64;
            let key = text::lossy_text(data.subrange(11, 11 + key_len));
            let payload = data.skip(11 + key_len);
            let heard = open.relays.contains_key(id) && open.relays[id] is Some;
            let step = client_step(open, data, tun_up);
            &&& !whole ==> step == ClientStep::<Seq<u8>>::Ignore
            &&& whole && data[0] == 0 && open.tcp.contains(id) ==> step == (ClientStep::WriteTcp {
                conn_id: id,
                payload,
            })
            &&& whole && data[0] == 0 && !open.tcp.contains(id) ==> step == ClientStep::<
                Seq<u8>,
            >::Ignore
            &&& whole && data[0] == 1 && heard ==> {
                &&& step matches ClientStep::SendDatagram { conn_id, to, datagram }
                &&& conn_id == id
                &&& Some(to) == open.relays[id]
                &&& datagram.len() == 10 + payload.len()
                &&& datagram[8] * 256 + datagram[9] == addr::key_port(key)
                &&& datagram.take(8) == seq![0u8, 0, 0, 1, 127, 0, 0, 1]
                &&& datagram.skip(10) == payload
            }
            &&& whole && data[0] == 1 && !heard ==> step == ClientStep::<Seq<u8>>::Ignore
            &&& whole && data[0] == 2 && tun_up ==> step == (ClientStep::SendTun {
                packet: payload,
            })
            &&& whole && data[0] == 2 && !tun_up ==> step == ClientStep::<Seq<u8>>::Ignore
            &&& whole && data[0] > 2 ==> step == ClientStep::<Seq<u8>>::Ignore
        }),
{
    let key_len = data[9] * 256 + data[10];
    let key = text::lossy_text(data.subrange(11, 11 + key_len));
    let payload = data.skip(11 + key_len);
    frame::law_frame_is_read_in_place(data);
    socks5::law_datagram_layout(key, payload);
    let datagram = socks5::socks_datagram(key, payload);
    assert(datagram.take(8) =~= seq![0u8, 0, 0, 1, 127, 0, 0, 1]);
}

/// What is open once the client of the UDP association `conn_id` has sent a datagram from `from`.
pub open spec fn heard(open: OpenSockets, conn_id: u64, from: PeerAddr) -> OpenSockets {
    if open.relays.contains_key(conn_id) {
        OpenSockets { relays: open.relays.insert(conn_id, Some(from)), ..open }
    } else {
        open
    }
}

/// A datagram from a SOCKS5 client changes the address of its own association, if that is open,
/// and nothing else.
pub proof fn law_hearing_changes_one_address(
    open: OpenSockets,
    conn_id: u64,
    from: PeerAddr,
    other: u64,
)
    ensures
        ({
            let now = heard(open, conn_id, from);
            &&& now.tcp == open.tcp
            &&& now.relays.contains_key(other) == open.relays.contains_key(other)
            &&& open.relays.contains_key(conn_id) ==> now.relays[conn_id] == Some(from)
            &&& other != conn_id && open.relays.contains_key(other) ==> now.relays[other]
                == open.relays[other]
        }),
{
}

impl ClientSockets {
    /// Nothing is open.
    pub fn new() -> (sockets: ClientSockets)
        ensures
            sockets@ == (OpenSockets { tcp: Set::empty(), relays: Map::empty() }),
    {
        let sockets = ClientSockets { tcp: HashSet::new(), relays: HashMap::new() };
        assert(sockets@ =~= OpenSockets { tcp: Set::empty(), relays: Map::empty() });
        sockets
    }

    /// The TCP connection `conn_id` is open from now on.
    pub fn open_tcp(&mut self, conn_id: u64)
        ensures
            final(self)@ == (OpenSockets { tcp: old(self)@.tcp.insert(conn_id), ..old(self)@ }),
    {
        self.tcp.insert(conn_id);
    }

    /// The TCP connection `conn_id` is closed from now on.
    pub fn close_tcp(&mut self, conn_id: u64)
        ensures
            final(self)@ == (OpenSockets { tcp: old(self)@.tcp.remove(conn_id), ..old(self)@ }),
    {
        self.tcp.remove(&conn_id);
    }

    /// The UDP association `conn_id` is open from now on. Its client has sent nothing yet.
    pub fn open_relay(&mut self, conn_id: u64)
        ensures
            final(self)@ == (OpenSockets {
                relays: old(self)@.relays.insert(conn_id, None),
                ..old(self)@
            }),
    {
        self.relays.insert(conn_id, None);
    }

    /// The client of the UDP association `conn_id` has sent a datagram from `from`.
    pub fn heard_from(&mut self, conn_id: u64, from: PeerAddr)
        ensures
            final(self)@ == heard(old(self)@, conn_id, from),
    {
        if self.relays.contains_key(&conn_id) {
            self.relays.insert(conn_id, Some(from));
        }
    }

    /// The UDP association `conn_id` is closed from now on.
    pub fn close_relay(&mut self, conn_id: u64)
        ensures
            final(self)@ == (OpenSockets {
                relays: old(self)@.relays.remove(conn_id),
                ..old(self)@
            }),
    {
        self.relays.remove(&conn_id);
    }

    /// What to do with the bytes of a frame from the server, where `tun_up` tells whether there
    /// is a TUN device.
    pub fn on_frame(&self, data: &[u8], tun_up: bool) -> (step: ClientStep<Vec<u8>>)
        requires
            data@.len() <= isize::MAX,
        ensures
            step@ == client_step(self@, data@, tun_up),
    {
        let (kind, conn_id, key, payload) = match parse_frame(data) {
            Some(parts) => parts,
            None => {
                return ClientStep::Ignore;
            },
        };
        match kind {
            frame::TCP => {
                if self.tcp.contains(&conn_id) {
                    ClientStep::WriteTcp { conn_id, payload }
                } else {
                    ClientStep::Ignore
                }
            },
            frame::UDP => {
                match self.relays.get(&conn_id) {
                    Some(Some(to)) => ClientStep::SendDatagram {
                        conn_id,
                        to: *to,
                        datagram: socks5::wrap_datagram(key.as_str(), payload.as_slice()),
                    },
                    _ => ClientStep::Ignore,
                }
            },
            frame::TUN => {
                if tun_up {
                    ClientStep::SendTun { packet: payload }
                } else {
                    ClientStep::Ignore
                }
            },
            _ => ClientStep::Ignore,
        }
    }
}

} // verus!
