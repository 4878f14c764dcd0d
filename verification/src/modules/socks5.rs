//! The SOCKS5 side of the client.
//!
//! A SOCKS5 client greets, is told that no authentication is needed, and asks for a TCP
//! connection or a UDP association. What it sends afterwards goes into the tunnel.

use vstd::prelude::*;
use vstd::slice::*;
use vstd::string::*;
use vstd::utf8::*;

use crate::addr;
use crate::addr::PeerAddr;
use crate::bytes;
use crate::frame;
use crate::text;

verus! {

// ---------------------------------------------------------------------------------------------
// The dialogue
// ---------------------------------------------------------------------------------------------

/// What a SOCKS5 client can ask for.
#[derive(Clone, Copy, Debug, PartialEq, Eq, Structural)]
pub enum Command {
    /// A TCP connection.
    Connect,
    /// A UDP association.
    Associate,
}

/// How far a dialogue has come, that is, what is to be read next. `S` is a text.
#[derive(Debug)]
pub enum Handshake<S> {
    /// The version and the number of authentication methods.
    Greeting,
    /// The authentication methods.
    Methods { count: u8 },
    /// The version, the command, a reserved byte and the type of the address.
    Request,
    /// An IPv4 address.
    Ipv4 { command: Command },
    /// The length of a host name.
    NameLen { command: Command },
    /// A host name.
    Name { command: Command, len: u8 },
    /// An IPv6 address.
    Ipv6 { command: Command },
    /// The port.
    Port { command: Command, host: S },
}

/// What follows one read of a dialogue. `S` is a text.
#[derive(Debug)]
pub enum Next<S> {
    /// Read on.
    Read(Handshake<S>),
    /// Write `method_reply()`, then read on.
    Answer(Handshake<S>),
    /// The dialogue is over: the client asks for `command` to the target `key`.
    Serve { command: Command, key: S },
    /// The dialogue is over: the client asks for something that is not served.
    Unsupported,
    /// The dialogue failed: the address is of an unknown type.
    BadAddressType,
}

impl View for Handshake<String> {
    type V = Handshake<Seq<char>>;

    open spec fn view(&self) -> Handshake<Seq<char>> {
        match *self {
            Handshake::Greeting => Handshake::Greeting,
            Handshake::Methods { count } => Handshake::Methods { count },
            Handshake::Request => Handshake::Request,
            Handshake::Ipv4 { command } => Handshake::Ipv4 { command },
            Handshake::NameLen { command } => Handshake::NameLen { command },
            Handshake::Name { command, len } => Handshake::Name { command, len },
            Handshake::Ipv6 { command } => Handshake::Ipv6 { command },
            Handshake::Port { command, host } => Handshake::Port { command, host: host@ },
        }
    }
}

impl View for Next<String> {
    type V = Next<Seq<char>>;

    open spec fn view(&self) -> Next<Seq<char>> {
        match *self {
            Next::Read(phase) => Next::Read(phase@),
            Next::Answer(phase) => Next::Answer(phase@),
            Next::Serve { command, key } => Next::Serve { command, key: key@ },
            Next::Unsupported => Next::Unsupported,
            Next::BadAddressType => Next::BadAddressType,
        }
    }
}

/// How many bytes the next read of a dialogue brings.
pub open spec fn read_len<S>(phase: Handshake<S>) -> nat {
    match phase {
        Handshake::Greeting => 2,
        Handshake::Methods { count } => count as nat,
        Handshake::Request => 4,
        Handshake::Ipv4 { .. } => 4,
        Handshake::NameLen { .. } => 1,
        Handshake::Name { len, .. } => len as nat,
        Handshake::Ipv6 { .. } => 16,
        Handshake::Port { .. } => 2,
    }
}

/// The command that a request names.
pub open spec fn command_of(code: u8) -> Option<Command> {
    if code == 0x01 {
        Some(Command::Connect)
    } else if code == 0x03 {
        Some(Command::Associate)
    } else {
        None
    }
}

/// The host part of a target key for an IPv6 address.
pub open spec fn bracketed_ipv6(octets: Seq<u8>) -> Seq<char> {
    seq!['['] + addr::canonical_ipv6(octets) + seq![']']
}

/// What follows when a dialogue in `phase` reads `chunk`.
pub open spec fn dialogue_step(phase: Handshake<Seq<char>>, chunk: Seq<u8>) -> Next<Seq<char>> {
    match phase {
        Handshake::Greeting => Next::Read(Handshake::Methods { count: chunk[1] }),
        Handshake::Methods { .. } => Next::Answer(Handshake::Request),
        Handshake::Request => match command_of(chunk[1]) {
            None => Next::Unsupported,
            Some(command) => if chunk[3] == 0x01 {
                Next::Read(Handshake::Ipv4 { command })
            } else if chunk[3] == 0x03 {
                Next::Read(Handshake::NameLen { command })
            } else if chunk[3] == 0x04 {
                Next::Read(Handshake::Ipv6 { command })
            } else {
                Next::BadAddressType
            },
        },
        Handshake::Ipv4 { command } => Next::Read(
            Handshake::Port { command, host: addr::dotted_text(chunk) },
        ),
        Handshake::NameLen { command } => Next::Read(Handshake::Name { command, len: chunk[0] }),
        Handshake::Name { command, .. } => Next::Read(
            Handshake::Port { command, host: text::lossy_text(chunk) },
        ),
        Handshake::Ipv6 { command } => Next::Read(
            Handshake::Port { command, host: bracketed_ipv6(chunk) },
        ),
        Handshake::Port { command, host } => Next::Serve {
            command,
            key: addr::key_text(host, bytes::be_value(chunk) as u16),
        },
    }
}

impl Handshake<String> {
    /// How many bytes to read next, all of them.
    pub fn wanted(&self) -> (count: usize)
        ensures
            count == read_len(self@),
    {
        match self {
            Handshake::Greeting => 2,
            Handshake::Methods { count } => *count as usize,
            Handshake::Request => 4,
            Handshake::Ipv4 { .. } => 4,
            Handshake::NameLen { .. } => 1,
            Handshake::Name { len, .. } => *len as usize,
            Handshake::Ipv6 { .. } => 16,
            Handshake::Port { .. } => 2,
        }
    }

    /// Takes in the bytes of one read.
    pub fn advance(self, chunk: &[u8]) -> (next: Next<String>)
        requires
            chunk@.len() == read_len(self@),
        ensures
            next@ == dialogue_step(self@, chunk@),
    {
        match self {
            Handshake::Greeting => Next::Read(Handshake::Methods { count: chunk[1] }),
            Handshake::Methods { .. } => Next::Answer(Handshake::Request),
            Handshake::Request => {
                let command: Command = match chunk[1] {
                    0x01 => Command::Connect,
                    0x03 => Command::Associate,
                    _ => {
                        return Next::Unsupported;
                    },
                };
                match chunk[3] {
                    0x01 => Next::Read(Handshake::Ipv4 { command }),
                    0x03 => Next::Read(Handshake::NameLen { command }),
                    0x04 => Next::Read(Handshake::Ipv6 { command }),
                    _ => Next::BadAddressType,
                }
            },
            Handshake::Ipv4 { command } => Next::Read(
                Handshake::Port { command, host: addr::ipv4_text(chunk) },
            ),
            Handshake::NameLen { command } => Next::Read(
                Handshake::Name { command, len: chunk[0] },
            ),
            Handshake::Name { command, .. } => Next::Read(
                Handshake::Port { command, host: text::decode_lossy(chunk) },
            ),
            Handshake::Ipv6 { command } => {
                let mut host = String::new();
                host.push('[');
                host.append(addr::ipv6_text(chunk).as_str());
                host.push(']');
                assert(host@ =~= bracketed_ipv6(chunk@));
                Next::Read(Handshake::Port { command, host })
            },
            Handshake::Port { command, host } => {
                assert(chunk@.subrange(0, 2) =~= chunk@);
                let port: u16 = bytes::get_u16(chunk, 0);
                Next::Serve { command, key: addr::target_key(host.as_str(), port) }
            },
        }
    }
}

/// How a dialogue ends.
pub enum Dialogue {
    /// More bytes are needed.
    Incomplete,
    /// The client asks for something that is not served.
    Unsupported,
    /// The address is of an unknown type.
    BadAddressType,
    /// The client asks for `command` to the target `key`, in its first `used` bytes.
    Served { command: Command, key: Seq<char>, used: int },
}

/// How many bytes a host of the given address type takes. `first` is the first of them.
pub open spec fn host_len(address_type: u8, first: u8) -> int {
    if address_type == 0x01 {
        4
    } else if address_type == 0x03 {
        1 + first as int
    } else {
        16
    }
}

/// The text of the host in `field`, for the given address type.
pub open spec fn host_text(address_type: u8, field: Seq<u8>) -> Seq<char> {
    if address_type == 0x01 {
        addr::dotted_text(field)
    } else if address_type == 0x03 {
        text::lossy_text(field.skip(1))
    } else {
        bracketed_ipv6(field)
    }
}

/// How a dialogue ends that has read the host, which goes up to the position `port` in `stream`.
pub open spec fn dialogue_at_port(
    command: Command,
    host: Seq<char>,
    stream: Seq<u8>,
    port: int,
) -> Dialogue {
    if stream.len() < port + 2 {
        Dialogue::Incomplete
    } else {
        Dialogue::Served {
            command,
            key: addr::key_text(host, bytes::be_value(stream.subrange(port, port + 2)) as u16),
            used: port + 2,
        }
    }
}

/// What a client says in `stream`, read as a whole: a greeting (version, number of methods,
/// methods), then a request (version, command, a reserved byte, address type, host, port).
pub open spec fn dialogue(stream: Seq<u8>) -> Dialogue {
    let request = 2 + stream[1] as int;
    let host = request + 4;
    let address_type = stream[request + 3];
    let port = host + host_len(address_type, stream[host]);
    if stream.len() < 2 || stream.len() < host {
        Dialogue::Incomplete
    } else {
        match command_of(stream[request + 1]) {
            None => Dialogue::Unsupported,
            Some(command) => if address_type != 0x01 && address_type != 0x03 && address_type
                != 0x04 {
                Dialogue::BadAddressType
            } else {
                dialogue_at_port(
                    command,
                    host_text(address_type, stream.subrange(host, port)),
                    stream,
                    port,
                )
            },
        }
    }
}

/// How many reads a dialogue in `phase` has still to make at most.
pub open spec fn reads_left<S>(phase: Handshake<S>) -> int {
    match phase {
        Handshake::Greeting => 6,
        Handshake::Methods { .. } => 5,
        Handshake::Request => 4,
        Handshake::NameLen { .. } => 3,
        Handshake::Ipv4 { .. } => 2,
        Handshake::Name { .. } => 2,
        Handshake::Ipv6 { .. } => 2,
        Handshake::Port { .. } => 1,
    }
}

/// How a dialogue ends that is in `phase` and has read the first `at` bytes of `stream`, one
/// exact read after another.
pub open spec fn dialogue_from(phase: Handshake<Seq<char>>, stream: Seq<u8>, at: int) -> Dialogue
    decreases reads_left(phase),
{
    let end = at + read_len(phase);
    if stream.len() < end {
        Dialogue::Incomplete
    } else {
        match dialogue_step(phase, stream.subrange(at, end)) {
            Next::Read(next) => dialogue_from(next, stream, end),
            Next::Answer(next) => dialogue_from(next, stream, end),
            Next::Serve { command, key } => Dialogue::Served { command, key, used: end },
            Next::Unsupported => Dialogue::Unsupported,
            Next::BadAddressType => Dialogue::BadAddressType,
        }
    }
}

/// Read by read, the dialogue comes to what the client's bytes say as a whole.
pub proof fn law_reads_follow_dialogue(stream: Seq<u8>)
    ensures
        dialogue_from(Handshake::Greeting, stream, 0) == dialogue(stream),
{
    let start = Handshake::<Seq<char>>::Greeting;
    if stream.len() >= 2 {
        let count = stream[1];
        let request = 2 + count as int;
        let host = request + 4;
        assert(stream.subrange(0, 2)[1] == count);
        assert(dialogue_from(start, stream, 0) == dialogue_from(
            Handshake::Methods { count },
            stream,
            2,
        ));
        if stream.len() >= host {
            assert(dialogue_from(Handshake::Methods { count }, stream, 2) == dialogue_from(
                Handshake::Request,
                stream,
                request,
            ));
            let chunk = stream.subrange(request, host);
            assert(chunk[1] == stream[request + 1]);
            assert(chunk[3] == stream[request + 3]);
            let known = chunk[3] == 0x01 || chunk[3] == 0x03 || chunk[3] == 0x04;
            if command_of(chunk[1]) is Some && known {
                let command = command_of(chunk[1])->0;
                lemma_reads_follow_address(command, chunk[3], stream, host);
            }
        } else if stream.len() >= request {
            assert(dialogue_from(Handshake::Methods { count }, stream, 2) == dialogue_from(
                Handshake::Request,
                stream,
                request,
            ));
        }
    }
}

/// The phase in which a dialogue reads a host of the given address type.
pub open spec fn host_phase(command: Command, address_type: u8) -> Handshake<Seq<char>> {
    if address_type == 0x01 {
        Handshake::Ipv4 { command }
    } else if address_type == 0x03 {
        Handshake::NameLen { command }
    } else {
        Handshake::Ipv6 { command }
    }
}

/// The part of a dialogue that reads an address, from the host on.
proof fn lemma_reads_follow_address(
    command: Command,
    address_type: u8,
    stream: Seq<u8>,
    host: int,
)
    requires
        0 <= host <= stream.len(),
        address_type == 0x01 || address_type == 0x03 || address_type == 0x04,
    ensures
        ({
            let port = host + host_len(address_type, stream[host]);
            dialogue_from(host_phase(command, address_type), stream, host) == dialogue_at_port(
                command,
                host_text(address_type, stream.subrange(host, port)),
                stream,
                port,
            )
        }),
{
    let port = host + host_len(address_type, stream[host]);
    let field = stream.subrange(host, port);
    let name = host_text(address_type, field);
    let last = Handshake::Port { command, host: name };
    assert(dialogue_from(last, stream, port) == dialogue_at_port(command, name, stream, port));
    if address_type == 0x03 {
        let len = stream[host];
        let named = Handshake::<Seq<char>>::Name { command, len };
        if stream.len() >= host + 1 {
            assert(stream.subrange(host, host + 1)[0] == len);
            assert(dialogue_from(host_phase(command, address_type), stream, host) == dialogue_from(
                named,
                stream,
                host + 1,
            ));
            if stream.len() >= port {
                assert(field.skip(1) =~= stream.subrange(host + 1, port));
                assert(dialogue_from(named, stream, host + 1) == dialogue_from(
                    last,
                    stream,
                    port,
                ));
            }
        }
    } else if stream.len() >= port {
        assert(dialogue_step(host_phase(command, address_type), field) == Next::Read(last));
        assert(dialogue_from(host_phase(command, address_type), stream, host) == dialogue_from(
            last,
            stream,
            port,
        ));
    }
}

/// What a client says: a greeting that offers `methods`, and a request with the command `code`
/// for the address `host` of type `address_type` and for `port`.
pub open spec fn client_says(
    versions: (u8, u8),
    methods: Seq<u8>,
    code: u8,
    reserved: u8,
    address_type: u8,
    host: Seq<u8>,
    port: u16,
) -> Seq<u8> {
    seq![versions.0, methods.len() as u8] + methods + seq![
        versions.1,
        code,
        reserved,
        address_type,
    ] + host + seq![(port / 256) as u8, (port % 256) as u8]
}

/// The bytes of a host name behind their number.
pub open spec fn counted(name: Seq<u8>) -> Seq<u8> {
    seq![name.len() as u8] + name
}

/// A client that asks for a connection, or for an association, is served, whatever versions it
/// claims and methods it offers and whatever it sends next. The target key holds the address in
/// its text form, a host name as it is and an IPv6 address in brackets, and the port; the
/// dialogue ends with the last byte of the port.
pub proof fn law_request_is_served(
    versions: (u8, u8),
    methods: Seq<u8>,
    code: u8,
    reserved: u8,
    octets: Seq<u8>,
    octets6: Seq<u8>,
    name: Seq<u8>,
    port: u16,
    rest: Seq<u8>,
)
    requires
        methods.len() <= 255,
        code == 1 || code == 3,
        octets.len() == 4,
        octets6.len() == 16,
        name.len() <= 255,
    ensures
        ({
            let start = Handshake::<Seq<char>>::Greeting;
            let command = if code == 1 {
                Command::Connect
            } else {
                Command::Associate
            };
            let by_ipv4 = client_says(versions, methods, code, reserved, 1, octets, port);
            let by_name = client_says(versions, methods, code, reserved, 3, counted(name), port);
            let by_ipv6 = client_says(versions, methods, code, reserved, 4, octets6, port);
            &&& dialogue_from(start, by_ipv4 + rest, 0) == (Dialogue::Served {
                command,
                key: addr::key_text(addr::dotted_text(octets), port),
                used: by_ipv4.len() as int,
            })
            &&& dialogue_from(start, by_name + rest, 0) == (Dialogue::Served {
                command,
                key: addr::key_text(text::lossy_text(name), port),
                used: by_name.len() as int,
            })
            &&& dialogue_from(start, by_ipv6 + rest, 0) == (Dialogue::Served {
                command,
                key: addr::key_text(
                    seq!['['] + addr::canonical_ipv6(octets6) + seq![']'],
                    port,
                ),
                used: by_ipv6.len() as int,
            })
        }),
{
    lemma_request_is_served(versions, methods, code, reserved, 1, octets, port, rest);
    lemma_request_is_served(versions, methods, code, reserved, 3, counted(name), port, rest);
    lemma_request_is_served(versions, methods, code, reserved, 4, octets6, port, rest);
    assert(counted(name).skip(1) =~= name);
}

proof fn lemma_request_is_served(
    versions: (u8, u8),
    methods: Seq<u8>,
    code: u8,
    reserved: u8,
    address_type: u8,
    host: Seq<u8>,
    port: u16,
    rest: Seq<u8>,
)
    requires
        methods.len() <= 255,
        command_of(code) is Some,
        address_type == 1 || address_type == 3 || address_type == 4,
        host.len() == host_len(address_type, host[0]),
    ensures
        ({
            let said = client_says(versions, methods, code, reserved, address_type, host, port);
            dialogue_from(Handshake::Greeting, said + rest, 0) == (Dialogue::Served {
                command: command_of(code)->0,
                key: addr::key_text(host_text(address_type, host), port),
                used: said.len() as int,
            })
        }),
{
    let said = client_says(versions, methods, code, reserved, address_type, host, port);
    let stream = said + rest;
    let request = 2 + methods.len() as int;
    let at = request + 4;
    let end = at + host.len();
    let number = seq![(port / 256) as u8, (port % 256) as u8];
    assert(stream[1] == methods.len());
    assert(stream[request + 1] == code);
    assert(stream[request + 3] == address_type);
    assert(stream[at] == host[0]);
    assert(stream.subrange(at, end) =~= host);
    assert(stream.subrange(end, end + 2) =~= number);
    bytes::law_two_bytes(number);
    assert(bytes::be_value(number) == port);
    law_reads_follow_dialogue(stream);
}

/// A client that asks for anything else is not served, and one that gives an address of another
/// type neither, whatever follows the type.
pub proof fn law_other_requests_are_refused(
    versions: (u8, u8),
    methods: Seq<u8>,
    code: u8,
    reserved: u8,
    address_type: u8,
    rest: Seq<u8>,
)
    requires
        methods.len() <= 255,
    ensures
        ({
            let said = seq![versions.0, methods.len() as u8] + methods + seq![
                versions.1,
                code,
                reserved,
                address_type,
            ] + rest;
            let end = dialogue_from(Handshake::Greeting, said, 0);
            let served = code == 1 || code == 3;
            let known = address_type == 1 || address_type == 3 || address_type == 4;
            &&& end == Dialogue::Unsupported <==> !served
            &&& end == Dialogue::BadAddressType <==> served && !known
        }),
{
    let said = seq![versions.0, methods.len() as u8] + methods + seq![
        versions.1,
        code,
        reserved,
        address_type,
    ] + rest;
    let request = 2 + methods.len() as int;
    assert(said[1] == methods.len());
    assert(said[request + 1] == code);
    assert(said[request + 3] == address_type);
    law_reads_follow_dialogue(said);
}

/// As long as part of a request that would be served is missing, the dialogue waits for more.
pub proof fn law_partial_requests_wait(
    versions: (u8, u8),
    methods: Seq<u8>,
    code: u8,
    reserved: u8,
    address_type: u8,
    host: Seq<u8>,
    port: u16,
    seen: nat,
)
    requires
        methods.len() <= 255,
        code == 1 || code == 3,
        address_type == 1 && host.len() == 4 || address_type == 4 && host.len() == 16
            || address_type == 3 && host.len() == 1 + host[0],
        seen < client_says(versions, methods, code, reserved, address_type, host, port).len(),
    ensures
        ({
            let said = client_says(versions, methods, code, reserved, address_type, host, port);
            dialogue_from(Handshake::Greeting, said.take(seen as int), 0) == Dialogue::Incomplete
        }),
{
    let said = client_says(versions, methods, code, reserved, address_type, host, port);
    let stream = said.take(seen as int);
    let request = 2 + methods.len() as int;
    let at = request + 4;
    law_reads_follow_dialogue(stream);
    if seen >= 2 {
        assert(stream[1] == methods.len());
        if seen >= at {
            assert(stream[request + 1] == code);
            assert(stream[request + 3] == address_type);
            if seen > at {
                assert(stream[at] == host[0]);
            }
        }
    }
}

/// What each read of a dialogue leads to. The number of methods and the length of a name decide
/// how much is read next; the command is kept until the port has been read, and so is the host.
pub proof fn law_each_read_leads_on(
    command: Command,
    host: Seq<char>,
    two: (u8, u8),
    request: (u8, u8, u8, u8),
    octets: Seq<u8>,
    octets6: Seq<u8>,
    name: Seq<u8>,
    methods: Seq<u8>,
)
    requires
        octets.len() == 4,
        octets6.len() == 16,
        name.len() <= 255,
        methods.len() <= 255,
    ensures
        ({
            let greeting = Handshake::<Seq<char>>::Greeting;
            let offer = Handshake::<Seq<char>>::Methods { count: two.1 };
            let asks = Handshake::<Seq<char>>::Request;
            let ipv4 = Handshake::<Seq<char>>::Ipv4 { command };
            let name_len = Handshake::<Seq<char>>::NameLen { command };
            let named = Handshake::<Seq<char>>::Name { command, len: two.1 };
            let ipv6 = Handshake::<Seq<char>>::Ipv6 { command };
            let port = Handshake::Port { command, host };
            &&& read_len(greeting) == 2
            &&& read_len(offer) == two.1
            &&& read_len(asks) == 4
            &&& read_len(ipv4) == 4
            &&& read_len(name_len) == 1
            &&& read_len(named) == two.1
            &&& read_len(ipv6) == 16
            &&& read_len(port) == 2
            &&& dialogue_step(greeting, seq![two.0, two.1]) == Next::Read(offer)
            &&& dialogue_step(offer, methods) == Next::Answer(asks)
            &&& dialogue_step(ipv4, octets) == Next::Read(
                Handshake::Port { command, host: addr::dotted_text(octets) },
            )
            &&& dialogue_step(name_len, seq![two.1]) == Next::Read(named)
            &&& dialogue_step(named, name) == Next::Read(
                Handshake::Port { command, host: text::lossy_text(name) },
            )
            &&& dialogue_step(ipv6, octets6) == Next::Read(
                Handshake::Port {
                    command,
                    host: seq!['['] + addr::canonical_ipv6(octets6) + seq![']'],
                },
            )
            &&& dialogue_step(port, seq![two.0, two.1]) == (Next::Serve {
                command,
                key: addr::key_text(host, (two.0 * 256 + two.1) as u16),
            })
        }),
        ({
            let said = seq![request.0, request.1, request.2, request.3];
            let next = dialogue_step(Handshake::Request, said);
            let asked = if request.1 == 1 {
                Command::Connect
            } else {
                Command::Associate
            };
            let served = request.1 == 1 || request.1 == 3;
            &&& !served ==> next == Next::<Seq<char>>::Unsupported
            &&& served && request.3 == 1 ==> next == Next::<Seq<char>>::Read(
                Handshake::Ipv4 { command: asked },
            )
            &&& served && request.3 == 3 ==> next == Next::<Seq<char>>::Read(
                Handshake::NameLen { command: asked },
            )
            &&& served && request.3 == 4 ==> next == Next::<Seq<char>>::Read(
                Handshake::Ipv6 { command: asked },
            )
            &&& served && request.3 != 1 && request.3 != 3 && request.3 != 4 ==> next == Next::<
                Seq<char>,
            >::BadAddressType
        }),
{
    bytes::law_two_bytes(seq![two.0, two.1]);
}

/// A dialogue is shown with the same parts, and with the text of its host or key.
pub proof fn law_dialogue_is_shown_whole(
    phase: Handshake<String>,
    command: Command,
    number: u8,
    host: String,
)
    ensures
        Handshake::<String>::Greeting@ == Handshake::<Seq<char>>::Greeting,
        (Handshake::<String>::Methods { count: number })@ == (Handshake::<Seq<char>>::Methods {
            count: number,
        }),
        Handshake::<String>::Request@ == Handshake::<Seq<char>>::Request,
        (Handshake::<String>::Ipv4 { command })@ == (Handshake::<Seq<char>>::Ipv4 { command }),
        (Handshake::<String>::NameLen { command })@ == (Handshake::<Seq<char>>::NameLen {
            command,
        }),
        (Handshake::<String>::Name { command, len: number })@ == (Handshake::<Seq<char>>::Name {
            command,
            len: number,
        }),
        (Handshake::<String>::Ipv6 { command })@ == (Handshake::<Seq<char>>::Ipv6 { command }),
        (Handshake::Port { command, host })@ == (Handshake::Port { command, host: host@ }),
        Next::Read(phase)@ == Next::Read(phase@),
        Next::Answer(phase)@ == Next::Answer(phase@),
        (Next::Serve { command, key: host })@ == (Next::Serve { command, key: host@ }),
        Next::<String>::Unsupported@ == Next::<Seq<char>>::Unsupported,
        Next::<String>::BadAddressType@ == Next::<Seq<char>>::BadAddressType,
{
}

/// The greeting is answered once: after its methods have been read, and at no other time.
pub proof fn law_only_the_greeting_is_answered(phase: Handshake<Seq<char>>, chunk: Seq<u8>)
    ensures
        dialogue_step(phase, chunk) is Answer <==> phase is Methods,
{
}

// ---------------------------------------------------------------------------------------------
// Replies
// ---------------------------------------------------------------------------------------------

/// The answer to a greeting: no authentication is needed.
pub fn method_reply() -> (reply: Vec<u8>)
    ensures
        reply@ == seq![0x05u8, 0x00],
{
    let reply: Vec<u8> = vec![0x05, 0x00];
    assert(reply@ =~= seq![0x05u8, 0x00]);
    reply
}

/// The answer to a request for a TCP connection: granted, with an empty IPv4 address.
pub fn connect_reply() -> (reply: Vec<u8>)
    ensures
        reply@ == seq![0x05u8, 0x00, 0x00, 0x01, 0, 0, 0, 0, 0, 0],
{
    let reply: Vec<u8> = vec![0x05, 0x00, 0x00, 0x01, 0, 0, 0, 0, 0, 0];
    assert(reply@ =~= seq![0x05u8, 0x00, 0x00, 0x01, 0, 0, 0, 0, 0, 0]);
    reply
}

/// The answer to a request for a UDP association whose socket is bound to `local`: its IPv4
/// address, or the loopback address in place of an IPv6 address, and its port.
pub open spec fn associate_reply_bytes(local: PeerAddr) -> Seq<u8> {
    match local {
        PeerAddr::V4 { ip, port } => seq![0x05u8, 0x00, 0x00, 0x01] + ip@
            + bytes::be_bytes(port as nat, 2),
        PeerAddr::V6 { port, .. } => seq![0x05u8, 0x00, 0x00, 0x01, 127, 0, 0, 1]
            + bytes::be_bytes(port as nat, 2),
    }
}

/// What stands where in the answer to a request for a UDP association: the version, no error, a
/// reserved byte, the type of an IPv4 address, the four octets of the address of the socket, or
/// of the loopback address where that is an IPv6 address, and two bytes for its port.
pub proof fn law_associate_reply_names_socket(ip: [u8; 4], ip6: [u8; 16], port: u16, more: (u32, u32))
    ensures
        ({
            let reply = associate_reply_bytes(PeerAddr::V4 { ip, port });
            &&& reply.len() == 10
            &&& reply[0] == 5 && reply[1] == 0 && reply[2] == 0 && reply[3] == 1
            &&& reply[4] == ip@[0] && reply[5] == ip@[1] && reply[6] == ip@[2] && reply[7] == ip@[3]
            &&& reply[8] * 256 + reply[9] == port
        }),
        ({
            let reply = associate_reply_bytes(
                PeerAddr::V6 { ip6, port, flow_info: more.0, scope_id: more.1 },
            );
            &&& reply.len() == 10
            &&& reply[0] == 5 && reply[1] == 0 && reply[2] == 0 && reply[3] == 1
            &&& reply[4] == 127 && reply[5] == 0 && reply[6] == 0 && reply[7] == 1
            &&& reply[8] * 256 + reply[9] == port
        }),
{
    bytes::law_numbers_are_written_out(port, 0);
}

/// The answer to a request for a UDP association whose socket is bound to `local`.
pub fn associate_reply(local: PeerAddr) -> (reply: Vec<u8>)
    ensures
        reply@ == associate_reply_bytes(local),
{
    let mut reply: Vec<u8> = vec![0x05, 0x00, 0x00, 0x01];
    match local {
        PeerAddr::V4 { ip, port } => {
            reply.push(ip[0]);
            reply.push(ip[1]);
            reply.push(ip[2]);
            reply.push(ip[3]);
            bytes::put_u16(&mut reply, port);
        },
        PeerAddr::V6 { port, .. } => {
            reply.push(127);
            reply.push(0);
            reply.push(0);
            reply.push(1);
            bytes::put_u16(&mut reply, port);
        },
    }
    assert(reply@ =~= associate_reply_bytes(local));
    reply
}

// ---------------------------------------------------------------------------------------------
// Into the tunnel
// ---------------------------------------------------------------------------------------------

/// Connection ids, handed out one after another from 1 on.
pub struct ConnIds {
    next: u64,
}

impl View for ConnIds {
    type V = u64;

    /// The id that is handed out next.
    closed spec fn view(&self) -> u64 {
        self.next
    }
}

/// The id after `id`.
pub open spec fn next_id(id: u64) -> u64 {
    if id == u64::MAX {
        0
    } else {
        (id + 1) as u64
    }
}

impl ConnIds {
    /// No id has been handed out.
    pub fn new() -> (ids: ConnIds)
        ensures
            ids@ == 1,
    {
        ConnIds { next: 1 }
    }

    /// Hands out an id.
    pub fn allocate(&mut self) -> (id: u64)
        ensures
            id == old(self)@,
            final(self)@ == next_id(old(self)@),
    {
        let id: u64 = self.next;
        self.next = id.wrapping_add(1);
        id
    }
}

/// The id that is handed out after `count` others, where `first` was the first of them.
pub open spec fn nth_id(first: u64, count: nat) -> u64
    decreases count,
{
    if count == 0 {
        first
    } else {
        next_id(nth_id(first, (count - 1) as nat))
    }
}

/// The ids that are handed out count up from the first one. Behind the largest 64-bit number the
/// count goes on at 0.
pub proof fn law_ids_count_up(first: u64, count: nat)
    requires
        count < 0x1_0000_0000_0000_0000,
    ensures
        first < 0xFFFF_FFFF_FFFF_FFFF ==> next_id(first) == first + 1,
        first == 0xFFFF_FFFF_FFFF_FFFF ==> next_id(first) == 0,
        first + count < 0x1_0000_0000_0000_0000 ==> nth_id(first, count) == first + count,
        first + count >= 0x1_0000_0000_0000_0000 ==> nth_id(first, count) == first + count
            - 0x1_0000_0000_0000_0000,
{
    lemma_nth_id(first, count);
}

/// No id is handed out twice before 2^64 ids have been handed out.
pub proof fn law_ids_are_distinct(first: u64, i: nat, j: nat)
    requires
        i < j < 0x1_0000_0000_0000_0000,
    ensures
        nth_id(first, i) != nth_id(first, j),
{
    lemma_nth_id(first, i);
    lemma_nth_id(first, j);
}

proof fn lemma_nth_id(first: u64, count: nat)
    requires
        count < 0x1_0000_0000_0000_0000,
    ensures
        nth_id(first, count) == if first + count < 0x1_0000_0000_0000_0000 {
            first + count
        } else {
            first + count - 0x1_0000_0000_0000_0000
        },
    decreases count,
{
    if count > 0 {
        lemma_nth_id(first, (count - 1) as nat);
    }
}

/// What the relay of a SOCKS5 client's TCP connection waits for.
#[derive(Clone, Copy, Debug, PartialEq, Eq, Structural)]
pub enum UpstreamPhase {
    /// A read from the client.
    Reading,
    /// The end of a write into the tunnel.
    Sending,
    /// The end of the last write into the tunnel.
    Closing,
    /// Nothing more.
    Ended,
}

/// What such a relay does after a write into the tunnel. `B` is a sequence of bytes.
#[derive(Debug)]
pub enum AfterSend<B> {
    /// Read from the client.
    Read,
    /// Write a packet into the tunnel.
    Send(B),
    /// Close the connection.
    Close,
}

impl View for AfterSend<Vec<u8>> {
    type V = AfterSend<Seq<u8>>;

    open spec fn view(&self) -> AfterSend<Seq<u8>> {
        match *self {
            AfterSend::Read => AfterSend::Read,
            AfterSend::Send(packet) => AfterSend::Send(packet@),
            AfterSend::Close => AfterSend::Close,
        }
    }
}

/// The packet that a relay sends for what it read, and the phase that it is in then. An empty
/// read stands for the end of the stream, or for a failure: it is sent as well, and is the last.
pub open spec fn upstream_read(conn_id: u64, key: Seq<char>, read: Seq<u8>) -> (
    UpstreamPhase,
    Seq<u8>,
) {
    (
        if read.len() == 0 {
            UpstreamPhase::Closing
        } else {
            UpstreamPhase::Sending
        },
        frame::packet_bytes(frame::TCP, conn_id, key, read),
    )
}

/// What a relay in `phase` does when a write into the tunnel has succeeded, or not, and the phase
/// that it is in then. A failure is followed by an empty packet, whose own fate does not matter.
pub open spec fn upstream_sent(phase: UpstreamPhase, conn_id: u64, key: Seq<char>, ok: bool) -> (
    UpstreamPhase,
    AfterSend<Seq<u8>>,
) {
    if phase == UpstreamPhase::Closing {
        (UpstreamPhase::Ended, AfterSend::Close)
    } else if ok {
        (UpstreamPhase::Reading, AfterSend::Read)
    } else {
        (
            UpstreamPhase::Closing,
            AfterSend::Send(frame::packet_bytes(frame::TCP, conn_id, key, seq![])),
        )
    }
}

/// The relay of a SOCKS5 client's TCP connection into the tunnel.
pub struct TcpUpstream {
    phase: UpstreamPhase,
    conn_id: u64,
    key: String,
}

impl TcpUpstream {
    /// What the relay waits for.
    pub closed spec fn phase(&self) -> UpstreamPhase {
        self.phase
    }

    /// The id of the connection.
    pub closed spec fn conn_id(&self) -> u64 {
        self.conn_id
    }

    /// The target key of the connection.
    pub closed spec fn key(&self) -> Seq<char> {
        self.key@
    }

    /// A relay that has read nothing yet.
    pub fn new(conn_id: u64, key: String) -> (relay: TcpUpstream)
        ensures
            relay.phase() == UpstreamPhase::Reading,
            relay.conn_id() == conn_id,
            relay.key() == key@,
    {
        TcpUpstream { phase: UpstreamPhase::Reading, conn_id, key }
    }

    /// The packet to write into the tunnel for what was read from the client.
    pub fn on_read(&mut self, read: &[u8]) -> (packet: Vec<u8>)
        requires
            old(self).phase() == UpstreamPhase::Reading,
            frame::allocatable(old(self).key(), read@),
        ensures
            final(self).phase() == upstream_read(old(self).conn_id(), old(self).key(), read@).0,
            packet@ == upstream_read(old(self).conn_id(), old(self).key(), read@).1,
            final(self).conn_id() == old(self).conn_id(),
            final(self).key() == old(self).key(),
    {
        self.phase = if read.len() == 0 {
            UpstreamPhase::Closing
        } else {
            UpstreamPhase::Sending
        };
        frame::encode_packet(frame::TCP, self.conn_id, self.key.as_str(), read)
    }

    /// What to do when a write into the tunnel has succeeded, or not.
    pub fn on_sent(&mut self, ok: bool) -> (next: AfterSend<Vec<u8>>)
        requires
            old(self).phase() == UpstreamPhase::Sending || old(self).phase()
                == UpstreamPhase::Closing,
            frame::allocatable(old(self).key(), seq![]),
        ensures
            ({
                let (phase, done) = upstream_sent(
                    old(self).phase(),
                    old(self).conn_id(),
                    old(self).key(),
                    ok,
                );
                &&& final(self).phase() == phase
                &&& next@ == done
            }),
            final(self).conn_id() == old(self).conn_id(),
            final(self).key() == old(self).key(),
    {
        if self.phase == UpstreamPhase::Closing {
            self.phase = UpstreamPhase::Ended;
            return AfterSend::Close;
        }
        if ok {
            self.phase = UpstreamPhase::Reading;
            AfterSend::Read
        } else {
            self.phase = UpstreamPhase::Closing;
            let empty: Vec<u8> = Vec::new();
            assert(empty@ =~= seq![]);
            AfterSend::Send(
                frame::encode_packet(
                    frame::TCP,
                    self.conn_id,
                    self.key.as_str(),
                    empty.as_slice(),
                ),
            )
        }
    }
}

/// What a relay writes into the tunnel over `reads` while every write succeeds.
pub open spec fn upstream_run(conn_id: u64, key: Seq<char>, reads: Seq<Seq<u8>>) -> Seq<u8>
    decreases reads.len(),
{
    if reads.len() == 0 {
        seq![]
    } else {
        let (phase, packet) = upstream_read(conn_id, key, reads[0]);
        let (then, _) = upstream_sent(phase, conn_id, key, true);
        if then == UpstreamPhase::Reading {
            packet + upstream_run(conn_id, key, reads.drop_first())
        } else {
            packet
        }
    }
}

/// The packets that a relay writes into the tunnel over `reads`, where `written` tells which of the
/// writes of what it read succeed.
pub open spec fn upstream_packets(
    conn_id: u64,
    key: Seq<char>,
    reads: Seq<Seq<u8>>,
    written: Seq<bool>,
) -> Seq<Seq<u8>>
    decreases reads.len(),
{
    if reads.len() == 0 {
        seq![]
    } else {
        let (phase, packet) = upstream_read(conn_id, key, reads[0]);
        match upstream_sent(phase, conn_id, key, written[0]).1 {
            AfterSend::Read => seq![packet] + upstream_packets(
                conn_id,
                key,
                reads.drop_first(),
                written.drop_first(),
            ),
            AfterSend::Send(last) => seq![packet, last],
            AfterSend::Close => seq![packet],
        }
    }
}

/// Every packet that a relay writes into the tunnel holds, whole and in order, one of the chunks
/// that it read, up to the chunk whose write fails. Where the client ends the connection, or a
/// write fails, one packet with nothing in it follows, and no other.
pub proof fn law_upstream_packets_hold_reads(
    conn_id: u64,
    key: Seq<char>,
    chunks: Seq<Seq<u8>>,
    later: Seq<Seq<u8>>,
    written: Seq<bool>,
    sent: nat,
)
    requires
        forall|i: int|
            0 <= i < chunks.len() ==> (#[trigger] chunks[i]).len() > 0 && 11 + encode_utf8(
                key,
            ).len() + chunks[i].len() <= 0xFFFF,
        11 + encode_utf8(key).len() <= 0xFFFF,
        sent <= chunks.len() < written.len(),
        forall|i: int| 0 <= i < sent ==> #[trigger] written[i],
        sent < chunks.len() ==> !written[sent as int],
    ensures
        ({
            let packets = upstream_packets(
                conn_id,
                key,
                chunks + seq![Seq::<u8>::empty()] + later,
                written,
            );
            let held = if sent < chunks.len() {
                sent + 1
            } else {
                sent
            };
            &&& packets.len() == held + 1
            &&& forall|i: int|
                0 <= i < held ==> frame::holds_frame(
                    #[trigger] packets[i],
                    0,
                    conn_id,
                    key,
                    chunks[i],
                )
            &&& frame::holds_frame(packets.last(), 0, conn_id, key, seq![])
        }),
{
    let packets = upstream_packets(
        conn_id,
        key,
        chunks + seq![Seq::<u8>::empty()] + later,
        written,
    );
    let held = if sent < chunks.len() {
        sent + 1
    } else {
        sent
    };
    lemma_upstream_packets(conn_id, key, chunks, later, written, sent);
    frame::law_packet_holds_its_frame(0, conn_id, key, seq![]);
    assert forall|i: int| 0 <= i < held implies frame::holds_frame(
        #[trigger] packets[i],
        0,
        conn_id,
        key,
        chunks[i],
    ) by {
        assert(chunks[i].len() > 0);
        frame::law_packet_holds_its_frame(0, conn_id, key, chunks[i]);
    }
}

proof fn lemma_upstream_packets(
    conn_id: u64,
    key: Seq<char>,
    chunks: Seq<Seq<u8>>,
    later: Seq<Seq<u8>>,
    written: Seq<bool>,
    sent: nat,
)
    requires
        forall|i: int| 0 <= i < chunks.len() ==> (#[trigger] chunks[i]).len() > 0,
        sent <= chunks.len() < written.len(),
        forall|i: int| 0 <= i < sent ==> #[trigger] written[i],
        sent < chunks.len() ==> !written[sent as int],
    ensures
        ({
            let packets = upstream_packets(
                conn_id,
                key,
                chunks + seq![Seq::<u8>::empty()] + later,
                written,
            );
            let held = if sent < chunks.len() {
                sent + 1
            } else {
                sent
            };
            &&& packets.len() == held + 1
            &&& forall|i: int|
                0 <= i < held ==> #[trigger] packets[i] == frame::packet_bytes(
                    0,
                    conn_id,
                    key,
                    chunks[i],
                )
            &&& packets.last() == frame::packet_bytes(0, conn_id, key, seq![])
        }),
    decreases chunks.len(),
{
    let empty = Seq::<u8>::empty();
    let reads = chunks + seq![empty] + later;
    let packets = upstream_packets(conn_id, key, reads, written);
    assert(empty =~= seq![]);
    if chunks.len() == 0 {
        assert(reads[0] == empty);
        assert(packets =~= seq![frame::packet_bytes(0, conn_id, key, seq![])]);
    } else {
        let first = frame::packet_bytes(0, conn_id, key, chunks[0]);
        assert(reads[0] == chunks[0]);
        assert(chunks[0].len() > 0);
        if sent == 0 {
            assert(packets =~= seq![first, frame::packet_bytes(0, conn_id, key, seq![])]);
        } else {
            let others = chunks.drop_first();
            let fates = written.drop_first();
            assert forall|i: int| 0 <= i < others.len() implies (#[trigger] others[i]).len() > 0 by {
                assert(others[i] == chunks[i + 1]);
            }
            assert(written[0]);
            assert forall|i: int| 0 <= i < sent - 1 implies #[trigger] fates[i] by {
                assert(written[i + 1]);
            }
            lemma_upstream_packets(conn_id, key, others, later, fates, (sent - 1) as nat);
            let rest = upstream_packets(conn_id, key, others + seq![empty] + later, fates);
            assert(reads.drop_first() =~= others + seq![empty] + later);
            assert(packets =~= seq![first] + rest);
            assert(packets.last() == rest.last());
        }
    }
}

/// What the client sent goes into the tunnel whole, in one packet with the id and the key of the
/// connection; after a failure a packet with nothing in it goes there.
pub proof fn law_upstream_packet_holds_read(conn_id: u64, key: Seq<char>, read: Seq<u8>)
    ensures
        frame::carries(upstream_read(conn_id, key, read).1, 0, conn_id, key, read),
        upstream_sent(UpstreamPhase::Sending, conn_id, key, false).1 matches AfterSend::Send(packet)
            && frame::carries(packet, 0, conn_id, key, seq![]),
        upstream_read(conn_id, key, read).0 == UpstreamPhase::Sending <==> read.len() > 0,
        upstream_read(conn_id, key, read).0 == UpstreamPhase::Closing <==> read.len() == 0,
{
    frame::law_packet_carries_its_parts(0, conn_id, key, read);
    frame::law_packet_carries_its_parts(0, conn_id, key, seq![]);
}

/// What follows a write is shown whole.
pub proof fn law_after_send_is_shown_whole(packet: Vec<u8>)
    ensures
        AfterSend::<Vec<u8>>::Read@ == AfterSend::<Seq<u8>>::Read,
        AfterSend::Send(packet)@ == AfterSend::Send(packet@),
        AfterSend::<Vec<u8>>::Close@ == AfterSend::<Seq<u8>>::Close,
{
}

/// Once the empty packet has been written, or that has failed, the connection is closed and the
/// relay has ended; as long as nothing has failed, it goes on to read.
pub proof fn law_upstream_ends_after_empty_packet(
    conn_id: u64,
    key: Seq<char>,
    chunk: Seq<u8>,
    ok: bool,
)
    requires
        chunk.len() > 0,
    ensures
        ({
            let (closing, _) = upstream_read(conn_id, key, seq![]);
            let (sending, _) = upstream_read(conn_id, key, chunk);
            let (failed, _) = upstream_sent(sending, conn_id, key, false);
            let end = (UpstreamPhase::Ended, AfterSend::<Seq<u8>>::Close);
            &&& upstream_sent(closing, conn_id, key, ok) == end
            &&& upstream_sent(failed, conn_id, key, ok) == end
            &&& upstream_sent(sending, conn_id, key, true) == (
                UpstreamPhase::Reading,
                AfterSend::<Seq<u8>>::Read,
            )
        }),
{
}

/// How long the header of a SOCKS5 datagram is.
pub open spec fn datagram_header_len(datagram: Seq<u8>) -> int {
    if datagram[3] == 0x03 {
        4 + 1 + datagram[4] as int + 2
    } else if datagram[3] == 0x04 {
        22
    } else {
        10
    }
}

/// The payload of a SOCKS5 datagram. There is none in a fragment, nor where nothing follows
/// the header, nor in a datagram of ten bytes or less.
pub open spec fn datagram_payload(datagram: Seq<u8>) -> Option<Seq<u8>> {
    if datagram.len() > 10 && datagram[2] == 0 && datagram.len() > datagram_header_len(datagram) {
        Some(datagram.skip(datagram_header_len(datagram)))
    } else {
        None
    }
}

/// The payload of a SOCKS5 datagram, if it has one.
pub fn unwrap_datagram(datagram: &[u8]) -> (payload: Option<Vec<u8>>)
    ensures
        match payload {
            Some(bytes) => datagram_payload(datagram@) == Some(bytes@),
            None => datagram_payload(datagram@) is None,
        },
{
    let len: usize = datagram.len();
    if len <= 10 {
        return None;
    }
    if datagram[2] != 0 {
        return None;
    }
    let header_len: usize = match datagram[3] {
        0x03 => 4 + 1 + datagram[4] as usize + 2,
        0x04 => 22,
        _ => 10,
    };
    if len > header_len {
        let payload = slice_to_vec(slice_subrange(datagram, header_len, len));
        assert(payload@ =~= datagram@.skip(header_len as int));
        Some(payload)
    } else {
        None
    }
}

/// The payload of a datagram to a host name is what follows the name and the port, if anything
/// does and the datagram has more than ten bytes.
pub proof fn law_payload_follows_name(
    reserved: (u8, u8),
    name: Seq<u8>,
    port: Seq<u8>,
    payload: Seq<u8>,
)
    requires
        name.len() <= 255,
        port.len() == 2,
    ensures
        ({
            let datagram = seq![reserved.0, reserved.1, 0u8, 0x03, name.len() as u8] + name + port
                + payload;
            datagram_payload(datagram) == if payload.len() > 0 && datagram.len() > 10 {
                Some(payload)
            } else {
                None
            }
        }),
{
    let datagram = seq![reserved.0, reserved.1, 0u8, 0x03, name.len() as u8] + name + port
        + payload;
    assert(datagram[4] == name.len());
    assert(datagram.skip(7 + name.len() as int) =~= payload);
}

/// The payload of a datagram to an IPv6 address is what follows the 16 octets and the port.
pub proof fn law_payload_follows_ipv6(
    reserved: (u8, u8),
    octets: Seq<u8>,
    port: Seq<u8>,
    payload: Seq<u8>,
)
    requires
        octets.len() == 16,
        port.len() == 2,
    ensures
        ({
            let datagram = seq![reserved.0, reserved.1, 0u8, 0x04] + octets + port + payload;
            datagram_payload(datagram) == if payload.len() > 0 {
                Some(payload)
            } else {
                None
            }
        }),
{
    let datagram = seq![reserved.0, reserved.1, 0u8, 0x04] + octets + port + payload;
    assert(datagram.skip(22) =~= payload);
}

/// The payload of a datagram to an IPv4 address is what follows the four octets and the port. A
/// datagram of any type but that of a name or an IPv6 address is read in the same way.
pub proof fn law_payload_follows_ipv4(
    reserved: (u8, u8),
    address_type: u8,
    octets: Seq<u8>,
    port: Seq<u8>,
    payload: Seq<u8>,
)
    requires
        address_type != 0x03,
        address_type != 0x04,
        octets.len() == 4,
        port.len() == 2,
    ensures
        ({
            let datagram = seq![reserved.0, reserved.1, 0u8, address_type] + octets + port
                + payload;
            datagram_payload(datagram) == if payload.len() > 0 {
                Some(payload)
            } else {
                None
            }
        }),
{
    let datagram = seq![reserved.0, reserved.1, 0u8, address_type] + octets + port + payload;
    assert(datagram.skip(10) =~= payload);
}

/// A fragment has no payload, nor has a datagram of ten bytes or less, nor one that ends before
/// its address and port do. What payload there is stands at the end of the datagram, behind seven
/// bytes at least, and behind ten at least unless the address is a name.
pub proof fn law_payload_is_a_tail(datagram: Seq<u8>)
    ensures
        datagram.len() > 4 && datagram[3] == 0x03 && datagram.len() <= 7 + datagram[4]
            ==> datagram_payload(datagram) is None,
        datagram.len() > 4 && datagram[3] == 0x04 && datagram.len() <= 22 ==> datagram_payload(
            datagram,
        ) is None,
        datagram.len() <= 10 ==> datagram_payload(datagram) is None,
        datagram.len() > 2 && datagram[2] != 0 ==> datagram_payload(datagram) is None,
        datagram_payload(datagram) matches Some(payload) ==> {
            &&& 0 < payload.len() <= datagram.len() - 7
            &&& payload == datagram.skip(datagram.len() - payload.len())
            &&& datagram[3] != 0x03 ==> payload.len() <= datagram.len() - 10
        },
{
}

/// The packet that one datagram from a SOCKS5 client sends into the tunnel, if it sends any.
pub open spec fn udp_packet(conn_id: u64, key: Seq<char>, datagram: Seq<u8>) -> Option<Seq<u8>> {
    match datagram_payload(datagram) {
        Some(payload) => Some(frame::packet_bytes(frame::UDP, conn_id, key, payload)),
        None => None,
    }
}

/// A datagram that has a payload sends one packet into the tunnel, which holds the payload whole,
/// with the id and the key of the association; a datagram without one sends nothing.
pub proof fn law_datagram_packet_holds_payload(conn_id: u64, key: Seq<char>, datagram: Seq<u8>)
    ensures
        udp_packet(conn_id, key, datagram) is Some <==> datagram_payload(datagram) is Some,
        udp_packet(conn_id, key, datagram) matches Some(packet) ==> frame::carries(
            packet,
            1,
            conn_id,
            key,
            datagram_payload(datagram)->0,
        ),
{
    if datagram_payload(datagram) is Some {
        frame::law_packet_carries_its_parts(1, conn_id, key, datagram_payload(datagram)->0);
    }
}

/// What one datagram from a SOCKS5 client sends into the tunnel.
pub fn udp_upstream(conn_id: u64, key: &str, datagram: &[u8]) -> (packet: Option<Vec<u8>>)
    requires
        frame::allocatable(key@, datagram@),
    ensures
        match packet {
            Some(bytes) => udp_packet(conn_id, key@, datagram@) == Some(bytes@),
            None => udp_packet(conn_id, key@, datagram@) is None,
        },
        match packet {
            Some(bytes) => datagram_payload(datagram@) is Some && bytes@ == frame::packet_bytes(
                frame::UDP,
                conn_id,
                key@,
                datagram_payload(datagram@)->0,
            ),
            None => datagram_payload(datagram@) is None,
        },
{
    match unwrap_datagram(datagram) {
        Some(payload) => Some(
            frame::encode_packet(frame::UDP, conn_id, key, payload.as_slice()),
        ),
        None => None,
    }
}

// ---------------------------------------------------------------------------------------------
// Out of the tunnel
// ---------------------------------------------------------------------------------------------

/// The SOCKS5 datagram that brings a payload from the target `key`: not a fragment, from the
/// loopback address and the port of the key.
pub open spec fn socks_datagram(key: Seq<char>, payload: Seq<u8>) -> Seq<u8> {
    seq![0u8, 0, 0, 0x01, 127, 0, 0, 1] + bytes::be_bytes(addr::key_port(key) as nat, 2) + payload
}

/// The SOCKS5 datagram that brings `payload` from the target `key`.
pub fn wrap_datagram(key: &str, payload: &[u8]) -> (datagram: Vec<u8>)
    requires
        10 + payload@.len() <= isize::MAX,
    ensures
        datagram@ == socks_datagram(key@, payload@),
{
    let mut datagram: Vec<u8> = Vec::with_capacity(10 + payload.len());
    datagram.push(0);
    datagram.push(0);
    datagram.push(0);
    datagram.push(0x01);
    datagram.push(127);
    datagram.push(0);
    datagram.push(0);
    datagram.push(1);
    bytes::put_u16(&mut datagram, addr::target_port(key));
    datagram.extend_from_slice(payload);
    assert(datagram@ =~= socks_datagram(key@, payload@));
    datagram
}

/// What stands where in the datagram that brings a payload from the target `host` and `port`: two
/// reserved bytes, no fragment, the type of an IPv4 address, the loopback address, the port of the
/// target, and then the payload to the end.
pub proof fn law_datagram_names_target_port(host: Seq<char>, port: u16, payload: Seq<u8>)
    ensures
        ({
            let datagram = socks_datagram(addr::key_text(host, port), payload);
            &&& datagram.len() == 10 + payload.len()
            &&& datagram[0] == 0 && datagram[1] == 0 && datagram[2] == 0 && datagram[3] == 1
            &&& datagram[4] == 127 && datagram[5] == 0 && datagram[6] == 0 && datagram[7] == 1
            &&& datagram[8] * 256 + datagram[9] == port
            &&& datagram.skip(10) == payload
        }),
{
    addr::law_key_keeps_port(host, port);
    law_datagram_layout(addr::key_text(host, port), payload);
}

/// What stands where in the datagram that brings a payload under any key. The port that it names
/// is that of the key.
pub proof fn law_datagram_layout(key: Seq<char>, payload: Seq<u8>)
    ensures
        ({
            let datagram = socks_datagram(key, payload);
            &&& datagram.len() == 10 + payload.len()
            &&& datagram[0] == 0 && datagram[1] == 0 && datagram[2] == 0 && datagram[3] == 1
            &&& datagram[4] == 127 && datagram[5] == 0 && datagram[6] == 0 && datagram[7] == 1
            &&& datagram[8] * 256 + datagram[9] == addr::key_port(key)
            &&& datagram.skip(10) == payload
        }),
{
    let datagram = socks_datagram(key, payload);
    bytes::law_numbers_are_written_out(addr::key_port(key), 0);
    assert(datagram.skip(10) =~= payload);
}

/// A datagram that brings a payload to a SOCKS5 client holds that payload, in the form in which
/// the client's own datagrams hold theirs. An empty payload is none.
pub proof fn law_datagram_round_trip(key: Seq<char>, payload: Seq<u8>)
    ensures
        datagram_payload(socks_datagram(key, payload)) == if payload.len() > 0 {
            Some(payload)
        } else {
            None
        },
{
    let datagram = socks_datagram(key, payload);
    bytes::lemma_be_bytes_len(addr::key_port(key) as nat, 2);
    assert(datagram.skip(10) =~= payload);
}

} // verus!
