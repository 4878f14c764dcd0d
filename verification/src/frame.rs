//! The packet format of the tunnel.
//!
//! A packet is a frame behind its length. A frame holds its kind, the id of the connection it
//! belongs to, the length of the target key, the target key, and the payload:
//!
//! ```text
//! length: 2 | kind: 1 | connection: 8 | key length: 2 | key | payload
//! ```
//!
//! Numbers are big-endian. Both lengths are written modulo 65536.

use vstd::prelude::*;
use vstd::slice::*;
use vstd::string::*;
use vstd::utf8::*;

use crate::bytes;
use crate::text;

verus! {

/// The kind of a frame that carries a piece of a TCP stream.
pub const TCP: u8 = 0;

/// The kind of a frame that carries a UDP datagram.
pub const UDP: u8 = 1;

/// The kind of a frame that carries an IP packet of the TUN device.
pub const TUN: u8 = 2;

/// What a frame says.
#[verifier::ext_equal]
pub struct Frame {
    pub kind: u8,
    pub conn_id: u64,
    pub key: Seq<char>,
    pub payload: Seq<u8>,
}

// ---------------------------------------------------------------------------------------------
// Writing
// ---------------------------------------------------------------------------------------------

/// The bytes of a frame, with the key in its encoded form.
pub open spec fn frame_bytes(kind: u8, conn_id: u64, key: Seq<u8>, payload: Seq<u8>) -> Seq<u8> {
    seq![kind] + bytes::be_bytes(conn_id as nat, 8) + bytes::be_bytes(key.len() % 0x1_0000, 2) + key
        + payload
}

/// A frame behind its length.
pub open spec fn framed(frame: Seq<u8>) -> Seq<u8> {
    bytes::be_bytes(frame.len() % 0x1_0000, 2) + frame
}

/// The packet that carries the frame of this kind, connection, key and payload.
pub open spec fn packet_bytes(
    kind: u8,
    conn_id: u64,
    key: Seq<char>,
    payload: Seq<u8>,
) -> Seq<u8> {
    framed(frame_bytes(kind, conn_id, encode_utf8(key), payload))
}

/// Whether a packet with this key and payload is small enough for a vector.
pub open spec fn allocatable(key: Seq<char>, payload: Seq<u8>) -> bool {
    13 + encode_utf8(key).len() + payload.len() <= isize::MAX
}

/// Whether the length of the frame with this key and payload can be written in full.
pub open spec fn length_fits(key: Seq<char>, payload: Seq<u8>) -> bool {
    11 + encode_utf8(key).len() + payload.len() <= 0xFFFF
}

/// Every packet can be built that is not larger than a vector can be.
pub proof fn law_only_memory_limits_packets(key: Seq<char>, payload: Seq<u8>)
    ensures
        allocatable(key, payload) <==> 13 + encode_utf8(key).len() + payload.len() <= isize::MAX,
{
}

/// The packet of the given kind for connection `conn_id`.
pub fn encode_packet(kind: u8, conn_id: u64, key: &str, payload: &[u8]) -> (packet: Vec<u8>)
    requires
        allocatable(key@, payload@),
    ensures
        packet@ == packet_bytes(kind, conn_id, key@, payload@),
{
    let meta: &[u8] = key.as_bytes();
    let meta_len: u16 = (meta.len() % 0x1_0000) as u16;
    let total_len: usize = 1 + 8 + 2 + meta.len() + payload.len();
    let mut packet: Vec<u8> = Vec::with_capacity(2 + total_len);
    bytes::put_u16(&mut packet, (total_len % 0x1_0000) as u16);
    packet.push(kind);
    bytes::put_u64(&mut packet, conn_id);
    bytes::put_u16(&mut packet, meta_len);
    packet.extend_from_slice(meta);
    packet.extend_from_slice(payload);
    proof {
        lemma_frame_layout(kind, conn_id, meta@, payload@);
    }
    assert(packet@ =~= packet_bytes(kind, conn_id, key@, payload@));
    packet
}

/// The numbers by which frames of TCP, UDP and the TUN device are told apart.
pub proof fn law_kinds_are_numbered()
    ensures
        TCP == 0,
        UDP == 1,
        TUN == 2,
{
}

/// Whether `packet` is laid out as a packet with these parts: in the first two bytes the length of
/// what follows them, then the kind, eight bytes of connection id, two bytes for the length of the
/// key, the key, and the payload to the end. A number that is too large for its two bytes is
/// written modulo 65536.
pub open spec fn laid_out(
    packet: Seq<u8>,
    kind: u8,
    conn_id: u64,
    key: Seq<char>,
    payload: Seq<u8>,
) -> bool {
    let name = encode_utf8(key);
    &&& packet.len() == 13 + name.len() + payload.len()
    &&& packet[0] * 256 + packet[1] == (packet.len() - 2) % 0x1_0000
    &&& packet[2] == kind
    &&& bytes::weighed(packet, 3) == conn_id
    &&& packet[11] * 256 + packet[12] == name.len() % 0x1_0000
    &&& packet.subrange(13, 13 + name.len() as int) == name
    &&& packet.skip(13 + name.len() as int) == payload
}

/// Every packet, however long, is laid out as a packet with the parts that it was made of.
pub proof fn law_packet_layout(kind: u8, conn_id: u64, key: Seq<char>, payload: Seq<u8>)
    ensures
        laid_out(packet_bytes(kind, conn_id, key, payload), kind, conn_id, key, payload),
{
    let packet = packet_bytes(kind, conn_id, key, payload);
    let name = encode_utf8(key);
    let frame = frame_bytes(kind, conn_id, name, payload);
    let total = (frame.len() % 0x1_0000) as u16;
    let key_len = (name.len() % 0x1_0000) as u16;
    lemma_frame_layout(kind, conn_id, name, payload);
    bytes::law_numbers_are_written_out(total, conn_id);
    bytes::law_numbers_are_written_out(key_len, conn_id);
    let id = frame.subrange(1, 9);
    let len = frame.subrange(9, 11);
    assert(packet[0] == bytes::be_bytes(total as nat, 2)[0]);
    assert(packet[1] == bytes::be_bytes(total as nat, 2)[1]);
    assert(forall|i: int| 0 <= i < frame.len() ==> packet[2 + i] == frame[i]);
    assert(forall|i: int| 0 <= i < 8 ==> #[trigger] id[i] == packet[3 + i]);
    assert(id[0] == packet[3] && id[1] == packet[4] && id[2] == packet[5] && id[3] == packet[6]);
    assert(id[4] == packet[7] && id[5] == packet[8] && id[6] == packet[9] && id[7] == packet[10]);
    assert(len[0] == packet[11] && len[1] == packet[12]);
    assert(packet.subrange(13, 13 + name.len() as int) =~= frame.subrange(
        11,
        11 + name.len() as int,
    ));
    assert(packet.skip(13 + name.len() as int) =~= frame.skip(11 + name.len() as int));
}

/// Where the parts of a frame stand.
pub proof fn lemma_frame_layout(kind: u8, conn_id: u64, key: Seq<u8>, payload: Seq<u8>)
    ensures
        ({
            let frame = frame_bytes(kind, conn_id, key, payload);
            let end = 11 + key.len() as int;
            &&& frame.len() == end + payload.len()
            &&& frame[0] == kind
            &&& frame.subrange(1, 9) == bytes::be_bytes(conn_id as nat, 8)
            &&& frame.subrange(9, 11) == bytes::be_bytes(key.len() % 0x1_0000, 2)
            &&& frame.subrange(11, end) == key
            &&& frame.skip(end) == payload
        }),
{
    let frame = frame_bytes(kind, conn_id, key, payload);
    bytes::lemma_be_bytes_len(conn_id as nat, 8);
    bytes::lemma_be_bytes_len(key.len() % 0x1_0000, 2);
    assert(frame.subrange(1, 9) =~= bytes::be_bytes(conn_id as nat, 8));
    assert(frame.subrange(9, 11) =~= bytes::be_bytes(key.len() % 0x1_0000, 2));
    assert(frame.subrange(11, 11 + key.len() as int) =~= key);
    assert(frame.skip(11 + key.len() as int) =~= payload);
}

// ---------------------------------------------------------------------------------------------
// Reading
// ---------------------------------------------------------------------------------------------

/// What the bytes of a frame say, if they are as long as they claim.
pub open spec fn read_frame(data: Seq<u8>) -> Option<Frame> {
    let key_len = bytes::be_value(data.subrange(9, 11));
    if data.len() < 11 || data.len() < 11 + key_len {
        None
    } else {
        Some(
            Frame {
                kind: data[0],
                conn_id: bytes::be_value(data.subrange(1, 9)) as u64,
                key: text::lossy_text(data.subrange(11, 11 + key_len as int)),
                payload: data.skip(11 + key_len as int),
            },
        )
    }
}

/// The kind, connection id, key and payload in the bytes of a frame.
pub fn decode_frame(data: &[u8]) -> (frame: Option<(u8, u64, String, Vec<u8>)>)
    ensures
        match frame {
            Some((kind, conn_id, key, payload)) => read_frame(data@) == Some(
                Frame { kind, conn_id, key: key@, payload: payload@ },
            ),
            None => read_frame(data@) is None,
        },
{
    if data.len() < 11 {
        return None;
    }
    let kind: u8 = data[0];
    let conn_id: u64 = bytes::get_u64(data, 1);
    let key_len: usize = bytes::get_u16(data, 9) as usize;
    if data.len() < 11 + key_len {
        return None;
    }
    let key: String = text::decode_lossy(slice_subrange(data, 11, 11 + key_len));
    let payload: Vec<u8> = slice_to_vec(slice_subrange(data, 11 + key_len, data.len()));
    assert(payload@ =~= data@.skip(11 + key_len as int));
    Some((kind, conn_id, key, payload))
}

/// A frame is read back as it was written, if its key is short enough for its length to be
/// written in full.
pub proof fn law_frame_round_trip(kind: u8, conn_id: u64, key: Seq<char>, payload: Seq<u8>)
    requires
        encode_utf8(key).len() <= 0xFFFF,
    ensures
        read_frame(frame_bytes(kind, conn_id, encode_utf8(key), payload)) == Some(
            Frame { kind, conn_id, key, payload },
        ),
{
    let meta = encode_utf8(key);
    lemma_frame_layout(kind, conn_id, meta, payload);
    bytes::lemma_be_ranges();
    bytes::lemma_be_round_trip(conn_id as nat, 8);
    bytes::lemma_be_round_trip(meta.len(), 2);
    encode_utf8_valid_utf8(key);
    encode_utf8_decode_utf8(key);
}

/// What is read where in the bytes of a frame. Bytes that are too short for the fixed part, or
/// for the key that they announce, are no frame.
pub proof fn law_frame_is_read_in_place(data: Seq<u8>)
    ensures
        ({
            let key_len = data[9] * 256 + data[10];
            let whole = data.len() >= 11 && data.len() >= 11 + key_len;
            &&& read_frame(data) is Some <==> whole
            &&& read_frame(data) matches Some(frame) ==> {
                &&& frame.kind == data[0]
                &&& frame.conn_id == bytes::weighed(data, 1)
                &&& frame.key == text::lossy_text(data.subrange(11, 11 + key_len))
                &&& frame.payload == data.skip(11 + key_len)
            }
        }),
{
    if data.len() >= 11 {
        let id = data.subrange(1, 9);
        bytes::law_two_bytes(data.subrange(9, 11));
        bytes::law_eight_bytes(id);
        assert(id[0] == data[1] && id[1] == data[2] && id[2] == data[3] && id[3] == data[4]);
        assert(id[4] == data[5] && id[5] == data[6] && id[6] == data[7] && id[7] == data[8]);
        assert(0 <= bytes::weighed(id, 0) < 0x1_0000_0000_0000_0000);
    }
}

// ---------------------------------------------------------------------------------------------
// The stream of packets
// ---------------------------------------------------------------------------------------------

/// The complete frames in a stream of packets, in order.
pub open spec fn frames_in(stream: Seq<u8>) -> Seq<Seq<u8>>
    decreases stream.len(),
{
    let len = bytes::be_value(stream.take(2));
    if stream.len() < 2 || stream.len() < 2 + len {
        seq![]
    } else {
        seq![stream.subrange(2, 2 + len as int)] + frames_in(stream.skip(2 + len as int))
    }
}

/// The frames of `frames` one after another, each behind its length.
pub open spec fn stream_of(frames: Seq<Seq<u8>>) -> Seq<u8>
    decreases frames.len(),
{
    if frames.len() == 0 {
        seq![]
    } else {
        framed(frames[0]) + stream_of(frames.drop_first())
    }
}

/// A stream of packets holds the frames that were written to it, in that order and nothing
/// else, whatever follows, if every frame is short enough for its length to be written in full.
pub proof fn law_stream_round_trip(frames: Seq<Seq<u8>>, rest: Seq<u8>)
    requires
        forall|i: int| 0 <= i < frames.len() ==> (#[trigger] frames[i]).len() <= 0xFFFF,
    ensures
        frames_in(stream_of(frames) + rest) == frames + frames_in(rest),
    decreases frames.len(),
{
    if frames.len() == 0 {
        assert(stream_of(frames) + rest =~= rest);
        assert(frames + frames_in(rest) =~= frames_in(rest));
    } else {
        let first = frames[0];
        let others = frames.drop_first();
        let stream = stream_of(frames) + rest;
        let len = first.len();
        assert forall|i: int| 0 <= i < others.len() implies (#[trigger] others[i]).len() <= 0xFFFF by {
            assert(others[i] == frames[i + 1]);
        }
        law_stream_round_trip(others, rest);
        bytes::lemma_be_ranges();
        bytes::lemma_be_bytes_len(len, 2);
        bytes::lemma_be_round_trip(len, 2);
        assert(stream.take(2) =~= bytes::be_bytes(len, 2));
        assert(stream.subrange(2, 2 + len as int) =~= first);
        assert(stream.skip(2 + len as int) =~= stream_of(others) + rest);
        assert(seq![first] + (others + frames_in(rest)) =~= frames + frames_in(rest));
    }
}

/// The bytes of the frame `frame`.
pub open spec fn raw_frame(frame: Frame) -> Seq<u8> {
    frame_bytes(frame.kind, frame.conn_id, encode_utf8(frame.key), frame.payload)
}

/// The bytes of each of `frames`.
pub open spec fn raw_frames(frames: Seq<Frame>) -> Seq<Seq<u8>> {
    frames.map_values(|frame: Frame| raw_frame(frame))
}

/// The packets of `frames` one after another.
pub open spec fn packets_of(frames: Seq<Frame>) -> Seq<u8>
    decreases frames.len(),
{
    if frames.len() == 0 {
        seq![]
    } else {
        packet_bytes(frames[0].kind, frames[0].conn_id, frames[0].key, frames[0].payload)
            + packets_of(frames.drop_first())
    }
}

proof fn lemma_packets_are_stream(frames: Seq<Frame>)
    ensures
        packets_of(frames) == stream_of(raw_frames(frames)),
    decreases frames.len(),
{
    if frames.len() > 0 {
        lemma_packets_are_stream(frames.drop_first());
        assert(raw_frames(frames.drop_first()) =~= raw_frames(frames).drop_first());
    }
}

/// The tunnel carries frames from end to end: cut into frames again, the packets of `frames`
/// give those frames, in order and whatever follows, and each says what it said when it was
/// written, if the length of every frame can be written in full.
pub proof fn law_tunnel_carries_frames(frames: Seq<Frame>, rest: Seq<u8>)
    requires
        forall|i: int|
            0 <= i < frames.len() ==> length_fits(
                (#[trigger] frames[i]).key,
                frames[i].payload,
            ),
    ensures
        frames_in(packets_of(frames) + rest) == raw_frames(frames) + frames_in(rest),
        forall|i: int|
            0 <= i < frames.len() ==> read_frame(#[trigger] raw_frames(frames)[i]) == Some(
                frames[i],
            ),
{
    let raw = raw_frames(frames);
    assert forall|i: int| 0 <= i < raw.len() implies (#[trigger] raw[i]).len() <= 0xFFFF
        && read_frame(raw[i]) == Some(frames[i]) by {
        let frame = frames[i];
        lemma_frame_layout(frame.kind, frame.conn_id, encode_utf8(frame.key), frame.payload);
        law_frame_round_trip(frame.kind, frame.conn_id, frame.key, frame.payload);
    }
    law_stream_round_trip(raw, rest);
    lemma_packets_are_stream(frames);
}

/// Whether `packet` is laid out as a packet with these parts and, if its length can be written in
/// full, holds exactly one frame, which says them.
pub open spec fn carries(
    packet: Seq<u8>,
    kind: u8,
    conn_id: u64,
    key: Seq<char>,
    payload: Seq<u8>,
) -> bool {
    &&& laid_out(packet, kind, conn_id, key, payload)
    &&& 11 + encode_utf8(key).len() + payload.len() <= 0xFFFF ==> holds_frame(
        packet,
        kind,
        conn_id,
        key,
        payload,
    )
}

/// A packet carries what it was made of.
pub proof fn law_packet_carries_its_parts(kind: u8, conn_id: u64, key: Seq<char>, payload: Seq<u8>)
    ensures
        carries(packet_bytes(kind, conn_id, key, payload), kind, conn_id, key, payload),
{
    law_packet_layout(kind, conn_id, key, payload);
    if 11 + encode_utf8(key).len() + payload.len() <= 0xFFFF {
        law_packet_holds_its_frame(kind, conn_id, key, payload);
    }
}

/// One packet holds one frame, which says what it said when it was written, if its length can be
/// written in full.
pub proof fn law_packet_holds_its_frame(kind: u8, conn_id: u64, key: Seq<char>, payload: Seq<u8>)
    requires
        11 + encode_utf8(key).len() + payload.len() <= 0xFFFF,
    ensures
        holds_frame(packet_bytes(kind, conn_id, key, payload), kind, conn_id, key, payload),
{
    let one = Frame { kind, conn_id, key, payload };
    let frames = seq![one];
    let packet = packet_bytes(kind, conn_id, key, payload);
    law_tunnel_carries_frames(frames, seq![]);
    assert(frames.drop_first() =~= seq![]);
    assert(packets_of(frames.drop_first()) =~= seq![]);
    assert(packets_of(frames) + seq![] =~= packet);
    assert(frames_in(seq![]) =~= seq![]);
    assert(frames_in(packet) =~= raw_frames(frames));
    assert(raw_frames(frames)[0] == frames_in(packet)[0]);
}

/// Whether `packet` holds exactly one frame, with this kind, connection, key and payload.
pub open spec fn holds_frame(
    packet: Seq<u8>,
    kind: u8,
    conn_id: u64,
    key: Seq<char>,
    payload: Seq<u8>,
) -> bool {
    &&& frames_in(packet).len() == 1
    &&& read_frame(frames_in(packet)[0]) == Some(Frame { kind, conn_id, key, payload })
}

/// Cuts a stream of packets into frames, one exact read at a time.
pub struct FrameReader {
    pending: Option<u16>,
}

impl View for FrameReader {
    type V = Option<nat>;

    /// The length of the frame that comes next, once it has been read.
    closed spec fn view(&self) -> Option<nat> {
        match self.pending {
            Some(len) => Some(len as nat),
            None => None,
        }
    }
}

/// How many bytes the next read brings, given the length that is pending.
pub open spec fn next_read(pending: Option<nat>) -> nat {
    match pending {
        Some(len) => len,
        None => 2,
    }
}

/// The length that is pending after a read, and the frame that the read completed.
pub open spec fn after_read(pending: Option<nat>, chunk: Seq<u8>) -> (
    Option<nat>,
    Option<Seq<u8>>,
) {
    match pending {
        Some(_) => (None, Some(chunk)),
        None => (Some(bytes::be_value(chunk)), None),
    }
}

impl FrameReader {
    /// A reader at the start of a packet.
    pub fn new() -> (reader: FrameReader)
        ensures
            reader@ is None,
    {
        FrameReader { pending: None }
    }

    /// How many bytes to read next, all of them.
    pub fn wanted(&self) -> (count: usize)
        ensures
            count == next_read(self@),
    {
        match self.pending {
            Some(len) => len as usize,
            None => 2,
        }
    }

    /// Takes in the bytes of one read, and hands out the frame that they complete.
    pub fn accept(&mut self, chunk: Vec<u8>) -> (frame: Option<Vec<u8>>)
        requires
            chunk@.len() == next_read(old(self)@),
        ensures
            final(self)@ == after_read(old(self)@, chunk@).0,
            match frame {
                Some(bytes) => after_read(old(self)@, chunk@).1 == Some(bytes@),
                None => after_read(old(self)@, chunk@).1 is None,
            },
    {
        match self.pending {
            Some(_) => {
                self.pending = None;
                Some(chunk)
            },
            None => {
                assert(chunk@.subrange(0, 2) =~= chunk@);
                self.pending = Some(bytes::get_u16(chunk.as_slice(), 0));
                None
            },
        }
    }
}

/// The frames that a reader hands out over a stream, one exact read after another, until the
/// stream is too short for the next read.
pub open spec fn frames_read(pending: Option<nat>, stream: Seq<u8>) -> Seq<Seq<u8>>
    decreases stream.len(), if pending is Some { 1int } else { 0int },
{
    let count = next_read(pending) as int;
    if stream.len() < count {
        seq![]
    } else {
        let (now, frame) = after_read(pending, stream.take(count));
        let later = frames_read(now, stream.skip(count));
        match frame {
            Some(bytes) => seq![bytes] + later,
            None => later,
        }
    }
}

/// Over any stream a reader hands out exactly the complete frames in it, in order.
pub proof fn law_reader_finds_frames(stream: Seq<u8>)
    ensures
        frames_read(None, stream) == frames_in(stream),
    decreases stream.len(),
{
    reveal_with_fuel(frames_read, 3);
    if stream.len() >= 2 {
        let len = bytes::be_value(stream.take(2));
        let rest = stream.skip(2);
        if stream.len() >= 2 + len {
            law_reader_finds_frames(stream.skip(2 + len as int));
            assert(rest.take(len as int) =~= stream.subrange(2, 2 + len as int));
            assert(rest.skip(len as int) =~= stream.skip(2 + len as int));
        }
    }
}

/// A reader that is given the bytes of packets hands out their frames, and each says what it said
/// when it was written, if the length of every frame can be written in full.
pub proof fn law_reader_hands_out_what_was_sent(frames: Seq<Frame>)
    requires
        forall|i: int|
            0 <= i < frames.len() ==> 11 + encode_utf8((#[trigger] frames[i]).key).len()
                + frames[i].payload.len() <= 0xFFFF,
    ensures
        frames_read(None, packets_of(frames)).len() == frames.len(),
        forall|i: int|
            0 <= i < frames.len() ==> read_frame(
                #[trigger] frames_read(None, packets_of(frames))[i],
            ) == Some(frames[i]),
{
    let sent = packets_of(frames);
    law_tunnel_carries_frames(frames, seq![]);
    law_reader_finds_frames(sent);
    assert(sent + seq![] =~= sent);
    assert(frames_in(seq![]) =~= seq![]);
    assert(frames_in(sent) =~= raw_frames(frames));
    assert forall|i: int| 0 <= i < frames.len() implies read_frame(
        #[trigger] frames_read(None, sent)[i],
    ) == Some(frames[i]) by {
        assert(raw_frames(frames)[i] == frames_read(None, sent)[i]);
    }
}

/// A reader reads the two bytes of a length, then as many bytes as they say, which are the frame,
/// then a length again.
pub proof fn law_reader_takes_turns(high: u8, low: u8, frame: Seq<u8>)
    requires
        frame.len() == high * 256 + low,
    ensures
        next_read(None) == 2,
        ({
            let (pending, none) = after_read(None, seq![high, low]);
            &&& none is None
            &&& next_read(pending) == frame.len()
            &&& after_read(pending, frame) == (None::<nat>, Some(frame))
        }),
{
    bytes::law_two_bytes(seq![high, low]);
}

} // verus!
