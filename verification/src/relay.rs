//! How the server relays one connection: what it does after each thing that happened.

use vstd::prelude::*;
use vstd::string::*;
use vstd::utf8::*;

use crate::frame;
use crate::frame::Frame;
use crate::server;

verus! {

// ---------------------------------------------------------------------------------------------
// TCP
// ---------------------------------------------------------------------------------------------

/// What a TCP relay waits for.
#[derive(Clone, Copy, Debug, PartialEq, Eq, Structural)]
pub enum TcpPhase {
    /// The connection to the target.
    Connecting,
    /// The end of the first write.
    Opening,
    /// More from the client.
    Waiting,
    /// The end of a later write.
    Writing,
    /// Nothing more.
    Ended,
}

/// What happens to a TCP relay. `B` is a sequence of bytes.
#[derive(Debug)]
pub enum TcpEvent<B> {
    /// The target was connected to, or not.
    Connected(bool),
    /// A write to the target succeeded, or not.
    Written(bool),
    /// The client sent more, or nothing more comes.
    Queued(Option<B>),
}

/// What a TCP relay does next. `B` is a sequence of bytes.
#[derive(Debug)]
pub enum TcpAction<B> {
    /// Write to the target.
    Write(B),
    /// Start to read from the target, and take what the client sends next.
    Serve,
    /// Take what the client sends next.
    Receive,
    /// End the relay.
    End,
}

impl View for TcpEvent<Vec<u8>> {
    type V = TcpEvent<Seq<u8>>;

    open spec fn view(&self) -> TcpEvent<Seq<u8>> {
        match *self {
            TcpEvent::Connected(ok) => TcpEvent::Connected(ok),
            TcpEvent::Written(ok) => TcpEvent::Written(ok),
            TcpEvent::Queued(Some(data)) => TcpEvent::Queued(Some(data@)),
            TcpEvent::Queued(None) => TcpEvent::Queued(None),
        }
    }
}

impl View for TcpAction<Vec<u8>> {
    type V = TcpAction<Seq<u8>>;

    open spec fn view(&self) -> TcpAction<Seq<u8>> {
        match *self {
            TcpAction::Write(data) => TcpAction::Write(data@),
            TcpAction::Serve => TcpAction::Serve,
            TcpAction::Receive => TcpAction::Receive,
            TcpAction::End => TcpAction::End,
        }
    }
}

/// Whether `event` is what a relay in `phase` waits for.
pub open spec fn tcp_expects(phase: TcpPhase, event: TcpEvent<Seq<u8>>) -> bool {
    match phase {
        TcpPhase::Connecting => event is Connected,
        TcpPhase::Opening => event is Written,
        TcpPhase::Waiting => event is Queued,
        TcpPhase::Writing => event is Written,
        TcpPhase::Ended => false,
    }
}

/// What a relay in `phase`, which is to write `first` to its target first, does on `event`, and
/// the phase that it is in then. A failure ends it.
pub open spec fn tcp_relay_step(phase: TcpPhase, first: Seq<u8>, event: TcpEvent<Seq<u8>>) -> (
    TcpPhase,
    TcpAction<Seq<u8>>,
) {
    match event {
        TcpEvent::Connected(true) => (TcpPhase::Opening, TcpAction::Write(first)),
        TcpEvent::Written(true) => (
            TcpPhase::Waiting,
            if phase == TcpPhase::Opening {
                TcpAction::Serve
            } else {
                TcpAction::Receive
            },
        ),
        TcpEvent::Queued(Some(data)) => (TcpPhase::Writing, TcpAction::Write(data)),
        _ => (TcpPhase::Ended, TcpAction::End),
    }
}

/// A TCP relay.
pub struct TcpRelay {
    phase: TcpPhase,
    first: Vec<u8>,
}

impl TcpRelay {
    /// What the relay waits for.
    pub closed spec fn phase(&self) -> TcpPhase {
        self.phase
    }

    /// What the relay writes first, if it has not done so.
    pub closed spec fn first(&self) -> Seq<u8> {
        self.first@
    }

    /// A relay that connects to its target and is to write `first` to it.
    pub fn new(first: Vec<u8>) -> (relay: TcpRelay)
        ensures
            relay.phase() == TcpPhase::Connecting,
            relay.first() == first@,
    {
        TcpRelay { phase: TcpPhase::Connecting, first }
    }

    /// What the relay does on `event`.
    pub fn step(&mut self, event: TcpEvent<Vec<u8>>) -> (action: TcpAction<Vec<u8>>)
        requires
            tcp_expects(old(self).phase(), event@),
        ensures
            final(self).phase() == tcp_relay_step(old(self).phase(), old(self).first(), event@).0,
            action@ == tcp_relay_step(old(self).phase(), old(self).first(), event@).1,
            final(self).first() == if event@ == TcpEvent::<Seq<u8>>::Connected(true) {
                Seq::empty()
            } else {
                old(self).first()
            },
    {
        match event {
            TcpEvent::Connected(true) => {
                self.phase = TcpPhase::Opening;
                let mut first: Vec<u8> = Vec::new();
                std::mem::swap(&mut first, &mut self.first);
                TcpAction::Write(first)
            },
            TcpEvent::Written(true) => {
                let opening: bool = self.phase == TcpPhase::Opening;
                self.phase = TcpPhase::Waiting;
                if opening {
                    TcpAction::Serve
                } else {
                    TcpAction::Receive
                }
            },
            TcpEvent::Queued(Some(data)) => {
                self.phase = TcpPhase::Writing;
                TcpAction::Write(data)
            },
            _ => {
                self.phase = TcpPhase::Ended;
                TcpAction::End
            },
        }
    }
}

/// What a relay in `phase` does over `events`.
pub open spec fn tcp_relay_run(
    phase: TcpPhase,
    first: Seq<u8>,
    events: Seq<TcpEvent<Seq<u8>>>,
) -> Seq<TcpAction<Seq<u8>>>
    decreases events.len(),
{
    if events.len() == 0 {
        seq![]
    } else {
        let (next, action) = tcp_relay_step(phase, first, events[0]);
        seq![action] + tcp_relay_run(next, first, events.drop_first())
    }
}

/// What happens to a waiting relay while the client sends `queued`, every write succeeds, and
/// then nothing more comes.
pub open spec fn smooth_queue(queued: Seq<Seq<u8>>) -> Seq<TcpEvent<Seq<u8>>>
    decreases queued.len(),
{
    if queued.len() == 0 {
        seq![TcpEvent::Queued(None)]
    } else {
        seq![TcpEvent::Queued(Some(queued[0])), TcpEvent::Written(true)] + smooth_queue(
            queued.drop_first(),
        )
    }
}

/// What the `Write` actions among `actions` write, in order.
pub open spec fn writes_in(actions: Seq<TcpAction<Seq<u8>>>) -> Seq<Seq<u8>>
    decreases actions.len(),
{
    if actions.len() == 0 {
        seq![]
    } else {
        let later = writes_in(actions.drop_first());
        match actions[0] {
            TcpAction::Write(data) => seq![data] + later,
            _ => later,
        }
    }
}

/// A relay whose target can be connected to and takes every write writes to it what came first
/// and then all that the client sent, in order, and ends when nothing more comes.
pub proof fn law_relay_writes_in_order(first: Seq<u8>, queued: Seq<Seq<u8>>)
    ensures
        ({
            let events = seq![
                TcpEvent::<Seq<u8>>::Connected(true),
                TcpEvent::Written(true),
            ] + smooth_queue(queued);
            let actions = tcp_relay_run(TcpPhase::Connecting, first, events);
            &&& writes_in(actions) == seq![first] + queued
            &&& actions.last() == TcpAction::<Seq<u8>>::End
        }),
{
    let start = seq![TcpEvent::<Seq<u8>>::Connected(true), TcpEvent::Written(true)];
    let queue = smooth_queue(queued);
    let events = start + queue;
    let served = events.drop_first();
    let actions = tcp_relay_run(TcpPhase::Connecting, first, events);
    let after_first = tcp_relay_run(TcpPhase::Opening, first, served);
    let rest = tcp_relay_run(TcpPhase::Waiting, first, queue);
    lemma_queue_is_written(first, queued);
    assert(served.drop_first() =~= queue);
    assert(after_first =~= seq![TcpAction::<Seq<u8>>::Serve] + rest);
    assert(actions =~= seq![TcpAction::Write(first)] + after_first);
    assert(after_first.drop_first() =~= rest);
    assert(actions.drop_first() =~= after_first);
    assert(writes_in(after_first) == writes_in(rest));
    assert(actions.last() == rest.last());
}

proof fn lemma_queue_is_written(first: Seq<u8>, queued: Seq<Seq<u8>>)
    ensures
        ({
            let actions = tcp_relay_run(TcpPhase::Waiting, first, smooth_queue(queued));
            &&& actions.len() > 0
            &&& writes_in(actions) == queued
            &&& actions.last() == TcpAction::<Seq<u8>>::End
        }),
    decreases queued.len(),
{
    let events = smooth_queue(queued);
    let actions = tcp_relay_run(TcpPhase::Waiting, first, events);
    reveal_with_fuel(tcp_relay_run, 2);
    reveal_with_fuel(writes_in, 3);
    if queued.len() == 0 {
        assert(events.drop_first() =~= seq![]);
        assert(actions =~= seq![TcpAction::<Seq<u8>>::End]);
        assert(actions.drop_first() =~= seq![]);
        assert(writes_in(actions) =~= queued);
    } else {
        let others = queued.drop_first();
        lemma_queue_is_written(first, others);
        let later = tcp_relay_run(TcpPhase::Waiting, first, smooth_queue(others));
        let written = events.drop_first();
        assert(written.drop_first() =~= smooth_queue(others));
        let after_write = tcp_relay_run(TcpPhase::Writing, first, written);
        assert(after_write =~= seq![TcpAction::<Seq<u8>>::Receive] + later);
        assert(actions =~= seq![TcpAction::Write(queued[0])] + after_write);
        assert(after_write.drop_first() =~= later);
        assert(actions.drop_first() =~= after_write);
        assert(writes_in(actions) =~= queued);
    }
}

/// Whether each of `events` is what a relay waits for that is in `phase` before the first of them.
pub open spec fn tcp_run_expected(
    phase: TcpPhase,
    first: Seq<u8>,
    events: Seq<TcpEvent<Seq<u8>>>,
) -> bool
    decreases events.len(),
{
    events.len() > 0 ==> {
        &&& tcp_expects(phase, events[0])
        &&& tcp_run_expected(
            tcp_relay_step(phase, first, events[0]).0,
            first,
            events.drop_first(),
        )
    }
}

/// What the client sent according to `events`, in order.
pub open spec fn queued_in(events: Seq<TcpEvent<Seq<u8>>>) -> Seq<Seq<u8>>
    decreases events.len(),
{
    if events.len() == 0 {
        seq![]
    } else {
        let later = queued_in(events.drop_first());
        match events[0] {
            TcpEvent::Queued(Some(data)) => seq![data] + later,
            _ => later,
        }
    }
}

/// Over any run a relay writes what came first, if it could connect, and then all that the client
/// sent, whole and in order, and nothing else.
pub proof fn law_relay_writes_what_was_sent(first: Seq<u8>, events: Seq<TcpEvent<Seq<u8>>>)
    requires
        tcp_run_expected(TcpPhase::Connecting, first, events),
    ensures
        ({
            let written = writes_in(tcp_relay_run(TcpPhase::Connecting, first, events));
            let connected = events.len() > 0 && events[0] == TcpEvent::<Seq<u8>>::Connected(true);
            &&& connected ==> written == seq![first] + queued_in(events)
            &&& !connected ==> written.len() == 0
        }),
{
    if events.len() > 0 {
        let rest = events.drop_first();
        let (next, action) = tcp_relay_step(TcpPhase::Connecting, first, events[0]);
        let later = tcp_relay_run(next, first, rest);
        let actions = tcp_relay_run(TcpPhase::Connecting, first, events);
        lemma_relay_writes_queue(next, first, rest);
        assert(actions =~= seq![action] + later);
        assert(actions.drop_first() =~= later);
        assert(queued_in(events) == queued_in(rest));
        if next == TcpPhase::Ended {
            assert(rest.len() == 0);
            assert(writes_in(later).len() == 0);
        }
    }
}

proof fn lemma_relay_writes_queue(
    phase: TcpPhase,
    first: Seq<u8>,
    events: Seq<TcpEvent<Seq<u8>>>,
)
    requires
        phase != TcpPhase::Connecting,
        tcp_run_expected(phase, first, events),
    ensures
        writes_in(tcp_relay_run(phase, first, events)) == queued_in(events),
    decreases events.len(),
{
    if events.len() > 0 {
        let rest = events.drop_first();
        let (next, action) = tcp_relay_step(phase, first, events[0]);
        let later = tcp_relay_run(next, first, rest);
        let actions = tcp_relay_run(phase, first, events);
        lemma_relay_writes_queue(next, first, rest);
        assert(actions =~= seq![action] + later);
        assert(actions.drop_first() =~= later);
    }
}

/// A relay ends when something fails or nothing more comes, and at no other time. It starts to
/// read from its target once, when its first write has succeeded, and takes more from the client
/// after each write; a write follows only a connection or something that the client sent.
pub proof fn law_relay_acts_on_each_event(
    phase: TcpPhase,
    first: Seq<u8>,
    event: TcpEvent<Seq<u8>>,
)
    requires
        tcp_expects(phase, event),
    ensures
        ({
            let (next, action) = tcp_relay_step(phase, first, event);
            let over = event == TcpEvent::<Seq<u8>>::Connected(false) || event == TcpEvent::<
                Seq<u8>,
            >::Written(false) || event == TcpEvent::<Seq<u8>>::Queued(None);
            &&& next == TcpPhase::Ended <==> over
            &&& action is End <==> over
            &&& action is Serve <==> phase == TcpPhase::Opening && !over
            &&& action is Receive <==> phase == TcpPhase::Writing && !over
            &&& action is Write <==> (phase == TcpPhase::Connecting || phase == TcpPhase::Waiting)
                && !over
            &&& action is Write && phase == TcpPhase::Connecting ==> next == TcpPhase::Opening
                && action == TcpAction::Write(first)
            &&& action is Write && phase == TcpPhase::Waiting ==> next == TcpPhase::Writing
            &&& event matches TcpEvent::Queued(Some(data)) ==> action == TcpAction::Write(data)
            &&& action is Serve || action is Receive ==> next == TcpPhase::Waiting
        }),
{
}

/// What happens to a relay, and what it does, is shown with the same parts and their contents.
pub proof fn law_tcp_relay_is_shown_whole(ok: bool, data: Vec<u8>)
    ensures
        TcpEvent::<Vec<u8>>::Connected(ok)@ == TcpEvent::<Seq<u8>>::Connected(ok),
        TcpEvent::<Vec<u8>>::Written(ok)@ == TcpEvent::<Seq<u8>>::Written(ok),
        TcpEvent::Queued(Some(data))@ == TcpEvent::Queued(Some(data@)),
        TcpEvent::<Vec<u8>>::Queued(None)@ == TcpEvent::<Seq<u8>>::Queued(None),
        TcpAction::Write(data)@ == TcpAction::Write(data@),
        TcpAction::<Vec<u8>>::Serve@ == TcpAction::<Seq<u8>>::Serve,
        TcpAction::<Vec<u8>>::Receive@ == TcpAction::<Seq<u8>>::Receive,
        TcpAction::<Vec<u8>>::End@ == TcpAction::<Seq<u8>>::End,
{
}

/// A relay that has not ended can always go on: it waits for the outcome of what it did last,
/// and takes either outcome.
pub proof fn law_relay_takes_every_outcome(ok: bool, more: Option<Seq<u8>>)
    ensures
        tcp_expects(TcpPhase::Connecting, TcpEvent::Connected(ok)),
        tcp_expects(TcpPhase::Opening, TcpEvent::Written(ok)),
        tcp_expects(TcpPhase::Waiting, TcpEvent::Queued(more)),
        tcp_expects(TcpPhase::Writing, TcpEvent::Written(ok)),
        udp_expects(UdpPhase::LookingUp, UdpEvent::LookedUp(ok)),
        udp_expects(UdpPhase::Binding, UdpEvent::Bound(ok)),
        udp_expects(UdpPhase::Connecting, UdpEvent::Connected(ok)),
        udp_expects(UdpPhase::Receiving, UdpEvent::Received(more)),
        udp_expects(UdpPhase::Sending, UdpEvent::Sent(ok)),
{
}

// ---------------------------------------------------------------------------------------------
// UDP
// ---------------------------------------------------------------------------------------------

/// What a UDP relay waits for.
#[derive(Clone, Copy, Debug, PartialEq, Eq, Structural)]
pub enum UdpPhase {
    /// The address of the target.
    LookingUp,
    /// A socket.
    Binding,
    /// The socket to be connected to the target.
    Connecting,
    /// A datagram from the target.
    Receiving,
    /// The end of a write to the client.
    Sending,
    /// Nothing more.
    Ended,
}

/// What happens to a UDP relay. `B` is a sequence of bytes.
#[derive(Debug)]
pub enum UdpEvent<B> {
    /// The target was found in time, or not.
    LookedUp(bool),
    /// A socket was bound, or not.
    Bound(bool),
    /// The socket was connected to the target, or not.
    Connected(bool),
    /// A datagram came from the target, or none can come any more.
    Received(Option<B>),
    /// A write to the client succeeded, or not.
    Sent(bool),
}

/// What a UDP relay does next. `B` is a sequence of bytes.
#[derive(Debug)]
pub enum UdpAction<B> {
    /// Bind a socket.
    Bind,
    /// Connect the socket to the target.
    Connect,
    /// Count the socket as open, send the client's first datagram, whether that succeeds or not,
    /// and receive.
    Open(B),
    /// Write a packet to the client.
    Send(B),
    /// Receive.
    Receive,
    /// Give up: no socket was opened.
    GiveUp,
    /// Close the socket.
    Close,
}

impl View for UdpEvent<Vec<u8>> {
    type V = UdpEvent<Seq<u8>>;

    open spec fn view(&self) -> UdpEvent<Seq<u8>> {
        match *self {
            UdpEvent::LookedUp(ok) => UdpEvent::LookedUp(ok),
            UdpEvent::Bound(ok) => UdpEvent::Bound(ok),
            UdpEvent::Connected(ok) => UdpEvent::Connected(ok),
            UdpEvent::Received(Some(datagram)) => UdpEvent::Received(Some(datagram@)),
            UdpEvent::Received(None) => UdpEvent::Received(None),
            UdpEvent::Sent(ok) => UdpEvent::Sent(ok),
        }
    }
}

impl View for UdpAction<Vec<u8>> {
    type V = UdpAction<Seq<u8>>;

    open spec fn view(&self) -> UdpAction<Seq<u8>> {
        match *self {
            UdpAction::Bind => UdpAction::Bind,
            UdpAction::Connect => UdpAction::Connect,
            UdpAction::Open(first) => UdpAction::Open(first@),
            UdpAction::Send(packet) => UdpAction::Send(packet@),
            UdpAction::Receive => UdpAction::Receive,
            UdpAction::GiveUp => UdpAction::GiveUp,
            UdpAction::Close => UdpAction::Close,
        }
    }
}

/// Whether `event` is what a relay in `phase` waits for.
pub open spec fn udp_expects(phase: UdpPhase, event: UdpEvent<Seq<u8>>) -> bool {
    match phase {
        UdpPhase::LookingUp => event is LookedUp,
        UdpPhase::Binding => event is Bound,
        UdpPhase::Connecting => event is Connected,
        UdpPhase::Receiving => event is Received,
        UdpPhase::Sending => event is Sent,
        UdpPhase::Ended => false,
    }
}

/// What the relay for connection `conn_id` and target `key`, which is to send `first` to its
/// target first, does on `event`, and the phase that it is in then.
pub open spec fn udp_relay_step(
    conn_id: u64,
    key: Seq<char>,
    first: Seq<u8>,
    event: UdpEvent<Seq<u8>>,
) -> (UdpPhase, UdpAction<Seq<u8>>) {
    match event {
        UdpEvent::LookedUp(true) => (UdpPhase::Binding, UdpAction::Bind),
        UdpEvent::Bound(true) => (UdpPhase::Connecting, UdpAction::Connect),
        UdpEvent::Connected(true) => (UdpPhase::Receiving, UdpAction::Open(first)),
        UdpEvent::Received(Some(datagram)) => (
            UdpPhase::Sending,
            UdpAction::Send(frame::packet_bytes(frame::UDP, conn_id, key, datagram)),
        ),
        UdpEvent::Sent(true) => (UdpPhase::Receiving, UdpAction::Receive),
        UdpEvent::Received(None) => (UdpPhase::Ended, UdpAction::Close),
        UdpEvent::Sent(false) => (UdpPhase::Ended, UdpAction::Close),
        _ => (UdpPhase::Ended, UdpAction::GiveUp),
    }
}

/// A UDP relay gives up only while its socket does not count as open, and closes it only once it
/// does.
pub proof fn law_relay_closes_what_it_opened(
    conn_id: u64,
    key: Seq<char>,
    first: Seq<u8>,
    phase: UdpPhase,
    event: UdpEvent<Seq<u8>>,
)
    requires
        udp_expects(phase, event),
    ensures
        ({
            let opened = phase == UdpPhase::Receiving || phase == UdpPhase::Sending;
            let (next, action) = udp_relay_step(conn_id, key, first, event);
            &&& action is GiveUp ==> !opened
            &&& action is Close ==> opened
            &&& action is Open ==> !opened
            &&& next == UdpPhase::Ended <==> action is GiveUp || action is Close
        }),
{
}

/// A UDP relay ends when something fails or nothing more can come, and at no other time. Otherwise
/// it takes its steps in turn: once the target is found it binds, once it has bound it connects,
/// once it is connected it opens, and then it sends and receives by turns.
pub proof fn law_udp_relay_acts_on_each_event(
    conn_id: u64,
    key: Seq<char>,
    first: Seq<u8>,
    phase: UdpPhase,
    event: UdpEvent<Seq<u8>>,
)
    requires
        udp_expects(phase, event),
    ensures
        ({
            let (next, action) = udp_relay_step(conn_id, key, first, event);
            let over = event == UdpEvent::<Seq<u8>>::LookedUp(false) || event == UdpEvent::<
                Seq<u8>,
            >::Bound(false) || event == UdpEvent::<Seq<u8>>::Connected(false) || event
                == UdpEvent::<Seq<u8>>::Received(None) || event == UdpEvent::<Seq<u8>>::Sent(false);
            &&& next == UdpPhase::Ended <==> over
            &&& action is GiveUp || action is Close <==> over
            &&& action is Bind <==> phase == UdpPhase::LookingUp && !over
            &&& action is Connect <==> phase == UdpPhase::Binding && !over
            &&& action is Open <==> phase == UdpPhase::Connecting && !over
            &&& action is Send <==> phase == UdpPhase::Receiving && !over
            &&& action is Receive <==> phase == UdpPhase::Sending && !over
            &&& action is Bind ==> next == UdpPhase::Binding
            &&& action is Connect ==> next == UdpPhase::Connecting
            &&& action is Open || action is Receive ==> next == UdpPhase::Receiving
            &&& action is Send ==> next == UdpPhase::Sending
            &&& action is Open ==> action == UdpAction::Open(first)
            &&& event matches UdpEvent::Received(Some(datagram)) ==> (action
                matches UdpAction::Send(packet) && frame::carries(
                packet,
                1,
                conn_id,
                key,
                datagram,
            ))
        }),
{
    match event {
        UdpEvent::Received(Some(datagram)) => {
            frame::law_packet_carries_its_parts(1, conn_id, key, datagram);
        },
        _ => {},
    }
}

/// What happens to a UDP relay, and what it does, is shown with the same parts and their contents.
pub proof fn law_udp_relay_is_shown_whole(ok: bool, data: Vec<u8>)
    ensures
        UdpEvent::<Vec<u8>>::LookedUp(ok)@ == UdpEvent::<Seq<u8>>::LookedUp(ok),
        UdpEvent::<Vec<u8>>::Bound(ok)@ == UdpEvent::<Seq<u8>>::Bound(ok),
        UdpEvent::<Vec<u8>>::Connected(ok)@ == UdpEvent::<Seq<u8>>::Connected(ok),
        UdpEvent::Received(Some(data))@ == UdpEvent::Received(Some(data@)),
        UdpEvent::<Vec<u8>>::Received(None)@ == UdpEvent::<Seq<u8>>::Received(None),
        UdpEvent::<Vec<u8>>::Sent(ok)@ == UdpEvent::<Seq<u8>>::Sent(ok),
        UdpAction::<Vec<u8>>::Bind@ == UdpAction::<Seq<u8>>::Bind,
        UdpAction::<Vec<u8>>::Connect@ == UdpAction::<Seq<u8>>::Connect,
        UdpAction::Open(data)@ == UdpAction::Open(data@),
        UdpAction::Send(data)@ == UdpAction::Send(data@),
        UdpAction::<Vec<u8>>::Receive@ == UdpAction::<Seq<u8>>::Receive,
        UdpAction::<Vec<u8>>::GiveUp@ == UdpAction::<Seq<u8>>::GiveUp,
        UdpAction::<Vec<u8>>::Close@ == UdpAction::<Seq<u8>>::Close,
{
}

/// What a relay that is to send `first` first does over `events`.
pub open spec fn udp_relay_run(
    conn_id: u64,
    key: Seq<char>,
    first: Seq<u8>,
    events: Seq<UdpEvent<Seq<u8>>>,
) -> Seq<UdpAction<Seq<u8>>>
    decreases events.len(),
{
    if events.len() == 0 {
        seq![]
    } else {
        let (_, action) = udp_relay_step(conn_id, key, first, events[0]);
        let left = if events[0] == UdpEvent::<Seq<u8>>::Connected(true) {
            Seq::empty()
        } else {
            first
        };
        seq![action] + udp_relay_run(conn_id, key, left, events.drop_first())
    }
}

/// Whether each of `events` is what a relay waits for that is in `phase` before the first of them.
pub open spec fn udp_run_expected(
    conn_id: u64,
    key: Seq<char>,
    phase: UdpPhase,
    events: Seq<UdpEvent<Seq<u8>>>,
) -> bool
    decreases events.len(),
{
    events.len() > 0 ==> {
        &&& udp_expects(phase, events[0])
        &&& udp_run_expected(
            conn_id,
            key,
            udp_relay_step(conn_id, key, seq![], events[0]).0,
            events.drop_first(),
        )
    }
}

/// The datagrams that came from the target according to `events`, in order.
pub open spec fn received_in(events: Seq<UdpEvent<Seq<u8>>>) -> Seq<Seq<u8>>
    decreases events.len(),
{
    if events.len() == 0 {
        seq![]
    } else {
        let later = received_in(events.drop_first());
        match events[0] {
            UdpEvent::Received(Some(datagram)) => seq![datagram] + later,
            _ => later,
        }
    }
}

/// What the `Send` actions among `actions` write to the client, one after another.
pub open spec fn sent_in(actions: Seq<UdpAction<Seq<u8>>>) -> Seq<u8>
    decreases actions.len(),
{
    if actions.len() == 0 {
        seq![]
    } else {
        let later = sent_in(actions.drop_first());
        match actions[0] {
            UdpAction::Send(packet) => packet + later,
            _ => later,
        }
    }
}

/// What the `Open` actions among `actions` send to the target, in order.
pub open spec fn opened_in(actions: Seq<UdpAction<Seq<u8>>>) -> Seq<Seq<u8>>
    decreases actions.len(),
{
    if actions.len() == 0 {
        seq![]
    } else {
        let later = opened_in(actions.drop_first());
        match actions[0] {
            UdpAction::Open(first) => seq![first] + later,
            _ => later,
        }
    }
}

/// Over any run a UDP relay writes to the client exactly the datagrams that came from the target,
/// whole and in order: cut into frames and read, what it writes says them one by one, each of kind
/// UDP and with the id and the key of the connection. What it sends to the target when it opens is
/// the client's first datagram as it was; it opens once at most, and has done so before anything
/// comes from the target.
pub proof fn law_udp_relay_passes_datagrams_on(
    conn_id: u64,
    key: Seq<char>,
    first: Seq<u8>,
    events: Seq<UdpEvent<Seq<u8>>>,
)
    requires
        udp_run_expected(conn_id, key, UdpPhase::LookingUp, events),
        forall|i: int|
            0 <= i < received_in(events).len() ==> 11 + encode_utf8(key).len() + (
            #[trigger] received_in(events)[i]).len() <= 0xFFFF,
    ensures
        ({
            let actions = udp_relay_run(conn_id, key, first, events);
            let received = received_in(events);
            let frames = frame::frames_in(sent_in(actions));
            let opened = opened_in(actions);
            &&& frames.len() == received.len()
            &&& forall|i: int|
                0 <= i < received.len() ==> frame::read_frame(#[trigger] frames[i]) == Some(
                    Frame { kind: 1, conn_id, key, payload: received[i] },
                )
            &&& opened.len() == 0 || opened == seq![first]
            &&& opened.len() == 1 <==> events.len() > 2 && events[2] == UdpEvent::<
                Seq<u8>,
            >::Connected(true)
            &&& received.len() > 0 ==> opened == seq![first]
        }),
{
    let actions = udp_relay_run(conn_id, key, first, events);
    let received = received_in(events);
    let said = datagram_frames(conn_id, key, received);
    let sent = sent_in(actions);
    lemma_sent_are_packets(conn_id, key, first, events);
    assert forall|i: int| 0 <= i < said.len() implies frame::length_fits(
        (#[trigger] said[i]).key,
        said[i].payload,
    ) by {
        assert(said[i].payload == received[i]);
    }
    frame::law_tunnel_carries_frames(said, seq![]);
    assert(sent + seq![] =~= sent);
    assert(frame::frames_in(seq![]) =~= seq![]);
    let frames = frame::frames_in(sent);
    assert(frames =~= frame::raw_frames(said));
    assert forall|i: int| 0 <= i < received.len() implies frame::read_frame(#[trigger] frames[i])
        == Some(Frame { kind: 1, conn_id, key, payload: received[i] }) by {
        assert(frame::raw_frames(said)[i] == frames[i]);
        assert(said[i] == Frame { kind: 1, conn_id, key, payload: received[i] });
    }
    lemma_relay_opens_once(conn_id, key, first, events);
}

/// The frames that carry `datagrams` to the client.
spec fn datagram_frames(conn_id: u64, key: Seq<char>, datagrams: Seq<Seq<u8>>) -> Seq<Frame> {
    Seq::new(datagrams.len(), |i: int| Frame { kind: 1, conn_id, key, payload: datagrams[i] })
}

proof fn lemma_sent_are_packets(
    conn_id: u64,
    key: Seq<char>,
    first: Seq<u8>,
    events: Seq<UdpEvent<Seq<u8>>>,
)
    ensures
        sent_in(udp_relay_run(conn_id, key, first, events)) == frame::packets_of(
            datagram_frames(conn_id, key, received_in(events)),
        ),
    decreases events.len(),
{
    let actions = udp_relay_run(conn_id, key, first, events);
    let said = datagram_frames(conn_id, key, received_in(events));
    if events.len() > 0 {
        let rest = events.drop_first();
        let left = if events[0] == UdpEvent::<Seq<u8>>::Connected(true) {
            Seq::empty()
        } else {
            first
        };
        lemma_sent_are_packets(conn_id, key, left, rest);
        let later = udp_relay_run(conn_id, key, left, rest);
        assert(actions.drop_first() =~= later);
        match events[0] {
            UdpEvent::Received(Some(datagram)) => {
                let said_later = datagram_frames(conn_id, key, received_in(rest));
                assert(said[0].payload == datagram);
                assert(said.drop_first() =~= said_later);
            },
            _ => {},
        }
    }
}

proof fn lemma_relay_opens_once(
    conn_id: u64,
    key: Seq<char>,
    first: Seq<u8>,
    events: Seq<UdpEvent<Seq<u8>>>,
)
    requires
        udp_run_expected(conn_id, key, UdpPhase::LookingUp, events),
    ensures
        ({
            let opened = opened_in(udp_relay_run(conn_id, key, first, events));
            let opens = events.len() > 2 && events[2] == UdpEvent::<Seq<u8>>::Connected(true);
            &&& opens ==> opened == seq![first]
            &&& !opens ==> opened.len() == 0
            &&& received_in(events).len() > 0 ==> opens
        }),
{
    let actions = udp_relay_run(conn_id, key, first, events);
    if events.len() > 0 {
        let one = events.drop_first();
        let after_one = udp_relay_run(conn_id, key, first, one);
        let found = udp_relay_step(conn_id, key, seq![], events[0]).0;
        assert(udp_run_expected(conn_id, key, found, one));
        assert(actions.drop_first() =~= after_one);
        assert(received_in(events) == received_in(one));
        assert(opened_in(actions) == opened_in(after_one));
        if one.len() > 0 {
            let two = one.drop_first();
            let after_two = udp_relay_run(conn_id, key, first, two);
            let bound = udp_relay_step(conn_id, key, seq![], one[0]).0;
            assert(udp_expects(found, one[0]));
            assert(udp_run_expected(conn_id, key, bound, two));
            assert(after_one.drop_first() =~= after_two);
            assert(received_in(one) == received_in(two));
            assert(opened_in(after_one) == opened_in(after_two));
            if two.len() > 0 {
                let left = if two[0] == UdpEvent::<Seq<u8>>::Connected(true) {
                    Seq::empty()
                } else {
                    first
                };
                let three = two.drop_first();
                assert(udp_expects(bound, two[0]));
                assert(received_in(two) == received_in(three));
                let after_three = udp_relay_run(conn_id, key, left, three);
                assert(two[0] == events[2]);
                assert(after_two.drop_first() =~= after_three);
                let next = udp_relay_step(conn_id, key, seq![], two[0]).0;
                lemma_open_relay_opens_nothing(conn_id, key, left, next, three);
                if two[0] == UdpEvent::<Seq<u8>>::Connected(true) {
                    assert(opened_in(after_two) =~= seq![first]);
                } else {
                    assert(opened_in(after_two) == opened_in(after_three));
                    assert(received_in(three).len() == 0);
                }
            } else {
                assert(opened_in(after_two).len() == 0);
            }
        }
    }
}

proof fn lemma_open_relay_opens_nothing(
    conn_id: u64,
    key: Seq<char>,
    first: Seq<u8>,
    phase: UdpPhase,
    events: Seq<UdpEvent<Seq<u8>>>,
)
    requires
        phase == UdpPhase::Receiving || phase == UdpPhase::Sending || phase == UdpPhase::Ended,
        udp_run_expected(conn_id, key, phase, events),
    ensures
        opened_in(udp_relay_run(conn_id, key, first, events)).len() == 0,
        phase == UdpPhase::Ended ==> events.len() == 0,
    decreases events.len(),
{
    if events.len() > 0 {
        let rest = events.drop_first();
        let next = udp_relay_step(conn_id, key, seq![], events[0]).0;
        lemma_open_relay_opens_nothing(conn_id, key, first, next, rest);
        let actions = udp_relay_run(conn_id, key, first, events);
        assert(actions.drop_first() =~= udp_relay_run(conn_id, key, first, rest));
    }
}

/// A UDP relay.
pub struct UdpRelay {
    phase: UdpPhase,
    conn_id: u64,
    key: String,
    first: Vec<u8>,
}

impl UdpRelay {
    /// What the relay waits for.
    pub closed spec fn phase(&self) -> UdpPhase {
        self.phase
    }

    /// The connection that the relay is for.
    pub closed spec fn conn_id(&self) -> u64 {
        self.conn_id
    }

    /// The target key that the packets to the client carry.
    pub closed spec fn key(&self) -> Seq<char> {
        self.key@
    }

    /// What the relay sends first, if it has not done so.
    pub closed spec fn first(&self) -> Seq<u8> {
        self.first@
    }

    /// A relay that looks up its target and is to send `first` to it.
    pub fn new(conn_id: u64, key: String, first: Vec<u8>) -> (relay: UdpRelay)
        ensures
            relay.phase() == UdpPhase::LookingUp,
            relay.conn_id() == conn_id,
            relay.key() == key@,
            relay.first() == first@,
    {
        UdpRelay { phase: UdpPhase::LookingUp, conn_id, key, first }
    }

    /// What the relay does on `event`.
    pub fn step(&mut self, event: UdpEvent<Vec<u8>>) -> (action: UdpAction<Vec<u8>>)
        requires
            udp_expects(old(self).phase(), event@),
            event@ matches UdpEvent::Received(Some(datagram)) ==> frame::allocatable(
                old(self).key(),
                datagram,
            ),
        ensures
            ({
                let (phase, done) = udp_relay_step(
                    old(self).conn_id(),
                    old(self).key(),
                    old(self).first(),
                    event@,
                );
                &&& final(self).phase() == phase
                &&& action@ == done
            }),
            final(self).conn_id() == old(self).conn_id(),
            final(self).key() == old(self).key(),
            final(self).first() == if event@ == UdpEvent::<Seq<u8>>::Connected(true) {
                Seq::empty()
            } else {
                old(self).first()
            },
    {
        match event {
            UdpEvent::LookedUp(true) => {
                self.phase = UdpPhase::Binding;
                UdpAction::Bind
            },
            UdpEvent::Bound(true) => {
                self.phase = UdpPhase::Connecting;
                UdpAction::Connect
            },
            UdpEvent::Connected(true) => {
                self.phase = UdpPhase::Receiving;
                let mut first: Vec<u8> = Vec::new();
                std::mem::swap(&mut first, &mut self.first);
                UdpAction::Open(first)
            },
            UdpEvent::Received(Some(datagram)) => {
                self.phase = UdpPhase::Sending;
                UdpAction::Send(
                    server::udp_downstream(
                        self.conn_id,
                        self.key.as_str(),
                        datagram.as_slice(),
                    ),
                )
            },
            UdpEvent::Sent(true) => {
                self.phase = UdpPhase::Receiving;
                UdpAction::Receive
            },
            UdpEvent::Received(None) | UdpEvent::Sent(false) => {
                self.phase = UdpPhase::Ended;
                UdpAction::Close
            },
            _ => {
                self.phase = UdpPhase::Ended;
                UdpAction::GiveUp
            },
        }
    }
}

} // verus!
