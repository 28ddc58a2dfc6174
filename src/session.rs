use vstd::prelude::*;

verus! {

/// The most bytes one read from the peer asks for.
pub const READ_CHUNK: usize = 1024;

/// Where one connection's echo loop stands.
#[derive(PartialEq, Eq, Structural, Clone, Copy, Debug)]
pub enum Phase {
    /// Waiting for bytes from the peer.
    Reading,
    /// Waiting for the bytes last read to be written back.
    Writing,
    /// The peer closed in order; the connection is released.
    Closed,
    /// A read or a write failed; the connection is released.
    Failed,
}

/// What the transport reports back after performing the last action.
#[derive(PartialEq, Eq, Debug)]
pub enum Event {
    /// A read completed with these bytes; none means the peer closed.
    Received(Vec<u8>),
    /// A read failed.
    ReceiveFailed,
    /// The whole of the last write went out.
    Sent,
    /// The last write failed.
    SendFailed,
}

/// What the transport is asked to do next.
#[derive(PartialEq, Eq, Debug)]
pub enum Action {
    /// Read at most this many bytes.
    Receive(usize),
    /// Write all of these bytes.
    Send(Vec<u8>),
    /// Release the connection; the loop is over.
    Release,
}

/// An event, as the model sees it.
pub enum Signal {
    Received(Seq<u8>),
    ReceiveFailed,
    Sent,
    SendFailed,
}

/// An action, as the model sees it.
pub enum Command {
    Receive(nat),
    Send(Seq<u8>),
    Release,
}

impl View for Event {
    type V = Signal;

    open spec fn view(&self) -> Signal {
        match self {
            Event::Received(d) => Signal::Received(d@),
            Event::ReceiveFailed => Signal::ReceiveFailed,
            Event::Sent => Signal::Sent,
            Event::SendFailed => Signal::SendFailed,
        }
    }
}

impl View for Action {
    type V = Command;

    open spec fn view(&self) -> Command {
        match self {
            Action::Receive(n) => Command::Receive(*n as nat),
            Action::Send(d) => Command::Send(d@),
            Action::Release => Command::Release,
        }
    }
}

/// The state of one echo loop: its phase, every byte read from the peer, every
/// byte written back, and the bytes of a write not yet confirmed.
pub struct EchoModel {
    pub phase: Phase,
    pub received: Seq<u8>,
    pub echoed: Seq<u8>,
    pub pending: Seq<u8>,
}

/// A loop that has neither read nor written.
pub open spec fn initial_model() -> EchoModel {
    EchoModel {
        phase: Phase::Reading,
        received: Seq::empty(),
        echoed: Seq::empty(),
        pending: Seq::empty(),
    }
}

/// What has been written back, followed by what is being written, is exactly
/// what was read; while reading or once closed nothing is outstanding.
pub open spec fn model_wf(m: EchoModel) -> bool {
    &&& m.received == m.echoed + m.pending
    &&& (m.phase == Phase::Reading || m.phase == Phase::Closed) ==> m.pending.len() == 0
    &&& m.phase == Phase::Writing ==> m.pending.len() > 0
}

/// The state after one event. A finished loop stays as it is; an event that
/// does not answer the last action is a fault, as a failed read or write is.
pub open spec fn next_model(m: EchoModel, s: Signal) -> EchoModel {
    match (m.phase, s) {
        (Phase::Reading, Signal::Received(d)) => if d.len() == 0 {
            EchoModel { phase: Phase::Closed, ..m }
        } else {
            EchoModel { phase: Phase::Writing, received: m.received + d, pending: d, ..m }
        },
        (Phase::Writing, Signal::Sent) => EchoModel {
            phase: Phase::Reading,
            echoed: m.echoed + m.pending,
            pending: Seq::empty(),
            ..m
        },
        (Phase::Closed, _) => m,
        (Phase::Failed, _) => m,
        _ => EchoModel { phase: Phase::Failed, ..m },
    }
}

/// The action that a state asks for.
pub open spec fn command_of(m: EchoModel) -> Command {
    match m.phase {
        Phase::Reading => Command::Receive(READ_CHUNK as nat),
        Phase::Writing => Command::Send(m.pending),
        _ => Command::Release,
    }
}

/// The state after a sequence of events.
pub open spec fn run(m: EchoModel, signals: Seq<Signal>) -> EchoModel
    decreases signals.len(),
{
    if signals.len() == 0 {
        m
    } else {
        next_model(run(m, signals.drop_last()), signals.last())
    }
}

/// The bytes a command asks to write.
pub open spec fn send_payload(c: Command) -> Seq<u8> {
    match c {
        Command::Send(d) => d,
        _ => Seq::empty(),
    }
}

/// Every byte that the actions following a sequence of events asked to
/// write, in order.
pub open spec fn sent(m: EchoModel, signals: Seq<Signal>) -> Seq<u8>
    decreases signals.len(),
{
    if signals.len() == 0 {
        send_payload(command_of(m))
    } else {
        sent(m, signals.drop_last()) + send_payload(command_of(run(m, signals)))
    }
}

/// What a transport reports when each chunk is read and then written back in
/// full, in turn.
pub open spec fn exchange(chunks: Seq<Seq<u8>>) -> Seq<Signal>
    decreases chunks.len(),
{
    if chunks.len() == 0 {
        Seq::empty()
    } else {
        exchange(chunks.drop_last()) + seq![Signal::Received(chunks.last()), Signal::Sent]
    }
}

/// An exchange of chunks, followed by the peer's orderly close.
pub open spec fn echo_script(chunks: Seq<Seq<u8>>) -> Seq<Signal> {
    exchange(chunks).push(Signal::Received(Seq::empty()))
}

/// A payload cut into consecutive pieces of `size` bytes, the last one
/// possibly shorter.
pub open spec fn chunks_of(payload: Seq<u8>, size: nat) -> Seq<Seq<u8>>
    decreases payload.len(),
{
    if payload.len() == 0 || size == 0 {
        Seq::empty()
    } else if payload.len() <= size {
        seq![payload]
    } else {
        seq![payload.take(size as int)] + chunks_of(payload.skip(size as int), size)
    }
}

/// The events of one connection, picked out of events tagged with the
/// connection (`true` for the first of two, `false` for the second).
pub open spec fn events_of(tagged: Seq<(bool, Signal)>, which: bool) -> Seq<Signal>
    decreases tagged.len(),
{
    if tagged.len() == 0 {
        Seq::empty()
    } else if tagged.last().0 == which {
        events_of(tagged.drop_last(), which).push(tagged.last().1)
    } else {
        events_of(tagged.drop_last(), which)
    }
}

/// Two loops driven by one interleaved stream of tagged events.
pub open spec fn run_pair(a: EchoModel, b: EchoModel, tagged: Seq<(bool, Signal)>) -> (EchoModel, EchoModel)
    decreases tagged.len(),
{
    if tagged.len() == 0 {
        (a, b)
    } else {
        let (x, y) = run_pair(a, b, tagged.drop_last());
        if tagged.last().0 {
            (next_model(x, tagged.last().1), y)
        } else {
            (x, next_model(y, tagged.last().1))
        }
    }
}

/// Every step keeps the state well formed.
pub proof fn lemma_next_preserves_wf(m: EchoModel, s: Signal)
    requires
        model_wf(m),
    ensures
        model_wf(next_model(m, s)),
{
    match (m.phase, s) {
        (Phase::Reading, Signal::Received(d)) => {
            assert(m.received + d == m.echoed + d);
        },
        (Phase::Writing, Signal::Sent) => {
            assert(m.echoed + m.pending + Seq::<u8>::empty() == m.echoed + m.pending);
        },
        _ => {},
    }
}

/// Reading and writing back nonempty chunks, from a state that waits for a
/// read, writes back exactly those chunks and leaves the state waiting for the
/// next read.
proof fn lemma_exchange(m: EchoModel, chunks: Seq<Seq<u8>>)
    requires
        model_wf(m),
        m.phase == Phase::Reading,
        forall|i: int| 0 <= i < chunks.len() ==> #[trigger] chunks[i].len() > 0,
    ensures
        run(m, exchange(chunks)).phase == Phase::Reading,
        run(m, exchange(chunks)).received == m.received + chunks.flatten(),
        run(m, exchange(chunks)).echoed == m.echoed + chunks.flatten(),
        run(m, exchange(chunks)).pending.len() == 0,
        sent(m, exchange(chunks)) == chunks.flatten(),
    decreases chunks.len(),
{
    if chunks.len() == 0 {
        assert(chunks.flatten() =~= Seq::<u8>::empty());
        assert(m.received + Seq::<u8>::empty() =~= m.received);
        assert(m.echoed + Seq::<u8>::empty() =~= m.echoed);
    } else {
        let front = chunks.drop_last();
        let c = chunks.last();
        assert forall|i: int| 0 <= i < front.len() implies #[trigger] front[i].len() > 0 by {
            assert(front[i] == chunks[i]);
        }
        lemma_exchange(m, front);
        let e0 = exchange(front);
        let e1 = e0.push(Signal::Received(c));
        let e2 = e1.push(Signal::Sent);
        assert(exchange(chunks) =~= e2);
        assert(e2.drop_last() =~= e1);
        assert(e1.drop_last() =~= e0);
        assert(c.len() > 0) by {
            assert(c == chunks[chunks.len() - 1]);
        }
        assert(chunks =~= front.push(c));
        front.lemma_flatten_push(c);
        let mid = run(m, e1);
        assert(mid.phase == Phase::Writing);
        assert(mid.pending == c);
        assert(sent(m, e1) == sent(m, e0) + c);
        assert(sent(m, e2) == sent(m, e1) + Seq::<u8>::empty());
        assert(sent(m, e2) =~= front.flatten() + c);
        assert(run(m, e2).received =~= m.received + (front.flatten() + c));
        assert(run(m, e2).echoed =~= m.echoed + (front.flatten() + c));
    }
}

/// Whatever bytes a peer sends, in however many reads, the loop writes back
/// exactly those bytes in the same order, and ends closed when the peer
/// closes.
pub proof fn lemma_echo_identity(chunks: Seq<Seq<u8>>)
    requires
        forall|i: int| 0 <= i < chunks.len() ==> #[trigger] chunks[i].len() > 0,
    ensures
        sent(initial_model(), echo_script(chunks)) == chunks.flatten(),
        run(initial_model(), echo_script(chunks)).phase == Phase::Closed,
        run(initial_model(), echo_script(chunks)).echoed == chunks.flatten(),
        run(initial_model(), echo_script(chunks)).received == chunks.flatten(),
{
    let m = initial_model();
    lemma_exchange(m, chunks);
    let e = exchange(chunks);
    let script = echo_script(chunks);
    assert(script.drop_last() =~= e);
    assert(m.received + chunks.flatten() =~= chunks.flatten());
    assert(m.echoed + chunks.flatten() =~= chunks.flatten());
    assert(sent(m, script) =~= sent(m, e));
}

/// Cutting a payload into pieces of a positive size gives nonempty pieces of
/// at most that size, which join back into the payload.
pub proof fn lemma_chunks_of(payload: Seq<u8>, size: nat)
    requires
        size > 0,
    ensures
        chunks_of(payload, size).flatten() == payload,
        forall|i: int| 0 <= i < chunks_of(payload, size).len() ==>
            0 < #[trigger] chunks_of(payload, size)[i].len() <= size,
    decreases payload.len(),
{
    let cs = chunks_of(payload, size);
    if payload.len() == 0 {
        assert(cs.flatten() =~= payload);
    } else if payload.len() <= size {
        cs.lemma_flatten_one_element();
    } else {
        let head = payload.take(size as int);
        let tail = payload.skip(size as int);
        let rest = chunks_of(tail, size);
        lemma_chunks_of(tail, size);
        assert(cs.first() == head);
        assert(cs.drop_first() =~= rest);
        assert(cs.flatten() == head + rest.flatten());
        assert(head + tail =~= payload);
        assert forall|i: int| 0 <= i < cs.len() implies 0 < #[trigger] cs[i].len() <= size by {
            if i > 0 {
                assert(cs[i] == rest[i - 1]);
            }
        }
    }
}

/// A payload of any length, read in pieces of at most `READ_CHUNK` bytes,
/// comes back whole and in order, each write no longer than one read.
pub proof fn lemma_chunked_round_trip(payload: Seq<u8>)
    ensures
        sent(initial_model(), echo_script(chunks_of(payload, READ_CHUNK as nat))) == payload,
        forall|i: int| 0 <= i < chunks_of(payload, READ_CHUNK as nat).len() ==>
            #[trigger] chunks_of(payload, READ_CHUNK as nat)[i].len() <= READ_CHUNK,
{
    lemma_chunks_of(payload, READ_CHUNK as nat);
    lemma_echo_identity(chunks_of(payload, READ_CHUNK as nat));
}

/// Two connections driven by one interleaving of their events end as each
/// would alone on its own events: neither sees the other's bytes.
pub proof fn lemma_independence(a: EchoModel, b: EchoModel, tagged: Seq<(bool, Signal)>)
    ensures
        run_pair(a, b, tagged) == (run(a, events_of(tagged, true)), run(b, events_of(tagged, false))),
    decreases tagged.len(),
{
    if tagged.len() > 0 {
        lemma_independence(a, b, tagged.drop_last());
        let ea = events_of(tagged.drop_last(), true);
        let eb = events_of(tagged.drop_last(), false);
        if tagged.last().0 {
            assert(events_of(tagged, true).drop_last() =~= ea);
        } else {
            assert(events_of(tagged, false).drop_last() =~= eb);
        }
    }
}

/// One connection's echo loop, as decisions: it is told what the transport
/// did and answers with what the transport should do next.
pub struct EchoSession {
    phase: Phase,
    received: Ghost<Seq<u8>>,
    echoed: Ghost<Seq<u8>>,
    pending: Ghost<Seq<u8>>,
}

impl View for EchoSession {
    type V = EchoModel;

    closed spec fn view(&self) -> EchoModel {
        EchoModel {
            phase: self.phase,
            received: self.received@,
            echoed: self.echoed@,
            pending: self.pending@,
        }
    }
}

impl EchoSession {
    /// A fresh loop, and its first action: a read.
    pub fn start() -> (r: (EchoSession, Action))
        ensures
            r.0@ == initial_model(),
            model_wf(r.0@),
            r.1@ == command_of(initial_model()),
    {
        let s = EchoSession {
            phase: Phase::Reading,
            received: Ghost(Seq::empty()),
            echoed: Ghost(Seq::empty()),
            pending: Ghost(Seq::empty()),
        };
        assert(Seq::<u8>::empty() + Seq::<u8>::empty() =~= Seq::<u8>::empty());
        (s, Action::Receive(READ_CHUNK))
    }

    /// Takes what the transport did and returns what it should do next.
    pub fn step(&mut self, event: Event) -> (action: Action)
        requires
            model_wf(old(self)@),
        ensures
            final(self)@ == next_model(old(self)@, event@),
            model_wf(final(self)@),
            action@ == command_of(final(self)@),
    {
        proof {
            lemma_next_preserves_wf(self@, event@);
        }
        match (self.phase, event) {
            (Phase::Reading, Event::Received(data)) => {
                if data.len() == 0 {
                    self.phase = Phase::Closed;
                    Action::Release
                } else {
                    self.phase = Phase::Writing;
                    self.received = Ghost(self.received@ + data@);
                    self.pending = Ghost(data@);
                    Action::Send(data)
                }
            },
            (Phase::Writing, Event::Sent) => {
                self.phase = Phase::Reading;
                self.echoed = Ghost(self.echoed@ + self.pending@);
                self.pending = Ghost(Seq::empty());
                Action::Receive(READ_CHUNK)
            },
            (Phase::Closed, _) => Action::Release,
            (Phase::Failed, _) => Action::Release,
            _ => {
                self.phase = Phase::Failed;
                Action::Release
            },
        }
    }

    /// Where the loop stands.
    pub fn phase(&self) -> (r: Phase)
        ensures
            r == self@.phase,
    {
        self.phase
    }

    /// Whether the loop is over and the connection should be released.
    pub fn is_finished(&self) -> (r: bool)
        ensures
            r == (self@.phase == Phase::Closed || self@.phase == Phase::Failed),
    {
        self.phase == Phase::Closed || self.phase == Phase::Failed
    }
}

} // verus!
