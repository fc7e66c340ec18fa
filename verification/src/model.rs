//! The batching relay as contracts see it: its states, the events that
//! move it, and the datagrams each event sends off.

use vstd::prelude::*;
use crate::communicator::{StreamKind, Tagged};

verus! {

/// A buffer that has grown beyond this many bytes, its tag byte counted,
/// leaves at once.
pub const MAX_UDP_BUFFER_SIZE: usize = 32768;

/// How long buffered bytes may wait for more, in milliseconds.
pub const TICK_DURATION: u64 = 500;

/// The longest the periodic check sleeps, in milliseconds.
pub const CHECK_INTERVAL: u64 = 50;

/// The bytes of the datagram that carries `run`: the tag of its kind, then
/// its bytes.
pub open spec fn wire(run: Tagged) -> Seq<u8> {
    seq![run.kind.tag_spec()] + run.bytes
}

/// The accumulator as contracts see it: the kind being gathered, if any, and
/// the bytes gathered so far.
#[verifier::ext_equal]
pub struct Buffered {
    pub kind: Option<StreamKind>,
    pub bytes: Seq<u8>,
}

impl Buffered {
    /// Nothing gathered.
    pub open spec fn idle() -> Buffered {
        Buffered { kind: None, bytes: Seq::empty() }
    }

    /// With no kind being gathered there are no bytes.
    pub open spec fn wf(self) -> bool {
        self.kind is None ==> self.bytes.len() == 0
    }

    /// The idle timeout: whatever is gathered leaves.
    pub open spec fn tick(self) -> (Buffered, Option<Tagged>) {
        match self.kind {
            Some(kind) => (Buffered::idle(), Some(Tagged { kind, bytes: self.bytes })),
            None => (self, None),
        }
    }

    /// The arrival of `frame`. Bytes of the kind being gathered join the
    /// buffer, which leaves if that makes it too long; bytes of another kind
    /// send the buffer off first and start a new one.
    pub open spec fn push(self, frame: Tagged) -> (Buffered, Option<Tagged>) {
        match self.kind {
            Some(kind) => if kind == frame.kind {
                let bytes = self.bytes + frame.bytes;
                if 1 + bytes.len() > MAX_UDP_BUFFER_SIZE {
                    (Buffered::idle(), Some(Tagged { kind, bytes }))
                } else {
                    (Buffered { kind: Some(kind), bytes }, None)
                }
            } else {
                (
                    Buffered { kind: Some(frame.kind), bytes: frame.bytes },
                    Some(Tagged { kind, bytes: self.bytes }),
                )
            },
            None => (Buffered { kind: Some(frame.kind), bytes: self.bytes + frame.bytes }, None),
        }
    }
}

/// The bytes of one kind that `items` carry, in order.
pub open spec fn stream(items: Seq<Tagged>, kind: StreamKind) -> Seq<u8>
    decreases items.len(),
{
    if items.len() == 0 {
        Seq::empty()
    } else if items.last().kind == kind {
        stream(items.drop_last(), kind) + items.last().bytes
    } else {
        stream(items.drop_last(), kind)
    }
}

/// What can happen to the accumulator.
pub enum Event {
    /// A frame arrives.
    Push(Tagged),
    /// The idle timeout goes off.
    Tick,
}

/// The events in which `frames` arrive one after the other.
pub open spec fn pushes(frames: Seq<Tagged>) -> Seq<Event> {
    Seq::new(frames.len(), |i: int| Event::Push(frames[i]))
}

/// The frames that arrive in `events`, in order.
pub open spec fn pushed(events: Seq<Event>) -> Seq<Tagged>
    decreases events.len(),
{
    if events.len() == 0 {
        Seq::empty()
    } else {
        match events.last() {
            Event::Push(frame) => pushed(events.drop_last()).push(frame),
            Event::Tick => pushed(events.drop_last()),
        }
    }
}

/// The datagrams that one event sends off: one or none.
pub open spec fn emitted(out: Option<Tagged>) -> Seq<Tagged> {
    match out {
        Some(run) => seq![run],
        None => Seq::empty(),
    }
}

impl Buffered {
    /// The gathered bytes that belong to `kind`.
    pub open spec fn pending(self, kind: StreamKind) -> Seq<u8> {
        if self.kind == Some(kind) {
            self.bytes
        } else {
            Seq::empty()
        }
    }

    /// One event.
    pub open spec fn step(self, event: Event) -> (Buffered, Option<Tagged>) {
        match event {
            Event::Push(frame) => self.push(frame),
            Event::Tick => self.tick(),
        }
    }

    /// A sequence of events: where it leaves the accumulator, and the
    /// datagrams it sends off, in order.
    pub open spec fn run(self, events: Seq<Event>) -> (Buffered, Seq<Tagged>)
        decreases events.len(),
    {
        if events.len() == 0 {
            (self, Seq::empty())
        } else {
            let (mid, sent) = self.run(events.drop_last());
            let (end, out) = mid.step(events.last());
            (end, sent + emitted(out))
        }
    }
}

/// Whether a check that read the deadline as `observed` and looks again at
/// `now` sets off the idle timeout: the deadline it read still stands, and
/// has passed.
pub open spec fn due(deadline: int, observed: int, now: int) -> bool {
    observed == deadline && deadline <= now
}

/// How long the periodic check sleeps at `now`: until the deadline, but no
/// longer than its interval.
pub open spec fn nap(deadline: int, now: int) -> int {
    if deadline <= now {
        0
    } else if deadline - now <= CHECK_INTERVAL {
        deadline - now
    } else {
        CHECK_INTERVAL as int
    }
}

/// The relay as contracts see it: what it has gathered, and when its idle
/// timeout is due.
#[verifier::ext_equal]
pub struct RelayState {
    pub buffered: Buffered,
    pub deadline: int,
}

impl RelayState {
    /// The arrival of `frame` at `now`: the deadline moves, then the frame
    /// is taken in.
    pub open spec fn receive(self, now: int, frame: Tagged) -> (RelayState, Option<Tagged>) {
        let (buffered, out) = self.buffered.push(frame);
        (RelayState { buffered, deadline: now + TICK_DURATION }, out)
    }

    /// A check that read the deadline as `observed` and looks again at
    /// `now`.
    pub open spec fn check(self, observed: int, now: int) -> (RelayState, Option<Tagged>) {
        if due(self.deadline, observed, now) {
            let (buffered, out) = self.buffered.tick();
            (RelayState { buffered, deadline: now + TICK_DURATION }, out)
        } else {
            (self, None)
        }
    }
}

/// What can happen to the relay.
pub enum RelayEvent {
    /// A frame arrives at a time.
    Arrival(int, Tagged),
    /// The periodic check, which has read the deadline as the first number,
    /// looks at it again at the time that is the second.
    Check(int, int),
}

impl RelayEvent {
    /// When the event happens.
    pub open spec fn time(self) -> int {
        match self {
            RelayEvent::Arrival(now, _) => now,
            RelayEvent::Check(_, now) => now,
        }
    }
}

/// The events in which the periodic check is made once for each of
/// `looks`: the deadline it has read, and the time at which it looks again.
pub open spec fn checks(looks: Seq<(int, int)>) -> Seq<RelayEvent> {
    Seq::new(looks.len(), |i: int| RelayEvent::Check(looks[i].0, looks[i].1))
}

/// The frames that arrive in `events`, in order.
pub open spec fn arrived(events: Seq<RelayEvent>) -> Seq<Tagged>
    decreases events.len(),
{
    if events.len() == 0 {
        Seq::empty()
    } else {
        match events.last() {
            RelayEvent::Arrival(_, frame) => arrived(events.drop_last()).push(frame),
            RelayEvent::Check(_, _) => arrived(events.drop_last()),
        }
    }
}

/// When the last frame of `events` arrives, if any does.
pub open spec fn last_arrival(events: Seq<RelayEvent>) -> Option<int>
    decreases events.len(),
{
    if events.len() == 0 {
        None
    } else {
        match events.last() {
            RelayEvent::Arrival(now, _) => Some(now),
            RelayEvent::Check(_, _) => last_arrival(events.drop_last()),
        }
    }
}

/// No event happens before the one in front of it.
pub open spec fn in_time_order(events: Seq<RelayEvent>) -> bool {
    forall|i: int, j: int|
        0 <= i <= j < events.len() ==> (#[trigger] events[i]).time() <= (#[trigger] events[j]).time()
}

/// Every frame of `events` follows the frame before it by less than the
/// idle interval.
pub open spec fn in_one_burst(events: Seq<RelayEvent>) -> bool {
    forall|i: int|
        0 <= i < events.len() ==> (#[trigger] events[i] matches RelayEvent::Arrival(now, _) ==> (
        last_arrival(events.take(i)) matches Some(before) ==> now < before + TICK_DURATION))
}

impl RelayState {
    /// One event.
    pub open spec fn step(self, event: RelayEvent) -> (RelayState, Option<Tagged>) {
        match event {
            RelayEvent::Arrival(now, frame) => self.receive(now, frame),
            RelayEvent::Check(observed, now) => self.check(observed, now),
        }
    }

    /// A sequence of events: where it leaves the relay, and the datagrams
    /// it sends off, in order.
    pub open spec fn run(self, events: Seq<RelayEvent>) -> (RelayState, Seq<Tagged>)
        decreases events.len(),
    {
        if events.len() == 0 {
            (self, Seq::empty())
        } else {
            let (mid, sent) = self.run(events.drop_last());
            let (end, out) = mid.step(events.last());
            (end, sent + emitted(out))
        }
    }
}

} // verus!
