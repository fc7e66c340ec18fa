//! The batching relay: it gathers consecutive frames of one kind into a
//! buffer and decides when the buffer leaves as a datagram.

use vstd::prelude::*;
use crate::communicator::{Message, StreamKind, Tagged, DATA_BUFFER_SIZE};
use crate::model::{
    due, nap, wire, Buffered, RelayState, CHECK_INTERVAL, MAX_UDP_BUFFER_SIZE, TICK_DURATION,
};

verus! {

/// The room a fresh buffer is given.
pub const ACCUMULATOR_CAPACITY: usize = DATA_BUFFER_SIZE * 4;

/// Whether `out` is the datagram for `run`, or both are absent.
pub open spec fn delivers(out: Option<Vec<u8>>, run: Option<Tagged>) -> bool {
    match (out, run) {
        (Some(datagram), Some(run)) => datagram@ == wire(run),
        (None, None) => true,
        _ => false,
    }
}

/// The relay's buffer. Its first byte is kept for the tag that the
/// datagram will start with.
#[derive(Debug)]
pub struct Accumulator {
    data: Vec<u8>,
    last_kind: Option<StreamKind>,
}

impl View for Accumulator {
    type V = Buffered;

    closed spec fn view(&self) -> Buffered {
        Buffered { kind: self.last_kind, bytes: self.data@.skip(1) }
    }
}

impl Accumulator {
    /// The buffer starts with the byte kept for the tag, and holds nothing
    /// more while no kind is being gathered.
    pub closed spec fn wf(&self) -> bool {
        &&& self.data@.len() >= 1
        &&& self.last_kind is None ==> self.data@.len() == 1
    }

    /// An accumulator that has gathered nothing.
    pub fn new() -> (acc: Self)
        ensures
            acc.wf(),
            acc@ == Buffered::idle(),
    {
        let mut data: Vec<u8> = Vec::with_capacity(ACCUMULATOR_CAPACITY);
        data.push(255);
        let acc = Self { data, last_kind: None };
        assert(acc@.bytes =~= Seq::<u8>::empty());
        acc
    }

    /// The idle timeout has passed: hands out the datagram for what is
    /// gathered, if anything is.
    pub fn tick(&mut self) -> (out: Option<Vec<u8>>)
        requires
            old(self).wf(),
        ensures
            final(self).wf(),
            final(self)@.wf(),
            final(self)@ == old(self)@.tick().0,
            delivers(out, old(self)@.tick().1),
    {
        let kind = match self.last_kind {
            Some(k) => k,
            None => {
                assert(self@.bytes =~= Seq::<u8>::empty());
                return None;
            },
        };
        let datagram = self.send_data(kind);
        self.last_kind = None;
        Some(datagram)
    }

    /// A frame has arrived: takes its bytes in, and hands out the datagram
    /// that this sends off, if it sends one.
    pub fn push(&mut self, msg: Message) -> (out: Option<Vec<u8>>)
        requires
            old(self).wf(),
        ensures
            final(self).wf(),
            final(self)@.wf(),
            final(self)@ == old(self)@.push(msg@).0,
            delivers(out, old(self)@.push(msg@).1),
    {
        let kind = msg.kind();
        let data = msg.get_data();
        match self.last_kind {
            Some(last_kind) => {
                if last_kind == kind {
                    self.data.extend_from_slice(data);
                    assert(self@.bytes =~= old(self)@.bytes + msg@.bytes);
                    if self.data.len() > MAX_UDP_BUFFER_SIZE {
                        let datagram = self.send_data(kind);
                        self.last_kind = None;
                        Some(datagram)
                    } else {
                        None
                    }
                } else {
                    let datagram = self.send_data(last_kind);
                    self.last_kind = Some(kind);
                    self.data.extend_from_slice(data);
                    assert(self@.bytes =~= msg@.bytes);
                    Some(datagram)
                }
            },
            None => {
                self.last_kind = Some(kind);
                self.data.extend_from_slice(data);
                assert(self@.bytes =~= old(self)@.bytes + msg@.bytes);
                None
            },
        }
    }

    /// Takes the buffer out, leaving a fresh one, and makes it the datagram
    /// for bytes of `kind`.
    fn send_data(&mut self, kind: StreamKind) -> (datagram: Vec<u8>)
        requires
            old(self).data@.len() >= 1,
        ensures
            final(self).data@.len() == 1,
            final(self).last_kind == old(self).last_kind,
            datagram@ == wire(Tagged { kind, bytes: old(self)@.bytes }),
            final(self)@ == (Buffered { kind: old(self)@.kind, bytes: Seq::empty() }),
    {
        let mut data: Vec<u8> = Vec::with_capacity(ACCUMULATOR_CAPACITY);
        data.push(255);
        std::mem::swap(&mut self.data, &mut data);
        data[0] = kind.tag();
        assert(data@ =~= wire(Tagged { kind, bytes: old(self)@.bytes }));
        assert(self@.bytes =~= Seq::<u8>::empty());
        data
    }
}

/// A point in time on tokio's clock. Nothing is known of what it holds.
#[verifier::external_type_specification]
#[verifier::external_body]
pub struct ExInstant(tokio::time::Instant);

/// Asks `tokio::time::Instant::elapsed` how long ago `start` was, in whole
/// milliseconds. Nothing is claimed of the number.
#[verifier::external_body]
fn elapsed_millis(start: &tokio::time::Instant) -> (millis: u128) {
    start.elapsed().as_millis()
}

/// The time that the relay counts when `millis` milliseconds have passed:
/// that number, as long as it leaves room for one more interval.
pub open spec fn counted(millis: u128) -> Option<u64> {
    if millis + TICK_DURATION <= u64::MAX {
        Some(millis as u64)
    } else {
        None
    }
}

/// The time that the relay counts when `millis` milliseconds have passed.
pub fn clock_time(millis: u128) -> (now: Option<u64>)
    ensures
        now == counted(millis),
{
    if millis <= (u64::MAX - TICK_DURATION) as u128 {
        Some(millis as u64)
    } else {
        None
    }
}

/// The time on a clock that was started at `start`, for as long as the
/// relay can count it.
pub fn clock(start: &tokio::time::Instant) -> (now: Option<u64>)
    ensures
        now matches Some(time) ==> time + TICK_DURATION <= u64::MAX,
{
    clock_time(elapsed_millis(start))
}

/// The deadline of the idle timeout. Times are milliseconds on a clock that
/// never runs backwards, and leave room for one more interval.
#[derive(Debug)]
pub struct Ticker {
    next_tick_time: u64,
}

impl Ticker {
    /// The time at which the idle timeout is next due.
    pub closed spec fn deadline(&self) -> int {
        self.next_tick_time as int
    }

    /// A ticker whose timeout is due one interval after `now`.
    pub fn new(now: u64) -> (ticker: Self)
        requires
            now + TICK_DURATION <= u64::MAX,
        ensures
            ticker.deadline() == now + TICK_DURATION,
    {
        Self { next_tick_time: now + TICK_DURATION }
    }

    /// The time at which the idle timeout is next due.
    pub fn next_tick_time(&self) -> (deadline: u64)
        ensures
            deadline == self.deadline(),
    {
        self.next_tick_time
    }

    /// Puts the deadline one interval after `now`.
    pub fn reset(&mut self, now: u64)
        requires
            now + TICK_DURATION <= u64::MAX,
        ensures
            final(self).deadline() == now + TICK_DURATION,
    {
        self.next_tick_time = now + TICK_DURATION;
    }

    /// How long the periodic check may sleep at `now`.
    pub fn sleep_duration(&self, now: u64) -> (millis: u64)
        ensures
            millis == nap(self.deadline(), now as int),
    {
        let left: u64 = self.next_tick_time.saturating_sub(now);
        if left <= CHECK_INTERVAL {
            left
        } else {
            CHECK_INTERVAL
        }
    }

    /// The second half of a check that read the deadline as `observed`:
    /// says at `now` whether the idle timeout goes off, and if it does, puts
    /// the deadline one interval after `now`.
    pub fn check(&mut self, observed: u64, now: u64) -> (fire: bool)
        requires
            now + TICK_DURATION <= u64::MAX,
        ensures
            fire == due(old(self).deadline(), observed as int, now as int),
            final(self).deadline() == if fire {
                now + TICK_DURATION
            } else {
                old(self).deadline()
            },
    {
        if observed == self.next_tick_time && self.next_tick_time <= now {
            self.next_tick_time = now + TICK_DURATION;
            true
        } else {
            false
        }
    }
}

/// What a receive on the frame bus gave.
#[derive(Debug, Clone, Copy)]
pub enum Received {
    /// The next frame.
    Frame(Message),
    /// This many frames were lost to a full backlog.
    Lagged(u64),
    /// No frame will come any more.
    Closed,
}

/// What the relay's receiving loop is to do next.
#[derive(Debug)]
pub enum RelayAction {
    /// Send this datagram, then receive again.
    Send(Vec<u8>),
    /// Receive again.
    Wait,
    /// End the loop.
    Stop,
}

/// Whether `action` carries on the loop and sends exactly the datagram for
/// `run`, if there is one.
pub open spec fn carries(action: RelayAction, run: Option<Tagged>) -> bool {
    match (action, run) {
        (RelayAction::Send(datagram), Some(run)) => datagram@ == wire(run),
        (RelayAction::Wait, None) => true,
        _ => false,
    }
}

/// The batching relay: an accumulator and the ticker that bounds how long
/// its bytes wait.
#[derive(Debug)]
pub struct Relay {
    acc: Accumulator,
    ticker: Ticker,
}

impl View for Relay {
    type V = RelayState;

    closed spec fn view(&self) -> RelayState {
        RelayState { buffered: self.acc@, deadline: self.ticker.deadline() }
    }
}

impl Relay {
    /// The accumulator is well-formed.
    pub closed spec fn wf(&self) -> bool {
        self.acc.wf()
    }

    /// A relay that starts at `now` with nothing gathered.
    pub fn new(now: u64) -> (relay: Self)
        requires
            now + TICK_DURATION <= u64::MAX,
        ensures
            relay.wf(),
            relay@ == (RelayState { buffered: Buffered::idle(), deadline: now + TICK_DURATION }),
    {
        Self { acc: Accumulator::new(), ticker: Ticker::new(now) }
    }

    /// The time at which the idle timeout is next due.
    pub fn next_tick_time(&self) -> (deadline: u64)
        ensures
            deadline == self@.deadline,
    {
        self.ticker.next_tick_time()
    }

    /// How long the periodic check may sleep at `now`.
    pub fn sleep_duration(&self, now: u64) -> (millis: u64)
        ensures
            millis == nap(self@.deadline, now as int),
    {
        self.ticker.sleep_duration(now)
    }

    /// Takes in what a receive on the frame bus gave at `now`. A frame
    /// moves the deadline and joins the buffer; lost frames are passed
    /// over; a closed bus ends the loop.
    pub fn on_received(&mut self, now: u64, received: Received) -> (action: RelayAction)
        requires
            old(self).wf(),
            now + TICK_DURATION <= u64::MAX,
        ensures
            final(self).wf(),
            final(self)@.buffered.wf(),
            match received {
                Received::Frame(msg) => {
                    &&& final(self)@ == old(self)@.receive(now as int, msg@).0
                    &&& carries(action, old(self)@.receive(now as int, msg@).1)
                },
                Received::Lagged(_) => final(self)@ == old(self)@ && action is Wait,
                Received::Closed => final(self)@ == old(self)@ && action is Stop,
            },
    {
        match received {
            Received::Frame(msg) => {
                self.ticker.reset(now);
                match self.acc.push(msg) {
                    Some(datagram) => RelayAction::Send(datagram),
                    None => RelayAction::Wait,
                }
            },
            Received::Lagged(_) => RelayAction::Wait,
            Received::Closed => RelayAction::Stop,
        }
    }

    /// The second half of a check that read the deadline as `observed`:
    /// if at `now` the idle timeout goes off, hands out the datagram for
    /// what is gathered, if anything is.
    pub fn on_check(&mut self, observed: u64, now: u64) -> (out: Option<Vec<u8>>)
        requires
            old(self).wf(),
            now + TICK_DURATION <= u64::MAX,
        ensures
            final(self).wf(),
            final(self)@.buffered.wf(),
            final(self)@ == old(self)@.check(observed as int, now as int).0,
            delivers(out, old(self)@.check(observed as int, now as int).1),
    {
        if self.ticker.check(observed, now) {
            self.acc.tick()
        } else {
            None
        }
    }
}

} // verus!
