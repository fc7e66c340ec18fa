//! What holds of the relay once time is counted: which checks set off the
//! idle timeout, and what a burst of frames leaves as.

use vstd::prelude::*;
use crate::communicator::{StreamKind, Tagged};
use crate::model::{
    arrived, checks, due, emitted, in_one_burst, in_time_order, last_arrival, stream, Buffered,
    Event, RelayEvent, RelayState, MAX_UDP_BUFFER_SIZE, TICK_DURATION,
};
use crate::laws::{brought, lemma_accounts_join, lemma_stream_concat, lemma_step_keeps_order};

verus! {

/// A deadline sets off the idle timeout at most once: after a check has
/// done so, no check that read the same deadline does so again.
pub proof fn lemma_deadline_fires_once(state: RelayState, observed: int, first: int, second: int)
    requires
        due(state.deadline, observed, first),
    ensures
        !due(state.check(observed, first).0.deadline, observed, second),
        state.check(observed, first).0.check(observed, second) == (
            state.check(observed, first).0,
            None::<Tagged>,
        ),
{
}

/// A check that read a deadline which a frame has since moved changes
/// nothing.
pub proof fn lemma_stale_check_is_idle(state: RelayState, observed: int, now: int)
    requires
        observed != state.deadline,
    ensures
        state.check(observed, now) == (state, None::<Tagged>),
{
}

/// With no frame arriving, the idle timeout sends at most once. Checks that
/// are not due send nothing and change nothing; the first check that is
/// due, having read the deadline that stands and looking again at or after
/// it, sends what is gathered as one datagram, or nothing where nothing is
/// gathered; and no later check sends anything.
pub proof fn lemma_idle_timeout_sends_once(start: RelayState, looks: Seq<(int, int)>)
    requires
        start.buffered.wf(),
    ensures
        (forall|i: int| 0 <= i < looks.len() ==> !due(start.deadline, looks[i].0, looks[i].1))
            ==> start.run(checks(looks)) == (start, Seq::<Tagged>::empty()),
        (exists|i: int| 0 <= i < looks.len() && due(start.deadline, looks[i].0, looks[i].1)) ==> {
            &&& start.run(checks(looks)).0.buffered == Buffered::idle()
            &&& start.run(checks(looks)).1 == match start.buffered.kind {
                Some(kind) => seq![Tagged { kind, bytes: start.buffered.bytes }],
                None => Seq::empty(),
            }
        },
    decreases looks.len(),
{
    let events = checks(looks);
    if looks.len() > 0 {
        let before = looks.drop_last();
        let (observed, now) = looks.last();
        assert(events.drop_last() =~= checks(before));
        assert(events.last() == RelayEvent::Check(observed, now));
        lemma_idle_timeout_sends_once(start, before);
        let (mid, sent) = start.run(checks(before));
        let (end, out) = mid.step(RelayEvent::Check(observed, now));
        if exists|i: int| 0 <= i < before.len() && due(start.deadline, before[i].0, before[i].1) {
            assert(out is None);
            assert(end.buffered =~= Buffered::idle());
            assert(sent + emitted(out) =~= sent);
        } else {
            assert forall|i: int| 0 <= i < before.len() implies !due(
                start.deadline,
                before[i].0,
                before[i].1,
            ) by {
                assert(!(0 <= i < before.len() && due(start.deadline, before[i].0, before[i].1)));
            }
            assert(mid == start);
            if due(start.deadline, observed, now) {
                assert(end.buffered =~= Buffered::idle());
                assert(sent + emitted(out) =~= emitted(start.buffered.tick().1));
            } else {
                assert(sent + emitted(out) =~= Seq::<Tagged>::empty());
                assert forall|i: int| 0 <= i < looks.len() implies !due(
                    start.deadline,
                    looks[i].0,
                    looks[i].1,
                ) by {
                    if i < before.len() {
                        assert(before[i] == looks[i]);
                    }
                }
            }
        }
        if forall|i: int| 0 <= i < looks.len() ==> !due(start.deadline, looks[i].0, looks[i].1) {
            assert forall|i: int| 0 <= i < before.len() implies !due(
                start.deadline,
                before[i].0,
                before[i].1,
            ) by {
                assert(before[i] == looks[i]);
            }
            assert(looks[looks.len() - 1] == looks.last());
        }
    }
}

/// The frames that have arrived by some point of a sequence of events are
/// the first of all its frames.
proof fn lemma_arrived_prefix(events: Seq<RelayEvent>, n: int)
    requires
        0 <= n <= events.len(),
    ensures
        arrived(events.take(n)).len() <= arrived(events).len(),
        arrived(events.take(n)) == arrived(events).take(arrived(events.take(n)).len() as int),
    decreases events.len(),
{
    if n == events.len() {
        assert(events.take(n) =~= events);
        assert(arrived(events).take(arrived(events).len() as int) =~= arrived(events));
    } else {
        let before = events.drop_last();
        assert(before.take(n) =~= events.take(n));
        lemma_arrived_prefix(before, n);
        let k = arrived(events.take(n)).len() as int;
        assert(arrived(events).take(k) =~= arrived(before).take(k));
    }
}

/// The first of a sequence of items hold no more bytes of a kind than all
/// of them.
proof fn lemma_stream_prefix(items: Seq<Tagged>, k: int, kind: StreamKind)
    requires
        0 <= k <= items.len(),
    ensures
        stream(items.take(k), kind).len() <= stream(items, kind).len(),
{
    assert(items =~= items.take(k) + items.skip(k));
    lemma_stream_concat(items.take(k), items.skip(k), kind);
}

/// What one more event adds to the frames that have arrived.
proof fn lemma_arrived_next(events: Seq<RelayEvent>, n: int)
    requires
        0 <= n < events.len(),
    ensures
        arrived(events.take(n + 1)) == match events[n] {
            RelayEvent::Arrival(_, frame) => arrived(events.take(n)).push(frame),
            RelayEvent::Check(_, _) => arrived(events.take(n)),
        },
        last_arrival(events.take(n + 1)) == match events[n] {
            RelayEvent::Arrival(now, _) => Some(now),
            RelayEvent::Check(_, _) => last_arrival(events.take(n)),
        },
{
    let next = events.take(n + 1);
    assert(next.drop_last() =~= events.take(n));
    assert(next.last() == events[n]);
}

/// What one more event adds to a run.
proof fn lemma_run_next(start: RelayState, events: Seq<RelayEvent>, n: int)
    requires
        0 <= n < events.len(),
    ensures
        start.run(events.take(n + 1)) == (
            start.run(events.take(n)).0.step(events[n]).0,
            start.run(events.take(n)).1 + emitted(start.run(events.take(n)).0.step(events[n]).1),
        ),
{
    let next = events.take(n + 1);
    assert(next.drop_last() =~= events.take(n));
    assert(next.last() == events[n]);
}

/// Where a burst of frames of one kind stands after its first `n` events:
/// nothing has arrived; or all that has arrived is gathered and waits for
/// the deadline that the last frame set; or it has left as one datagram,
/// and no further frame can follow.
spec fn burst_stands(start: RelayState, events: Seq<RelayEvent>, kind: StreamKind, n: int) -> bool {
    let (end, sent) = start.run(events.take(n));
    let frames = arrived(events.take(n));
    let bytes = stream(frames, kind);
    if frames.len() == 0 {
        &&& last_arrival(events.take(n)) is None
        &&& end.buffered == Buffered::idle()
        &&& sent == Seq::<Tagged>::empty()
    } else {
        &&& last_arrival(events.take(n)) matches Some(last)
        &&& {
            ||| {
                &&& end.buffered == (Buffered { kind: Some(kind), bytes })
                &&& sent == Seq::<Tagged>::empty()
                &&& end.deadline == last + TICK_DURATION
            }
            ||| {
                &&& end.buffered == Buffered::idle()
                &&& sent == seq![Tagged { kind, bytes }]
                &&& (frames.len() == arrived(events).len() || checked_late(events, n, last))
            }
        }
    }
}

/// Whether one of the first `n` events is a check made an idle interval or
/// more after `last`.
spec fn checked_late(events: Seq<RelayEvent>, n: int, last: int) -> bool {
    exists|m: int|
        0 <= m < n && m < events.len() && (#[trigger] events[m]) is Check && last + TICK_DURATION
            <= events[m].time()
}

/// A burst stands as `burst_stands` says after each of its events.
proof fn lemma_burst_stands(start: RelayState, events: Seq<RelayEvent>, kind: StreamKind, n: int)
    requires
        start.buffered == Buffered::idle(),
        in_time_order(events),
        in_one_burst(events),
        forall|i: int|
            0 <= i < events.len() ==> (#[trigger] events[i] matches RelayEvent::Arrival(_, frame)
                ==> frame.kind == kind),
        arrived(events).len() > 0,
        stream(arrived(events).drop_last(), kind).len() < MAX_UDP_BUFFER_SIZE,
        0 <= n <= events.len(),
    ensures
        burst_stands(start, events, kind, n),
    decreases n,
{
    if n == 0 {
        assert(events.take(0) =~= Seq::<RelayEvent>::empty());
    } else {
        let m = n - 1;
        lemma_burst_stands(start, events, kind, m);
        lemma_arrived_next(events, m);
        lemma_run_next(start, events, m);
        let (mid, sent) = start.run(events.take(m));
        let frames = arrived(events.take(m));
        let bytes = stream(frames, kind);
        let event = events[m];
        let (end, out) = mid.step(event);
        match event {
            RelayEvent::Arrival(now, frame) => {
                let more = frames.push(frame);
                assert(frame.kind == kind);
                assert(more.drop_last() =~= frames);
                assert(more.last() == frame);
                assert(stream(more, kind) == bytes + frame.bytes);
                lemma_arrived_prefix(events, n);
                if frames.len() == 0 {
                    assert(bytes =~= Seq::<u8>::empty());
                    assert(end.buffered =~= (Buffered {
                        kind: Some(kind),
                        bytes: stream(more, kind),
                    }));
                    assert(sent + emitted(out) =~= Seq::<Tagged>::empty());
                } else {
                    let last = last_arrival(events.take(m)).unwrap();
                    assert(now < last + TICK_DURATION);
                    if mid.buffered.kind is Some {
                        if 1 + stream(more, kind).len() > MAX_UDP_BUFFER_SIZE {
                            if more.len() < arrived(events).len() {
                                let rest = arrived(events).drop_last();
                                assert(more =~= rest.take(more.len() as int));
                                lemma_stream_prefix(rest, more.len() as int, kind);
                            }
                            assert(sent + emitted(out) =~= seq![
                                Tagged { kind, bytes: stream(more, kind) },
                            ]);
                        } else {
                            assert(sent + emitted(out) =~= Seq::<Tagged>::empty());
                        }
                    } else {
                        // The burst had left: no frame can follow.
                        if checked_late(events, m, last) {
                            let c = choose|c: int|
                                0 <= c < m && c < events.len() && (#[trigger] events[c]) is Check
                                    && last + TICK_DURATION <= events[c].time();
                            assert(events[c].time() <= events[m].time());
                        }
                    }
                }
            },
            RelayEvent::Check(observed, now) => {
                if frames.len() == 0 {
                    assert(end.buffered =~= Buffered::idle());
                    assert(sent + emitted(out) =~= Seq::<Tagged>::empty());
                } else {
                    let last = last_arrival(events.take(m)).unwrap();
                    if mid.buffered.kind is Some {
                        if due(mid.deadline, observed, now) {
                            assert(events[m] is Check && last + TICK_DURATION <= events[m].time());
                            assert(checked_late(events, n, last));
                            assert(sent + emitted(out) =~= seq![Tagged { kind, bytes }]);
                        } else {
                            assert(sent + emitted(out) =~= Seq::<Tagged>::empty());
                        }
                    } else {
                        assert(end.buffered =~= Buffered::idle());
                        assert(sent + emitted(out) =~= sent);
                        if checked_late(events, m, last) {
                            let c = choose|c: int|
                                0 <= c < m && c < events.len() && (#[trigger] events[c]) is Check
                                    && last + TICK_DURATION <= events[c].time();
                            assert(0 <= c < n && events[c] is Check);
                            assert(checked_late(events, n, last));
                        }
                    }
                }
            },
        }
    }
}

/// A burst leaves as one datagram. Take frames of one kind that start from
/// nothing gathered, each of which follows the one before it by less than
/// the idle interval, and of which those before the last leave the buffer
/// short of full. Once a check has been made an idle interval or more
/// after the last of them, with the deadline read as it then stands,
/// exactly one datagram has been sent, whatever checks were made on the way: it holds the bytes of all the frames in
/// their order. Frames whose bytes together are fewer than a datagram may
/// hold are of this sort, and so are frames that only the last one brings
/// to that number or beyond it. Where the frames before the last fill the
/// buffer already, it has left before the last one comes.
pub proof fn lemma_burst_is_one_datagram(
    start: RelayState,
    events: Seq<RelayEvent>,
    kind: StreamKind,
)
    requires
        start.buffered == Buffered::idle(),
        in_time_order(events),
        in_one_burst(events),
        forall|i: int|
            0 <= i < events.len() ==> (#[trigger] events[i] matches RelayEvent::Arrival(_, frame)
                ==> frame.kind == kind),
        arrived(events).len() > 0,
        stream(arrived(events).drop_last(), kind).len() < MAX_UDP_BUFFER_SIZE,
        events.len() > 0,
        events.last() matches RelayEvent::Check(observed, now) && (last_arrival(events) matches Some(
            last,
        ) && last + TICK_DURATION <= now && observed == start.run(events.drop_last()).0.deadline),
    ensures
        start.run(events).0.buffered == Buffered::idle(),
        start.run(events).1 == seq![Tagged { kind, bytes: stream(arrived(events), kind) }],
{
    let m = events.len() - 1;
    lemma_burst_stands(start, events, kind, m);
    lemma_arrived_next(events, m);
    lemma_run_next(start, events, m);
    assert(events.take(m + 1) =~= events);
    let (mid, sent) = start.run(events.take(m));
    let (end, out) = mid.step(events[m]);
    if mid.buffered.kind is Some {
        assert(sent + emitted(out) =~= seq![Tagged { kind, bytes: stream(arrived(events), kind) }]);
    } else {
        assert(end.buffered =~= Buffered::idle());
        assert(sent + emitted(out) =~= sent);
    }
}

/// Every frame that has arrived came with one of the events.
proof fn lemma_arrived_came(events: Seq<RelayEvent>, j: int)
    requires
        0 <= j < arrived(events).len(),
    ensures
        exists|i: int|
            0 <= i < events.len() && (#[trigger] events[i] matches RelayEvent::Arrival(_, frame)
                && frame == arrived(events)[j]),
    decreases events.len(),
{
    let before = events.drop_last();
    let at_end = events.len() - 1;
    match events.last() {
        RelayEvent::Arrival(_, frame) => {
            if j == arrived(events).len() - 1 {
                assert(events[at_end] matches RelayEvent::Arrival(_, f) && f == arrived(
                    events,
                )[j]);
            } else {
                lemma_arrived_came(before, j);
                let i = choose|i: int|
                    0 <= i < before.len() && (#[trigger] before[i] matches RelayEvent::Arrival(
                        _,
                        f,
                    ) && f == arrived(before)[j]);
                assert(events[i] == before[i]);
            }
        },
        RelayEvent::Check(_, _) => {
            lemma_arrived_came(before, j);
            let i = choose|i: int|
                0 <= i < before.len() && (#[trigger] before[i] matches RelayEvent::Arrival(_, f)
                    && f == arrived(before)[j]);
            assert(events[i] == before[i]);
        },
    }
}

/// A burst within the limit leaves as one datagram. Frames of one kind
/// that start from nothing gathered, each with at least one byte, each
/// following the one before it by less than the idle interval, and with no
/// more bytes together than a datagram may be long, are sent as exactly one
/// datagram, which holds their bytes in their order.
pub proof fn lemma_burst_within_limit_is_one_datagram(
    start: RelayState,
    events: Seq<RelayEvent>,
    kind: StreamKind,
)
    requires
        start.buffered == Buffered::idle(),
        in_time_order(events),
        in_one_burst(events),
        forall|i: int|
            0 <= i < events.len() ==> (#[trigger] events[i] matches RelayEvent::Arrival(_, frame)
                ==> frame.kind == kind && frame.bytes.len() > 0),
        arrived(events).len() > 0,
        stream(arrived(events), kind).len() <= MAX_UDP_BUFFER_SIZE,
        events.len() > 0,
        events.last() matches RelayEvent::Check(observed, now) && (last_arrival(events) matches Some(
            last,
        ) && last + TICK_DURATION <= now && observed == start.run(events.drop_last()).0.deadline),
    ensures
        start.run(events).0.buffered == Buffered::idle(),
        start.run(events).1 == seq![Tagged { kind, bytes: stream(arrived(events), kind) }],
{
    let frames = arrived(events);
    lemma_arrived_came(events, frames.len() - 1);
    let i = choose|i: int|
        0 <= i < events.len() && (#[trigger] events[i] matches RelayEvent::Arrival(_, frame)
            && frame == frames[frames.len() - 1]);
    assert(frames.last().kind == kind && frames.last().bytes.len() > 0);
    lemma_burst_is_one_datagram(start, events, kind);
}

/// The relay keeps the order within each kind: the bytes of a kind in the
/// datagrams sent, followed by those still gathered, are the bytes that
/// were gathered at the start followed by those of the frames that
/// arrived, in the order of arrival, whenever the checks were made.
pub proof fn lemma_relay_keeps_order(start: RelayState, events: Seq<RelayEvent>, kind: StreamKind)
    requires
        start.buffered.wf(),
    ensures
        start.run(events).0.buffered.wf(),
        stream(start.run(events).1, kind) + start.run(events).0.buffered.pending(kind)
            == start.buffered.pending(kind) + stream(arrived(events), kind),
    decreases events.len(),
{
    if events.len() == 0 {
        assert(stream(Seq::<Tagged>::empty(), kind) =~= Seq::<u8>::empty());
        assert(arrived(events) =~= Seq::<Tagged>::empty());
        assert(Seq::<u8>::empty() + start.buffered.pending(kind) =~= start.buffered.pending(kind)
            + Seq::<u8>::empty());
    } else {
        let before = events.drop_last();
        lemma_relay_keeps_order(start, before, kind);
        let (mid, sent) = start.run(before);
        let (end, out) = mid.step(events.last());
        let known = stream(arrived(before), kind);
        // What the relay does to its buffer is a push, a tick or nothing.
        let fresh: Seq<u8> = match events.last() {
            RelayEvent::Arrival(_, frame) => {
                lemma_step_keeps_order(mid.buffered, Event::Push(frame), kind);
                assert(arrived(events).drop_last() =~= arrived(before));
                assert(arrived(events).last() == frame);
                brought(Event::Push(frame), kind)
            },
            RelayEvent::Check(observed, now) => {
                if due(mid.deadline, observed, now) {
                    lemma_step_keeps_order(mid.buffered, Event::Tick, kind);
                } else {
                    assert(stream(Seq::<Tagged>::empty(), kind) =~= Seq::<u8>::empty());
                    assert(Seq::<u8>::empty() + mid.buffered.pending(kind)
                        =~= mid.buffered.pending(kind) + Seq::<u8>::empty());
                }
                Seq::empty()
            },
        };
        assert(stream(arrived(events), kind) =~= known + fresh);
        lemma_stream_concat(sent, emitted(out), kind);
        lemma_accounts_join(
            stream(sent, kind),
            stream(emitted(out), kind),
            end.buffered.pending(kind),
            mid.buffered.pending(kind),
            start.buffered.pending(kind),
            known,
            fresh,
        );
    }
}

} // verus!
