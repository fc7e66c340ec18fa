//! What holds of the batching relay over whole sequences of events.

use vstd::prelude::*;
use crate::communicator::{StreamKind, Tagged, DATA_BUFFER_SIZE};
use crate::model::{emitted, pushed, pushes, stream, wire, Buffered, Event, MAX_UDP_BUFFER_SIZE};

verus! {

/// A datagram tells its kind and its bytes: two runs of bytes that go out
/// as the same datagram are the same.
pub proof fn lemma_wire_reads_back(a: Tagged, b: Tagged)
    requires
        wire(a) == wire(b),
    ensures
        a == b,
{
    assert(wire(a)[0] == a.kind.tag_spec());
    assert(wire(b)[0] == b.kind.tag_spec());
    assert(wire(a).skip(1) =~= a.bytes);
    assert(wire(b).skip(1) =~= b.bytes);
}

/// A run of one event is that event's step.
pub proof fn lemma_run_one(start: Buffered, event: Event)
    ensures
        start.run(seq![event]) == (start.step(event).0, emitted(start.step(event).1)),
{
    let events = seq![event];
    assert(events.drop_last() =~= Seq::<Event>::empty());
    assert(start.run(events.drop_last()) == (start, Seq::<Tagged>::empty()));
    assert(events.last() == event);
    assert(Seq::<Tagged>::empty() + emitted(start.step(event).1) =~= emitted(start.step(event).1));
}

/// Running two sequences of events one after the other is running them
/// joined.
pub proof fn lemma_run_concat(start: Buffered, first: Seq<Event>, second: Seq<Event>)
    ensures
        start.run(first + second) == (
            start.run(first).0.run(second).0,
            start.run(first).1 + start.run(first).0.run(second).1,
        ),
    decreases second.len(),
{
    let (mid, sent) = start.run(first);
    if second.len() == 0 {
        assert(first + second =~= first);
        assert(sent + mid.run(second).1 =~= sent);
    } else {
        assert((first + second).drop_last() =~= first + second.drop_last());
        assert((first + second).last() == second.last());
        lemma_run_concat(start, first, second.drop_last());
        let (before, sent2) = mid.run(second.drop_last());
        let (end, out) = before.step(second.last());
        assert(sent + (sent2 + emitted(out)) =~= (sent + sent2) + emitted(out));
    }
}

/// Frames of one kind that together fit into a datagram gather in the
/// buffer, and none of them sends anything off.
pub proof fn lemma_frames_gather(start: Buffered, frames: Seq<Tagged>, kind: StreamKind)
    requires
        start.wf(),
        start.kind is None || start.kind == Some(kind),
        frames.len() > 0,
        forall|i: int| 0 <= i < frames.len() ==> (#[trigger] frames[i]).kind == kind,
        1 + start.bytes.len() + stream(frames, kind).len() <= MAX_UDP_BUFFER_SIZE,
    ensures
        start.run(pushes(frames)) == (
            Buffered { kind: Some(kind), bytes: start.bytes + stream(frames, kind) },
            Seq::<Tagged>::empty(),
        ),
    decreases frames.len(),
{
    let events = pushes(frames);
    let rest = frames.drop_last();
    assert(events.drop_last() =~= pushes(rest));
    assert(events.last() == Event::Push(frames.last()));
    assert(frames.last().kind == kind);
    if rest.len() == 0 {
        assert(start.run(pushes(rest)) == (start, Seq::<Tagged>::empty()));
        assert(stream(rest, kind) =~= Seq::<u8>::empty());
        assert(start.bytes + frames.last().bytes =~= start.bytes + stream(frames, kind));
    } else {
        lemma_frames_gather(start, rest, kind);
        assert((start.bytes + stream(rest, kind)) + frames.last().bytes =~= start.bytes + stream(
            frames,
            kind,
        ));
    }
    assert(Seq::<Tagged>::empty() + emitted(None) =~= Seq::<Tagged>::empty());
}

/// The frame that makes the buffer longer than a datagram may be sends it
/// off at once, with every byte gathered so far, and leaves nothing
/// gathered.
pub proof fn lemma_full_buffer_leaves_at_once(frames: Seq<Tagged>, kind: StreamKind)
    requires
        frames.len() > 0,
        forall|i: int| 0 <= i < frames.len() ==> (#[trigger] frames[i]).kind == kind,
        forall|i: int| 0 <= i < frames.len() ==> (#[trigger] frames[i]).bytes.len() <= DATA_BUFFER_SIZE,
        1 + stream(frames.drop_last(), kind).len() <= MAX_UDP_BUFFER_SIZE,
        1 + stream(frames, kind).len() > MAX_UDP_BUFFER_SIZE,
    ensures
        Buffered::idle().run(pushes(frames)) == (
            Buffered::idle(),
            seq![Tagged { kind, bytes: stream(frames, kind) }],
        ),
{
    let start = Buffered::idle();
    let events = pushes(frames);
    let rest = frames.drop_last();
    assert(events.drop_last() =~= pushes(rest));
    assert(events.last() == Event::Push(frames.last()));
    assert(frames.last().kind == kind);
    assert(frames.last().bytes.len() <= DATA_BUFFER_SIZE);
    if rest.len() == 0 {
        assert(stream(rest, kind) =~= Seq::<u8>::empty());
    } else {
        assert forall|i: int| 0 <= i < rest.len() implies (#[trigger] rest[i]).kind == kind by {
            assert(rest[i] == frames[i]);
        }
        lemma_frames_gather(start, rest, kind);
        assert((start.bytes + stream(rest, kind)) + frames.last().bytes =~= stream(frames, kind));
        assert(Seq::<Tagged>::empty() + emitted(Some(Tagged { kind, bytes: stream(frames, kind) }))
            =~= seq![Tagged { kind, bytes: stream(frames, kind) }]);
    }
}

/// Bytes of different kinds never share a datagram: where frames of one
/// kind arrive while another kind is gathered, what was gathered leaves
/// first and alone, and the new frames leave by themselves at the idle
/// timeout.
pub proof fn lemma_kinds_leave_apart(start: Buffered, frames: Seq<Tagged>, kind: StreamKind)
    requires
        start.kind is Some,
        start.kind != Some(kind),
        frames.len() > 0,
        forall|i: int| 0 <= i < frames.len() ==> (#[trigger] frames[i]).kind == kind,
        1 + stream(frames, kind).len() <= MAX_UDP_BUFFER_SIZE,
    ensures
        start.run(pushes(frames) + seq![Event::Tick]) == (
            Buffered::idle(),
            seq![
                Tagged { kind: start.kind.unwrap(), bytes: start.bytes },
                Tagged { kind, bytes: stream(frames, kind) },
            ],
        ),
{
    let former = Tagged { kind: start.kind.unwrap(), bytes: start.bytes };
    let latter = Tagged { kind, bytes: stream(frames, kind) };
    let head = frames.take(1);
    let tail = frames.skip(1);
    assert(frames =~= head + tail);
    assert(pushes(frames) =~= pushes(head) + pushes(tail));
    // The first frame sends off what was gathered.
    let first = Buffered { kind: Some(kind), bytes: frames[0].bytes };
    assert(start.run(pushes(head)) == (first, seq![former])) by {
        assert(pushes(head) =~= seq![Event::Push(frames[0])]);
        assert(frames[0].kind == kind);
        lemma_run_one(start, Event::Push(frames[0]));
    }
    lemma_stream_concat(head, tail, kind);
    assert(stream(head, kind) =~= frames[0].bytes) by {
        assert(head.drop_last() =~= Seq::<Tagged>::empty());
        assert(head.last() == frames[0]);
        assert(stream(head.drop_last(), kind) =~= Seq::<u8>::empty());
    }
    // The others join it.
    let gathered = Buffered { kind: Some(kind), bytes: stream(frames, kind) };
    if tail.len() == 0 {
        assert(stream(tail, kind) =~= Seq::<u8>::empty());
        assert(first =~= gathered);
        assert(first.run(pushes(tail)) == (gathered, Seq::<Tagged>::empty()));
    } else {
        assert forall|i: int| 0 <= i < tail.len() implies (#[trigger] tail[i]).kind == kind by {
            assert(tail[i] == frames[i + 1]);
        }
        lemma_frames_gather(first, tail, kind);
    }
    lemma_run_concat(start, pushes(head), pushes(tail));
    assert(seq![former] + Seq::<Tagged>::empty() =~= seq![former]);
    assert(start.run(pushes(frames)) == (gathered, seq![former]));
    // The idle timeout sends them off.
    let tick = seq![Event::Tick];
    assert(gathered.run(tick) == (Buffered::idle(), seq![latter])) by {
        lemma_run_one(gathered, Event::Tick);
    }
    lemma_run_concat(start, pushes(frames), tick);
    assert(seq![former] + seq![latter] =~= seq![former, latter]);
}

/// The bytes of one kind in two sequences joined are those of the first
/// followed by those of the second.
pub proof fn lemma_stream_concat(first: Seq<Tagged>, second: Seq<Tagged>, kind: StreamKind)
    ensures
        stream(first + second, kind) == stream(first, kind) + stream(second, kind),
    decreases second.len(),
{
    if second.len() == 0 {
        assert(first + second =~= first);
        assert(stream(first, kind) + stream(second, kind) =~= stream(first, kind));
    } else {
        assert((first + second).drop_last() =~= first + second.drop_last());
        assert((first + second).last() == second.last());
        lemma_stream_concat(first, second.drop_last(), kind);
        if second.last().kind == kind {
            assert((stream(first, kind) + stream(second.drop_last(), kind)) + second.last().bytes
                =~= stream(first, kind) + (stream(second.drop_last(), kind) + second.last().bytes));
        }
    }
}

/// The bytes of one kind in a single item.
proof fn lemma_stream_one(item: Tagged, kind: StreamKind)
    ensures
        stream(seq![item], kind) == if item.kind == kind {
            item.bytes
        } else {
            Seq::empty()
        },
{
    let items = seq![item];
    assert(items.drop_last() =~= Seq::<Tagged>::empty());
    assert(stream(items.drop_last(), kind) =~= Seq::<u8>::empty());
    assert(items.last() == item);
    if item.kind == kind {
        assert(Seq::<u8>::empty() + item.bytes =~= item.bytes);
    }
}

/// The bytes of `kind` that `event` brings.
pub open spec fn brought(event: Event, kind: StreamKind) -> Seq<u8> {
    match event {
        Event::Push(frame) => if frame.kind == kind {
            frame.bytes
        } else {
            Seq::empty()
        },
        Event::Tick => Seq::empty(),
    }
}

/// One event neither loses, doubles nor moves a byte of any kind.
pub proof fn lemma_step_keeps_order(state: Buffered, event: Event, kind: StreamKind)
    requires
        state.wf(),
    ensures
        state.step(event).0.wf(),
        stream(emitted(state.step(event).1), kind) + state.step(event).0.pending(kind)
            == state.pending(kind) + brought(event, kind),
{
    let (end, out) = state.step(event);
    match out {
        Some(run) => {
            lemma_stream_one(run, kind);
        },
        None => {
            assert(stream(Seq::<Tagged>::empty(), kind) =~= Seq::<u8>::empty());
        },
    }
    assert(stream(emitted(out), kind) + end.pending(kind) =~= state.pending(kind) + brought(
        event,
        kind,
    ));
}

/// The bytes of one kind among the frames of `events` end with those that
/// the last event brings.
proof fn lemma_pushed_last(events: Seq<Event>, kind: StreamKind)
    requires
        events.len() > 0,
    ensures
        stream(pushed(events), kind) == stream(pushed(events.drop_last()), kind) + brought(
            events.last(),
            kind,
        ),
{
    let before = stream(pushed(events.drop_last()), kind);
    match events.last() {
        Event::Push(frame) => {
            assert(pushed(events).drop_last() =~= pushed(events.drop_last()));
            assert(pushed(events).last() == frame);
            if frame.kind != kind {
                assert(before + Seq::<u8>::empty() =~= before);
            }
        },
        Event::Tick => {
            assert(before + Seq::<u8>::empty() =~= before);
        },
    }
}

/// Two accounts of bytes, one for a run and one for the step after it,
/// make one account for both.
pub proof fn lemma_accounts_join(
    sent: Seq<u8>,
    gone: Seq<u8>,
    left: Seq<u8>,
    mid: Seq<u8>,
    first: Seq<u8>,
    known: Seq<u8>,
    fresh: Seq<u8>,
)
    requires
        sent + mid == first + known,
        gone + left == mid + fresh,
    ensures
        (sent + gone) + left == first + (known + fresh),
{
    assert((sent + gone) + left =~= sent + (gone + left));
    assert(sent + (mid + fresh) =~= (sent + mid) + fresh);
    assert((first + known) + fresh =~= first + (known + fresh));
}

/// Within one kind no byte is lost, doubled or moved: the bytes of that
/// kind in the datagrams sent, followed by those still gathered, are the
/// bytes that were gathered at the start followed by those of the frames
/// that arrived, in the order of arrival.
pub proof fn lemma_order_within_kind(start: Buffered, events: Seq<Event>, kind: StreamKind)
    requires
        start.wf(),
    ensures
        start.run(events).0.wf(),
        stream(start.run(events).1, kind) + start.run(events).0.pending(kind) == start.pending(
            kind,
        ) + stream(pushed(events), kind),
    decreases events.len(),
{
    if events.len() == 0 {
        assert(stream(Seq::<Tagged>::empty(), kind) =~= Seq::<u8>::empty());
        assert(pushed(events) =~= Seq::<Tagged>::empty());
        assert(Seq::<u8>::empty() + start.pending(kind) =~= start.pending(kind) + Seq::<
            u8,
        >::empty());
    } else {
        let before = events.drop_last();
        lemma_order_within_kind(start, before, kind);
        let (mid, sent) = start.run(before);
        let (end, out) = mid.step(events.last());
        lemma_step_keeps_order(mid, events.last(), kind);
        lemma_pushed_last(events, kind);
        lemma_stream_concat(sent, emitted(out), kind);
        lemma_accounts_join(
            stream(sent, kind),
            stream(emitted(out), kind),
            end.pending(kind),
            mid.pending(kind),
            start.pending(kind),
            stream(pushed(before), kind),
            brought(events.last(), kind),
        );
    }
}

/// Whether what is gathered, with its tag byte, is no longer than a
/// datagram may be.
pub open spec fn fits(state: Buffered) -> bool {
    1 + state.bytes.len() <= MAX_UDP_BUFFER_SIZE
}

/// The buffer stays bounded: whatever arrives and whenever the idle timeout
/// goes off, what is gathered never stays longer than a datagram may be,
/// and no datagram is sent that is longer than that by more than one
/// frame.
pub proof fn lemma_size_is_bounded(start: Buffered, events: Seq<Event>)
    requires
        start.wf(),
        fits(start),
        forall|i: int|
            0 <= i < events.len() ==> (#[trigger] events[i] matches Event::Push(frame)
                ==> frame.bytes.len() <= DATA_BUFFER_SIZE),
    ensures
        start.run(events).0.wf(),
        fits(start.run(events).0),
        forall|j: int|
            0 <= j < start.run(events).1.len() ==> wire(#[trigger] start.run(events).1[j]).len()
                <= MAX_UDP_BUFFER_SIZE + DATA_BUFFER_SIZE,
    decreases events.len(),
{
    if events.len() > 0 {
        let before = events.drop_last();
        assert forall|i: int| 0 <= i < before.len() implies (#[trigger] before[i] matches Event::Push(
            frame,
        ) ==> frame.bytes.len() <= DATA_BUFFER_SIZE) by {
            assert(before[i] == events[i]);
        }
        lemma_size_is_bounded(start, before);
        assert(events.last() == events[events.len() - 1]);
        let (mid, sent) = start.run(before);
        let (end, out) = mid.step(events.last());
        let all = sent + emitted(out);
        assert forall|j: int| 0 <= j < all.len() implies wire(#[trigger] all[j]).len()
            <= MAX_UDP_BUFFER_SIZE + DATA_BUFFER_SIZE by {
            if j < sent.len() {
                assert(all[j] == sent[j]);
            } else {
                assert(all[j] == out.unwrap());
            }
        }
    }
}

/// While every frame that arrives carries at least one byte, a kind is
/// being gathered only while bytes of it are waiting.
pub proof fn lemma_gathered_is_nonempty(start: Buffered, events: Seq<Event>)
    requires
        start.wf(),
        start.kind is Some ==> start.bytes.len() > 0,
        forall|i: int|
            0 <= i < events.len() ==> (#[trigger] events[i] matches Event::Push(frame)
                ==> frame.bytes.len() > 0),
    ensures
        start.run(events).0.wf(),
        start.run(events).0.kind is Some ==> start.run(events).0.bytes.len() > 0,
    decreases events.len(),
{
    if events.len() > 0 {
        let before = events.drop_last();
        assert forall|i: int| 0 <= i < before.len() implies (#[trigger] before[i] matches Event::Push(
            frame,
        ) ==> frame.bytes.len() > 0) by {
            assert(before[i] == events[i]);
        }
        lemma_gathered_is_nonempty(start, before);
        assert(events.last() == events[events.len() - 1]);
    }
}

} // verus!
