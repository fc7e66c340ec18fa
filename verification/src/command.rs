//! The stream proxy's decisions: what to do with each read from a stream,
//! and what exit code a finished child stands for.

use vstd::prelude::*;
use crate::communicator::{Message, StreamKind, Tagged, DATA_BUFFER_SIZE};
use crate::model::stream;

verus! {

/// The sending half of tokio's broadcast channel, which serves as the frame
/// bus. Nothing is known of what it holds.
#[verifier::external_type_specification]
#[verifier::external_body]
#[verifier::reject_recursive_types(T)]
pub struct ExSender<T>(tokio::sync::broadcast::Sender<T>);

/// How a read from a stream ended.
#[derive(Debug, Clone, Copy)]
pub enum ReadOutcome {
    /// This many bytes now stand at the front of the buffer; none at the end
    /// of the stream.
    Read(usize),
    /// The read was interrupted before it got anything.
    Interrupted,
    /// The read failed.
    Failed,
}

/// What a proxy loop is to do after a read.
#[derive(Debug, Clone, Copy)]
pub enum ProxyAction {
    /// The stream has ended: end the loop.
    Stop,
    /// Read again.
    Retry,
    /// Write the bytes of this frame to the destination, then read again.
    Write(Message),
    /// The stream is broken: give up.
    Abort,
}

/// What follows a read on the stream `kind` that ended as `outcome` and
/// left its bytes in `buffer`.
pub open spec fn after_read(kind: StreamKind, buffer: Seq<u8>, outcome: ReadOutcome, action: ProxyAction) -> bool {
    match outcome {
        ReadOutcome::Read(n) => if n == 0 {
            action is Stop
        } else {
            action matches ProxyAction::Write(msg) && msg@ == (Tagged {
                kind,
                bytes: buffer.take(n as int),
            })
        },
        ReadOutcome::Interrupted => action is Retry,
        ReadOutcome::Failed => action is Abort,
    }
}

/// The frames that a proxy loop makes of the chunks it reads: one for each
/// chunk, of the loop's kind.
pub open spec fn frames_of(kind: StreamKind, chunks: Seq<Seq<u8>>) -> Seq<Tagged> {
    Seq::new(chunks.len(), |i: int| Tagged { kind, bytes: chunks[i] })
}

/// The frames of a proxy loop carry what it read, byte for byte and in the
/// order of reading, and nothing of any other kind. The same bytes are
/// what the loop writes to its destination.
pub proof fn lemma_frames_keep_order(kind: StreamKind, chunks: Seq<Seq<u8>>, other: StreamKind)
    ensures
        stream(frames_of(kind, chunks), kind) == chunks.flatten(),
        other != kind ==> stream(frames_of(kind, chunks), other) == Seq::<u8>::empty(),
    decreases chunks.len(),
{
    chunks.lemma_flatten_and_flatten_alt_are_equivalent();
    let frames = frames_of(kind, chunks);
    if chunks.len() > 0 {
        let before = chunks.drop_last();
        before.lemma_flatten_and_flatten_alt_are_equivalent();
        assert(frames.drop_last() =~= frames_of(kind, before));
        assert(frames.last() == Tagged { kind, bytes: chunks.last() });
        lemma_frames_keep_order(kind, before, other);
    }
}

/// Hands `frame` to `tokio::sync::broadcast::Sender::send`, which queues it
/// for every receiver subscribed at that moment and fails only when there
/// is none. Nothing is claimed of either outcome.
#[verifier::external_body]
fn publish(sender: &tokio::sync::broadcast::Sender<Message>, frame: Message) {
    let _ = sender.send(frame);
}

/// Decides what follows a read on the stream `kind`. Bytes that were read
/// become a frame, which is published on `sender` and handed back for
/// writing; a publication that reaches nobody is no failure.
pub fn proxy_step(
    kind: StreamKind,
    buffer: &[u8; DATA_BUFFER_SIZE],
    outcome: ReadOutcome,
    sender: &tokio::sync::broadcast::Sender<Message>,
) -> (action: ProxyAction)
    requires
        outcome matches ReadOutcome::Read(n) ==> n <= DATA_BUFFER_SIZE,
    ensures
        after_read(kind, buffer@, outcome, action),
{
    match outcome {
        ReadOutcome::Read(n) => {
            if n == 0 {
                ProxyAction::Stop
            } else {
                let data_chunk = vstd::slice::slice_subrange(buffer.as_slice(), 0, n);
                let msg = Message::new(kind, data_chunk);
                publish(sender, msg);
                ProxyAction::Write(msg)
            }
        },
        ReadOutcome::Interrupted => ProxyAction::Retry,
        ReadOutcome::Failed => ProxyAction::Abort,
    }
}

/// The exit code that a finished child stands for: its own, or 0 where it
/// left none.
pub fn exit_code(status: Option<i32>) -> (code: i32)
    ensures
        code == match status {
            Some(own) => own,
            None => 0,
        },
{
    match status {
        Some(own) => own,
        None => 0,
    }
}

} // verus!
