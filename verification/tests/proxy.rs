use stdio_inspect::command::{exit_code, proxy_step, ProxyAction, ReadOutcome};
use stdio_inspect::communicator::{Message, StreamKind};
use tokio::sync::broadcast::channel;
use tokio::sync::broadcast::error::TryRecvError;

#[test]
fn end_of_stream_stops_the_loop() {
    let (tx, mut rx) = channel::<Message>(32);
    let buffer = [0u8; 8];
    let action = proxy_step(StreamKind::Stdout, &buffer, ReadOutcome::Read(0), &tx);
    assert!(matches!(action, ProxyAction::Stop));
    assert!(matches!(rx.try_recv(), Err(TryRecvError::Empty)));
}

#[test]
fn bytes_read_are_published_and_handed_back() {
    let (tx, mut rx) = channel::<Message>(32);
    let buffer = *b"abcdefgh";
    let action = proxy_step(StreamKind::Stderr, &buffer, ReadOutcome::Read(3), &tx);
    let expected = Message::new(StreamKind::Stderr, b"abc");
    match action {
        ProxyAction::Write(msg) => {
            assert_eq!(msg, expected);
            assert_eq!(msg.get_data(), b"abc");
        }
        other => panic!("unexpected action {:?}", other),
    }
    assert_eq!(rx.try_recv().unwrap(), expected);
    assert!(matches!(rx.try_recv(), Err(TryRecvError::Empty)));
}

#[test]
fn a_full_buffer_makes_a_full_frame() {
    let (tx, mut rx) = channel::<Message>(32);
    let buffer = *b"ABCDEFGH";
    let action = proxy_step(StreamKind::Stdout, &buffer, ReadOutcome::Read(8), &tx);
    match action {
        ProxyAction::Write(msg) => {
            assert_eq!(msg.kind(), StreamKind::Stdout);
            assert_eq!(msg.get_data(), b"ABCDEFGH");
        }
        other => panic!("unexpected action {:?}", other),
    }
    assert_eq!(rx.try_recv().unwrap().get_data(), b"ABCDEFGH");
}

#[test]
fn every_subscriber_gets_the_frame() {
    let (tx, mut first) = channel::<Message>(32);
    let mut second = tx.subscribe();
    let buffer = *b"hi\0\0\0\0\0\0";
    proxy_step(StreamKind::Stdin, &buffer, ReadOutcome::Read(2), &tx);
    let expected = Message::new(StreamKind::Stdin, b"hi");
    assert_eq!(first.try_recv().unwrap(), expected);
    assert_eq!(second.try_recv().unwrap(), expected);
}

#[test]
fn publishing_to_nobody_is_no_failure() {
    let (tx, rx) = channel::<Message>(32);
    drop(rx);
    let buffer = *b"12345678";
    let action = proxy_step(StreamKind::Stdout, &buffer, ReadOutcome::Read(5), &tx);
    match action {
        ProxyAction::Write(msg) => assert_eq!(msg.get_data(), b"12345"),
        other => panic!("unexpected action {:?}", other),
    }
}

#[test]
fn a_late_subscriber_gets_only_what_follows() {
    let (tx, _first) = channel::<Message>(32);
    let buffer = *b"12345678";
    proxy_step(StreamKind::Stdout, &buffer, ReadOutcome::Read(4), &tx);
    let mut late = tx.subscribe();
    proxy_step(StreamKind::Stdout, &buffer, ReadOutcome::Read(2), &tx);
    assert_eq!(late.try_recv().unwrap().get_data(), b"12");
    assert!(matches!(late.try_recv(), Err(TryRecvError::Empty)));
}

#[test]
fn a_slow_subscriber_loses_the_oldest_frames() {
    let (tx, mut rx) = channel::<Message>(2);
    for n in 1..=5u8 {
        let buffer = [n; 8];
        proxy_step(StreamKind::Stdout, &buffer, ReadOutcome::Read(1), &tx);
    }
    assert!(matches!(rx.try_recv(), Err(TryRecvError::Lagged(3))));
    assert_eq!(rx.try_recv().unwrap().get_data(), &[4u8]);
    assert_eq!(rx.try_recv().unwrap().get_data(), &[5u8]);
}

#[test]
fn an_interrupted_read_is_tried_again() {
    let (tx, mut rx) = channel::<Message>(32);
    let buffer = [0u8; 8];
    let action = proxy_step(StreamKind::Stdin, &buffer, ReadOutcome::Interrupted, &tx);
    assert!(matches!(action, ProxyAction::Retry));
    assert!(matches!(rx.try_recv(), Err(TryRecvError::Empty)));
}

#[test]
fn a_failed_read_gives_up() {
    let (tx, mut rx) = channel::<Message>(32);
    let buffer = [0u8; 8];
    let action = proxy_step(StreamKind::Stdin, &buffer, ReadOutcome::Failed, &tx);
    assert!(matches!(action, ProxyAction::Abort));
    assert!(matches!(rx.try_recv(), Err(TryRecvError::Empty)));
}

#[test]
fn chunks_of_one_stream_arrive_in_reading_order() {
    let (tx, mut rx) = channel::<Message>(32);
    let text = b"ABCDEFGHIJ";
    let mut written = Vec::new();
    for chunk in text.chunks(8) {
        let mut buffer = [0u8; 8];
        buffer[..chunk.len()].copy_from_slice(chunk);
        match proxy_step(StreamKind::Stdout, &buffer, ReadOutcome::Read(chunk.len()), &tx) {
            ProxyAction::Write(msg) => written.extend_from_slice(msg.get_data()),
            other => panic!("unexpected action {:?}", other),
        }
    }
    assert_eq!(written, text);
    let first = rx.try_recv().unwrap();
    let second = rx.try_recv().unwrap();
    assert_eq!(first.get_data().len(), 8);
    assert_eq!(second.get_data().len(), 2);
    assert_eq!(first.get_data(), b"ABCDEFGH");
    assert_eq!(second.get_data(), b"IJ");
}

#[test]
fn the_child_exit_code_is_handed_on() {
    assert_eq!(exit_code(Some(7)), 7);
    assert_eq!(exit_code(Some(0)), 0);
    assert_eq!(exit_code(Some(-1)), -1);
    assert_eq!(exit_code(Some(255)), 255);
}

#[test]
fn a_child_without_exit_code_counts_as_zero() {
    assert_eq!(exit_code(None), 0);
}
