use stdio_inspect::communicator::{Message, StreamKind};
use stdio_inspect::model::{CHECK_INTERVAL, MAX_UDP_BUFFER_SIZE, TICK_DURATION};
use stdio_inspect::sender::{
    clock, clock_time, Accumulator, Received, Relay, RelayAction, Ticker, ACCUMULATOR_CAPACITY,
};
use tokio::time::Instant;

fn datagram(tag: u8, bytes: &[u8]) -> Vec<u8> {
    let mut all = vec![tag];
    all.extend_from_slice(bytes);
    all
}

fn sent(action: RelayAction) -> Option<Vec<u8>> {
    match action {
        RelayAction::Send(datagram) => Some(datagram),
        RelayAction::Wait => None,
        RelayAction::Stop => panic!("the relay stopped"),
    }
}

#[test]
fn limits_have_their_values() {
    assert_eq!(MAX_UDP_BUFFER_SIZE, 32768);
    assert_eq!(TICK_DURATION, 500);
    assert_eq!(CHECK_INTERVAL, 50);
    assert_eq!(ACCUMULATOR_CAPACITY, 32);
}

#[test]
fn tick_on_a_new_accumulator_sends_nothing() {
    let mut acc = Accumulator::new();
    assert_eq!(acc.tick(), None);
    assert_eq!(acc.tick(), None);
}

#[test]
fn first_frame_is_gathered() {
    let mut acc = Accumulator::new();
    assert_eq!(acc.push(Message::new(StreamKind::Stdout, b"hello")), None);
    assert_eq!(acc.tick(), Some(datagram(1, b"hello")));
}

#[test]
fn frames_of_one_kind_leave_together() {
    let mut acc = Accumulator::new();
    assert_eq!(acc.push(Message::new(StreamKind::Stdin, b"ab")), None);
    assert_eq!(acc.push(Message::new(StreamKind::Stdin, b"cde")), None);
    assert_eq!(acc.push(Message::new(StreamKind::Stdin, b"f")), None);
    assert_eq!(acc.tick(), Some(datagram(0, b"abcdef")));
}

#[test]
fn tick_sends_once() {
    let mut acc = Accumulator::new();
    assert_eq!(acc.push(Message::new(StreamKind::Stderr, b"oops")), None);
    assert_eq!(acc.tick(), Some(datagram(2, b"oops")));
    assert_eq!(acc.tick(), None);
    assert_eq!(acc.push(Message::new(StreamKind::Stderr, b"again")), None);
    assert_eq!(acc.tick(), Some(datagram(2, b"again")));
}

#[test]
fn another_kind_sends_the_buffer_first() {
    let mut acc = Accumulator::new();
    assert_eq!(acc.push(Message::new(StreamKind::Stdout, b"out")), None);
    assert_eq!(
        acc.push(Message::new(StreamKind::Stderr, b"err")),
        Some(datagram(1, b"out"))
    );
    assert_eq!(acc.tick(), Some(datagram(2, b"err")));
    assert_eq!(acc.tick(), None);
}

#[test]
fn interleaved_kinds_are_never_merged() {
    let mut acc = Accumulator::new();
    let mut datagrams = Vec::new();
    datagrams.extend(acc.push(Message::new(StreamKind::Stdout, b"AA")));
    datagrams.extend(acc.push(Message::new(StreamKind::Stderr, b"BB")));
    datagrams.extend(acc.push(Message::new(StreamKind::Stdout, b"CC")));
    datagrams.extend(acc.tick());
    assert_eq!(
        datagrams,
        vec![datagram(1, b"AA"), datagram(2, b"BB"), datagram(1, b"CC")]
    );
}

#[test]
fn empty_frame_still_starts_a_buffer() {
    let mut acc = Accumulator::new();
    assert_eq!(acc.push(Message::new(StreamKind::Stdout, b"")), None);
    assert_eq!(acc.tick(), Some(vec![1]));
    assert_eq!(acc.tick(), None);
}

#[test]
fn buffer_leaves_when_it_grows_too_long() {
    let mut acc = Accumulator::new();
    let chunk = [0x5a_u8; 8];
    // 4095 full frames make 32760 bytes, 32761 with the tag.
    for _ in 0..4095 {
        assert_eq!(acc.push(Message::new(StreamKind::Stdout, &chunk)), None);
    }
    // One more makes 32769: more than a datagram may hold.
    let out = acc.push(Message::new(StreamKind::Stdout, &chunk));
    let mut all = vec![1u8];
    all.extend_from_slice(&[0x5a_u8; 32768]);
    assert_eq!(out, Some(all));
    // Gathering starts from nothing.
    assert_eq!(acc.tick(), None);
    assert_eq!(acc.push(Message::new(StreamKind::Stdout, b"next")), None);
    assert_eq!(acc.tick(), Some(datagram(1, b"next")));
}

#[test]
fn buffer_at_the_limit_stays() {
    let mut acc = Accumulator::new();
    let chunk = [0x41_u8; 8];
    for _ in 0..4095 {
        assert_eq!(acc.push(Message::new(StreamKind::Stderr, &chunk)), None);
    }
    // 32767 bytes and the tag are exactly what a datagram may hold.
    assert_eq!(acc.push(Message::new(StreamKind::Stderr, &chunk[..7])), None);
    let out = acc.tick().expect("the buffer leaves at the idle timeout");
    assert_eq!(out.len(), 32768);
    assert_eq!(out[0], 2);
    assert!(out[1..].iter().all(|b| *b == 0x41));
}

#[test]
fn buffer_one_byte_over_the_limit_leaves() {
    let mut acc = Accumulator::new();
    let chunk = [0x41_u8; 8];
    for _ in 0..4095 {
        assert_eq!(acc.push(Message::new(StreamKind::Stderr, &chunk)), None);
    }
    assert_eq!(acc.push(Message::new(StreamKind::Stderr, &chunk[..7])), None);
    let out = acc
        .push(Message::new(StreamKind::Stderr, b"!"))
        .expect("the buffer leaves when it is too long");
    assert_eq!(out.len(), 32769);
    assert_eq!(out[0], 2);
    assert_eq!(out[32768], b'!');
    assert_eq!(acc.tick(), None);
}

#[test]
fn empty_frame_behind_a_full_buffer_leaves_by_itself() {
    let mut acc = Accumulator::new();
    let chunk = [0x30_u8; 8];
    for _ in 0..4095 {
        assert_eq!(acc.push(Message::new(StreamKind::Stdout, &chunk)), None);
    }
    let full = acc
        .push(Message::new(StreamKind::Stdout, &chunk))
        .expect("the buffer leaves when it is too long");
    assert_eq!(full.len(), 32769);
    assert_eq!(acc.push(Message::new(StreamKind::Stdout, b"")), None);
    assert_eq!(acc.tick(), Some(vec![1]));
}

#[test]
fn no_datagram_is_longer_than_the_limit_and_one_frame() {
    let mut acc = Accumulator::new();
    let mut longest = 0;
    for i in 0..20000u32 {
        let kind = if i % 7000 < 6000 { StreamKind::Stdout } else { StreamKind::Stderr };
        let len = (i % 8 + 1) as usize;
        let chunk = [0x61_u8; 8];
        if let Some(datagram) = acc.push(Message::new(kind, &chunk[..len])) {
            longest = longest.max(datagram.len());
        }
    }
    if let Some(datagram) = acc.tick() {
        longest = longest.max(datagram.len());
    }
    assert!(longest > 0);
    assert!(longest <= 32768 + 8);
}

#[test]
fn bytes_of_each_kind_keep_their_order() {
    let frames: Vec<(StreamKind, &[u8])> = vec![
        (StreamKind::Stdout, b"one "),
        (StreamKind::Stderr, b"uno "),
        (StreamKind::Stderr, b"dos "),
        (StreamKind::Stdout, b"two "),
        (StreamKind::Stdin, b"1 2"),
        (StreamKind::Stdout, b"three"),
        (StreamKind::Stderr, b"tres"),
    ];
    let mut acc = Accumulator::new();
    let mut datagrams = Vec::new();
    for (i, (kind, bytes)) in frames.iter().enumerate() {
        datagrams.extend(acc.push(Message::new(*kind, bytes)));
        if i == 4 {
            datagrams.extend(acc.tick());
        }
    }
    datagrams.extend(acc.tick());
    let of = |tag: u8| -> Vec<u8> {
        datagrams
            .iter()
            .filter(|d| d[0] == tag)
            .flat_map(|d| d[1..].iter().copied())
            .collect()
    };
    assert_eq!(of(0), b"1 2");
    assert_eq!(of(1), b"one two three");
    assert_eq!(of(2), b"uno dos tres");
}

#[test]
fn clock_counts_milliseconds() {
    assert_eq!(clock_time(0), Some(0));
    assert_eq!(clock_time(1234), Some(1234));
    assert_eq!(clock_time(u64::MAX as u128 - 500), Some(u64::MAX - 500));
}

#[test]
fn clock_stops_where_an_interval_no_longer_fits() {
    assert_eq!(clock_time(u64::MAX as u128 - 499), None);
    assert_eq!(clock_time(u64::MAX as u128), None);
    assert_eq!(clock_time(u64::MAX as u128 + 1), None);
    assert_eq!(clock_time(u128::MAX), None);
}

#[test]
fn clock_does_not_run_backwards() {
    let start = Instant::now();
    let first = clock(&start).expect("the clock has just started");
    let second = clock(&start).expect("the clock has just started");
    assert!(first <= second);
    assert!(second < 60_000);
    let mut relay = Relay::new(first);
    assert_eq!(relay.next_tick_time(), first + 500);
    assert_eq!(relay.on_check(first + 500, second), None);
}

#[test]
fn ticker_is_due_one_interval_after_its_start() {
    assert_eq!(Ticker::new(0).next_tick_time(), 500);
    assert_eq!(Ticker::new(1234).next_tick_time(), 1734);
}

#[test]
fn ticker_reset_moves_the_deadline() {
    let mut ticker = Ticker::new(0);
    ticker.reset(300);
    assert_eq!(ticker.next_tick_time(), 800);
    ticker.reset(100);
    assert_eq!(ticker.next_tick_time(), 600);
}

#[test]
fn ticker_sleeps_to_the_deadline_but_no_longer_than_its_interval() {
    let ticker = Ticker::new(0);
    assert_eq!(ticker.sleep_duration(0), 50);
    assert_eq!(ticker.sleep_duration(449), 50);
    assert_eq!(ticker.sleep_duration(450), 50);
    assert_eq!(ticker.sleep_duration(451), 49);
    assert_eq!(ticker.sleep_duration(499), 1);
    assert_eq!(ticker.sleep_duration(500), 0);
    assert_eq!(ticker.sleep_duration(9000), 0);
}

#[test]
fn check_before_the_deadline_does_not_fire() {
    let mut ticker = Ticker::new(0);
    assert!(!ticker.check(500, 0));
    assert!(!ticker.check(500, 499));
    assert_eq!(ticker.next_tick_time(), 500);
}

#[test]
fn check_at_the_deadline_fires_and_moves_it() {
    let mut ticker = Ticker::new(0);
    assert!(ticker.check(500, 500));
    assert_eq!(ticker.next_tick_time(), 1000);
    let mut late = Ticker::new(0);
    assert!(late.check(500, 730));
    assert_eq!(late.next_tick_time(), 1230);
}

#[test]
fn check_of_a_deadline_that_has_moved_does_not_fire() {
    let mut ticker = Ticker::new(0);
    ticker.reset(400);
    assert!(!ticker.check(500, 950));
    assert_eq!(ticker.next_tick_time(), 900);
    assert!(ticker.check(900, 950));
    assert_eq!(ticker.next_tick_time(), 1450);
}

#[test]
fn a_deadline_fires_only_once() {
    let mut ticker = Ticker::new(0);
    assert!(ticker.check(500, 600));
    assert!(!ticker.check(500, 600));
    assert!(!ticker.check(500, 2000));
}

#[test]
fn burst_in_two_frames_leaves_as_one_datagram_after_the_interval() {
    // "ABCDEFGHIJ" is read as a chunk of eight bytes and one of two.
    let mut relay = Relay::new(0);
    let mut datagrams = Vec::new();
    datagrams.extend(sent(relay.on_received(
        10,
        Received::Frame(Message::new(StreamKind::Stdout, b"ABCDEFGH")),
    )));
    datagrams.extend(sent(relay.on_received(
        11,
        Received::Frame(Message::new(StreamKind::Stdout, b"IJ")),
    )));
    assert_eq!(relay.next_tick_time(), 511);
    let mut now = 11;
    while now < 511 {
        let observed = relay.next_tick_time();
        now += relay.sleep_duration(now);
        if now < 511 {
            assert_eq!(relay.on_check(observed, now), None);
        }
    }
    assert!(datagrams.is_empty());
    let observed = relay.next_tick_time();
    assert_eq!(relay.on_check(observed, 511), Some(datagram(1, b"ABCDEFGHIJ")));
    assert_eq!(relay.next_tick_time(), 1011);
    let observed = relay.next_tick_time();
    assert_eq!(relay.on_check(observed, 1011), None);
    assert_eq!(relay.on_check(relay.next_tick_time(), 5000), None);
}

#[test]
fn frames_within_the_interval_keep_the_buffer_waiting() {
    let mut relay = Relay::new(0);
    assert!(sent(relay.on_received(0, Received::Frame(Message::new(StreamKind::Stdout, b"a"))))
        .is_none());
    assert_eq!(relay.on_check(relay.next_tick_time(), 499), None);
    assert!(sent(relay.on_received(499, Received::Frame(Message::new(StreamKind::Stdout, b"b"))))
        .is_none());
    // The first deadline has moved.
    assert_eq!(relay.on_check(500, 500), None);
    assert_eq!(relay.on_check(relay.next_tick_time(), 998), None);
    assert!(sent(relay.on_received(998, Received::Frame(Message::new(StreamKind::Stdout, b"c"))))
        .is_none());
    assert_eq!(relay.on_check(relay.next_tick_time(), 1497), None);
    assert_eq!(
        relay.on_check(relay.next_tick_time(), 1498),
        Some(datagram(1, b"abc"))
    );
}

#[test]
fn relay_sends_at_a_change_of_kind() {
    let mut relay = Relay::new(0);
    let mut datagrams = Vec::new();
    datagrams.extend(sent(relay.on_received(
        1,
        Received::Frame(Message::new(StreamKind::Stdout, b"AA")),
    )));
    datagrams.extend(sent(relay.on_received(
        2,
        Received::Frame(Message::new(StreamKind::Stderr, b"BB")),
    )));
    datagrams.extend(sent(relay.on_received(
        3,
        Received::Frame(Message::new(StreamKind::Stdout, b"CC")),
    )));
    datagrams.extend(relay.on_check(relay.next_tick_time(), 503));
    assert_eq!(
        datagrams,
        vec![datagram(1, b"AA"), datagram(2, b"BB"), datagram(1, b"CC")]
    );
}

#[test]
fn relay_with_nothing_gathered_sends_nothing() {
    let mut relay = Relay::new(0);
    for now in [0, 50, 499, 500, 501, 1000, 1001, 100000] {
        let observed = relay.next_tick_time();
        assert_eq!(relay.on_check(observed, now), None);
    }
}

#[test]
fn lost_frames_are_passed_over() {
    let mut relay = Relay::new(0);
    assert!(sent(relay.on_received(5, Received::Frame(Message::new(StreamKind::Stdout, b"a"))))
        .is_none());
    assert!(matches!(relay.on_received(200, Received::Lagged(3)), RelayAction::Wait));
    // The deadline stands where the frame put it.
    assert_eq!(relay.next_tick_time(), 505);
    assert!(sent(relay.on_received(300, Received::Frame(Message::new(StreamKind::Stdout, b"b"))))
        .is_none());
    assert_eq!(relay.on_check(relay.next_tick_time(), 800), Some(datagram(1, b"ab")));
}

#[test]
fn closed_bus_stops_the_relay() {
    let mut relay = Relay::new(0);
    assert!(sent(relay.on_received(5, Received::Frame(Message::new(StreamKind::Stdin, b"q"))))
        .is_none());
    assert!(matches!(relay.on_received(6, Received::Closed), RelayAction::Stop));
    assert_eq!(relay.next_tick_time(), 505);
    // What was gathered is still there.
    assert_eq!(relay.on_check(505, 505), Some(datagram(0, b"q")));
}

#[test]
fn relay_sends_when_the_buffer_grows_too_long() {
    let mut relay = Relay::new(0);
    let chunk = [9u8; 8];
    for i in 0..4095u64 {
        assert!(sent(relay.on_received(i, Received::Frame(Message::new(StreamKind::Stdin, &chunk))))
            .is_none());
    }
    let out = sent(relay.on_received(
        4095,
        Received::Frame(Message::new(StreamKind::Stdin, &chunk)),
    ))
    .expect("the buffer leaves when it is too long");
    assert_eq!(out.len(), 32769);
    assert_eq!(out[0], 0);
    assert_eq!(relay.next_tick_time(), 4595);
    assert_eq!(relay.on_check(4595, 4595), None);
}
