use stdio_inspect::communicator::{
    checked_buffer_size, get_buffer_size, Message, StreamKind, DATA_BUFFER_SIZE,
    DEFAULT_BUFFER_SIZE,
};

#[test]
fn kinds_have_their_tags() {
    assert_eq!(StreamKind::Stdin.tag(), 0);
    assert_eq!(StreamKind::Stdout.tag(), 1);
    assert_eq!(StreamKind::Stderr.tag(), 2);
}

#[test]
fn default_frame_size_is_eight() {
    assert_eq!(DEFAULT_BUFFER_SIZE, 8);
    assert_eq!(DATA_BUFFER_SIZE, 8);
}

#[test]
fn message_keeps_kind_and_bytes() {
    let msg = Message::new(StreamKind::Stderr, b"abc");
    assert_eq!(msg.kind(), StreamKind::Stderr);
    assert_eq!(msg.get_data(), b"abc");
}

#[test]
fn message_takes_a_full_chunk() {
    let chunk = [1u8, 2, 3, 4, 5, 6, 7, 8];
    let msg = Message::new(StreamKind::Stdin, &chunk);
    assert_eq!(msg.kind(), StreamKind::Stdin);
    assert_eq!(msg.get_data(), &chunk);
    assert_eq!(msg.get_data().len(), DATA_BUFFER_SIZE);
}

#[test]
fn message_may_be_empty() {
    let msg = Message::new(StreamKind::Stdout, &[]);
    assert_eq!(msg.get_data().len(), 0);
}

#[test]
fn message_is_a_copy_of_the_chunk() {
    let mut chunk = [7u8, 8, 9];
    let msg = Message::new(StreamKind::Stdout, &chunk);
    chunk[0] = 0;
    assert_eq!(msg.get_data(), &[7u8, 8, 9]);
    let copy = msg;
    assert_eq!(copy, msg);
}

#[test]
fn messages_compare_by_kind_and_bytes() {
    let a = Message::new(StreamKind::Stdout, b"xy");
    assert_eq!(a, Message::new(StreamKind::Stdout, b"xy"));
    assert_ne!(a, Message::new(StreamKind::Stderr, b"xy"));
    assert_ne!(a, Message::new(StreamKind::Stdout, b"xz"));
    assert_ne!(a, Message::new(StreamKind::Stdout, b"x"));
    assert_ne!(a, Message::new(StreamKind::Stdout, b"xy\0"));
}

#[test]
fn buffer_size_without_setting_is_the_default() {
    assert_eq!(get_buffer_size(None), 8);
    assert_eq!(get_buffer_size(Some("")), 8);
}

#[test]
fn buffer_size_reads_decimal_digits() {
    assert_eq!(get_buffer_size(Some("16")), 16);
    assert_eq!(get_buffer_size(Some("1")), 1);
    assert_eq!(get_buffer_size(Some("0")), 0);
    assert_eq!(get_buffer_size(Some("007")), 7);
    assert_eq!(get_buffer_size(Some("32768")), 32768);
    assert_eq!(get_buffer_size(Some("4294967295")), 4294967295);
}

#[test]
fn buffer_size_of_other_text_is_the_default() {
    assert_eq!(get_buffer_size(Some("12a")), 8);
    assert_eq!(get_buffer_size(Some("a12")), 8);
    assert_eq!(get_buffer_size(Some("-4")), 8);
    assert_eq!(get_buffer_size(Some("+4")), 8);
    assert_eq!(get_buffer_size(Some(" 4")), 8);
    assert_eq!(get_buffer_size(Some("1.5")), 8);
    assert_eq!(get_buffer_size(Some("١٢")), 8);
}

#[test]
fn checked_buffer_size_agrees_where_the_number_fits() {
    assert_eq!(checked_buffer_size(None), Some(8));
    assert_eq!(checked_buffer_size(Some("")), Some(8));
    assert_eq!(checked_buffer_size(Some("64")), Some(64));
    assert_eq!(checked_buffer_size(Some("x")), Some(8));
    assert_eq!(checked_buffer_size(Some("0")), Some(0));
}

#[test]
fn checked_buffer_size_refuses_what_does_not_fit() {
    assert_eq!(checked_buffer_size(Some("340282366920938463463374607431768211456")), None);
    assert_eq!(checked_buffer_size(Some("99999999999999999999999999999999999999999")), None);
}

#[test]
fn checked_buffer_size_reads_up_to_the_largest_number() {
    let largest = format!("{}", usize::MAX);
    assert_eq!(checked_buffer_size(Some(&largest)), Some(usize::MAX));
    assert_eq!(get_buffer_size(Some(&largest)), usize::MAX);
    let padded = format!("000{}", usize::MAX);
    assert_eq!(checked_buffer_size(Some(&padded)), Some(usize::MAX));
}

#[test]
fn long_text_that_is_no_number_is_the_default() {
    assert_eq!(checked_buffer_size(Some("99999999999999999999999999999999999999999x")), Some(8));
    assert_eq!(get_buffer_size(Some("99999999999999999999999999999999999999999x")), 8);
}
