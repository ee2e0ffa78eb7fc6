//! Exercises the scancode and log streams and the record writer.

use kernel_core::keyboard::{ScancodeStream, SCANCODE_QUEUE_CAPACITY};
use kernel_core::logger::{convert_level, BufferWriter, LevelFilter, LogStream, MAX_LOG_SIZE};

#[test]
fn scancodes_come_back_in_arrival_order() {
    let mut s = ScancodeStream::new();
    for code in [0x1Eu8, 0x9E, 0x2A, 0x10] {
        assert!(s.add_scancode(code));
    }
    assert_eq!(s.try_next(), Some(0x1E));
    assert_eq!(s.try_next(), Some(0x9E));
    assert_eq!(s.try_next(), Some(0x2A));
    assert_eq!(s.try_next(), Some(0x10));
    assert_eq!(s.try_next(), None);
}

#[test]
fn scancode_over_capacity_is_dropped() {
    let mut s = ScancodeStream::new();
    for i in 0..SCANCODE_QUEUE_CAPACITY {
        assert!(s.add_scancode(i as u8));
    }
    assert!(!s.add_scancode(0xFF), "overfull push must be dropped");
    assert_eq!(s.try_next(), Some(0));
    assert!(s.add_scancode(0xAB), "space freed by the pop");
}

#[test]
fn log_records_come_back_in_order() {
    let mut s = LogStream::new();
    let mut first = [0u8; 80];
    first[0] = b'a';
    let mut second = [0u8; 80];
    second[0] = b'b';
    assert!(s.push_record(first));
    assert!(s.push_record(second));
    assert_eq!(s.try_next().map(|r| r[0]), Some(b'a'));
    assert_eq!(s.try_next().map(|r| r[0]), Some(b'b'));
    assert_eq!(s.try_next(), None);
}

#[test]
fn log_queue_full_drops_record() {
    let mut s = LogStream::new();
    for _ in 0..32 {
        assert!(s.push_record([0u8; 80]));
    }
    assert!(!s.push_record([1u8; 80]));
}

#[test]
fn buffer_writer_copies_and_truncates() {
    let mut w = BufferWriter::new();
    w.write_str(b"INFO : hello");
    assert_eq!(w.pos, 12);
    assert_eq!(&w.buffer[..12], b"INFO : hello");
    assert_eq!(w.buffer[12], 0);
    let long = [b'x'; 100];
    w.write_str(&long);
    assert_eq!(w.pos, MAX_LOG_SIZE);
    assert_eq!(w.buffer[12], b'x');
    assert_eq!(w.buffer[MAX_LOG_SIZE - 1], b'x');
    // a later write has no room left and changes nothing
    w.write_str(b"more");
    assert_eq!(w.pos, MAX_LOG_SIZE);
    assert_eq!(&w.buffer[..5], b"INFO ");
}

#[test]
fn level_translation_is_identity() {
    for level in [
        LevelFilter::Off,
        LevelFilter::Error,
        LevelFilter::Warn,
        LevelFilter::Info,
        LevelFilter::Debug,
        LevelFilter::Trace,
    ] {
        assert_eq!(convert_level(level), level);
    }
}
