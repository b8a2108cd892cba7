use daw::triple_buffer::{publish_word, word_has_new_data, word_slot, TripleBuffer};

#[test]
fn triple_buffer_words() {
    assert_eq!(publish_word(0), 4);
    assert_eq!(publish_word(2), 6);
    assert_eq!(word_slot(6), 2);
    assert_eq!(word_slot(1), 1);
    assert!(word_has_new_data(5));
    assert!(!word_has_new_data(2));
}

#[test]
fn triple_buffer_reader_sees_published_value() {
    let mut buf = TripleBuffer::new(0u32);
    assert!(!buf.has_new_data());
    assert_eq!(*buf.read(), 0);

    *buf.write_slot() = 42;
    assert_eq!(*buf.read(), 0);
    buf.publish();
    assert!(buf.has_new_data());
    assert!(buf.update());
    assert!(!buf.has_new_data());
    assert_eq!(*buf.read(), 42);

    assert!(!buf.update());
    assert_eq!(*buf.read(), 42);
}

#[test]
fn triple_buffer_latest_publish_wins() {
    let mut buf = TripleBuffer::new(String::from("init"));
    *buf.write_slot() = String::from("first");
    buf.publish();
    *buf.write_slot() = String::from("second");
    buf.publish();
    assert!(buf.update());
    assert_eq!(buf.read(), "second");
    // The writer got back the slot it published first.
    assert_eq!(buf.write_slot().as_str(), "first");
}

#[test]
fn triple_buffer_reads_latest_publish_not_later_writes() {
    let mut buf = TripleBuffer::new(0i64);
    for v in 1..=5 {
        *buf.write_slot() = v;
        buf.publish();
    }
    *buf.write_slot() = 99;
    *buf.write_slot() = 100;
    assert!(buf.update());
    assert_eq!(*buf.read(), 5);
    assert!(!buf.has_new_data());
    assert!(!buf.update());
    assert_eq!(*buf.read(), 5);
}
