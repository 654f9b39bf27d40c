use std::cell::RefCell;
use tmpl_generator::bit7::{encode_7bit, length_7bit, read_7bit, write_7bit};

#[test]
fn length_counts_groups_of_seven_bits() {
    // Value 0-127 expected to be stored in one byte
    assert_eq!(length_7bit(0), 1);
    assert_eq!(length_7bit(1), 1);
    assert_eq!(length_7bit(126), 1);
    assert_eq!(length_7bit(127), 1);
    // Values 2^7 till 2^14 - 1 expected to be stored in two bytes
    assert_eq!(length_7bit(128), 2);
    assert_eq!(length_7bit(16383), 2);
    // Values 2^14 till 2^21 - 1 expected to be stored in three bytes
    assert_eq!(length_7bit(16384), 3);
    assert_eq!(length_7bit(2097151), 3);
    // Values 2^21 till 2^28 - 1 expected to be stored in four bytes
    assert_eq!(length_7bit(2097152), 4);
    assert_eq!(length_7bit(268435455), 4);
    // Values above expected to be stored in five bytes
    assert_eq!(length_7bit(268435456), 5);
    assert_eq!(length_7bit(usize::MAX), (usize::BITS as usize + 6) / 7);
}

#[test]
fn read_returns_a_single_byte_as_it_is() {
    assert_eq!(read_7bit(&|| 0), 0);
    assert_eq!(read_7bit(&|| 1), 1);
    assert_eq!(read_7bit(&|| 127), 127);
}

fn read_from(bytes: Vec<u8>) -> (usize, usize) {
    let position = RefCell::new(0usize);
    let value = read_7bit(|| {
        let mut at = position.borrow_mut();
        let byte = bytes[*at];
        *at += 1;
        byte
    });
    let read = *position.borrow();
    (value, read)
}

#[test]
fn read_gathers_seven_bits_of_each_byte() {
    assert_eq!(read_from(vec![0x81, 0x7e]), ((1 << 7) | 0x7e, 2));
    assert_eq!(read_from(vec![0xf0, 0xaa, 0x80, 0x01]), (
        (((((0x70 << 7) | 0x2a) << 7) | 0x00) << 7) | 0x01,
        4
    ));
    assert_eq!(read_from(vec![0x05, 0xff]), (5, 1));
}

#[test]
fn read_stops_when_the_number_is_full() {
    let most = (usize::BITS / 8) as usize;
    let (_, read) = read_from(vec![0xff; 16]);
    assert_eq!(read, most);
}

fn written(value: usize) -> Vec<u8> {
    let bytes = RefCell::new(Vec::new());
    write_7bit(value, |byte| bytes.borrow_mut().push(byte));
    bytes.into_inner()
}

#[test]
fn write_sends_the_low_groups_first() {
    assert_eq!(written(0), vec![0]);
    assert_eq!(written(127), vec![127]);
    assert_eq!(written(128), vec![0x80, 0x01]);
    assert_eq!(written(0xff), vec![0xff, 0x01]);
    assert_eq!(written(0x3fff), vec![0xff, 0x7f]);
    assert_eq!(written(0x80), encode_7bit(0x80));
}

#[test]
fn write_ends_at_a_low_byte_under_128() {
    assert_eq!(written(256), vec![0]);
    assert_eq!(encode_7bit(300), vec![44]);
    assert_eq!(written(0x4080), vec![0x80, 0x81, 0x01]);
}
