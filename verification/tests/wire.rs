use bl3_save_edit_core::parser::Input;
use bl3_save_edit_core::wire::{
    read_record, read_varint, write_record, write_varint, Record, WireValue,
};

fn varint_bytes(v: u64) -> Vec<u8> {
    let mut out = Vec::new();
    write_varint(&mut out, v);
    out
}

fn parse_varint(bytes: &[u8]) -> Option<u64> {
    let mut input = Input::new(bytes);
    read_varint(&mut input, 10)
}

fn record_bytes(number: u32, value: &WireValue) -> Vec<u8> {
    let mut out = Vec::new();
    write_record(&mut out, number, value);
    out
}

#[test]
fn varint_has_seven_bits_to_a_byte() {
    assert_eq!(varint_bytes(0), vec![0x00]);
    assert_eq!(varint_bytes(127), vec![0x7f]);
    assert_eq!(varint_bytes(128), vec![0x80, 0x01]);
    assert_eq!(varint_bytes(300), vec![0xac, 0x02]);
    assert_eq!(varint_bytes(u64::MAX), vec![0xff, 0xff, 0xff, 0xff, 0xff, 0xff, 0xff, 0xff, 0xff, 0x01]);
}

#[test]
fn varint_is_read_back() {
    for v in [0u64, 1, 127, 128, 300, 16383, 16384, 1 << 32, u64::MAX - 1, u64::MAX] {
        assert_eq!(parse_varint(&varint_bytes(v)), Some(v));
    }
}

#[test]
fn varint_that_is_not_the_shortest_is_refused() {
    assert_eq!(parse_varint(&[0x80, 0x00]), None);
    assert_eq!(parse_varint(&[0xac, 0x82, 0x00]), None);
}

#[test]
fn varint_beyond_sixty_four_bits_is_refused() {
    assert_eq!(parse_varint(&[0xff, 0xff, 0xff, 0xff, 0xff, 0xff, 0xff, 0xff, 0xff, 0x02]), None);
    assert_eq!(
        parse_varint(&[0xff, 0xff, 0xff, 0xff, 0xff, 0xff, 0xff, 0xff, 0xff, 0xff, 0x01]),
        None
    );
}

#[test]
fn varint_that_ends_too_soon_is_refused() {
    assert_eq!(parse_varint(&[]), None);
    assert_eq!(parse_varint(&[0x80]), None);
}

#[test]
fn varint_within_a_budget() {
    let mut input = Input::new(&[0xac, 0x02]);
    assert_eq!(read_varint(&mut input, 1), None);
    let mut input = Input::new(&[0xac, 0x02]);
    assert_eq!(read_varint(&mut input, 2), Some(300));
    let mut input = Input::new(&[0x05]);
    assert_eq!(read_varint(&mut input, 0), None);
}

#[test]
fn record_is_a_key_and_a_value() {
    assert_eq!(record_bytes(6, &WireValue::Varint(5)), vec![0x30, 0x05]);
    assert_eq!(record_bytes(11, &WireValue::Bytes(vec![1, 2, 3])), vec![0x5a, 0x03, 1, 2, 3]);
    assert_eq!(
        record_bytes(99, &WireValue::Fixed32(0x0403_0201)),
        vec![0x9d, 0x06, 1, 2, 3, 4]
    );
    assert_eq!(
        record_bytes(1, &WireValue::Fixed64(0x0807_0605_0403_0201)),
        vec![0x09, 1, 2, 3, 4, 5, 6, 7, 8]
    );
}

#[test]
fn record_is_read_back() {
    for (number, value) in [
        (0u32, WireValue::Varint(0)),
        (6, WireValue::Varint(u64::MAX)),
        (u32::MAX, WireValue::Fixed64(u64::MAX)),
        (11, WireValue::Bytes(vec![])),
        (11, WireValue::Bytes(vec![9; 200])),
        (99, WireValue::Fixed32(77)),
    ] {
        let bytes = record_bytes(number, &value);
        let mut input = Input::new(&bytes);
        assert_eq!(read_record(&mut input), Some(Record { number, value }));
        assert_eq!(input.remaining(), 0);
    }
}

#[test]
fn record_of_an_unknown_wire_kind_is_refused() {
    for kind in [3u8, 4, 6, 7] {
        let bytes = [8 + kind, 0, 0, 0, 0, 0, 0, 0, 0];
        let mut input = Input::new(&bytes);
        assert_eq!(read_record(&mut input), None);
    }
}

#[test]
fn record_that_ends_too_soon_is_refused() {
    let mut input = Input::new(&[0x5a, 0x03, 1, 2]);
    assert_eq!(read_record(&mut input), None);
    let mut input = Input::new(&[0x9d, 0x06, 1, 2, 3]);
    assert_eq!(read_record(&mut input), None);
    let mut input = Input::new(&[0x09, 1, 2, 3, 4, 5, 6, 7]);
    assert_eq!(read_record(&mut input), None);
    let mut input = Input::new(&[0x30]);
    assert_eq!(read_record(&mut input), None);
}

#[test]
fn record_with_a_field_number_beyond_thirty_two_bits_is_refused() {
    let mut key = Vec::new();
    write_varint(&mut key, (1u64 << 35) + 0);
    key.push(0);
    let mut input = Input::new(&key);
    assert_eq!(read_record(&mut input), None);
}
