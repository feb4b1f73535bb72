use bl3_save_edit_core::bits::{bit_of, BitReader, BitWriter};
use bl3_save_edit_core::inventory_serial_db::width_of;

#[test]
fn bits_are_counted_from_the_low_end() {
    assert!(bit_of(0b0000_0001, 0));
    assert!(!bit_of(0b0000_0001, 1));
    assert!(bit_of(0b1000_0000, 7));
    assert!(!bit_of(0b0111_1111, 7));
}

#[test]
fn writer_packs_low_bits_first() {
    let mut w = BitWriter::new();
    w.write_bits(0b101, 3);
    w.write_bits(0b11, 2);
    assert_eq!(w.finish(), vec![0b0001_1101]);
}

#[test]
fn writer_fills_the_last_byte_with_zeros() {
    let mut w = BitWriter::new();
    w.write_bits(0x1ff, 9);
    assert_eq!(w.finish(), vec![0xff, 0x01]);
}

#[test]
fn writer_of_nothing_gives_no_bytes() {
    let w = BitWriter::new();
    assert_eq!(w.finish(), Vec::<u8>::new());
}

#[test]
fn writer_keeps_only_the_low_bits_of_a_value() {
    let mut w = BitWriter::new();
    w.write_bits(0xff, 4);
    assert_eq!(w.finish(), vec![0x0f]);
}

#[test]
fn reader_reads_across_byte_borders() {
    let data = [0b1010_1010u8, 0b0000_0101];
    let mut r = BitReader::new(&data);
    assert_eq!(r.read_bits(4), Some(0b1010));
    assert_eq!(r.read_bits(8), Some(0b0101_1010));
    assert_eq!(r.read_bits(4), Some(0));
    assert!(r.at_end());
    assert_eq!(r.read_bits(1), None);
}

#[test]
fn reader_reads_nothing_past_the_end() {
    let data = [0xffu8];
    let mut r = BitReader::new(&data);
    assert_eq!(r.read_bits(9), None);
    assert_eq!(r.read_bits(8), Some(0xff));
    assert_eq!(r.read_bits(0), Some(0));
}

#[test]
fn reader_reads_thirty_two_bits() {
    let data = [0x78u8, 0x56, 0x34, 0x12];
    let mut r = BitReader::new(&data);
    assert_eq!(r.read_bits(32), Some(0x1234_5678));
}

#[test]
fn reader_counts_the_bytes_it_reached_into() {
    let data = [0u8, 0, 0];
    let mut r = BitReader::new(&data);
    assert_eq!(r.byte_len(), 0);
    assert_eq!(r.read_bits(1), Some(0));
    assert_eq!(r.byte_len(), 1);
    assert_eq!(r.read_bits(7), Some(0));
    assert_eq!(r.byte_len(), 1);
    assert_eq!(r.read_bits(1), Some(0));
    assert_eq!(r.byte_len(), 2);
}

#[test]
fn what_is_written_is_read_back() {
    let mut w = BitWriter::new();
    w.write_bits(5, 3);
    w.write_bits(1000, 10);
    w.write_bits(0, 0);
    w.write_bits(0xdead_beef, 32);
    let bytes = w.finish();
    let mut r = BitReader::new(&bytes);
    assert_eq!(r.read_bits(3), Some(5));
    assert_eq!(r.read_bits(10), Some(1000));
    assert_eq!(r.read_bits(0), Some(0));
    assert_eq!(r.read_bits(32), Some(0xdead_beef));
}

#[test]
fn width_is_the_ceiling_of_the_logarithm() {
    assert_eq!(width_of(0), 0);
    assert_eq!(width_of(1), 0);
    assert_eq!(width_of(2), 1);
    assert_eq!(width_of(3), 2);
    assert_eq!(width_of(4), 2);
    assert_eq!(width_of(5), 3);
    assert_eq!(width_of(9), 4);
    assert_eq!(width_of(256), 8);
    assert_eq!(width_of(257), 9);
    assert_eq!(width_of(u32::MAX), 32);
}
