use bl3_save_edit_core::inventory_serial_db::{InventorySerialDb, SerialTable, TableVersion};
use bl3_save_edit_core::item_serial::{CorruptItemError, ItemEncodeError, ItemSerial};

fn names(n: usize, prefix: &str) -> Vec<String> {
    (0..n).map(|i| format!("{}{}", prefix, i)).collect()
}

fn sample_db() -> InventorySerialDb {
    InventorySerialDb {
        balances: vec!["A".to_string(), "B".to_string()],
        manufacturers: vec!["M0".to_string(), "M1".to_string(), "M2".to_string()],
        parts: SerialTable {
            versions: vec![
                TableVersion { version: 1, size: 4 },
                TableVersion { version: 2, size: 9 },
            ],
            names: names(9, "Part"),
        },
        generic_parts: SerialTable {
            versions: vec![TableVersion { version: 1, size: 2 }],
            names: names(2, "Generic"),
        },
    }
}

fn sample_item(version: u8) -> ItemSerial {
    ItemSerial {
        version,
        balance: 1,
        manufacturer: 2,
        rarity: 3,
        parts: vec![3, 1],
        generic_parts: vec![1],
        checksum: 0,
    }
}

#[test]
fn serial_of_the_first_version_has_two_bit_parts() {
    let bytes = sample_item(1).encode(&sample_db()).unwrap();
    assert_eq!(bytes, vec![0x01, 0x01, 0x00, 0x02, 0x03, 0xc2, 0x45, 0x0e, 0x01]);
}

#[test]
fn serial_of_the_second_version_has_four_bit_parts() {
    let bytes = sample_item(2).encode(&sample_db()).unwrap();
    assert_eq!(bytes, vec![0x02, 0x01, 0x00, 0x02, 0x03, 0xc2, 0x44, 0x04, 0x12, 0x01]);
}

#[test]
fn serial_is_read_field_by_field() {
    let bytes = [0x01u8, 0x01, 0x00, 0x02, 0x03, 0xc2, 0x45, 0x0e, 0x01];
    let item = ItemSerial::decode(&bytes, &sample_db()).unwrap();
    assert_eq!(item.version, 1);
    assert_eq!(item.balance, 1);
    assert_eq!(item.manufacturer, 2);
    assert_eq!(item.rarity, 3);
    assert_eq!(item.parts, vec![3, 1]);
    assert_eq!(item.generic_parts, vec![1]);
    assert_eq!(item.checksum, 0x010e);
}

#[test]
fn decode_after_encode_gives_the_item_with_its_checksum() {
    let db = sample_db();
    for version in [1u8, 2, 200] {
        let item = sample_item(version);
        let bytes = item.encode(&db).unwrap();
        let back = ItemSerial::decode(&bytes, &db).unwrap();
        assert_eq!(back.parts, item.parts);
        assert_eq!(back.generic_parts, item.generic_parts);
        assert_eq!(back.version, version);
        assert_eq!(back.balance, 1);
        let sum: u32 = bytes[..bytes.len() - 2].iter().map(|b| *b as u32).sum();
        assert_eq!(back.checksum as u32, sum % 65536);
    }
}

#[test]
fn appended_part_comes_back_last_with_a_fresh_checksum() {
    let db = sample_db();
    let bytes = sample_item(2).encode(&db).unwrap();
    let mut item = ItemSerial::decode(&bytes, &db).unwrap();
    let old_checksum = item.checksum;
    item.parts.push(8);
    let longer = item.encode(&db).unwrap();
    let back = ItemSerial::decode(&longer, &db).unwrap();
    assert_eq!(back.parts, vec![3, 1, 8]);
    assert_eq!(back.generic_parts, vec![1]);
    assert_ne!(back.checksum, old_checksum);
    let sum: u32 = longer[..longer.len() - 2].iter().map(|b| *b as u32).sum();
    assert_eq!(back.checksum as u32, sum % 65536);
}

#[test]
fn appending_a_part_shifts_the_fields_behind_it() {
    let db = sample_db();
    let mut item = sample_item(1);
    item.parts.push(2);
    let bytes = item.encode(&db).unwrap();
    // count 3, parts 3 1 2, generic count 1, generic 1
    // bits: 110000 11 10 01 1000 1
    assert_eq!(bytes[5], 0b1100_0011);
    assert_eq!(bytes[6], 0b0001_1001);
    assert_eq!(bytes[7], 0b0000_0001);
    assert_eq!(bytes.len(), 10);
}

#[test]
fn same_part_under_two_versions_has_one_name() {
    let db = sample_db();
    let old = sample_item(1).encode(&db).unwrap();
    let new = sample_item(2).encode(&db).unwrap();
    assert_ne!(old[5..], new[5..]);
    let a = ItemSerial::decode(&old, &db).unwrap();
    let b = ItemSerial::decode(&new, &db).unwrap();
    let name_a = db.parts.resolve(a.version, a.parts[0]).unwrap();
    let name_b = db.parts.resolve(b.version, b.parts[0]).unwrap();
    assert_eq!(name_a, "Part3");
    assert_eq!(name_a, name_b);
}

#[test]
fn index_beyond_the_table_of_its_version_has_no_name() {
    let db = sample_db();
    assert_eq!(db.parts.resolve(1, 3).map(|s| s.as_str()), Some("Part3"));
    assert_eq!(db.parts.resolve(1, 4), None);
    assert_eq!(db.parts.resolve(2, 4).map(|s| s.as_str()), Some("Part4"));
    assert_eq!(db.parts.resolve(2, 9), None);
    assert_eq!(db.parts.resolve(0, 0), None);
}

#[test]
fn size_in_force_is_that_of_the_last_version_not_later() {
    let db = sample_db();
    assert_eq!(db.parts.size_at(0), None);
    assert_eq!(db.parts.size_at(1), Some(4));
    assert_eq!(db.parts.size_at(2), Some(9));
    assert_eq!(db.parts.size_at(255), Some(9));
    assert_eq!(db.parts.width_at(1), Some(2));
    assert_eq!(db.parts.width_at(2), Some(4));
    assert_eq!(db.widths_at(2), Some((4, 1)));
    assert_eq!(db.widths_at(0), None);
}

#[test]
fn balance_and_manufacturer_have_names() {
    let db = sample_db();
    assert_eq!(db.balance_name(1).map(|s| s.as_str()), Some("B"));
    assert_eq!(db.balance_name(2), None);
    assert_eq!(db.manufacturer_name(2).map(|s| s.as_str()), Some("M2"));
    assert_eq!(db.manufacturer_name(3), None);
}

#[test]
fn empty_serial_is_truncated() {
    assert_eq!(ItemSerial::decode(&[], &sample_db()), Err(CorruptItemError::Truncated));
}

#[test]
fn serial_that_ends_in_a_field_is_truncated() {
    let bytes = [0x01u8, 0x01, 0x00, 0x02, 0x03];
    assert_eq!(ItemSerial::decode(&bytes, &sample_db()), Err(CorruptItemError::Truncated));
    let bytes = [0x01u8, 0x01, 0x00, 0x02, 0x03, 0xc2, 0x45, 0x0e];
    assert_eq!(ItemSerial::decode(&bytes, &sample_db()), Err(CorruptItemError::Truncated));
}

#[test]
fn serial_of_an_unknown_version_is_refused() {
    let bytes = [0x00u8, 0x01, 0x00, 0x02, 0x03, 0xc2, 0x45, 0x0d, 0x01];
    assert_eq!(ItemSerial::decode(&bytes, &sample_db()), Err(CorruptItemError::UnknownVersion));
}

#[test]
fn bytes_behind_the_checksum_are_refused() {
    let bytes = [0x01u8, 0x01, 0x00, 0x02, 0x03, 0xc2, 0x45, 0x0e, 0x01, 0x00];
    assert_eq!(ItemSerial::decode(&bytes, &sample_db()), Err(CorruptItemError::TrailingData));
}

#[test]
fn wrong_checksum_is_refused() {
    let bytes = [0x01u8, 0x01, 0x00, 0x02, 0x03, 0xc2, 0x45, 0x0f, 0x01];
    assert_eq!(ItemSerial::decode(&bytes, &sample_db()), Err(CorruptItemError::ChecksumMismatch));
    let bytes = [0x01u8, 0x01, 0x00, 0x02, 0x07, 0xc2, 0x45, 0x0e, 0x01];
    assert_eq!(ItemSerial::decode(&bytes, &sample_db()), Err(CorruptItemError::ChecksumMismatch));
}

#[test]
fn item_of_an_unknown_version_is_not_written() {
    assert_eq!(sample_item(0).encode(&sample_db()), Err(ItemEncodeError::UnknownVersion));
}

#[test]
fn item_with_too_many_parts_is_not_written() {
    let mut item = sample_item(1);
    item.parts = vec![0; 64];
    assert_eq!(item.encode(&sample_db()), Err(ItemEncodeError::TooManyParts));
    let mut item = sample_item(1);
    item.generic_parts = vec![0; 16];
    assert_eq!(item.encode(&sample_db()), Err(ItemEncodeError::TooManyParts));
}

#[test]
fn item_with_the_most_parts_is_written() {
    let db = sample_db();
    let mut item = sample_item(2);
    item.parts = vec![7; 63];
    item.generic_parts = vec![1; 15];
    let bytes = item.encode(&db).unwrap();
    let back = ItemSerial::decode(&bytes, &db).unwrap();
    assert_eq!(back.parts, item.parts);
    assert_eq!(back.generic_parts, item.generic_parts);
}

#[test]
fn index_wider_than_its_table_is_not_written() {
    let mut item = sample_item(1);
    item.parts = vec![4];
    assert_eq!(item.encode(&sample_db()), Err(ItemEncodeError::PartOutOfRange));
    let mut item = sample_item(1);
    item.generic_parts = vec![2];
    assert_eq!(item.encode(&sample_db()), Err(ItemEncodeError::PartOutOfRange));
    let mut item = sample_item(2);
    item.parts = vec![15];
    assert!(item.encode(&sample_db()).is_ok());
}

#[test]
fn item_without_parts_is_written_and_read() {
    let db = sample_db();
    let item = ItemSerial {
        version: 1,
        balance: 0xffff,
        manufacturer: 0xff,
        rarity: 0,
        parts: vec![],
        generic_parts: vec![],
        checksum: 7,
    };
    let bytes = item.encode(&db).unwrap();
    assert_eq!(bytes.len(), 9);
    let back = ItemSerial::decode(&bytes, &db).unwrap();
    assert_eq!(back.balance, 0xffff);
    assert_eq!(back.manufacturer, 0xff);
    assert!(back.parts.is_empty());
}
