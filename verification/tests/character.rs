use bl3_save_edit_core::character_data::{
    CharacterData, CharacterField, InventorySlot, Item, PlayerClass, SaveSduSlot,
};
use bl3_save_edit_core::error::FormatError;
use bl3_save_edit_core::inventory_serial_db::{InventorySerialDb, SerialTable, TableVersion};
use bl3_save_edit_core::item_serial::{CorruptItemError, ItemEncodeError, ItemSerial};
use bl3_save_edit_core::wire::WireValue;

fn db() -> InventorySerialDb {
    InventorySerialDb {
        balances: vec!["A".to_string(), "B".to_string()],
        manufacturers: vec!["M".to_string()],
        parts: SerialTable {
            versions: vec![TableVersion { version: 1, size: 4 }],
            names: vec!["Part0".to_string(), "Part1".to_string(), "Part2".to_string(), "Part3".to_string()],
        },
        generic_parts: SerialTable {
            versions: vec![TableVersion { version: 1, size: 2 }],
            names: vec!["G0".to_string(), "G1".to_string()],
        },
    }
}

fn serial() -> ItemSerial {
    ItemSerial {
        version: 1,
        balance: 1,
        manufacturer: 0,
        rarity: 2,
        parts: vec![3, 0],
        generic_parts: vec![],
        checksum: 0,
    }
}

#[test]
fn known_fields_become_typed_fields() {
    // save slot 7, name "Moze", class 1, level 5
    let payload = [0x08u8, 0x07, 0x1a, 0x04, b'M', b'o', b'z', b'e', 0x20, 0x01, 0x30, 0x05];
    let c = CharacterData::decode(&payload, &db()).unwrap();
    assert_eq!(c.len(), 4);
    assert_eq!(c.save_game_id(), Some(7));
    assert_eq!(c.preferred_character_name(), Some(&b"Moze".to_vec()));
    assert_eq!(c.player_class(), Some(PlayerClass::Gunner));
    assert_eq!(c.player_level(), Some(5));
    assert_eq!(c.money(), None);
    assert_eq!(c.field(3), Some(&CharacterField::Number(6, 5)));
    assert_eq!(c.field(4), None);
    assert_eq!(c.encode(), payload.to_vec());
}

#[test]
fn unknown_field_is_kept_and_written_back() {
    // level 5, then field 99 as four fixed bytes, then field 100 as bytes
    let payload =
        [0x30u8, 0x05, 0x9d, 0x06, 0xde, 0xad, 0xbe, 0xef, 0xa2, 0x06, 0x02, 0xca, 0xfe];
    let c = CharacterData::decode(&payload, &db()).unwrap();
    assert_eq!(c.len(), 3);
    assert_eq!(c.field(1), Some(&CharacterField::Opaque(99, WireValue::Fixed32(0xefbe_adde))));
    assert_eq!(c.field(2), Some(&CharacterField::Opaque(100, WireValue::Bytes(vec![0xca, 0xfe]))));
    assert_eq!(c.encode(), payload.to_vec());
}

#[test]
fn unknown_field_survives_an_edit() {
    let payload = [0x30u8, 0x05, 0x9d, 0x06, 0xde, 0xad, 0xbe, 0xef];
    let mut c = CharacterData::decode(&payload, &db()).unwrap();
    c.set_player_level(50);
    c.set_money(1000);
    let out = c.encode();
    assert_eq!(out, vec![0x30, 50, 0x40, 0xe8, 0x07, 0x9d, 0x06, 0xde, 0xad, 0xbe, 0xef]);
    let back = CharacterData::decode(&out, &db()).unwrap();
    assert_eq!(back, c);
    assert_eq!(back.field(2), Some(&CharacterField::Opaque(99, WireValue::Fixed32(0xefbe_adde))));
}

#[test]
fn known_number_of_another_wire_kind_is_opaque() {
    // field 6 as bytes, field 6 as a number beyond 32 bits
    let payload = [0x32u8, 0x01, 0x05, 0x30, 0x80, 0x80, 0x80, 0x80, 0x10];
    let c = CharacterData::decode(&payload, &db()).unwrap();
    assert_eq!(c.player_level(), None);
    assert_eq!(c.field(0), Some(&CharacterField::Opaque(6, WireValue::Bytes(vec![5]))));
    assert_eq!(c.field(1), Some(&CharacterField::Opaque(6, WireValue::Varint(1 << 32))));
    assert_eq!(c.encode(), payload.to_vec());
}

#[test]
fn first_of_two_equal_fields_is_the_attribute() {
    let payload = [0x30u8, 0x05, 0x30, 0x09];
    let mut c = CharacterData::decode(&payload, &db()).unwrap();
    assert_eq!(c.player_level(), Some(5));
    c.set_player_level(6);
    assert_eq!(c.encode(), vec![0x30, 0x06, 0x30, 0x09]);
}

#[test]
fn fields_out_of_order_are_malformed() {
    let payload = [0x30u8, 0x05, 0x08, 0x07];
    assert_eq!(CharacterData::decode(&payload, &db()), Err(FormatError::MalformedRecord));
}

#[test]
fn broken_record_is_malformed() {
    assert_eq!(CharacterData::decode(&[0x30], &db()), Err(FormatError::MalformedRecord));
    assert_eq!(CharacterData::decode(&[0x33, 0x00], &db()), Err(FormatError::MalformedRecord));
    assert_eq!(CharacterData::decode(&[0x30, 0x80, 0x00], &db()), Err(FormatError::MalformedRecord));
}

#[test]
fn empty_payload_is_an_empty_character() {
    let c = CharacterData::decode(&[], &db()).unwrap();
    assert_eq!(c.len(), 0);
    assert_eq!(c, CharacterData::new());
    assert_eq!(c.encode(), Vec::<u8>::new());
}

#[test]
fn set_puts_a_missing_field_where_its_number_belongs() {
    let mut c = CharacterData::new();
    c.set_money(3);
    c.set_save_game_id(1);
    c.set_player_level(2);
    c.set_eridium(4);
    c.set_preferred_character_name(b"Zane".to_vec());
    assert_eq!(
        c.encode(),
        vec![0x08, 1, 0x1a, 4, b'Z', b'a', b'n', b'e', 0x30, 2, 0x40, 3, 0x48, 4]
    );
    assert_eq!(CharacterData::decode(&c.encode(), &db()).unwrap(), c);
}

#[test]
fn every_typed_attribute_is_set_and_got() {
    let mut c = CharacterData::new();
    c.set_save_game_id(1);
    c.set_save_game_guid(b"0123".to_vec());
    c.set_preferred_character_name(b"Amara".to_vec());
    c.set_player_class(PlayerClass::Siren);
    c.set_experience_points(305);
    c.set_player_level(3);
    c.set_guardian_rank(9);
    c.set_money(77);
    c.set_eridium(88);
    c.set_playthroughs_completed(2);
    c.set_sdu_level(SaveSduSlot::Backpack, 13);
    c.set_sdu_level(SaveSduSlot::Heavy, 10);
    c.set_slot_unlocked(InventorySlot::Weapon3, true);
    c.set_slot_unlocked(InventorySlot::Artifact, false);
    let back = CharacterData::decode(&c.encode(), &db()).unwrap();
    assert_eq!(back, c);
    assert_eq!(back.save_game_id(), Some(1));
    assert_eq!(back.save_game_guid(), Some(&b"0123".to_vec()));
    assert_eq!(back.preferred_character_name(), Some(&b"Amara".to_vec()));
    assert_eq!(back.player_class(), Some(PlayerClass::Siren));
    assert_eq!(back.experience_points(), Some(305));
    assert_eq!(back.player_level(), Some(3));
    assert_eq!(back.guardian_rank(), Some(9));
    assert_eq!(back.money(), Some(77));
    assert_eq!(back.eridium(), Some(88));
    assert_eq!(back.playthroughs_completed(), Some(2));
    assert_eq!(back.sdu_level(SaveSduSlot::Backpack), Some(13));
    assert_eq!(back.sdu_level(SaveSduSlot::Heavy), Some(10));
    assert_eq!(back.sdu_level(SaveSduSlot::Sniper), None);
    assert_eq!(back.slot_unlocked(InventorySlot::Weapon3), Some(true));
    assert_eq!(back.slot_unlocked(InventorySlot::Artifact), Some(false));
    assert_eq!(back.slot_unlocked(InventorySlot::Shield), None);
}

#[test]
fn class_codes() {
    assert_eq!(PlayerClass::from_code(0), Some(PlayerClass::BeastMaster));
    assert_eq!(PlayerClass::from_code(3), Some(PlayerClass::Siren));
    assert_eq!(PlayerClass::from_code(4), None);
    assert_eq!(PlayerClass::Operative.code(), 2);
    assert_eq!(SaveSduSlot::Ar.field_number(), 22);
    assert_eq!(InventorySlot::ClassMod.field_number(), 38);
}

#[test]
fn class_that_stands_for_nothing_is_no_class() {
    let c = CharacterData::decode(&[0x20, 0x09], &db()).unwrap();
    assert_eq!(c.number(4), Some(9));
    assert_eq!(c.player_class(), None);
}

#[test]
fn generic_setters_take_only_numbers_of_their_kind() {
    let mut c = CharacterData::new();
    assert!(c.set_number(6, 5));
    assert!(!c.set_number(2, 5));
    assert!(!c.set_number(11, 5));
    assert!(!c.set_number(99, 5));
    assert!(c.set_text(2, vec![1]));
    assert!(!c.set_text(6, vec![1]));
    assert_eq!(c.len(), 2);
    assert_eq!(c.number(6), Some(5));
    assert_eq!(c.text(2), Some(&vec![1]));
    assert_eq!(c.text(3), None);
}

#[test]
fn items_are_read_with_their_serials() {
    let db = db();
    let raw = serial().encode(&db).unwrap();
    let mut payload = vec![0x30u8, 0x05, 0x5a, raw.len() as u8];
    payload.extend_from_slice(&raw);
    let c = CharacterData::decode(&payload, &db).unwrap();
    let items = c.items();
    assert_eq!(items.len(), 1);
    assert_eq!(items[0].raw(), &raw);
    let s = items[0].serial().unwrap();
    assert_eq!(s.parts, vec![3, 0]);
    assert_eq!(db.balance_name(s.balance).map(|n| n.as_str()), Some("B"));
    assert_eq!(items[0].error(), None);
}

#[test]
fn corrupt_item_is_a_placeholder_that_keeps_its_bytes() {
    let db = db();
    let good = serial().encode(&db).unwrap();
    let mut bad = good.clone();
    let last = bad.len() - 1;
    bad[last] ^= 0x40;
    let mut payload = vec![0x30u8, 0x05];
    for raw in [&good, &bad, &good] {
        payload.push(0x5a);
        payload.push(raw.len() as u8);
        payload.extend_from_slice(raw);
    }
    payload.extend_from_slice(&[0x80, 0x01, 0x09]);
    let c = CharacterData::decode(&payload, &db).unwrap();
    assert_eq!(c.player_level(), Some(5));
    assert_eq!(c.sdu_level(SaveSduSlot::Backpack), Some(9));
    let items = c.items();
    assert_eq!(items.len(), 3);
    assert!(items[0].serial().is_some());
    assert!(items[1].serial().is_none());
    assert_eq!(items[1].error(), Some(CorruptItemError::ChecksumMismatch));
    assert_eq!(items[1].raw(), &bad);
    assert!(items[2].serial().is_some());
    assert_eq!(c.encode(), payload);
}

#[test]
fn item_of_an_unknown_version_is_a_placeholder() {
    let item = Item::from_raw(vec![0, 0, 0, 0, 0, 0, 0, 0, 0], &db());
    assert_eq!(item.error(), Some(CorruptItemError::UnknownVersion));
    assert_eq!(item.raw(), &vec![0, 0, 0, 0, 0, 0, 0, 0, 0]);
    assert!(item.serial().is_none());
}

#[test]
fn item_from_a_serial_agrees_with_its_bytes() {
    let db = db();
    let item = Item::from_serial(&serial(), &db).unwrap();
    assert_eq!(item.raw(), &serial().encode(&db).unwrap());
    assert_eq!(item.serial().unwrap().parts, vec![3, 0]);
    let mut wide = serial();
    wide.parts.push(4);
    assert_eq!(Item::from_serial(&wide, &db), Err(ItemEncodeError::PartOutOfRange));
}

#[test]
fn items_are_pushed_replaced_and_removed() {
    let db = db();
    let mut c = CharacterData::new();
    c.set_player_level(5);
    c.set_sdu_level(SaveSduSlot::Sniper, 1);
    let first = Item::from_serial(&serial(), &db).unwrap();
    let mut other = serial();
    other.parts = vec![1];
    let second = Item::from_serial(&other, &db).unwrap();
    c.push_item(first.clone());
    c.push_item(second.clone());
    assert_eq!(c.len(), 4);
    assert_eq!(c.field(1), Some(&CharacterField::Item(first.clone())));
    assert_eq!(c.field(2), Some(&CharacterField::Item(second.clone())));
    assert_eq!(c.field(3), Some(&CharacterField::Number(17, 1)));
    assert_eq!(CharacterData::decode(&c.encode(), &db).unwrap(), c);

    assert!(c.set_item(0, second.clone()));
    assert!(!c.set_item(2, second.clone()));
    assert_eq!(c.items(), vec![&second, &second]);
    assert!(c.remove_item(1));
    assert!(!c.remove_item(1));
    assert_eq!(c.items(), vec![&second]);
    assert_eq!(c.player_level(), Some(5));
    assert_eq!(c.sdu_level(SaveSduSlot::Sniper), Some(1));
}

#[test]
fn edited_item_is_written_with_its_new_serial() {
    let db = db();
    let mut c = CharacterData::new();
    c.push_item(Item::from_serial(&serial(), &db).unwrap());
    let mut edited = c.items()[0].serial().unwrap().clone();
    edited.parts.push(2);
    assert!(c.set_item(0, Item::from_serial(&edited, &db).unwrap()));
    let back = CharacterData::decode(&c.encode(), &db).unwrap();
    assert_eq!(back.items()[0].serial().unwrap().parts, vec![3, 0, 2]);
}
