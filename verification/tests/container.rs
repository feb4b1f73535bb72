use bl3_save_edit_core::bl3_save::{
    read_custom_format_data, Bl3Save, CustomFormatData, SaveContainer, SaveHeader, SaveVersions,
};
use bl3_save_edit_core::character_data::{CharacterData, CharacterField, Item};
use bl3_save_edit_core::crypto::encrypt;
use bl3_save_edit_core::error::{FormatError, IntegrityError, LoadError};
use bl3_save_edit_core::inventory_serial_db::{InventorySerialDb, SerialTable, TableVersion};
use bl3_save_edit_core::item_serial::ItemSerial;
use bl3_save_edit_core::parser::{
    read_header, read_int, read_long, read_short, read_str, write_int, write_long, write_short,
    write_str, Input,
};
use bl3_save_edit_core::wire::WireValue;

const KEY: [u8; 32] = [
    0x71, 0x34, 0x36, 0xb3, 0x56, 0x63, 0x25, 0x5f, 0xea, 0xe2, 0x83, 0x73, 0xf4, 0x98, 0xb8, 0x18,
    0x2e, 0xe5, 0x42, 0x2e, 0x50, 0xa2, 0x0f, 0x49, 0x87, 0x24, 0xe6, 0x65, 0x9a, 0xf0, 0x7c, 0xd7,
];

fn db() -> InventorySerialDb {
    InventorySerialDb {
        balances: vec!["A".to_string(), "B".to_string()],
        manufacturers: vec!["M".to_string()],
        parts: SerialTable {
            versions: vec![TableVersion { version: 1, size: 4 }],
            names: vec!["Part0".to_string(), "Part1".to_string(), "Part2".to_string(), "Part3".to_string()],
        },
        generic_parts: SerialTable {
            versions: vec![TableVersion { version: 1, size: 2 }],
            names: vec!["G0".to_string(), "G1".to_string()],
        },
    }
}

fn header() -> SaveHeader {
    SaveHeader {
        versions: SaveVersions {
            save_game_version: 2,
            package_version: 517,
            engine_major: 4,
            engine_minor: 20,
            engine_patch: 3,
            engine_build: 0,
        },
        build_id: "OAK".to_string(),
        custom_format_version: 3,
        custom_format_data: vec![CustomFormatData {
            guid: [1, 2, 3, 4, 5, 6, 7, 8, 9, 10, 11, 12, 13, 14, 15, 16],
            entry: 7,
        }],
        save_game_type: "T".to_string(),
    }
}

fn header_bytes() -> Vec<u8> {
    let mut b = vec![b'G', b'V', b'A', b'S'];
    b.extend_from_slice(&[2, 0, 0, 0]);
    b.extend_from_slice(&[5, 2, 0, 0]);
    b.extend_from_slice(&[4, 0, 20, 0, 3, 0]);
    b.extend_from_slice(&[0, 0, 0, 0]);
    b.extend_from_slice(&[3, 0, 0, 0, b'O', b'A', b'K']);
    b.extend_from_slice(&[3, 0, 0, 0]);
    b.extend_from_slice(&[1, 0, 0, 0]);
    b.extend_from_slice(&[1, 2, 3, 4, 5, 6, 7, 8, 9, 10, 11, 12, 13, 14, 15, 16]);
    b.extend_from_slice(&[7, 0, 0, 0]);
    b.extend_from_slice(&[1, 0, 0, 0, b'T']);
    b
}

fn file_with_payload(payload: &[u8]) -> Vec<u8> {
    let mut b = header_bytes();
    b.extend_from_slice(&(payload.len() as u32).to_le_bytes());
    b.extend_from_slice(payload);
    b
}

fn crafted_save() -> Vec<u8> {
    let db = db();
    let serial = ItemSerial {
        version: 1,
        balance: 1,
        manufacturer: 0,
        rarity: 1,
        parts: vec![2],
        generic_parts: vec![1],
        checksum: 0,
    };
    let raw = serial.encode(&db).unwrap();
    let mut plain = vec![0x08u8, 0x01, 0x30, 0x05, 0x40, 0x64, 0x5a, raw.len() as u8];
    plain.extend_from_slice(&raw);
    plain.extend_from_slice(&[0x9d, 0x06, 0xde, 0xad, 0xbe, 0xef]);
    file_with_payload(&encrypt(&plain, &KEY))
}

#[test]
fn container_is_read_field_by_field() {
    let file = file_with_payload(&[9, 8, 7]);
    let c = SaveContainer::decode(&file).unwrap();
    assert_eq!(c.header, header());
    assert_eq!(c.payload, vec![9, 8, 7]);
}

#[test]
fn container_is_written_as_it_was_read() {
    let file = file_with_payload(&[9, 8, 7]);
    let c = SaveContainer::decode(&file).unwrap();
    assert_eq!(c.encode(), Ok(file));
    let made = SaveContainer { header: header(), payload: vec![] };
    assert_eq!(made.encode(), Ok(file_with_payload(&[])));
    assert_eq!(SaveContainer::decode(&file_with_payload(&[])), Ok(made));
}

#[test]
fn wrong_magic_is_refused() {
    let mut file = file_with_payload(&[1]);
    file[3] = b'X';
    assert_eq!(SaveContainer::decode(&file), Err(FormatError::BadMagic));
}

#[test]
fn file_that_ends_in_a_field_is_truncated() {
    let file = file_with_payload(&[]);
    for len in 0..file.len() {
        assert_eq!(SaveContainer::decode(&file[..len]), Err(FormatError::Truncated));
    }
    assert!(SaveContainer::decode(&file).is_ok());
}

#[test]
fn declared_length_must_be_what_is_left() {
    let mut file = file_with_payload(&[1, 2, 3]);
    file.push(4);
    assert_eq!(SaveContainer::decode(&file), Err(FormatError::LengthMismatch));
    let mut file = file_with_payload(&[1, 2, 3]);
    file.pop();
    assert_eq!(SaveContainer::decode(&file), Err(FormatError::LengthMismatch));
}

#[test]
fn string_that_is_not_utf8_is_refused() {
    let mut file = file_with_payload(&[]);
    file[26] = 0xff;
    assert_eq!(SaveContainer::decode(&file), Err(FormatError::BadString));
}

#[test]
fn plain_fields_are_little_endian() {
    let mut out = Vec::new();
    write_short(&mut out, 0x0102);
    write_int(&mut out, 0x0304_0506);
    write_long(&mut out, 0x0708_090a_0b0c_0d0e);
    write_str(&mut out, &"hé".to_string()).unwrap();
    assert_eq!(
        out,
        vec![
            0x02, 0x01, 0x06, 0x05, 0x04, 0x03, 0x0e, 0x0d, 0x0c, 0x0b, 0x0a, 0x09, 0x08, 0x07, 3,
            0, 0, 0, b'h', 0xc3, 0xa9
        ]
    );
    let mut input = Input::new(&out);
    assert_eq!(read_short(&mut input), Ok(0x0102));
    assert_eq!(read_int(&mut input), Ok(0x0304_0506));
    assert_eq!(read_long(&mut input), Ok(0x0708_090a_0b0c_0d0e));
    assert_eq!(read_str(&mut input), Ok("hé".to_string()));
    assert_eq!(input.remaining(), 0);
    assert_eq!(read_short(&mut input), Err(FormatError::Truncated));
    assert_eq!(read_int(&mut input), Err(FormatError::Truncated));
    assert_eq!(read_long(&mut input), Err(FormatError::Truncated));
    assert_eq!(read_str(&mut input), Err(FormatError::Truncated));
    assert_eq!(read_header(&mut input), Err(FormatError::Truncated));
    assert_eq!(input.read_byte(), None);
    assert_eq!(input.read_bytes(1), Err(FormatError::Truncated));
    assert_eq!(input.read_bytes(0), Ok(vec![]));
}

#[test]
fn entries_are_read_by_count() {
    let mut bytes = Vec::new();
    for i in 0..3u8 {
        bytes.extend_from_slice(&[i; 16]);
        bytes.extend_from_slice(&[i, 0, 0, 1]);
    }
    let mut input = Input::new(&bytes);
    let two = read_custom_format_data(&mut input, 2).unwrap();
    assert_eq!(
        two,
        vec![
            CustomFormatData { guid: [0; 16], entry: 0x0100_0000 },
            CustomFormatData { guid: [1; 16], entry: 0x0100_0001 },
        ]
    );
    assert_eq!(input.remaining(), 20);
    let mut input = Input::new(&bytes);
    assert_eq!(read_custom_format_data(&mut input, 4), Err(FormatError::Truncated));
    let mut input = Input::new(&bytes);
    assert_eq!(read_custom_format_data(&mut input, 0), Ok(vec![]));
}

#[test]
fn crafted_save_loads_and_keeps_its_edit() {
    let db = db();
    let file = crafted_save();
    let mut save = Bl3Save::from_data(&file, &KEY, &db).unwrap();
    assert_eq!(save.header, header());
    assert_eq!(save.header.custom_format_data.len(), 1);
    assert_eq!(save.character_data.player_level(), Some(5));
    {
        let items = save.character_data.items();
        assert_eq!(items.len(), 1);
        let serial = items[0].serial().unwrap();
        assert_eq!(db.balance_name(serial.balance).map(|s| s.as_str()), Some("B"));
    }
    let before = save.clone();

    save.character_data.set_player_level(50);
    let edited = save.to_data(&KEY).unwrap();
    let again = Bl3Save::from_data(&edited, &KEY, &db).unwrap();
    assert_eq!(again.character_data.player_level(), Some(50));
    assert_eq!(again.header, before.header);
    assert_eq!(again.character_data.len(), before.character_data.len());
    for i in 0..before.character_data.len() {
        if i == 1 {
            assert_eq!(again.character_data.field(i), Some(&CharacterField::Number(6, 50)));
        } else {
            assert_eq!(again.character_data.field(i), before.character_data.field(i));
        }
    }
    assert_eq!(again.character_data.save_game_id(), Some(1));
    assert_eq!(again.character_data.money(), Some(100));
    assert_eq!(again.character_data.items(), before.character_data.items());
    assert_eq!(
        again.character_data.field(4),
        Some(&CharacterField::Opaque(99, WireValue::Fixed32(0xefbe_adde)))
    );
    assert_eq!(edited.len(), file.len());
    assert_eq!(&edited[..header_bytes().len() + 4], &file[..header_bytes().len() + 4]);
}

#[test]
fn unedited_save_is_written_byte_for_byte() {
    let db = db();
    let file = crafted_save();
    let save = Bl3Save::from_data(&file, &KEY, &db).unwrap();
    assert_eq!(save.to_data(&KEY), Ok(file));
}

#[test]
fn reading_and_writing_twice_is_reading_and_writing_once() {
    let db = db();
    let file = crafted_save();
    let once = Bl3Save::from_data(&file, &KEY, &db).unwrap().to_data(&KEY).unwrap();
    let twice = Bl3Save::from_data(&once, &KEY, &db).unwrap().to_data(&KEY).unwrap();
    assert_eq!(twice, once);
}

#[test]
fn every_changed_payload_byte_stops_the_load() {
    let db = db();
    let file = crafted_save();
    let start = header_bytes().len() + 4;
    for at in start..file.len() {
        let mut changed = file.clone();
        changed[at] ^= 0x01;
        assert_eq!(
            Bl3Save::from_data(&changed, &KEY, &db),
            Err(LoadError::Integrity(IntegrityError::DigestMismatch))
        );
    }
}

#[test]
fn each_layer_reports_its_own_failure() {
    let db = db();
    assert_eq!(Bl3Save::from_data(b"GVAX", &KEY, &db), Err(LoadError::Format(FormatError::BadMagic)));
    assert_eq!(Bl3Save::from_data(b"GVAS", &KEY, &db), Err(LoadError::Format(FormatError::Truncated)));
    assert_eq!(
        Bl3Save::from_data(&file_with_payload(&[1, 2]), &KEY, &db),
        Err(LoadError::Integrity(IntegrityError::Truncated))
    );
    assert_eq!(
        Bl3Save::from_data(&file_with_payload(&encrypt(&[0x30], &KEY)), &KEY, &db),
        Err(LoadError::Format(FormatError::MalformedRecord))
    );
    let mut long = file_with_payload(&encrypt(&[], &KEY));
    long.push(0);
    assert_eq!(
        Bl3Save::from_data(&long, &KEY, &db),
        Err(LoadError::Format(FormatError::LengthMismatch))
    );
}

#[test]
fn save_made_from_parts_loads_as_made() {
    let db = db();
    let mut character = CharacterData::new();
    character.set_player_level(1);
    character.push_item(Item::from_raw(vec![1, 2, 3], &db));
    let save = Bl3Save { header: header(), character_data: character };
    let file = save.to_data(&KEY).unwrap();
    assert_eq!(Bl3Save::from_data(&file, &KEY, &db), Ok(save));
}
