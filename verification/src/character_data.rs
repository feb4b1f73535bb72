//! The character record: the decrypted payload of a save file.
//!
//! The payload is a sequence of records in ascending order of field
//! number. A record whose number and wire kind the schema knows becomes a
//! typed field; every other record is kept as it came, so that writing the
//! character gives back each byte that was not edited.

use crate::error::FormatError;
use crate::inventory_serial_db::InventorySerialDb;
use crate::item_serial::{
    decode_serial, CorruptItemError, ItemEncodeError, ItemSerial, ItemSerialView,
};
use crate::parser::Input;
use crate::wire::{
    lemma_put_records, lemma_put_records_push, lemma_take_record, lemma_take_records, put_record,
    put_records, read_record, records_wf, take_records, value_wf, write_bytes_record,
    write_record, write_varint_record, Record, RecordView, WireValue, WireValueView,
};
use vstd::prelude::*;

verus! {

pub const SAVE_GAME_ID: u32 = 1;

pub const SAVE_GAME_GUID: u32 = 2;

pub const PREFERRED_CHARACTER_NAME: u32 = 3;

pub const PLAYER_CLASS: u32 = 4;

pub const EXPERIENCE_POINTS: u32 = 5;

pub const PLAYER_LEVEL: u32 = 6;

pub const GUARDIAN_RANK: u32 = 7;

pub const MONEY: u32 = 8;

pub const ERIDIUM: u32 = 9;

pub const PLAYTHROUGHS_COMPLETED: u32 = 10;

pub const INVENTORY_ITEM: u32 = 11;

/// The first of the eight field numbers that hold SDU levels.
pub const SDU_LEVEL_BASE: u32 = 16;

/// The first of the eight field numbers that hold the unlock flags of the
/// inventory slots.
pub const SLOT_UNLOCKED_BASE: u32 = 32;

/// Whether the schema holds a number under this field number.
pub open spec fn is_number_field(number: u32) -> bool {
    number == 1 || (4 <= number <= 10) || (16 <= number <= 23) || (32 <= number <= 39)
}

/// Whether the schema holds a text under this field number.
pub open spec fn is_text_field(number: u32) -> bool {
    number == 2 || number == 3
}

/// Whether the schema knows this field number at all.
pub open spec fn is_known_field(number: u32) -> bool {
    is_number_field(number) || is_text_field(number) || number == INVENTORY_ITEM
}

/// One owned item: its serial as it is in the file, and what the serial
/// says where it can be read.
#[derive(Debug, PartialEq, Eq)]
pub struct Item {
    raw: Vec<u8>,
    decoded: Result<ItemSerial, CorruptItemError>,
}

impl Clone for Item {
    fn clone(&self) -> (r: Self) {
        let decoded = match &self.decoded {
            Ok(s) => Ok(s.clone()),
            Err(e) => Err(*e),
        };
        Item { raw: self.raw.clone(), decoded }
    }
}

/// The mathematical content of an `Item`.
pub ghost struct ItemView {
    pub raw: Seq<u8>,
    pub decoded: Result<ItemSerialView, CorruptItemError>,
}

/// The item that a serial stands for: an item whose serial cannot be read
/// keeps the bytes and the reason.
pub open spec fn item_of(raw: Seq<u8>, db: &InventorySerialDb) -> ItemView {
    ItemView { raw, decoded: decode_serial(raw, db) }
}

impl View for Item {
    type V = ItemView;

    closed spec fn view(&self) -> ItemView {
        ItemView {
            raw: self.raw@,
            decoded: match self.decoded {
                Ok(s) => Ok(s@),
                Err(e) => Err(e),
            },
        }
    }
}

impl Item {
    /// Reads an item from its serial. A serial that cannot be read gives a
    /// placeholder that keeps the bytes.
    pub fn from_raw(raw: Vec<u8>, db: &InventorySerialDb) -> (item: Item)
        ensures
            item@ == item_of(raw@, db),
    {
        let decoded = ItemSerial::decode(raw.as_slice(), db);
        Item { raw, decoded }
    }

    /// Makes an item from what its serial is to say: the serial is written
    /// afresh, with the widths of the item's own schema version and a new
    /// checksum.
    pub fn from_serial(serial: &ItemSerial, db: &InventorySerialDb) -> (r: Result<
        Item,
        ItemEncodeError,
    >)
        ensures
            match r {
                Ok(item) => {
                    &&& crate::item_serial::encode_error(serial@, db) is None
                    &&& item@ == item_of(
                        crate::item_serial::encode_serial(
                            serial@,
                            crate::inventory_serial_db::part_width(db, serial.version),
                            crate::inventory_serial_db::generic_width(db, serial.version),
                        ),
                        db,
                    )
                },
                Err(e) => crate::item_serial::encode_error(serial@, db) == Some(e),
            },
    {
        match serial.encode(db) {
            Ok(raw) => Ok(Item::from_raw(raw, db)),
            Err(e) => Err(e),
        }
    }

    /// The serial as it is in the file.
    pub fn raw(&self) -> (r: &Vec<u8>)
        ensures
            r@ == self@.raw,
    {
        &self.raw
    }

    /// What the serial says, where it could be read.
    pub fn serial(&self) -> (r: Option<&ItemSerial>)
        ensures
            match r {
                Some(s) => self@.decoded == Ok::<ItemSerialView, CorruptItemError>(s@),
                None => self@.decoded is Err,
            },
    {
        match &self.decoded {
            Ok(s) => Some(s),
            Err(_) => None,
        }
    }

    /// Why the serial could not be read, where it could not.
    pub fn error(&self) -> (r: Option<CorruptItemError>)
        ensures
            match r {
                Some(e) => self@.decoded == Err::<ItemSerialView, CorruptItemError>(e),
                None => self@.decoded is Ok,
            },
    {
        match &self.decoded {
            Ok(_) => None,
            Err(e) => Some(*e),
        }
    }
}

/// One field of a character.
#[derive(Clone, Debug, PartialEq, Eq)]
pub enum CharacterField {
    /// A number that the schema knows: the field number and the value.
    Number(u32, u32),
    /// A text that the schema knows: the field number and the bytes.
    Text(u32, Vec<u8>),
    /// An owned item.
    Item(Item),
    /// A record that the schema does not know, kept as it came.
    Opaque(u32, WireValue),
}

/// The mathematical content of a `CharacterField`.
pub ghost enum CharacterFieldView {
    Number(u32, u32),
    Text(u32, Seq<u8>),
    Item(ItemView),
    Opaque(u32, WireValueView),
}

impl View for CharacterField {
    type V = CharacterFieldView;

    open spec fn view(&self) -> CharacterFieldView {
        match self {
            CharacterField::Number(n, v) => CharacterFieldView::Number(*n, *v),
            CharacterField::Text(n, b) => CharacterFieldView::Text(*n, b@),
            CharacterField::Item(item) => CharacterFieldView::Item(item@),
            CharacterField::Opaque(n, v) => CharacterFieldView::Opaque(*n, v@),
        }
    }
}

/// The field that a record stands for.
pub open spec fn classify(r: RecordView, db: &InventorySerialDb) -> CharacterFieldView {
    match r.value {
        WireValueView::Varint(v) => if is_number_field(r.number) && v <= u32::MAX {
            CharacterFieldView::Number(r.number, v as u32)
        } else {
            CharacterFieldView::Opaque(r.number, r.value)
        },
        WireValueView::Bytes(b) => if is_text_field(r.number) {
            CharacterFieldView::Text(r.number, b)
        } else if r.number == INVENTORY_ITEM {
            CharacterFieldView::Item(item_of(b, db))
        } else {
            CharacterFieldView::Opaque(r.number, r.value)
        },
        _ => CharacterFieldView::Opaque(r.number, r.value),
    }
}

/// The record that a field is written as.
pub open spec fn declassify(f: CharacterFieldView) -> RecordView {
    match f {
        CharacterFieldView::Number(n, v) => RecordView {
            number: n,
            value: WireValueView::Varint(v as u64),
        },
        CharacterFieldView::Text(n, b) => RecordView { number: n, value: WireValueView::Bytes(b) },
        CharacterFieldView::Item(item) => RecordView {
            number: INVENTORY_ITEM,
            value: WireValueView::Bytes(item.raw),
        },
        CharacterFieldView::Opaque(n, v) => RecordView { number: n, value: v },
    }
}

/// The field number under which a field is written.
pub open spec fn number_of(f: CharacterFieldView) -> u32 {
    declassify(f).number
}

/// The fields that a sequence of records stands for.
pub open spec fn classify_all(rs: Seq<RecordView>, db: &InventorySerialDb) -> Seq<
    CharacterFieldView,
> {
    Seq::new(rs.len(), |i: int| classify(rs[i], db))
}

/// The records that a sequence of fields is written as.
pub open spec fn declassify_all(fs: Seq<CharacterFieldView>) -> Seq<RecordView> {
    Seq::new(fs.len(), |i: int| declassify(fs[i]))
}

/// Whether the fields stand in ascending order of field number.
pub open spec fn sorted(fs: Seq<CharacterFieldView>) -> bool {
    forall|i: int, j: int| 0 <= i < j < fs.len() ==> number_of(fs[i]) <= number_of(fs[j])
}

/// Whether a field is what reading its own record gives: its number is of
/// its kind, an item agrees with its serial, an opaque field is one that
/// the schema does not know.
pub open spec fn field_wf(f: CharacterFieldView, db: &InventorySerialDb) -> bool {
    &&& classify(declassify(f), db) == f
    &&& value_wf(declassify(f).value)
}

/// Whether a character is what reading its own bytes gives.
pub open spec fn character_wf(fs: Seq<CharacterFieldView>, db: &InventorySerialDb) -> bool {
    &&& sorted(fs)
    &&& forall|i: int| 0 <= i < fs.len() ==> field_wf(#[trigger] fs[i], db)
}

/// The character that a payload holds; nothing where the payload is not a
/// sequence of records in ascending order of field number.
pub open spec fn decode_character(s: Seq<u8>, db: &InventorySerialDb) -> Option<
    Seq<CharacterFieldView>,
> {
    match take_records(s) {
        Some(rs) => if sorted(classify_all(rs, db)) {
            Some(classify_all(rs, db))
        } else {
            None
        },
        None => None,
    }
}

/// The payload of a character.
pub open spec fn encode_character(fs: Seq<CharacterFieldView>) -> Seq<u8> {
    put_records(declassify_all(fs))
}

/// The records read so far, followed by those still to be read.
pub open spec fn prepend(done: Seq<RecordView>, tail: Option<Seq<RecordView>>) -> Option<
    Seq<RecordView>,
> {
    match tail {
        Some(t) => Some(done + t),
        None => None,
    }
}

/// Writing the record of a field that was read from a record gives that
/// record.
pub proof fn lemma_declassify_classify(r: RecordView, db: &InventorySerialDb)
    ensures
        declassify(classify(r, db)) == r,
        number_of(classify(r, db)) == r.number,
{
}

/// Writing a character that was read gives the bytes it was read from.
pub proof fn lemma_encode_decode(s: Seq<u8>, db: &InventorySerialDb)
    requires
        decode_character(s, db) is Some,
    ensures
        encode_character(decode_character(s, db)->0) == s,
        character_wf(decode_character(s, db)->0, db),
{
    let rs = take_records(s)->0;
    let fs = classify_all(rs, db);
    lemma_take_records(s);
    assert(declassify_all(fs) =~= rs);
    assert forall|i: int| 0 <= i < fs.len() implies field_wf(#[trigger] fs[i], db) by {
        lemma_declassify_classify(rs[i], db);
        assert(value_wf(rs[i].value));
    }
}

/// Reading the bytes of a well-formed character gives that character.
pub proof fn lemma_decode_encode(fs: Seq<CharacterFieldView>, db: &InventorySerialDb)
    requires
        character_wf(fs, db),
    ensures
        decode_character(encode_character(fs), db) == Some(fs),
{
    let rs = declassify_all(fs);
    assert(records_wf(rs)) by {
        assert forall|i: int| 0 <= i < rs.len() implies value_wf((#[trigger] rs[i]).value) by {
            assert(field_wf(fs[i], db));
        }
    }
    lemma_put_records(rs);
    assert(classify_all(rs, db) =~= fs) by {
        assert forall|i: int| 0 <= i < fs.len() implies classify_all(rs, db)[i] == fs[i] by {
            assert(field_wf(fs[i], db));
        }
    }
}

/// A record whose field number the schema does not know comes back from
/// reading as an opaque field with the value it had, and writing the
/// character puts its bytes back where they were.
pub proof fn lemma_unknown_field_preserved(
    before: Seq<RecordView>,
    unknown: RecordView,
    after: Seq<RecordView>,
    db: &InventorySerialDb,
)
    requires
        !is_known_field(unknown.number),
        records_wf(before + seq![unknown] + after),
        sorted(classify_all(before + seq![unknown] + after, db)),
    ensures
        ({
            let s = put_records(before) + put_record(unknown) + put_records(after);
            let read = decode_character(s, db);
            &&& read is Some
            &&& read->0.len() == before.len() + 1 + after.len()
            &&& read->0[before.len() as int] == CharacterFieldView::Opaque(
                unknown.number,
                unknown.value,
            )
            &&& encode_character(read->0) == s
        }),
{
    let all = before + seq![unknown] + after;
    let s = put_records(before) + put_record(unknown) + put_records(after);
    lemma_put_records_concat(before, seq![unknown]);
    lemma_put_records_concat(before + seq![unknown], after);
    assert(put_records(seq![unknown]) =~= put_record(unknown)) by {
        lemma_put_records_push(Seq::empty(), unknown);
        assert(Seq::<RecordView>::empty().push(unknown) =~= seq![unknown]);
        assert(put_records(Seq::<RecordView>::empty()) + put_record(unknown) =~= put_record(
            unknown,
        ));
    }
    assert(put_records(all) == s);
    lemma_put_records(all);
    assert(all[before.len() as int] == unknown);
    lemma_encode_decode(s, db);
}

/// Writing two sequences of records one after the other writes their
/// concatenation.
pub proof fn lemma_put_records_concat(a: Seq<RecordView>, b: Seq<RecordView>)
    ensures
        put_records(a + b) == put_records(a) + put_records(b),
    decreases b.len(),
{
    if b.len() == 0 {
        assert(a + b =~= a);
        assert(put_records(a) + put_records(b) =~= put_records(a));
    } else {
        let front = b.drop_last();
        lemma_put_records_concat(a, front);
        lemma_put_records_push(a + front, b.last());
        lemma_put_records_push(front, b.last());
        assert((a + front).push(b.last()) =~= a + b);
        assert(front.push(b.last()) =~= b);
        assert(put_records(a) + put_records(front) + put_record(b.last()) =~= put_records(a) + (
        put_records(front) + put_record(b.last())));
    }
}

/// A character: its fields in the order in which they are written.
#[derive(Clone, Debug, PartialEq, Eq)]
pub struct CharacterData {
    fields: Vec<CharacterField>,
}

impl View for CharacterData {
    type V = Seq<CharacterFieldView>;

    closed spec fn view(&self) -> Seq<CharacterFieldView> {
        Seq::new(self.fields@.len(), |i: int| self.fields@[i]@)
    }
}

/// The field that a record stands for.
fn classify_record(rec: Record, db: &InventorySerialDb) -> (f: CharacterField)
    ensures
        f@ == classify(rec@, db),
{
    let number: u32 = rec.number;
    let numeric: bool = number == 1 || (4 <= number && number <= 10) || (16 <= number && number
        <= 23) || (32 <= number && number <= 39);
    match rec.value {
        WireValue::Varint(v) => {
            if numeric && v <= 0xffff_ffff {
                CharacterField::Number(number, v as u32)
            } else {
                CharacterField::Opaque(number, WireValue::Varint(v))
            }
        },
        WireValue::Bytes(b) => {
            if number == 2 || number == 3 {
                CharacterField::Text(number, b)
            } else if number == INVENTORY_ITEM {
                CharacterField::Item(Item::from_raw(b, db))
            } else {
                CharacterField::Opaque(number, WireValue::Bytes(b))
            }
        },
        WireValue::Fixed64(v) => CharacterField::Opaque(number, WireValue::Fixed64(v)),
        WireValue::Fixed32(v) => CharacterField::Opaque(number, WireValue::Fixed32(v)),
    }
}

/// The field number under which a field is written.
fn field_number(f: &CharacterField) -> (n: u32)
    ensures
        n == number_of(f@),
{
    match f {
        CharacterField::Number(n, _) => *n,
        CharacterField::Text(n, _) => *n,
        CharacterField::Item(_) => INVENTORY_ITEM,
        CharacterField::Opaque(n, _) => *n,
    }
}

impl CharacterData {
    /// A character without fields.
    pub fn new() -> (c: CharacterData)
        ensures
            c@ == Seq::<CharacterFieldView>::empty(),
    {
        let c = CharacterData { fields: Vec::new() };
        proof {
            assert(c@ =~= Seq::<CharacterFieldView>::empty());
        }
        c
    }

    /// Reads a character from the decrypted payload. Records that the
    /// schema does not know are kept as opaque fields; an item whose serial
    /// cannot be read is kept as a placeholder and does not stop the rest
    /// from loading.
    pub fn decode(plaintext: &[u8], db: &InventorySerialDb) -> (r: Result<
        CharacterData,
        FormatError,
    >)
        ensures
            match r {
                Ok(c) => decode_character(plaintext@, db) == Some(c@) && character_wf(c@, db),
                Err(e) => e == FormatError::MalformedRecord && decode_character(plaintext@, db)
                    is None,
            },
    {
        let mut input = Input::new(plaintext);
        let mut fields: Vec<CharacterField> = Vec::new();
        let mut last: u32 = 0;
        let ghost mut done: Seq<RecordView> = Seq::empty();
        proof {
            assert(done + take_records(input.rest())->0 =~= take_records(input.rest())->0);
        }
        while input.remaining() > 0
            invariant
                input.wf(),
                take_records(plaintext@) == prepend(done, take_records(input.rest())),
                fields@.len() == done.len(),
                forall|i: int| 0 <= i < done.len() ==> (#[trigger] fields@[i])@ == classify(done[i], db),
                sorted(classify_all(done, db)),
                done.len() > 0 ==> done.last().number == last,
                done.len() == 0 ==> last == 0,
            decreases input.rest().len(),
        {
            let ghost before = input.rest();
            match read_record(&mut input) {
                None => {
                    return Err(FormatError::MalformedRecord);
                },
                Some(rec) => {
                    proof {
                        lemma_take_record(before, rec@, input.rest());
                    }
                    let ghost longer = done.push(rec@);
                    proof {
                        match take_records(input.rest()) {
                            Some(t) => {
                                assert(done + (seq![rec@] + t) =~= longer + t);
                            },
                            None => {},
                        }
                    }
                    if rec.number < last {
                        proof {
                            match take_records(plaintext@) {
                                Some(all) => {
                                    let fs = classify_all(all, db);
                                    let k = done.len() as int;
                                    assert(all[k - 1] == done.last());
                                    assert(all[k] == rec@);
                                    assert(number_of(fs[k - 1]) == last);
                                    assert(number_of(fs[k]) == rec.number);
                                },
                                None => {},
                            }
                        }
                        return Err(FormatError::MalformedRecord);
                    }
                    last = rec.number;
                    let ghost r = rec@;
                    let field = classify_record(rec, db);
                    fields.push(field);
                    proof {
                        let was = classify_all(done, db);
                        let now = classify_all(longer, db);
                        assert forall|i: int, j: int| 0 <= i < j < now.len() implies number_of(
                            now[i],
                        ) <= number_of(now[j]) by {
                            if j < done.len() {
                                assert(number_of(was[i]) <= number_of(was[j]));
                            } else {
                                assert(number_of(now[j]) == r.number);
                                if i < done.len() - 1 {
                                    assert(number_of(was[i]) <= number_of(was[done.len() - 1]));
                                }
                            }
                        }
                        done = longer;
                    }
                },
            }
        }
        let c = CharacterData { fields };
        proof {
            assert(done + Seq::<RecordView>::empty() =~= done);
            assert(c@ =~= classify_all(done, db));
            lemma_encode_decode(plaintext@, db);
        }
        Ok(c)
    }

    /// Writes the character as a payload: every field as its record, in
    /// order.
    pub fn encode(&self) -> (out: Vec<u8>)
        ensures
            out@ == encode_character(self@),
    {
        let mut out: Vec<u8> = Vec::new();
        let mut i: usize = 0;
        let ghost rs = declassify_all(self@);
        proof {
            assert(rs.take(0) =~= Seq::<RecordView>::empty());
        }
        while i < self.fields.len()
            invariant
                i <= self.fields@.len(),
                rs == declassify_all(self@),
                rs.len() == self.fields@.len(),
                out@ == put_records(rs.take(i as int)),
            decreases self.fields@.len() - i,
        {
            proof {
                lemma_put_records_push(rs.take(i as int), rs[i as int]);
                assert(rs.take(i as int).push(rs[i as int]) =~= rs.take(i + 1));
                assert(rs[i as int] == declassify(self.fields@[i as int]@));
            }
            match &self.fields[i] {
                CharacterField::Number(n, v) => {
                    write_varint_record(&mut out, *n, *v as u64);
                },
                CharacterField::Text(n, b) => {
                    write_bytes_record(&mut out, *n, b.as_slice());
                },
                CharacterField::Item(item) => {
                    write_bytes_record(&mut out, INVENTORY_ITEM, item.raw.as_slice());
                },
                CharacterField::Opaque(n, v) => {
                    write_record(&mut out, *n, v);
                },
            }
            i = i + 1;
        }
        proof {
            assert(rs.take(i as int) =~= rs);
        }
        out
    }
}

/// The classes that a character can have.
#[derive(Clone, Copy, Debug, PartialEq, Eq)]
pub enum PlayerClass {
    BeastMaster,
    Gunner,
    Operative,
    Siren,
}

/// The categories of SDU upgrades.
#[derive(Clone, Copy, Debug, PartialEq, Eq)]
pub enum SaveSduSlot {
    Backpack,
    Sniper,
    Shotgun,
    Pistol,
    Grenade,
    Smg,
    Ar,
    Heavy,
}

/// The inventory slots that can be locked.
#[derive(Clone, Copy, Debug, PartialEq, Eq)]
pub enum InventorySlot {
    Weapon1,
    Weapon2,
    Weapon3,
    Weapon4,
    Shield,
    Grenade,
    ClassMod,
    Artifact,
}

/// The number that stands for a class in the file.
pub open spec fn class_code(class: PlayerClass) -> u32 {
    match class {
        PlayerClass::BeastMaster => 0,
        PlayerClass::Gunner => 1,
        PlayerClass::Operative => 2,
        PlayerClass::Siren => 3,
    }
}

/// The class that a number in the file stands for, if any.
pub open spec fn class_of(code: u32) -> Option<PlayerClass> {
    if code == 0 {
        Some(PlayerClass::BeastMaster)
    } else if code == 1 {
        Some(PlayerClass::Gunner)
    } else if code == 2 {
        Some(PlayerClass::Operative)
    } else if code == 3 {
        Some(PlayerClass::Siren)
    } else {
        None
    }
}

/// The field number that holds the level of an SDU category.
pub open spec fn sdu_field(slot: SaveSduSlot) -> u32 {
    match slot {
        SaveSduSlot::Backpack => 16,
        SaveSduSlot::Sniper => 17,
        SaveSduSlot::Shotgun => 18,
        SaveSduSlot::Pistol => 19,
        SaveSduSlot::Grenade => 20,
        SaveSduSlot::Smg => 21,
        SaveSduSlot::Ar => 22,
        SaveSduSlot::Heavy => 23,
    }
}

/// The field number that holds the unlock flag of an inventory slot.
pub open spec fn slot_field(slot: InventorySlot) -> u32 {
    match slot {
        InventorySlot::Weapon1 => 32,
        InventorySlot::Weapon2 => 33,
        InventorySlot::Weapon3 => 34,
        InventorySlot::Weapon4 => 35,
        InventorySlot::Shield => 36,
        InventorySlot::Grenade => 37,
        InventorySlot::ClassMod => 38,
        InventorySlot::Artifact => 39,
    }
}

impl PlayerClass {
    /// The number that stands for the class in the file.
    pub fn code(self) -> (r: u32)
        ensures
            r == class_code(self),
    {
        match self {
            PlayerClass::BeastMaster => 0,
            PlayerClass::Gunner => 1,
            PlayerClass::Operative => 2,
            PlayerClass::Siren => 3,
        }
    }

    /// The class that a number in the file stands for.
    pub fn from_code(code: u32) -> (r: Option<PlayerClass>)
        ensures
            r == class_of(code),
    {
        if code == 0 {
            Some(PlayerClass::BeastMaster)
        } else if code == 1 {
            Some(PlayerClass::Gunner)
        } else if code == 2 {
            Some(PlayerClass::Operative)
        } else if code == 3 {
            Some(PlayerClass::Siren)
        } else {
            None
        }
    }
}

impl SaveSduSlot {
    /// The field number that holds the level of this category.
    pub fn field_number(self) -> (r: u32)
        ensures
            r == sdu_field(self),
            is_number_field(r),
    {
        match self {
            SaveSduSlot::Backpack => 16,
            SaveSduSlot::Sniper => 17,
            SaveSduSlot::Shotgun => 18,
            SaveSduSlot::Pistol => 19,
            SaveSduSlot::Grenade => 20,
            SaveSduSlot::Smg => 21,
            SaveSduSlot::Ar => 22,
            SaveSduSlot::Heavy => 23,
        }
    }
}

impl InventorySlot {
    /// The field number that holds the unlock flag of this slot.
    pub fn field_number(self) -> (r: u32)
        ensures
            r == slot_field(self),
            is_number_field(r),
    {
        match self {
            InventorySlot::Weapon1 => 32,
            InventorySlot::Weapon2 => 33,
            InventorySlot::Weapon3 => 34,
            InventorySlot::Weapon4 => 35,
            InventorySlot::Shield => 36,
            InventorySlot::Grenade => 37,
            InventorySlot::ClassMod => 38,
            InventorySlot::Artifact => 39,
        }
    }
}

/// Whether two fields are the same attribute: both numbers, or both texts,
/// under one field number.
pub open spec fn same_slot(g: CharacterFieldView, f: CharacterFieldView) -> bool {
    match (g, f) {
        (CharacterFieldView::Number(a, _), CharacterFieldView::Number(b, _)) => a == b,
        (CharacterFieldView::Text(a, _), CharacterFieldView::Text(b, _)) => a == b,
        _ => false,
    }
}

/// The index of the first field that is the same attribute as `f`; the
/// number of fields where there is none.
pub open spec fn slot_index(fs: Seq<CharacterFieldView>, f: CharacterFieldView) -> int
    decreases fs.len(),
{
    if fs.len() == 0 {
        0
    } else if same_slot(fs[0], f) {
        0
    } else {
        1 + slot_index(fs.skip(1), f)
    }
}

/// The index of the first field whose number is greater than `number`; the
/// number of fields where there is none.
pub open spec fn insert_index(fs: Seq<CharacterFieldView>, number: u32) -> int
    decreases fs.len(),
{
    if fs.len() == 0 {
        0
    } else if number_of(fs[0]) > number {
        0
    } else {
        1 + insert_index(fs.skip(1), number)
    }
}

/// The index of the item with index `k` among the items; the number of
/// fields where there are not that many items.
pub open spec fn nth_item(fs: Seq<CharacterFieldView>, k: nat) -> int
    decreases fs.len(),
{
    if fs.len() == 0 {
        0
    } else if fs[0] is Item {
        if k == 0 {
            0
        } else {
            1 + nth_item(fs.skip(1), (k - 1) as nat)
        }
    } else {
        1 + nth_item(fs.skip(1), k)
    }
}

/// The items among the fields, in order.
pub open spec fn items_of(fs: Seq<CharacterFieldView>) -> Seq<ItemView>
    decreases fs.len(),
{
    if fs.len() == 0 {
        Seq::empty()
    } else {
        match fs.last() {
            CharacterFieldView::Item(item) => items_of(fs.drop_last()).push(item),
            _ => items_of(fs.drop_last()),
        }
    }
}

/// The value of the number with field number `number`, where the
/// character has it.
pub open spec fn find_number(fs: Seq<CharacterFieldView>, number: u32) -> Option<u32> {
    let i = slot_index(fs, CharacterFieldView::Number(number, 0));
    if i < fs.len() {
        match fs[i] {
            CharacterFieldView::Number(_, v) => Some(v),
            _ => None,
        }
    } else {
        None
    }
}

/// The bytes of the text with field number `number`, where the character
/// has it.
pub open spec fn find_text(fs: Seq<CharacterFieldView>, number: u32) -> Option<Seq<u8>> {
    let i = slot_index(fs, CharacterFieldView::Text(number, Seq::empty()));
    if i < fs.len() {
        match fs[i] {
            CharacterFieldView::Text(_, b) => Some(b),
            _ => None,
        }
    } else {
        None
    }
}

/// The fields with the attribute `f` set: the first field that is the
/// same attribute is replaced; where there is none, `f` goes in behind
/// the last field whose number is not greater than its own.
pub open spec fn upsert(fs: Seq<CharacterFieldView>, f: CharacterFieldView) -> Seq<
    CharacterFieldView,
> {
    let i = slot_index(fs, f);
    if i < fs.len() {
        fs.update(i, f)
    } else {
        fs.insert(insert_index(fs, number_of(f)), f)
    }
}

/// The fields with one more item, behind the last field whose number is
/// not greater than that of items.
pub open spec fn with_item(fs: Seq<CharacterFieldView>, item: ItemView) -> Seq<
    CharacterFieldView,
> {
    fs.insert(insert_index(fs, INVENTORY_ITEM), CharacterFieldView::Item(item))
}

/// What `slot_index` finds: the first field of the attribute, and no
/// other index is that.
pub proof fn lemma_slot_index(fs: Seq<CharacterFieldView>, f: CharacterFieldView)
    ensures
        0 <= slot_index(fs, f) <= fs.len(),
        slot_index(fs, f) < fs.len() ==> same_slot(fs[slot_index(fs, f)], f),
        forall|j: int| 0 <= j < slot_index(fs, f) ==> !same_slot(#[trigger] fs[j], f),
    decreases fs.len(),
{
    if fs.len() > 0 && !same_slot(fs[0], f) {
        let tail = fs.skip(1);
        lemma_slot_index(tail, f);
        assert forall|j: int| 0 <= j < slot_index(fs, f) implies !same_slot(
            #[trigger] fs[j],
            f,
        ) by {
            if j > 0 {
                assert(fs[j] == tail[j - 1]);
            }
        }
    }
}

/// An index with the properties of `slot_index` is `slot_index`.
pub proof fn lemma_slot_index_unique(fs: Seq<CharacterFieldView>, f: CharacterFieldView, i: int)
    requires
        0 <= i <= fs.len(),
        i < fs.len() ==> same_slot(fs[i], f),
        forall|j: int| 0 <= j < i ==> !same_slot(#[trigger] fs[j], f),
    ensures
        slot_index(fs, f) == i,
{
    lemma_slot_index(fs, f);
    let r = slot_index(fs, f);
    if r < i {
        assert(!same_slot(fs[r], f));
    }
}

/// What `insert_index` finds.
pub proof fn lemma_insert_index(fs: Seq<CharacterFieldView>, number: u32)
    ensures
        0 <= insert_index(fs, number) <= fs.len(),
        insert_index(fs, number) < fs.len() ==> number_of(fs[insert_index(fs, number)]) > number,
        forall|j: int| 0 <= j < insert_index(fs, number) ==> number_of(#[trigger] fs[j]) <= number,
    decreases fs.len(),
{
    if fs.len() > 0 && number_of(fs[0]) <= number {
        let tail = fs.skip(1);
        lemma_insert_index(tail, number);
        assert forall|j: int| 0 <= j < insert_index(fs, number) implies number_of(
            #[trigger] fs[j],
        ) <= number by {
            if j > 0 {
                assert(fs[j] == tail[j - 1]);
            }
        }
    }
}

/// Setting an attribute keeps the fields in ascending order.
pub proof fn lemma_upsert_sorted(fs: Seq<CharacterFieldView>, f: CharacterFieldView)
    requires
        sorted(fs),
        f is Number || f is Text,
    ensures
        sorted(upsert(fs, f)),
{
    lemma_slot_index(fs, f);
    lemma_insert_index(fs, number_of(f));
    let out = upsert(fs, f);
    let i = slot_index(fs, f);
    let p = insert_index(fs, number_of(f));
    assert forall|a: int, b: int| 0 <= a < b < out.len() implies number_of(out[a]) <= number_of(
        out[b],
    ) by {
        if i < fs.len() {
            assert(number_of(fs[i]) == number_of(f));
            assert(number_of(fs[a]) <= number_of(fs[b]));
        } else {
            let a0 = if a < p {
                a
            } else {
                a - 1
            };
            let b0 = if b < p {
                b
            } else {
                b - 1
            };
            if a == p {
                assert(number_of(fs[p]) <= number_of(fs[b0]) || p == b0);
            } else if b == p {
            } else {
                assert(number_of(fs[a0]) <= number_of(fs[b0]));
            }
        }
    }
}

/// Setting a well-formed attribute of a well-formed character gives a
/// well-formed character.
pub proof fn lemma_upsert_wf(
    fs: Seq<CharacterFieldView>,
    f: CharacterFieldView,
    db: &InventorySerialDb,
)
    requires
        character_wf(fs, db),
        field_wf(f, db),
        f is Number || f is Text,
    ensures
        character_wf(upsert(fs, f), db),
{
    lemma_upsert_sorted(fs, f);
    lemma_slot_index(fs, f);
    lemma_insert_index(fs, number_of(f));
    let out = upsert(fs, f);
    let i = slot_index(fs, f);
    let p = insert_index(fs, number_of(f));
    assert forall|a: int| 0 <= a < out.len() implies field_wf(#[trigger] out[a], db) by {
        if i < fs.len() {
            if a != i {
                assert(out[a] == fs[a]);
            }
        } else if a < p {
            assert(out[a] == fs[a]);
        } else if a > p {
            assert(out[a] == fs[a - 1]);
        }
    }
}

/// After a number is set it is found, and every other number is found as
/// before.
pub proof fn lemma_upsert_number(fs: Seq<CharacterFieldView>, number: u32, value: u32, other: u32)
    ensures
        find_number(upsert(fs, CharacterFieldView::Number(number, value)), number) == Some(value),
        other != number ==> find_number(
            upsert(fs, CharacterFieldView::Number(number, value)),
            other,
        ) == find_number(fs, other),
        items_of(upsert(fs, CharacterFieldView::Number(number, value))) == items_of(fs),
{
    let f = CharacterFieldView::Number(number, value);
    let probe = CharacterFieldView::Number(number, 0);
    let out = upsert(fs, f);
    let i = slot_index(fs, f);
    let p = insert_index(fs, number);
    lemma_slot_index(fs, f);
    lemma_insert_index(fs, number);
    if i < fs.len() {
        assert forall|j: int| 0 <= j < i implies !same_slot(#[trigger] out[j], probe) by {
            assert(out[j] == fs[j]);
            assert(!same_slot(fs[j], f));
        }
        lemma_slot_index_unique(out, probe, i);
        lemma_items_of_update(fs, i, f);
    } else {
        assert forall|j: int| 0 <= j < p implies !same_slot(#[trigger] out[j], probe) by {
            assert(out[j] == fs[j]);
            assert(!same_slot(fs[j], f));
        }
        lemma_slot_index_unique(out, probe, p);
        lemma_items_of_insert(fs, p, f);
    }
    if other != number {
        let q = CharacterFieldView::Number(other, 0);
        let k = slot_index(fs, q);
        lemma_slot_index(fs, q);
        if i < fs.len() {
            assert forall|j: int| 0 <= j < k implies !same_slot(#[trigger] out[j], q) by {
                if j != i {
                    assert(out[j] == fs[j]);
                }
                assert(!same_slot(fs[j], q));
            }
            if k < fs.len() {
                assert(k != i);
                assert(out[k] == fs[k]);
            }
            lemma_slot_index_unique(out, q, k);
        } else {
            let k2 = if k < p {
                k
            } else {
                k + 1
            };
            assert forall|j: int| 0 <= j < k2 implies !same_slot(#[trigger] out[j], q) by {
                if j < p {
                    assert(out[j] == fs[j]);
                    assert(!same_slot(fs[j], q));
                } else if j > p {
                    assert(out[j] == fs[j - 1]);
                    assert(!same_slot(fs[j - 1], q));
                }
            }
            if k < fs.len() {
                assert(out[k2] == fs[k]);
            }
            lemma_slot_index_unique(out, q, k2);
        }
    }
}

/// Replacing a field that is no item by a field that is no item leaves
/// the items as they are.
pub proof fn lemma_items_of_update(fs: Seq<CharacterFieldView>, i: int, f: CharacterFieldView)
    requires
        0 <= i < fs.len(),
        !(fs[i] is Item),
        !(f is Item),
    ensures
        items_of(fs.update(i, f)) == items_of(fs),
    decreases fs.len(),
{
    let out = fs.update(i, f);
    if i == fs.len() - 1 {
        assert(out.drop_last() =~= fs.drop_last());
    } else {
        lemma_items_of_update(fs.drop_last(), i, f);
        assert(out.drop_last() =~= fs.drop_last().update(i, f));
    }
}

/// Putting in a field that is no item leaves the items as they are.
pub proof fn lemma_items_of_insert(fs: Seq<CharacterFieldView>, p: int, f: CharacterFieldView)
    requires
        0 <= p <= fs.len(),
        !(f is Item),
    ensures
        items_of(fs.insert(p, f)) == items_of(fs),
    decreases fs.len(),
{
    let out = fs.insert(p, f);
    if p == fs.len() {
        assert(out.drop_last() =~= fs);
    } else {
        lemma_items_of_insert(fs.drop_last(), p, f);
        assert(out.drop_last() =~= fs.drop_last().insert(p, f));
        assert(out.last() == fs.last());
    }
}

/// The items of two runs of fields are those of the first, then those of
/// the second.
pub proof fn lemma_items_of_concat(a: Seq<CharacterFieldView>, b: Seq<CharacterFieldView>)
    ensures
        items_of(a + b) == items_of(a) + items_of(b),
    decreases b.len(),
{
    if b.len() == 0 {
        assert(a + b =~= a);
        assert(items_of(a) + items_of(b) =~= items_of(a));
    } else {
        lemma_items_of_concat(a, b.drop_last());
        assert((a + b).drop_last() =~= a + b.drop_last());
        assert((a + b).last() == b.last());
        match b.last() {
            CharacterFieldView::Item(item) => {
                assert((items_of(a) + items_of(b.drop_last())).push(item) =~= items_of(a)
                    + items_of(b.drop_last()).push(item));
            },
            _ => {},
        }
    }
}

/// The items of one field.
pub proof fn lemma_items_of_one(f: CharacterFieldView)
    ensures
        items_of(seq![f]) == match f {
            CharacterFieldView::Item(item) => seq![item],
            _ => Seq::<ItemView>::empty(),
        },
{
    let one = seq![f];
    let none = Seq::<CharacterFieldView>::empty();
    assert(one.drop_last() =~= none);
    assert(one.last() == f);
    assert(items_of(none) =~= Seq::<ItemView>::empty());
    assert(items_of(one) =~= match f {
        CharacterFieldView::Item(item) => seq![item],
        _ => Seq::<ItemView>::empty(),
    });
}

/// The items of the fields around index `i`, and of the field at `i`.
pub proof fn lemma_items_of_split(fs: Seq<CharacterFieldView>, i: int)
    requires
        0 <= i < fs.len(),
    ensures
        items_of(fs) == items_of(fs.take(i)) + items_of(seq![fs[i]]) + items_of(fs.skip(i + 1)),
{
    lemma_items_of_concat(fs.take(i), seq![fs[i]]);
    lemma_items_of_concat(fs.take(i) + seq![fs[i]], fs.skip(i + 1));
    assert(fs =~= fs.take(i) + seq![fs[i]] + fs.skip(i + 1));
}

/// Fields of which none is an item have no items.
pub proof fn lemma_no_items(fs: Seq<CharacterFieldView>)
    requires
        forall|i: int| 0 <= i < fs.len() ==> !(#[trigger] fs[i] is Item),
    ensures
        items_of(fs) == Seq::<ItemView>::empty(),
    decreases fs.len(),
{
    if fs.len() > 0 {
        assert(!(fs[fs.len() - 1] is Item));
        assert forall|i: int| 0 <= i < fs.drop_last().len() implies !(
        #[trigger] fs.drop_last()[i] is Item) by {
            assert(fs.drop_last()[i] == fs[i]);
        }
        lemma_no_items(fs.drop_last());
    }
}

/// What `nth_item` finds: the field that holds item `k`, with `k` items
/// before it; or, where there are not that many items, no field.
pub proof fn lemma_nth_item(fs: Seq<CharacterFieldView>, k: nat)
    ensures
        0 <= nth_item(fs, k) <= fs.len(),
        nth_item(fs, k) < fs.len() ==> fs[nth_item(fs, k)] is Item && items_of(
            fs.take(nth_item(fs, k)),
        ).len() == k,
        nth_item(fs, k) == fs.len() ==> items_of(fs).len() <= k,
    decreases fs.len(),
{
    if fs.len() == 0 {
    } else {
        let tail = fs.skip(1);
        let first = seq![fs[0]];
        lemma_items_of_one(fs[0]);
        lemma_items_of_concat(first, tail);
        assert(fs =~= first + tail);
        let k2: nat = if fs[0] is Item {
            (k - 1) as nat
        } else {
            k
        };
        if fs[0] is Item && k == 0 {
            assert(fs.take(0) =~= Seq::<CharacterFieldView>::empty());
        } else {
            lemma_nth_item(tail, k2);
            let j = nth_item(tail, k2);
            if j < tail.len() {
                lemma_items_of_concat(first, tail.take(j));
                assert(fs.take(1 + j) =~= first + tail.take(j));
            }
        }
    }
}

/// Replacing the field of item `k` replaces item `k` and no other.
pub proof fn lemma_set_item(fs: Seq<CharacterFieldView>, k: nat, item: ItemView)
    requires
        nth_item(fs, k) < fs.len(),
    ensures
        k < items_of(fs).len(),
        items_of(fs.update(nth_item(fs, k), CharacterFieldView::Item(item))) == items_of(
            fs,
        ).update(k as int, item),
{
    let i = nth_item(fs, k);
    let out = fs.update(i, CharacterFieldView::Item(item));
    lemma_nth_item(fs, k);
    lemma_items_of_split(fs, i);
    lemma_items_of_split(out, i);
    lemma_items_of_one(fs[i]);
    lemma_items_of_one(out[i]);
    assert(out.take(i) =~= fs.take(i));
    assert(out.skip(i + 1) =~= fs.skip(i + 1));
    assert(items_of(out) =~= items_of(fs).update(k as int, item));
}

/// Taking out the field of item `k` takes out item `k` and no other.
pub proof fn lemma_remove_item(fs: Seq<CharacterFieldView>, k: nat)
    requires
        nth_item(fs, k) < fs.len(),
    ensures
        k < items_of(fs).len(),
        items_of(fs.remove(nth_item(fs, k))) == items_of(fs).remove(k as int),
{
    let i = nth_item(fs, k);
    let out = fs.remove(i);
    lemma_nth_item(fs, k);
    lemma_items_of_split(fs, i);
    lemma_items_of_one(fs[i]);
    lemma_items_of_concat(fs.take(i), fs.skip(i + 1));
    assert(out =~= fs.take(i) + fs.skip(i + 1));
    assert(items_of(out) =~= items_of(fs).remove(k as int));
}

/// An item that is added to fields in ascending order comes last among
/// the items.
pub proof fn lemma_push_item(fs: Seq<CharacterFieldView>, item: ItemView)
    requires
        sorted(fs),
    ensures
        items_of(with_item(fs, item)) == items_of(fs).push(item),
        sorted(with_item(fs, item)),
{
    let p = insert_index(fs, INVENTORY_ITEM);
    let x = CharacterFieldView::Item(item);
    let out = with_item(fs, item);
    lemma_insert_index(fs, INVENTORY_ITEM);
    let behind = fs.skip(p);
    assert forall|i: int| 0 <= i < behind.len() implies !(#[trigger] behind[i] is Item) by {
        assert(behind[i] == fs[p + i]);
        if i > 0 {
            assert(number_of(fs[p]) <= number_of(fs[p + i]));
        }
    }
    lemma_no_items(behind);
    lemma_items_of_concat(fs.take(p), behind);
    assert(fs =~= fs.take(p) + behind);
    lemma_items_of_one(x);
    lemma_items_of_concat(fs.take(p), seq![x]);
    lemma_items_of_concat(fs.take(p) + seq![x], behind);
    assert(out =~= fs.take(p) + seq![x] + behind);
    assert(items_of(out) =~= items_of(fs).push(item));
    assert forall|a: int, b: int| 0 <= a < b < out.len() implies number_of(out[a]) <= number_of(
        out[b],
    ) by {
        let a0 = if a < p {
            a
        } else {
            a - 1
        };
        let b0 = if b < p {
            b
        } else {
            b - 1
        };
        if a == p {
            if b0 > p {
                assert(number_of(fs[p]) <= number_of(fs[b0]));
            }
        } else if b == p {
        } else {
            assert(number_of(fs[a0]) <= number_of(fs[b0]));
        }
    }
}

impl CharacterData {
    /// The number of fields.
    pub fn len(&self) -> (n: usize)
        ensures
            n == self@.len(),
    {
        self.fields.len()
    }

    /// The field at `index`.
    pub fn field(&self, index: usize) -> (f: Option<&CharacterField>)
        ensures
            match f {
                Some(f) => index < self@.len() && f@ == self@[index as int],
                None => index >= self@.len(),
            },
    {
        if index < self.fields.len() {
            Some(&self.fields[index])
        } else {
            None
        }
    }

    /// The index of the first field that is the same attribute as
    /// `probe`; the number of fields where there is none.
    fn find_slot(&self, probe: &CharacterField) -> (i: usize)
        ensures
            i == slot_index(self@, probe@),
            i <= self@.len(),
    {
        let mut i: usize = 0;
        proof {
            assert(self@.skip(0) =~= self@);
        }
        while i < self.fields.len()
            invariant
                i <= self.fields@.len(),
                self@.len() == self.fields@.len(),
                slot_index(self@, probe@) == i + slot_index(self@.skip(i as int), probe@),
            decreases self.fields@.len() - i,
        {
            let same: bool = match (&self.fields[i], probe) {
                (CharacterField::Number(a, _), CharacterField::Number(b, _)) => *a == *b,
                (CharacterField::Text(a, _), CharacterField::Text(b, _)) => *a == *b,
                _ => false,
            };
            proof {
                assert(self@.skip(i as int)[0] == self.fields@[i as int]@);
                assert(self@.skip(i as int).skip(1) =~= self@.skip(i + 1));
            }
            if same {
                return i;
            }
            i = i + 1;
        }
        i
    }

    /// The index of the first field whose number is greater than `number`.
    fn find_insert(&self, number: u32) -> (i: usize)
        ensures
            i == insert_index(self@, number),
            i <= self@.len(),
    {
        let mut i: usize = 0;
        proof {
            assert(self@.skip(0) =~= self@);
        }
        while i < self.fields.len()
            invariant
                i <= self.fields@.len(),
                self@.len() == self.fields@.len(),
                insert_index(self@, number) == i + insert_index(self@.skip(i as int), number),
            decreases self.fields@.len() - i,
        {
            let n: u32 = field_number(&self.fields[i]);
            proof {
                assert(self@.skip(i as int)[0] == self.fields@[i as int]@);
                assert(self@.skip(i as int).skip(1) =~= self@.skip(i + 1));
            }
            if n > number {
                return i;
            }
            i = i + 1;
        }
        i
    }

    /// The index of the item with index `k` among the items.
    fn find_item(&self, k: usize) -> (i: usize)
        ensures
            i == nth_item(self@, k as nat),
            i <= self@.len(),
            i < self@.len() ==> self@[i as int] is Item,
    {
        let mut i: usize = 0;
        let mut left: usize = k;
        proof {
            assert(self@.skip(0) =~= self@);
        }
        while i < self.fields.len()
            invariant
                i <= self.fields@.len(),
                self@.len() == self.fields@.len(),
                nth_item(self@, k as nat) == i + nth_item(self@.skip(i as int), left as nat),
            decreases self.fields@.len() - i,
        {
            proof {
                assert(self@.skip(i as int)[0] == self.fields@[i as int]@);
                assert(self@.skip(i as int).skip(1) =~= self@.skip(i + 1));
            }
            match &self.fields[i] {
                CharacterField::Item(_) => {
                    if left == 0 {
                        return i;
                    }
                    left = left - 1;
                },
                _ => {},
            }
            i = i + 1;
        }
        i
    }

    /// Sets an attribute: replaces the first field that holds it, or puts
    /// the field in where its number belongs.
    fn set_field(&mut self, field: CharacterField)
        ensures
            final(self)@ == upsert(old(self)@, field@),
    {
        let ghost f = field@;
        let i: usize = self.find_slot(&field);
        if i < self.fields.len() {
            self.fields[i] = field;
            proof {
                assert(self@ =~= old(self)@.update(i as int, f));
            }
        } else {
            let p: usize = self.find_insert(field_number(&field));
            self.fields.insert(p, field);
            proof {
                assert(self@ =~= old(self)@.insert(p as int, f));
            }
        }
    }

    /// The value of the number with field number `number`.
    pub fn number(&self, number: u32) -> (r: Option<u32>)
        ensures
            r == find_number(self@, number),
    {
        let probe = CharacterField::Number(number, 0);
        let i: usize = self.find_slot(&probe);
        if i < self.fields.len() {
            match &self.fields[i] {
                CharacterField::Number(_, v) => Some(*v),
                _ => None,
            }
        } else {
            None
        }
    }

    /// The bytes of the text with field number `number`.
    pub fn text(&self, number: u32) -> (r: Option<&Vec<u8>>)
        ensures
            match r {
                Some(b) => find_text(self@, number) == Some(b@),
                None => find_text(self@, number) is None,
            },
    {
        let probe = CharacterField::Text(number, Vec::new());
        let i: usize = self.find_slot(&probe);
        proof {
            assert(same_slot(self@[i as int], probe@) == same_slot(
                self@[i as int],
                CharacterFieldView::Text(number, Seq::empty()),
            ));
            lemma_slot_index(self@, probe@);
            lemma_slot_index_unique(
                self@,
                CharacterFieldView::Text(number, Seq::empty()),
                i as int,
            );
        }
        if i < self.fields.len() {
            match &self.fields[i] {
                CharacterField::Text(_, b) => Some(b),
                _ => None,
            }
        } else {
            None
        }
    }

    /// The owned items, in order.
    pub fn items(&self) -> (r: Vec<&Item>)
        ensures
            r@.len() == items_of(self@).len(),
            forall|k: int| 0 <= k < r@.len() ==> (#[trigger] r@[k])@ == items_of(self@)[k],
    {
        let mut out: Vec<&Item> = Vec::new();
        let mut i: usize = 0;
        proof {
            assert(self@.take(0) =~= Seq::<CharacterFieldView>::empty());
        }
        while i < self.fields.len()
            invariant
                i <= self.fields@.len(),
                self@.len() == self.fields@.len(),
                out@.len() == items_of(self@.take(i as int)).len(),
                forall|k: int|
                    0 <= k < out@.len() ==> (#[trigger] out@[k])@ == items_of(
                        self@.take(i as int),
                    )[k],
            decreases self.fields@.len() - i,
        {
            proof {
                let next = self@.take(i + 1);
                assert(next.drop_last() =~= self@.take(i as int));
                assert(next.last() == self.fields@[i as int]@);
            }
            match &self.fields[i] {
                CharacterField::Item(item) => {
                    out.push(item);
                },
                _ => {},
            }
            i = i + 1;
        }
        proof {
            assert(self@.take(i as int) =~= self@);
        }
        out
    }

    /// Replaces the item with index `k` among the items. Says whether
    /// there was such an item; changes nothing where there was none.
    pub fn set_item(&mut self, k: usize, item: Item) -> (done: bool)
        ensures
            done == (nth_item(old(self)@, k as nat) < old(self)@.len()),
            done ==> final(self)@ == old(self)@.update(
                nth_item(old(self)@, k as nat),
                CharacterFieldView::Item(item@),
            ),
            !done ==> final(self)@ == old(self)@,
    {
        let i: usize = self.find_item(k);
        if i < self.fields.len() {
            let ghost f = CharacterFieldView::Item(item@);
            self.fields[i] = CharacterField::Item(item);
            proof {
                assert(self@ =~= old(self)@.update(i as int, f));
            }
            true
        } else {
            false
        }
    }

    /// Adds an item behind the items that are there.
    pub fn push_item(&mut self, item: Item)
        ensures
            final(self)@ == with_item(old(self)@, item@),
    {
        let ghost f = CharacterFieldView::Item(item@);
        let p: usize = self.find_insert(INVENTORY_ITEM);
        self.fields.insert(p, CharacterField::Item(item));
        proof {
            assert(self@ =~= old(self)@.insert(p as int, f));
        }
    }

    /// Takes out the item with index `k` among the items. Says whether
    /// there was such an item; changes nothing where there was none.
    pub fn remove_item(&mut self, k: usize) -> (done: bool)
        ensures
            done == (nth_item(old(self)@, k as nat) < old(self)@.len()),
            done ==> final(self)@ == old(self)@.remove(nth_item(old(self)@, k as nat)),
            !done ==> final(self)@ == old(self)@,
    {
        let i: usize = self.find_item(k);
        if i < self.fields.len() {
            let _ = self.fields.remove(i);
            proof {
                assert(self@ =~= old(self)@.remove(i as int));
            }
            true
        } else {
            false
        }
    }

    /// Sets the number with field number `number`, which must be one that
    /// the schema holds a number under.
    pub fn set_number(&mut self, number: u32, value: u32) -> (done: bool)
        ensures
            done == is_number_field(number),
            done ==> final(self)@ == upsert(
                old(self)@,
                CharacterFieldView::Number(number, value),
            ),
            !done ==> final(self)@ == old(self)@,
    {
        let numeric: bool = number == 1 || (4 <= number && number <= 10) || (16 <= number
            && number <= 23) || (32 <= number && number <= 39);
        if numeric {
            self.set_field(CharacterField::Number(number, value));
        }
        numeric
    }

    /// Sets the text with field number `number`, which must be one that
    /// the schema holds a text under.
    pub fn set_text(&mut self, number: u32, bytes: Vec<u8>) -> (done: bool)
        ensures
            done == is_text_field(number),
            done ==> final(self)@ == upsert(old(self)@, CharacterFieldView::Text(number, bytes@)),
            !done ==> final(self)@ == old(self)@,
    {
        let textual: bool = number == 2 || number == 3;
        if textual {
            self.set_field(CharacterField::Text(number, bytes));
        }
        textual
    }
}

impl CharacterData {
    /// The slot that the save occupies.
    pub fn save_game_id(&self) -> (r: Option<u32>)
        ensures
            r == find_number(self@, SAVE_GAME_ID),
    {
        self.number(SAVE_GAME_ID)
    }

    /// Sets the slot that the save occupies.
    pub fn set_save_game_id(&mut self, value: u32)
        ensures
            final(self)@ == upsert(old(self)@, CharacterFieldView::Number(SAVE_GAME_ID, value)),
    {
        self.set_field(CharacterField::Number(SAVE_GAME_ID, value));
    }

    /// The experience points of the character.
    pub fn experience_points(&self) -> (r: Option<u32>)
        ensures
            r == find_number(self@, EXPERIENCE_POINTS),
    {
        self.number(EXPERIENCE_POINTS)
    }

    /// Sets the experience points of the character.
    pub fn set_experience_points(&mut self, value: u32)
        ensures
            final(self)@ == upsert(old(self)@, CharacterFieldView::Number(EXPERIENCE_POINTS, value)),
    {
        self.set_field(CharacterField::Number(EXPERIENCE_POINTS, value));
    }

    /// The level of the character.
    pub fn player_level(&self) -> (r: Option<u32>)
        ensures
            r == find_number(self@, PLAYER_LEVEL),
    {
        self.number(PLAYER_LEVEL)
    }

    /// Sets the level of the character.
    pub fn set_player_level(&mut self, value: u32)
        ensures
            final(self)@ == upsert(old(self)@, CharacterFieldView::Number(PLAYER_LEVEL, value)),
    {
        self.set_field(CharacterField::Number(PLAYER_LEVEL, value));
    }

    /// The guardian rank of the character.
    pub fn guardian_rank(&self) -> (r: Option<u32>)
        ensures
            r == find_number(self@, GUARDIAN_RANK),
    {
        self.number(GUARDIAN_RANK)
    }

    /// Sets the guardian rank of the character.
    pub fn set_guardian_rank(&mut self, value: u32)
        ensures
            final(self)@ == upsert(old(self)@, CharacterFieldView::Number(GUARDIAN_RANK, value)),
    {
        self.set_field(CharacterField::Number(GUARDIAN_RANK, value));
    }

    /// The money that the character owns.
    pub fn money(&self) -> (r: Option<u32>)
        ensures
            r == find_number(self@, MONEY),
    {
        self.number(MONEY)
    }

    /// Sets the money that the character owns.
    pub fn set_money(&mut self, value: u32)
        ensures
            final(self)@ == upsert(old(self)@, CharacterFieldView::Number(MONEY, value)),
    {
        self.set_field(CharacterField::Number(MONEY, value));
    }

    /// The eridium that the character owns.
    pub fn eridium(&self) -> (r: Option<u32>)
        ensures
            r == find_number(self@, ERIDIUM),
    {
        self.number(ERIDIUM)
    }

    /// Sets the eridium that the character owns.
    pub fn set_eridium(&mut self, value: u32)
        ensures
            final(self)@ == upsert(old(self)@, CharacterFieldView::Number(ERIDIUM, value)),
    {
        self.set_field(CharacterField::Number(ERIDIUM, value));
    }

    /// The number of playthroughs that the character has completed.
    pub fn playthroughs_completed(&self) -> (r: Option<u32>)
        ensures
            r == find_number(self@, PLAYTHROUGHS_COMPLETED),
    {
        self.number(PLAYTHROUGHS_COMPLETED)
    }

    /// Sets the number of playthroughs that the character has completed.
    pub fn set_playthroughs_completed(&mut self, value: u32)
        ensures
            final(self)@ == upsert(old(self)@, CharacterFieldView::Number(PLAYTHROUGHS_COMPLETED, value)),
    {
        self.set_field(CharacterField::Number(PLAYTHROUGHS_COMPLETED, value));
    }

    /// The class of the character; nothing where the save holds none or a
    /// number that stands for no class.
    pub fn player_class(&self) -> (r: Option<PlayerClass>)
        ensures
            r == match find_number(self@, PLAYER_CLASS) {
                Some(code) => class_of(code),
                None => None,
            },
    {
        match self.number(PLAYER_CLASS) {
            Some(code) => PlayerClass::from_code(code),
            None => None,
        }
    }

    /// Sets the class of the character.
    pub fn set_player_class(&mut self, class: PlayerClass)
        ensures
            final(self)@ == upsert(
                old(self)@,
                CharacterFieldView::Number(PLAYER_CLASS, class_code(class)),
            ),
    {
        self.set_field(CharacterField::Number(PLAYER_CLASS, class.code()));
    }

    /// The level of an SDU category.
    pub fn sdu_level(&self, slot: SaveSduSlot) -> (r: Option<u32>)
        ensures
            r == find_number(self@, sdu_field(slot)),
    {
        self.number(slot.field_number())
    }

    /// Sets the level of an SDU category.
    pub fn set_sdu_level(&mut self, slot: SaveSduSlot, level: u32)
        ensures
            final(self)@ == upsert(old(self)@, CharacterFieldView::Number(sdu_field(slot), level)),
    {
        self.set_field(CharacterField::Number(slot.field_number(), level));
    }

    /// Whether an inventory slot is unlocked: any number but zero unlocks.
    pub fn slot_unlocked(&self, slot: InventorySlot) -> (r: Option<bool>)
        ensures
            r == match find_number(self@, slot_field(slot)) {
                Some(flag) => Some(flag != 0),
                None => None,
            },
    {
        match self.number(slot.field_number()) {
            Some(flag) => Some(flag != 0),
            None => None,
        }
    }

    /// Locks or unlocks an inventory slot.
    pub fn set_slot_unlocked(&mut self, slot: InventorySlot, unlocked: bool)
        ensures
            final(self)@ == upsert(
                old(self)@,
                CharacterFieldView::Number(slot_field(slot), if unlocked { 1u32 } else { 0u32 }),
            ),
    {
        let flag: u32 = if unlocked {
            1
        } else {
            0
        };
        self.set_field(CharacterField::Number(slot.field_number(), flag));
    }

    /// The name of the character, as UTF-8 bytes.
    pub fn preferred_character_name(&self) -> (r: Option<&Vec<u8>>)
        ensures
            match r {
                Some(b) => find_text(self@, PREFERRED_CHARACTER_NAME) == Some(b@),
                None => find_text(self@, PREFERRED_CHARACTER_NAME) is None,
            },
    {
        self.text(PREFERRED_CHARACTER_NAME)
    }

    /// Sets the name of the character.
    pub fn set_preferred_character_name(&mut self, name: Vec<u8>)
        ensures
            final(self)@ == upsert(
                old(self)@,
                CharacterFieldView::Text(PREFERRED_CHARACTER_NAME, name@),
            ),
    {
        self.set_field(CharacterField::Text(PREFERRED_CHARACTER_NAME, name));
    }

    /// The GUID of the save, as UTF-8 bytes.
    pub fn save_game_guid(&self) -> (r: Option<&Vec<u8>>)
        ensures
            match r {
                Some(b) => find_text(self@, SAVE_GAME_GUID) == Some(b@),
                None => find_text(self@, SAVE_GAME_GUID) is None,
            },
    {
        self.text(SAVE_GAME_GUID)
    }

    /// Sets the GUID of the save.
    pub fn set_save_game_guid(&mut self, guid: Vec<u8>)
        ensures
            final(self)@ == upsert(old(self)@, CharacterFieldView::Text(SAVE_GAME_GUID, guid@)),
    {
        self.set_field(CharacterField::Text(SAVE_GAME_GUID, guid));
    }
}

} // verus!
