//! The bit-packed serial of one item.
//!
//! A serial is a run of bit fields, least significant bit first, filled up
//! to a whole byte and followed by a two-byte checksum:
//!
//! | field            | bits                         |
//! |------------------|------------------------------|
//! | schema version   | 8                            |
//! | balance          | 16                           |
//! | manufacturer     | 8                            |
//! | rarity           | 8                            |
//! | part count       | 6                            |
//! | parts            | count x part width           |
//! | generic count    | 4                            |
//! | generic parts    | count x generic part width   |
//!
//! The two widths are those of the part tables at the serial's own schema
//! version. The checksum is the sum of the bytes before it, modulo 65536,
//! low byte first.

use crate::bits::{
    field_at, lemma_unpack_len, lemma_unpack_pack, lemma_unpack_push,
    lemma_value_bits_len, lemma_value_roundtrip, pack, unpack, value_bits, BitReader, BitWriter,
};
use crate::checksum::{byte_sum, sum32};
use crate::inventory_serial_db::{
    generic_width, part_width, resolve, widths_at, InventorySerialDb,
};
use vstd::arithmetic::power2::{lemma2_to64, lemma_pow2_strictly_increases, lemma_pow2_unfold, pow2};
use vstd::prelude::*;

verus! {

/// The most parts that a serial can list.
pub const MAX_BL3_ITEM_PARTS: usize = 63;

/// The most generic parts (anointments) that a serial can list.
pub const MAX_BL3_ITEM_ANOINTMENTS: usize = 15;

/// What a serial says of its item.
#[derive(Clone, Debug, PartialEq, Eq)]
pub struct ItemSerial {
    pub version: u8,
    pub balance: u16,
    pub manufacturer: u8,
    pub rarity: u8,
    pub parts: Vec<u32>,
    pub generic_parts: Vec<u32>,
    pub checksum: u16,
}

/// The mathematical content of an `ItemSerial`.
pub ghost struct ItemSerialView {
    pub version: u8,
    pub balance: u16,
    pub manufacturer: u8,
    pub rarity: u8,
    pub parts: Seq<u32>,
    pub generic_parts: Seq<u32>,
    pub checksum: u16,
}

impl View for ItemSerial {
    type V = ItemSerialView;

    open spec fn view(&self) -> ItemSerialView {
        ItemSerialView {
            version: self.version,
            balance: self.balance,
            manufacturer: self.manufacturer,
            rarity: self.rarity,
            parts: self.parts@,
            generic_parts: self.generic_parts@,
            checksum: self.checksum,
        }
    }
}

/// Why a serial could not be read.
#[derive(Clone, Copy, Debug, PartialEq, Eq)]
pub enum CorruptItemError {
    /// The bytes end inside a field or before the checksum.
    Truncated,
    /// The part tables have no entry for the serial's schema version.
    UnknownVersion,
    /// Bytes follow the checksum.
    TrailingData,
    /// The checksum is not that of the bytes before it.
    ChecksumMismatch,
}

/// Why an item could not be written as a serial.
#[derive(Clone, Copy, Debug, PartialEq, Eq)]
pub enum ItemEncodeError {
    /// The part tables have no entry for the item's schema version.
    UnknownVersion,
    /// A list is longer than its count field can say.
    TooManyParts,
    /// An index does not fit the width of its table at the item's version.
    PartOutOfRange,
}

/// The bits of a list of indices, each `width` bits wide.
pub open spec fn list_bits(xs: Seq<u32>, width: nat) -> Seq<bool>
    decreases xs.len(),
{
    if xs.len() == 0 {
        Seq::empty()
    } else {
        list_bits(xs.drop_last(), width) + value_bits(xs.last() as nat, width)
    }
}

/// The four fields of fixed width that open a serial.
pub open spec fn header_bits(item: ItemSerialView) -> Seq<bool> {
    value_bits(item.version as nat, 8) + value_bits(item.balance as nat, 16) + value_bits(
        item.manufacturer as nat,
        8,
    ) + value_bits(item.rarity as nat, 8)
}

/// All fields of a serial, in order.
pub open spec fn serial_bits(item: ItemSerialView, part_width: nat, generic_width: nat) -> Seq<
    bool,
> {
    header_bits(item) + value_bits(item.parts.len(), 6) + list_bits(item.parts, part_width)
        + value_bits(item.generic_parts.len(), 4) + list_bits(item.generic_parts, generic_width)
}

/// The checksum of a buffer.
pub open spec fn checksum_of(bytes: Seq<u8>) -> u16 {
    (byte_sum(bytes) % 65536) as u16
}

/// Whether every index of a list fits `width` bits.
pub open spec fn all_fit(xs: Seq<u32>, width: nat) -> bool {
    forall|i: int| 0 <= i < xs.len() ==> (#[trigger] xs[i] as nat) < pow2(width)
}

/// Whether an item can be written with the given widths.
pub open spec fn fits(item: ItemSerialView, part_width: nat, generic_width: nat) -> bool {
    &&& item.parts.len() <= MAX_BL3_ITEM_PARTS
    &&& item.generic_parts.len() <= MAX_BL3_ITEM_ANOINTMENTS
    &&& all_fit(item.parts, part_width)
    &&& all_fit(item.generic_parts, generic_width)
}

/// The serial of an item: the packed fields and their checksum.
pub open spec fn encode_serial(item: ItemSerialView, part_width: nat, generic_width: nat) -> Seq<
    u8,
> {
    let body = pack(serial_bits(item, part_width, generic_width));
    let sum = checksum_of(body);
    body.push((sum % 256) as u8).push((sum / 256) as u8)
}

/// Why an item cannot be written, if it cannot.
pub open spec fn encode_error(item: ItemSerialView, db: &InventorySerialDb) -> Option<
    ItemEncodeError,
> {
    match widths_at(db, item.version) {
        None => Some(ItemEncodeError::UnknownVersion),
        Some((pw, gw)) => if item.parts.len() > MAX_BL3_ITEM_PARTS || item.generic_parts.len()
            > MAX_BL3_ITEM_ANOINTMENTS {
            Some(ItemEncodeError::TooManyParts)
        } else if !all_fit(item.parts, pw) || !all_fit(item.generic_parts, gw) {
            Some(ItemEncodeError::PartOutOfRange)
        } else {
            None
        },
    }
}

/// `count` indices of `width` bits each, from bit `pos` on.
pub open spec fn read_list(bits: Seq<bool>, pos: int, count: nat, width: nat) -> Seq<u32> {
    Seq::new(count, |k: int| field_at(bits, pos + k * width, width as int) as u32)
}

/// What a serial says, or why it cannot be read.
pub open spec fn decode_serial(bytes: Seq<u8>, db: &InventorySerialDb) -> Result<
    ItemSerialView,
    CorruptItemError,
> {
    let bits = unpack(bytes);
    let total = 8 * bytes.len();
    if total < 8 {
        Err(CorruptItemError::Truncated)
    } else {
        let version = field_at(bits, 0, 8) as u8;
        match widths_at(db, version) {
            None => Err(CorruptItemError::UnknownVersion),
            Some((pw, gw)) => {
                if total < 46 {
                    Err(CorruptItemError::Truncated)
                } else {
                    let np = field_at(bits, 40, 6);
                    let gpos: int = (46 + np * pw) as int;
                    if total < gpos + 4 {
                        Err(CorruptItemError::Truncated)
                    } else {
                        let ng = field_at(bits, gpos, 4);
                        let end: int = gpos + 4 + ng * gw;
                        let body: int = (end + 7) / 8;
                        if bytes.len() < body + 2 {
                            Err(CorruptItemError::Truncated)
                        } else if bytes.len() > body + 2 {
                            Err(CorruptItemError::TrailingData)
                        } else {
                            let stored = bytes[body] as int + 256 * bytes[body + 1] as int;
                            if stored != checksum_of(bytes.take(body)) {
                                Err(CorruptItemError::ChecksumMismatch)
                            } else {
                                Ok(
                                    ItemSerialView {
                                        version,
                                        balance: field_at(bits, 8, 16) as u16,
                                        manufacturer: field_at(bits, 24, 8) as u8,
                                        rarity: field_at(bits, 32, 8) as u8,
                                        parts: read_list(bits, 46, np, pw),
                                        generic_parts: read_list(bits, gpos + 4, ng, gw),
                                        checksum: stored as u16,
                                    },
                                )
                            }
                        }
                    }
                }
            },
        }
    }
}

/// The item with one more part at the end of its part list.
pub open spec fn with_part(item: ItemSerialView, part: u32) -> ItemSerialView {
    ItemSerialView { parts: item.parts.push(part), ..item }
}

pub proof fn lemma_list_bits_len(xs: Seq<u32>, width: nat)
    ensures
        list_bits(xs, width).len() == xs.len() * width,
    decreases xs.len(),
{
    if xs.len() > 0 {
        lemma_list_bits_len(xs.drop_last(), width);
        lemma_value_bits_len(xs.last() as nat, width);
        assert((xs.len() - 1) * width + width == xs.len() * width) by (nonlinear_arith);
    } else {
        assert(0 * width == 0) by (nonlinear_arith);
    }
}

/// Entry `k` of a list occupies bits `k * width` onwards.
pub proof fn lemma_list_bits_chunk(xs: Seq<u32>, width: nat, k: int)
    requires
        0 <= k < xs.len(),
    ensures
        0 <= k * width,
        k * width + width <= list_bits(xs, width).len(),
        list_bits(xs, width).subrange(k * width, k * width + width) == value_bits(
            xs[k] as nat,
            width,
        ),
    decreases xs.len(),
{
    let front = xs.drop_last();
    lemma_list_bits_len(xs, width);
    lemma_list_bits_len(front, width);
    lemma_value_bits_len(xs.last() as nat, width);
    assert(0 <= k * width && k * width + width <= xs.len() * width) by (nonlinear_arith)
        requires
            0 <= k < xs.len(),
    ;
    assert((xs.len() - 1) * width + width == xs.len() * width) by (nonlinear_arith);
    if k == xs.len() - 1 {
        assert(list_bits(xs, width).subrange(k * width, k * width + width) =~= value_bits(
            xs[k] as nat,
            width,
        ));
    } else {
        lemma_list_bits_chunk(front, width, k);
        assert(list_bits(xs, width).subrange(k * width, k * width + width) =~= list_bits(
            front,
            width,
        ).subrange(k * width, k * width + width));
    }
}

/// Reading a serial that `encode_serial` wrote gives the item back; its
/// checksum is that of the bytes just written.
pub proof fn lemma_decode_encode(item: ItemSerialView, db: &InventorySerialDb)
    requires
        widths_at(db, item.version) is Some,
        fits(item, part_width(db, item.version), generic_width(db, item.version)),
    ensures
        decode_serial(
            encode_serial(item, part_width(db, item.version), generic_width(db, item.version)),
            db,
        ) == Ok::<ItemSerialView, CorruptItemError>(
            ItemSerialView {
                checksum: checksum_of(
                    pack(
                        serial_bits(
                            item,
                            part_width(db, item.version),
                            generic_width(db, item.version),
                        ),
                    ),
                ),
                ..item
            },
        ),
{
    let pw = part_width(db, item.version);
    let gw = generic_width(db, item.version);
    let sb = serial_bits(item, pw, gw);
    let body = pack(sb);
    let sum = checksum_of(body);
    let lo = (sum % 256) as u8;
    let hi = (sum / 256) as u8;
    let bytes = encode_serial(item, pw, gw);
    let bits = unpack(bytes);
    let np = item.parts.len();
    let ng = item.generic_parts.len();
    lemma2_to64();
    lemma_unpack_pack(sb);
    lemma_unpack_push(body, lo);
    lemma_unpack_push(body.push(lo), hi);
    lemma_unpack_len(bytes);
    lemma_serial_layout(item, pw, gw);
    assert(sb.is_prefix_of(bits));
    lemma_fields_read_back(item, pw, gw, bits);
    assert(bytes.take(body.len() as int) =~= body);
}

/// Where the fields of a serial start.
pub proof fn lemma_serial_layout(item: ItemSerialView, pw: nat, gw: nat)
    ensures
        serial_bits(item, pw, gw).len() == 50 + item.parts.len() * pw + item.generic_parts.len()
            * gw,
        header_bits(item).len() == 40,
        (header_bits(item) + value_bits(item.parts.len(), 6) + list_bits(item.parts, pw)).len()
            == 46 + item.parts.len() * pw,
{
    lemma_list_bits_len(item.parts, pw);
    lemma_list_bits_len(item.generic_parts, gw);
    lemma_value_bits_len(item.version as nat, 8);
    lemma_value_bits_len(item.balance as nat, 16);
    lemma_value_bits_len(item.manufacturer as nat, 8);
    lemma_value_bits_len(item.rarity as nat, 8);
    lemma_value_bits_len(item.parts.len(), 6);
    lemma_value_bits_len(item.generic_parts.len(), 4);
}

/// A number is read back from a run of bits that starts with some bits
/// and then the number.
pub proof fn lemma_field_after(all: Seq<bool>, pre: Seq<bool>, value: nat, width: nat)
    requires
        value < pow2(width),
        (pre + value_bits(value, width)).is_prefix_of(all),
    ensures
        field_at(all, pre.len() as int, width as int) == value,
{
    lemma_value_bits_len(value, width);
    lemma_value_roundtrip(value, width);
    let written = pre + value_bits(value, width);
    assert forall|i: int| 0 <= i < width implies all.subrange(
        pre.len() as int,
        (pre.len() + width) as int,
    )[i] == value_bits(value, width)[i] by {
        assert(all[pre.len() + i] == written[pre.len() + i]);
    }
    assert(all.subrange(pre.len() as int, (pre.len() + width) as int) =~= value_bits(value, width));
}

/// A list is read back from a run of bits that starts with some bits and
/// then the list.
pub proof fn lemma_list_after(all: Seq<bool>, pre: Seq<bool>, xs: Seq<u32>, width: nat)
    requires
        all_fit(xs, width),
        (pre + list_bits(xs, width)).is_prefix_of(all),
    ensures
        read_list(all, pre.len() as int, xs.len(), width) == xs,
{
    let written = pre + list_bits(xs, width);
    let got = read_list(all, pre.len() as int, xs.len(), width);
    lemma_list_bits_len(xs, width);
    assert forall|k: int| 0 <= k < xs.len() implies got[k] == xs[k] by {
        lemma_list_bits_chunk(xs, width, k);
        lemma_value_roundtrip(xs[k] as nat, width);
        lemma_value_bits_len(xs[k] as nat, width);
        let from = pre.len() + k * width;
        assert forall|i: int| 0 <= i < width implies all.subrange(from, from + width)[i]
            == value_bits(xs[k] as nat, width)[i] by {
            assert(all[from + i] == written[from + i]);
            assert(list_bits(xs, width).subrange(k * width, k * width + width)[i] == list_bits(
                xs,
                width,
            )[k * width + i]);
        }
        assert(all.subrange(from, from + width) =~= value_bits(xs[k] as nat, width));
    }
    assert(got =~= xs);
}

/// Every field of an item is read back from a run of bits that starts with
/// the item's fields.
pub proof fn lemma_fields_read_back(item: ItemSerialView, pw: nat, gw: nat, bits: Seq<bool>)
    requires
        fits(item, pw, gw),
        serial_bits(item, pw, gw).is_prefix_of(bits),
    ensures
        field_at(bits, 0, 8) == item.version,
        field_at(bits, 8, 16) == item.balance,
        field_at(bits, 24, 8) == item.manufacturer,
        field_at(bits, 32, 8) == item.rarity,
        field_at(bits, 40, 6) == item.parts.len(),
        read_list(bits, 46, item.parts.len(), pw) == item.parts,
        field_at(bits, (46 + item.parts.len() * pw) as int, 4) == item.generic_parts.len(),
        read_list(bits, (50 + item.parts.len() * pw) as int, item.generic_parts.len(), gw)
            == item.generic_parts,
{
    lemma2_to64();
    lemma_serial_layout(item, pw, gw);
    lemma_value_bits_len(item.version as nat, 8);
    lemma_value_bits_len(item.balance as nat, 16);
    lemma_value_bits_len(item.manufacturer as nat, 8);
    lemma_value_bits_len(item.rarity as nat, 8);
    lemma_value_bits_len(item.parts.len(), 6);
    lemma_value_bits_len(item.generic_parts.len(), 4);
    lemma_list_bits_len(item.parts, pw);
    let run0 = Seq::<bool>::empty();
    let run1 = value_bits(item.version as nat, 8);
    let run2 = run1 + value_bits(item.balance as nat, 16);
    let run3 = run2 + value_bits(item.manufacturer as nat, 8);
    let run4 = run3 + value_bits(item.rarity as nat, 8);
    let run5 = run4 + value_bits(item.parts.len(), 6);
    let run6 = run5 + list_bits(item.parts, pw);
    let run7 = run6 + value_bits(item.generic_parts.len(), 4);
    let run8 = run7 + list_bits(item.generic_parts, gw);
    assert(run4 == header_bits(item));
    assert(run8 == serial_bits(item, pw, gw));
    assert(run7.is_prefix_of(run8));
    assert(run7.is_prefix_of(bits));
    assert(run6.is_prefix_of(run7));
    assert(run6.is_prefix_of(bits));
    assert(run5.is_prefix_of(run6));
    assert(run5.is_prefix_of(bits));
    assert(run4.is_prefix_of(run5));
    assert(run4.is_prefix_of(bits));
    assert(run3.is_prefix_of(run4));
    assert(run3.is_prefix_of(bits));
    assert(run2.is_prefix_of(run3));
    assert(run2.is_prefix_of(bits));
    assert(run1.is_prefix_of(run2));
    assert(run1.is_prefix_of(bits));
    assert(run0 + run1 =~= run1);
    lemma_field_after(bits, run0, item.version as nat, 8);
    lemma_field_after(bits, run1, item.balance as nat, 16);
    lemma_field_after(bits, run2, item.manufacturer as nat, 8);
    lemma_field_after(bits, run3, item.rarity as nat, 8);
    lemma_field_after(bits, run4, item.parts.len(), 6);
    lemma_list_after(bits, run5, item.parts, pw);
    assert(run5.len() == 46);
    lemma_field_after(bits, run6, item.generic_parts.len(), 4);
    lemma_list_after(bits, run7, item.generic_parts, gw);
    assert(run7.len() == 50 + item.parts.len() * pw);
}

/// Appending a part to an item and writing it gives a serial that reads
/// back as the same item with that part last and a checksum that matches
/// the new bytes.
pub proof fn lemma_append_part_roundtrip(item: ItemSerialView, part: u32, db: &InventorySerialDb)
    requires
        widths_at(db, item.version) is Some,
        fits(item, part_width(db, item.version), generic_width(db, item.version)),
        item.parts.len() < MAX_BL3_ITEM_PARTS,
        (part as nat) < pow2(part_width(db, item.version)),
    ensures
        ({
            let pw = part_width(db, item.version);
            let gw = generic_width(db, item.version);
            let written = encode_serial(with_part(item, part), pw, gw);
            let body = written.take(written.len() - 2);
            &&& written.len() >= 2
            &&& decode_serial(written, db) is Ok
            &&& decode_serial(written, db)->Ok_0.parts == item.parts.push(part)
            &&& decode_serial(written, db)->Ok_0.generic_parts == item.generic_parts
            &&& decode_serial(written, db)->Ok_0.version == item.version
            &&& decode_serial(written, db)->Ok_0.balance == item.balance
            &&& decode_serial(written, db)->Ok_0.manufacturer == item.manufacturer
            &&& decode_serial(written, db)->Ok_0.rarity == item.rarity
            &&& decode_serial(written, db)->Ok_0.checksum == checksum_of(body)
        }),
{
    let pw = part_width(db, item.version);
    let gw = generic_width(db, item.version);
    let longer = with_part(item, part);
    assert(all_fit(longer.parts, pw)) by {
        assert forall|i: int| 0 <= i < longer.parts.len() implies (#[trigger] longer.parts[i]
            as nat) < pow2(pw) by {
            if i < item.parts.len() {
                assert(longer.parts[i] == item.parts[i]);
            }
        }
    }
    lemma_decode_encode(longer, db);
    let written = encode_serial(longer, pw, gw);
    let packed = pack(serial_bits(longer, pw, gw));
    assert(written.take(written.len() - 2) =~= packed);
}

/// Version-sensitive indexing: two items that name the same part and are
/// written under different schema versions, each at the width of its own
/// version, read back as items whose part resolves to one and the same
/// name.
pub proof fn lemma_same_part_across_versions(
    a: ItemSerialView,
    b: ItemSerialView,
    i: int,
    j: int,
    db: &InventorySerialDb,
)
    requires
        encode_error(a, db) is None,
        encode_error(b, db) is None,
        0 <= i < a.parts.len(),
        0 <= j < b.parts.len(),
        a.parts[i] == b.parts[j],
        resolve(&db.parts, a.version, a.parts[i]) is Some,
        resolve(&db.parts, b.version, b.parts[j]) is Some,
    ensures
        ({
            let ra = decode_serial(
                encode_serial(a, part_width(db, a.version), generic_width(db, a.version)),
                db,
            );
            let rb = decode_serial(
                encode_serial(b, part_width(db, b.version), generic_width(db, b.version)),
                db,
            );
            &&& ra is Ok
            &&& rb is Ok
            &&& ra->Ok_0.version == a.version
            &&& rb->Ok_0.version == b.version
            &&& resolve(&db.parts, a.version, ra->Ok_0.parts[i]) == resolve(
                &db.parts,
                b.version,
                rb->Ok_0.parts[j],
            )
            &&& resolve(&db.parts, a.version, ra->Ok_0.parts[i]) == Some(
                db.parts.names@[a.parts[i] as int]@,
            )
        }),
{
    lemma_decode_encode(a, db);
    lemma_decode_encode(b, db);
}

/// Two to the power `width`.
fn limit_of(width: u8) -> (r: u64)
    requires
        width <= 32,
    ensures
        r as nat == pow2(width as nat),
{
    let mut r: u64 = 1;
    let mut k: u8 = 0;
    proof {
        lemma2_to64();
    }
    while k < width
        invariant
            k <= width <= 32,
            r as nat == pow2(k as nat),
        decreases width - k,
    {
        proof {
            lemma_pow2_unfold((k + 1) as nat);
            lemma2_to64();
            if k + 1 < 32 {
                lemma_pow2_strictly_increases((k + 1) as nat, 32);
            }
        }
        r = 2 * r;
        k = k + 1;
    }
    r
}

/// Whether every index of a list fits `width` bits.
fn list_fits(xs: &Vec<u32>, width: u8) -> (r: bool)
    requires
        width <= 32,
    ensures
        r == all_fit(xs@, width as nat),
{
    let limit: u64 = limit_of(width);
    let mut i: usize = 0;
    while i < xs.len()
        invariant
            i <= xs@.len(),
            limit as nat == pow2(width as nat),
            forall|j: int| 0 <= j < i ==> (#[trigger] xs@[j] as nat) < pow2(width as nat),
        decreases xs@.len() - i,
    {
        if (xs[i] as u64) >= limit {
            return false;
        }
        i = i + 1;
    }
    true
}

/// Appends every index of a list, each `width` bits wide.
fn write_list(out: &mut BitWriter, xs: &Vec<u32>, width: u8)
    requires
        old(out).wf(),
        width <= 32,
    ensures
        final(out).wf(),
        final(out)@ == old(out)@ + list_bits(xs@, width as nat),
{
    let mut i: usize = 0;
    proof {
        assert(xs@.take(0) =~= Seq::<u32>::empty());
        assert(old(out)@ + list_bits(xs@.take(0), width as nat) =~= old(out)@);
    }
    while i < xs.len()
        invariant
            out.wf(),
            width <= 32,
            i <= xs@.len(),
            out@ == old(out)@ + list_bits(xs@.take(i as int), width as nat),
        decreases xs@.len() - i,
    {
        out.write_bits(xs[i], width);
        proof {
            let next = xs@.take(i + 1);
            assert(next.drop_last() =~= xs@.take(i as int));
            assert(next.last() == xs@[i as int]);
            assert(old(out)@ + list_bits(next, width as nat) =~= (old(out)@ + list_bits(
                xs@.take(i as int),
                width as nat,
            )) + value_bits(xs@[i as int] as nat, width as nat));
        }
        i = i + 1;
    }
    proof {
        assert(xs@.take(i as int) =~= xs@);
    }
}

/// Reads `count` indices of `width` bits each; reads nothing it can keep
/// where the buffer ends before the last of them.
fn read_indices(rd: &mut BitReader, count: u32, width: u8) -> (out: Option<Vec<u32>>)
    requires
        old(rd).wf(),
        width <= 32,
    ensures
        final(rd).wf(),
        final(rd).buffer() == old(rd).buffer(),
        match out {
            Some(v) => {
                &&& old(rd).pos() + count * width <= 8 * old(rd).buffer().len()
                &&& final(rd).pos() == old(rd).pos() + count * width
                &&& v@ == read_list(old(rd).bits(), old(rd).pos(), count as nat, width as nat)
            },
            None => old(rd).pos() + count * width > 8 * old(rd).buffer().len(),
        },
{
    let mut v: Vec<u32> = Vec::new();
    let mut i: u32 = 0;
    let ghost start = rd.pos();
    let ghost bits = rd.bits();
    proof {
        assert(0 * width == 0) by (nonlinear_arith);
        rd.lemma_pos_in_buffer();
    }
    while i < count
        invariant
            rd.wf(),
            width <= 32,
            rd.pos() <= 8 * rd.buffer().len(),
            rd.buffer() == old(rd).buffer(),
            bits == old(rd).bits(),
            start == old(rd).pos(),
            i <= count,
            rd.pos() == start + i * width,
            v@.len() == i,
            forall|k: int| 0 <= k < i ==> v@[k] == field_at(bits, start + k * width, width as int) as u32,
        decreases count - i,
    {
        proof {
            assert((i + 1) * width == i * width + width) by (nonlinear_arith);
            assert((i + 1) * width <= count * width) by (nonlinear_arith)
                requires
                    i + 1 <= count,
            ;
        }
        match rd.read_bits(width) {
            Some(x) => {
                v.push(x);
            },
            None => {
                return None;
            },
        }
        i = i + 1;
    }
    proof {
        assert(v@ =~= read_list(bits, start, count as nat, width as nat));
    }
    Some(v)
}

/// The checksum of the first `len` bytes of a buffer.
fn checksum(bytes: &[u8], len: usize) -> (r: u16)
    requires
        len <= bytes@.len(),
    ensures
        r == checksum_of(bytes@.take(len as int)),
{
    (sum32(bytes, len) % 65536) as u16
}

impl ItemSerial {
    /// Writes the item as a serial, with index widths taken from the part
    /// tables at the item's own schema version and a fresh checksum. The
    /// `checksum` field is not read.
    pub fn encode(&self, db: &InventorySerialDb) -> (r: Result<Vec<u8>, ItemEncodeError>)
        ensures
            match r {
                Ok(bytes) => {
                    &&& encode_error(self@, db) is None
                    &&& widths_at(db, self.version) is Some
                    &&& bytes@ == encode_serial(
                        self@,
                        part_width(db, self.version),
                        generic_width(db, self.version),
                    )
                },
                Err(e) => encode_error(self@, db) == Some(e),
            },
    {
        let (pw, gw) = match db.widths_at(self.version) {
            Some(w) => w,
            None => {
                return Err(ItemEncodeError::UnknownVersion);
            },
        };
        if self.parts.len() > MAX_BL3_ITEM_PARTS || self.generic_parts.len()
            > MAX_BL3_ITEM_ANOINTMENTS {
            return Err(ItemEncodeError::TooManyParts);
        }
        if !list_fits(&self.parts, pw) || !list_fits(&self.generic_parts, gw) {
            return Err(ItemEncodeError::PartOutOfRange);
        }
        let mut out = BitWriter::new();
        out.write_bits(self.version as u32, 8);
        out.write_bits(self.balance as u32, 16);
        out.write_bits(self.manufacturer as u32, 8);
        out.write_bits(self.rarity as u32, 8);
        out.write_bits(self.parts.len() as u32, 6);
        write_list(&mut out, &self.parts, pw);
        out.write_bits(self.generic_parts.len() as u32, 4);
        write_list(&mut out, &self.generic_parts, gw);
        proof {
            assert(out@ =~= serial_bits(self@, pw as nat, gw as nat));
        }
        let mut bytes = out.finish();
        let sum: u16 = checksum(bytes.as_slice(), bytes.len());
        proof {
            assert(bytes@.take(bytes@.len() as int) =~= bytes@);
        }
        bytes.push((sum % 256) as u8);
        bytes.push((sum / 256) as u8);
        Ok(bytes)
    }

    /// Reads a serial. The widths of its indices are those of the part
    /// tables at the schema version that the serial itself names.
    pub fn decode(bytes: &[u8], db: &InventorySerialDb) -> (r: Result<
        ItemSerial,
        CorruptItemError,
    >)
        ensures
            match r {
                Ok(item) => decode_serial(bytes@, db) == Ok::<ItemSerialView, CorruptItemError>(
                    item@,
                ),
                Err(e) => decode_serial(bytes@, db) == Err::<ItemSerialView, CorruptItemError>(e),
            },
    {
        let mut rd = BitReader::new(bytes);
        let ghost bits = unpack(bytes@);
        proof {
            lemma2_to64();
            lemma_unpack_len(bytes@);
        }
        let version: u8 = match rd.read_bits(8) {
            Some(v) => v as u8,
            None => {
                return Err(CorruptItemError::Truncated);
            },
        };
        let (pw, gw) = match db.widths_at(version) {
            Some(w) => w,
            None => {
                return Err(CorruptItemError::UnknownVersion);
            },
        };
        let balance: u16 = match rd.read_bits(16) {
            Some(v) => v as u16,
            None => {
                return Err(CorruptItemError::Truncated);
            },
        };
        let manufacturer: u8 = match rd.read_bits(8) {
            Some(v) => v as u8,
            None => {
                return Err(CorruptItemError::Truncated);
            },
        };
        let rarity: u8 = match rd.read_bits(8) {
            Some(v) => v as u8,
            None => {
                return Err(CorruptItemError::Truncated);
            },
        };
        let np: u32 = match rd.read_bits(6) {
            Some(v) => v,
            None => {
                return Err(CorruptItemError::Truncated);
            },
        };
        let ghost gpos = 46 + np * pw;
        proof {
            assert(0 <= np * pw) by (nonlinear_arith)
                requires
                    0 <= np,
                    0 <= pw,
            ;
        }
        let parts = match read_indices(&mut rd, np, pw) {
            Some(v) => v,
            None => {
                return Err(CorruptItemError::Truncated);
            },
        };
        let ng: u32 = match rd.read_bits(4) {
            Some(v) => v,
            None => {
                return Err(CorruptItemError::Truncated);
            },
        };
        proof {
            assert(0 <= ng * gw) by (nonlinear_arith)
                requires
                    0 <= ng,
                    0 <= gw,
            ;
        }
        let generic_parts = match read_indices(&mut rd, ng, gw) {
            Some(v) => v,
            None => {
                return Err(CorruptItemError::Truncated);
            },
        };
        let body: usize = rd.byte_len();
        let len: usize = bytes.len();
        if len - body < 2 {
            return Err(CorruptItemError::Truncated);
        }
        if len - body > 2 {
            return Err(CorruptItemError::TrailingData);
        }
        let stored: u16 = bytes[body] as u16 + 256 * (bytes[body + 1] as u16);
        let sum: u16 = checksum(bytes, body);
        if stored != sum {
            return Err(CorruptItemError::ChecksumMismatch);
        }
        Ok(
            ItemSerial {
                version,
                balance,
                manufacturer,
                rarity,
                parts,
                generic_parts,
                checksum: stored,
            },
        )
    }
}

} // verus!
