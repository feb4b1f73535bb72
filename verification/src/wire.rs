//! The tag/length/value records that the character payload is made of.
//!
//! A record is a key and a value. The key is a variable-length integer
//! that holds the field number, times eight, plus the wire kind of the
//! value:
//!
//! | kind | value                                             |
//! |------|---------------------------------------------------|
//! | 0    | a variable-length integer                         |
//! | 1    | eight bytes, low byte first                       |
//! | 2    | a variable-length byte count, then that many bytes|
//! | 5    | four bytes, low byte first                        |
//!
//! A variable-length integer is written seven bits to a byte, low bits
//! first, every byte but the last with its top bit set. Only the shortest
//! form of a number is accepted, and no number beyond 64 bits.

use crate::parser::{
    le32, le64, lemma_le32_bound, lemma_le64_bound, lemma_put_int, lemma_put_long, lemma_take_int,
    lemma_take_long, put_int, put_long, read_int, read_long, write_bytes, write_int, write_long,
    Input,
};
use vstd::prelude::*;

verus! {

/// The most bytes that a variable-length integer of 64 bits takes.
pub const MAX_VARINT_LEN: u8 = 10;

/// The value of a record as it is on the wire.
#[derive(Clone, Debug, PartialEq, Eq)]
pub enum WireValue {
    Varint(u64),
    Fixed64(u64),
    Bytes(Vec<u8>),
    Fixed32(u32),
}

/// The mathematical content of a `WireValue`.
pub ghost enum WireValueView {
    Varint(u64),
    Fixed64(u64),
    Bytes(Seq<u8>),
    Fixed32(u32),
}

impl View for WireValue {
    type V = WireValueView;

    open spec fn view(&self) -> WireValueView {
        match self {
            WireValue::Varint(v) => WireValueView::Varint(*v),
            WireValue::Fixed64(v) => WireValueView::Fixed64(*v),
            WireValue::Bytes(b) => WireValueView::Bytes(b@),
            WireValue::Fixed32(v) => WireValueView::Fixed32(*v),
        }
    }
}

/// One record: a field number and a value.
#[derive(Clone, Debug, PartialEq, Eq)]
pub struct Record {
    pub number: u32,
    pub value: WireValue,
}

/// The mathematical content of a `Record`.
pub ghost struct RecordView {
    pub number: u32,
    pub value: WireValueView,
}

impl View for Record {
    type V = RecordView;

    open spec fn view(&self) -> RecordView {
        RecordView { number: self.number, value: self.value@ }
    }
}

/// The bytes of a variable-length integer.
pub open spec fn varint(v: nat) -> Seq<u8>
    decreases v,
{
    if v < 128 {
        seq![v as u8]
    } else {
        seq![(128 + v % 128) as u8] + varint(v / 128)
    }
}

/// A variable-length integer of at most `budget` bytes and what follows
/// it. Nothing where the bytes end too soon, the form is not the shortest
/// or the number does not fit 64 bits.
pub open spec fn take_varint(s: Seq<u8>, budget: nat) -> Option<(u64, Seq<u8>)>
    decreases budget,
{
    if budget == 0 || s.len() == 0 {
        None
    } else if s[0] < 128 {
        Some((s[0] as u64, s.skip(1)))
    } else {
        match take_varint(s.skip(1), (budget - 1) as nat) {
            Some((hi, rest)) => if hi == 0 || (s[0] - 128) + 128 * hi > u64::MAX {
                None
            } else {
                Some((((s[0] - 128) + 128 * hi) as u64, rest))
            },
            None => None,
        }
    }
}

/// The wire kind of a value.
pub open spec fn kind_of(value: WireValueView) -> nat {
    match value {
        WireValueView::Varint(_) => 0,
        WireValueView::Fixed64(_) => 1,
        WireValueView::Bytes(_) => 2,
        WireValueView::Fixed32(_) => 5,
    }
}

/// The bytes of a value.
pub open spec fn put_value(value: WireValueView) -> Seq<u8> {
    match value {
        WireValueView::Varint(v) => varint(v as nat),
        WireValueView::Fixed64(v) => put_long(v),
        WireValueView::Bytes(b) => varint(b.len()) + b,
        WireValueView::Fixed32(v) => put_int(v),
    }
}

/// The bytes of a record.
pub open spec fn put_record(r: RecordView) -> Seq<u8> {
    varint(r.number as nat * 8 + kind_of(r.value)) + put_value(r.value)
}

/// The bytes of a sequence of records.
pub open spec fn put_records(rs: Seq<RecordView>) -> Seq<u8>
    decreases rs.len(),
{
    if rs.len() == 0 {
        Seq::empty()
    } else {
        put_record(rs[0]) + put_records(rs.skip(1))
    }
}

/// A value of the given wire kind and what follows it.
pub open spec fn take_value(s: Seq<u8>, kind: int) -> Option<(WireValueView, Seq<u8>)> {
    if kind == 0 {
        match take_varint(s, MAX_VARINT_LEN as nat) {
            Some((v, rest)) => Some((WireValueView::Varint(v), rest)),
            None => None,
        }
    } else if kind == 1 {
        if s.len() < 8 {
            None
        } else {
            Some((WireValueView::Fixed64(le64(s) as u64), s.skip(8)))
        }
    } else if kind == 2 {
        match take_varint(s, MAX_VARINT_LEN as nat) {
            Some((n, rest)) => if rest.len() < n {
                None
            } else {
                Some((WireValueView::Bytes(rest.take(n as int)), rest.skip(n as int)))
            },
            None => None,
        }
    } else if kind == 5 {
        if s.len() < 4 {
            None
        } else {
            Some((WireValueView::Fixed32(le32(s) as u32), s.skip(4)))
        }
    } else {
        None
    }
}

/// A record and what follows it.
pub open spec fn take_record(s: Seq<u8>) -> Option<(RecordView, Seq<u8>)> {
    match take_varint(s, MAX_VARINT_LEN as nat) {
        Some((key, rest)) => if key / 8 > u32::MAX {
            None
        } else {
            match take_value(rest, (key % 8) as int) {
                Some((value, after)) => Some(
                    (RecordView { number: (key / 8) as u32, value }, after),
                ),
                None => None,
            }
        },
        None => None,
    }
}

/// The records that a buffer consists of; nothing where it does not
/// consist of records.
pub open spec fn take_records(s: Seq<u8>) -> Option<Seq<RecordView>>
    decreases s.len(),
{
    if s.len() == 0 {
        Some(Seq::empty())
    } else {
        match take_record(s) {
            Some((r, rest)) => if rest.len() >= s.len() {
                None
            } else {
                match take_records(rest) {
                    Some(rs) => Some(seq![r] + rs),
                    None => None,
                }
            },
            None => None,
        }
    }
}

/// Whether a value can be written: a byte string must not be longer than
/// a 64-bit count can say.
pub open spec fn value_wf(value: WireValueView) -> bool {
    match value {
        WireValueView::Bytes(b) => b.len() <= u64::MAX,
        _ => true,
    }
}

pub proof fn lemma_varint_nonempty(v: nat)
    ensures
        varint(v).len() >= 1,
    decreases v,
{
    if v >= 128 {
        lemma_varint_nonempty(v / 128);
    }
}

/// A number below `128^budget` takes at most `budget` bytes.
pub open spec fn fits_bytes(v: nat, budget: nat) -> bool
    decreases budget,
{
    if budget == 0 {
        false
    } else {
        v < 128 || fits_bytes(v / 128, (budget - 1) as nat)
    }
}

/// Every 64-bit number takes at most ten bytes.
pub proof fn lemma_u64_fits(v: u64)
    ensures
        fits_bytes(v as nat, 10),
{
    reveal_with_fuel(fits_bytes, 11);
    let v0 = v as nat;
    let v1 = v0 / 128;
    let v2 = v1 / 128;
    let v3 = v2 / 128;
    let v4 = v3 / 128;
    let v5 = v4 / 128;
    let v6 = v5 / 128;
    let v7 = v6 / 128;
    let v8 = v7 / 128;
    let v9 = v8 / 128;
    assert(v9 < 128);
}

/// A variable-length integer that was read is the one that `varint`
/// writes.
pub proof fn lemma_take_varint(s: Seq<u8>, budget: nat, v: u64, rest: Seq<u8>)
    requires
        take_varint(s, budget) == Some((v, rest)),
    ensures
        s == varint(v as nat) + rest,
        rest.len() < s.len(),
    decreases budget,
{
    if s[0] < 128 {
        assert(s =~= varint(v as nat) + rest);
    } else {
        let (hi, r2) = take_varint(s.skip(1), (budget - 1) as nat)->0;
        lemma_take_varint(s.skip(1), (budget - 1) as nat, hi, r2);
        assert(v as nat / 128 == hi);
        assert((128 + v as nat % 128) as u8 == s[0]);
        assert(s =~= seq![s[0]] + s.skip(1));
        assert(s =~= varint(v as nat) + rest);
    }
}

/// Reading what `varint` wrote gives the number back.
pub proof fn lemma_put_varint(v: u64, rest: Seq<u8>, budget: nat)
    requires
        fits_bytes(v as nat, budget),
    ensures
        take_varint(varint(v as nat) + rest, budget) == Some((v, rest)),
    decreases budget,
{
    let s = varint(v as nat) + rest;
    if v < 128 {
        assert(s.skip(1) =~= rest);
    } else {
        let hi = (v / 128) as u64;
        lemma_put_varint(hi, rest, (budget - 1) as nat);
        assert(s.skip(1) =~= varint(hi as nat) + rest);
    }
}

/// A value that was read is the value that `put_value` writes.
pub proof fn lemma_take_value(s: Seq<u8>, kind: int, value: WireValueView, rest: Seq<u8>)
    requires
        take_value(s, kind) == Some((value, rest)),
    ensures
        s == put_value(value) + rest,
        kind_of(value) == kind,
        value_wf(value),
        rest.len() <= s.len(),
{
    if kind == 0 {
        let (v, r) = take_varint(s, MAX_VARINT_LEN as nat)->0;
        lemma_take_varint(s, MAX_VARINT_LEN as nat, v, r);
    } else if kind == 1 {
        lemma_take_long(s);
        lemma_le64_bound(s);
    } else if kind == 2 {
        let (n, mid) = take_varint(s, MAX_VARINT_LEN as nat)->0;
        lemma_take_varint(s, MAX_VARINT_LEN as nat, n, mid);
        assert(mid =~= mid.take(n as int) + mid.skip(n as int));
        assert(s =~= varint(n as nat) + mid.take(n as int) + rest);
    } else {
        lemma_take_int(s);
        lemma_le32_bound(s);
    }
}

/// Reading what `put_value` wrote gives the value back.
pub proof fn lemma_put_value(value: WireValueView, rest: Seq<u8>)
    requires
        value_wf(value),
    ensures
        take_value(put_value(value) + rest, kind_of(value) as int) == Some((value, rest)),
{
    let s = put_value(value) + rest;
    match value {
        WireValueView::Varint(v) => {
            lemma_u64_fits(v);
            lemma_put_varint(v, rest, 10);
        },
        WireValueView::Fixed64(v) => {
            lemma_put_long(v, rest);
        },
        WireValueView::Bytes(b) => {
            let n = b.len() as u64;
            lemma_u64_fits(n);
            lemma_put_varint(n, b + rest, 10);
            assert(s =~= varint(b.len()) + (b + rest));
            assert((b + rest).take(n as int) =~= b);
            assert((b + rest).skip(n as int) =~= rest);
        },
        WireValueView::Fixed32(v) => {
            lemma_put_int(v, rest);
        },
    }
}

/// A record that was read is the record that `put_record` writes, and it
/// took at least one byte.
pub proof fn lemma_take_record(s: Seq<u8>, r: RecordView, rest: Seq<u8>)
    requires
        take_record(s) == Some((r, rest)),
    ensures
        s == put_record(r) + rest,
        value_wf(r.value),
        rest.len() < s.len(),
{
    let (key, mid) = take_varint(s, MAX_VARINT_LEN as nat)->0;
    lemma_take_varint(s, MAX_VARINT_LEN as nat, key, mid);
    lemma_take_value(mid, (key % 8) as int, r.value, rest);
    assert(r.number as nat * 8 + kind_of(r.value) == key);
    assert(s =~= put_record(r) + rest);
}

/// Reading what `put_record` wrote gives the record back.
pub proof fn lemma_put_record(r: RecordView, rest: Seq<u8>)
    requires
        value_wf(r.value),
    ensures
        take_record(put_record(r) + rest) == Some((r, rest)),
        put_record(r).len() >= 1,
{
    let key = (r.number as nat * 8 + kind_of(r.value)) as u64;
    let s = put_record(r) + rest;
    lemma_u64_fits(key);
    lemma_put_varint(key, put_value(r.value) + rest, 10);
    lemma_put_value(r.value, rest);
    lemma_varint_nonempty(key as nat);
    assert(s =~= varint(key as nat) + (put_value(r.value) + rest));
    assert(key / 8 == r.number);
    assert(key % 8 == kind_of(r.value));
}

/// Records that were read are the records that `put_records` writes.
pub proof fn lemma_take_records(s: Seq<u8>)
    requires
        take_records(s) is Some,
    ensures
        put_records(take_records(s)->0) == s,
        forall|i: int|
            0 <= i < take_records(s)->0.len() ==> value_wf(
                (#[trigger] take_records(s)->0[i]).value,
            ),
    decreases s.len(),
{
    let rs = take_records(s)->0;
    if s.len() == 0 {
        assert(put_records(rs) =~= s);
    } else {
        let (r, rest) = take_record(s)->0;
        lemma_take_record(s, r, rest);
        lemma_take_records(rest);
        let tail = take_records(rest)->0;
        assert(rs.skip(1) =~= tail);
        assert(rs[0] == r);
        assert forall|i: int| 0 <= i < rs.len() implies value_wf((#[trigger] rs[i]).value) by {
            if i > 0 {
                assert(rs[i] == tail[i - 1]);
            }
        }
    }
}

/// Whether every value of a sequence of records can be written.
pub open spec fn records_wf(rs: Seq<RecordView>) -> bool {
    forall|i: int| 0 <= i < rs.len() ==> value_wf((#[trigger] rs[i]).value)
}

/// Reading what `put_records` wrote gives the records back.
pub proof fn lemma_put_records(rs: Seq<RecordView>)
    requires
        records_wf(rs),
    ensures
        take_records(put_records(rs)) == Some(rs),
    decreases rs.len(),
{
    let s = put_records(rs);
    if rs.len() == 0 {
        assert(take_records(s)->0 =~= rs);
    } else {
        let tail = rs.skip(1);
        assert(records_wf(tail)) by {
            assert forall|i: int| 0 <= i < tail.len() implies value_wf(
                (#[trigger] tail[i]).value,
            ) by {
                assert(tail[i] == rs[i + 1]);
            }
        }
        lemma_put_records(tail);
        lemma_put_record(rs[0], put_records(tail));
        assert(seq![rs[0]] + tail =~= rs);
    }
}

/// Writing records one after another writes their sequence.
pub proof fn lemma_put_records_push(rs: Seq<RecordView>, r: RecordView)
    ensures
        put_records(rs.push(r)) == put_records(rs) + put_record(r),
    decreases rs.len(),
{
    if rs.len() == 0 {
        let one = rs.push(r);
        assert(one.skip(1) =~= Seq::<RecordView>::empty());
        assert(one[0] == r);
        assert(put_records(one) == put_record(r) + put_records(one.skip(1)));
        assert(put_records(one) =~= put_records(rs) + put_record(r));
    } else {
        lemma_put_records_push(rs.skip(1), r);
        assert(rs.push(r).skip(1) =~= rs.skip(1).push(r));
        assert(put_records(rs.push(r)) =~= put_records(rs) + put_record(r));
    }
}

/// Reads a variable-length integer of at most `budget` bytes.
pub fn read_varint(input: &mut Input, budget: u8) -> (r: Option<u64>)
    requires
        old(input).wf(),
    ensures
        final(input).wf(),
        match r {
            Some(v) => take_varint(old(input).rest(), budget as nat) == Some(
                (v, final(input).rest()),
            ),
            None => take_varint(old(input).rest(), budget as nat) is None,
        },
    decreases budget,
{
    if budget == 0 {
        return None;
    }
    let b: u8 = match input.read_byte() {
        Some(b) => b,
        None => {
            return None;
        },
    };
    if b < 128 {
        return Some(b as u64);
    }
    match read_varint(input, budget - 1) {
        Some(hi) => {
            if hi == 0 || hi > (u64::MAX - 127) / 128 {
                None
            } else {
                let v: u64 = (b - 128) as u64 + 128 * hi;
                Some(v)
            }
        },
        None => None,
    }
}

/// Appends a variable-length integer.
pub fn write_varint(out: &mut Vec<u8>, v: u64)
    ensures
        final(out)@ == old(out)@ + varint(v as nat),
{
    let mut cur: u64 = v;
    proof {
        assert(old(out)@ + varint(v as nat) =~= out@ + varint(cur as nat));
    }
    while cur >= 128
        invariant
            old(out)@ + varint(v as nat) == out@ + varint(cur as nat),
        decreases cur,
    {
        let ghost before = out@;
        out.push((128 + cur % 128) as u8);
        proof {
            assert(before + (seq![(128 + cur % 128) as u8] + varint((cur / 128) as nat))
                =~= out@ + varint((cur / 128) as nat));
        }
        cur = cur / 128;
    }
    out.push(cur as u8);
    proof {
        assert(old(out)@ + varint(v as nat) =~= out@);
    }
}

/// Reads one record.
pub fn read_record(input: &mut Input) -> (r: Option<Record>)
    requires
        old(input).wf(),
    ensures
        final(input).wf(),
        match r {
            Some(rec) => take_record(old(input).rest()) == Some((rec@, final(input).rest())),
            None => take_record(old(input).rest()) is None,
        },
{
    let key: u64 = match read_varint(input, MAX_VARINT_LEN) {
        Some(k) => k,
        None => {
            return None;
        },
    };
    if key / 8 > 0xffff_ffff {
        return None;
    }
    let number: u32 = (key / 8) as u32;
    let kind: u64 = key % 8;
    let ghost mid = input.rest();
    let value = if kind == 0 {
        match read_varint(input, MAX_VARINT_LEN) {
            Some(v) => WireValue::Varint(v),
            None => {
                return None;
            },
        }
    } else if kind == 1 {
        match read_long(input) {
            Ok(v) => WireValue::Fixed64(v),
            Err(_) => {
                return None;
            },
        }
    } else if kind == 2 {
        let n: u64 = match read_varint(input, MAX_VARINT_LEN) {
            Some(n) => n,
            None => {
                return None;
            },
        };
        if (input.remaining() as u64) < n {
            return None;
        }
        match input.read_bytes(n as usize) {
            Ok(b) => WireValue::Bytes(b),
            Err(_) => {
                return None;
            },
        }
    } else if kind == 5 {
        match read_int(input) {
            Ok(v) => WireValue::Fixed32(v),
            Err(_) => {
                return None;
            },
        }
    } else {
        return None;
    };
    Some(Record { number, value })
}

/// Appends a record whose value is a variable-length integer.
pub fn write_varint_record(out: &mut Vec<u8>, number: u32, v: u64)
    ensures
        final(out)@ == old(out)@ + put_record(
            RecordView { number, value: WireValueView::Varint(v) },
        ),
{
    let ghost before = out@;
    write_varint(out, (number as u64) * 8);
    write_varint(out, v);
    proof {
        assert(out@ =~= before + put_record(
            RecordView { number, value: WireValueView::Varint(v) },
        ));
    }
}

/// Appends a record whose value is a byte string.
pub fn write_bytes_record(out: &mut Vec<u8>, number: u32, bytes: &[u8])
    ensures
        final(out)@ == old(out)@ + put_record(
            RecordView { number, value: WireValueView::Bytes(bytes@) },
        ),
{
    let ghost before = out@;
    write_varint(out, (number as u64) * 8 + 2);
    write_varint(out, bytes.len() as u64);
    write_bytes(out, bytes);
    proof {
        assert(out@ =~= before + put_record(
            RecordView { number, value: WireValueView::Bytes(bytes@) },
        ));
    }
}

/// Appends one record.
pub fn write_record(out: &mut Vec<u8>, number: u32, value: &WireValue)
    ensures
        final(out)@ == old(out)@ + put_record(RecordView { number, value: value@ }),
{
    let ghost before = out@;
    let ghost r = RecordView { number, value: value@ };
    match value {
        WireValue::Varint(v) => {
            write_varint_record(out, number, *v);
        },
        WireValue::Fixed64(v) => {
            write_varint(out, (number as u64) * 8 + 1);
            write_long(out, *v);
        },
        WireValue::Bytes(b) => {
            write_bytes_record(out, number, b.as_slice());
        },
        WireValue::Fixed32(v) => {
            write_varint(out, (number as u64) * 8 + 5);
            write_int(out, *v);
        },
    }
    proof {
        assert(out@ =~= before + put_record(r));
    }
}

} // verus!
