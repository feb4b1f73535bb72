//! Bit-level cursors over byte buffers.
//!
//! A buffer is read as one long run of bits: bit `i` of the run is bit
//! `i % 8` of byte `i / 8`, counted from the least significant end. An
//! unsigned integer of `n` bits occupies `n` consecutive positions, least
//! significant bit first.

use vstd::arithmetic::power2::{lemma2_to64, lemma_pow2_pos, lemma_pow2_unfold, pow2};
use vstd::prelude::*;

verus! {

/// The number spelled by a run of bits, least significant first.
pub open spec fn bits_value(bits: Seq<bool>) -> nat
    decreases bits.len(),
{
    if bits.len() == 0 {
        0
    } else {
        (if bits[0] { 1nat } else { 0nat }) + 2 * bits_value(bits.skip(1))
    }
}

/// The `width` low bits of `value`, least significant first.
pub open spec fn value_bits(value: nat, width: nat) -> Seq<bool>
    decreases width,
{
    if width == 0 {
        Seq::empty()
    } else {
        seq![value % 2 == 1] + value_bits(value / 2, (width - 1) as nat)
    }
}

/// A run of `n` clear bits.
pub open spec fn zero_bits(n: nat) -> Seq<bool> {
    Seq::new(n, |i: int| false)
}

/// The bits of a byte buffer, eight per byte.
pub open spec fn unpack(bytes: Seq<u8>) -> Seq<bool>
    decreases bytes.len(),
{
    if bytes.len() == 0 {
        Seq::empty()
    } else {
        unpack(bytes.drop_last()) + value_bits(bytes.last() as nat, 8)
    }
}

/// Where the byte that starts at bit `start` ends inside a run of `len` bits.
pub open spec fn chunk_end(start: int, len: int) -> int {
    if start + 8 <= len {
        start + 8
    } else {
        len
    }
}

/// The bytes that hold a run of bits; the last byte is filled up with clear
/// bits.
pub open spec fn pack(bits: Seq<bool>) -> Seq<u8> {
    Seq::new(
        ((bits.len() + 7) / 8) as nat,
        |i: int| bits_value(bits.subrange(8 * i, chunk_end(8 * i, bits.len() as int))) as u8,
    )
}

/// The number of clear bits that `pack` adds to a run of `len` bits.
pub open spec fn padding(len: nat) -> nat {
    (8 * ((len + 7) / 8) - len) as nat
}

/// The unsigned integer held in `width` bits from bit `pos` on.
pub open spec fn field_at(bits: Seq<bool>, pos: int, width: int) -> nat {
    bits_value(bits.subrange(pos, pos + width))
}

pub proof fn lemma_value_bits_len(value: nat, width: nat)
    ensures
        value_bits(value, width).len() == width,
    decreases width,
{
    if width > 0 {
        lemma_value_bits_len(value / 2, (width - 1) as nat);
    }
}

/// A run of `n` bits spells a number below two to the `n`.
pub proof fn lemma_bits_value_bound(bits: Seq<bool>)
    ensures
        bits_value(bits) < pow2(bits.len()),
    decreases bits.len(),
{
    if bits.len() == 0 {
        lemma2_to64();
    } else {
        lemma_bits_value_bound(bits.skip(1));
        lemma_pow2_unfold(bits.len());
    }
}

/// Writing a number that fits and reading it back gives the number.
pub proof fn lemma_value_roundtrip(value: nat, width: nat)
    requires
        value < pow2(width),
    ensures
        bits_value(value_bits(value, width)) == value,
    decreases width,
{
    if width == 0 {
        lemma2_to64();
    } else {
        lemma_pow2_unfold(width);
        let rest = value_bits(value / 2, (width - 1) as nat);
        lemma_value_roundtrip(value / 2, (width - 1) as nat);
        let all = value_bits(value, width);
        assert(all.skip(1) =~= rest);
        assert(all[0] == (value % 2 == 1));
    }
}

/// Reading a run of bits as a number and writing it out at least as wide
/// gives the run, followed by clear bits.
pub proof fn lemma_bits_roundtrip(bits: Seq<bool>, width: nat)
    requires
        bits.len() <= width,
    ensures
        value_bits(bits_value(bits), width) == bits + zero_bits((width - bits.len()) as nat),
    decreases width,
{
    let want = bits + zero_bits((width - bits.len()) as nat);
    if width == 0 {
        assert(value_bits(bits_value(bits), width) =~= want);
    } else if bits.len() == 0 {
        lemma_bits_roundtrip(bits, (width - 1) as nat);
        assert(value_bits(0, (width - 1) as nat) == bits + zero_bits((width - 1) as nat));
        assert(value_bits(bits_value(bits), width) =~= want);
    } else {
        let tail = bits.skip(1);
        lemma_bits_roundtrip(tail, (width - 1) as nat);
        let v = bits_value(bits);
        assert(v / 2 == bits_value(tail));
        assert((v % 2 == 1) == bits[0]);
        assert(value_bits(v, width) =~= want);
    }
}

pub proof fn lemma_unpack_len(bytes: Seq<u8>)
    ensures
        unpack(bytes).len() == 8 * bytes.len(),
    decreases bytes.len(),
{
    if bytes.len() > 0 {
        lemma_unpack_len(bytes.drop_last());
        lemma_value_bits_len(bytes.last() as nat, 8);
    }
}

/// The eight bits that start at bit `8 * i` are those of byte `i`.
pub proof fn lemma_unpack_chunk(bytes: Seq<u8>, i: int)
    requires
        0 <= i < bytes.len(),
    ensures
        unpack(bytes).len() == 8 * bytes.len(),
        unpack(bytes).subrange(8 * i, 8 * i + 8) == value_bits(bytes[i] as nat, 8),
    decreases bytes.len(),
{
    lemma_unpack_len(bytes);
    lemma_unpack_len(bytes.drop_last());
    lemma_value_bits_len(bytes.last() as nat, 8);
    if i == bytes.len() - 1 {
        assert(unpack(bytes).subrange(8 * i, 8 * i + 8) =~= value_bits(bytes[i] as nat, 8));
    } else {
        lemma_unpack_chunk(bytes.drop_last(), i);
        assert(unpack(bytes).subrange(8 * i, 8 * i + 8) =~= unpack(bytes.drop_last()).subrange(
            8 * i,
            8 * i + 8,
        ));
    }
}

/// Bit `i` of a buffer is bit `i % 8` of byte `i / 8`.
pub proof fn lemma_unpack_index(bytes: Seq<u8>, i: int)
    requires
        0 <= i < 8 * bytes.len(),
    ensures
        unpack(bytes).len() == 8 * bytes.len(),
        value_bits(bytes[i / 8] as nat, 8).len() == 8,
        unpack(bytes)[i] == value_bits(bytes[i / 8] as nat, 8)[i % 8],
{
    lemma_unpack_chunk(bytes, i / 8);
    lemma_value_bits_len(bytes[i / 8] as nat, 8);
    assert(unpack(bytes).subrange(8 * (i / 8), 8 * (i / 8) + 8)[i % 8] == unpack(bytes)[i]);
}

/// Appending a byte appends its eight bits.
pub proof fn lemma_unpack_push(bytes: Seq<u8>, byte: u8)
    ensures
        unpack(bytes.push(byte)) == unpack(bytes) + value_bits(byte as nat, 8),
{
    assert(bytes.push(byte).drop_last() =~= bytes);
}

/// Packing a run of bits and unpacking the bytes gives the run back,
/// followed by the clear bits that fill the last byte.
pub proof fn lemma_unpack_pack(bits: Seq<bool>)
    ensures
        pack(bits).len() == (bits.len() + 7) / 8,
        unpack(pack(bits)) == bits + zero_bits(padding(bits.len())),
{
    let bytes = pack(bits);
    let want = bits + zero_bits(padding(bits.len()));
    lemma_unpack_len(bytes);
    assert(unpack(bytes).len() == want.len());
    assert forall|i: int| 0 <= i < want.len() implies unpack(bytes)[i] == want[i] by {
        let q = i / 8;
        let chunk = bits.subrange(8 * q, chunk_end(8 * q, bits.len() as int));
        lemma_unpack_index(bytes, i);
        lemma_bits_value_bound(chunk);
        lemma2_to64();
        if chunk.len() < 8 {
            vstd::arithmetic::power2::lemma_pow2_strictly_increases(chunk.len(), 8);
        }
        assert(bytes[q] as nat == bits_value(chunk));
        lemma_bits_roundtrip(chunk, 8);
    }
    assert(unpack(bytes) =~= want);
}

/// Setting the bit just above a number of `used` bits appends that bit.
pub proof fn lemma_value_bits_push(acc: nat, used: nat, bit: bool)
    requires
        acc < pow2(used),
    ensures
        value_bits(acc + (if bit { pow2(used) } else { 0 }), used + 1) == value_bits(
            acc,
            used,
        ).push(bit),
        acc + (if bit { pow2(used) } else { 0 }) < pow2(used + 1),
    decreases used,
{
    let next = acc + (if bit { pow2(used) } else { 0 });
    lemma_pow2_unfold(used + 1);
    lemma_pow2_pos(used);
    if used == 0 {
        lemma2_to64();
        assert(value_bits(next / 2, 0) =~= Seq::<bool>::empty());
        assert(value_bits(acc, 0) =~= Seq::<bool>::empty());
        assert(value_bits(next, 1) =~= value_bits(acc, used).push(bit));
    } else {
        lemma_pow2_unfold(used);
        lemma_value_bits_push(acc / 2, (used - 1) as nat, bit);
        let half = pow2((used - 1) as nat);
        assert(next / 2 == acc / 2 + (if bit { half } else { 0 }));
        assert(next % 2 == acc % 2);
        assert(value_bits(next, used + 1) =~= value_bits(acc, used).push(bit));
    }
}

/// Bit `k` of a byte.
pub fn bit_of(byte: u8, k: u8) -> (bit: bool)
    requires
        k < 8,
    ensures
        bit == value_bits(byte as nat, 8)[k as int],
{
    let mut cur: u8 = byte;
    let mut j: u8 = 0;
    proof {
        lemma_value_bits_len(byte as nat, 8);
    }
    while j < k
        invariant
            j <= k < 8,
            value_bits(cur as nat, (8 - j) as nat).len() == 8 - j,
            value_bits(byte as nat, 8)[k as int] == value_bits(cur as nat, (8 - j) as nat)[k - j],
        decreases k - j,
    {
        proof {
            lemma_value_bits_len((cur / 2) as nat, (7 - j) as nat);
        }
        cur = cur / 2;
        j = j + 1;
    }
    cur % 2 == 1
}

/// A read cursor over a byte buffer: the buffer and a bit offset into it.
pub struct BitReader<'a> {
    data: &'a [u8],
    byte: usize,
    bit: u8,
}

impl<'a> BitReader<'a> {
    /// The cursor's invariant: the offset lies inside the buffer or at its end.
    pub closed spec fn wf(&self) -> bool {
        &&& self.bit < 8
        &&& self.byte <= self.data@.len()
        &&& self.byte == self.data@.len() ==> self.bit == 0
    }

    /// The bytes under the cursor.
    pub closed spec fn buffer(&self) -> Seq<u8> {
        self.data@
    }

    /// The bits under the cursor.
    pub open spec fn bits(&self) -> Seq<bool> {
        unpack(self.buffer())
    }

    /// The offset, in bits from the start of the buffer.
    pub closed spec fn pos(&self) -> int {
        8 * self.byte + self.bit
    }

    /// A cursor never stands beyond the end of its buffer.
    pub proof fn lemma_pos_in_buffer(&self)
        requires
            self.wf(),
        ensures
            0 <= self.pos() <= 8 * self.buffer().len(),
    {
    }

    /// A cursor at the first bit of `data`.
    pub fn new(data: &'a [u8]) -> (r: Self)
        ensures
            r.wf(),
            r.buffer() == data@,
            r.pos() == 0,
    {
        BitReader { data, byte: 0, bit: 0 }
    }

    /// Whether `width` more bits can be read.
    pub fn has(&self, width: u8) -> (r: bool)
        requires
            self.wf(),
        ensures
            r == (self.pos() + width <= 8 * self.buffer().len()),
            0 <= self.pos() <= 8 * self.buffer().len(),
    {
        let left: usize = self.data.len() - self.byte;
        if left > 32 {
            true
        } else {
            let avail: usize = 8 * left - (self.bit as usize);
            (width as usize) <= avail
        }
    }

    /// Whether the cursor stands at the end of the buffer.
    pub fn at_end(&self) -> (r: bool)
        requires
            self.wf(),
        ensures
            r == (self.pos() == 8 * self.buffer().len()),
    {
        self.byte == self.data.len()
    }

    /// The number of bytes that the bits before the cursor reach into.
    pub fn byte_len(&self) -> (r: usize)
        requires
            self.wf(),
        ensures
            r == (self.pos() + 7) / 8,
            r <= self.buffer().len(),
    {
        let len: usize = self.data.len();
        if self.bit == 0 || self.byte >= len {
            self.byte
        } else {
            self.byte + 1
        }
    }

    /// Reads an unsigned integer of `width` bits and moves past it; reads
    /// nothing and stays where there are fewer bits left.
    pub fn read_bits(&mut self, width: u8) -> (r: Option<u32>)
        requires
            old(self).wf(),
            width <= 32,
        ensures
            final(self).wf(),
            final(self).buffer() == old(self).buffer(),
            0 <= old(self).pos() <= 8 * old(self).buffer().len(),
            match r {
                Some(v) => {
                    &&& old(self).pos() + width <= 8 * old(self).buffer().len()
                    &&& final(self).pos() == old(self).pos() + width
                    &&& v as nat == field_at(old(self).bits(), old(self).pos(), width as int)
                    &&& (v as nat) < pow2(width as nat)
                },
                None => {
                    &&& old(self).pos() + width > 8 * old(self).buffer().len()
                    &&& final(self).pos() == old(self).pos()
                },
            },
    {
        if !self.has(width) {
            return None;
        }
        let len: usize = self.data.len();
        let ghost bits = unpack(self.data@);
        let ghost pos = 8 * self.byte + self.bit;
        proof {
            lemma_unpack_len(self.data@);
            lemma2_to64();
        }
        let mut acc: u64 = 0;
        let mut j: u8 = width;
        proof {
            assert(bits.subrange(pos + j, pos + width) =~= Seq::<bool>::empty());
        }
        while j > 0
            invariant
                self.wf(),
                self == old(self),
                bits == unpack(self.data@),
                bits.len() == 8 * self.data@.len(),
                len == self.data@.len(),
                pos == 8 * self.byte + self.bit,
                0 <= j <= width <= 32,
                pos + width <= bits.len(),
                acc as nat == bits_value(bits.subrange(pos + j, pos + width)),
            decreases j,
        {
            let off: usize = (self.bit as usize) + (j as usize) - 1;
            let at: usize = self.byte + off / 8;
            let k: u8 = (off % 8) as u8;
            let b: bool = bit_of(self.data[at], k);
            proof {
                let idx = pos + j - 1;
                assert(idx / 8 == at && idx % 8 == k);
                lemma_unpack_index(self.data@, idx);
                let run = bits.subrange(idx, pos + width);
                assert(run[0] == b);
                assert(run.skip(1) =~= bits.subrange(pos + j, pos + width));
                lemma_bits_value_bound(run);
                vstd::arithmetic::power2::lemma_pow2_strictly_increases(run.len(), 33);
                lemma2_to64_33();
            }
            acc = 2 * acc + (if b { 1 } else { 0 });
            j = j - 1;
        }
        proof {
            lemma_bits_value_bound(bits.subrange(pos, pos + width));
            if width < 32 {
                vstd::arithmetic::power2::lemma_pow2_strictly_increases(width as nat, 32);
            }
        }
        let total: usize = (self.bit as usize) + (width as usize);
        self.byte = self.byte + total / 8;
        self.bit = (total % 8) as u8;
        Some(acc as u32)
    }
}

/// Two to the thirty-third.
pub proof fn lemma2_to64_33()
    ensures
        pow2(33) == 0x2_0000_0000,
{
    lemma2_to64();
    lemma_pow2_unfold(33);
}

/// A write cursor: the bytes filled so far and the bits of the byte being
/// filled.
pub struct BitWriter {
    bytes: Vec<u8>,
    acc: u8,
    used: u8,
    weight: u8,
}

impl View for BitWriter {
    type V = Seq<bool>;

    /// The bits written so far.
    closed spec fn view(&self) -> Seq<bool> {
        unpack(self.bytes@) + value_bits(self.acc as nat, self.used as nat)
    }
}

impl BitWriter {
    /// The cursor's invariant.
    pub closed spec fn wf(&self) -> bool {
        &&& self.used < 8
        &&& self.weight as nat == pow2(self.used as nat)
        &&& (self.acc as nat) < pow2(self.used as nat)
    }

    /// A cursor that has written nothing.
    pub fn new() -> (r: Self)
        ensures
            r.wf(),
            r@ == Seq::<bool>::empty(),
    {
        proof {
            lemma2_to64();
            assert(unpack(Seq::<u8>::empty()) + value_bits(0, 0) =~= Seq::<bool>::empty());
        }
        BitWriter { bytes: Vec::new(), acc: 0, used: 0, weight: 1 }
    }

    /// Appends one bit.
    pub fn push_bit(&mut self, bit: bool)
        requires
            old(self).wf(),
        ensures
            final(self).wf(),
            final(self)@ == old(self)@.push(bit),
    {
        proof {
            lemma2_to64();
            lemma_value_bits_push(self.acc as nat, self.used as nat, bit);
            lemma_pow2_unfold((self.used + 1) as nat);
            if self.used < 7 {
                vstd::arithmetic::power2::lemma_pow2_strictly_increases(
                    (self.used + 1) as nat,
                    8,
                );
            }
        }
        let ghost before = self@;
        let ghost done = unpack(self.bytes@);
        let next: u8 = if bit {
            self.acc + self.weight
        } else {
            self.acc
        };
        if self.used == 7 {
            self.bytes.push(next);
            self.acc = 0;
            self.used = 0;
            self.weight = 1;
            proof {
                lemma_unpack_push(old(self).bytes@, next);
                assert(value_bits(0, 0) =~= Seq::<bool>::empty());
                assert(self@ =~= done + value_bits(next as nat, 8));
                assert(before.push(bit) =~= done + value_bits(old(self).acc as nat, 7).push(bit));
            }
        } else {
            self.acc = next;
            self.used = self.used + 1;
            self.weight = self.weight * 2;
            proof {
                assert(before.push(bit) =~= done + value_bits(old(self).acc as nat, old(
                    self,
                ).used as nat).push(bit));
            }
        }
    }

    /// Appends the `width` low bits of `value`, least significant first.
    pub fn write_bits(&mut self, value: u32, width: u8)
        requires
            old(self).wf(),
            width <= 32,
        ensures
            final(self).wf(),
            final(self)@ == old(self)@ + value_bits(value as nat, width as nat),
    {
        let mut cur: u32 = value;
        let mut k: u8 = 0;
        proof {
            lemma_value_bits_len(value as nat, width as nat);
        }
        while k < width
            invariant
                self.wf(),
                k <= width,
                old(self)@ + value_bits(value as nat, width as nat) == self@ + value_bits(
                    cur as nat,
                    (width - k) as nat,
                ),
            decreases width - k,
        {
            let ghost was = self@;
            let ghost rest = value_bits((cur / 2) as nat, (width - k - 1) as nat);
            self.push_bit(cur % 2 == 1);
            proof {
                assert(was + (seq![cur % 2 == 1] + rest) =~= was.push(cur % 2 == 1) + rest);
            }
            cur = cur / 2;
            k = k + 1;
        }
        proof {
            assert(self@ + value_bits(cur as nat, 0) =~= self@);
        }
    }

    /// The bytes that hold what was written.
    pub fn finish(self) -> (out: Vec<u8>)
        requires
            self.wf(),
        ensures
            out@ == pack(self@),
    {
        let ghost bits = self@;
        let ghost full = self.bytes@;
        let ghost tail = value_bits(self.acc as nat, self.used as nat);
        let mut out = self.bytes;
        proof {
            lemma_unpack_len(full);
            lemma_value_bits_len(self.acc as nat, self.used as nat);
            lemma_value_roundtrip(self.acc as nat, self.used as nat);
        }
        if self.used > 0 {
            out.push(self.acc);
        }
        proof {
            assert(out@.len() == pack(bits).len());
            assert forall|i: int| 0 <= i < out@.len() implies out@[i] == pack(bits)[i] by {
                let chunk = bits.subrange(8 * i, chunk_end(8 * i, bits.len() as int));
                if i < full.len() {
                    lemma_unpack_chunk(full, i);
                    assert(chunk =~= unpack(full).subrange(8 * i, 8 * i + 8));
                    lemma2_to64();
                    lemma_value_roundtrip(full[i] as nat, 8);
                } else {
                    assert(chunk =~= tail);
                }
            }
            assert(out@ =~= pack(bits));
        }
        out
    }
}

} // verus!
