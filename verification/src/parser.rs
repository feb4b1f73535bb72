//! Reading and writing the plain fields of the container: little-endian
//! integers, length-prefixed strings and runs of bytes.
//!
//! Each reader is specified by a `take_*` function from an input to a value
//! and the input that is left; each writer by the `put_*` function that is
//! its inverse.

use crate::error::FormatError;
use vstd::prelude::*;
use vstd::utf8::{decode_utf8, encode_utf8, valid_utf8};

verus! {

/// The bytes that every container starts with.
pub open spec fn magic() -> Seq<u8> {
    seq![0x47u8, 0x56u8, 0x41u8, 0x53u8]
}

/// The value of two bytes, low byte first.
pub open spec fn le16(s: Seq<u8>) -> int {
    s[0] as int + 256 * (s[1] as int)
}

/// The value of four bytes, low byte first.
pub open spec fn le32(s: Seq<u8>) -> int {
    s[0] as int + 256 * (s[1] as int) + 65536 * (s[2] as int) + 16777216 * (s[3] as int)
}

/// The value of eight bytes, low byte first.
pub open spec fn le64(s: Seq<u8>) -> int {
    le32(s.take(4)) + 4294967296 * le32(s.skip(4))
}

/// The two bytes of a short, low byte first.
pub open spec fn put_short(v: u16) -> Seq<u8> {
    seq![(v % 256) as u8, (v / 256) as u8]
}

/// The four bytes of an integer, low byte first.
pub open spec fn put_int(v: u32) -> Seq<u8> {
    seq![
        (v % 256) as u8,
        ((v / 256) % 256) as u8,
        ((v / 65536) % 256) as u8,
        (v / 16777216) as u8,
    ]
}

/// The eight bytes of a long, low byte first.
pub open spec fn put_long(v: u64) -> Seq<u8> {
    put_int((v % 4294967296) as u32) + put_int((v / 4294967296) as u32)
}

/// A string as the container holds it: the number of its bytes, then its
/// bytes.
pub open spec fn put_str(s: Seq<char>) -> Seq<u8> {
    put_int(encode_utf8(s).len() as u32) + encode_utf8(s)
}

/// The first `n` bytes and what follows them.
pub open spec fn take_bytes(s: Seq<u8>, n: nat) -> Result<(Seq<u8>, Seq<u8>), FormatError> {
    if s.len() < n {
        Err(FormatError::Truncated)
    } else {
        Ok((s.take(n as int), s.skip(n as int)))
    }
}

/// A short and what follows it.
pub open spec fn take_short(s: Seq<u8>) -> Result<(u16, Seq<u8>), FormatError> {
    if s.len() < 2 {
        Err(FormatError::Truncated)
    } else {
        Ok((le16(s) as u16, s.skip(2)))
    }
}

/// An integer and what follows it.
pub open spec fn take_int(s: Seq<u8>) -> Result<(u32, Seq<u8>), FormatError> {
    if s.len() < 4 {
        Err(FormatError::Truncated)
    } else {
        Ok((le32(s) as u32, s.skip(4)))
    }
}

/// A long and what follows it.
pub open spec fn take_long(s: Seq<u8>) -> Result<(u64, Seq<u8>), FormatError> {
    if s.len() < 8 {
        Err(FormatError::Truncated)
    } else {
        Ok((le64(s) as u64, s.skip(8)))
    }
}

/// A string and what follows it.
pub open spec fn take_str(s: Seq<u8>) -> Result<(Seq<char>, Seq<u8>), FormatError> {
    if s.len() < 4 {
        Err(FormatError::Truncated)
    } else if s.len() - 4 < le32(s) {
        Err(FormatError::Truncated)
    } else {
        let bytes = s.subrange(4, 4 + le32(s));
        if !valid_utf8(bytes) {
            Err(FormatError::BadString)
        } else {
            Ok((decode_utf8(bytes), s.skip(4 + le32(s))))
        }
    }
}

/// The magic bytes and what follows them.
pub open spec fn take_header(s: Seq<u8>) -> Result<Seq<u8>, FormatError> {
    if s.len() < 4 {
        Err(FormatError::Truncated)
    } else if s.take(4) != magic() {
        Err(FormatError::BadMagic)
    } else {
        Ok(s.skip(4))
    }
}

pub proof fn lemma_le32_bound(s: Seq<u8>)
    ensures
        0 <= le32(s) <= u32::MAX,
{
}

pub proof fn lemma_le64_bound(s: Seq<u8>)
    ensures
        0 <= le64(s) <= u64::MAX,
{
    lemma_le32_bound(s.take(4));
    lemma_le32_bound(s.skip(4));
}

/// A short that was read is the short that `put_short` writes.
pub proof fn lemma_take_short(s: Seq<u8>)
    requires
        s.len() >= 2,
    ensures
        s == put_short(le16(s) as u16) + s.skip(2),
{
    assert(s =~= put_short(le16(s) as u16) + s.skip(2));
}

pub proof fn lemma_put_short(v: u16, rest: Seq<u8>)
    ensures
        take_short(put_short(v) + rest) == Ok::<(u16, Seq<u8>), FormatError>((v, rest)),
{
    let s = put_short(v) + rest;
    assert(s.skip(2) =~= rest);
}

/// An integer that was read is the integer that `put_int` writes.
pub proof fn lemma_take_int(s: Seq<u8>)
    requires
        s.len() >= 4,
    ensures
        s == put_int(le32(s) as u32) + s.skip(4),
        s.take(4) == put_int(le32(s) as u32),
{
    assert(s =~= put_int(le32(s) as u32) + s.skip(4));
    assert(s.take(4) =~= put_int(le32(s) as u32));
}

pub proof fn lemma_put_int(v: u32, rest: Seq<u8>)
    ensures
        take_int(put_int(v) + rest) == Ok::<(u32, Seq<u8>), FormatError>((v, rest)),
        le32(put_int(v) + rest) == v,
        (put_int(v) + rest).skip(4) == rest,
{
    let s = put_int(v) + rest;
    assert(s.skip(4) =~= rest);
}

/// A long that was read is the long that `put_long` writes.
pub proof fn lemma_take_long(s: Seq<u8>)
    requires
        s.len() >= 8,
    ensures
        s == put_long(le64(s) as u64) + s.skip(8),
{
    lemma_take_int(s.take(4));
    lemma_take_int(s.skip(4));
    lemma_le32_bound(s.take(4));
    lemma_le32_bound(s.skip(4));
    let lo = le32(s.take(4));
    let hi = le32(s.skip(4));
    assert(s.take(4).take(4) =~= s.take(4));
    assert(s.skip(4).take(4) =~= s.subrange(4, 8));
    assert(s =~= s.take(4) + s.subrange(4, 8) + s.skip(8));
    assert((le64(s) as u64) % 4294967296 == lo);
    assert((le64(s) as u64) / 4294967296 == hi);
}

pub proof fn lemma_put_long(v: u64, rest: Seq<u8>)
    ensures
        take_long(put_long(v) + rest) == Ok::<(u64, Seq<u8>), FormatError>((v, rest)),
{
    let lo = (v % 4294967296) as u32;
    let hi = (v / 4294967296) as u32;
    let s = put_long(v) + rest;
    lemma_put_int(lo, Seq::empty());
    lemma_put_int(hi, rest);
    assert(s.take(4) =~= put_int(lo) + Seq::<u8>::empty());
    assert(s.skip(4) =~= put_int(hi) + rest);
    assert(s.skip(8) =~= rest);
}

/// A string that was read is the string that `put_str` writes.
pub proof fn lemma_take_str(s: Seq<u8>)
    requires
        take_str(s) is Ok,
    ensures
        s == put_str(take_str(s)->Ok_0.0) + take_str(s)->Ok_0.1,
        encode_utf8(take_str(s)->Ok_0.0).len() <= u32::MAX,
{
    let n = le32(s);
    let bytes = s.subrange(4, 4 + n);
    vstd::utf8::decode_utf8_encode_utf8(bytes);
    lemma_take_int(s);
    assert(s =~= put_int(n as u32) + bytes + s.skip(4 + n));
}

pub proof fn lemma_put_str(v: Seq<char>, rest: Seq<u8>)
    requires
        encode_utf8(v).len() <= u32::MAX,
    ensures
        take_str(put_str(v) + rest) == Ok::<(Seq<char>, Seq<u8>), FormatError>((v, rest)),
{
    let bytes = encode_utf8(v);
    let s = put_str(v) + rest;
    vstd::utf8::encode_utf8_valid_utf8(v);
    vstd::utf8::encode_utf8_decode_utf8(v);
    assert(s =~= put_int(bytes.len() as u32) + (bytes + rest));
    lemma_put_int(bytes.len() as u32, bytes + rest);
    assert(s.subrange(4, 4 + bytes.len() as int) =~= bytes);
    assert(s.skip(4 + bytes.len() as int) =~= rest);
}

/// Builds a string from bytes with `String::from_utf8`: the string whose
/// UTF-8 encoding the bytes are, or nothing where they are not UTF-8.
#[verifier::external_body]
pub(crate) fn string_from_utf8(bytes: &[u8]) -> (r: Option<String>)
    ensures
        match r {
            Some(s) => valid_utf8(bytes@) && s@ == decode_utf8(bytes@),
            None => !valid_utf8(bytes@),
        },
{
    match String::from_utf8(bytes.to_vec()) {
        Ok(s) => Some(s),
        Err(_) => None,
    }
}

/// A read cursor over a byte buffer.
pub struct Input<'a> {
    data: &'a [u8],
    pos: usize,
}

impl<'a> Input<'a> {
    /// The cursor's invariant: it stands inside the buffer or at its end.
    pub closed spec fn wf(&self) -> bool {
        self.pos <= self.data@.len()
    }

    /// The bytes that have not been read.
    pub closed spec fn rest(&self) -> Seq<u8> {
        self.data@.skip(self.pos as int)
    }

    /// A cursor at the start of `data`.
    pub fn new(data: &'a [u8]) -> (r: Self)
        ensures
            r.wf(),
            r.rest() == data@,
    {
        proof {
            assert(data@.skip(0) =~= data@);
        }
        Input { data, pos: 0 }
    }

    /// The number of bytes that have not been read.
    pub fn remaining(&self) -> (n: usize)
        requires
            self.wf(),
        ensures
            n == self.rest().len(),
    {
        self.data.len() - self.pos
    }

    /// Reads one byte.
    pub fn read_byte(&mut self) -> (r: Option<u8>)
        requires
            old(self).wf(),
        ensures
            final(self).wf(),
            match r {
                Some(b) => {
                    &&& old(self).rest().len() > 0
                    &&& b == old(self).rest()[0]
                    &&& final(self).rest() == old(self).rest().skip(1)
                },
                None => old(self).rest().len() == 0 && final(self).rest() == old(self).rest(),
            },
    {
        if self.pos >= self.data.len() {
            return None;
        }
        let b: u8 = self.data[self.pos];
        self.pos = self.pos + 1;
        proof {
            assert(self.rest() =~= old(self).rest().skip(1));
        }
        Some(b)
    }

    /// Reads `n` bytes.
    pub fn read_bytes(&mut self, n: usize) -> (r: Result<Vec<u8>, FormatError>)
        requires
            old(self).wf(),
        ensures
            final(self).wf(),
            match r {
                Ok(v) => take_bytes(old(self).rest(), n as nat) == Ok::<
                    (Seq<u8>, Seq<u8>),
                    FormatError,
                >((v@, final(self).rest())),
                Err(e) => take_bytes(old(self).rest(), n as nat) == Err::<
                    (Seq<u8>, Seq<u8>),
                    FormatError,
                >(e) && final(self).rest() == old(self).rest(),
            },
    {
        if self.data.len() - self.pos < n {
            return Err(FormatError::Truncated);
        }
        let mut v: Vec<u8> = Vec::new();
        let mut i: usize = 0;
        let start: usize = self.pos;
        let len: usize = self.data.len();
        while i < n
            invariant
                i <= n,
                len == self.data@.len(),
                start + n <= self.data@.len(),
                start == self.pos,
                v@ == self.data@.subrange(start as int, start + i),
            decreases n - i,
        {
            v.push(self.data[start + i]);
            proof {
                assert(v@ =~= self.data@.subrange(start as int, start + i + 1));
            }
            i = i + 1;
        }
        self.pos = start + n;
        proof {
            let s = old(self).rest();
            assert(v@ =~= s.take(n as int));
            assert(self.rest() =~= s.skip(n as int));
        }
        Ok(v)
    }

    /// Reads everything that is left.
    pub fn read_rest(&mut self) -> (v: Vec<u8>)
        requires
            old(self).wf(),
        ensures
            final(self).wf(),
            v@ == old(self).rest(),
            final(self).rest() == Seq::<u8>::empty(),
    {
        let n: usize = self.remaining();
        let ghost s = self.rest();
        match self.read_bytes(n) {
            Ok(v) => {
                proof {
                    assert(s.take(n as int) =~= s);
                    assert(s.skip(n as int) =~= Seq::<u8>::empty());
                }
                v
            },
            Err(_) => Vec::new(),
        }
    }
}

/// Reads the magic bytes.
pub fn read_header(input: &mut Input) -> (r: Result<(), FormatError>)
    requires
        old(input).wf(),
    ensures
        final(input).wf(),
        match r {
            Ok(_) => take_header(old(input).rest()) == Ok::<Seq<u8>, FormatError>(
                final(input).rest(),
            ),
            Err(e) => take_header(old(input).rest()) == Err::<Seq<u8>, FormatError>(e),
        },
{
    if input.data.len() - input.pos < 4 {
        return Err(FormatError::Truncated);
    }
    let p: usize = input.pos;
    let ghost s = input.rest();
    let ok: bool = input.data[p] == 0x47 && input.data[p + 1] == 0x56 && input.data[p + 2] == 0x41
        && input.data[p + 3] == 0x53;
    proof {
        assert(s.take(4)[0] == s[0] && s.take(4)[1] == s[1] && s.take(4)[2] == s[2] && s.take(
            4,
        )[3] == s[3]);
        if ok {
            assert(s.take(4) =~= magic());
        }
    }
    if !ok {
        return Err(FormatError::BadMagic);
    }
    input.pos = p + 4;
    proof {
        assert(input.rest() =~= s.skip(4));
    }
    Ok(())
}

/// Reads a two-byte little-endian integer.
pub fn read_short(input: &mut Input) -> (r: Result<u16, FormatError>)
    requires
        old(input).wf(),
    ensures
        final(input).wf(),
        match r {
            Ok(v) => take_short(old(input).rest()) == Ok::<(u16, Seq<u8>), FormatError>(
                (v, final(input).rest()),
            ),
            Err(e) => take_short(old(input).rest()) == Err::<(u16, Seq<u8>), FormatError>(e),
        },
{
    if input.data.len() - input.pos < 2 {
        return Err(FormatError::Truncated);
    }
    let p: usize = input.pos;
    let ghost s = input.rest();
    let v: u16 = input.data[p] as u16 + 256 * (input.data[p + 1] as u16);
    input.pos = p + 2;
    proof {
        assert(input.rest() =~= s.skip(2));
    }
    Ok(v)
}

/// Reads a four-byte little-endian integer.
pub fn read_int(input: &mut Input) -> (r: Result<u32, FormatError>)
    requires
        old(input).wf(),
    ensures
        final(input).wf(),
        match r {
            Ok(v) => take_int(old(input).rest()) == Ok::<(u32, Seq<u8>), FormatError>(
                (v, final(input).rest()),
            ),
            Err(e) => take_int(old(input).rest()) == Err::<(u32, Seq<u8>), FormatError>(e)
                && final(input).rest() == old(input).rest(),
        },
{
    if input.data.len() - input.pos < 4 {
        return Err(FormatError::Truncated);
    }
    let p: usize = input.pos;
    let ghost s = input.rest();
    let v: u32 = input.data[p] as u32 + 256 * (input.data[p + 1] as u32) + 65536 * (input.data[p
        + 2] as u32) + 16777216 * (input.data[p + 3] as u32);
    input.pos = p + 4;
    proof {
        assert(input.rest() =~= s.skip(4));
    }
    Ok(v)
}

/// Reads an eight-byte little-endian integer.
pub fn read_long(input: &mut Input) -> (r: Result<u64, FormatError>)
    requires
        old(input).wf(),
    ensures
        final(input).wf(),
        match r {
            Ok(v) => take_long(old(input).rest()) == Ok::<(u64, Seq<u8>), FormatError>(
                (v, final(input).rest()),
            ),
            Err(e) => take_long(old(input).rest()) == Err::<(u64, Seq<u8>), FormatError>(e)
                && final(input).rest() == old(input).rest(),
        },
{
    if input.remaining() < 8 {
        return Err(FormatError::Truncated);
    }
    let ghost s = input.rest();
    let lo: u32 = match read_int(input) {
        Ok(v) => v,
        Err(e) => {
            return Err(e);
        },
    };
    let hi: u32 = match read_int(input) {
        Ok(v) => v,
        Err(e) => {
            return Err(e);
        },
    };
    proof {
        assert(le32(s.take(4)) == le32(s));
        assert(s.skip(4).skip(4) =~= s.skip(8));
    }
    Ok(lo as u64 + 4294967296 * (hi as u64))
}

/// Reads a length-prefixed UTF-8 string.
pub fn read_str(input: &mut Input) -> (r: Result<String, FormatError>)
    requires
        old(input).wf(),
    ensures
        final(input).wf(),
        match r {
            Ok(v) => take_str(old(input).rest()) == Ok::<(Seq<char>, Seq<u8>), FormatError>(
                (v@, final(input).rest()),
            ),
            Err(e) => take_str(old(input).rest()) == Err::<(Seq<char>, Seq<u8>), FormatError>(e),
        },
{
    let ghost s = input.rest();
    let n: u32 = match read_int(input) {
        Ok(n) => n,
        Err(e) => {
            return Err(e);
        },
    };
    let bytes = match input.read_bytes(n as usize) {
        Ok(b) => b,
        Err(e) => {
            return Err(e);
        },
    };
    proof {
        assert(bytes@ =~= s.subrange(4, 4 + le32(s)));
        assert(input.rest() =~= s.skip(4 + le32(s)));
    }
    match string_from_utf8(bytes.as_slice()) {
        Some(v) => Ok(v),
        None => Err(FormatError::BadString),
    }
}

/// Appends a two-byte little-endian integer.
pub fn write_short(out: &mut Vec<u8>, v: u16)
    ensures
        final(out)@ == old(out)@ + put_short(v),
{
    out.push((v % 256) as u8);
    out.push((v / 256) as u8);
    proof {
        assert(out@ =~= old(out)@ + put_short(v));
    }
}

/// Appends a four-byte little-endian integer.
pub fn write_int(out: &mut Vec<u8>, v: u32)
    ensures
        final(out)@ == old(out)@ + put_int(v),
{
    out.push((v % 256) as u8);
    out.push(((v / 256) % 256) as u8);
    out.push(((v / 65536) % 256) as u8);
    out.push((v / 16777216) as u8);
    proof {
        assert(out@ =~= old(out)@ + put_int(v));
    }
}

/// Appends an eight-byte little-endian integer.
pub fn write_long(out: &mut Vec<u8>, v: u64)
    ensures
        final(out)@ == old(out)@ + put_long(v),
{
    write_int(out, (v % 4294967296) as u32);
    write_int(out, (v / 4294967296) as u32);
    proof {
        assert(out@ =~= old(out)@ + put_long(v));
    }
}

/// Appends a run of bytes.
pub fn write_bytes(out: &mut Vec<u8>, bytes: &[u8])
    ensures
        final(out)@ == old(out)@ + bytes@,
{
    let mut i: usize = 0;
    while i < bytes.len()
        invariant
            i <= bytes@.len(),
            out@ == old(out)@ + bytes@.take(i as int),
        decreases bytes@.len() - i,
    {
        out.push(bytes[i]);
        proof {
            assert(out@ =~= old(out)@ + bytes@.take(i + 1));
        }
        i = i + 1;
    }
    proof {
        assert(bytes@.take(i as int) =~= bytes@);
    }
}

/// Appends a length-prefixed string; appends nothing where the string is
/// longer than four bytes can say.
pub fn write_str(out: &mut Vec<u8>, s: &String) -> (r: Result<(), FormatError>)
    ensures
        match r {
            Ok(_) => encode_utf8(s@).len() <= u32::MAX && final(out)@ == old(out)@ + put_str(s@),
            Err(e) => e == FormatError::TooLong && encode_utf8(s@).len() > u32::MAX && final(out)@
                == old(out)@,
        },
{
    let bytes = s.as_str().as_bytes();
    if bytes.len() > 0xffff_ffff {
        return Err(FormatError::TooLong);
    }
    write_int(out, bytes.len() as u32);
    write_bytes(out, bytes);
    proof {
        assert(out@ =~= old(out)@ + put_str(s@));
    }
    Ok(())
}

} // verus!
