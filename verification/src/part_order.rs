//! The order in which the parts of a category are listed.
//!
//! Parts are ordered by their verbose identifier, then by their short
//! identifier, then by their index, then by the three texts of their
//! description. Texts are ordered byte by byte in their UTF-8 encoding, a
//! text before every text that it starts; an absent text comes before
//! every text.

use crate::current_parts::Bl3PartWithInfo;
use vstd::prelude::*;
use vstd::utf8::encode_utf8;

verus! {

/// How one value stands to another in an order.
#[derive(Clone, Copy, Debug, PartialEq, Eq)]
pub enum Rank {
    Before,
    Same,
    After,
}

/// The order of two runs of bytes.
pub open spec fn bytes_rank(a: Seq<u8>, b: Seq<u8>) -> Rank
    decreases a.len(),
{
    if a.len() == 0 {
        if b.len() == 0 {
            Rank::Same
        } else {
            Rank::Before
        }
    } else if b.len() == 0 {
        Rank::After
    } else if a[0] < b[0] {
        Rank::Before
    } else if a[0] > b[0] {
        Rank::After
    } else {
        bytes_rank(a.skip(1), b.skip(1))
    }
}

/// The order of two texts that may be absent.
pub open spec fn text_rank(a: Option<Seq<u8>>, b: Option<Seq<u8>>) -> Rank {
    match (a, b) {
        (None, None) => Rank::Same,
        (None, Some(_)) => Rank::Before,
        (Some(_), None) => Rank::After,
        (Some(x), Some(y)) => bytes_rank(x, y),
    }
}

/// The order of two numbers.
pub open spec fn number_rank(a: int, b: int) -> Rank {
    if a < b {
        Rank::Before
    } else if a > b {
        Rank::After
    } else {
        Rank::Same
    }
}

/// The first rank, unless it is `Same`: then the second.
pub open spec fn then_rank(first: Rank, second: Rank) -> Rank {
    if first is Same {
        second
    } else {
        first
    }
}

/// The bytes of a text that may be absent.
pub open spec fn text_key(text: Option<String>) -> Option<Seq<u8>> {
    match text {
        Some(s) => Some(encode_utf8(s@)),
        None => None,
    }
}

/// The order of two parts with their descriptions.
pub open spec fn part_rank(a: Bl3PartWithInfo, b: Bl3PartWithInfo) -> Rank {
    then_rank(
        text_rank(Some(encode_utf8(a.part.ident@)), Some(encode_utf8(b.part.ident@))),
        then_rank(
            text_rank(text_key(a.part.short_ident), text_key(b.part.short_ident)),
            then_rank(
                number_rank(a.part.idx as int, b.part.idx as int),
                then_rank(
                    text_rank(text_key(a.info.positives), text_key(b.info.positives)),
                    then_rank(
                        text_rank(text_key(a.info.negatives), text_key(b.info.negatives)),
                        text_rank(text_key(a.info.effects), text_key(b.info.effects)),
                    ),
                ),
            ),
        ),
    )
}

/// Whether a part is listed no later than another.
pub open spec fn part_le(a: Bl3PartWithInfo, b: Bl3PartWithInfo) -> bool {
    !(part_rank(a, b) is After)
}

/// Whether parts are listed in order.
pub open spec fn parts_sorted(s: Seq<Bl3PartWithInfo>) -> bool {
    forall|i: int, j: int| 0 <= i < j < s.len() ==> part_le(s[i], s[j])
}

/// What holds of the order of three runs of bytes: runs of equal rank are
/// equal, the order turns round with its arguments, and it is transitive.
pub proof fn lemma_bytes_rank(a: Seq<u8>, b: Seq<u8>, c: Seq<u8>)
    ensures
        bytes_rank(a, b) is Same ==> a == b,
        bytes_rank(a, a) is Same,
        bytes_rank(a, b) is Before <==> bytes_rank(b, a) is After,
        bytes_rank(a, b) is Before && bytes_rank(b, c) is Before ==> bytes_rank(a, c) is Before,
    decreases a.len(),
{
    if a.len() > 0 {
        lemma_bytes_rank(a.skip(1), a.skip(1), a.skip(1));
    }
    if a.len() > 0 && b.len() > 0 {
        if c.len() > 0 {
            lemma_bytes_rank(a.skip(1), b.skip(1), c.skip(1));
        } else {
            lemma_bytes_rank(a.skip(1), b.skip(1), c);
        }
        if a[0] == b[0] && bytes_rank(a, b) is Same {
            assert(a =~= seq![a[0]] + a.skip(1));
            assert(b =~= seq![b[0]] + b.skip(1));
        }
    } else if a.len() == 0 && b.len() == 0 {
        assert(a =~= b);
    }
    lemma_bytes_rank_flip(a, b);
}

/// The order of two runs of bytes turns round with its arguments.
pub proof fn lemma_bytes_rank_flip(a: Seq<u8>, b: Seq<u8>)
    ensures
        bytes_rank(a, b) is Before <==> bytes_rank(b, a) is After,
        bytes_rank(a, b) is After <==> bytes_rank(b, a) is Before,
        bytes_rank(a, b) is Same <==> bytes_rank(b, a) is Same,
    decreases a.len(),
{
    if a.len() > 0 && b.len() > 0 {
        lemma_bytes_rank_flip(a.skip(1), b.skip(1));
    }
}

/// What holds of the order of three texts that may be absent.
pub proof fn lemma_text_rank(a: Option<Seq<u8>>, b: Option<Seq<u8>>, c: Option<Seq<u8>>)
    ensures
        text_rank(a, b) is Same ==> a == b,
        text_rank(a, a) is Same,
        text_rank(a, b) is Before <==> text_rank(b, a) is After,
        text_rank(a, b) is After <==> text_rank(b, a) is Before,
        text_rank(a, b) is Before && text_rank(b, c) is Before ==> text_rank(a, c) is Before,
{
    match (a, b, c) {
        (Some(x), Some(y), Some(z)) => {
            lemma_bytes_rank(x, y, z);
            lemma_bytes_rank_flip(x, y);
        },
        (Some(x), Some(y), None) => {
            lemma_bytes_rank(x, y, x);
            lemma_bytes_rank_flip(x, y);
        },
        (Some(x), None, _) => {
            lemma_bytes_rank(x, x, x);
        },
        _ => {},
    }
}

/// The order of parts is total: of two parts, one is listed no later than
/// the other.
pub proof fn lemma_part_rank_flip(a: Bl3PartWithInfo, b: Bl3PartWithInfo)
    ensures
        part_rank(a, b) is After ==> part_rank(b, a) is Before,
        part_le(a, b) || part_le(b, a),
{
    let none: Option<Seq<u8>> = None;
    lemma_text_rank(Some(encode_utf8(a.part.ident@)), Some(encode_utf8(b.part.ident@)), none);
    lemma_text_rank(text_key(a.part.short_ident), text_key(b.part.short_ident), none);
    lemma_text_rank(text_key(a.info.positives), text_key(b.info.positives), none);
    lemma_text_rank(text_key(a.info.negatives), text_key(b.info.negatives), none);
    lemma_text_rank(text_key(a.info.effects), text_key(b.info.effects), none);
}

/// The order of parts is transitive.
pub proof fn lemma_part_le_trans(a: Bl3PartWithInfo, b: Bl3PartWithInfo, c: Bl3PartWithInfo)
    requires
        part_le(a, b),
        part_le(b, c),
    ensures
        part_le(a, c),
{
    lemma_text_rank(
        Some(encode_utf8(a.part.ident@)),
        Some(encode_utf8(b.part.ident@)),
        Some(encode_utf8(c.part.ident@)),
    );
    lemma_text_rank(
        Some(encode_utf8(b.part.ident@)),
        Some(encode_utf8(c.part.ident@)),
        Some(encode_utf8(a.part.ident@)),
    );
    lemma_text_rank(
        text_key(a.part.short_ident),
        text_key(b.part.short_ident),
        text_key(c.part.short_ident),
    );
    lemma_text_rank(
        text_key(b.part.short_ident),
        text_key(c.part.short_ident),
        text_key(a.part.short_ident),
    );
    lemma_text_rank(
        text_key(a.info.positives),
        text_key(b.info.positives),
        text_key(c.info.positives),
    );
    lemma_text_rank(
        text_key(b.info.positives),
        text_key(c.info.positives),
        text_key(a.info.positives),
    );
    lemma_text_rank(
        text_key(a.info.negatives),
        text_key(b.info.negatives),
        text_key(c.info.negatives),
    );
    lemma_text_rank(
        text_key(b.info.negatives),
        text_key(c.info.negatives),
        text_key(a.info.negatives),
    );
    lemma_text_rank(text_key(a.info.effects), text_key(b.info.effects), text_key(c.info.effects));
    lemma_text_rank(text_key(b.info.effects), text_key(c.info.effects), text_key(a.info.effects));
}

/// A part `x` goes in before the first part of `s` that is listed after
/// it.
pub open spec fn sorted_index(s: Seq<Bl3PartWithInfo>, x: Bl3PartWithInfo) -> int
    decreases s.len(),
{
    if s.len() == 0 {
        0
    } else if part_rank(s[0], x) is After {
        0
    } else {
        1 + sorted_index(s.skip(1), x)
    }
}

/// The parts with one more, at its place in the order.
pub open spec fn sorted_insert(s: Seq<Bl3PartWithInfo>, x: Bl3PartWithInfo) -> Seq<
    Bl3PartWithInfo,
> {
    s.insert(sorted_index(s, x), x)
}

/// What `sorted_index` finds.
pub proof fn lemma_sorted_index(s: Seq<Bl3PartWithInfo>, x: Bl3PartWithInfo)
    ensures
        0 <= sorted_index(s, x) <= s.len(),
        sorted_index(s, x) < s.len() ==> part_rank(s[sorted_index(s, x)], x) is After,
        forall|j: int| 0 <= j < sorted_index(s, x) ==> part_le(#[trigger] s[j], x),
    decreases s.len(),
{
    if s.len() > 0 && !(part_rank(s[0], x) is After) {
        let tail = s.skip(1);
        lemma_sorted_index(tail, x);
        assert forall|j: int| 0 <= j < sorted_index(s, x) implies part_le(#[trigger] s[j], x) by {
            if j > 0 {
                assert(s[j] == tail[j - 1]);
            }
        }
    }
}

/// Putting a part at its place keeps the parts in order.
pub proof fn lemma_sorted_insert(s: Seq<Bl3PartWithInfo>, x: Bl3PartWithInfo)
    requires
        parts_sorted(s),
    ensures
        parts_sorted(sorted_insert(s, x)),
        sorted_insert(s, x).len() == s.len() + 1,
{
    let p = sorted_index(s, x);
    let out = sorted_insert(s, x);
    lemma_sorted_index(s, x);
    assert forall|i: int, j: int| 0 <= i < j < out.len() implies part_le(out[i], out[j]) by {
        if j < p {
            assert(part_le(s[i], s[j]));
        } else if j == p {
            assert(out[i] == s[i]);
        } else if i == p {
            lemma_part_rank_flip(s[p], x);
            if j - 1 > p {
                assert(part_le(s[p], s[j - 1]));
                lemma_part_le_trans(x, s[p], s[j - 1]);
            }
        } else if i < p {
            assert(part_le(s[i], s[j - 1]));
        } else {
            assert(part_le(s[i - 1], s[j - 1]));
        }
    }
}

/// The order of two runs of bytes.
pub fn rank_bytes(a: &[u8], b: &[u8]) -> (r: Rank)
    ensures
        r == bytes_rank(a@, b@),
{
    let mut i: usize = 0;
    proof {
        assert(a@.skip(0) =~= a@);
        assert(b@.skip(0) =~= b@);
    }
    while i < a.len() && i < b.len()
        invariant
            i <= a@.len(),
            i <= b@.len(),
            bytes_rank(a@, b@) == bytes_rank(a@.skip(i as int), b@.skip(i as int)),
        decreases a@.len() - i,
    {
        proof {
            assert(a@.skip(i as int).skip(1) =~= a@.skip(i + 1));
            assert(b@.skip(i as int).skip(1) =~= b@.skip(i + 1));
        }
        if a[i] < b[i] {
            return Rank::Before;
        }
        if a[i] > b[i] {
            return Rank::After;
        }
        i = i + 1;
    }
    if i < b.len() {
        Rank::Before
    } else if i < a.len() {
        Rank::After
    } else {
        Rank::Same
    }
}

/// The order of two texts.
pub fn rank_text(a: &str, b: &str) -> (r: Rank)
    ensures
        r == bytes_rank(encode_utf8(a@), encode_utf8(b@)),
{
    rank_bytes(a.as_bytes(), b.as_bytes())
}

/// The order of two texts that may be absent.
pub fn rank_optional_text(a: &Option<String>, b: &Option<String>) -> (r: Rank)
    ensures
        r == text_rank(text_key(*a), text_key(*b)),
{
    match (a, b) {
        (None, None) => Rank::Same,
        (None, Some(_)) => Rank::Before,
        (Some(_), None) => Rank::After,
        (Some(x), Some(y)) => rank_text(x.as_str(), y.as_str()),
    }
}

/// The order of two parts with their descriptions.
pub fn rank_parts(a: &Bl3PartWithInfo, b: &Bl3PartWithInfo) -> (r: Rank)
    ensures
        r == part_rank(*a, *b),
{
    match rank_text(a.part.ident.as_str(), b.part.ident.as_str()) {
        Rank::Same => {},
        other => {
            return other;
        },
    }
    match rank_optional_text(&a.part.short_ident, &b.part.short_ident) {
        Rank::Same => {},
        other => {
            return other;
        },
    }
    if a.part.idx < b.part.idx {
        return Rank::Before;
    }
    if a.part.idx > b.part.idx {
        return Rank::After;
    }
    match rank_optional_text(&a.info.positives, &b.info.positives) {
        Rank::Same => {},
        other => {
            return other;
        },
    }
    match rank_optional_text(&a.info.negatives, &b.info.negatives) {
        Rank::Same => {},
        other => {
            return other;
        },
    }
    rank_optional_text(&a.info.effects, &b.info.effects)
}

/// Puts a part at its place in a list of parts.
pub fn insert_sorted(parts: &mut Vec<Bl3PartWithInfo>, x: Bl3PartWithInfo)
    ensures
        final(parts)@ == sorted_insert(old(parts)@, x),
{
    let mut p: usize = 0;
    let mut found: bool = false;
    proof {
        assert(parts@.skip(0) =~= parts@);
    }
    while !found && p < parts.len()
        invariant
            p <= parts@.len(),
            parts@ == old(parts)@,
            found ==> sorted_index(parts@, x) == p,
            !found ==> sorted_index(parts@, x) == p + sorted_index(parts@.skip(p as int), x),
        decreases parts@.len() - p + (if found { 0int } else { 1int }),
    {
        proof {
            assert(parts@.skip(p as int)[0] == parts@[p as int]);
            assert(parts@.skip(p as int).skip(1) =~= parts@.skip(p + 1));
        }
        match rank_parts(&parts[p], &x) {
            Rank::After => {
                found = true;
            },
            _ => {
                p = p + 1;
            },
        }
    }
    parts.insert(p, x);
}

/// Sorts parts into the order in which they are listed.
pub fn sort_parts(parts: Vec<Bl3PartWithInfo>) -> (out: Vec<Bl3PartWithInfo>)
    ensures
        out@ == sorted_all(parts@),
{
    let mut rest = parts;
    let mut out: Vec<Bl3PartWithInfo> = Vec::new();
    let ghost all = rest@;
    proof {
        assert(all.skip(all.len() as int) =~= Seq::<Bl3PartWithInfo>::empty());
        assert(all.take(all.len() as int) =~= all);
    }
    while rest.len() > 0
        invariant
            rest@.len() <= all.len(),
            rest@ == all.take(rest@.len() as int),
            out@ == sorted_all(all.skip(rest@.len() as int)),
        decreases rest@.len(),
    {
        let ghost n = rest@.len() as int;
        match rest.pop() {
            Some(x) => {
                proof {
                    let tail = all.skip(n - 1);
                    assert(tail[0] == x);
                    assert(tail.skip(1) =~= all.skip(n));
                    assert(rest@ =~= all.take(n - 1));
                }
                insert_sorted(&mut out, x);
            },
            None => {},
        }
    }
    proof {
        assert(all.skip(0) =~= all);
    }
    out
}

/// The parts in order: each is put at its place among those behind it.
pub open spec fn sorted_all(s: Seq<Bl3PartWithInfo>) -> Seq<Bl3PartWithInfo>
    decreases s.len(),
{
    if s.len() == 0 {
        Seq::empty()
    } else {
        sorted_insert(sorted_all(s.skip(1)), s[0])
    }
}

/// Sorting gives a list in order that holds the parts that it was given,
/// each as often as before.
pub proof fn lemma_sorted_all(s: Seq<Bl3PartWithInfo>)
    ensures
        parts_sorted(sorted_all(s)),
        sorted_all(s).len() == s.len(),
        sorted_all(s).to_multiset() == s.to_multiset(),
    decreases s.len(),
{
    if s.len() > 0 {
        let tail = s.skip(1);
        let rest = sorted_all(tail);
        lemma_sorted_all(tail);
        lemma_sorted_insert(rest, s[0]);
        lemma_sorted_index(rest, s[0]);
        vstd::seq_lib::to_multiset_insert(rest, sorted_index(rest, s[0]), s[0]);
        vstd::seq_lib::to_multiset_insert(tail, 0, s[0]);
        assert(tail.insert(0, s[0]) =~= s);
        assert(sorted_all(s).to_multiset() == rest.to_multiset().insert(s[0]));
        assert(s.to_multiset() == tail.to_multiset().insert(s[0]));
    } else {
        assert(s =~= Seq::<Bl3PartWithInfo>::empty());
    }
}

} // verus!
