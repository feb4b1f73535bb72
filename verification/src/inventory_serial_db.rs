//! The versioned name tables that item serials index into.
//!
//! A table only ever grows: each schema version records how many of its
//! names existed when that version was current. A serial stores an index in
//! just as many bits as the table of its own version needs.

use vstd::arithmetic::power2::{lemma2_to64, lemma_pow2_unfold, pow2};
use vstd::prelude::*;

verus! {

/// The size of a table from one schema version on.
#[derive(Clone, Copy, Debug, PartialEq, Eq)]
pub struct TableVersion {
    pub version: u8,
    pub size: u32,
}

/// One table of names with the history of its size.
#[derive(Clone, Debug)]
pub struct SerialTable {
    pub versions: Vec<TableVersion>,
    pub names: Vec<String>,
}

/// The tables that the item serial codec reads.
#[derive(Clone, Debug)]
pub struct InventorySerialDb {
    pub balances: Vec<String>,
    pub manufacturers: Vec<String>,
    pub parts: SerialTable,
    pub generic_parts: SerialTable,
}

/// The size in force at `version`: that of the last entry whose version is
/// not later than `version`.
pub open spec fn size_at(versions: Seq<TableVersion>, version: u8) -> Option<u32>
    decreases versions.len(),
{
    if versions.len() == 0 {
        None
    } else if versions.last().version <= version {
        Some(versions.last().size)
    } else {
        size_at(versions.drop_last(), version)
    }
}

/// The number of bits that index a table of `size` entries: the least `w`
/// with `size <= 2^w`.
pub open spec fn index_width(size: nat) -> nat
    decreases size,
{
    if size <= 1 {
        0
    } else {
        1 + index_width((size + 1) / 2)
    }
}

/// The width of an index into a table at `version`.
pub open spec fn width_at(versions: Seq<TableVersion>, version: u8) -> Option<nat> {
    match size_at(versions, version) {
        Some(size) => Some(index_width(size as nat)),
        None => None,
    }
}

/// The widths of a part index and of a generic part index at `version`.
pub open spec fn widths_at(db: &InventorySerialDb, version: u8) -> Option<(nat, nat)> {
    match (width_at(db.parts.versions@, version), width_at(db.generic_parts.versions@, version)) {
        (Some(part), Some(generic)) => Some((part, generic)),
        _ => None,
    }
}

/// The width of a part index at `version`; zero where the version is unknown.
pub open spec fn part_width(db: &InventorySerialDb, version: u8) -> nat {
    match width_at(db.parts.versions@, version) {
        Some(w) => w,
        None => 0,
    }
}

/// The width of a generic part index at `version`; zero where the version
/// is unknown.
pub open spec fn generic_width(db: &InventorySerialDb, version: u8) -> nat {
    match width_at(db.generic_parts.versions@, version) {
        Some(w) => w,
        None => 0,
    }
}

/// The name that `index` stands for in a table at `version`, where it has one.
pub open spec fn resolve(table: &SerialTable, version: u8, index: u32) -> Option<Seq<char>> {
    match size_at(table.versions@, version) {
        Some(size) => if index < size && index < table.names@.len() {
            Some(table.names@[index as int]@)
        } else {
            None
        },
        None => None,
    }
}

/// The name at `index` of a plain list of names.
pub open spec fn name_at(names: Seq<String>, index: int) -> Option<Seq<char>> {
    if 0 <= index < names.len() {
        Some(names[index]@)
    } else {
        None
    }
}

/// Every index into a table fits the width of that table.
pub proof fn lemma_index_width_covers(size: nat)
    ensures
        size <= pow2(index_width(size)),
    decreases size,
{
    if size <= 1 {
        lemma2_to64();
    } else {
        lemma_index_width_covers((size + 1) / 2);
        lemma_pow2_unfold(index_width(size));
    }
}

/// One bit less would not index the whole table.
pub proof fn lemma_index_width_least(size: nat)
    requires
        size > 1,
    ensures
        index_width(size) >= 1,
        pow2((index_width(size) - 1) as nat) < size,
    decreases size,
{
    let half = (size + 1) / 2;
    if half <= 1 {
        lemma2_to64();
    } else {
        lemma_index_width_least(half);
        lemma_pow2_unfold((index_width(size) - 1) as nat);
    }
}

/// An index below the size in force can be written at the width in force.
pub proof fn lemma_index_fits(versions: Seq<TableVersion>, version: u8, index: u32)
    requires
        size_at(versions, version) is Some,
        index < size_at(versions, version)->0,
    ensures
        (index as nat) < pow2(width_at(versions, version)->0),
{
    lemma_index_width_covers(size_at(versions, version)->0 as nat);
}

/// The number of bits that index a table of `size` entries.
pub fn width_of(size: u32) -> (w: u8)
    ensures
        w as nat == index_width(size as nat),
        w <= 32,
{
    let mut n: u32 = size;
    let mut w: u8 = 0;
    proof {
        lemma2_to64();
    }
    while n > 1
        invariant
            w <= 32,
            (n as nat) <= pow2((32 - w) as nat),
            index_width(size as nat) == w + index_width(n as nat),
        decreases n,
    {
        proof {
            lemma2_to64();
            if w < 32 {
                lemma_pow2_unfold((32 - w) as nat);
            }
        }
        n = n / 2 + n % 2;
        w = w + 1;
    }
    w
}

impl SerialTable {
    /// The size of the table at `version`; `None` where the table has no
    /// entry that old.
    pub fn size_at(&self, version: u8) -> (r: Option<u32>)
        ensures
            r == size_at(self.versions@, version),
    {
        let mut i: usize = self.versions.len();
        proof {
            assert(self.versions@.take(i as int) =~= self.versions@);
        }
        while i > 0
            invariant
                i <= self.versions@.len(),
                size_at(self.versions@, version) == size_at(self.versions@.take(i as int), version),
            decreases i,
        {
            let entry = self.versions[i - 1];
            proof {
                let head = self.versions@.take(i as int);
                assert(head.last() == entry);
                assert(head.drop_last() =~= self.versions@.take(i - 1));
            }
            if entry.version <= version {
                return Some(entry.size);
            }
            i = i - 1;
        }
        proof {
            assert(self.versions@.take(0).len() == 0);
        }
        None
    }

    /// The width of an index into the table at `version`.
    pub fn width_at(&self, version: u8) -> (r: Option<u8>)
        ensures
            match r {
                Some(w) => width_at(self.versions@, version) == Some(w as nat) && w <= 32,
                None => width_at(self.versions@, version) is None,
            },
    {
        match self.size_at(version) {
            Some(size) => Some(width_of(size)),
            None => None,
        }
    }

    /// The name that `index` stands for at `version`. An index beyond the
    /// table of that version has no name, whatever later versions added.
    pub fn resolve(&self, version: u8, index: u32) -> (r: Option<&String>)
        ensures
            match r {
                Some(name) => resolve(self, version, index) == Some(name@),
                None => resolve(self, version, index) is None,
            },
    {
        match self.size_at(version) {
            Some(size) => {
                if index < size && (index as usize) < self.names.len() {
                    Some(&self.names[index as usize])
                } else {
                    None
                }
            },
            None => None,
        }
    }
}

impl InventorySerialDb {
    /// The widths of a part index and of a generic part index at `version`.
    pub fn widths_at(&self, version: u8) -> (r: Option<(u8, u8)>)
        ensures
            match r {
                Some((p, g)) => widths_at(self, version) == Some((p as nat, g as nat)) && p <= 32
                    && g <= 32,
                None => widths_at(self, version) is None,
            },
    {
        match self.parts.width_at(version) {
            Some(p) => match self.generic_parts.width_at(version) {
                Some(g) => Some((p, g)),
                None => None,
            },
            None => None,
        }
    }

    /// The name of the balance with identifier `id`.
    pub fn balance_name(&self, id: u16) -> (r: Option<&String>)
        ensures
            match r {
                Some(name) => name_at(self.balances@, id as int) == Some(name@),
                None => name_at(self.balances@, id as int) is None,
            },
    {
        if (id as usize) < self.balances.len() {
            Some(&self.balances[id as usize])
        } else {
            None
        }
    }

    /// The name of the manufacturer with identifier `id`.
    pub fn manufacturer_name(&self, id: u8) -> (r: Option<&String>)
        ensures
            match r {
                Some(name) => name_at(self.manufacturers@, id as int) == Some(name@),
                None => name_at(self.manufacturers@, id as int) is None,
            },
    {
        if (id as usize) < self.manufacturers.len() {
            Some(&self.manufacturers[id as usize])
        } else {
            None
        }
    }
}

} // verus!
