//! Annotating the parts of an item from the curated part tables.
//!
//! A part of an item is matched against the names of the tables. A part
//! that has a short identifier matches a name that equals it, whatever the
//! case of the letters; a part without one matches a name whose UTF-8
//! bytes occur in those of its verbose identifier, again whatever the
//! case. A part that matches nothing is of the category "Unknown Parts"
//! and has an empty description.
//!
//! The parts of an item are listed by category: the categories in
//! ascending order, the parts of each category in the order of
//! `part_order`.

use crate::inventory_serial_db::{resolve, InventorySerialDb, SerialTable};
use crate::item_serial::ItemSerial;
use crate::part_order::{
    bytes_rank, lemma_bytes_rank, lemma_bytes_rank_flip, lemma_sorted_all, parts_sorted, rank_text,
    sort_parts, sorted_all, Rank,
};
use crate::resources::{ResourceCategorizedParts, ResourcePart, ResourcePartInfo};
use vstd::prelude::*;
use vstd::utf8::encode_utf8;

verus! {

/// The most parts that an item can list.
pub const MAX_BL3_ITEM_PARTS: usize = crate::item_serial::MAX_BL3_ITEM_PARTS;

/// The most anointments that an item can list.
pub const MAX_BL3_ITEM_ANOINTMENTS: usize = crate::item_serial::MAX_BL3_ITEM_ANOINTMENTS;

/// One part of an item: its verbose identifier, its short identifier
/// where it has one, and its index in the table it came from.
#[derive(Debug, Clone, Default, Ord, PartialOrd, Eq, PartialEq)]
pub struct Bl3Part {
    pub ident: String,
    pub short_ident: Option<String>,
    pub idx: usize,
}

/// A part with its description.
#[derive(Debug, Clone, Default, Ord, PartialOrd, Eq, PartialEq)]
pub struct Bl3PartWithInfo {
    pub part: Bl3Part,
    pub info: ResourcePartInfo,
}

/// The parts of an item that belong to one category.
#[derive(Debug, Clone)]
pub struct InventoryCategorizedParts {
    pub category: String,
    pub parts: Vec<Bl3PartWithInfo>,
}

/// The place of a part in a categorized list.
#[derive(Debug, Copy, Clone, Default)]
pub struct CurrentPartTypeIndex {
    pub category_index: usize,
    pub part_index: usize,
}

/// Which of the two lists of an item is shown.
#[derive(Debug, Copy, Clone, PartialEq, Eq)]
pub enum CurrentPartType {
    Parts,
    Anointments,
}

/// The text in lower case, as `str::to_lowercase` gives it.
pub uninterp spec fn lowercase_of(s: Seq<char>) -> Seq<char>;

/// Whether the bytes `needle` occur in `hay` one after another.
pub open spec fn occurs_in(needle: Seq<u8>, hay: Seq<u8>) -> bool {
    exists|i: int| occurs_at(needle, hay, i)
}

/// Whether the bytes `needle` stand in `hay` from index `i` on.
pub open spec fn occurs_at(needle: Seq<u8>, hay: Seq<u8>, i: int) -> bool {
    0 <= i <= hay.len() - needle.len() && hay.subrange(i, i + needle.len()) == needle
}

/// The text in lower case: `str::to_lowercase`.
#[verifier::external_body]
fn lowercase(s: &str) -> (r: String)
    ensures
        r@ == lowercase_of(s@),
{
    s.to_lowercase()
}

/// Whether the bytes `needle` stand in `hay` from index `at` on.
fn stands_at(hay: &[u8], needle: &[u8], at: usize) -> (r: bool)
    requires
        at + needle@.len() <= hay@.len(),
    ensures
        r == occurs_at(needle@, hay@, at as int),
{
    let mut k: usize = 0;
    let len: usize = hay.len();
    while k < needle.len()
        invariant
            k <= needle@.len(),
            len == hay@.len(),
            at + needle@.len() <= hay@.len(),
            forall|j: int| 0 <= j < k ==> hay@[at + j] == needle@[j],
        decreases needle@.len() - k,
    {
        if hay[at + k] != needle[k] {
            proof {
                assert(hay@.subrange(at as int, at + needle@.len())[k as int] != needle@[k as int]);
            }
            return false;
        }
        k = k + 1;
    }
    proof {
        assert(hay@.subrange(at as int, at + needle@.len()) =~= needle@);
    }
    true
}

/// Whether the bytes `needle` occur in `hay`.
pub fn contains(hay: &[u8], needle: &[u8]) -> (r: bool)
    ensures
        r == occurs_in(needle@, hay@),
{
    if needle.len() > hay.len() {
        return false;
    }
    let last: usize = hay.len() - needle.len();
    let mut i: usize = 0;
    while i < last
        invariant
            i <= last,
            last == hay@.len() - needle@.len(),
            forall|j: int| 0 <= j < i ==> !occurs_at(needle@, hay@, j),
        decreases last - i,
    {
        if stands_at(hay, needle, i) {
            return true;
        }
        i = i + 1;
    }
    stands_at(hay, needle, last)
}

/// Whether a part matches a name, both given in lower case: a part with
/// a short identifier only by that identifier, which must be the name; a
/// part without one where the name occurs in its identifier.
pub open spec fn folded_match(
    short_ident: Option<Seq<char>>,
    ident: Seq<char>,
    name: Seq<char>,
) -> bool {
    match short_ident {
        Some(short) => name == short,
        None => occurs_in(encode_utf8(name), encode_utf8(ident)),
    }
}

/// Whether a part matches a name of the part tables.
pub open spec fn part_matches(part: &Bl3Part, name: Seq<char>) -> bool {
    folded_match(
        match part.short_ident {
            Some(s) => Some(lowercase_of(s@)),
            None => None,
        },
        lowercase_of(part.ident@),
        lowercase_of(name),
    )
}

/// Whether a part matches a name, both given in lower case.
pub fn part_contains_folded(short_ident: Option<&String>, ident: &str, cat_part_name: &str) -> (r:
    bool)
    ensures
        r == folded_match(
            match short_ident {
                Some(s) => Some(s@),
                None => None,
            },
            ident@,
            cat_part_name@,
        ),
{
    match short_ident {
        Some(short) => {
            let name: String = cat_part_name.to_owned();
            name == *short
        },
        None => contains(ident.as_bytes(), cat_part_name.as_bytes()),
    }
}

/// Whether a part, given by its short identifier and its verbose
/// identifier, matches a name of the part tables.
pub fn part_contains(short_ident: Option<&String>, ident: &str, cat_part_name: &str) -> (r: bool)
    ensures
        r == folded_match(
            match short_ident {
                Some(s) => Some(lowercase_of(s@)),
                None => None,
            },
            lowercase_of(ident@),
            lowercase_of(cat_part_name@),
        ),
{
    let name = lowercase(cat_part_name);
    let ident_lower = lowercase(ident);
    match short_ident {
        Some(short) => {
            let short_lower = lowercase(short.as_str());
            part_contains_folded(Some(&short_lower), ident_lower.as_str(), name.as_str())
        },
        None => part_contains_folded(None, ident_lower.as_str(), name.as_str()),
    }
}

/// The index of the first part of a category that a part matches; the
/// number of parts where it matches none.
pub open spec fn match_in_category(parts: Seq<ResourcePart>, part: &Bl3Part) -> int
    decreases parts.len(),
{
    if parts.len() == 0 {
        0
    } else if part_matches(part, parts[0].name@) {
        0
    } else {
        1 + match_in_category(parts.skip(1), part)
    }
}

/// The index of the first category in which a part matches a name; the
/// number of categories where there is none.
pub open spec fn match_category(list: Seq<ResourceCategorizedParts>, part: &Bl3Part) -> int
    decreases list.len(),
{
    if list.len() == 0 {
        0
    } else if match_in_category(list[0].parts@, part) < list[0].parts@.len() {
        0
    } else {
        1 + match_category(list.skip(1), part)
    }
}

/// What `match_in_category` finds: the first part that matches.
pub proof fn lemma_match_in_category(parts: Seq<ResourcePart>, part: &Bl3Part)
    ensures
        0 <= match_in_category(parts, part) <= parts.len(),
        match_in_category(parts, part) < parts.len() ==> part_matches(
            part,
            parts[match_in_category(parts, part)].name@,
        ),
        forall|j: int|
            0 <= j < match_in_category(parts, part) ==> !part_matches(
                part,
                (#[trigger] parts[j]).name@,
            ),
    decreases parts.len(),
{
    if parts.len() > 0 && !part_matches(part, parts[0].name@) {
        let tail = parts.skip(1);
        lemma_match_in_category(tail, part);
        assert forall|j: int| 0 <= j < match_in_category(parts, part) implies !part_matches(
            part,
            (#[trigger] parts[j]).name@,
        ) by {
            if j > 0 {
                assert(parts[j] == tail[j - 1]);
            }
        }
    }
}

/// What `match_category` finds: the first category with a match.
pub proof fn lemma_match_category(list: Seq<ResourceCategorizedParts>, part: &Bl3Part)
    ensures
        0 <= match_category(list, part) <= list.len(),
        match_category(list, part) < list.len() ==> match_in_category(
            list[match_category(list, part)].parts@,
            part,
        ) < list[match_category(list, part)].parts@.len(),
        forall|j: int|
            0 <= j < match_category(list, part) ==> match_in_category(
                (#[trigger] list[j]).parts@,
                part,
            ) == list[j].parts@.len(),
    decreases list.len(),
{
    if list.len() > 0 {
        lemma_match_in_category(list[0].parts@, part);
        if match_in_category(list[0].parts@, part) >= list[0].parts@.len() {
            let tail = list.skip(1);
            lemma_match_category(tail, part);
            assert forall|j: int| 0 <= j < match_category(list, part) implies match_in_category(
                (#[trigger] list[j]).parts@,
                part,
            ) == list[j].parts@.len() by {
                if j > 0 {
                    assert(list[j] == tail[j - 1]);
                }
            }
        }
    }
}

/// The first part of a category that a part matches.
pub fn find_in_category(parts: &Vec<ResourcePart>, part: &Bl3Part) -> (r: Option<usize>)
    ensures
        match r {
            Some(k) => k == match_in_category(parts@, part) && k < parts@.len(),
            None => match_in_category(parts@, part) == parts@.len(),
        },
{
    let mut k: usize = 0;
    proof {
        assert(parts@.skip(0) =~= parts@);
    }
    while k < parts.len()
        invariant
            k <= parts@.len(),
            match_in_category(parts@, part) == k + match_in_category(parts@.skip(k as int), part),
        decreases parts@.len() - k,
    {
        proof {
            assert(parts@.skip(k as int)[0] == parts@[k as int]);
            assert(parts@.skip(k as int).skip(1) =~= parts@.skip(k + 1));
        }
        let short: Option<&String> = match &part.short_ident {
            Some(s) => Some(s),
            None => None,
        };
        if part_contains(short, part.ident.as_str(), parts[k].name.as_str()) {
            return Some(k);
        }
        k = k + 1;
    }
    None
}

/// The first category in which a part matches a name, and the first part
/// that it matches there.
pub fn find_part(list: &Vec<ResourceCategorizedParts>, part: &Bl3Part) -> (r: Option<
    CurrentPartTypeIndex,
>)
    ensures
        match r {
            Some(at) => {
                &&& at.category_index == match_category(list@, part)
                &&& at.category_index < list@.len()
                &&& at.part_index == match_in_category(
                    list@[at.category_index as int].parts@,
                    part,
                )
                &&& at.part_index < list@[at.category_index as int].parts@.len()
            },
            None => match_category(list@, part) == list@.len(),
        },
{
    let mut c: usize = 0;
    proof {
        assert(list@.skip(0) =~= list@);
    }
    while c < list.len()
        invariant
            c <= list@.len(),
            match_category(list@, part) == c + match_category(list@.skip(c as int), part),
        decreases list@.len() - c,
    {
        proof {
            assert(list@.skip(c as int)[0] == list@[c as int]);
            assert(list@.skip(c as int).skip(1) =~= list@.skip(c + 1));
        }
        match find_in_category(&list[c].parts, part) {
            Some(k) => {
                return Some(CurrentPartTypeIndex { category_index: c, part_index: k });
            },
            None => {},
        }
        c = c + 1;
    }
    None
}

impl Bl3Part {
    /// A copy of the part.
    pub fn duplicate(&self) -> (r: Bl3Part)
        ensures
            r == *self,
    {
        Bl3Part {
            ident: self.ident.clone(),
            short_ident: crate::resources::copy_text(&self.short_ident),
            idx: self.idx,
        }
    }
}

/// The mathematical content of an `InventoryCategorizedParts`.
pub ghost struct GroupView {
    pub category: Seq<char>,
    pub parts: Seq<Bl3PartWithInfo>,
}

impl View for InventoryCategorizedParts {
    type V = GroupView;

    open spec fn view(&self) -> GroupView {
        GroupView { category: self.category@, parts: self.parts@ }
    }
}

/// The views of a list of groups.
pub open spec fn groups_view(groups: Seq<InventoryCategorizedParts>) -> Seq<GroupView> {
    Seq::new(groups.len(), |i: int| groups[i]@)
}

/// The category of the parts that match no name.
pub open spec fn unknown_category() -> Seq<char> {
    "Unknown Parts"@
}

/// The description of a part of which nothing is known.
pub open spec fn no_info() -> ResourcePartInfo {
    ResourcePartInfo { positives: None, negatives: None, effects: None }
}

/// The description of a part: that of the first name it matches in the
/// first category where it matches one; empty where it matches none.
pub open spec fn info_of(part: Bl3Part, list: Seq<ResourceCategorizedParts>) -> ResourcePartInfo {
    let c = match_category(list, &part);
    if c < list.len() {
        list[c].parts@[match_in_category(list[c].parts@, &part)].info
    } else {
        no_info()
    }
}

/// The category of a part: the first in which it matches a name;
/// "Unknown Parts" where it matches none.
pub open spec fn category_of(part: Bl3Part, list: Seq<ResourceCategorizedParts>) -> Seq<char> {
    let c = match_category(list, &part);
    if c < list.len() {
        list[c].category@
    } else {
        unknown_category()
    }
}

/// A part of an item with its category and its description. Without a
/// part table every part is unknown.
pub open spec fn annotated_part(part: Bl3Part, list: Option<Seq<ResourceCategorizedParts>>) -> (
    Seq<char>,
    Bl3PartWithInfo,
) {
    match list {
        Some(l) => (category_of(part, l), Bl3PartWithInfo { part, info: info_of(part, l) }),
        None => (unknown_category(), Bl3PartWithInfo { part, info: no_info() }),
    }
}

/// An anointment of an item with its description. Anointments are not
/// told apart by category: all are listed under "Unknown Parts".
pub open spec fn annotated_anointment(part: Bl3Part, list: Seq<ResourceCategorizedParts>) -> (
    Seq<char>,
    Bl3PartWithInfo,
) {
    (unknown_category(), Bl3PartWithInfo { part, info: info_of(part, list) })
}

/// Whether a category is listed before another.
pub open spec fn category_before(a: Seq<char>, b: Seq<char>) -> bool {
    bytes_rank(encode_utf8(a), encode_utf8(b)) is Before
}

/// The index of the first group whose category is not listed before
/// `category`; the number of groups where there is none.
pub open spec fn group_index(groups: Seq<GroupView>, category: Seq<char>) -> int
    decreases groups.len(),
{
    if groups.len() == 0 {
        0
    } else if !category_before(groups[0].category, category) {
        0
    } else {
        1 + group_index(groups.skip(1), category)
    }
}

/// The groups with one more part: at the end of the group of its
/// category, or as a new group where its category belongs.
pub open spec fn add_to_groups(groups: Seq<GroupView>, category: Seq<char>, x: Bl3PartWithInfo)
    -> Seq<GroupView> {
    let g = group_index(groups, category);
    if g < groups.len() && groups[g].category == category {
        groups.update(g, GroupView { category, parts: groups[g].parts.push(x) })
    } else {
        groups.insert(g, GroupView { category, parts: seq![x] })
    }
}

/// The groups of a list of parts with their categories: the categories
/// in ascending order, the parts of each in the order of the list.
pub open spec fn grouped(items: Seq<(Seq<char>, Bl3PartWithInfo)>) -> Seq<GroupView>
    decreases items.len(),
{
    if items.len() == 0 {
        Seq::empty()
    } else {
        add_to_groups(grouped(items.drop_last()), items.last().0, items.last().1)
    }
}

/// The groups with the parts of each in order.
pub open spec fn sorted_groups(groups: Seq<GroupView>) -> Seq<GroupView> {
    Seq::new(
        groups.len(),
        |i: int| GroupView { category: groups[i].category, parts: sorted_all(groups[i].parts) },
    )
}

/// The view of a part table that may be absent.
pub open spec fn list_view(list: Option<&Vec<ResourceCategorizedParts>>) -> Option<
    Seq<ResourceCategorizedParts>,
> {
    match list {
        Some(l) => Some(l@),
        None => None,
    }
}

/// The parts of an item by category.
pub open spec fn categorized_parts(
    parts: Seq<Bl3Part>,
    list: Option<Seq<ResourceCategorizedParts>>,
) -> Seq<GroupView> {
    sorted_groups(grouped(Seq::new(parts.len(), |i: int| annotated_part(parts[i], list))))
}

/// The anointments of an item, in one group.
pub open spec fn categorized_anointments(
    parts: Seq<Bl3Part>,
    list: Seq<ResourceCategorizedParts>,
) -> Seq<GroupView> {
    sorted_groups(grouped(Seq::new(parts.len(), |i: int| annotated_anointment(parts[i], list))))
}

/// Whether the categories of the groups are in strictly ascending order.
pub open spec fn categories_ascending(groups: Seq<GroupView>) -> bool {
    forall|i: int, j: int|
        0 <= i < j < groups.len() ==> category_before(groups[i].category, groups[j].category)
}

/// The number of parts in all groups.
pub open spec fn part_count(groups: Seq<GroupView>) -> nat
    decreases groups.len(),
{
    if groups.len() == 0 {
        0
    } else {
        part_count(groups.drop_last()) + groups.last().parts.len()
    }
}

/// What `group_index` finds.
pub proof fn lemma_group_index(groups: Seq<GroupView>, category: Seq<char>)
    ensures
        0 <= group_index(groups, category) <= groups.len(),
        group_index(groups, category) < groups.len() ==> !category_before(
            groups[group_index(groups, category)].category,
            category,
        ),
        forall|j: int|
            0 <= j < group_index(groups, category) ==> category_before(
                (#[trigger] groups[j]).category,
                category,
            ),
    decreases groups.len(),
{
    if groups.len() > 0 && category_before(groups[0].category, category) {
        let tail = groups.skip(1);
        lemma_group_index(tail, category);
        assert forall|j: int| 0 <= j < group_index(groups, category) implies category_before(
            (#[trigger] groups[j]).category,
            category,
        ) by {
            if j > 0 {
                assert(groups[j] == tail[j - 1]);
            }
        }
    }
}

/// Adding a part keeps the categories in strictly ascending order.
pub proof fn lemma_add_keeps_ascending(groups: Seq<GroupView>, category: Seq<char>, x: Bl3PartWithInfo)
    requires
        categories_ascending(groups),
    ensures
        categories_ascending(add_to_groups(groups, category, x)),
{
    let g = group_index(groups, category);
    let out = add_to_groups(groups, category, x);
    lemma_group_index(groups, category);
    let key = encode_utf8(category);
    if g < groups.len() && groups[g].category == category {
        assert forall|i: int, j: int| 0 <= i < j < out.len() implies category_before(
            out[i].category,
            out[j].category,
        ) by {
            assert(category_before(groups[i].category, groups[j].category));
        }
    } else {
        assert forall|i: int, j: int| 0 <= i < j < out.len() implies category_before(
            out[i].category,
            out[j].category,
        ) by {
            if j < g {
                assert(category_before(groups[i].category, groups[j].category));
            } else if j == g {
                assert(out[i] == groups[i]);
            } else if i == g {
                let at = encode_utf8(groups[g].category);
                lemma_bytes_rank(at, key, key);
                lemma_bytes_rank_flip(at, key);
                vstd::utf8::encode_utf8_decode_utf8(groups[g].category);
                vstd::utf8::encode_utf8_decode_utf8(category);
                assert(category_before(category, groups[g].category));
                if j - 1 > g {
                    assert(category_before(groups[g].category, groups[j - 1].category));
                    lemma_bytes_rank(key, at, encode_utf8(groups[j - 1].category));
                }
            } else if i < g {
                assert(category_before(groups[i].category, groups[j - 1].category));
            } else {
                assert(category_before(groups[i - 1].category, groups[j - 1].category));
            }
        }
    }
}

/// Changing the parts of one group changes the count by as much.
pub proof fn lemma_part_count_update(groups: Seq<GroupView>, g: int, group: GroupView)
    requires
        0 <= g < groups.len(),
    ensures
        part_count(groups.update(g, group)) + groups[g].parts.len() == part_count(groups)
            + group.parts.len(),
    decreases groups.len(),
{
    let out = groups.update(g, group);
    if g == groups.len() - 1 {
        assert(out.drop_last() =~= groups.drop_last());
    } else {
        lemma_part_count_update(groups.drop_last(), g, group);
        assert(out.drop_last() =~= groups.drop_last().update(g, group));
    }
}

/// A new group adds its parts to the count.
pub proof fn lemma_part_count_insert(groups: Seq<GroupView>, g: int, group: GroupView)
    requires
        0 <= g <= groups.len(),
    ensures
        part_count(groups.insert(g, group)) == part_count(groups) + group.parts.len(),
    decreases groups.len(),
{
    let out = groups.insert(g, group);
    if g == groups.len() {
        assert(out.drop_last() =~= groups);
    } else {
        lemma_part_count_insert(groups.drop_last(), g, group);
        assert(out.drop_last() =~= groups.drop_last().insert(g, group));
        assert(out.last() == groups.last());
    }
}

/// Sorting the parts of every group leaves their number.
pub proof fn lemma_part_count_sorted(groups: Seq<GroupView>)
    ensures
        part_count(sorted_groups(groups)) == part_count(groups),
    decreases groups.len(),
{
    if groups.len() > 0 {
        lemma_part_count_sorted(groups.drop_last());
        lemma_sorted_all(groups.last().parts);
        assert(sorted_groups(groups).drop_last() =~= sorted_groups(groups.drop_last()));
    }
}

/// The groups of a list: their categories ascend strictly, none is
/// empty, and together they hold as many parts as the list.
pub proof fn lemma_grouped(items: Seq<(Seq<char>, Bl3PartWithInfo)>)
    ensures
        categories_ascending(grouped(items)),
        part_count(grouped(items)) == items.len(),
        forall|i: int| 0 <= i < grouped(items).len() ==> (#[trigger] grouped(items)[i]).parts.len() > 0,
    decreases items.len(),
{
    if items.len() > 0 {
        let before = grouped(items.drop_last());
        let category = items.last().0;
        let x = items.last().1;
        let out = grouped(items);
        let g = group_index(before, category);
        lemma_grouped(items.drop_last());
        lemma_add_keeps_ascending(before, category, x);
        lemma_group_index(before, category);
        if g < before.len() && before[g].category == category {
            lemma_part_count_update(
                before,
                g,
                GroupView { category, parts: before[g].parts.push(x) },
            );
            assert forall|i: int| 0 <= i < out.len() implies (#[trigger] out[i]).parts.len()
                > 0 by {
                if i != g {
                    assert(out[i] == before[i]);
                }
            }
        } else {
            lemma_part_count_insert(before, g, GroupView { category, parts: seq![x] });
            assert forall|i: int| 0 <= i < out.len() implies (#[trigger] out[i]).parts.len()
                > 0 by {
                if i < g {
                    assert(out[i] == before[i]);
                } else if i > g {
                    assert(out[i] == before[i - 1]);
                }
            }
        }
    }
}

/// What the categorized parts of an item are: the categories ascend
/// strictly, the parts of each category are in order, no category is
/// empty, and together they hold every part of the item.
pub proof fn lemma_categorized_parts(
    parts: Seq<Bl3Part>,
    list: Option<Seq<ResourceCategorizedParts>>,
)
    ensures
        categories_ascending(categorized_parts(parts, list)),
        part_count(categorized_parts(parts, list)) == parts.len(),
        forall|i: int|
            0 <= i < categorized_parts(parts, list).len() ==> parts_sorted(
                (#[trigger] categorized_parts(parts, list)[i]).parts,
            ) && categorized_parts(parts, list)[i].parts.len() > 0,
{
    let items = Seq::new(parts.len(), |i: int| annotated_part(parts[i], list));
    let groups = grouped(items);
    let out = categorized_parts(parts, list);
    lemma_grouped(items);
    lemma_part_count_sorted(groups);
    assert forall|i: int, j: int| 0 <= i < j < out.len() implies category_before(
        out[i].category,
        out[j].category,
    ) by {
        assert(category_before(groups[i].category, groups[j].category));
    }
    assert forall|i: int| 0 <= i < out.len() implies parts_sorted((#[trigger] out[i]).parts)
        && out[i].parts.len() > 0 by {
        lemma_sorted_all(groups[i].parts);
        assert(groups[i].parts.len() > 0);
    }
}

/// The category and the description of a part.
fn annotate(part: &Bl3Part, list: &Vec<ResourceCategorizedParts>) -> (r: (String, ResourcePartInfo))
    ensures
        r.0@ == category_of(*part, list@),
        r.1 == info_of(*part, list@),
{
    match find_part(list, part) {
        Some(at) => {
            let category = list[at.category_index].category.clone();
            let info = list[at.category_index].parts[at.part_index].info.duplicate();
            (category, info)
        },
        None => ("Unknown Parts".to_owned(), ResourcePartInfo::default()),
    }
}

/// Adds a part to the group of its category.
fn add_part(groups: &mut Vec<InventoryCategorizedParts>, category: String, x: Bl3PartWithInfo)
    ensures
        groups_view(final(groups)@) == add_to_groups(groups_view(old(groups)@), category@, x),
{
    let ghost before = groups_view(groups@);
    let mut g: usize = 0;
    let mut found: bool = false;
    proof {
        assert(before.skip(0) =~= before);
    }
    while !found && g < groups.len()
        invariant
            g <= groups@.len(),
            groups@ == old(groups)@,
            before == groups_view(groups@),
            found ==> group_index(before, category@) == g,
            !found ==> group_index(before, category@) == g + group_index(
                before.skip(g as int),
                category@,
            ),
        decreases groups@.len() - g + (if found { 0int } else { 1int }),
    {
        proof {
            assert(before.skip(g as int)[0] == groups@[g as int]@);
            assert(before.skip(g as int).skip(1) =~= before.skip(g + 1));
        }
        match rank_text(groups[g].category.as_str(), category.as_str()) {
            Rank::Before => {
                g = g + 1;
            },
            _ => {
                found = true;
            },
        }
    }
    if g < groups.len() && groups[g].category == category {
        let mut group = groups.remove(g);
        group.parts.push(x);
        let ghost changed = group@;
        groups.insert(g, group);
        proof {
            assert(groups_view(groups@) =~= before.update(g as int, changed));
        }
    } else {
        let mut parts: Vec<Bl3PartWithInfo> = Vec::new();
        parts.push(x);
        let group = InventoryCategorizedParts { category, parts };
        let ghost added = group@;
        groups.insert(g, group);
        proof {
            assert(added.parts =~= seq![x]);
            assert(groups_view(groups@) =~= before.insert(g as int, added));
        }
    }
}

/// Sorts the parts of every group.
fn sort_groups(groups: Vec<InventoryCategorizedParts>) -> (out: Vec<InventoryCategorizedParts>)
    ensures
        groups_view(out@) == sorted_groups(groups_view(groups@)),
{
    let mut rest = groups;
    let mut stack: Vec<InventoryCategorizedParts> = Vec::new();
    let ghost all = groups_view(rest@);
    let ghost want = sorted_groups(all);
    while rest.len() > 0
        invariant
            rest@.len() + stack@.len() == all.len(),
            groups_view(rest@) == all.take(rest@.len() as int),
            want == sorted_groups(all),
            forall|k: int|
                0 <= k < stack@.len() ==> (#[trigger] stack@[k])@ == want[all.len() - 1 - k],
        decreases rest@.len(),
    {
        let ghost n = rest@.len() as int;
        match rest.pop() {
            Some(group) => {
                proof {
                    assert(groups_view(rest@) =~= all.take(n - 1));
                    assert(group@ == all.take(n)[n - 1]);
                }
                let sorted = InventoryCategorizedParts {
                    category: group.category,
                    parts: sort_parts(group.parts),
                };
                stack.push(sorted);
            },
            None => {},
        }
    }
    let mut out: Vec<InventoryCategorizedParts> = Vec::new();
    while stack.len() > 0
        invariant
            out@.len() + stack@.len() == all.len(),
            want.len() == all.len(),
            forall|k: int|
                0 <= k < stack@.len() ==> (#[trigger] stack@[k])@ == want[all.len() - 1 - k],
            forall|k: int| 0 <= k < out@.len() ==> (#[trigger] out@[k])@ == want[k],
        decreases stack@.len(),
    {
        let ghost m = stack@.len() as int;
        match stack.pop() {
            Some(group) => {
                proof {
                    assert(group@ == want[all.len() - m]);
                }
                out.push(group);
            },
            None => {},
        }
    }
    proof {
        assert(groups_view(out@) =~= want);
    }
    out
}

/// The parts of an item by category, as they are listed: the categories
/// in ascending order, the parts of each category in order. A part that
/// matches no name of the part table, and every part where there is no
/// part table, is listed under "Unknown Parts".
pub fn categorize_parts(
    parts: &Vec<Bl3Part>,
    all_parts_list: Option<&Vec<ResourceCategorizedParts>>,
) -> (out: Vec<InventoryCategorizedParts>)
    ensures
        groups_view(out@) == categorized_parts(parts@, list_view(all_parts_list)),
{
    let mut groups: Vec<InventoryCategorizedParts> = Vec::new();
    let mut i: usize = 0;
    let ghost items = Seq::new(
        parts@.len(),
        |k: int| annotated_part(parts@[k], list_view(all_parts_list)),
    );
    proof {
        assert(items.take(0) =~= Seq::<(Seq<char>, Bl3PartWithInfo)>::empty());
        assert(groups_view(groups@) =~= grouped(items.take(0)));
    }
    while i < parts.len()
        invariant
            i <= parts@.len(),
            items == Seq::new(
                parts@.len(),
                |k: int| annotated_part(parts@[k], list_view(all_parts_list)),
            ),
            groups_view(groups@) == grouped(items.take(i as int)),
        decreases parts@.len() - i,
    {
        let part = parts[i].duplicate();
        let (category, info) = match all_parts_list {
            Some(list) => annotate(&parts[i], list),
            None => ("Unknown Parts".to_owned(), ResourcePartInfo::default()),
        };
        proof {
            let next = items.take(i + 1);
            assert(next.drop_last() =~= items.take(i as int));
            assert(next.last() == items[i as int]);
        }
        add_part(&mut groups, category, Bl3PartWithInfo { part, info });
        i = i + 1;
    }
    proof {
        assert(items.take(i as int) =~= items);
    }
    sort_groups(groups)
}

/// The anointments of an item as they are listed: all under "Unknown
/// Parts", in order, each with the description that the table of
/// anointments has for it.
pub fn categorize_anointments(
    generic_parts: &Vec<Bl3Part>,
    anointments_list: &Vec<ResourceCategorizedParts>,
) -> (out: Vec<InventoryCategorizedParts>)
    ensures
        groups_view(out@) == categorized_anointments(generic_parts@, anointments_list@),
{
    let mut groups: Vec<InventoryCategorizedParts> = Vec::new();
    let mut i: usize = 0;
    let ghost items = Seq::new(
        generic_parts@.len(),
        |k: int| annotated_anointment(generic_parts@[k], anointments_list@),
    );
    proof {
        assert(items.take(0) =~= Seq::<(Seq<char>, Bl3PartWithInfo)>::empty());
        assert(groups_view(groups@) =~= grouped(items.take(0)));
    }
    while i < generic_parts.len()
        invariant
            i <= generic_parts@.len(),
            items == Seq::new(
                generic_parts@.len(),
                |k: int| annotated_anointment(generic_parts@[k], anointments_list@),
            ),
            groups_view(groups@) == grouped(items.take(i as int)),
        decreases generic_parts@.len() - i,
    {
        let part = generic_parts[i].duplicate();
        let (_, info) = annotate(&generic_parts[i], anointments_list);
        proof {
            let next = items.take(i + 1);
            assert(next.drop_last() =~= items.take(i as int));
            assert(next.last() == items[i as int]);
        }
        add_part(&mut groups, "Unknown Parts".to_owned(), Bl3PartWithInfo { part, info });
        i = i + 1;
    }
    proof {
        assert(items.take(i as int) =~= items);
    }
    sort_groups(groups)
}

/// The parts and the anointments of an item, by name.
#[derive(Debug, Clone, Default, PartialEq, Eq)]
pub struct ItemParts {
    pub parts: Vec<Bl3Part>,
    pub generic_parts: Vec<Bl3Part>,
}

/// Whether `parts` are the parts that the indices stand for in a table at
/// `version`: each has the name of its index as its identifier, no short
/// identifier, and the index itself.
pub open spec fn names_indices(
    parts: Seq<Bl3Part>,
    indices: Seq<u32>,
    version: u8,
    table: &SerialTable,
) -> bool {
    &&& parts.len() == indices.len()
    &&& forall|k: int|
        0 <= k < indices.len() ==> {
            &&& resolve(table, version, indices[k]) == Some((#[trigger] parts[k]).ident@)
            &&& parts[k].short_ident is None
            &&& parts[k].idx == indices[k]
        }
}

/// Whether every index has a name in a table at `version`.
pub open spec fn all_named(indices: Seq<u32>, version: u8, table: &SerialTable) -> bool {
    forall|k: int| 0 <= k < indices.len() ==> resolve(table, version, #[trigger] indices[k]) is Some
}

/// The parts that indices stand for in a table at `version`; nothing
/// where an index has no name there.
pub fn named_parts(indices: &Vec<u32>, version: u8, table: &SerialTable) -> (r: Option<
    Vec<Bl3Part>,
>)
    ensures
        match r {
            Some(parts) => names_indices(parts@, indices@, version, table),
            None => !all_named(indices@, version, table),
        },
{
    let mut parts: Vec<Bl3Part> = Vec::new();
    let mut i: usize = 0;
    while i < indices.len()
        invariant
            i <= indices@.len(),
            names_indices(parts@, indices@.take(i as int), version, table),
        decreases indices@.len() - i,
    {
        match table.resolve(version, indices[i]) {
            Some(name) => {
                let ghost was = parts@;
                parts.push(Bl3Part { ident: name.clone(), short_ident: None, idx: indices[i] as usize });
                proof {
                    let now = indices@.take(i + 1);
                    assert forall|k: int| 0 <= k < now.len() implies {
                        &&& resolve(table, version, now[k]) == Some((#[trigger] parts@[k]).ident@)
                        &&& parts@[k].short_ident is None
                        &&& parts@[k].idx == now[k]
                    } by {
                        if k < i {
                            assert(parts@[k] == was[k]);
                            assert(indices@.take(i as int)[k] == now[k]);
                        }
                    }
                }
            },
            None => {
                return None;
            },
        }
        i = i + 1;
    }
    proof {
        assert(indices@.take(i as int) =~= indices@);
    }
    Some(parts)
}

/// The parts and the anointments of an item by name, each index resolved
/// against the table of the item's own schema version; nothing where an
/// index has no name.
pub fn item_parts(serial: &ItemSerial, db: &InventorySerialDb) -> (r: Option<ItemParts>)
    ensures
        match r {
            Some(ip) => {
                &&& names_indices(ip.parts@, serial.parts@, serial.version, &db.parts)
                &&& names_indices(
                    ip.generic_parts@,
                    serial.generic_parts@,
                    serial.version,
                    &db.generic_parts,
                )
            },
            None => !all_named(serial.parts@, serial.version, &db.parts) || !all_named(
                serial.generic_parts@,
                serial.version,
                &db.generic_parts,
            ),
        },
{
    let parts = match named_parts(&serial.parts, serial.version, &db.parts) {
        Some(p) => p,
        None => {
            return None;
        },
    };
    match named_parts(&serial.generic_parts, serial.version, &db.generic_parts) {
        Some(generic_parts) => Some(ItemParts { parts, generic_parts }),
        None => None,
    }
}

/// The list of an item that a tab shows, by category: the parts on the
/// tab of the parts, the anointments on the tab of the anointments. An
/// item whose parts are not known has nothing to show.
pub fn current_parts(
    tab: CurrentPartType,
    item_parts: Option<&ItemParts>,
    anointments_list: &Vec<ResourceCategorizedParts>,
    all_parts_list: Option<&Vec<ResourceCategorizedParts>>,
) -> (out: Vec<InventoryCategorizedParts>)
    ensures
        groups_view(out@) == match tab {
            CurrentPartType::Parts => categorized_parts(
                match item_parts {
                    Some(ip) => ip.parts@,
                    None => Seq::empty(),
                },
                list_view(all_parts_list),
            ),
            CurrentPartType::Anointments => categorized_anointments(
                match item_parts {
                    Some(ip) => ip.generic_parts@,
                    None => Seq::empty(),
                },
                anointments_list@,
            ),
        },
{
    let none: Vec<Bl3Part> = Vec::new();
    match tab {
        CurrentPartType::Parts => {
            match item_parts {
                Some(ip) => categorize_parts(&ip.parts, all_parts_list),
                None => categorize_parts(&none, all_parts_list),
            }
        },
        CurrentPartType::Anointments => {
            match item_parts {
                Some(ip) => categorize_anointments(&ip.generic_parts, anointments_list),
                None => categorize_anointments(&none, anointments_list),
            }
        },
    }
}

} // verus!
