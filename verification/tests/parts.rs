use bl3_save_edit_core::current_parts::{
    categorize_anointments, categorize_parts, contains, current_parts, find_in_category,
    find_part, item_parts, named_parts, part_contains, part_contains_folded, Bl3Part,
    Bl3PartWithInfo, CurrentPartType, CurrentPartTypeIndex, ItemParts, MAX_BL3_ITEM_ANOINTMENTS,
    MAX_BL3_ITEM_PARTS,
};
use bl3_save_edit_core::inventory_serial_db::{InventorySerialDb, SerialTable, TableVersion};
use bl3_save_edit_core::item_serial::ItemSerial;
use bl3_save_edit_core::part_order::{
    insert_sorted, rank_bytes, rank_optional_text, rank_parts, rank_text, sort_parts, Rank,
};
use bl3_save_edit_core::resources::{
    copy_text, ResourceCategorizedParts, ResourcePart, ResourcePartInfo,
};

fn info(text: &str) -> ResourcePartInfo {
    ResourcePartInfo { positives: Some(text.to_string()), negatives: None, effects: None }
}

fn resource(name: &str, text: &str) -> ResourcePart {
    ResourcePart {
        name: name.to_string(),
        min_parts: 0,
        max_parts: 1,
        dependencies: None,
        excluders: None,
        info: info(text),
    }
}

fn table() -> Vec<ResourceCategorizedParts> {
    vec![
        ResourceCategorizedParts {
            category: "SIGHT".to_string(),
            parts: vec![resource("Part_Scope_01", "zoom"), resource("Part_Scope_02", "more zoom")],
        },
        ResourceCategorizedParts {
            category: "BARREL".to_string(),
            parts: vec![resource("Part_Barrel_01", "damage"), resource("part_scope_02", "late")],
        },
        ResourceCategorizedParts { category: "EMPTY".to_string(), parts: vec![] },
    ]
}

fn short(name: &str, idx: usize) -> Bl3Part {
    Bl3Part {
        ident: format!("/Game/Gear/{}.{}", name, name),
        short_ident: Some(name.to_string()),
        idx,
    }
}

fn verbose(ident: &str, idx: usize) -> Bl3Part {
    Bl3Part { ident: ident.to_string(), short_ident: None, idx }
}

fn with(part: Bl3Part, info: ResourcePartInfo) -> Bl3PartWithInfo {
    Bl3PartWithInfo { part, info }
}

#[test]
fn limits_of_an_item() {
    assert_eq!(MAX_BL3_ITEM_PARTS, 63);
    assert_eq!(MAX_BL3_ITEM_ANOINTMENTS, 15);
}

#[test]
fn short_identifier_matches_a_name_that_equals_it() {
    let s = "Part_Barrel_01".to_string();
    assert!(part_contains(Some(&s), "anything", "Part_Barrel_01"));
    assert!(part_contains(Some(&s), "anything", "PART_barrel_01"));
    assert!(!part_contains(Some(&s), "anything", "Part_Barrel"));
    assert!(!part_contains(Some(&s), "anything", "Part_Barrel_011"));
}

#[test]
fn short_identifier_takes_precedence_over_the_verbose_one() {
    let s = "Other".to_string();
    assert!(!part_contains(Some(&s), "/Game/Part_Barrel_01", "Part_Barrel_01"));
    assert!(part_contains(None, "/Game/Part_Barrel_01", "Part_Barrel_01"));
}

#[test]
fn verbose_identifier_matches_a_name_that_occurs_in_it() {
    assert!(part_contains(None, "/Game/Gear/PART_BARREL_01.x", "part_barrel_01"));
    assert!(part_contains(None, "/game/gear/part_barrel_01.x", "Part_Barrel_01"));
    assert!(part_contains(None, "abc", ""));
    assert!(part_contains(None, "abc", "abc"));
    assert!(!part_contains(None, "abc", "abcd"));
    assert!(!part_contains(None, "Part_Barrel", "Part_Barrel_01"));
}

#[test]
fn folded_match_does_not_fold() {
    let s = "abc".to_string();
    assert!(part_contains_folded(Some(&s), "zzz", "abc"));
    assert!(!part_contains_folded(Some(&s), "zzz", "ABC"));
    assert!(part_contains_folded(None, "xxabcxx", "abc"));
    assert!(!part_contains_folded(None, "xxABCxx", "abc"));
}

#[test]
fn first_match_in_the_first_category_is_found() {
    let list = table();
    assert_eq!(find_in_category(&list[0].parts, &short("Part_Scope_02", 0)), Some(1));
    assert_eq!(find_in_category(&list[0].parts, &short("Part_Barrel_01", 0)), None);
    assert_eq!(find_in_category(&list[2].parts, &short("Part_Barrel_01", 0)), None);
    let at: Option<CurrentPartTypeIndex> = find_part(&list, &short("Part_Scope_02", 0));
    let at = at.unwrap();
    assert_eq!((at.category_index, at.part_index), (0, 1));
    let at = find_part(&list, &short("Part_Barrel_01", 0)).unwrap();
    assert_eq!((at.category_index, at.part_index), (1, 0));
    assert!(find_part(&list, &short("Part_Grip", 0)).is_none());
    assert!(find_part(&vec![], &short("Part_Scope_01", 0)).is_none());
}

#[test]
fn unmatched_parts_are_unknown() {
    let groups = categorize_parts(&vec![short("Part_Grip", 3)], Some(&table()));
    assert_eq!(groups.len(), 1);
    assert_eq!(groups[0].category, "Unknown Parts");
    assert_eq!(groups[0].parts, vec![with(short("Part_Grip", 3), ResourcePartInfo::default())]);
}

#[test]
fn without_a_table_every_part_is_unknown() {
    let parts = vec![short("Part_Scope_01", 1), short("Part_Barrel_01", 0)];
    let groups = categorize_parts(&parts, None);
    assert_eq!(groups.len(), 1);
    assert_eq!(groups[0].category, "Unknown Parts");
    assert_eq!(
        groups[0].parts,
        vec![
            with(short("Part_Barrel_01", 0), ResourcePartInfo::default()),
            with(short("Part_Scope_01", 1), ResourcePartInfo::default()),
        ]
    );
}

#[test]
fn item_without_parts_has_no_groups() {
    assert!(categorize_parts(&vec![], Some(&table())).is_empty());
    assert!(categorize_parts(&vec![], None).is_empty());
    assert!(categorize_anointments(&vec![], &table()).is_empty());
}

#[test]
fn parts_are_grouped_by_category_in_order() {
    let parts = vec![
        short("Part_Scope_02", 5),
        short("Part_Grip", 9),
        verbose("/Game/Gear/Part_Barrel_01.Part_Barrel_01", 2),
        short("Part_Scope_01", 4),
        short("Part_Scope_02", 1),
    ];
    let groups = categorize_parts(&parts, Some(&table()));
    let categories: Vec<&str> = groups.iter().map(|g| g.category.as_str()).collect();
    assert_eq!(categories, vec!["BARREL", "SIGHT", "Unknown Parts"]);
    assert_eq!(
        groups[0].parts,
        vec![with(verbose("/Game/Gear/Part_Barrel_01.Part_Barrel_01", 2), info("damage"))]
    );
    assert_eq!(
        groups[1].parts,
        vec![
            with(short("Part_Scope_01", 4), info("zoom")),
            with(short("Part_Scope_02", 1), info("more zoom")),
            with(short("Part_Scope_02", 5), info("more zoom")),
        ]
    );
    assert_eq!(groups[2].parts, vec![with(short("Part_Grip", 9), ResourcePartInfo::default())]);
    let total: usize = groups.iter().map(|g| g.parts.len()).sum();
    assert_eq!(total, parts.len());
}

#[test]
fn groups_are_as_the_standard_ordering_lists_them() {
    let parts = vec![
        short("Part_Scope_02", 5),
        verbose("Part_Scope_01", 7),
        short("Part_Scope_02", 1),
        short("Part_Scope_01", 4),
        verbose("part_scope_01", 0),
    ];
    let groups = categorize_parts(&parts, Some(&table()));
    assert_eq!(groups.len(), 1);
    let mut expected: Vec<Bl3PartWithInfo> = groups[0].parts.clone();
    expected.sort();
    assert_eq!(groups[0].parts, expected);
    assert_eq!(groups[0].parts.len(), 5);
}

#[test]
fn anointments_are_listed_in_one_group_with_their_descriptions() {
    let parts = vec![short("Part_Scope_02", 2), short("Nothing", 1), short("Part_Barrel_01", 0)];
    let groups = categorize_anointments(&parts, &table());
    assert_eq!(groups.len(), 1);
    assert_eq!(groups[0].category, "Unknown Parts");
    assert_eq!(
        groups[0].parts,
        vec![
            with(short("Nothing", 1), ResourcePartInfo::default()),
            with(short("Part_Barrel_01", 0), info("damage")),
            with(short("Part_Scope_02", 2), info("more zoom")),
        ]
    );
}

#[test]
fn bytes_are_ordered_one_by_one() {
    assert_eq!(rank_bytes(b"", b""), Rank::Same);
    assert_eq!(rank_bytes(b"", b"a"), Rank::Before);
    assert_eq!(rank_bytes(b"a", b""), Rank::After);
    assert_eq!(rank_bytes(b"ab", b"abc"), Rank::Before);
    assert_eq!(rank_bytes(b"abd", b"abc"), Rank::After);
    assert_eq!(rank_bytes(b"abc", b"abc"), Rank::Same);
    assert_eq!(rank_bytes(b"Z", b"a"), Rank::Before);
    assert_eq!(rank_text("é", "z"), Rank::After);
    assert_eq!(rank_text("Unknown Parts", "BARREL"), Rank::After);
}

#[test]
fn absent_text_comes_first() {
    let a = Some("a".to_string());
    let b = Some("b".to_string());
    assert_eq!(rank_optional_text(&None, &None), Rank::Same);
    assert_eq!(rank_optional_text(&None, &a), Rank::Before);
    assert_eq!(rank_optional_text(&a, &None), Rank::After);
    assert_eq!(rank_optional_text(&a, &b), Rank::Before);
    assert_eq!(rank_optional_text(&b, &b), Rank::Same);
    assert_eq!(copy_text(&a), a);
    assert_eq!(copy_text(&None), None);
}

#[test]
fn parts_are_ordered_field_by_field() {
    let base = with(short("B", 5), info("m"));
    assert_eq!(rank_parts(&base, &base.clone()), Rank::Same);
    assert_eq!(rank_parts(&base, &with(short("C", 0), info("a"))), Rank::Before);
    let mut other = base.clone();
    other.part.short_ident = None;
    assert_eq!(rank_parts(&base, &other), Rank::After);
    let mut other = base.clone();
    other.part.idx = 6;
    assert_eq!(rank_parts(&base, &other), Rank::Before);
    let mut other = base.clone();
    other.info.positives = Some("a".to_string());
    assert_eq!(rank_parts(&base, &other), Rank::After);
    let mut other = base.clone();
    other.info.negatives = Some("".to_string());
    assert_eq!(rank_parts(&base, &other), Rank::Before);
    let mut other = base.clone();
    other.info.effects = Some("x".to_string());
    assert_eq!(rank_parts(&other, &base), Rank::After);
}

#[test]
fn rank_agrees_with_the_standard_ordering() {
    let all = vec![
        with(short("B", 5), info("m")),
        with(short("B", 5), ResourcePartInfo::default()),
        with(short("A", 9), info("z")),
        with(verbose("/Game/Gear/B.B", 5), info("m")),
        with(verbose("", 0), ResourcePartInfo::default()),
        with(short("B", 4), info("m")),
    ];
    for a in &all {
        for b in &all {
            let expected = if a < b {
                Rank::Before
            } else if a > b {
                Rank::After
            } else {
                Rank::Same
            };
            assert_eq!(rank_parts(a, b), expected);
        }
    }
}

#[test]
fn sorting_puts_every_part_at_its_place() {
    let all = vec![
        with(short("B", 5), info("m")),
        with(short("A", 9), info("z")),
        with(short("B", 5), ResourcePartInfo::default()),
        with(short("A", 9), info("z")),
        with(short("C", 0), info("a")),
    ];
    let mut expected = all.clone();
    expected.sort();
    assert_eq!(sort_parts(all.clone()), expected);
    assert_eq!(sort_parts(vec![]), vec![]);
    let mut grown = Vec::new();
    for x in all {
        insert_sorted(&mut grown, x);
    }
    assert_eq!(grown, expected);
}

#[test]
fn tab_kinds_are_told_apart() {
    assert_ne!(CurrentPartType::Parts, CurrentPartType::Anointments);
    let at = CurrentPartTypeIndex::default();
    assert_eq!((at.category_index, at.part_index), (0, 0));
}

#[test]
fn copies_are_equal() {
    let p = short("Part", 3);
    assert_eq!(p.duplicate(), p);
    let i = info("text");
    assert_eq!(i.duplicate(), i);
}

fn db() -> InventorySerialDb {
    InventorySerialDb {
        balances: vec![],
        manufacturers: vec![],
        parts: SerialTable {
            versions: vec![
                TableVersion { version: 1, size: 2 },
                TableVersion { version: 3, size: 3 },
            ],
            names: vec![
                "/Game/Gear/Part_Barrel_01.Part_Barrel_01".to_string(),
                "/Game/Gear/Part_Scope_01.Part_Scope_01".to_string(),
                "/Game/Gear/Part_Scope_02.Part_Scope_02".to_string(),
            ],
        },
        generic_parts: SerialTable {
            versions: vec![TableVersion { version: 1, size: 1 }],
            names: vec!["/Game/Anoint/Part_Scope_02".to_string()],
        },
    }
}

fn item(version: u8, parts: Vec<u32>, generic_parts: Vec<u32>) -> ItemSerial {
    ItemSerial { version, balance: 0, manufacturer: 0, rarity: 0, parts, generic_parts, checksum: 0 }
}

#[test]
fn bytes_are_searched_for() {
    assert!(contains(b"", b""));
    assert!(contains(b"abc", b""));
    assert!(contains(b"abc", b"abc"));
    assert!(contains(b"abc", b"a"));
    assert!(contains(b"abc", b"c"));
    assert!(contains(b"aab", b"ab"));
    assert!(contains(b"xxabxabc", b"abc"));
    assert!(!contains(b"", b"a"));
    assert!(!contains(b"ab", b"abc"));
    assert!(!contains(b"abab", b"aba_"));
    assert!(!contains(b"abcabd", b"abe"));
}

#[test]
fn indices_are_named_by_the_table_of_the_version() {
    let db = db();
    let parts = named_parts(&vec![1, 0], 1, &db.parts).unwrap();
    assert_eq!(
        parts,
        vec![
            verbose("/Game/Gear/Part_Scope_01.Part_Scope_01", 1),
            verbose("/Game/Gear/Part_Barrel_01.Part_Barrel_01", 0),
        ]
    );
    assert_eq!(named_parts(&vec![1, 2], 1, &db.parts), None);
    assert_eq!(named_parts(&vec![1, 2], 3, &db.parts).unwrap().len(), 2);
    assert_eq!(named_parts(&vec![], 0, &db.parts), Some(vec![]));
    assert_eq!(named_parts(&vec![0], 0, &db.parts), None);
}

#[test]
fn item_has_parts_when_every_index_has_a_name() {
    let db = db();
    let ip = item_parts(&item(3, vec![2], vec![0]), &db).unwrap();
    assert_eq!(ip.parts, vec![verbose("/Game/Gear/Part_Scope_02.Part_Scope_02", 2)]);
    assert_eq!(ip.generic_parts, vec![verbose("/Game/Anoint/Part_Scope_02", 0)]);
    assert_eq!(item_parts(&item(1, vec![2], vec![0]), &db), None);
    assert_eq!(item_parts(&item(3, vec![2], vec![1]), &db), None);
    assert_eq!(item_parts(&item(3, vec![], vec![]), &db), Some(ItemParts::default()));
}

#[test]
fn each_tab_shows_its_list() {
    let db = db();
    let ip = item_parts(&item(3, vec![2, 0], vec![0]), &db).unwrap();
    let shown = current_parts(CurrentPartType::Parts, Some(&ip), &table(), Some(&table()));
    let categories: Vec<&str> = shown.iter().map(|g| g.category.as_str()).collect();
    assert_eq!(categories, vec!["BARREL", "SIGHT"]);
    assert_eq!(shown[1].parts[0].info, info("more zoom"));
    let shown = current_parts(CurrentPartType::Anointments, Some(&ip), &table(), None);
    assert_eq!(shown.len(), 1);
    assert_eq!(shown[0].category, "Unknown Parts");
    assert_eq!(shown[0].parts, vec![with(ip.generic_parts[0].clone(), info("more zoom"))]);
    assert!(current_parts(CurrentPartType::Parts, None, &table(), Some(&table())).is_empty());
    assert!(current_parts(CurrentPartType::Anointments, None, &table(), None).is_empty());
}
