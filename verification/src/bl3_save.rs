//! The save file: the container that frames it, and the save that its
//! payload holds.
//!
//! A container is the magic bytes, the header fields, the custom format
//! entries, the type of the save, the length of the payload and the
//! encrypted payload itself. All integers are little-endian.

use crate::character_data::{
    character_wf, class_of, decode_character, encode_character, find_number, find_text,
    CharacterData, CharacterFieldView, PlayerClass, EXPERIENCE_POINTS, GUARDIAN_RANK, MONEY,
    ERIDIUM, PLAYER_CLASS, PLAYER_LEVEL, PLAYTHROUGHS_COMPLETED, PREFERRED_CHARACTER_NAME,
    SAVE_GAME_GUID, SAVE_GAME_ID,
};
use crate::text::{decimal, line, push_number_line, push_text_line, text_from, text_of};
use crate::crypto::{decrypt, decrypt_spec, encrypt, encrypt_spec};
use crate::error::{FormatError, IntegrityError, LoadError};
use crate::inventory_serial_db::InventorySerialDb;
use crate::parser::{
    le16, le32, lemma_le32_bound, lemma_put_int, lemma_put_str, lemma_take_int,
    lemma_take_short, lemma_take_str, magic, put_int, put_short, put_str, read_header, read_int,
    read_short, read_str, take_header, take_str, write_bytes, write_int,
    write_short, write_str, Input,
};
use vstd::prelude::*;
use vstd::utf8::encode_utf8;

verus! {

/// The number of bytes of a custom format entry: its GUID and its counter.
pub const ENTRY_LEN: usize = 20;

/// One custom format entry of the header.
#[derive(Clone, Copy, Debug, PartialEq, Eq)]
pub struct CustomFormatData {
    pub guid: [u8; 16],
    pub entry: u32,
}

/// The mathematical content of a `CustomFormatData`.
pub ghost struct CustomFormatDataView {
    pub guid: Seq<u8>,
    pub entry: u32,
}

impl View for CustomFormatData {
    type V = CustomFormatDataView;

    open spec fn view(&self) -> CustomFormatDataView {
        CustomFormatDataView { guid: self.guid@, entry: self.entry }
    }
}

/// The version fields that follow the magic bytes.
#[derive(Clone, Copy, Debug, PartialEq, Eq)]
pub struct SaveVersions {
    pub save_game_version: u32,
    pub package_version: u32,
    pub engine_major: u16,
    pub engine_minor: u16,
    pub engine_patch: u16,
    pub engine_build: u32,
}

/// The header of a container.
#[derive(Clone, Debug, PartialEq, Eq)]
pub struct SaveHeader {
    pub versions: SaveVersions,
    pub build_id: String,
    pub custom_format_version: u32,
    pub custom_format_data: Vec<CustomFormatData>,
    pub save_game_type: String,
}

/// The mathematical content of a `SaveHeader`.
pub ghost struct SaveHeaderView {
    pub versions: SaveVersions,
    pub build_id: Seq<char>,
    pub custom_format_version: u32,
    pub custom_format_data: Seq<CustomFormatDataView>,
    pub save_game_type: Seq<char>,
}

/// The views of a list of entries.
pub open spec fn entries_view(es: Seq<CustomFormatData>) -> Seq<CustomFormatDataView> {
    Seq::new(es.len(), |i: int| es[i]@)
}

impl View for SaveHeader {
    type V = SaveHeaderView;

    open spec fn view(&self) -> SaveHeaderView {
        SaveHeaderView {
            versions: self.versions,
            build_id: self.build_id@,
            custom_format_version: self.custom_format_version,
            custom_format_data: entries_view(self.custom_format_data@),
            save_game_type: self.save_game_type@,
        }
    }
}

/// A container: the header and the encrypted payload.
#[derive(Clone, Debug, PartialEq, Eq)]
pub struct SaveContainer {
    pub header: SaveHeader,
    pub payload: Vec<u8>,
}

/// The mathematical content of a `SaveContainer`.
pub ghost struct SaveContainerView {
    pub header: SaveHeaderView,
    pub payload: Seq<u8>,
}

impl View for SaveContainer {
    type V = SaveContainerView;

    open spec fn view(&self) -> SaveContainerView {
        SaveContainerView { header: self.header@, payload: self.payload@ }
    }
}

/// A save: the header of its container and the character in its payload.
#[derive(Clone, Debug, PartialEq, Eq)]
pub struct Bl3Save {
    pub header: SaveHeader,
    pub character_data: CharacterData,
}

/// The mathematical content of a `Bl3Save`.
pub ghost struct Bl3SaveView {
    pub header: SaveHeaderView,
    pub character: Seq<CharacterFieldView>,
}

impl View for Bl3Save {
    type V = Bl3SaveView;

    open spec fn view(&self) -> Bl3SaveView {
        Bl3SaveView { header: self.header@, character: self.character_data@ }
    }
}

/// The bytes of one entry.
pub open spec fn put_entry(e: CustomFormatDataView) -> Seq<u8> {
    e.guid + put_int(e.entry)
}

/// The bytes of a list of entries.
pub open spec fn put_entries(es: Seq<CustomFormatDataView>) -> Seq<u8>
    decreases es.len(),
{
    if es.len() == 0 {
        Seq::empty()
    } else {
        put_entry(es[0]) + put_entries(es.skip(1))
    }
}

/// The entry that the first twenty bytes hold.
pub open spec fn entry_at(s: Seq<u8>) -> CustomFormatDataView {
    CustomFormatDataView { guid: s.take(16), entry: le32(s.skip(16)) as u32 }
}

/// `count` entries and what follows them.
pub open spec fn take_entries(s: Seq<u8>, count: nat) -> Result<
    (Seq<CustomFormatDataView>, Seq<u8>),
    FormatError,
>
    decreases count,
{
    if count == 0 {
        Ok((Seq::empty(), s))
    } else if s.len() < ENTRY_LEN {
        Err(FormatError::Truncated)
    } else {
        match take_entries(s.skip(ENTRY_LEN as int), (count - 1) as nat) {
            Ok((es, rest)) => Ok((seq![entry_at(s)] + es, rest)),
            Err(e) => Err(e),
        }
    }
}

/// The bytes of the version fields.
pub open spec fn put_versions(v: SaveVersions) -> Seq<u8> {
    put_int(v.save_game_version) + put_int(v.package_version) + put_short(v.engine_major)
        + put_short(v.engine_minor) + put_short(v.engine_patch) + put_int(v.engine_build)
}

/// The version fields and what follows them.
pub open spec fn take_versions(s: Seq<u8>) -> Result<(SaveVersions, Seq<u8>), FormatError> {
    if s.len() < 18 {
        Err(FormatError::Truncated)
    } else {
        Ok(
            (
                SaveVersions {
                    save_game_version: le32(s) as u32,
                    package_version: le32(s.skip(4)) as u32,
                    engine_major: le16(s.skip(8)) as u16,
                    engine_minor: le16(s.skip(10)) as u16,
                    engine_patch: le16(s.skip(12)) as u16,
                    engine_build: le32(s.skip(14)) as u32,
                },
                s.skip(18),
            ),
        )
    }
}

/// The bytes of the custom format version and of the counted entries.
pub open spec fn put_format(version: u32, es: Seq<CustomFormatDataView>) -> Seq<u8> {
    put_int(version) + (put_int(es.len() as u32) + put_entries(es))
}

/// The custom format version, the counted entries and what follows them.
pub open spec fn take_format(s: Seq<u8>) -> Result<
    ((u32, Seq<CustomFormatDataView>), Seq<u8>),
    FormatError,
> {
    if s.len() < 8 {
        Err(FormatError::Truncated)
    } else {
        match take_entries(s.skip(8), le32(s.skip(4)) as nat) {
            Err(e) => Err(e),
            Ok((es, rest)) => Ok(((le32(s) as u32, es), rest)),
        }
    }
}

/// The bytes of a header.
pub open spec fn put_save_header(h: SaveHeaderView) -> Seq<u8> {
    magic() + (put_versions(h.versions) + (put_str(h.build_id) + (put_format(
        h.custom_format_version,
        h.custom_format_data,
    ) + put_str(h.save_game_type))))
}

/// Whether a header can be written: its lengths fit four bytes, and every
/// GUID has sixteen.
pub open spec fn header_wf(h: SaveHeaderView) -> bool {
    &&& encode_utf8(h.build_id).len() <= u32::MAX
    &&& encode_utf8(h.save_game_type).len() <= u32::MAX
    &&& h.custom_format_data.len() <= u32::MAX
    &&& guids_wf(h.custom_format_data)
}

/// Whether every GUID has sixteen bytes.
pub open spec fn guids_wf(es: Seq<CustomFormatDataView>) -> bool {
    forall|i: int| 0 <= i < es.len() ==> (#[trigger] es[i]).guid.len() == 16
}

/// A header and what follows it.
pub open spec fn take_save_header(s: Seq<u8>) -> Result<(SaveHeaderView, Seq<u8>), FormatError> {
    match take_header(s) {
        Err(e) => Err(e),
        Ok(s1) => match take_versions(s1) {
            Err(e) => Err(e),
            Ok((versions, s2)) => match take_str(s2) {
                Err(e) => Err(e),
                Ok((build_id, s3)) => match take_format(s3) {
                    Err(e) => Err(e),
                    Ok((format, s4)) => match take_str(s4) {
                        Err(e) => Err(e),
                        Ok((save_game_type, s5)) => Ok(
                            (
                                SaveHeaderView {
                                    versions,
                                    build_id,
                                    custom_format_version: format.0,
                                    custom_format_data: format.1,
                                    save_game_type,
                                },
                                s5,
                            ),
                        ),
                    },
                },
            },
        },
    }
}

/// The container that a file holds, or why the file is not a container.
pub open spec fn decode_container(s: Seq<u8>) -> Result<SaveContainerView, FormatError> {
    match take_save_header(s) {
        Err(e) => Err(e),
        Ok((header, rest)) => if rest.len() < 4 {
            Err(FormatError::Truncated)
        } else if rest.len() - 4 != le32(rest) {
            Err(FormatError::LengthMismatch)
        } else {
            Ok(SaveContainerView { header, payload: rest.skip(4) })
        },
    }
}

/// The file of a container; `TooLong` where a length does not fit its
/// field.
pub open spec fn encode_container(c: SaveContainerView) -> Result<Seq<u8>, FormatError> {
    if encode_utf8(c.header.build_id).len() > u32::MAX || c.header.custom_format_data.len()
        > u32::MAX || encode_utf8(c.header.save_game_type).len() > u32::MAX || c.payload.len()
        > u32::MAX {
        Err(FormatError::TooLong)
    } else {
        Ok(put_save_header(c.header) + put_int(c.payload.len() as u32) + c.payload)
    }
}

/// The save that a file holds, or why the file does not load.
pub open spec fn decode_save(s: Seq<u8>, key: Seq<u8>, db: &InventorySerialDb) -> Result<
    Bl3SaveView,
    LoadError,
> {
    match decode_container(s) {
        Err(e) => Err(LoadError::Format(e)),
        Ok(c) => match decrypt_spec(c.payload, key) {
            Err(e) => Err(LoadError::Integrity(e)),
            Ok(plain) => match decode_character(plain, db) {
                None => Err(LoadError::Format(FormatError::MalformedRecord)),
                Some(character) => Ok(Bl3SaveView { header: c.header, character }),
            },
        },
    }
}

/// The file of a save.
pub open spec fn encode_save(v: Bl3SaveView, key: Seq<u8>) -> Result<Seq<u8>, FormatError> {
    encode_container(
        SaveContainerView {
            header: v.header,
            payload: encrypt_spec(encode_character(v.character), key),
        },
    )
}

/// Whether a save is what reading its own file gives.
pub open spec fn save_wf(v: Bl3SaveView, db: &InventorySerialDb) -> bool {
    header_wf(v.header) && character_wf(v.character, db)
}

/// The entries read so far, followed by those still to be read.
pub open spec fn prepend_entries(
    done: Seq<CustomFormatDataView>,
    tail: Result<(Seq<CustomFormatDataView>, Seq<u8>), FormatError>,
) -> Result<(Seq<CustomFormatDataView>, Seq<u8>), FormatError> {
    match tail {
        Ok((es, rest)) => Ok((done + es, rest)),
        Err(e) => Err(e),
    }
}

/// Joining is associative.
pub proof fn lemma_concat_assoc(a: Seq<u8>, b: Seq<u8>, c: Seq<u8>)
    ensures
        (a + b) + c == a + (b + c),
{
    assert((a + b) + c =~= a + (b + c));
}

/// Entries that were read are the entries that `put_entries` writes.
pub proof fn lemma_take_entries(
    s: Seq<u8>,
    count: nat,
    es: Seq<CustomFormatDataView>,
    rest: Seq<u8>,
)
    requires
        take_entries(s, count) == Ok::<(Seq<CustomFormatDataView>, Seq<u8>), FormatError>(
            (es, rest),
        ),
    ensures
        s == put_entries(es) + rest,
        es.len() == count,
        guids_wf(es),
    decreases count,
{
    if count == 0 {
        assert(s =~= put_entries(es) + rest);
    } else {
        let next = s.skip(20);
        let t = take_entries(next, (count - 1) as nat);
        assert(t is Ok);
        let (tail, r) = t->Ok_0;
        lemma_take_entries(next, (count - 1) as nat, tail, r);
        lemma_take_int(s.skip(16));
        lemma_le32_bound(s.skip(16));
        assert(es.skip(1) =~= tail);
        assert(es[0] == entry_at(s));
        assert(s.skip(16).skip(4) =~= next);
        assert(s =~= s.take(16) + s.skip(16));
        assert(s =~= put_entry(es[0]) + next);
        lemma_concat_assoc(put_entry(es[0]), put_entries(tail), rest);
        assert forall|i: int| 0 <= i < es.len() implies (#[trigger] es[i]).guid.len() == 16 by {
            if i > 0 {
                assert(es[i] == tail[i - 1]);
            }
        }
    }
}

/// Reading what `put_entries` wrote gives the entries back.
pub proof fn lemma_put_entries(es: Seq<CustomFormatDataView>, rest: Seq<u8>)
    requires
        guids_wf(es),
    ensures
        take_entries(put_entries(es) + rest, es.len()) == Ok::<
            (Seq<CustomFormatDataView>, Seq<u8>),
            FormatError,
        >((es, rest)),
    decreases es.len(),
{
    let s = put_entries(es) + rest;
    if es.len() == 0 {
        assert(s =~= rest);
        assert(es =~= Seq::<CustomFormatDataView>::empty());
    } else {
        let tail = es.skip(1);
        assert(guids_wf(tail)) by {
            assert forall|i: int| 0 <= i < tail.len() implies (#[trigger] tail[i]).guid.len()
                == 16 by {
                assert(tail[i] == es[i + 1]);
            }
        }
        lemma_put_entries(tail, rest);
        let e = es[0];
        let after = put_entries(tail) + rest;
        assert(e.guid.len() == 16);
        lemma_put_int(e.entry, after);
        lemma_concat_assoc(put_entry(e), put_entries(tail), rest);
        assert(s == put_entry(e) + after);
        assert(s.len() >= 20);
        assert(s.skip(16) =~= put_int(e.entry) + after);
        assert(s.skip(20) =~= after);
        assert(s.take(16) =~= e.guid);
        assert(entry_at(s) == e);
        assert(seq![e] + tail =~= es);
        assert((es.len() - 1) as nat == tail.len());
        assert(take_entries(s.skip(20), tail.len()) == Ok::<
            (Seq<CustomFormatDataView>, Seq<u8>),
            FormatError,
        >((tail, rest)));
    }
}

/// Writing the entries one after another writes their list.
pub proof fn lemma_put_entries_push(es: Seq<CustomFormatDataView>, e: CustomFormatDataView)
    ensures
        put_entries(es.push(e)) == put_entries(es) + put_entry(e),
    decreases es.len(),
{
    let all = es.push(e);
    if es.len() == 0 {
        assert(all.skip(1) =~= Seq::<CustomFormatDataView>::empty());
        assert(all[0] == e);
        assert(put_entries(all) == put_entry(e) + put_entries(all.skip(1)));
        assert(put_entries(all) =~= put_entries(es) + put_entry(e));
    } else {
        lemma_put_entries_push(es.skip(1), e);
        assert(all.skip(1) =~= es.skip(1).push(e));
        assert(put_entries(all) =~= put_entries(es) + put_entry(e));
    }
}

/// Version fields that were read are those that `put_versions` writes.
pub proof fn lemma_take_versions(s: Seq<u8>, v: SaveVersions, rest: Seq<u8>)
    requires
        take_versions(s) == Ok::<(SaveVersions, Seq<u8>), FormatError>((v, rest)),
    ensures
        s == put_versions(v) + rest,
{
    lemma_take_int(s);
    lemma_take_int(s.skip(4));
    lemma_take_short(s.skip(8));
    lemma_take_short(s.skip(10));
    lemma_take_short(s.skip(12));
    lemma_take_int(s.skip(14));
    let want = put_versions(v) + rest;
    assert(want.len() == s.len());
    assert forall|i: int| 0 <= i < s.len() implies s[i] == want[i] by {
        if i < 4 {
            assert(s[i] == put_int(v.save_game_version)[i]);
        } else if i < 8 {
            assert(s[i] == s.skip(4)[i - 4]);
            assert(s.skip(4)[i - 4] == put_int(v.package_version)[i - 4]);
        } else if i < 10 {
            assert(s[i] == s.skip(8)[i - 8]);
            assert(s.skip(8)[i - 8] == put_short(v.engine_major)[i - 8]);
        } else if i < 12 {
            assert(s[i] == s.skip(10)[i - 10]);
            assert(s.skip(10)[i - 10] == put_short(v.engine_minor)[i - 10]);
        } else if i < 14 {
            assert(s[i] == s.skip(12)[i - 12]);
            assert(s.skip(12)[i - 12] == put_short(v.engine_patch)[i - 12]);
        } else if i < 18 {
            assert(s[i] == s.skip(14)[i - 14]);
            assert(s.skip(14)[i - 14] == put_int(v.engine_build)[i - 14]);
        } else {
            assert(s[i] == s.skip(18)[i - 18]);
        }
    }
    assert(s =~= want);
}

/// Reading what `put_versions` wrote gives the version fields back.
pub proof fn lemma_put_versions(v: SaveVersions, rest: Seq<u8>)
    ensures
        take_versions(put_versions(v) + rest) == Ok::<(SaveVersions, Seq<u8>), FormatError>(
            (v, rest),
        ),
{
    let p = put_versions(v);
    let s = p + rest;
    let a = put_int(v.save_game_version);
    let b = put_int(v.package_version);
    let c = put_short(v.engine_major);
    let d = put_short(v.engine_minor);
    let e = put_short(v.engine_patch);
    let f = put_int(v.engine_build);
    assert(p.len() == 18);
    assert(s.subrange(0, 4) =~= a);
    assert(s.subrange(4, 8) =~= b);
    assert(s.subrange(8, 10) =~= c);
    assert(s.subrange(10, 12) =~= d);
    assert(s.subrange(12, 14) =~= e);
    assert(s.subrange(14, 18) =~= f);
    lemma_le32_of(s, 0, v.save_game_version);
    lemma_le32_of(s, 4, v.package_version);
    lemma_le16_of(s, 8, v.engine_major);
    lemma_le16_of(s, 10, v.engine_minor);
    lemma_le16_of(s, 12, v.engine_patch);
    lemma_le32_of(s, 14, v.engine_build);
    assert(s.skip(0) =~= s);
    assert(s.skip(18) =~= rest);
}

/// Four bytes that `put_int` wrote anywhere in a buffer are read back
/// from there.
pub proof fn lemma_le32_of(s: Seq<u8>, at: int, v: u32)
    requires
        0 <= at,
        at + 4 <= s.len(),
        s.subrange(at, at + 4) == put_int(v),
    ensures
        le32(s.skip(at)) == v,
{
    let w = s.subrange(at, at + 4);
    assert(w[0] == s.skip(at)[0]);
    assert(w[1] == s.skip(at)[1]);
    assert(w[2] == s.skip(at)[2]);
    assert(w[3] == s.skip(at)[3]);
}

/// Two bytes that `put_short` wrote anywhere in a buffer are read back
/// from there.
pub proof fn lemma_le16_of(s: Seq<u8>, at: int, v: u16)
    requires
        0 <= at,
        at + 2 <= s.len(),
        s.subrange(at, at + 2) == put_short(v),
    ensures
        le16(s.skip(at)) == v,
{
    let w = s.subrange(at, at + 2);
    assert(w[0] == s.skip(at)[0]);
    assert(w[1] == s.skip(at)[1]);
}

/// A custom format block that was read is the one that `put_format`
/// writes.
pub proof fn lemma_take_format(
    s: Seq<u8>,
    version: u32,
    es: Seq<CustomFormatDataView>,
    rest: Seq<u8>,
)
    requires
        take_format(s) == Ok::<((u32, Seq<CustomFormatDataView>), Seq<u8>), FormatError>(
            ((version, es), rest),
        ),
    ensures
        s == put_format(version, es) + rest,
        es.len() <= u32::MAX,
        guids_wf(es),
{
    let count = le32(s.skip(4)) as nat;
    lemma_take_int(s);
    lemma_take_int(s.skip(4));
    lemma_le32_bound(s.skip(4));
    lemma_le32_bound(s);
    assert(s.skip(4).skip(4) =~= s.skip(8));
    lemma_take_entries(s.skip(8), count, es, rest);
    lemma_concat_assoc(put_int(es.len() as u32), put_entries(es), rest);
    lemma_concat_assoc(put_int(version), put_int(es.len() as u32) + put_entries(es), rest);
}

/// Reading what `put_format` wrote gives the block back.
pub proof fn lemma_put_format(version: u32, es: Seq<CustomFormatDataView>, rest: Seq<u8>)
    requires
        es.len() <= u32::MAX,
        guids_wf(es),
    ensures
        take_format(put_format(version, es) + rest) == Ok::<
            ((u32, Seq<CustomFormatDataView>), Seq<u8>),
            FormatError,
        >(((version, es), rest)),
{
    let n = es.len() as u32;
    let s = put_format(version, es) + rest;
    let t3 = put_entries(es) + rest;
    let t2 = put_int(n) + t3;
    lemma_concat_assoc(put_int(n), put_entries(es), rest);
    lemma_concat_assoc(put_int(version), put_int(n) + put_entries(es), rest);
    assert(s == put_int(version) + t2);
    lemma_put_int(version, t2);
    lemma_put_int(n, t3);
    assert(s.skip(4) == t2);
    assert(s.skip(4).skip(4) =~= s.skip(8));
    lemma_put_entries(es, rest);
}

/// A header that was read is the header that `put_save_header` writes,
/// and it can be written.
pub proof fn lemma_take_save_header(s: Seq<u8>, h: SaveHeaderView, rest: Seq<u8>)
    requires
        take_save_header(s) == Ok::<(SaveHeaderView, Seq<u8>), FormatError>((h, rest)),
    ensures
        s == put_save_header(h) + rest,
        header_wf(h),
{
    let s1 = take_header(s)->Ok_0;
    let (versions, s2) = take_versions(s1)->Ok_0;
    let (build_id, s3) = take_str(s2)->Ok_0;
    let (format, s4) = take_format(s3)->Ok_0;
    let (save_game_type, s5) = take_str(s4)->Ok_0;
    assert(s =~= magic() + s1);
    lemma_take_versions(s1, versions, s2);
    lemma_take_str(s2);
    lemma_take_format(s3, h.custom_format_version, h.custom_format_data, s4);
    lemma_take_str(s4);
    let a = magic();
    let b = put_versions(h.versions);
    let c = put_str(h.build_id);
    let d = put_format(h.custom_format_version, h.custom_format_data);
    let e = put_str(h.save_game_type);
    assert(s == a + (b + (c + (d + (e + rest)))));
    lemma_concat_assoc(d, e, rest);
    lemma_concat_assoc(c, d + e, rest);
    lemma_concat_assoc(b, c + (d + e), rest);
    lemma_concat_assoc(a, b + (c + (d + e)), rest);
}

/// Reading what `put_save_header` wrote gives the header back.
pub proof fn lemma_put_save_header(h: SaveHeaderView, rest: Seq<u8>)
    requires
        header_wf(h),
    ensures
        take_save_header(put_save_header(h) + rest) == Ok::<(SaveHeaderView, Seq<u8>), FormatError>(
            (h, rest),
        ),
{
    let s = put_save_header(h) + rest;
    let a = magic();
    let b = put_versions(h.versions);
    let c = put_str(h.build_id);
    let d = put_format(h.custom_format_version, h.custom_format_data);
    let e = put_str(h.save_game_type);
    lemma_concat_assoc(d, e, rest);
    lemma_concat_assoc(c, d + e, rest);
    lemma_concat_assoc(b, c + (d + e), rest);
    lemma_concat_assoc(a, b + (c + (d + e)), rest);
    let s1 = b + (c + (d + (e + rest)));
    assert(s == a + s1);
    assert(s.take(4) =~= magic());
    assert(s.skip(4) =~= s1);
    lemma_put_versions(h.versions, c + (d + (e + rest)));
    lemma_put_str(h.build_id, d + (e + rest));
    lemma_put_format(h.custom_format_version, h.custom_format_data, e + rest);
    lemma_put_str(h.save_game_type, rest);
}

/// Writing a container that was read gives the file it was read from.
pub proof fn lemma_container_roundtrip(s: Seq<u8>)
    requires
        decode_container(s) is Ok,
    ensures
        encode_container(decode_container(s)->Ok_0) == Ok::<Seq<u8>, FormatError>(s),
        header_wf(decode_container(s)->Ok_0.header),
        decode_container(s)->Ok_0.payload.len() <= u32::MAX,
        decode_container(s)->Ok_0.payload.len() <= s.len(),
{
    let (h, rest) = take_save_header(s)->Ok_0;
    lemma_take_save_header(s, h, rest);
    lemma_take_int(rest);
    lemma_le32_bound(rest);
    let c = decode_container(s)->Ok_0;
    lemma_concat_assoc(put_save_header(h), put_int(c.payload.len() as u32), c.payload);
}

/// Reading the file of a container gives that container.
pub proof fn lemma_container_decode_encode(c: SaveContainerView)
    requires
        header_wf(c.header),
        c.payload.len() <= u32::MAX,
    ensures
        encode_container(c) is Ok,
        decode_container(encode_container(c)->Ok_0) == Ok::<SaveContainerView, FormatError>(c),
{
    let n = c.payload.len() as u32;
    let rest = put_int(n) + c.payload;
    let s = encode_container(c)->Ok_0;
    lemma_concat_assoc(put_save_header(c.header), put_int(n), c.payload);
    lemma_put_save_header(c.header, rest);
    lemma_put_int(n, c.payload);
}

/// Round trip: writing a save that was read, without a change and with
/// the key it was read with, gives the file it was read from, byte for
/// byte.
pub proof fn lemma_save_roundtrip(s: Seq<u8>, key: Seq<u8>, db: &InventorySerialDb)
    requires
        decode_save(s, key, db) is Ok,
    ensures
        encode_save(decode_save(s, key, db)->Ok_0, key) == Ok::<Seq<u8>, FormatError>(s),
        save_wf(decode_save(s, key, db)->Ok_0, db),
{
    let c = decode_container(s)->Ok_0;
    let plain = decrypt_spec(c.payload, key)->Ok_0;
    lemma_container_roundtrip(s);
    crate::crypto::lemma_encrypt_decrypt(c.payload, key);
    crate::character_data::lemma_encode_decode(plain, db);
}

/// Idempotence: reading and writing a file a second time gives what the
/// first time gave.
pub proof fn lemma_save_idempotent(s: Seq<u8>, key: Seq<u8>, db: &InventorySerialDb)
    requires
        decode_save(s, key, db) is Ok,
    ensures
        encode_save(decode_save(s, key, db)->Ok_0, key) is Ok,
        decode_save(encode_save(decode_save(s, key, db)->Ok_0, key)->Ok_0, key, db) is Ok,
        encode_save(
            decode_save(encode_save(decode_save(s, key, db)->Ok_0, key)->Ok_0, key, db)->Ok_0,
            key,
        ) == encode_save(decode_save(s, key, db)->Ok_0, key),
{
    lemma_save_roundtrip(s, key, db);
}

/// Reading the file of a well-formed save gives that save: what was
/// edited comes back as edited, and everything else as it was.
pub proof fn lemma_save_decode_encode(v: Bl3SaveView, key: Seq<u8>, db: &InventorySerialDb)
    requires
        save_wf(v, db),
        encode_save(v, key) is Ok,
    ensures
        decode_save(encode_save(v, key)->Ok_0, key, db) == Ok::<Bl3SaveView, LoadError>(v),
{
    let plain = encode_character(v.character);
    let payload = encrypt_spec(plain, key);
    let c = SaveContainerView { header: v.header, payload };
    lemma_container_decode_encode(c);
    crate::crypto::lemma_decrypt_encrypt(plain, key);
    crate::character_data::lemma_decode_encode(v.character, db);
}

/// An edit survives the file: after a number of a well-formed save is
/// set, the file of the save reads back as the edited save. The number is
/// found as set, every other number as before, and the header and the
/// items are as they were.
pub proof fn lemma_edit_survives(
    v: Bl3SaveView,
    key: Seq<u8>,
    db: &InventorySerialDb,
    number: u32,
    value: u32,
    other: u32,
)
    requires
        save_wf(v, db),
        crate::character_data::is_number_field(number),
        encode_save(
            Bl3SaveView {
                character: crate::character_data::upsert(
                    v.character,
                    CharacterFieldView::Number(number, value),
                ),
                ..v
            },
            key,
        ) is Ok,
    ensures
        ({
            let edited = Bl3SaveView {
                character: crate::character_data::upsert(
                    v.character,
                    CharacterFieldView::Number(number, value),
                ),
                ..v
            };
            let read = decode_save(encode_save(edited, key)->Ok_0, key, db);
            &&& read == Ok::<Bl3SaveView, LoadError>(edited)
            &&& read->Ok_0.header == v.header
            &&& find_number(read->Ok_0.character, number) == Some(value)
            &&& other != number ==> find_number(read->Ok_0.character, other) == find_number(
                v.character,
                other,
            )
            &&& crate::character_data::items_of(read->Ok_0.character)
                == crate::character_data::items_of(v.character)
        }),
{
    let f = CharacterFieldView::Number(number, value);
    let edited = Bl3SaveView { character: crate::character_data::upsert(v.character, f), ..v };
    crate::character_data::lemma_upsert_wf(v.character, f, db);
    crate::character_data::lemma_upsert_number(v.character, number, value, other);
    lemma_save_decode_encode(edited, key, db);
}

/// Tamper detection: a file that loads no longer loads once any one byte
/// of its encrypted payload is changed. It fails with a digest mismatch,
/// before any record of the character is read.
pub proof fn lemma_save_tamper_detected(
    s: Seq<u8>,
    key: Seq<u8>,
    db: &InventorySerialDb,
    at: int,
    byte: u8,
)
    requires
        decode_save(s, key, db) is Ok,
        0 <= at < decode_container(s)->Ok_0.payload.len(),
        byte != decode_container(s)->Ok_0.payload[at],
    ensures
        decode_container(s)->Ok_0.payload.len() <= s.len(),
        decode_save(
            s.update(s.len() - decode_container(s)->Ok_0.payload.len() + at, byte),
            key,
            db,
        ) == Err::<Bl3SaveView, LoadError>(LoadError::Integrity(IntegrityError::DigestMismatch)),
{
    let c = decode_container(s)->Ok_0;
    lemma_container_roundtrip(s);
    let changed = SaveContainerView { header: c.header, payload: c.payload.update(at, byte) };
    lemma_container_decode_encode(changed);
    lemma_payload_update(
        put_save_header(c.header) + put_int(c.payload.len() as u32),
        c.payload,
        at,
        byte,
    );
    crate::crypto::lemma_tamper_detected(c.payload, key, at, byte);
}

/// Changing a byte of the last part of a buffer changes that part.
pub proof fn lemma_payload_update(front: Seq<u8>, payload: Seq<u8>, at: int, byte: u8)
    requires
        0 <= at < payload.len(),
    ensures
        (front + payload).update((front + payload).len() - payload.len() + at, byte) == front
            + payload.update(at, byte),
{
    assert((front + payload).update((front + payload).len() - payload.len() + at, byte) =~= front
        + payload.update(at, byte));
}

/// Reads `count` custom format entries.
pub fn read_custom_format_data(input: &mut Input, count: u32) -> (r: Result<
    Vec<CustomFormatData>,
    FormatError,
>)
    requires
        old(input).wf(),
    ensures
        final(input).wf(),
        match r {
            Ok(es) => take_entries(old(input).rest(), count as nat) == Ok::<
                (Seq<CustomFormatDataView>, Seq<u8>),
                FormatError,
            >((entries_view(es@), final(input).rest())),
            Err(e) => take_entries(old(input).rest(), count as nat) == Err::<
                (Seq<CustomFormatDataView>, Seq<u8>),
                FormatError,
            >(e),
        },
{
    let mut es: Vec<CustomFormatData> = Vec::new();
    let mut i: u32 = 0;
    let ghost whole = input.rest();
    proof {
        let t = take_entries(input.rest(), count as nat);
        match t {
            Ok((tail, r)) => {
                assert(entries_view(es@) + tail =~= tail);
            },
            Err(_) => {},
        }
    }
    while i < count
        invariant
            input.wf(),
            i <= count,
            whole == old(input).rest(),
            take_entries(whole, count as nat) == prepend_entries(
                entries_view(es@),
                take_entries(input.rest(), (count - i) as nat),
            ),
        decreases count - i,
    {
        let ghost before = input.rest();
        let ghost done = entries_view(es@);
        let ghost left = (count - i) as nat;
        if input.remaining() < 20 {
            proof {
                assert(take_entries(before, left) == Err::<
                    (Seq<CustomFormatDataView>, Seq<u8>),
                    FormatError,
                >(FormatError::Truncated));
            }
            return Err(FormatError::Truncated);
        }
        let entry = read_entry(input);
        proof {
            let t = take_entries(input.rest(), (left - 1) as nat);
            assert(take_entries(before, left) == match t {
                Ok((tail, r)) => Ok::<(Seq<CustomFormatDataView>, Seq<u8>), FormatError>(
                    (seq![entry@] + tail, r),
                ),
                Err(e) => Err(e),
            });
            match t {
                Ok((tail, r)) => {
                    assert(done + (seq![entry@] + tail) =~= done.push(entry@) + tail);
                },
                Err(_) => {},
            }
        }
        es.push(entry);
        proof {
            assert(entries_view(es@) =~= done.push(entry@));
        }
        i = i + 1;
    }
    proof {
        assert(entries_view(es@) + Seq::<CustomFormatDataView>::empty() =~= entries_view(es@));
    }
    Ok(es)
}

/// Reads one custom format entry from an input that holds at least its
/// twenty bytes.
fn read_entry(input: &mut Input) -> (e: CustomFormatData)
    requires
        old(input).wf(),
        old(input).rest().len() >= 20,
    ensures
        final(input).wf(),
        e@ == entry_at(old(input).rest()),
        final(input).rest() == old(input).rest().skip(20),
{
    let ghost before = input.rest();
    let mut guid: [u8; 16] = [0u8; 16];
    let mut k: usize = 0;
    while k < 16
        invariant
            k <= 16,
            input.wf(),
            input.rest() == before.skip(k as int),
            before.len() >= 20,
            forall|j: int| 0 <= j < k ==> guid@[j] == before[j],
        decreases 16 - k,
    {
        let b: u8 = match input.read_byte() {
            Some(b) => b,
            None => 0,
        };
        guid.set(k, b);
        proof {
            assert(before.skip(k as int).skip(1) =~= before.skip(k + 1));
        }
        k = k + 1;
    }
    let entry: u32 = match read_int(input) {
        Ok(v) => v,
        Err(_) => 0,
    };
    proof {
        assert(guid@ =~= before.take(16));
        assert(before.skip(16).skip(4) =~= before.skip(20));
    }
    CustomFormatData { guid, entry }
}

/// Appends the custom format entries.
fn write_custom_format_data(out: &mut Vec<u8>, es: &Vec<CustomFormatData>)
    ensures
        final(out)@ == old(out)@ + put_entries(entries_view(es@)),
{
    let mut i: usize = 0;
    let ghost all = entries_view(es@);
    proof {
        assert(all.take(0) =~= Seq::<CustomFormatDataView>::empty());
        assert(old(out)@ + put_entries(all.take(0)) =~= old(out)@);
    }
    while i < es.len()
        invariant
            i <= es@.len(),
            all == entries_view(es@),
            out@ == old(out)@ + put_entries(all.take(i as int)),
        decreases es@.len() - i,
    {
        let ghost before = out@;
        let e = &es[i];
        write_bytes(out, e.guid.as_slice());
        write_int(out, e.entry);
        proof {
            lemma_put_entries_push(all.take(i as int), all[i as int]);
            assert(all.take(i as int).push(all[i as int]) =~= all.take(i + 1));
            assert(out@ =~= old(out)@ + (put_entries(all.take(i as int)) + put_entry(
                all[i as int],
            )));
        }
        i = i + 1;
    }
    proof {
        assert(all.take(i as int) =~= all);
    }
}

/// Reads the version fields.
fn read_versions(input: &mut Input) -> (r: Result<SaveVersions, FormatError>)
    requires
        old(input).wf(),
    ensures
        final(input).wf(),
        match r {
            Ok(v) => take_versions(old(input).rest()) == Ok::<(SaveVersions, Seq<u8>), FormatError>(
                (v, final(input).rest()),
            ),
            Err(e) => take_versions(old(input).rest()) == Err::<
                (SaveVersions, Seq<u8>),
                FormatError,
            >(e),
        },
{
    let ghost s = input.rest();
    if input.remaining() < 18 {
        return Err(FormatError::Truncated);
    }
    let save_game_version: u32 = match read_int(input) {
        Ok(v) => v,
        Err(e) => {
            return Err(e);
        },
    };
    let package_version: u32 = match read_int(input) {
        Ok(v) => v,
        Err(e) => {
            return Err(e);
        },
    };
    proof {
        assert(s.skip(4).skip(4) =~= s.skip(8));
    }
    let engine_major: u16 = match read_short(input) {
        Ok(v) => v,
        Err(e) => {
            return Err(e);
        },
    };
    proof {
        assert(s.skip(8).skip(2) =~= s.skip(10));
    }
    let engine_minor: u16 = match read_short(input) {
        Ok(v) => v,
        Err(e) => {
            return Err(e);
        },
    };
    proof {
        assert(s.skip(10).skip(2) =~= s.skip(12));
    }
    let engine_patch: u16 = match read_short(input) {
        Ok(v) => v,
        Err(e) => {
            return Err(e);
        },
    };
    proof {
        assert(s.skip(12).skip(2) =~= s.skip(14));
    }
    let engine_build: u32 = match read_int(input) {
        Ok(v) => v,
        Err(e) => {
            return Err(e);
        },
    };
    proof {
        assert(s.skip(14).skip(4) =~= s.skip(18));
    }
    Ok(
        SaveVersions {
            save_game_version,
            package_version,
            engine_major,
            engine_minor,
            engine_patch,
            engine_build,
        },
    )
}

/// Appends the version fields.
fn write_versions(out: &mut Vec<u8>, v: &SaveVersions)
    ensures
        final(out)@ == old(out)@ + put_versions(*v),
{
    write_int(out, v.save_game_version);
    write_int(out, v.package_version);
    write_short(out, v.engine_major);
    write_short(out, v.engine_minor);
    write_short(out, v.engine_patch);
    write_int(out, v.engine_build);
    proof {
        assert(out@ =~= old(out)@ + put_versions(*v));
    }
}

/// Reads the custom format version and the counted entries.
fn read_format(input: &mut Input) -> (r: Result<(u32, Vec<CustomFormatData>), FormatError>)
    requires
        old(input).wf(),
    ensures
        final(input).wf(),
        match r {
            Ok((version, es)) => take_format(old(input).rest()) == Ok::<
                ((u32, Seq<CustomFormatDataView>), Seq<u8>),
                FormatError,
            >(((version, entries_view(es@)), final(input).rest())),
            Err(e) => take_format(old(input).rest()) == Err::<
                ((u32, Seq<CustomFormatDataView>), Seq<u8>),
                FormatError,
            >(e),
        },
{
    let ghost s = input.rest();
    if input.remaining() < 8 {
        return Err(FormatError::Truncated);
    }
    let version: u32 = match read_int(input) {
        Ok(v) => v,
        Err(e) => {
            return Err(e);
        },
    };
    let count: u32 = match read_int(input) {
        Ok(v) => v,
        Err(e) => {
            return Err(e);
        },
    };
    proof {
        assert(s.skip(4).skip(4) =~= s.skip(8));
    }
    match read_custom_format_data(input, count) {
        Ok(es) => Ok((version, es)),
        Err(e) => Err(e),
    }
}

/// Appends the custom format version and the counted entries.
fn write_format(out: &mut Vec<u8>, version: u32, es: &Vec<CustomFormatData>)
    requires
        es@.len() <= u32::MAX,
    ensures
        final(out)@ == old(out)@ + put_format(version, entries_view(es@)),
{
    write_int(out, version);
    write_int(out, es.len() as u32);
    write_custom_format_data(out, es);
    proof {
        assert(out@ =~= old(out)@ + put_format(version, entries_view(es@)));
    }
}

impl SaveHeader {
    /// Reads a header: the magic bytes and every field up to the type of
    /// the save.
    pub fn read(input: &mut Input) -> (r: Result<SaveHeader, FormatError>)
        requires
            old(input).wf(),
        ensures
            final(input).wf(),
            match r {
                Ok(h) => take_save_header(old(input).rest()) == Ok::<
                    (SaveHeaderView, Seq<u8>),
                    FormatError,
                >((h@, final(input).rest())),
                Err(e) => take_save_header(old(input).rest()) == Err::<
                    (SaveHeaderView, Seq<u8>),
                    FormatError,
                >(e),
            },
    {
        match read_header(input) {
            Ok(_) => {},
            Err(e) => {
                return Err(e);
            },
        }
        let versions = match read_versions(input) {
            Ok(v) => v,
            Err(e) => {
                return Err(e);
            },
        };
        let build_id = match read_str(input) {
            Ok(v) => v,
            Err(e) => {
                return Err(e);
            },
        };
        let (custom_format_version, custom_format_data) = match read_format(input) {
            Ok(v) => v,
            Err(e) => {
                return Err(e);
            },
        };
        let save_game_type = match read_str(input) {
            Ok(v) => v,
            Err(e) => {
                return Err(e);
            },
        };
        Ok(
            SaveHeader {
                versions,
                build_id,
                custom_format_version,
                custom_format_data,
                save_game_type,
            },
        )
    }

    /// Appends the header; `TooLong` where a string or the list of entries
    /// is longer than four bytes can say.
    pub fn write(&self, out: &mut Vec<u8>) -> (r: Result<(), FormatError>)
        ensures
            match r {
                Ok(_) => {
                    &&& encode_utf8(self@.build_id).len() <= u32::MAX
                    &&& encode_utf8(self@.save_game_type).len() <= u32::MAX
                    &&& self@.custom_format_data.len() <= u32::MAX
                    &&& final(out)@ == old(out)@ + put_save_header(self@)
                },
                Err(e) => {
                    &&& e == FormatError::TooLong
                    &&& (encode_utf8(self@.build_id).len() > u32::MAX || encode_utf8(
                        self@.save_game_type,
                    ).len() > u32::MAX || self@.custom_format_data.len() > u32::MAX)
                },
            },
    {
        if self.custom_format_data.len() > 0xffff_ffff {
            return Err(FormatError::TooLong);
        }
        out.push(0x47);
        out.push(0x56);
        out.push(0x41);
        out.push(0x53);
        let ghost a = out@;
        proof {
            assert(a =~= old(out)@ + magic());
        }
        write_versions(out, &self.versions);
        let ghost b = out@;
        match write_str(out, &self.build_id) {
            Ok(_) => {},
            Err(e) => {
                return Err(e);
            },
        }
        let ghost c = out@;
        write_format(out, self.custom_format_version, &self.custom_format_data);
        let ghost d = out@;
        match write_str(out, &self.save_game_type) {
            Ok(_) => {},
            Err(e) => {
                return Err(e);
            },
        }
        proof {
            let m = magic();
            let pv = put_versions(self.versions);
            let pb = put_str(self@.build_id);
            let pf = put_format(self@.custom_format_version, self@.custom_format_data);
            let pt = put_str(self@.save_game_type);
            lemma_concat_assoc(pf, pt, Seq::empty());
            assert(out@ =~= old(out)@ + (m + (pv + (pb + (pf + pt)))));
        }
        Ok(())
    }
}

impl SaveContainer {
    /// Reads a container: the header, the declared length of the payload
    /// and the payload, which must be all that is left.
    pub fn decode(data: &[u8]) -> (r: Result<SaveContainer, FormatError>)
        ensures
            match r {
                Ok(c) => decode_container(data@) == Ok::<SaveContainerView, FormatError>(c@),
                Err(e) => decode_container(data@) == Err::<SaveContainerView, FormatError>(e),
            },
    {
        let mut input = Input::new(data);
        let header = match SaveHeader::read(&mut input) {
            Ok(h) => h,
            Err(e) => {
                return Err(e);
            },
        };
        let declared: u32 = match read_int(&mut input) {
            Ok(v) => v,
            Err(e) => {
                return Err(e);
            },
        };
        if input.remaining() != declared as usize {
            return Err(FormatError::LengthMismatch);
        }
        let payload = input.read_rest();
        Ok(SaveContainer { header, payload })
    }

    /// Writes the container: every header field as it is, then the length
    /// of the payload and the payload.
    pub fn encode(&self) -> (r: Result<Vec<u8>, FormatError>)
        ensures
            match r {
                Ok(out) => encode_container(self@) == Ok::<Seq<u8>, FormatError>(out@),
                Err(e) => encode_container(self@) == Err::<Seq<u8>, FormatError>(e),
            },
    {
        frame(&self.header, self.payload.as_slice())
    }
}

/// Writes a header, the length of a payload and the payload.
fn frame(header: &SaveHeader, payload: &[u8]) -> (r: Result<Vec<u8>, FormatError>)
    ensures
        match r {
            Ok(out) => encode_container(
                SaveContainerView { header: header@, payload: payload@ },
            ) == Ok::<Seq<u8>, FormatError>(out@),
            Err(e) => encode_container(SaveContainerView { header: header@, payload: payload@ })
                == Err::<Seq<u8>, FormatError>(e),
        },
{
    let mut out: Vec<u8> = Vec::new();
    match header.write(&mut out) {
        Ok(_) => {},
        Err(e) => {
            return Err(e);
        },
    }
    if payload.len() > 0xffff_ffff {
        return Err(FormatError::TooLong);
    }
    write_int(&mut out, payload.len() as u32);
    write_bytes(&mut out, payload);
    proof {
        assert(out@ =~= put_save_header(header@) + put_int(payload@.len() as u32) + payload@);
    }
    Ok(out)
}

impl Bl3Save {
    /// Loads a save from the bytes of its file: reads the container,
    /// opens the payload with the key of the platform, and reads the
    /// character, with its items resolved against `db`.
    pub fn from_data(data: &[u8], key: &[u8], db: &InventorySerialDb) -> (r: Result<
        Bl3Save,
        LoadError,
    >)
        ensures
            match r {
                Ok(save) => decode_save(data@, key@, db) == Ok::<Bl3SaveView, LoadError>(save@)
                    && save_wf(save@, db),
                Err(e) => decode_save(data@, key@, db) == Err::<Bl3SaveView, LoadError>(e),
            },
    {
        let container = match SaveContainer::decode(data) {
            Ok(c) => c,
            Err(e) => {
                return Err(LoadError::Format(e));
            },
        };
        let plain = match decrypt(container.payload.as_slice(), key) {
            Ok(p) => p,
            Err(e) => {
                return Err(LoadError::Integrity(e));
            },
        };
        let character_data = match CharacterData::decode(plain.as_slice(), db) {
            Ok(c) => c,
            Err(e) => {
                return Err(LoadError::Format(e));
            },
        };
        proof {
            lemma_save_roundtrip(data@, key@, db);
        }
        Ok(Bl3Save { header: container.header, character_data })
    }

    /// Writes the save as the bytes of a file: the character is written
    /// and sealed with the key of the platform, and framed by the header
    /// as it is.
    pub fn to_data(&self, key: &[u8]) -> (r: Result<Vec<u8>, FormatError>)
        ensures
            match r {
                Ok(out) => encode_save(self@, key@) == Ok::<Seq<u8>, FormatError>(out@),
                Err(e) => encode_save(self@, key@) == Err::<Seq<u8>, FormatError>(e),
            },
    {
        let plain = self.character_data.encode();
        let payload = encrypt(plain.as_slice(), key);
        frame(&self.header, payload.as_slice())
    }
}

/// The name under which a class is shown; "Unknown" for none.
pub open spec fn class_name(class: Option<PlayerClass>) -> Seq<char> {
    match class {
        Some(PlayerClass::BeastMaster) => "BeastMaster"@,
        Some(PlayerClass::Gunner) => "Gunner"@,
        Some(PlayerClass::Operative) => "Operative"@,
        Some(PlayerClass::Siren) => "Siren"@,
        None => "Unknown"@,
    }
}

/// The number under a field number; zero where the character has none.
pub open spec fn number_or_zero(fs: Seq<CharacterFieldView>, number: u32) -> nat {
    match find_number(fs, number) {
        Some(v) => v as nat,
        None => 0,
    }
}

/// The class of a character.
pub open spec fn class_in(fs: Seq<CharacterFieldView>) -> Option<PlayerClass> {
    match find_number(fs, PLAYER_CLASS) {
        Some(code) => class_of(code),
        None => None,
    }
}

/// The summary of a save: ten lines, one for each of the main attributes
/// of the character.
pub open spec fn summary_text(fs: Seq<CharacterFieldView>) -> Seq<char> {
    line("Character: "@, text_of(find_text(fs, PREFERRED_CHARACTER_NAME))) + line(
        "Savegame ID: "@,
        decimal(number_or_zero(fs, SAVE_GAME_ID)),
    ) + line("Savegame GUID: "@, text_of(find_text(fs, SAVE_GAME_GUID))) + line(
        "Player Class: "@,
        class_name(class_in(fs)),
    ) + line("XP: "@, decimal(number_or_zero(fs, EXPERIENCE_POINTS))) + line(
        "Level: "@,
        decimal(number_or_zero(fs, PLAYER_LEVEL)),
    ) + line("Guardian Rank: "@, decimal(number_or_zero(fs, GUARDIAN_RANK))) + line(
        "Money: "@,
        decimal(number_or_zero(fs, MONEY)),
    ) + line("Eridium: "@, decimal(number_or_zero(fs, ERIDIUM))) + line(
        "Playthroughs Completed: "@,
        decimal(number_or_zero(fs, PLAYTHROUGHS_COMPLETED)),
    )
}

/// The number, or zero for none.
fn or_zero(v: Option<u32>) -> (r: u32)
    ensures
        r == match v {
            Some(x) => x,
            None => 0u32,
        },
{
    match v {
        Some(x) => x,
        None => 0,
    }
}

impl Bl3Save {
    /// The summary of the save as a text of ten lines. A number that the
    /// character does not have is shown as zero, a text as empty.
    pub fn summary(&self) -> (r: String)
        ensures
            r@ == summary_text(self@.character),
    {
        let c = &self.character_data;
        let mut out = String::new();
        let name = text_from(c.preferred_character_name());
        push_text_line(&mut out, "Character: ", name.as_str());
        push_number_line(&mut out, "Savegame ID: ", or_zero(c.save_game_id()));
        let guid = text_from(c.save_game_guid());
        push_text_line(&mut out, "Savegame GUID: ", guid.as_str());
        let class: &str = match c.player_class() {
            Some(PlayerClass::BeastMaster) => "BeastMaster",
            Some(PlayerClass::Gunner) => "Gunner",
            Some(PlayerClass::Operative) => "Operative",
            Some(PlayerClass::Siren) => "Siren",
            None => "Unknown",
        };
        push_text_line(&mut out, "Player Class: ", class);
        push_number_line(&mut out, "XP: ", or_zero(c.experience_points()));
        push_number_line(&mut out, "Level: ", or_zero(c.player_level()));
        push_number_line(&mut out, "Guardian Rank: ", or_zero(c.guardian_rank()));
        push_number_line(&mut out, "Money: ", or_zero(c.money()));
        push_number_line(&mut out, "Eridium: ", or_zero(c.eridium()));
        push_number_line(
            &mut out,
            "Playthroughs Completed: ",
            or_zero(c.playthroughs_completed()),
        );
        proof {
            assert(out@ =~= summary_text(self@.character));
        }
        out
    }
}

} // verus!
