//! The state of the editor and how messages change it.
//!
//! The editor is a state machine: `Bl3Ui::update` takes the state and a
//! message to the next state and to the work that is to be done outside,
//! whose outcome comes back as another message. Nothing here draws or
//! touches a file.

use crate::bl3_save::Bl3Save;
use crate::character_data::{
    find_number, find_text, slot_field, sdu_field, CharacterFieldView, InventorySlot, PlayerClass,
    SaveSduSlot, PREFERRED_CHARACTER_NAME, SAVE_GAME_GUID,
};
use crate::current_parts::CurrentPartTypeIndex;
use crate::text::{text_from, text_of};
use vstd::prelude::*;

verus! {

/// The tabs of the main view.
#[derive(Clone, Copy, Debug, PartialEq, Eq)]
pub enum MainTabBarView {
    General,
    Character,
    Vehicle,
    Currency,
    FastTravel,
}

/// The views of a loaded save.
#[derive(Clone, Copy, Debug, PartialEq, Eq)]
pub enum ManageSaveView {
    TabBar(MainTabBarView),
}

/// What the editor shows.
#[derive(Clone, Copy, Debug, PartialEq, Eq)]
pub enum ViewState {
    ChooseSaveDirectory,
    ManageSave(ManageSaveView),
}

/// The state of the view in which a directory is chosen.
#[derive(Clone, Copy, Debug, Default, PartialEq, Eq)]
pub struct ChooseSaveDirectoryState {
    pub choose_dir_window_open: bool,
}

/// The inputs of the general tab.
#[derive(Clone, Debug, Default, PartialEq, Eq)]
pub struct GeneralState {
    pub guid_input: String,
    pub slot_input: u32,
}

/// The selections of the skins.
#[derive(Clone, Debug, Default, PartialEq, Eq)]
pub struct SkinState {
    pub head_skin_selected: String,
    pub character_skin_selected: String,
    pub echo_theme_selected: String,
}

/// The unlock flags of the inventory slots.
#[derive(Clone, Copy, Debug, Default, PartialEq, Eq)]
pub struct GearState {
    pub unlock_grenade_slot: bool,
    pub unlock_shield_slot: bool,
    pub unlock_weapon_1_slot: bool,
    pub unlock_weapon_2_slot: bool,
    pub unlock_weapon_3_slot: bool,
    pub unlock_weapon_4_slot: bool,
    pub unlock_artifact_slot: bool,
    pub unlock_class_mod_slot: bool,
}

/// The inputs of the SDU levels.
#[derive(Clone, Copy, Debug, Default, PartialEq, Eq)]
pub struct SduState {
    pub backpack_input: u32,
    pub sniper_input: u32,
    pub shotgun_input: u32,
    pub pistol_input: u32,
    pub grenade_input: u32,
    pub smg_input: u32,
    pub assault_rifle_input: u32,
    pub heavy_input: u32,
}

/// The inputs of the character tab.
#[derive(Clone, Debug, PartialEq, Eq)]
pub struct CharacterState {
    pub name_input: String,
    pub xp_level_input: u32,
    pub xp_points_input: u32,
    pub player_class_selected_class: PlayerClass,
    pub skin_state: SkinState,
    pub gear_state: GearState,
    pub sdu_state: SduState,
}

/// The inputs of the tabs.
#[derive(Clone, Debug, PartialEq, Eq)]
pub struct MainState {
    pub general_state: GeneralState,
    pub character_state: CharacterState,
}

/// The state of the views of a loaded save.
#[derive(Clone, Debug, PartialEq, Eq)]
pub struct ManageSaveState {
    pub main_state: MainState,
}

/// A file that was loaded: a save of either platform, or a profile.
#[derive(Clone, Debug, PartialEq, Eq)]
pub enum Bl3FileType {
    PcSave(Bl3Save),
    Ps4Save(Bl3Save),
    PcProfile,
    Ps4Profile,
}

/// The state of the editor.
#[derive(Clone, Debug, PartialEq, Eq)]
pub struct Bl3Ui {
    pub view_state: ViewState,
    pub choose_save_directory_state: ChooseSaveDirectoryState,
    pub manage_save_state: ManageSaveState,
    pub loaded_files: Vec<Bl3FileType>,
    /// The experience points that each level takes, from level one on.
    pub required_xp: Vec<u32>,
}

/// What the user did in the view in which a directory is chosen.
#[derive(Clone, Copy, Debug, PartialEq, Eq)]
pub enum ChooseSaveInteractionMessage {
    ChooseDirPressed,
}

/// What the user did on the tab bar.
#[derive(Clone, Copy, Debug, PartialEq, Eq)]
pub enum MainInteractionMessage {
    TabBarGeneralPressed,
    TabBarCharacterPressed,
    TabBarVehiclePressed,
    TabBarCurrencyPressed,
    TabBarFastTravelPressed,
}

/// What the user did on the general tab.
#[derive(Clone, Debug, PartialEq, Eq)]
pub enum GeneralInteractionMessage {
    GuidInputChanged(String),
    SlotInputChanged(u32),
}

/// What the user did to an SDU input.
#[derive(Clone, Copy, Debug, PartialEq, Eq)]
pub enum CharacterInteractionSduMessage {
    BackpackInputChanged(u32),
    SniperInputChanged(u32),
    ShotgunInputChanged(u32),
    PistolInputChanged(u32),
    GrenadeInputChanged(u32),
    SmgInputChanged(u32),
    AssaultRifleInputChanged(u32),
    HeavyInputChanged(u32),
}

/// What the user did on the character tab.
#[derive(Clone, Debug, PartialEq, Eq)]
pub enum CharacterInteractionMessage {
    NameInputChanged(String),
    XpLevelInputChanged(u32),
    XpPointsInputChanged(u32),
    SduMessage(CharacterInteractionSduMessage),
}

/// What the user did in the lists of parts.
#[derive(Clone, Copy, Debug)]
pub enum InventoryInteractionMessage {
    CurrentPartPressed(CurrentPartTypeIndex),
    CurrentAnointmentPressed(CurrentPartTypeIndex),
    CurrentPartsTabPressed,
    CurrentAnointmentsTabPressed,
}

/// What the user did in the views of a loaded save.
#[derive(Clone, Debug)]
pub enum ManageSaveInteractionMessage {
    Main(MainInteractionMessage),
    General(GeneralInteractionMessage),
    Character(CharacterInteractionMessage),
    Inventory(InventoryInteractionMessage),
}

/// What the user did.
#[derive(Clone, Debug)]
pub enum InteractionMessage {
    ChooseSaveInteraction(ChooseSaveInteractionMessage),
    ManageSaveInteraction(ManageSaveInteractionMessage),
    Ignore,
}

/// How the work of choosing a directory and loading its files ended. An
/// error is given by its text.
#[derive(Debug)]
pub enum ChooseSaveMessage {
    ChooseDirCompleted(Result<String, String>),
    FilesLoaded(Result<Vec<Bl3FileType>, String>),
}

/// Which skin was selected.
#[derive(Clone, Debug, PartialEq, Eq)]
pub enum CharacterSkinMessage {
    HeadSkinSelected(String),
    CharacterSkinSelected(String),
    EchoThemeSelected(String),
}

/// Which unlock flag was set.
#[derive(Clone, Copy, Debug, PartialEq, Eq)]
pub enum CharacterGearMessage {
    UnlockGrenadeSlot(bool),
    UnlockShieldSlot(bool),
    UnlockWeapon1Slot(bool),
    UnlockWeapon2Slot(bool),
    UnlockWeapon3Slot(bool),
    UnlockWeapon4Slot(bool),
    UnlockArtifactSlot(bool),
    UnlockClassModSlot(bool),
}

/// What was selected on the character tab.
#[derive(Clone, Debug, PartialEq, Eq)]
pub enum CharacterMessage {
    PlayerClassSelected(PlayerClass),
    SkinMessage(CharacterSkinMessage),
    GearMessage(CharacterGearMessage),
}

/// What was selected in the views of a loaded save.
#[derive(Clone, Debug, PartialEq, Eq)]
pub enum ManageSaveMessage {
    Character(CharacterMessage),
}

/// What can happen to the editor.
#[derive(Debug)]
pub enum Message {
    InteractionMessage(InteractionMessage),
    ChooseSave(ChooseSaveMessage),
    ManageSave(ManageSaveMessage),
}

/// The work that a message asks to be done outside.
#[derive(Clone, Debug, PartialEq, Eq)]
pub enum Command {
    /// Nothing.
    Idle,
    /// Let the user choose a directory; answer with `ChooseDirCompleted`.
    ChooseDirectory,
    /// Load the files of a directory; answer with `FilesLoaded`.
    LoadFilesInDirectory(String),
    /// Report an error.
    Report(String),
}

/// The level that experience points amount to: the number of levels that
/// take no more points than these, counted up to the first that takes
/// more.
pub open spec fn level_of(required: Seq<u32>, xp: u32) -> nat
    decreases required.len(),
{
    if required.len() == 0 {
        0
    } else if required[0] > xp {
        0
    } else {
        1 + level_of(required.skip(1), xp)
    }
}

/// The experience points that a level takes; zero for level zero and for
/// a level beyond the table.
pub open spec fn points_of(required: Seq<u32>, level: u32) -> u32 {
    if 0 < level <= required.len() {
        required[level - 1]
    } else {
        0
    }
}

/// The level that experience points amount to; nothing where they do not
/// amount to the first level.
pub fn experience_to_level(required: &Vec<u32>, xp: u32) -> (r: Option<u32>)
    ensures
        match r {
            Some(level) => level == level_of(required@, xp) && level > 0,
            None => level_of(required@, xp) == 0 || level_of(required@, xp) > u32::MAX,
        },
{
    let mut i: usize = 0;
    proof {
        assert(required@.skip(0) =~= required@);
    }
    while i < required.len() && required[i] <= xp
        invariant
            i <= required@.len(),
            level_of(required@, xp) == i + level_of(required@.skip(i as int), xp),
        decreases required@.len() - i,
    {
        proof {
            assert(required@.skip(i as int).skip(1) =~= required@.skip(i + 1));
        }
        i = i + 1;
    }
    if i == 0 || i > 0xffff_ffff {
        None
    } else {
        Some(i as u32)
    }
}

/// The experience points that a level takes.
pub fn level_to_experience(required: &Vec<u32>, level: u32) -> (r: u32)
    ensures
        r == points_of(required@, level),
{
    if level > 0 && (level as usize) <= required.len() {
        required[level as usize - 1]
    } else {
        0
    }
}

/// The tab that a press on the tab bar shows.
pub open spec fn tab_of(m: MainInteractionMessage) -> MainTabBarView {
    match m {
        MainInteractionMessage::TabBarGeneralPressed => MainTabBarView::General,
        MainInteractionMessage::TabBarCharacterPressed => MainTabBarView::Character,
        MainInteractionMessage::TabBarVehiclePressed => MainTabBarView::Vehicle,
        MainInteractionMessage::TabBarCurrencyPressed => MainTabBarView::Currency,
        MainInteractionMessage::TabBarFastTravelPressed => MainTabBarView::FastTravel,
    }
}

/// The SDU inputs after one of them was changed.
pub open spec fn sdu_after(s: SduState, m: CharacterInteractionSduMessage) -> SduState {
    match m {
        CharacterInteractionSduMessage::BackpackInputChanged(v) => SduState {
            backpack_input: v,
            ..s
        },
        CharacterInteractionSduMessage::SniperInputChanged(v) => SduState { sniper_input: v, ..s },
        CharacterInteractionSduMessage::ShotgunInputChanged(v) => SduState {
            shotgun_input: v,
            ..s
        },
        CharacterInteractionSduMessage::PistolInputChanged(v) => SduState { pistol_input: v, ..s },
        CharacterInteractionSduMessage::GrenadeInputChanged(v) => SduState {
            grenade_input: v,
            ..s
        },
        CharacterInteractionSduMessage::SmgInputChanged(v) => SduState { smg_input: v, ..s },
        CharacterInteractionSduMessage::AssaultRifleInputChanged(v) => SduState {
            assault_rifle_input: v,
            ..s
        },
        CharacterInteractionSduMessage::HeavyInputChanged(v) => SduState { heavy_input: v, ..s },
    }
}

/// The unlock flags after one of them was set.
pub open spec fn gear_after(g: GearState, m: CharacterGearMessage) -> GearState {
    match m {
        CharacterGearMessage::UnlockGrenadeSlot(b) => GearState { unlock_grenade_slot: b, ..g },
        CharacterGearMessage::UnlockShieldSlot(b) => GearState { unlock_shield_slot: b, ..g },
        CharacterGearMessage::UnlockWeapon1Slot(b) => GearState { unlock_weapon_1_slot: b, ..g },
        CharacterGearMessage::UnlockWeapon2Slot(b) => GearState { unlock_weapon_2_slot: b, ..g },
        CharacterGearMessage::UnlockWeapon3Slot(b) => GearState { unlock_weapon_3_slot: b, ..g },
        CharacterGearMessage::UnlockWeapon4Slot(b) => GearState { unlock_weapon_4_slot: b, ..g },
        CharacterGearMessage::UnlockArtifactSlot(b) => GearState { unlock_artifact_slot: b, ..g },
        CharacterGearMessage::UnlockClassModSlot(b) => GearState {
            unlock_class_mod_slot: b,
            ..g
        },
    }
}

/// The skin selections after one of them was made.
pub open spec fn skin_after(s: SkinState, m: CharacterSkinMessage) -> SkinState {
    match m {
        CharacterSkinMessage::HeadSkinSelected(x) => SkinState { head_skin_selected: x, ..s },
        CharacterSkinMessage::CharacterSkinSelected(x) => SkinState {
            character_skin_selected: x,
            ..s
        },
        CharacterSkinMessage::EchoThemeSelected(x) => SkinState { echo_theme_selected: x, ..s },
    }
}

/// The flag of a slot in a save; the flag that is there where the save
/// has none.
pub open spec fn flag_in(fs: Seq<CharacterFieldView>, slot: InventorySlot, now: bool) -> bool {
    match find_number(fs, slot_field(slot)) {
        Some(v) => v != 0,
        None => now,
    }
}

/// The unlock flags as a save has them. The first weapon slot is
/// unlocked wherever the save mentions it.
pub open spec fn gear_in(fs: Seq<CharacterFieldView>, g: GearState) -> GearState {
    GearState {
        unlock_grenade_slot: flag_in(fs, InventorySlot::Grenade, g.unlock_grenade_slot),
        unlock_shield_slot: flag_in(fs, InventorySlot::Shield, g.unlock_shield_slot),
        unlock_weapon_1_slot: match find_number(fs, slot_field(InventorySlot::Weapon1)) {
            Some(_) => true,
            None => g.unlock_weapon_1_slot,
        },
        unlock_weapon_2_slot: flag_in(fs, InventorySlot::Weapon2, g.unlock_weapon_2_slot),
        unlock_weapon_3_slot: flag_in(fs, InventorySlot::Weapon3, g.unlock_weapon_3_slot),
        unlock_weapon_4_slot: flag_in(fs, InventorySlot::Weapon4, g.unlock_weapon_4_slot),
        unlock_artifact_slot: flag_in(fs, InventorySlot::Artifact, g.unlock_artifact_slot),
        unlock_class_mod_slot: flag_in(fs, InventorySlot::ClassMod, g.unlock_class_mod_slot),
    }
}

/// A number of a save; the number that is there where the save has none.
pub open spec fn number_in(fs: Seq<CharacterFieldView>, number: u32, now: u32) -> u32 {
    match find_number(fs, number) {
        Some(v) => v,
        None => now,
    }
}

/// The SDU levels as a save has them.
pub open spec fn sdu_in(fs: Seq<CharacterFieldView>, s: SduState) -> SduState {
    SduState {
        backpack_input: number_in(fs, sdu_field(SaveSduSlot::Backpack), s.backpack_input),
        sniper_input: number_in(fs, sdu_field(SaveSduSlot::Sniper), s.sniper_input),
        shotgun_input: number_in(fs, sdu_field(SaveSduSlot::Shotgun), s.shotgun_input),
        pistol_input: number_in(fs, sdu_field(SaveSduSlot::Pistol), s.pistol_input),
        grenade_input: number_in(fs, sdu_field(SaveSduSlot::Grenade), s.grenade_input),
        smg_input: number_in(fs, sdu_field(SaveSduSlot::Smg), s.smg_input),
        assault_rifle_input: number_in(fs, sdu_field(SaveSduSlot::Ar), s.assault_rifle_input),
        heavy_input: number_in(fs, sdu_field(SaveSduSlot::Heavy), s.heavy_input),
    }
}

/// Whether the inputs show a save: every input that the save has a value
/// for shows that value, and every other input is as it was.
pub open spec fn shows_save(
    was: ManageSaveState,
    fs: Seq<CharacterFieldView>,
    now: ManageSaveState,
) -> bool {
    let old_c = was.main_state.character_state;
    let c = now.main_state.character_state;
    let g = now.main_state.general_state;
    &&& g.guid_input@ == text_of(find_text(fs, SAVE_GAME_GUID))
    &&& g.slot_input == number_in(fs, crate::character_data::SAVE_GAME_ID, 0)
    &&& c.name_input@ == text_of(find_text(fs, PREFERRED_CHARACTER_NAME))
    &&& c.player_class_selected_class == match crate::bl3_save::class_in(fs) {
        Some(class) => class,
        None => old_c.player_class_selected_class,
    }
    &&& c.xp_level_input == number_in(fs, crate::character_data::PLAYER_LEVEL, 0)
    &&& c.xp_points_input == number_in(fs, crate::character_data::EXPERIENCE_POINTS, 0)
    &&& c.skin_state == old_c.skin_state
    &&& c.gear_state == gear_in(fs, old_c.gear_state)
    &&& c.sdu_state == sdu_in(fs, old_c.sdu_state)
}

/// The state with another character state.
pub open spec fn with_character(s: Bl3Ui, c: CharacterState) -> Bl3Ui {
    Bl3Ui {
        manage_save_state: ManageSaveState {
            main_state: MainState { character_state: c, ..s.manage_save_state.main_state },
        },
        ..s
    }
}

/// The state with another general state.
pub open spec fn with_general(s: Bl3Ui, g: GeneralState) -> Bl3Ui {
    Bl3Ui {
        manage_save_state: ManageSaveState {
            main_state: MainState { general_state: g, ..s.manage_save_state.main_state },
        },
        ..s
    }
}

/// The general inputs after one of them was changed.
pub open spec fn general_after(g: GeneralState, m: GeneralInteractionMessage) -> GeneralState {
    match m {
        GeneralInteractionMessage::GuidInputChanged(x) => GeneralState { guid_input: x, ..g },
        GeneralInteractionMessage::SlotInputChanged(x) => GeneralState { slot_input: x, ..g },
    }
}

/// The level that is shown for experience points: the level they amount
/// to, or zero where that is no 32-bit number.
pub open spec fn shown_level(required: Seq<u32>, xp: u32) -> u32 {
    if level_of(required, xp) <= u32::MAX {
        level_of(required, xp) as u32
    } else {
        0
    }
}

/// The character inputs after one of them was changed. A change of the
/// level brings the points that the level takes, and a change of the
/// points the level that they amount to.
pub open spec fn character_after(
    c: CharacterState,
    m: CharacterInteractionMessage,
    required: Seq<u32>,
) -> CharacterState {
    match m {
        CharacterInteractionMessage::NameInputChanged(x) => CharacterState { name_input: x, ..c },
        CharacterInteractionMessage::XpLevelInputChanged(level) => CharacterState {
            xp_level_input: level,
            xp_points_input: points_of(required, level),
            ..c
        },
        CharacterInteractionMessage::XpPointsInputChanged(xp) => CharacterState {
            xp_points_input: xp,
            xp_level_input: shown_level(required, xp),
            ..c
        },
        CharacterInteractionMessage::SduMessage(m) => CharacterState {
            sdu_state: sdu_after(c.sdu_state, m),
            ..c
        },
    }
}

/// The state after what the user did in the views of a loaded save.
pub open spec fn after_manage(s: Bl3Ui, m: ManageSaveInteractionMessage) -> Bl3Ui {
    match m {
        ManageSaveInteractionMessage::Main(t) => Bl3Ui {
            view_state: ViewState::ManageSave(ManageSaveView::TabBar(tab_of(t))),
            ..s
        },
        ManageSaveInteractionMessage::General(g) => with_general(
            s,
            general_after(s.manage_save_state.main_state.general_state, g),
        ),
        ManageSaveInteractionMessage::Character(c) => with_character(
            s,
            character_after(s.manage_save_state.main_state.character_state, c, s.required_xp@),
        ),
        ManageSaveInteractionMessage::Inventory(_) => s,
    }
}

/// The state and the command that follow from what the user did.
pub open spec fn after_interaction(s: Bl3Ui, m: InteractionMessage) -> (Bl3Ui, Command) {
    match m {
        InteractionMessage::ChooseSaveInteraction(_) => (
            Bl3Ui {
                choose_save_directory_state: ChooseSaveDirectoryState {
                    choose_dir_window_open: true,
                },
                ..s
            },
            Command::ChooseDirectory,
        ),
        InteractionMessage::ManageSaveInteraction(x) => (after_manage(s, x), Command::Idle),
        InteractionMessage::Ignore => (s, Command::Idle),
    }
}

/// The state and the command that follow from a selection.
pub open spec fn after_selection(s: Bl3Ui, m: ManageSaveMessage) -> (Bl3Ui, Command) {
    let c = s.manage_save_state.main_state.character_state;
    match m {
        ManageSaveMessage::Character(CharacterMessage::PlayerClassSelected(class)) => (
            with_character(s, CharacterState { player_class_selected_class: class, ..c }),
            Command::Idle,
        ),
        ManageSaveMessage::Character(CharacterMessage::SkinMessage(m)) => (
            with_character(s, CharacterState { skin_state: skin_after(c.skin_state, m), ..c }),
            Command::Idle,
        ),
        ManageSaveMessage::Character(CharacterMessage::GearMessage(m)) => (
            with_character(s, CharacterState { gear_state: gear_after(c.gear_state, m), ..c }),
            Command::Idle,
        ),
    }
}

/// Whether `now` and `command` follow from `was` and the end of the work
/// outside.
pub open spec fn after_outside(
    was: Bl3Ui,
    m: ChooseSaveMessage,
    now: Bl3Ui,
    command: Command,
) -> bool {
    match m {
        ChooseSaveMessage::ChooseDirCompleted(r) => {
            &&& now == Bl3Ui {
                choose_save_directory_state: ChooseSaveDirectoryState {
                    choose_dir_window_open: false,
                },
                ..was
            }
            &&& command == match r {
                Ok(dir) => Command::LoadFilesInDirectory(dir),
                Err(e) => Command::Report(e),
            }
        },
        ChooseSaveMessage::FilesLoaded(Err(e)) => now == was && command == Command::Report(e),
        ChooseSaveMessage::FilesLoaded(Ok(files)) => {
            &&& command == Command::Idle
            &&& now.view_state == ViewState::ManageSave(
                ManageSaveView::TabBar(MainTabBarView::Character),
            )
            &&& now.choose_save_directory_state == was.choose_save_directory_state
            &&& now.loaded_files == files
            &&& now.required_xp == was.required_xp
            &&& match files[0] {
                Bl3FileType::PcSave(save) | Bl3FileType::Ps4Save(save) => shows_save(
                    was.manage_save_state,
                    save@.character,
                    now.manage_save_state,
                ),
                _ => now.manage_save_state == was.manage_save_state,
            }
        },
    }
}

/// Whether a message can be handled: a list of loaded files has a first
/// file.
pub open spec fn handled(m: Message) -> bool {
    match m {
        Message::ChooseSave(ChooseSaveMessage::FilesLoaded(Ok(files))) => files@.len() > 0,
        _ => true,
    }
}

/// Whether `now` and `command` follow from `was` and a message.
pub open spec fn follows(was: Bl3Ui, m: Message, now: Bl3Ui, command: Command) -> bool {
    match m {
        Message::InteractionMessage(i) => (now, command) == after_interaction(was, i),
        Message::ManageSave(x) => (now, command) == after_selection(was, x),
        Message::ChooseSave(x) => after_outside(was, x, now, command),
    }
}

/// Whether a state is the one in which the editor starts: a directory is
/// to be chosen, nothing is loaded, every text is empty, every number
/// zero, every slot locked, and the class is the first.
pub open spec fn starts(s: Bl3Ui, required_xp: Vec<u32>) -> bool {
    let g = s.manage_save_state.main_state.general_state;
    let c = s.manage_save_state.main_state.character_state;
    &&& s.view_state == ViewState::ChooseSaveDirectory
    &&& !s.choose_save_directory_state.choose_dir_window_open
    &&& s.loaded_files@.len() == 0
    &&& s.required_xp == required_xp
    &&& g.guid_input@.len() == 0
    &&& g.slot_input == 0
    &&& c.name_input@.len() == 0
    &&& c.xp_level_input == 0
    &&& c.xp_points_input == 0
    &&& c.player_class_selected_class == PlayerClass::BeastMaster
    &&& c.skin_state.head_skin_selected@.len() == 0
    &&& c.skin_state.character_skin_selected@.len() == 0
    &&& c.skin_state.echo_theme_selected@.len() == 0
    &&& c.gear_state == (GearState {
        unlock_grenade_slot: false,
        unlock_shield_slot: false,
        unlock_weapon_1_slot: false,
        unlock_weapon_2_slot: false,
        unlock_weapon_3_slot: false,
        unlock_weapon_4_slot: false,
        unlock_artifact_slot: false,
        unlock_class_mod_slot: false,
    })
    &&& c.sdu_state == (SduState {
        backpack_input: 0,
        sniper_input: 0,
        shotgun_input: 0,
        pistol_input: 0,
        grenade_input: 0,
        smg_input: 0,
        assault_rifle_input: 0,
        heavy_input: 0,
    })
}

impl Bl3Ui {
    /// The state in which the editor starts: nothing is loaded, and a
    /// directory is to be chosen.
    pub fn new(required_xp: Vec<u32>) -> (r: (Bl3Ui, Command))
        ensures
            starts(r.0, required_xp),
            r.1 == Command::Idle,
    {
        let state = Bl3Ui {
            view_state: ViewState::ChooseSaveDirectory,
            choose_save_directory_state: ChooseSaveDirectoryState { choose_dir_window_open: false },
            manage_save_state: ManageSaveState {
                main_state: MainState {
                    general_state: GeneralState { guid_input: String::new(), slot_input: 0 },
                    character_state: CharacterState {
                        name_input: String::new(),
                        xp_level_input: 0,
                        xp_points_input: 0,
                        player_class_selected_class: PlayerClass::BeastMaster,
                        skin_state: SkinState {
                            head_skin_selected: String::new(),
                            character_skin_selected: String::new(),
                            echo_theme_selected: String::new(),
                        },
                        gear_state: GearState {
                            unlock_grenade_slot: false,
                            unlock_shield_slot: false,
                            unlock_weapon_1_slot: false,
                            unlock_weapon_2_slot: false,
                            unlock_weapon_3_slot: false,
                            unlock_weapon_4_slot: false,
                            unlock_artifact_slot: false,
                            unlock_class_mod_slot: false,
                        },
                        sdu_state: SduState {
                            backpack_input: 0,
                            sniper_input: 0,
                            shotgun_input: 0,
                            pistol_input: 0,
                            grenade_input: 0,
                            smg_input: 0,
                            assault_rifle_input: 0,
                            heavy_input: 0,
                        },
                    },
                },
            },
            loaded_files: Vec::new(),
            required_xp,
        };
        (state, Command::Idle)
    }

    /// The title of the editor's window.
    pub fn title(&self) -> (r: String)
        ensures
            r@ == "Borderlands 3 Save Edit"@,
    {
        "Borderlands 3 Save Edit".to_owned()
    }

    /// Takes the state to the next one and says what is to be done
    /// outside. The message that ends the loading of files must bring at
    /// least one file.
    pub fn update(&mut self, message: Message) -> (command: Command)
        requires
            handled(message),
        ensures
            follows(*old(self), message, *final(self), command),
    {
        match message {
            Message::InteractionMessage(m) => self.interact(m),
            Message::ChooseSave(m) => self.finish_outside(m),
            Message::ManageSave(m) => {
                self.select(m);
                Command::Idle
            },
        }
    }

    /// Handles what the user did.
    fn interact(&mut self, m: InteractionMessage) -> (command: Command)
        ensures
            (*final(self), command) == after_interaction(*old(self), m),
    {
        match m {
            InteractionMessage::ChooseSaveInteraction(_) => {
                self.choose_save_directory_state.choose_dir_window_open = true;
                Command::ChooseDirectory
            },
            InteractionMessage::ManageSaveInteraction(m) => {
                self.manage(m);
                Command::Idle
            },
            InteractionMessage::Ignore => Command::Idle,
        }
    }

    /// Handles what the user did in the views of a loaded save.
    fn manage(&mut self, m: ManageSaveInteractionMessage)
        ensures
            *final(self) == after_manage(*old(self), m),
    {
        match m {
            ManageSaveInteractionMessage::Main(t) => {
                self.view_state = ViewState::ManageSave(ManageSaveView::TabBar(tab(t)));
            },
            ManageSaveInteractionMessage::General(g) => {
                change_general(&mut self.manage_save_state.main_state.general_state, g);
            },
            ManageSaveInteractionMessage::Character(c) => {
                change_character(
                    &mut self.manage_save_state.main_state.character_state,
                    c,
                    &self.required_xp,
                );
            },
            ManageSaveInteractionMessage::Inventory(_) => {},
        }
    }

    /// Handles a selection.
    fn select(&mut self, m: ManageSaveMessage)
        ensures
            (*final(self), Command::Idle) == after_selection(*old(self), m),
    {
        match m {
            ManageSaveMessage::Character(c) => match c {
                CharacterMessage::PlayerClassSelected(class) => {
                    self.manage_save_state.main_state.character_state.player_class_selected_class =
                        class;
                },
                CharacterMessage::SkinMessage(m) => match m {
                    CharacterSkinMessage::HeadSkinSelected(x) => {
                        self.manage_save_state.main_state.character_state.skin_state.head_skin_selected =
                            x;
                    },
                    CharacterSkinMessage::CharacterSkinSelected(x) => {
                        self.manage_save_state.main_state.character_state.skin_state.character_skin_selected =
                            x;
                    },
                    CharacterSkinMessage::EchoThemeSelected(x) => {
                        self.manage_save_state.main_state.character_state.skin_state.echo_theme_selected =
                            x;
                    },
                },
                CharacterMessage::GearMessage(m) => {
                    let was = self.manage_save_state.main_state.character_state.gear_state;
                    self.manage_save_state.main_state.character_state.gear_state = change_gear(
                        was,
                        m,
                    );
                },
            },
        }
    }

    /// Handles the end of work that was done outside.
    fn finish_outside(&mut self, m: ChooseSaveMessage) -> (command: Command)
        requires
            handled(Message::ChooseSave(m)),
        ensures
            after_outside(*old(self), m, *final(self), command),
    {
        match m {
            ChooseSaveMessage::ChooseDirCompleted(r) => {
                self.choose_save_directory_state.choose_dir_window_open = false;
                match r {
                    Ok(dir) => Command::LoadFilesInDirectory(dir),
                    Err(e) => Command::Report(e),
                }
            },
            ChooseSaveMessage::FilesLoaded(r) => match r {
                Ok(files) => {
                    self.view_state = ViewState::ManageSave(
                        ManageSaveView::TabBar(MainTabBarView::Character),
                    );
                    self.loaded_files = files;
                    match &self.loaded_files[0] {
                        Bl3FileType::PcSave(save) | Bl3FileType::Ps4Save(save) => {
                            show_save(&mut self.manage_save_state, save);
                        },
                        _ => {},
                    }
                    Command::Idle
                },
                Err(e) => Command::Report(e),
            },
        }
    }
}

/// The tab that a press on the tab bar shows.
fn tab(t: MainInteractionMessage) -> (r: MainTabBarView)
    ensures
        r == tab_of(t),
{
    match t {
        MainInteractionMessage::TabBarGeneralPressed => MainTabBarView::General,
        MainInteractionMessage::TabBarCharacterPressed => MainTabBarView::Character,
        MainInteractionMessage::TabBarVehiclePressed => MainTabBarView::Vehicle,
        MainInteractionMessage::TabBarCurrencyPressed => MainTabBarView::Currency,
        MainInteractionMessage::TabBarFastTravelPressed => MainTabBarView::FastTravel,
    }
}

/// Changes one of the general inputs.
fn change_general(g: &mut GeneralState, m: GeneralInteractionMessage)
    ensures
        *final(g) == general_after(*old(g), m),
{
    match m {
        GeneralInteractionMessage::GuidInputChanged(x) => {
            g.guid_input = x;
        },
        GeneralInteractionMessage::SlotInputChanged(x) => {
            g.slot_input = x;
        },
    }
}

/// Changes one of the character inputs.
fn change_character(c: &mut CharacterState, m: CharacterInteractionMessage, required: &Vec<u32>)
    ensures
        *final(c) == character_after(*old(c), m, required@),
{
    match m {
        CharacterInteractionMessage::NameInputChanged(x) => {
            c.name_input = x;
        },
        CharacterInteractionMessage::XpLevelInputChanged(level) => {
            c.xp_level_input = level;
            c.xp_points_input = level_to_experience(required, level);
        },
        CharacterInteractionMessage::XpPointsInputChanged(xp) => {
            c.xp_points_input = xp;
            c.xp_level_input = match experience_to_level(required, xp) {
                Some(level) => level,
                None => 0,
            };
        },
        CharacterInteractionMessage::SduMessage(m) => {
            c.sdu_state = change_sdu(c.sdu_state, m);
        },
    }
}

/// The SDU inputs after one of them was changed.
fn change_sdu(s: SduState, m: CharacterInteractionSduMessage) -> (r: SduState)
    ensures
        r == sdu_after(s, m),
{
    let mut r = s;
    match m {
        CharacterInteractionSduMessage::BackpackInputChanged(v) => {
            r.backpack_input = v;
        },
        CharacterInteractionSduMessage::SniperInputChanged(v) => {
            r.sniper_input = v;
        },
        CharacterInteractionSduMessage::ShotgunInputChanged(v) => {
            r.shotgun_input = v;
        },
        CharacterInteractionSduMessage::PistolInputChanged(v) => {
            r.pistol_input = v;
        },
        CharacterInteractionSduMessage::GrenadeInputChanged(v) => {
            r.grenade_input = v;
        },
        CharacterInteractionSduMessage::SmgInputChanged(v) => {
            r.smg_input = v;
        },
        CharacterInteractionSduMessage::AssaultRifleInputChanged(v) => {
            r.assault_rifle_input = v;
        },
        CharacterInteractionSduMessage::HeavyInputChanged(v) => {
            r.heavy_input = v;
        },
    }
    r
}

/// The unlock flags after one of them was set.
fn change_gear(g: GearState, m: CharacterGearMessage) -> (r: GearState)
    ensures
        r == gear_after(g, m),
{
    let mut r = g;
    match m {
        CharacterGearMessage::UnlockGrenadeSlot(b) => {
            r.unlock_grenade_slot = b;
        },
        CharacterGearMessage::UnlockShieldSlot(b) => {
            r.unlock_shield_slot = b;
        },
        CharacterGearMessage::UnlockWeapon1Slot(b) => {
            r.unlock_weapon_1_slot = b;
        },
        CharacterGearMessage::UnlockWeapon2Slot(b) => {
            r.unlock_weapon_2_slot = b;
        },
        CharacterGearMessage::UnlockWeapon3Slot(b) => {
            r.unlock_weapon_3_slot = b;
        },
        CharacterGearMessage::UnlockWeapon4Slot(b) => {
            r.unlock_weapon_4_slot = b;
        },
        CharacterGearMessage::UnlockArtifactSlot(b) => {
            r.unlock_artifact_slot = b;
        },
        CharacterGearMessage::UnlockClassModSlot(b) => {
            r.unlock_class_mod_slot = b;
        },
    }
    r
}

/// The flag of a slot in a save; `now` where the save has none.
fn flag_of(save: &Bl3Save, slot: InventorySlot, now: bool) -> (r: bool)
    ensures
        r == flag_in(save@.character, slot, now),
{
    match save.character_data.slot_unlocked(slot) {
        Some(b) => b,
        None => now,
    }
}

/// A number of a save; `now` where the save has none.
fn number_or(v: Option<u32>, now: u32) -> (r: u32)
    ensures
        r == match v {
            Some(x) => x,
            None => now,
        },
{
    match v {
        Some(x) => x,
        None => now,
    }
}

/// Fills the inputs from a save.
fn show_save(state: &mut ManageSaveState, save: &Bl3Save)
    ensures
        shows_save(*old(state), save@.character, *final(state)),
        final(state).main_state.character_state.skin_state == old(
            state,
        ).main_state.character_state.skin_state,
{
    let c = &save.character_data;
    let guid = text_from(c.save_game_guid());
    let name = text_from(c.preferred_character_name());
    let g = state.main_state.character_state.gear_state;
    let s = state.main_state.character_state.sdu_state;
    let class = match c.player_class() {
        Some(class) => class,
        None => state.main_state.character_state.player_class_selected_class,
    };
    let gear = GearState {
        unlock_grenade_slot: flag_of(save, InventorySlot::Grenade, g.unlock_grenade_slot),
        unlock_shield_slot: flag_of(save, InventorySlot::Shield, g.unlock_shield_slot),
        unlock_weapon_1_slot: match c.slot_unlocked(InventorySlot::Weapon1) {
            Some(_) => true,
            None => g.unlock_weapon_1_slot,
        },
        unlock_weapon_2_slot: flag_of(save, InventorySlot::Weapon2, g.unlock_weapon_2_slot),
        unlock_weapon_3_slot: flag_of(save, InventorySlot::Weapon3, g.unlock_weapon_3_slot),
        unlock_weapon_4_slot: flag_of(save, InventorySlot::Weapon4, g.unlock_weapon_4_slot),
        unlock_artifact_slot: flag_of(save, InventorySlot::Artifact, g.unlock_artifact_slot),
        unlock_class_mod_slot: flag_of(save, InventorySlot::ClassMod, g.unlock_class_mod_slot),
    };
    let sdu = SduState {
        backpack_input: number_or(c.sdu_level(SaveSduSlot::Backpack), s.backpack_input),
        sniper_input: number_or(c.sdu_level(SaveSduSlot::Sniper), s.sniper_input),
        shotgun_input: number_or(c.sdu_level(SaveSduSlot::Shotgun), s.shotgun_input),
        pistol_input: number_or(c.sdu_level(SaveSduSlot::Pistol), s.pistol_input),
        grenade_input: number_or(c.sdu_level(SaveSduSlot::Grenade), s.grenade_input),
        smg_input: number_or(c.sdu_level(SaveSduSlot::Smg), s.smg_input),
        assault_rifle_input: number_or(c.sdu_level(SaveSduSlot::Ar), s.assault_rifle_input),
        heavy_input: number_or(c.sdu_level(SaveSduSlot::Heavy), s.heavy_input),
    };
    state.main_state.general_state.guid_input = guid;
    state.main_state.general_state.slot_input = number_or(c.save_game_id(), 0);
    state.main_state.character_state.name_input = name;
    state.main_state.character_state.player_class_selected_class = class;
    state.main_state.character_state.xp_level_input = number_or(c.player_level(), 0);
    state.main_state.character_state.xp_points_input = number_or(c.experience_points(), 0);
    state.main_state.character_state.gear_state = gear;
    state.main_state.character_state.sdu_state = sdu;
}

} // verus!
