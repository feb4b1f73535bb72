use bl3_save_edit_core::bl3_save::{Bl3Save, SaveHeader, SaveVersions};
use bl3_save_edit_core::bl3_ui::{
    experience_to_level, level_to_experience, Bl3FileType, Bl3Ui, CharacterGearMessage,
    CharacterInteractionMessage, CharacterInteractionSduMessage, CharacterMessage,
    CharacterSkinMessage, ChooseSaveInteractionMessage, ChooseSaveMessage, Command,
    GeneralInteractionMessage, InteractionMessage, InventoryInteractionMessage,
    MainInteractionMessage, MainTabBarView, ManageSaveInteractionMessage, ManageSaveMessage,
    ManageSaveView, Message, ViewState,
};
use bl3_save_edit_core::character_data::{CharacterData, InventorySlot, PlayerClass, SaveSduSlot};
use bl3_save_edit_core::current_parts::CurrentPartTypeIndex;

fn table() -> Vec<u32> {
    vec![0, 358, 1241, 2850]
}

fn start() -> Bl3Ui {
    Bl3Ui::new(table()).0
}

fn interaction(m: ManageSaveInteractionMessage) -> Message {
    Message::InteractionMessage(InteractionMessage::ManageSaveInteraction(m))
}

fn character(m: CharacterInteractionMessage) -> Message {
    interaction(ManageSaveInteractionMessage::Character(m))
}

fn save() -> Bl3Save {
    let mut c = CharacterData::new();
    c.set_save_game_id(4);
    c.set_save_game_guid(b"ABCD".to_vec());
    c.set_preferred_character_name(b"Fl4k".to_vec());
    c.set_player_class(PlayerClass::Operative);
    c.set_experience_points(400);
    c.set_player_level(2);
    c.set_sdu_level(SaveSduSlot::Backpack, 3);
    c.set_sdu_level(SaveSduSlot::Heavy, 8);
    c.set_slot_unlocked(InventorySlot::Weapon1, false);
    c.set_slot_unlocked(InventorySlot::Weapon3, true);
    c.set_slot_unlocked(InventorySlot::Artifact, false);
    Bl3Save {
        header: SaveHeader {
            versions: SaveVersions {
                save_game_version: 1,
                package_version: 1,
                engine_major: 4,
                engine_minor: 0,
                engine_patch: 0,
                engine_build: 0,
            },
            build_id: String::new(),
            custom_format_version: 0,
            custom_format_data: vec![],
            save_game_type: String::new(),
        },
        character_data: c,
    }
}

#[test]
fn editor_starts_by_asking_for_a_directory() {
    let (ui, command) = Bl3Ui::new(table());
    assert_eq!(command, Command::Idle);
    assert_eq!(ui.view_state, ViewState::ChooseSaveDirectory);
    assert!(!ui.choose_save_directory_state.choose_dir_window_open);
    assert!(ui.loaded_files.is_empty());
    assert_eq!(ui.required_xp, table());
    assert_eq!(ui.title(), "Borderlands 3 Save Edit");
}

#[test]
fn choosing_a_directory_is_done_outside() {
    let mut ui = start();
    let command = ui.update(Message::InteractionMessage(
        InteractionMessage::ChooseSaveInteraction(ChooseSaveInteractionMessage::ChooseDirPressed),
    ));
    assert_eq!(command, Command::ChooseDirectory);
    assert!(ui.choose_save_directory_state.choose_dir_window_open);

    let command =
        ui.update(Message::ChooseSave(ChooseSaveMessage::ChooseDirCompleted(Ok("/saves".into()))));
    assert_eq!(command, Command::LoadFilesInDirectory("/saves".to_string()));
    assert!(!ui.choose_save_directory_state.choose_dir_window_open);
    assert_eq!(ui.view_state, ViewState::ChooseSaveDirectory);
}

#[test]
fn failures_outside_are_reported_and_change_nothing_else() {
    let mut ui = start();
    let before = ui.clone();
    let command =
        ui.update(Message::ChooseSave(ChooseSaveMessage::ChooseDirCompleted(Err("no".into()))));
    assert_eq!(command, Command::Report("no".to_string()));
    assert_eq!(ui, before);
    let command = ui.update(Message::ChooseSave(ChooseSaveMessage::FilesLoaded(Err("bad".into()))));
    assert_eq!(command, Command::Report("bad".to_string()));
    assert_eq!(ui, before);
}

#[test]
fn loaded_save_fills_the_inputs() {
    let mut ui = start();
    ui.update(Message::ManageSave(ManageSaveMessage::Character(CharacterMessage::GearMessage(
        CharacterGearMessage::UnlockShieldSlot(true),
    ))));
    let files = vec![Bl3FileType::Ps4Save(save()), Bl3FileType::PcProfile];
    let command = ui.update(Message::ChooseSave(ChooseSaveMessage::FilesLoaded(Ok(files.clone()))));
    assert_eq!(command, Command::Idle);
    assert_eq!(
        ui.view_state,
        ViewState::ManageSave(ManageSaveView::TabBar(MainTabBarView::Character))
    );
    assert_eq!(ui.loaded_files, files);
    let g = &ui.manage_save_state.main_state.general_state;
    assert_eq!(g.guid_input, "ABCD");
    assert_eq!(g.slot_input, 4);
    let c = &ui.manage_save_state.main_state.character_state;
    assert_eq!(c.name_input, "Fl4k");
    assert_eq!(c.player_class_selected_class, PlayerClass::Operative);
    assert_eq!(c.xp_level_input, 2);
    assert_eq!(c.xp_points_input, 400);
    assert_eq!(c.sdu_state.backpack_input, 3);
    assert_eq!(c.sdu_state.heavy_input, 8);
    assert_eq!(c.sdu_state.sniper_input, 0);
    assert!(c.gear_state.unlock_weapon_1_slot);
    assert!(!c.gear_state.unlock_weapon_2_slot);
    assert!(c.gear_state.unlock_weapon_3_slot);
    assert!(!c.gear_state.unlock_artifact_slot);
    assert!(c.gear_state.unlock_shield_slot);
}

#[test]
fn loaded_profile_leaves_the_inputs() {
    let mut ui = start();
    let before = ui.manage_save_state.clone();
    ui.update(Message::ChooseSave(ChooseSaveMessage::FilesLoaded(Ok(vec![
        Bl3FileType::PcProfile,
        Bl3FileType::PcSave(save()),
    ]))));
    assert_eq!(ui.manage_save_state, before);
    assert_eq!(ui.loaded_files.len(), 2);
    assert_eq!(
        ui.view_state,
        ViewState::ManageSave(ManageSaveView::TabBar(MainTabBarView::Character))
    );
}

#[test]
fn tab_bar_switches_the_view() {
    let mut ui = start();
    for (press, tab) in [
        (MainInteractionMessage::TabBarGeneralPressed, MainTabBarView::General),
        (MainInteractionMessage::TabBarCharacterPressed, MainTabBarView::Character),
        (MainInteractionMessage::TabBarVehiclePressed, MainTabBarView::Vehicle),
        (MainInteractionMessage::TabBarCurrencyPressed, MainTabBarView::Currency),
        (MainInteractionMessage::TabBarFastTravelPressed, MainTabBarView::FastTravel),
    ] {
        let command = ui.update(interaction(ManageSaveInteractionMessage::Main(press)));
        assert_eq!(command, Command::Idle);
        assert_eq!(ui.view_state, ViewState::ManageSave(ManageSaveView::TabBar(tab)));
    }
}

#[test]
fn inputs_take_what_was_typed() {
    let mut ui = start();
    ui.update(interaction(ManageSaveInteractionMessage::General(
        GeneralInteractionMessage::GuidInputChanged("G".into()),
    )));
    ui.update(interaction(ManageSaveInteractionMessage::General(
        GeneralInteractionMessage::SlotInputChanged(9),
    )));
    ui.update(character(CharacterInteractionMessage::NameInputChanged("Zane".into())));
    assert_eq!(ui.manage_save_state.main_state.general_state.guid_input, "G");
    assert_eq!(ui.manage_save_state.main_state.general_state.slot_input, 9);
    assert_eq!(ui.manage_save_state.main_state.character_state.name_input, "Zane");
}

#[test]
fn level_and_points_follow_each_other() {
    let mut ui = start();
    ui.update(character(CharacterInteractionMessage::XpLevelInputChanged(3)));
    let c = &ui.manage_save_state.main_state.character_state;
    assert_eq!((c.xp_level_input, c.xp_points_input), (3, 1241));
    ui.update(character(CharacterInteractionMessage::XpLevelInputChanged(0)));
    let c = &ui.manage_save_state.main_state.character_state;
    assert_eq!((c.xp_level_input, c.xp_points_input), (0, 0));
    ui.update(character(CharacterInteractionMessage::XpPointsInputChanged(1240)));
    let c = &ui.manage_save_state.main_state.character_state;
    assert_eq!((c.xp_level_input, c.xp_points_input), (2, 1240));
    ui.update(character(CharacterInteractionMessage::XpPointsInputChanged(1_000_000)));
    let c = &ui.manage_save_state.main_state.character_state;
    assert_eq!((c.xp_level_input, c.xp_points_input), (4, 1_000_000));
}

#[test]
fn experience_table_is_read_both_ways() {
    let t = table();
    assert_eq!(experience_to_level(&t, 0), Some(1));
    assert_eq!(experience_to_level(&t, 357), Some(1));
    assert_eq!(experience_to_level(&t, 358), Some(2));
    assert_eq!(experience_to_level(&t, 2850), Some(4));
    assert_eq!(experience_to_level(&t, u32::MAX), Some(4));
    assert_eq!(experience_to_level(&vec![], 5), None);
    assert_eq!(experience_to_level(&vec![10], 5), None);
    assert_eq!(level_to_experience(&t, 0), 0);
    assert_eq!(level_to_experience(&t, 1), 0);
    assert_eq!(level_to_experience(&t, 2), 358);
    assert_eq!(level_to_experience(&t, 4), 2850);
    assert_eq!(level_to_experience(&t, 5), 0);
}

#[test]
fn each_sdu_input_changes_alone() {
    let mut ui = start();
    let changes = [
        CharacterInteractionSduMessage::BackpackInputChanged(1),
        CharacterInteractionSduMessage::SniperInputChanged(2),
        CharacterInteractionSduMessage::ShotgunInputChanged(3),
        CharacterInteractionSduMessage::PistolInputChanged(4),
        CharacterInteractionSduMessage::GrenadeInputChanged(5),
        CharacterInteractionSduMessage::SmgInputChanged(6),
        CharacterInteractionSduMessage::AssaultRifleInputChanged(7),
        CharacterInteractionSduMessage::HeavyInputChanged(8),
    ];
    for m in changes {
        ui.update(character(CharacterInteractionMessage::SduMessage(m)));
    }
    let s = ui.manage_save_state.main_state.character_state.sdu_state;
    assert_eq!(
        (
            s.backpack_input,
            s.sniper_input,
            s.shotgun_input,
            s.pistol_input,
            s.grenade_input,
            s.smg_input,
            s.assault_rifle_input,
            s.heavy_input
        ),
        (1, 2, 3, 4, 5, 6, 7, 8)
    );
}

#[test]
fn each_unlock_flag_changes_alone() {
    let mut ui = start();
    let changes = [
        CharacterGearMessage::UnlockGrenadeSlot(true),
        CharacterGearMessage::UnlockWeapon2Slot(true),
        CharacterGearMessage::UnlockArtifactSlot(true),
    ];
    for m in changes {
        ui.update(Message::ManageSave(ManageSaveMessage::Character(
            CharacterMessage::GearMessage(m),
        )));
    }
    let g = ui.manage_save_state.main_state.character_state.gear_state;
    assert!(g.unlock_grenade_slot && g.unlock_weapon_2_slot && g.unlock_artifact_slot);
    assert!(!g.unlock_shield_slot && !g.unlock_weapon_1_slot && !g.unlock_weapon_3_slot);
    assert!(!g.unlock_weapon_4_slot && !g.unlock_class_mod_slot);
    for m in [
        CharacterGearMessage::UnlockShieldSlot(true),
        CharacterGearMessage::UnlockWeapon1Slot(true),
        CharacterGearMessage::UnlockWeapon3Slot(true),
        CharacterGearMessage::UnlockWeapon4Slot(true),
        CharacterGearMessage::UnlockClassModSlot(true),
        CharacterGearMessage::UnlockGrenadeSlot(false),
    ] {
        ui.update(Message::ManageSave(ManageSaveMessage::Character(
            CharacterMessage::GearMessage(m),
        )));
    }
    let g = ui.manage_save_state.main_state.character_state.gear_state;
    assert!(!g.unlock_grenade_slot);
    assert!(g.unlock_shield_slot && g.unlock_weapon_1_slot && g.unlock_weapon_3_slot);
    assert!(g.unlock_weapon_4_slot && g.unlock_class_mod_slot);
}

#[test]
fn selections_are_kept() {
    let mut ui = start();
    let select = |m| Message::ManageSave(ManageSaveMessage::Character(m));
    ui.update(select(CharacterMessage::PlayerClassSelected(PlayerClass::Siren)));
    ui.update(select(CharacterMessage::SkinMessage(CharacterSkinMessage::HeadSkinSelected(
        "head".into(),
    ))));
    ui.update(select(CharacterMessage::SkinMessage(CharacterSkinMessage::CharacterSkinSelected(
        "skin".into(),
    ))));
    ui.update(select(CharacterMessage::SkinMessage(CharacterSkinMessage::EchoThemeSelected(
        "echo".into(),
    ))));
    let c = &ui.manage_save_state.main_state.character_state;
    assert_eq!(c.player_class_selected_class, PlayerClass::Siren);
    assert_eq!(c.skin_state.head_skin_selected, "head");
    assert_eq!(c.skin_state.character_skin_selected, "skin");
    assert_eq!(c.skin_state.echo_theme_selected, "echo");
}

#[test]
fn messages_without_effect_change_nothing() {
    let mut ui = start();
    let before = ui.clone();
    assert_eq!(ui.update(Message::InteractionMessage(InteractionMessage::Ignore)), Command::Idle);
    let at = CurrentPartTypeIndex { category_index: 1, part_index: 2 };
    for m in [
        InventoryInteractionMessage::CurrentPartPressed(at),
        InventoryInteractionMessage::CurrentAnointmentPressed(at),
        InventoryInteractionMessage::CurrentPartsTabPressed,
        InventoryInteractionMessage::CurrentAnointmentsTabPressed,
    ] {
        let command = ui.update(interaction(ManageSaveInteractionMessage::Inventory(m)));
        assert_eq!(command, Command::Idle);
    }
    assert_eq!(ui, before);
}

#[test]
fn summary_has_ten_lines() {
    assert_eq!(
        save().summary(),
        "Character: Fl4k\nSavegame ID: 4\nSavegame GUID: ABCD\nPlayer Class: Operative\nXP: 400\n\
         Level: 2\nGuardian Rank: 0\nMoney: 0\nEridium: 0\nPlaythroughs Completed: 0\n"
    );
}

#[test]
fn summary_of_an_empty_character() {
    let mut s = save();
    s.character_data = CharacterData::new();
    s.character_data.set_money(u32::MAX);
    s.character_data.set_eridium(1_000);
    s.character_data.set_preferred_character_name(vec![0xff]);
    assert_eq!(
        s.summary(),
        "Character: \nSavegame ID: 0\nSavegame GUID: \nPlayer Class: Unknown\nXP: 0\nLevel: 0\n\
         Guardian Rank: 0\nMoney: 4294967295\nEridium: 1000\nPlaythroughs Completed: 0\n"
    );
}
