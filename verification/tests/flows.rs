use nat20_gui::combat::{EncounterWindow, EncounterWindowState};
use nat20_gui::creation::{decision_changed, CharacterCreation, CharacterCreationState};
use nat20_gui::debug::{
    CharacterDebugGui, CharacterDebugState, CheckKind, CreatureDebugState, CreatureDebugWindow,
    CreatureRightClickState, CreatureRightClickWindow, DebugAction, RestKind, DEFAULT_DC,
};
use nat20_gui::event_log::LogLevel;
use nat20_gui::menu::{
    action_bar_update, new_encounter_allowed, open_encounter, remove_finished, spawn_choice,
    toggle_selection, BarUpdate, EventLogView, SpawnChoice,
};
use nat20_gui::reactions::{is_option_selected, DecisionChoice, ReactionsWindow};
use nat20_gui::spawn::{unique_name, SpawnEvent, SpawnPredefinedWindow};

#[test]
fn character_creation_screens() {
    let mut c = CharacterCreation::new();
    assert!(c.state.is_none());
    c.set_state(CharacterCreationState::ChoosingMethod);
    c.choose_predefined();
    assert_eq!(c.state, Some(CharacterCreationState::FromPredefined));
    c.back();
    assert_eq!(c.state, Some(CharacterCreationState::ChoosingMethod));
    c.add_predefined(7);
    assert!(c.creation_complete());
    assert_eq!(c.get_character(), Some(7));
    assert!(c.state.is_none());
    assert!(c.current_character.is_none());
    assert_eq!(c.get_character(), None);
}

#[test]
fn character_creation_from_scratch() {
    let mut c = CharacterCreation::new();
    c.set_state(CharacterCreationState::ChoosingMethod);
    c.start_character(3);
    assert_eq!(c.choose_from_scratch(), Some(3));
    assert_eq!(c.state, Some(CharacterCreationState::FromScratch));
    c.start_character(4);
    c.finish(false);
    assert_eq!(c.state, Some(CharacterCreationState::FromScratch));
    assert!(!c.level_up(false));
    assert!(c.level_up(true));
    c.finish(true);
    assert!(c.creation_complete());
    c.cancel();
    assert!(c.state.is_none());
    assert_eq!(c.reset(), Some(4));
}

#[test]
fn changed_decisions_are_replayed() {
    assert!(decision_changed(true, false, false));
    assert!(decision_changed(false, true, false));
    assert!(!decision_changed(false, true, true));
    assert!(!decision_changed(false, false, false));
}

#[test]
fn character_debug_menus() {
    let mut g = CharacterDebugGui::new(5);
    assert_eq!(g.click_main_menu(0), Some(DebugAction::HealFull));
    assert_eq!(g.state, CharacterDebugState::MainMenu);
    assert_eq!(g.click_main_menu(2), None);
    assert_eq!(g.state, CharacterDebugState::Check { kind: CheckKind::SkillCheck, dc_value: DEFAULT_DC });
    g.set_dc(15);
    assert_eq!(g.click_check(3), DebugAction::SkillCheck { index: 3, dc: 15 });
}

#[test]
fn creature_debug_menus() {
    let mut w = CreatureDebugWindow::new(9);
    assert_eq!(w.click_main_menu(0), (Some(DebugAction::Despawn), true));
    assert_eq!(w.click_main_menu(2), (None, false));
    assert_eq!(w.state, CreatureDebugState::PassTime);
    assert_eq!(w.click_submenu(1), (Some(DebugAction::PassTime(RestKind::ShortRest)), true));
    let mut w = CreatureDebugWindow::new(9);
    w.click_main_menu(3);
    assert_eq!(w.click_submenu(1), (Some(DebugAction::SetPlayerControlled(false)), true));
    let mut w = CreatureDebugWindow::new(9);
    w.click_main_menu(4);
    w.set_dc(12);
    assert_eq!(w.click_submenu(2), (Some(DebugAction::SavingThrow { index: 2, dc: 12 }), true));
}

#[test]
fn right_click_menu() {
    let mut w = CreatureRightClickWindow::new(4);
    w.click_main_menu(5);
    assert!(matches!(w.state, CreatureRightClickState::MainMenu));
    w.click_main_menu(1);
    match &w.state {
        CreatureRightClickState::DebugCreature(d) => assert_eq!(d.creature, 4),
        _ => panic!("expected the debug menu"),
    }
}

#[test]
fn reactions_close_when_every_player_reactor_decided() {
    let mut w = ReactionsWindow::new();
    assert!(!w.is_active());
    w.activate(11, vec![1, 2]);
    assert!(w.is_active());
    // No decisions known: stays open.
    assert!(!w.end_frame(None, Some((1, true)), &vec![true, true]));
    // Reactor 2 still has to decide.
    assert!(!w.end_frame(Some(vec![]), Some((1, true)), &vec![true, true]));
    // A refused submission does not count.
    assert!(!w.end_frame(Some(vec![1]), Some((2, false)), &vec![true, true]));
    assert!(w.end_frame(Some(vec![1]), Some((2, true)), &vec![true, true]));
    assert!(!w.is_active());
    w.activate(12, vec![1, 2]);
    // Reactor 2 is not controlled by the player.
    assert!(w.end_frame(Some(vec![1]), None, &vec![true, false]));
    // A frame while waiting changes nothing.
    assert!(!w.end_frame(Some(vec![1, 2]), Some((1, true)), &vec![]));
    assert!(!w.is_active());
}

#[test]
fn chosen_reaction_is_highlighted() {
    assert!(is_option_selected(Some(DecisionChoice::Reaction(Some(3))), 3));
    assert!(!is_option_selected(Some(DecisionChoice::Reaction(None)), 3));
    assert!(!is_option_selected(Some(DecisionChoice::Action), 3));
    assert!(!is_option_selected(None, 3));
}

#[test]
fn selection_and_action_bar() {
    assert_eq!(toggle_selection(None, 3), Some(3));
    assert_eq!(toggle_selection(Some(3), 3), None);
    assert_eq!(toggle_selection(Some(2), 3), Some(3));
    assert_eq!(action_bar_update(Some(3), Some(3)), BarUpdate::Keep);
    assert_eq!(action_bar_update(Some(3), Some(2)), BarUpdate::Replace(3));
    assert_eq!(action_bar_update(Some(3), None), BarUpdate::Replace(3));
    assert_eq!(action_bar_update(None, Some(2)), BarUpdate::Remove);
    assert!(!new_encounter_allowed(1));
    assert!(new_encounter_allowed(2));
    assert_eq!(spawn_choice(0), SpawnChoice::NewCharacter);
    assert_eq!(spawn_choice(1), SpawnChoice::PredefinedCreature);
}

#[test]
fn event_log_source_and_level() {
    let mut log = EventLogView::new();
    let mut encounters: Vec<EncounterWindow> = Vec::new();
    open_encounter(&mut encounters, 100, &mut log);
    open_encounter(&mut encounters, 200, &mut log);
    assert_eq!(log.log_source, 2);
    assert_eq!(log.shown_window(encounters.len()), Some(1));
    log.clamp_source(1);
    assert_eq!(log.log_source, 1);
    assert_eq!(log.shown_window(0), None);
    log.log_source = 0;
    assert_eq!(log.shown_window(2), None);
    log.pick_level(1);
    assert_eq!(log.log_level, LogLevel::Debug);
    log.pick_level(9);
    assert_eq!(log.log_level, LogLevel::Info);
}

#[test]
fn finished_encounters_close() {
    let mut encounters: Vec<EncounterWindow> = vec![
        EncounterWindow::new(1),
        EncounterWindow::new(2),
        EncounterWindow::new(3),
    ];
    assert_eq!(remove_finished(encounters).len(), 3);
    encounters = vec![EncounterWindow::new(1), EncounterWindow::new(2), EncounterWindow::new(3)];
    encounters[0].state = EncounterWindowState::EncounterFinished;
    encounters[2].state = EncounterWindowState::EncounterFinished;
    let left = remove_finished(encounters);
    let ids: Vec<u64> = left.iter().map(|w| w.id).collect();
    assert_eq!(ids, vec![1, 2]);
}

#[test]
fn unique_names_count_up() {
    let taken: Vec<String> = vec!["Goblin".to_string(), "Goblin (0)".to_string(), "Orc".to_string()];
    assert_eq!(unique_name(&"Goblin".to_string(), &taken), Some("Goblin (1)".to_string()));
    assert_eq!(unique_name(&"Orc".to_string(), &taken), Some("Orc (0)".to_string()));
    assert_eq!(unique_name(&"Wizard".to_string(), &taken), None);
}

#[test]
fn spawning_predefined_creatures() {
    let mut w = SpawnPredefinedWindow::new();
    assert!(!w.needs_copy());
    assert_eq!(w.pick(1), None);
    assert!(w.needs_copy());
    w.copy_spawned(50);
    assert!(!w.needs_copy());
    assert_eq!(w.pick(2), Some(50));
    w.copy_spawned(51);
    w.place();
    assert!(w.needs_copy());
    w.copy_spawned(52);
    assert_eq!(w.cancel(), Some(52));
    assert!(!w.needs_copy());
    w.pick(1);
    w.copy_spawned(53);
    w.done();
    assert!(w.is_spawning_completed());
    assert_eq!(w.end_frame(true), Some(53));
    let mut w = SpawnPredefinedWindow::new();
    assert_eq!(w.end_frame(false), None);
    assert!(w.is_spawning_completed());
}

#[test]
fn spawn_frames_follow_the_window() {
    let mut w = SpawnPredefinedWindow::new();
    let removed = w.frame(&vec![SpawnEvent::Pick(1), SpawnEvent::CopySpawned(60)], true);
    assert!(removed.is_empty());
    assert_eq!(w.current_entity, Some(60));
    // A second copy is not spawned while one is placed; a right click removes it.
    let removed = w.frame(&vec![SpawnEvent::CopySpawned(61), SpawnEvent::Cancel], true);
    assert_eq!(removed, vec![60]);
    assert_eq!(w.entity_to_spawn, None);
    // Done removes the copy being placed.
    let removed = w.frame(&vec![SpawnEvent::Pick(2), SpawnEvent::CopySpawned(62), SpawnEvent::Done], true);
    assert_eq!(removed, vec![62]);
    assert!(w.is_spawning_completed());
    assert_eq!(w.current_entity, None);
    // Once done, a frame changes nothing.
    let before = w;
    let removed = w.frame(&vec![SpawnEvent::Pick(3), SpawnEvent::CopySpawned(63)], false);
    assert!(removed.is_empty());
    assert_eq!(w, before);
    // Closing the window finishes it.
    let mut w = SpawnPredefinedWindow::new();
    assert!(w.frame(&vec![SpawnEvent::Place, SpawnEvent::Cancel], false).is_empty());
    assert!(w.is_spawning_completed());
}
