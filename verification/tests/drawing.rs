use nat20_gui::level_up::Ability;
use nat20_gui::tables::{budget_label, skill_table, SkillRow};
use nat20_gui::effects::{effects_table, order_by_duration, EffectRow};
use nat20_gui::geometry::{
    capsule_indices, grid_lines, navmesh_triangle_indices, DrawRange, LineBatch, LineMode,
    INITIAL_LINE_CAPACITY,
};
use nat20_gui::inventory::{
    inventory_command, InventoryCommand,
    inventory_slots, item_short_name, slot_continues_row, ContainerSlot, InteractEvent,
    InteractMode,
};
use nat20_gui::sheet::{character_sheet, creature_sheet, CharacterRenderMode, CreatureRenderMode, SheetPart};
use nat20_gui::spellbook::{
    cantrips, click_action, empty_prepared_places, spell_table, RenderMode, SpellArea,
    SpellEntry, SpellbookUiAction,
};
use nat20_gui::time::FixedMillisUtcTime;

#[test]
fn line_batch_ranges_follow_each_other() {
    let mut b = LineBatch::new();
    assert_eq!(b.capacity, INITIAL_LINE_CAPACITY);
    b.add_line();
    assert!(!b.add_polyline(1, false));
    assert!(b.add_polyline(3, false));
    assert!(b.add_polyline(4, true));
    assert!(!b.add_polyline_color(3, 2));
    assert!(b.add_polyline_color(2, 2));
    assert_eq!(b.vertex_count, 11);
    assert_eq!(
        b.draws,
        vec![
            DrawRange { mode: LineMode::Lines, first: 0, count: 2 },
            DrawRange { mode: LineMode::LineStrip, first: 2, count: 3 },
            DrawRange { mode: LineMode::LineLoop, first: 5, count: 4 },
            DrawRange { mode: LineMode::LineStrip, first: 9, count: 2 },
        ]
    );
    assert_eq!(b.grow_for_upload(), None);
    b.clear();
    assert_eq!(b.vertex_count, 0);
    assert!(b.draws.is_empty());
}

#[test]
fn line_batch_grows_its_buffer() {
    let mut b = LineBatch::new();
    assert!(b.add_polyline(43, false));
    assert_eq!(b.grow_for_upload(), Some(1024));
    assert_eq!(b.capacity, 1024);
    assert!(b.add_polyline(1000, false));
    assert_eq!(b.grow_for_upload(), Some(2086));
    assert_eq!(b.grow_for_upload(), None);
}

#[test]
fn capsule_indices_stay_within_the_vertices() {
    let idx = capsule_indices(2, 3);
    assert_eq!(idx.len(), 6 * 3 * (2 * 2 + 1));
    let vertices = (2 * 2 + 4) * (3 + 1);
    assert!(idx.iter().all(|&i| i < vertices));
    assert_eq!(&idx[0..6], &[0, 4, 1, 1, 4, 5]);
    // The cylinder starts after the top half sphere's three rows.
    assert_eq!(&idx[36..42], &[12, 16, 13, 13, 16, 17]);
    // The bottom half sphere starts after the cylinder's two rows.
    assert_eq!(&idx[54..60], &[20, 24, 21, 21, 24, 25]);
    assert!(capsule_indices(0, 0).is_empty());
}

#[test]
fn navmesh_triangles_come_in_threes() {
    let tris = navmesh_triangle_indices(&vec![0, 1, 2, 2, 1, 3], 3);
    assert_eq!(tris, vec![[0, 1, 2], [2, 1, 3]]);
    assert!(navmesh_triangle_indices(&vec![], 6).is_empty());
    assert_eq!(navmesh_triangle_indices(&vec![4, 5, 6], 6), vec![[4, 5, 6]]);
}

#[test]
fn grid_marks_major_lines() {
    let marks = grid_lines(2, 2);
    assert_eq!(marks, vec![(-2, true), (-1, false), (0, true), (1, false), (2, true)]);
    assert_eq!(grid_lines(0, 10), vec![(-1, false), (0, true), (1, false)]);
    assert_eq!(grid_lines(3, -3), vec![(-3, true), (-2, false), (-1, false), (0, true), (1, false), (2, false), (3, true)]);
}

#[test]
fn mouse_gestures_on_slots() {
    let slot = ContainerSlot::Inventory(2);
    assert_eq!(InteractEvent::from_input(false, true, true, true, 1, slot), None);
    assert_eq!(
        InteractEvent::from_input(true, true, true, false, 1, slot),
        Some(InteractEvent { entity: 1, slot, mode: InteractMode::RightClick })
    );
    assert_eq!(
        InteractEvent::from_input(true, false, true, true, 1, slot).map(|e| e.mode),
        Some(InteractMode::DoubleClick)
    );
    assert_eq!(
        InteractEvent::from_input(true, false, false, true, 1, slot).map(|e| e.mode),
        Some(InteractMode::Drag)
    );
    assert_eq!(InteractEvent::from_input(true, false, false, false, 1, slot), None);
}

#[test]
fn item_button_labels() {
    assert_eq!(item_short_name("Longsword"), "Lon");
    assert_eq!(item_short_name("Potion of Healing"), "Pot\nof\nHea");
    assert_eq!(item_short_name("  Big   Axe "), "Big\nAxe");
    assert_eq!(item_short_name(""), "");
    assert_eq!(item_short_name("Ünïcödé ring"), "Ünï\nrin");
}

#[test]
fn inventory_grid() {
    assert_eq!(inventory_slots(0), 8);
    assert_eq!(inventory_slots(7), 8);
    assert_eq!(inventory_slots(8), 16);
    assert!(slot_continues_row(0, 16));
    assert!(!slot_continues_row(7, 16));
    assert!(!slot_continues_row(15, 16));
}

#[test]
fn spellbook_panel() {
    let spells = vec![
        SpellEntry { id: 1, level: 0, prepared: false },
        SpellEntry { id: 2, level: 1, prepared: true },
        SpellEntry { id: 3, level: 3, prepared: false },
        SpellEntry { id: 4, level: 1, prepared: false },
    ];
    let c = cantrips(&spells);
    assert_eq!(c.len(), 1);
    assert_eq!(c[0].id, 1);
    let rows = spell_table(&spells, &vec![(1, 2, 4), (3, 0, 2)]);
    assert_eq!(rows.len(), 3);
    assert_eq!(rows[0].level, 1);
    assert_eq!(rows[0].spells.iter().map(|s| s.id).collect::<Vec<_>>(), vec![2, 4]);
    assert_eq!(rows[0].slots, "2/4");
    assert!(rows[1].spells.is_empty());
    assert_eq!(rows[1].slots, "0/0");
    assert_eq!(rows[2].slots, "0/2");
    assert!(spell_table(&vec![], &vec![]).is_empty());
    assert_eq!(empty_prepared_places(1, 3), 2);
    assert_eq!(empty_prepared_places(4, 3), 0);
    assert_eq!(click_action(RenderMode::Editable, SpellArea::Table, 4), Some(SpellbookUiAction::Prepare(4)));
    assert_eq!(click_action(RenderMode::Editable, SpellArea::Prepared, 2), Some(SpellbookUiAction::Unprepare(2)));
    assert_eq!(click_action(RenderMode::ReadOnly, SpellArea::Table, 4), None);
    assert_eq!(click_action(RenderMode::Editable, SpellArea::Cantrips, 1), None);
}

#[test]
fn sheets() {
    let full = creature_sheet(CreatureRenderMode::Full);
    let titles: Vec<&str> = full.iter().map(|t| t.0).collect();
    assert_eq!(titles, vec!["Overview", "Effects", "Skills", "Inventory", "Spellbook", "Resources"]);
    let compact = creature_sheet(CreatureRenderMode::Compact);
    assert_eq!(compact.len(), 1);
    assert_eq!(compact[0].1.last(), Some(&SheetPart::Conditions));
    assert_eq!(
        character_sheet(CharacterRenderMode::Compact),
        vec![SheetPart::Name, SheetPart::Levels, SheetPart::HitPoints]
    );
}

#[test]
fn log_timestamps() {
    assert_eq!(
        FixedMillisUtcTime::format_time(0, 5),
        Some("1970-01-01T00:00:00.005Z".to_string())
    );
    assert_eq!(
        FixedMillisUtcTime::format_time(1_714_566_896, 789),
        Some("2024-05-01T12:34:56.789Z".to_string())
    );
    assert_eq!(FixedMillisUtcTime::format_time(u64::MAX, 0), None);
    assert_eq!(FixedMillisUtcTime::stamp_with_millis("x", 42), "x.042Z");
}

#[test]
fn effects_are_grouped_by_duration() {
    let keys = vec![2, 1, 2, 0];
    assert_eq!(order_by_duration(&keys), vec![3, 1, 0, 2]);
    assert_eq!(
        effects_table(&keys),
        vec![
            EffectRow::Duration(3),
            EffectRow::Effect(3),
            EffectRow::Duration(1),
            EffectRow::Effect(1),
            EffectRow::Duration(0),
            EffectRow::Effect(0),
            EffectRow::Effect(2),
        ]
    );
    assert!(effects_table(&vec![]).is_empty());
}

#[test]
fn skills_are_grouped_under_abilities() {
    let abilities = vec![Ability::Strength, Ability::Dexterity, Ability::Dexterity, Ability::Charisma];
    assert_eq!(
        skill_table(&abilities),
        vec![
            SkillRow::Heading(Ability::Strength),
            SkillRow::Skill(0),
            SkillRow::Heading(Ability::Dexterity),
            SkillRow::Skill(1),
            SkillRow::Skill(2),
            SkillRow::Heading(Ability::Charisma),
            SkillRow::Skill(3),
        ]
    );
    assert_eq!(skill_table(&vec![Ability::Charisma]), vec![SkillRow::Skill(0)]);
    assert_eq!(budget_label(2, 3), "2/3");
}

#[test]
fn double_clicks_move_items() {
    let e = |slot, mode| InteractEvent { entity: 1, slot, mode };
    assert_eq!(inventory_command(e(ContainerSlot::Loadout(2), InteractMode::DoubleClick)), Some(InventoryCommand::Unequip(2)));
    assert_eq!(inventory_command(e(ContainerSlot::Inventory(4), InteractMode::DoubleClick)), Some(InventoryCommand::Equip(4)));
    assert_eq!(inventory_command(e(ContainerSlot::Inventory(4), InteractMode::Drag)), None);
    assert_eq!(inventory_command(e(ContainerSlot::Loadout(0), InteractMode::RightClick)), None);
}
