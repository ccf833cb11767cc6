use nat20_gui::combat::TargetingKind;
use nat20_gui::text::{
    d20_roll_segments, targeting_label, RollMode,
    ability_score_segments, class_levels_line, effect_gained_segments, healing_segments,
    miss_explanation, no_damage_segments,
    decimal_string, life_state_segments, modifier_set_lines, modifier_text,
    modifier_tooltip_lines, new_life_state_text, roman_numeral, rust_doc_to_str, sign,
    signed_decimal_string, spell_level_roman_numeral, split_text, LifeState,
    ModifierSetRenderMode, TextKind,
};

fn texts(segments: &[(String, TextKind)]) -> Vec<(&str, TextKind)> {
    segments.iter().map(|(s, k)| (s.as_str(), *k)).collect()
}

#[test]
fn sign_of_zero_is_plus() {
    assert_eq!(sign(0), "+");
    assert_eq!(sign(5), "+");
    assert_eq!(sign(-3), "-");
}

#[test]
fn roman_numerals_of_levels() {
    assert_eq!(roman_numeral(1), "I");
    assert_eq!(roman_numeral(4), "IV");
    assert_eq!(roman_numeral(9), "IX");
    assert_eq!(spell_level_roman_numeral(0), "Cantrips");
    assert_eq!(spell_level_roman_numeral(3), "III");
}

#[test]
fn decimal_digits() {
    assert_eq!(decimal_string(0), "0");
    assert_eq!(decimal_string(1234567), "1234567");
    assert_eq!(decimal_string(u64::MAX), u64::MAX.to_string());
    assert_eq!(signed_decimal_string(-42), "-42");
    assert_eq!(signed_decimal_string(i32::MIN), i32::MIN.to_string());
    assert_eq!(signed_decimal_string(7), "7");
}

#[test]
fn modifier_texts() {
    assert_eq!(modifier_text(2, true), "+ 2");
    assert_eq!(modifier_text(-1, true), "- 1");
    assert_eq!(modifier_text(-1, false), "-1");
    assert_eq!(modifier_text(0, false), "+0");
}

#[test]
fn modifier_set_on_one_line_skips_zeros() {
    let mods = vec![
        ("Strength".to_string(), 3),
        ("Bless".to_string(), 0),
        ("Cover".to_string(), -2),
    ];
    let lines = modifier_set_lines(&mods, 1, ModifierSetRenderMode::Line);
    assert_eq!(lines.len(), 1);
    assert_eq!(lines[0].0, 0);
    assert_eq!(
        texts(&lines[0].1),
        vec![
            ("+ 3", TextKind::Normal),
            ("(Strength)", TextKind::Details),
            ("- 2", TextKind::Normal),
            ("(Cover)", TextKind::Details),
        ]
    );
}

#[test]
fn modifier_set_with_only_zeros_shows_nothing() {
    let mods = vec![("Bless".to_string(), 0)];
    assert!(modifier_set_lines(&mods, 0, ModifierSetRenderMode::Line).is_empty());
    assert!(modifier_set_lines(&mods, 0, ModifierSetRenderMode::List(2)).is_empty());
}

#[test]
fn modifier_set_as_list_and_hover() {
    let mods = vec![("Strength".to_string(), 3), ("Cover".to_string(), -2)];
    let lines = modifier_set_lines(&mods, 1, ModifierSetRenderMode::List(2));
    assert_eq!(lines.len(), 2);
    assert_eq!(lines[1].0, 2);
    assert_eq!(
        texts(&lines[1].1),
        vec![("-2", TextKind::Normal), ("Cover", TextKind::Details)]
    );
    let hover = modifier_set_lines(&mods, 1, ModifierSetRenderMode::Hoverable);
    assert_eq!(texts(&hover[0].1), vec![("+1", TextKind::Normal)]);
    let tooltip = modifier_tooltip_lines(&mods, 1);
    assert_eq!(tooltip.len(), 3);
    assert_eq!(texts(&tooltip[0].1), vec![("Total: 1", TextKind::Normal)]);
    assert_eq!(tooltip[1].0, 1);
    assert!(modifier_tooltip_lines(&Vec::new(), 0).is_empty());
}

#[test]
fn life_state_change_lines() {
    let with_actor = new_life_state_text("Goblin", &LifeState::Dead, Some("Fighter"));
    assert_eq!(
        texts(&with_actor),
        vec![
            ("Goblin", TextKind::Target),
            ("was killed by", TextKind::Normal),
            ("Fighter", TextKind::Actor),
        ]
    );
    let alone = new_life_state_text(
        "Wizard",
        &LifeState::Unconscious { successes: 0, failures: 0 },
        None,
    );
    assert_eq!(
        texts(&alone),
        vec![("Wizard", TextKind::Target), ("fell unconscious", TextKind::Normal)]
    );
}

#[test]
fn death_saves_are_drawn_as_marks() {
    let segs = life_state_segments(&LifeState::Unconscious { successes: 2, failures: 1 });
    let joined: String = segs.iter().map(|(s, _)| s.as_str()).collect();
    assert_eq!(joined, "Unconscious: [++|-]");
    assert_eq!(segs[2].1, TextKind::Green);
    assert_eq!(segs[4].1, TextKind::Red);
    assert!(life_state_segments(&LifeState::Normal).is_empty());
    assert_eq!(texts(&life_state_segments(&LifeState::Stable)), vec![("Stable", TextKind::Details)]);
}

#[test]
fn split_keeps_empty_parts() {
    assert_eq!(split_text("a..b", '.'), vec!["a", "", "b"]);
    assert_eq!(split_text("", '.'), vec![""]);
}

#[test]
fn doc_comments_become_plain_text() {
    assert_eq!(rust_doc_to_str("/// First line\n    /// Second line\n"), " First line\n Second line");
    assert_eq!(rust_doc_to_str(""), "");
    assert_eq!(rust_doc_to_str("//! a\r\n//b"), "! a\nb");
    assert_eq!(rust_doc_to_str("\u{3000}\t/// wide \u{00a0}"), " wide");
}

#[test]
fn class_levels_are_listed() {
    let classes = vec![(3u8, "Fighter".to_string()), (1u8, "Evoker".to_string())];
    assert_eq!(class_levels_line(&classes), "Level 3 Fighter, Level 1 Evoker");
    assert_eq!(class_levels_line(&Vec::new()), "");
}

#[test]
fn ability_score_header_repeats_the_sign() {
    let segs = ability_score_segments(15, 2);
    assert_eq!(texts(&segs), vec![("Total: 15", TextKind::Normal), ("(Modifier: +2)", TextKind::Details)]);
    let segs = ability_score_segments(8, -1);
    assert_eq!(texts(&segs)[1], ("(Modifier: --1)", TextKind::Details));
}

#[test]
fn action_result_lines() {
    assert_eq!(
        texts(&no_damage_segments("Goblin", "was not hit", true)),
        vec![("Goblin", TextKind::Target), ("was not hit", TextKind::Normal), ("(Critical Miss!)", TextKind::Details)]
    );
    assert_eq!(no_damage_segments("Goblin", "took no damage", false).len(), 2);
    assert_eq!(
        texts(&healing_segments("Cleric", 7)),
        vec![("Cleric", TextKind::Target), ("was healed for", TextKind::Normal), ("7 HP", TextKind::Healing)]
    );
    assert_eq!(texts(&effect_gained_segments("Cleric", "Bless"))[2], ("Bless", TextKind::Effect));
    assert_eq!(miss_explanation(12, 15), "Attack did not hit. Attack roll (12) was less than Armor Class (15)");
}

#[test]
fn d20_rolls() {
    let plain = d20_roll_segments(14, (14, 0), RollMode::Normal, false, false);
    assert_eq!(texts(&plain), vec![("14", TextKind::Normal), ("(1d20)", TextKind::Details)]);
    let adv = d20_roll_segments(20, (20, 3), RollMode::Advantage, true, false);
    assert_eq!(
        texts(&adv),
        vec![
            ("20", TextKind::Normal),
            ("(1d20)", TextKind::Details),
            (" (20, 3, Advantage)", TextKind::Details),
            ("(Critical Success!)", TextKind::Normal),
        ]
    );
    let fail = d20_roll_segments(1, (1, 9), RollMode::Disadvantage, false, true);
    assert_eq!(fail.last().unwrap().0, "(Critical Failure!)");
}

#[test]
fn targeting_labels() {
    assert_eq!(targeting_label(TargetingKind::SelfTarget).as_deref(), Some("Self Target"));
    assert_eq!(targeting_label(TargetingKind::Single).as_deref(), Some("Single Target"));
    assert_eq!(targeting_label(TargetingKind::Multiple { max_targets: 3 }).as_deref(), Some("3 Targets"));
    assert_eq!(targeting_label(TargetingKind::Area), None);
}
