use nat20_gui::combat::TargetInstance;
use nat20_gui::log_text::{
    action_performed_lines, action_performed_segments, action_requested_lines, d20_check_segments,
    damage_roll_segments, encounter_title, event_description_segments, event_entry,
    reaction_triggered_lines, round_title, target_lines, ActionResultKind, ActionResultText,
    DamageComponentText, DcText, EventDescription, EventText, LogEntry,
};
use nat20_gui::text::{DamageType, LifeState, Segment, TextKind, TextLine};

fn seg(text: &str, kind: TextKind) -> Segment {
    (text.to_string(), kind)
}

fn names(v: &[&str]) -> Vec<String> {
    v.iter().map(|s| s.to_string()).collect()
}

#[test]
fn performed_action_names_a_single_other_target() {
    let on_goblin = action_performed_segments(1, "Aria", "Fire Bolt", &vec![TargetInstance::Entity(2)], "Goblin");
    assert_eq!(
        on_goblin,
        vec![
            seg("Aria", TextKind::Actor),
            seg("used", TextKind::Normal),
            seg("Fire Bolt", TextKind::Action),
            seg("on", TextKind::Normal),
            seg("Goblin", TextKind::Target),
        ]
    );
    let on_self = action_performed_segments(1, "Aria", "Second Wind", &vec![TargetInstance::Entity(1)], "Aria");
    assert_eq!(on_self.len(), 3);
    let on_two = action_performed_segments(
        1,
        "Aria",
        "Magic Missile",
        &vec![TargetInstance::Entity(2), TargetInstance::Entity(3)],
        "Goblin",
    );
    assert_eq!(on_two.len(), 3);
    let on_point = action_performed_segments(1, "Aria", "Fireball", &vec![TargetInstance::Point(7)], "point at (1, 0, 2)");
    assert_eq!(on_point[4], seg("point at (1, 0, 2)", TextKind::Target));
}

#[test]
fn requested_action_lists_targets_and_response() {
    let lines = action_requested_lines(
        1,
        "Aria",
        "Magic Missile",
        &vec![TargetInstance::Entity(2), TargetInstance::Entity(3), TargetInstance::Entity(2)],
        &names(&["Goblin", "Orc", "Goblin"]),
        None,
    );
    let expected: Vec<TextLine> = vec![
        (
            0,
            vec![
                seg("Aria", TextKind::Actor),
                seg("is using", TextKind::Normal),
                seg("Magic Missile", TextKind::Action),
                seg("on", TextKind::Normal),
            ],
        ),
        (1, vec![seg("Goblin", TextKind::Target)]),
        (1, vec![seg("Orc", TextKind::Target)]),
    ];
    assert_eq!(lines, expected);

    let trigger = EventDescription::Request { actor: "Goblin".to_string(), action: "Attack".to_string() };
    let reaction = action_requested_lines(
        1,
        "Aria",
        "Shield",
        &vec![TargetInstance::Entity(1)],
        &names(&["Aria"]),
        Some(&trigger),
    );
    assert_eq!(
        reaction,
        vec![(
            0,
            vec![
                seg("Aria", TextKind::Actor),
                seg("is using", TextKind::Normal),
                seg("Shield", TextKind::Action),
                seg("as a response to", TextKind::Normal),
                seg("Goblin's", TextKind::Actor),
                seg("Attack", TextKind::Action),
            ],
        )]
    );

    let single = action_requested_lines(1, "Aria", "Shove", &vec![TargetInstance::Entity(2)], &names(&["Orc"]), None);
    assert_eq!(single[0].1.last().unwrap(), &seg("Orc", TextKind::Target));
    assert_eq!(single.len(), 1);
}

#[test]
fn reactions_name_their_reactors() {
    let trigger = EventDescription::Other { text: "\"MovementPerformed\"".to_string() };
    assert_eq!(event_description_segments(&trigger), vec![seg("\"MovementPerformed\"", TextKind::Details)]);
    let lines = reaction_triggered_lines(&trigger, &vec![5], &names(&["Guard"]));
    assert_eq!(
        lines,
        vec![(
            0,
            vec![
                seg("\"MovementPerformed\"", TextKind::Details),
                seg("triggered a reaction from", TextKind::Normal),
                seg("Guard", TextKind::Target),
            ],
        )]
    );
    let none = target_lines(vec![seg("x", TextKind::Normal)], &vec![], &vec![]);
    assert_eq!(none, vec![(0, vec![seg("x", TextKind::Normal)])]);
}

#[test]
fn d20_checks_and_damage_rolls() {
    let save = d20_check_segments("Orc", false, &DcText::SavingThrow { ability: "Dexterity".to_string() });
    assert_eq!(
        save,
        vec![
            seg("Orc", TextKind::Actor),
            seg("failed a", TextKind::Normal),
            seg("Dexterity", TextKind::Ability),
            seg("saving throw", TextKind::Normal),
        ]
    );
    let check = d20_check_segments("Orc", true, &DcText::Skill { skill: "Athletics".to_string() });
    assert_eq!(check[1], seg("succeeded a", TextKind::Normal));
    assert_eq!(check[3], seg("check", TextKind::Normal));
    let attack = d20_check_segments("Orc", true, &DcText::AttackRoll { target: "Aria".to_string() });
    assert_eq!(&attack[2..], &[seg("attack roll against", TextKind::Normal), seg("Aria", TextKind::Actor)]);
    assert_eq!(
        damage_roll_segments("Orc", 12),
        vec![
            seg("Orc", TextKind::Details),
            seg("rolled", TextKind::Details),
            seg("12", TextKind::Details),
            seg("damage", TextKind::Details),
        ]
    );
}

#[test]
fn action_results_follow_the_action_line() {
    let results = vec![
        ActionResultText {
            performer: "Aria".to_string(),
            target: "Goblin".to_string(),
            kind: ActionResultKind::AttackRollDamage {
                critical_hit: true,
                critical_miss: false,
                damage_taken: Some(vec![DamageComponentText {
                    amount: 9,
                    damage_type: DamageType::Fire,
                    type_label: "Fire".to_string(),
                }]),
                new_life_state: Some(LifeState::Dead),
            },
        },
        ActionResultText {
            performer: "Aria".to_string(),
            target: "Orc".to_string(),
            kind: ActionResultKind::AttackRollDamage {
                critical_hit: false,
                critical_miss: true,
                damage_taken: None,
                new_life_state: None,
            },
        },
        ActionResultText {
            performer: "Aria".to_string(),
            target: "Aria".to_string(),
            kind: ActionResultKind::Healing { amount: 4, new_life_state: None },
        },
        ActionResultText { performer: "Aria".to_string(), target: "Aria".to_string(), kind: ActionResultKind::NoEffect },
    ];
    let lines = action_performed_lines(1, "Aria", "Fire Bolt", &vec![TargetInstance::Entity(2)], "Goblin", &results);
    let expected: Vec<TextLine> = vec![
        (
            0,
            vec![
                seg("Aria", TextKind::Actor),
                seg("used", TextKind::Normal),
                seg("Fire Bolt", TextKind::Action),
                seg("on", TextKind::Normal),
                seg("Goblin", TextKind::Target),
            ],
        ),
        (
            1,
            vec![
                seg("Goblin", TextKind::Target),
                seg("was hit for", TextKind::Normal),
                seg("9 Fire damage", TextKind::Damage(DamageType::Fire)),
                seg("(Critical Hit!)", TextKind::Details),
            ],
        ),
        (1, vec![seg("Goblin", TextKind::Target), seg("was killed by", TextKind::Normal), seg("Aria", TextKind::Actor)]),
        (
            1,
            vec![
                seg("Orc", TextKind::Target),
                seg("was not hit", TextKind::Normal),
                seg("(Critical Miss!)", TextKind::Details),
            ],
        ),
        (
            1,
            vec![
                seg("Aria", TextKind::Target),
                seg("was healed for", TextKind::Normal),
                seg("4 HP", TextKind::Healing),
                seg("with no effect", TextKind::Normal),
            ],
        ),
    ];
    assert_eq!(lines, expected);

    let cancel = vec![ActionResultText {
        performer: "Aria".to_string(),
        target: "Goblin".to_string(),
        kind: ActionResultKind::CancelEvent {
            event: EventDescription::Request { actor: "Goblin".to_string(), action: "Attack".to_string() },
        },
    }];
    let lines = action_performed_lines(1, "Aria", "Counter", &vec![], "", &cancel);
    assert_eq!(
        lines[1],
        (
            0,
            vec![
                seg("\tcancelling", TextKind::Normal),
                seg("Goblin's", TextKind::Actor),
                seg("Attack", TextKind::Action),
            ],
        )
    );
}

#[test]
fn events_become_log_entries() {
    assert_eq!(encounter_title(3), "Encounter 3");
    assert_eq!(round_title(12), "Round 12");
    match event_entry(&EventText::EncounterStarted { id: 3 }) {
        LogEntry::Separator(t) => assert_eq!(t, "Encounter 3"),
        _ => panic!("expected a separator"),
    }
    match event_entry(&EventText::D20Check { entity: "Orc".to_string(), success: true, dc: None }) {
        LogEntry::Lines(l) => assert!(l.is_empty()),
        _ => panic!("expected lines"),
    }
    match event_entry(&EventText::LifeStateChanged {
        entity: "Orc".to_string(),
        new_state: LifeState::Stable,
        caused_by: None,
    }) {
        LogEntry::Lines(l) => assert_eq!(
            l,
            vec![(0, vec![seg("Orc", TextKind::Target), seg("was stabilized", TextKind::Normal)])]
        ),
        _ => panic!("expected lines"),
    }
    match event_entry(&EventText::EncounterEnded { id: 9 }) {
        LogEntry::EncounterLog { id } => assert_eq!(id, 9),
        _ => panic!("expected the encounter log"),
    }
}
