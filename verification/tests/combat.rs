use nat20_gui::combat::{
    is_new_target, should_render_target_preview,
    is_offered, is_usable, offered_actions, pick_targets, ActionBarState, ActionBarWindow,
    ActionData, ActionDecision, ActionDecisionProgress, ActionEntry, ActionPrompt, ContextOption,
    EncounterWindow, EncounterWindowState, TargetInput, TargetInstance, TargetingKind,
};
use nat20_gui::event_log::{
    events_match, is_self_target, target_entities, visible_events, D20ResultKind, EventKind, LogLevel,
};

fn ctx(context: u64, costs_reaction: bool, usable: bool) -> ContextOption {
    ContextOption { context, cost: context * 10, costs_reaction, usable }
}

fn entry(action_id: u64, is_reaction: bool, contexts: Vec<ContextOption>) -> ActionEntry {
    ActionEntry { action_id, is_reaction, contexts }
}

fn input() -> TargetInput {
    TargetInput {
        ray_present: true,
        ray_hits: true,
        potential: None,
        left_click: false,
        right_click: false,
        confirm_click: false,
        cancel_click: false,
    }
}

fn data() -> ActionData {
    ActionData { actor: 1, action_id: 5, context: 0, cost: 0, targets: Vec::new() }
}

#[test]
fn the_bar_hides_reactions() {
    let actions = vec![
        entry(1, false, vec![ctx(1, false, true)]),
        entry(2, true, vec![ctx(2, false, true)]),
        entry(3, false, vec![ctx(3, true, true)]),
        entry(4, false, vec![ctx(4, true, false), ctx(5, false, false)]),
    ];
    assert_eq!(offered_actions(&actions), vec![0, 3]);
    assert!(is_offered(&actions[0]) && is_usable(&actions[0]));
    assert!(is_offered(&actions[3]) && !is_usable(&actions[3]));
}

#[test]
fn clicking_through_the_bar() {
    let actions = vec![
        entry(1, false, vec![ctx(1, false, true)]),
        entry(2, false, vec![ctx(2, false, true), ctx(3, false, true)]),
        entry(4, false, vec![ctx(4, false, false)]),
    ];
    let mut bar = ActionBarWindow::new(actions, 7);
    bar.click_action(2);
    assert!(matches!(bar.state, ActionBarState::Action { .. }));
    bar.click_action(1);
    match &bar.state {
        ActionBarState::Context { action_id, contexts } => {
            assert_eq!(*action_id, 2);
            assert_eq!(contexts.len(), 2);
        }
        _ => panic!("expected context picking"),
    }
    bar.click_context(1);
    match &bar.state {
        ActionBarState::Targets { action, potential_target } => {
            assert_eq!((action.actor, action.action_id, action.context, action.cost), (7, 2, 3, 30));
            assert!(action.targets.is_empty());
            assert!(potential_target.is_none());
        }
        _ => panic!("expected target picking"),
    }
    bar.show_actions(vec![entry(1, false, vec![ctx(1, false, true)])]);
    bar.click_action(0);
    assert!(matches!(bar.state, ActionBarState::Targets { .. }));
    assert!(bar.is_disabled(Some(8), false));
    assert!(bar.is_disabled(Some(7), true));
    assert!(!bar.is_disabled(Some(7), false));
    assert!(!bar.is_disabled(None, true));
}

#[test]
fn single_target_is_submitted_on_click() {
    let mut a = data();
    let mut i = input();
    i.potential = Some(TargetInstance::Entity(9));
    let out = pick_targets(&mut a, TargetingKind::Single, i);
    assert!(!out.submit && !out.ray_taken);
    i.left_click = true;
    let out = pick_targets(&mut a, TargetingKind::Single, i);
    assert!(out.submit && out.back_to_actions && out.ray_taken);
    assert_eq!(a.targets, vec![TargetInstance::Entity(9)]);
}

#[test]
fn self_target_uses_the_actor() {
    let mut a = data();
    let mut i = input();
    i.left_click = true;
    let out = pick_targets(&mut a, TargetingKind::SelfTarget, i);
    assert!(out.submit);
    assert_eq!(a.targets, vec![TargetInstance::Entity(1)]);
}

#[test]
fn multiple_targets_until_full() {
    let mut a = data();
    let kind = TargetingKind::Multiple { max_targets: 2 };
    let mut i = input();
    i.potential = Some(TargetInstance::Entity(3));
    i.left_click = true;
    let out = pick_targets(&mut a, kind, i);
    assert!(!out.submit && out.ray_taken);
    i.potential = Some(TargetInstance::Point(8));
    let out = pick_targets(&mut a, kind, i);
    assert!(out.submit);
    assert_eq!(a.targets, vec![TargetInstance::Entity(3), TargetInstance::Point(8)]);
}

#[test]
fn right_click_drops_targets_then_cancels() {
    let mut a = data();
    a.targets = vec![TargetInstance::Entity(3), TargetInstance::Entity(4)];
    let kind = TargetingKind::Multiple { max_targets: 3 };
    let mut i = input();
    i.right_click = true;
    let out = pick_targets(&mut a, kind, i);
    assert!(out.ray_taken && !out.back_to_actions);
    assert_eq!(a.targets, vec![TargetInstance::Entity(3)]);
    let out = pick_targets(&mut a, kind, i);
    assert!(a.targets.is_empty());
    assert!(out.back_to_actions && out.ray_taken && !out.submit);
}

#[test]
fn confirm_needs_a_target() {
    let mut a = data();
    let kind = TargetingKind::Multiple { max_targets: 3 };
    let mut i = input();
    i.confirm_click = true;
    i.ray_present = false;
    let out = pick_targets(&mut a, kind, i);
    assert!(!out.submit && !out.back_to_actions);
    a.targets.push(TargetInstance::Entity(2));
    let out = pick_targets(&mut a, kind, i);
    assert!(out.submit && out.back_to_actions);
    i.confirm_click = false;
    i.cancel_click = true;
    let out = pick_targets(&mut a, kind, i);
    assert!(out.back_to_actions && !out.submit);
}

#[test]
fn encounter_window_flow() {
    let mut w = EncounterWindow::new(42);
    w.toggle_participant(1);
    assert!(w.start_encounter().is_none());
    w.toggle_participant(2);
    w.toggle_participant(3);
    w.toggle_participant(2);
    assert_eq!(w.start_encounter(), Some(vec![1, 3]));
    assert!(matches!(w.state, EncounterWindowState::EncounterRunning));
    assert!(!w.finished());
    w.end_encounter();
    assert!(w.finished());
}

#[test]
fn action_decisions() {
    let p = ActionDecisionProgress::from_prompt(&ActionPrompt::Reaction { reactor: 4, action: 6, options: vec![9, 10] });
    match p.finalize() {
        ActionDecision::Reaction { reactor, action, choice } => assert_eq!((reactor, action, choice), (4, 6, Some(9))),
        _ => panic!("expected a reaction"),
    }
    let mut p = ActionDecisionProgress::from_prompt(&ActionPrompt::Action { actor: 2 });
    p.choose_action(7, &vec![11]);
    match p.finalize() {
        ActionDecision::Action { actor, action_id, context, targets } => {
            assert_eq!((actor, action_id, context), (2, 7, 11));
            assert!(targets.is_empty());
        }
        _ => panic!("expected an action"),
    }
}

#[test]
fn event_log_hides_requests_followed_by_their_result() {
    let events = vec![
        EventKind::ActionRequested { actor: 1, action_id: 2, targets: vec![] },
        EventKind::ActionPerformed { actor: 1, action_id: 2, targets: vec![] },
        EventKind::D20CheckPerformed { entity: 1, result: D20ResultKind::AttackRoll },
        EventKind::D20CheckResolved { entity: 1, result: D20ResultKind::AttackRoll },
        EventKind::D20CheckPerformed { entity: 3, result: D20ResultKind::Skill },
        EventKind::DamageRollPerformed { entity: 1 },
        EventKind::Encounter,
    ];
    assert!(events_match(&events[0], &events[1]));
    assert!(!events_match(&events[1], &events[0]));
    assert_eq!(visible_events(&events, LogLevel::Info), vec![1, 4, 6]);
    assert_eq!(visible_events(&events, LogLevel::Debug), vec![0, 1, 2, 3, 4, 5, 6]);
}

#[test]
fn log_targets() {
    let own = vec![TargetInstance::Entity(4)];
    assert!(is_self_target(&own, 4));
    assert!(!is_self_target(&own, 5));
    let mixed = vec![TargetInstance::Entity(2), TargetInstance::Point(9)];
    assert!(!is_self_target(&mixed, 2));
    assert_eq!(target_entities(&mixed, 7), vec![2, 7]);
}

#[test]
fn target_previews() {
    assert!(!should_render_target_preview(TargetingKind::SelfTarget));
    assert!(should_render_target_preview(TargetingKind::Area));
    assert!(is_new_target(None, TargetInstance::Entity(1)));
    assert!(!is_new_target(Some(TargetInstance::Entity(1)), TargetInstance::Entity(1)));
    assert!(is_new_target(Some(TargetInstance::Point(1)), TargetInstance::Entity(1)));
}
