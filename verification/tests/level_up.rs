use nat20_gui::creation::{click_creation_skill, sync_pending_decisions};
use nat20_gui::level_up::{
    prompts_equal, reconcile_pending, Ability, AbilityDefaults, CharacterSnapshot, ChoiceItem,
    ChoiceSpec, LevelUpDecision, LevelUpDecisionProgress, LevelUpPrompt,
    LevelUpPromptWithProgress, ABILITY_COUNT, SKILL_COUNT,
};
use nat20_gui::text::ProficiencyLevel;

fn item(id: u64, is_class: bool) -> ChoiceItem {
    ChoiceItem { id, is_class }
}

fn choice(id: &str, options: Vec<ChoiceItem>, picks: u8) -> LevelUpPrompt {
    LevelUpPrompt::Choice(ChoiceSpec { id: id.to_string(), options, picks })
}

fn fresh_snapshot() -> CharacterSnapshot {
    CharacterSnapshot {
        total_level: 0,
        latest_class: None,
        class_defaults: None,
        ability_totals: vec![10; ABILITY_COUNT],
        skill_proficiencies: vec![ProficiencyLevel::Untrained; SKILL_COUNT],
    }
}

fn leveled_snapshot() -> CharacterSnapshot {
    CharacterSnapshot {
        total_level: 3,
        latest_class: Some(item(7, true)),
        class_defaults: Some(AbilityDefaults {
            scores: vec![Some(15), Some(14), Some(13), Some(12), Some(10), Some(8)],
            plus_2_bonus: Ability::Strength,
            plus_1_bonus: Ability::Constitution,
        }),
        ability_totals: vec![16, 14, 13, 12, 10, 8],
        skill_proficiencies: vec![ProficiencyLevel::Untrained; SKILL_COUNT],
    }
}

fn decisions_of(p: &LevelUpPromptWithProgress) -> Vec<u64> {
    match &p.progress {
        LevelUpDecisionProgress::Choice { decisions, .. } => decisions.iter().map(|d| d.id).collect(),
        _ => panic!("expected a choice"),
    }
}

#[test]
fn ability_indices_round_trip() {
    for i in 0..ABILITY_COUNT {
        assert_eq!(Ability::from_index(i).index(), i);
    }
    assert_eq!(Ability::Charisma.index(), 5);
}

#[test]
fn a_single_pick_is_replaced() {
    let prompt = choice("class", vec![item(1, true), item(2, true)], 1);
    let mut p = LevelUpPromptWithProgress::new(prompt, &fresh_snapshot());
    assert!(p.progress.is_empty());
    p.click_choice_option(0);
    assert_eq!(decisions_of(&p), vec![1]);
    p.click_choice_option(1);
    assert_eq!(decisions_of(&p), vec![2]);
    assert!(p.progress.is_complete());
    p.reset();
    assert!(p.progress.is_empty());
}

#[test]
fn several_picks_toggle_up_to_the_limit() {
    let prompt = choice("styles", vec![item(1, false), item(2, false), item(3, false)], 2);
    let mut p = LevelUpPromptWithProgress::new(prompt, &fresh_snapshot());
    p.click_choice_option(0);
    p.click_choice_option(1);
    p.click_choice_option(2);
    assert_eq!(decisions_of(&p), vec![1, 2]);
    assert!(p.progress.is_complete());
    p.click_choice_option(0);
    assert_eq!(decisions_of(&p), vec![2]);
    assert!(!p.progress.is_complete());
    match p.progress.finalize() {
        LevelUpDecision::Choice { id, selected } => {
            assert_eq!(id, "styles");
            assert_eq!(selected, vec![item(2, false)]);
        }
        _ => panic!("expected a choice"),
    }
}

#[test]
fn class_choices_default_to_the_latest_class() {
    let prompt = choice("class", vec![item(7, true), item(8, true)], 1);
    let p = LevelUpPromptWithProgress::new(prompt, &leveled_snapshot());
    assert_eq!(decisions_of(&p), vec![7]);
}

#[test]
fn skills_respect_the_count() {
    let mut options = vec![false; SKILL_COUNT];
    options[1] = true;
    options[2] = true;
    options[3] = true;
    let mut snap = fresh_snapshot();
    snap.total_level = 1;
    snap.latest_class = Some(item(7, true));
    snap.skill_proficiencies[3] = ProficiencyLevel::Proficient;
    let prompt = LevelUpPrompt::SkillProficiency { options, count: 1, source: 0 };
    let mut p = LevelUpPromptWithProgress::new(prompt, &snap);
    p.click_skill(3);
    p.click_skill(0);
    assert!(p.progress.is_empty());
    p.click_skill(1);
    p.click_skill(2);
    assert!(p.progress.is_complete());
    match &p.progress {
        LevelUpDecisionProgress::SkillProficiency { selected, remaining_decisions, .. } => {
            assert_eq!(selected, &vec![1]);
            assert_eq!(*remaining_decisions, 0);
        }
        _ => panic!("expected skills"),
    }
    p.click_skill(1);
    assert!(p.progress.is_empty());
}

#[test]
fn point_buy_spends_the_budget() {
    let costs = vec![0, 1, 2, 3, 4, 5, 7, 9];
    let prompt = LevelUpPrompt::AbilityScores { costs, budget: 27 };
    let mut p = LevelUpPromptWithProgress::new(prompt, &fresh_snapshot());
    p.refresh_point_buy();
    match &p.progress {
        LevelUpDecisionProgress::AbilityScores { assignments, remaining_budget, .. } => {
            assert_eq!(assignments, &vec![Some(8); 6]);
            assert_eq!(*remaining_budget, 27);
        }
        _ => panic!("expected a point-buy"),
    }
    for _ in 0..7 {
        p.increase_ability(Ability::Strength);
    }
    p.decrease_ability(Ability::Wisdom);
    match &p.progress {
        LevelUpDecisionProgress::AbilityScores { assignments, remaining_budget, .. } => {
            assert_eq!(assignments[0], Some(15));
            assert_eq!(assignments[4], Some(8));
            assert_eq!(*remaining_budget, 18);
        }
        _ => panic!("expected a point-buy"),
    }
    p.toggle_plus_2_bonus(Ability::Strength);
    p.toggle_plus_1_bonus(Ability::Strength);
    match &p.progress {
        LevelUpDecisionProgress::AbilityScores { plus_2_bonus, plus_1_bonus, .. } => {
            assert_eq!(*plus_2_bonus, None);
            assert_eq!(*plus_1_bonus, Some(Ability::Strength));
        }
        _ => panic!("expected a point-buy"),
    }
    assert!(!p.progress.is_complete());
    p.clear_abilities();
    match &p.progress {
        LevelUpDecisionProgress::AbilityScores { assignments, remaining_budget, plus_2_bonus, plus_1_bonus } => {
            assert_eq!(assignments, &vec![Some(8); 6]);
            assert_eq!(*remaining_budget, 27);
            assert!(plus_2_bonus.is_none() && plus_1_bonus.is_none());
        }
        _ => panic!("expected a point-buy"),
    }
}

#[test]
fn point_buy_starts_from_the_class_defaults() {
    let costs = vec![0, 1, 2, 3, 4, 5, 7, 9];
    let prompt = LevelUpPrompt::AbilityScores { costs, budget: 27 };
    let p = LevelUpPromptWithProgress::new(prompt, &leveled_snapshot());
    assert!(p.progress.is_complete());
    match p.progress.finalize() {
        LevelUpDecision::AbilityScores { scores, plus_2_bonus, plus_1_bonus } => {
            assert_eq!(scores[0], Some(15));
            assert_eq!(plus_2_bonus, Ability::Strength);
            assert_eq!(plus_1_bonus, Ability::Constitution);
        }
        _ => panic!("expected a point-buy"),
    }
}

#[test]
fn ability_score_improvement_points() {
    let prompt = LevelUpPrompt::AbilityScoreImprovement {
        feat: 1,
        budget: 2,
        abilities: vec![true; ABILITY_COUNT],
        max_score: 20,
    };
    let mut p = LevelUpPromptWithProgress::new(prompt, &leveled_snapshot());
    p.refresh_improvement();
    p.increase_improvement(Ability::Strength);
    p.increase_improvement(Ability::Strength);
    p.increase_improvement(Ability::Dexterity);
    assert!(p.progress.is_complete());
    match &p.progress {
        LevelUpDecisionProgress::AbilityScoreImprovement { assignments, remaining_points, .. } => {
            assert_eq!(assignments[0], Some(2));
            assert_eq!(assignments[1], Some(0));
            assert_eq!(*remaining_points, 0);
        }
        _ => panic!("expected an improvement"),
    }
    p.decrease_improvement(Ability::Strength);
    assert!(!p.progress.is_complete());
    p.reset_improvement();
    assert!(p.progress.is_empty());
}

#[test]
fn prompts_compare_by_content() {
    let a = choice("x", vec![item(1, false)], 1);
    let b = choice("x", vec![item(1, false)], 1);
    let c = choice("x", vec![item(2, false)], 1);
    assert!(prompts_equal(&a, &b));
    assert!(!prompts_equal(&a, &c));
}

#[test]
fn replaying_keeps_accepted_choices_and_adds_new_prompts() {
    let snap = fresh_snapshot();
    let mut done = LevelUpPromptWithProgress::new(choice("a", vec![item(1, false)], 1), &snap);
    done.click_choice_option(0);
    let mut refused = LevelUpPromptWithProgress::new(choice("b", vec![item(2, false)], 1), &snap);
    refused.click_choice_option(0);
    let open = LevelUpPromptWithProgress::new(choice("c", vec![item(3, false)], 1), &snap);
    let pending = vec![done, refused, open];
    let prompts = vec![choice("c", vec![item(3, false)], 1), choice("d", vec![item(4, false)], 1)];
    let r = reconcile_pending(pending, &vec![true, false], prompts, &snap);
    let ids: Vec<String> = r
        .iter()
        .map(|p| match &p.prompt {
            LevelUpPrompt::Choice(spec) => spec.id.clone(),
            _ => String::new(),
        })
        .collect();
    assert_eq!(ids, vec!["a", "c", "d"]);

    let mut done = LevelUpPromptWithProgress::new(choice("a", vec![item(1, false)], 1), &snap);
    done.click_choice_option(0);
    let open = LevelUpPromptWithProgress::new(choice("c", vec![item(3, false)], 1), &snap);
    let r = sync_pending_decisions(
        vec![done, open],
        &vec![true],
        vec![choice("a", vec![item(1, false)], 1), choice("c", vec![item(3, false)], 1)],
    );
    assert_eq!(r.len(), 2);
    assert!(r[0].progress.is_complete());
    assert!(r[1].progress.is_empty());
}

#[test]
fn creation_skills_fill_up_to_the_count() {
    let mut selected: Vec<u8> = Vec::new();
    let mut remaining: u8 = 2;
    click_creation_skill(&mut selected, &mut remaining, 2, 4);
    click_creation_skill(&mut selected, &mut remaining, 2, 7);
    assert_eq!((selected.clone(), remaining), (vec![4, 7], 0));
    // No room for a third skill.
    click_creation_skill(&mut selected, &mut remaining, 2, 9);
    assert_eq!((selected.clone(), remaining), (vec![4, 7], 0));
    // Unchecking gives the pick back.
    click_creation_skill(&mut selected, &mut remaining, 2, 4);
    assert_eq!((selected.clone(), remaining), (vec![7], 1));
}
