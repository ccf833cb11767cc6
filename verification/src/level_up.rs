//! The level-up decisions of a character: what the player has picked so far
//! for each prompt of the level-up session, and how each click changes it.
use vstd::prelude::*;
use crate::text::ProficiencyLevel;

verus! {

/// Number of abilities a character has.
pub const ABILITY_COUNT: usize = 6;

/// Number of skills a character has.
pub const SKILL_COUNT: usize = 18;

/// Lowest score a point-buy ability can have.
pub const POINT_BUY_MIN: u8 = 8;

/// Highest score a point-buy ability can be raised to.
pub const POINT_BUY_MAX: u8 = 15;

/// The six abilities, in the order the engine lists them.
#[derive(Clone, Copy, Debug, PartialEq, Eq, Structural)]
pub enum Ability {
    Strength,
    Dexterity,
    Constitution,
    Intelligence,
    Wisdom,
    Charisma,
}

/// Position of an ability in per-ability tables.
pub open spec fn ability_index(a: Ability) -> int {
    match a {
        Ability::Strength => 0,
        Ability::Dexterity => 1,
        Ability::Constitution => 2,
        Ability::Intelligence => 3,
        Ability::Wisdom => 4,
        Ability::Charisma => 5,
    }
}

impl Ability {
    /// Position of this ability in per-ability tables.
    pub fn index(self) -> (i: usize)
        ensures
            i as int == ability_index(self),
            i < ABILITY_COUNT,
    {
        match self {
            Ability::Strength => 0,
            Ability::Dexterity => 1,
            Ability::Constitution => 2,
            Ability::Intelligence => 3,
            Ability::Wisdom => 4,
            Ability::Charisma => 5,
        }
    }

    /// The ability at a position of a per-ability table.
    pub fn from_index(i: usize) -> (a: Ability)
        requires
            i < ABILITY_COUNT,
        ensures
            ability_index(a) == i as int,
    {
        match i {
            0 => Ability::Strength,
            1 => Ability::Dexterity,
            2 => Ability::Constitution,
            3 => Ability::Intelligence,
            4 => Ability::Wisdom,
            _ => Ability::Charisma,
        }
    }
}

/// Cost, in points, of raising an ability to `score` (the table starts at 8).
pub open spec fn cost_of(costs: Seq<u8>, score: int) -> int {
    costs[score - POINT_BUY_MIN] as int
}

/// A point-buy cost table covers the scores 8 to 15 and never gets cheaper.
pub open spec fn valid_cost_table(costs: Seq<u8>) -> bool {
    &&& costs.len() == 8
    &&& forall|i: int, j: int| 0 <= i <= j < 8 ==> costs[i] <= costs[j]
}

/// Total cost of the abilities that have a score assigned.
pub open spec fn assigned_cost(costs: Seq<u8>, a: Seq<Option<u8>>) -> int
    decreases a.len(),
{
    if a.len() == 0 {
        0
    } else {
        assigned_cost(costs, a.drop_last()) + match a.last() {
            Some(v) => cost_of(costs, v as int),
            Option::None => 0,
        }
    }
}

/// Every assigned score lies between 8 and 15.
pub open spec fn scores_in_range(a: Seq<Option<u8>>) -> bool {
    forall|i: int|
        0 <= i < a.len() && (#[trigger] a[i]) is Some ==> POINT_BUY_MIN <= a[i]->0 <= POINT_BUY_MAX
}

proof fn lemma_assigned_cost_nonneg(costs: Seq<u8>, a: Seq<Option<u8>>)
    ensures
        assigned_cost(costs, a) >= 0,
    decreases a.len(),
{
    if a.len() > 0 {
        lemma_assigned_cost_nonneg(costs, a.drop_last());
    }
}

proof fn lemma_assigned_cost_update(costs: Seq<u8>, a: Seq<Option<u8>>, i: int, v: Option<u8>)
    requires
        0 <= i < a.len(),
    ensures
        assigned_cost(costs, a.update(i, v)) == assigned_cost(costs, a) - match a[i] {
            Some(x) => cost_of(costs, x as int),
            Option::None => 0,
        } + match v {
            Some(x) => cost_of(costs, x as int),
            Option::None => 0,
        },
    decreases a.len(),
{
    if i == a.len() - 1 {
        assert(a.update(i, v).drop_last() =~= a.drop_last());
    } else {
        lemma_assigned_cost_update(costs, a.drop_last(), i, v);
        assert(a.update(i, v).drop_last() =~= a.drop_last().update(i, v));
    }
}

proof fn lemma_assigned_cost_bound(costs: Seq<u8>, a: Seq<Option<u8>>)
    requires
        scores_in_range(a),
        costs.len() == 8,
    ensures
        assigned_cost(costs, a) <= 255 * a.len(),
    decreases a.len(),
{
    if a.len() > 0 {
        lemma_assigned_cost_bound(costs, a.drop_last());
    }
}

/// Total point-buy cost of the assigned scores.
fn point_buy_cost(costs: &Vec<u8>, a: &Vec<Option<u8>>) -> (total: u64)
    requires
        valid_cost_table(costs@),
        scores_in_range(a@),
        a.len() <= ABILITY_COUNT,
    ensures
        total as int == assigned_cost(costs@, a@),
{
    let mut total: u64 = 0;
    let mut i: usize = 0;
    while i < a.len()
        invariant
            i <= a.len() <= ABILITY_COUNT,
            valid_cost_table(costs@),
            scores_in_range(a@),
            total as int == assigned_cost(costs@, a@.take(i as int)),
            total <= 255 * i,
        decreases a.len() - i,
    {
        assert(a@.take(i + 1).drop_last() =~= a@.take(i as int));
        match a[i] {
            Some(v) => {
                assert(a@[i as int] is Some);
                total = total + costs[(v - POINT_BUY_MIN) as usize] as u64;
            },
            Option::None => {},
        }
        i = i + 1;
    }
    assert(a@.take(a.len() as int) =~= a@);
    total
}


/// One option of a choice prompt (a class, a fighting style, a starting
/// equipment package...). `id` tells the options apart; `is_class` marks the
/// options that choose a class.
#[derive(Clone, Copy, Debug, PartialEq, Eq, Structural)]
pub struct ChoiceItem {
    pub id: u64,
    pub is_class: bool,
}

/// A prompt asking the player to pick `picks` of the `options`.
pub struct ChoiceSpec {
    pub id: String,
    pub options: Vec<ChoiceItem>,
    pub picks: u8,
}

/// What the level-up session asks the player to decide.
pub enum LevelUpPrompt {
    Choice(ChoiceSpec),
    /// Pick `count` skills among those flagged in `options` (one flag per skill).
    SkillProficiency { options: Vec<bool>, count: u8, source: u64 },
    /// Point-buy: `costs[s - 8]` is the total cost of score `s`; `budget` points to spend.
    AbilityScores { costs: Vec<u8>, budget: u8 },
    /// Spend `budget` points on the abilities flagged in `abilities`, none above `max_score`.
    AbilityScoreImprovement { feat: u64, budget: u8, abilities: Vec<bool>, max_score: u8 },
}

/// Two prompts ask for the same decision.
pub open spec fn same_prompt(a: LevelUpPrompt, b: LevelUpPrompt) -> bool {
    match a {
        LevelUpPrompt::Choice(x) => match b {
            LevelUpPrompt::Choice(y) => x.id@ == y.id@ && x.options@ == y.options@ && x.picks
                == y.picks,
            _ => false,
        },
        LevelUpPrompt::SkillProficiency { options: o1, count: c1, source: s1 } => match b {
            LevelUpPrompt::SkillProficiency { options: o2, count: c2, source: s2 } => o1@ == o2@
                && c1 == c2 && s1 == s2,
            _ => false,
        },
        LevelUpPrompt::AbilityScores { costs: k1, budget: b1 } => match b {
            LevelUpPrompt::AbilityScores { costs: k2, budget: b2 } => k1@ == k2@ && b1 == b2,
            _ => false,
        },
        LevelUpPrompt::AbilityScoreImprovement { feat: f1, budget: b1, abilities: a1, max_score: m1 } =>
        match b {
            LevelUpPrompt::AbilityScoreImprovement {
                feat: f2,
                budget: b2,
                abilities: a2,
                max_score: m2,
            } => f1 == f2 && b1 == b2 && a1@ == a2@ && m1 == m2,
            _ => false,
        },
    }
}

fn items_equal(a: &Vec<ChoiceItem>, b: &Vec<ChoiceItem>) -> (r: bool)
    ensures
        r == (a@ == b@),
{
    if a.len() != b.len() {
        return false;
    }
    let mut i: usize = 0;
    while i < a.len()
        invariant
            i <= a.len() == b.len(),
            forall|j: int| 0 <= j < i ==> a@[j] == b@[j],
        decreases a.len() - i,
    {
        if a[i] != b[i] {
            return false;
        }
        i = i + 1;
    }
    assert(a@ =~= b@);
    true
}

fn flags_equal(a: &Vec<bool>, b: &Vec<bool>) -> (r: bool)
    ensures
        r == (a@ == b@),
{
    if a.len() != b.len() {
        return false;
    }
    let mut i: usize = 0;
    while i < a.len()
        invariant
            i <= a.len() == b.len(),
            forall|j: int| 0 <= j < i ==> a@[j] == b@[j],
        decreases a.len() - i,
    {
        if a[i] != b[i] {
            return false;
        }
        i = i + 1;
    }
    assert(a@ =~= b@);
    true
}

fn bytes_equal(a: &Vec<u8>, b: &Vec<u8>) -> (r: bool)
    ensures
        r == (a@ == b@),
{
    if a.len() != b.len() {
        return false;
    }
    let mut i: usize = 0;
    while i < a.len()
        invariant
            i <= a.len() == b.len(),
            forall|j: int| 0 <= j < i ==> a@[j] == b@[j],
        decreases a.len() - i,
    {
        if a[i] != b[i] {
            return false;
        }
        i = i + 1;
    }
    assert(a@ =~= b@);
    true
}

/// Whether two prompts ask for the same decision.
pub fn prompts_equal(a: &LevelUpPrompt, b: &LevelUpPrompt) -> (r: bool)
    ensures
        r == same_prompt(*a, *b),
{
    match a {
        LevelUpPrompt::Choice(x) => match b {
            LevelUpPrompt::Choice(y) => x.id == y.id && items_equal(&x.options, &y.options)
                && x.picks == y.picks,
            _ => false,
        },
        LevelUpPrompt::SkillProficiency { options: o1, count: c1, source: s1 } => match b {
            LevelUpPrompt::SkillProficiency { options: o2, count: c2, source: s2 } => flags_equal(
                o1,
                o2,
            ) && *c1 == *c2 && *s1 == *s2,
            _ => false,
        },
        LevelUpPrompt::AbilityScores { costs: k1, budget: b1 } => match b {
            LevelUpPrompt::AbilityScores { costs: k2, budget: b2 } => bytes_equal(k1, k2) && *b1
                == *b2,
            _ => false,
        },
        LevelUpPrompt::AbilityScoreImprovement { feat: f1, budget: b1, abilities: a1, max_score: m1 } =>
        match b {
            LevelUpPrompt::AbilityScoreImprovement {
                feat: f2,
                budget: b2,
                abilities: a2,
                max_score: m2,
            } => *f1 == *f2 && *b1 == *b2 && flags_equal(a1, a2) && *m1 == *m2,
            _ => false,
        },
    }
}


/// What the player has picked so far for one prompt.
pub enum LevelUpDecisionProgress {
    Choice { id: String, decisions: Vec<ChoiceItem>, required: u8 },
    /// `selected` holds skill indices; `all_skills` the proficiency the
    /// character already has in each skill (empty when unknown).
    SkillProficiency {
        selected: Vec<u8>,
        remaining_decisions: u8,
        all_skills: Vec<ProficiencyLevel>,
    },
    /// One entry per ability; `None` where no score is assigned yet.
    AbilityScores {
        assignments: Vec<Option<u8>>,
        remaining_budget: u8,
        plus_2_bonus: Option<Ability>,
        plus_1_bonus: Option<Ability>,
    },
    /// One entry per ability in both tables; `None` where unknown or unassigned.
    AbilityScoreImprovement {
        base_scores: Vec<Option<u8>>,
        assignments: Vec<Option<u8>>,
        remaining_points: u8,
    },
}

/// A finished decision, in the form the level-up session takes it.
pub enum LevelUpDecision {
    Choice { id: String, selected: Vec<ChoiceItem> },
    SkillProficiency(Vec<u8>),
    AbilityScores { scores: Vec<Option<u8>>, plus_2_bonus: Ability, plus_1_bonus: Ability },
    AbilityScoreImprovement(Vec<Option<u8>>),
}

/// A per-ability table in which no ability has an entry.
pub open spec fn no_entries(a: Seq<Option<u8>>) -> bool {
    forall|i: int| 0 <= i < a.len() ==> (#[trigger] a[i]) is None
}

/// A per-ability table in which every ability has an entry.
pub open spec fn all_entries(a: Seq<Option<u8>>) -> bool {
    &&& a.len() == ABILITY_COUNT
    &&& forall|i: int| 0 <= i < a.len() ==> (#[trigger] a[i]) is Some
}

/// The player has made every pick the prompt asks for.
pub open spec fn progress_complete(p: LevelUpDecisionProgress) -> bool {
    match p {
        LevelUpDecisionProgress::Choice { decisions, required, .. } => decisions@.len()
            == required as nat,
        LevelUpDecisionProgress::SkillProficiency { selected, remaining_decisions, .. } =>
            remaining_decisions == 0 && selected@.len() > 0,
        LevelUpDecisionProgress::AbilityScores {
            assignments,
            remaining_budget,
            plus_2_bonus,
            plus_1_bonus,
        } => all_entries(assignments@) && remaining_budget == 0 && plus_2_bonus is Some
            && plus_1_bonus is Some,
        LevelUpDecisionProgress::AbilityScoreImprovement { assignments, remaining_points, .. } =>
            remaining_points == 0 && !no_entries(assignments@),
    }
}

/// The player has not picked anything yet.
pub open spec fn progress_empty(p: LevelUpDecisionProgress) -> bool {
    match p {
        LevelUpDecisionProgress::Choice { decisions, .. } => decisions@.len() == 0,
        LevelUpDecisionProgress::SkillProficiency { selected, .. } => selected@.len() == 0,
        LevelUpDecisionProgress::AbilityScores { assignments, .. } => no_entries(assignments@),
        LevelUpDecisionProgress::AbilityScoreImprovement { assignments, .. } => no_entries(
            assignments@,
        ),
    }
}

fn table_has_no_entries(a: &Vec<Option<u8>>) -> (r: bool)
    ensures
        r == no_entries(a@),
{
    let mut i: usize = 0;
    while i < a.len()
        invariant
            i <= a.len(),
            forall|j: int| 0 <= j < i ==> (#[trigger] a@[j]) is None,
        decreases a.len() - i,
    {
        if a[i].is_some() {
            return false;
        }
        i = i + 1;
    }
    true
}

fn table_has_all_entries(a: &Vec<Option<u8>>) -> (r: bool)
    ensures
        r == all_entries(a@),
{
    if a.len() != ABILITY_COUNT {
        return false;
    }
    let mut i: usize = 0;
    while i < a.len()
        invariant
            i <= a.len() == ABILITY_COUNT,
            forall|j: int| 0 <= j < i ==> (#[trigger] a@[j]) is Some,
        decreases a.len() - i,
    {
        if a[i].is_none() {
            return false;
        }
        i = i + 1;
    }
    true
}

/// A copy of a vector of plain values.
pub(crate) fn copy_vec<T: Copy>(v: &Vec<T>) -> (r: Vec<T>)
    ensures
        r@ == v@,
{
    let mut r: Vec<T> = Vec::new();
    let mut i: usize = 0;
    while i < v.len()
        invariant
            i <= v.len(),
            r@ == v@.take(i as int),
        decreases v.len() - i,
    {
        r.push(v[i]);
        i = i + 1;
        assert(r@ =~= v@.take(i as int));
    }
    assert(v@.take(v.len() as int) =~= v@);
    r
}

/// A copy of a string.
pub(crate) fn copy_string(s: &String) -> (r: String)
    ensures
        r@ == s@,
{
    s.clone()
}

/// A per-ability table with no entries.
pub fn empty_table() -> (t: Vec<Option<u8>>)
    ensures
        t@.len() == ABILITY_COUNT,
        no_entries(t@),
{
    let mut t: Vec<Option<u8>> = Vec::new();
    while t.len() < ABILITY_COUNT
        invariant
            t.len() <= ABILITY_COUNT,
            no_entries(t@),
        decreases ABILITY_COUNT - t.len(),
    {
        t.push(None);
    }
    t
}

impl LevelUpDecisionProgress {
    /// Whether every pick the prompt asks for has been made.
    pub fn is_complete(&self) -> (r: bool)
        ensures
            r == progress_complete(*self),
    {
        match self {
            LevelUpDecisionProgress::Choice { decisions, required, .. } => decisions.len()
                == *required as usize,
            LevelUpDecisionProgress::SkillProficiency { selected, remaining_decisions, .. } =>
                *remaining_decisions == 0 && selected.len() > 0,
            LevelUpDecisionProgress::AbilityScores {
                assignments,
                remaining_budget,
                plus_2_bonus,
                plus_1_bonus,
            } => table_has_all_entries(assignments) && *remaining_budget == 0
                && plus_2_bonus.is_some() && plus_1_bonus.is_some(),
            LevelUpDecisionProgress::AbilityScoreImprovement {
                assignments,
                remaining_points,
                ..
            } => *remaining_points == 0 && !table_has_no_entries(assignments),
        }
    }

    /// Whether nothing has been picked yet.
    pub fn is_empty(&self) -> (r: bool)
        ensures
            r == progress_empty(*self),
    {
        match self {
            LevelUpDecisionProgress::Choice { decisions, .. } => decisions.len() == 0,
            LevelUpDecisionProgress::SkillProficiency { selected, .. } => selected.len() == 0,
            LevelUpDecisionProgress::AbilityScores { assignments, .. } => table_has_no_entries(
                assignments,
            ),
            LevelUpDecisionProgress::AbilityScoreImprovement { assignments, .. } =>
                table_has_no_entries(assignments),
        }
    }

    /// The decision this progress stands for. A point-buy progress needs both
    /// bonuses chosen.
    pub fn finalize(&self) -> (d: LevelUpDecision)
        requires
            self matches LevelUpDecisionProgress::AbilityScores { plus_2_bonus, plus_1_bonus, .. }
                ==> plus_2_bonus is Some && plus_1_bonus is Some,
        ensures
            finalized(*self, d),
    {
        match self {
            LevelUpDecisionProgress::Choice { id, decisions, .. } => LevelUpDecision::Choice {
                id: copy_string(id),
                selected: copy_vec(decisions),
            },
            LevelUpDecisionProgress::SkillProficiency { selected, .. } =>
                LevelUpDecision::SkillProficiency(copy_vec(selected)),
            LevelUpDecisionProgress::AbilityScores {
                assignments,
                plus_2_bonus,
                plus_1_bonus,
                ..
            } => LevelUpDecision::AbilityScores {
                scores: copy_vec(assignments),
                plus_2_bonus: plus_2_bonus.unwrap(),
                plus_1_bonus: plus_1_bonus.unwrap(),
            },
            LevelUpDecisionProgress::AbilityScoreImprovement { assignments, .. } =>
                LevelUpDecision::AbilityScoreImprovement(copy_vec(assignments)),
        }
    }
}

/// `d` is the decision that progress `p` stands for.
pub open spec fn finalized(p: LevelUpDecisionProgress, d: LevelUpDecision) -> bool {
    match p {
        LevelUpDecisionProgress::Choice { id, decisions, .. } => d matches LevelUpDecision::Choice {
            id: i2,
            selected,
        } && i2@ == id@ && selected@ == decisions@,
        LevelUpDecisionProgress::SkillProficiency { selected, .. } => d matches LevelUpDecision::SkillProficiency(
            s2,
        ) && s2@ == selected@,
        LevelUpDecisionProgress::AbilityScores { assignments, plus_2_bonus, plus_1_bonus, .. } =>
            d matches LevelUpDecision::AbilityScores { scores, plus_2_bonus: p2, plus_1_bonus: p1 }
            && scores@ == assignments@ && plus_2_bonus == Some(p2) && plus_1_bonus == Some(p1),
        LevelUpDecisionProgress::AbilityScoreImprovement { assignments, .. } => d matches LevelUpDecision::AbilityScoreImprovement(
            a2,
        ) && a2@ == assignments@,
    }
}


/// The class defaults of the point-buy: a score per ability and the two bonuses.
pub struct AbilityDefaults {
    pub scores: Vec<Option<u8>>,
    pub plus_2_bonus: Ability,
    pub plus_1_bonus: Ability,
}

/// What the level-up window reads of the character when it opens a prompt.
pub struct CharacterSnapshot {
    /// Sum of the class levels.
    pub total_level: u8,
    /// The class most recently levelled, as a choice option.
    pub latest_class: Option<ChoiceItem>,
    /// The point-buy defaults the class registry has for that class.
    pub class_defaults: Option<AbilityDefaults>,
    /// Current total of each ability.
    pub ability_totals: Vec<i32>,
    /// Current proficiency in each skill.
    pub skill_proficiencies: Vec<ProficiencyLevel>,
}

/// Whether a choice offers a class.
pub open spec fn offers_class(options: Seq<ChoiceItem>) -> bool {
    exists|i: int| 0 <= i < options.len() && (#[trigger] options[i]).is_class
}

/// A snapshot holds one entry per ability and per skill, and names the
/// latest class wherever the defaults of a prompt need it.
pub open spec fn snapshot_fits(prompt: LevelUpPrompt, snap: CharacterSnapshot) -> bool {
    &&& snap.ability_totals@.len() == ABILITY_COUNT
    &&& snap.skill_proficiencies@.len() == SKILL_COUNT
    &&& snap.class_defaults matches Some(d) ==> d.scores@.len() == ABILITY_COUNT
    &&& snap.total_level > 0 ==> match prompt {
        LevelUpPrompt::Choice(spec) => offers_class(spec.options@) ==> snap.latest_class is Some,
        LevelUpPrompt::AbilityScores { .. } => snap.latest_class is Some,
        _ => true,
    }
}

/// `p` is the blank progress for `prompt`.
pub open spec fn blank_progress(prompt: LevelUpPrompt, p: LevelUpDecisionProgress) -> bool {
    match prompt {
        LevelUpPrompt::Choice(spec) => p matches LevelUpDecisionProgress::Choice {
            id,
            decisions,
            required,
        } && id@ == spec.id@ && decisions@.len() == 0 && required == spec.picks,
        LevelUpPrompt::SkillProficiency { count, .. } => p matches LevelUpDecisionProgress::SkillProficiency {
            selected,
            remaining_decisions,
            all_skills,
        } && selected@.len() == 0 && remaining_decisions == count && all_skills@.len() == 0,
        LevelUpPrompt::AbilityScores { budget, .. } => p matches LevelUpDecisionProgress::AbilityScores {
            assignments,
            remaining_budget,
            plus_2_bonus,
            plus_1_bonus,
        } && assignments@.len() == ABILITY_COUNT && no_entries(assignments@) && remaining_budget
            == budget && plus_2_bonus is None && plus_1_bonus is None,
        LevelUpPrompt::AbilityScoreImprovement { budget, .. } => p matches LevelUpDecisionProgress::AbilityScoreImprovement {
            base_scores,
            assignments,
            remaining_points,
        } && base_scores@.len() == ABILITY_COUNT && no_entries(base_scores@)
            && assignments@.len() == ABILITY_COUNT && no_entries(assignments@) && remaining_points
            == budget,
    }
}

/// `p` is the progress a prompt starts with for a character that already has
/// a level: the latest class is pre-selected, the class defaults fill the
/// point-buy, and the current scores and proficiencies are looked up.
pub open spec fn default_progress(
    prompt: LevelUpPrompt,
    snap: CharacterSnapshot,
    p: LevelUpDecisionProgress,
) -> bool {
    if snap.total_level == 0 {
        blank_progress(prompt, p)
    } else {
        match prompt {
            LevelUpPrompt::Choice(spec) => if offers_class(spec.options@) {
                p matches LevelUpDecisionProgress::Choice { id, decisions, required } && id@
                    == spec.id@ && decisions@ == seq![snap.latest_class->0] && required
                    == spec.picks
            } else {
                blank_progress(prompt, p)
            },
            LevelUpPrompt::AbilityScores { .. } => p matches LevelUpDecisionProgress::AbilityScores {
                assignments,
                remaining_budget,
                plus_2_bonus,
                plus_1_bonus,
            } && remaining_budget == 0 && match snap.class_defaults {
                Some(d) => assignments@ == d.scores@ && plus_2_bonus == Some(d.plus_2_bonus)
                    && plus_1_bonus == Some(d.plus_1_bonus),
                Option::None => assignments@.len() == ABILITY_COUNT && no_entries(assignments@)
                    && plus_2_bonus is None && plus_1_bonus is None,
            },
            LevelUpPrompt::AbilityScoreImprovement { budget, .. } => p matches LevelUpDecisionProgress::AbilityScoreImprovement {
                base_scores,
                assignments,
                remaining_points,
            } && base_scores@.len() == ABILITY_COUNT && (forall|i: int|
                0 <= i < ABILITY_COUNT ==> #[trigger] base_scores@[i] == Some(
                    snap.ability_totals@[i] as u8,
                )) && assignments@.len() == ABILITY_COUNT && no_entries(assignments@)
                && remaining_points == budget,
            LevelUpPrompt::SkillProficiency { count, .. } => p matches LevelUpDecisionProgress::SkillProficiency {
                selected,
                remaining_decisions,
                all_skills,
            } && selected@.len() == 0 && remaining_decisions == count && all_skills@
                == snap.skill_proficiencies@,
        }
    }
}

fn choice_offers_class(options: &Vec<ChoiceItem>) -> (r: bool)
    ensures
        r == offers_class(options@),
{
    let mut i: usize = 0;
    while i < options.len()
        invariant
            i <= options.len(),
            forall|j: int| 0 <= j < i ==> !(#[trigger] options@[j]).is_class,
        decreases options.len() - i,
    {
        if options[i].is_class {
            return true;
        }
        i = i + 1;
    }
    false
}

impl LevelUpDecisionProgress {
    /// The blank progress for a prompt: nothing picked yet.
    pub fn from_prompt(prompt: &LevelUpPrompt) -> (p: Self)
        ensures
            blank_progress(*prompt, p),
    {
        match prompt {
            LevelUpPrompt::Choice(spec) => LevelUpDecisionProgress::Choice {
                id: copy_string(&spec.id),
                decisions: Vec::new(),
                required: spec.picks,
            },
            LevelUpPrompt::SkillProficiency { count, .. } =>
                LevelUpDecisionProgress::SkillProficiency {
                selected: Vec::new(),
                remaining_decisions: *count,
                all_skills: Vec::new(),
            },
            LevelUpPrompt::AbilityScores { budget, .. } => LevelUpDecisionProgress::AbilityScores {
                assignments: empty_table(),
                remaining_budget: *budget,
                plus_2_bonus: None,
                plus_1_bonus: None,
            },
            LevelUpPrompt::AbilityScoreImprovement { budget, .. } =>
                LevelUpDecisionProgress::AbilityScoreImprovement {
                base_scores: empty_table(),
                assignments: empty_table(),
                remaining_points: *budget,
            },
        }
    }

    /// The progress a prompt starts with, pre-filled from the character when
    /// it already has a level.
    pub fn default_from_prompt_and_character(
        prompt: &LevelUpPrompt,
        snap: &CharacterSnapshot,
    ) -> (p: Self)
        requires
            snapshot_fits(*prompt, *snap),
        ensures
            default_progress(*prompt, *snap, p),
    {
        if snap.total_level > 0 {
            match prompt {
                LevelUpPrompt::Choice(spec) => {
                    if choice_offers_class(&spec.options) {
                        let mut decisions: Vec<ChoiceItem> = Vec::new();
                        decisions.push(snap.latest_class.unwrap());
                        return LevelUpDecisionProgress::Choice {
                            id: copy_string(&spec.id),
                            decisions,
                            required: spec.picks,
                        };
                    }
                },
                LevelUpPrompt::AbilityScores { .. } => {
                    return match &snap.class_defaults {
                        Some(d) => LevelUpDecisionProgress::AbilityScores {
                            assignments: copy_vec(&d.scores),
                            remaining_budget: 0,
                            plus_2_bonus: Some(d.plus_2_bonus),
                            plus_1_bonus: Some(d.plus_1_bonus),
                        },
                        None => LevelUpDecisionProgress::AbilityScores {
                            assignments: empty_table(),
                            remaining_budget: 0,
                            plus_2_bonus: None,
                            plus_1_bonus: None,
                        },
                    };
                },
                LevelUpPrompt::AbilityScoreImprovement { budget, .. } => {
                    let mut base: Vec<Option<u8>> = Vec::new();
                    let mut i: usize = 0;
                    while i < ABILITY_COUNT
                        invariant
                            i <= ABILITY_COUNT,
                            snap.ability_totals@.len() == ABILITY_COUNT,
                            base@.len() == i,
                            forall|j: int|
                                0 <= j < i ==> #[trigger] base@[j] == Some(
                                    snap.ability_totals@[j] as u8,
                                ),
                        decreases ABILITY_COUNT - i,
                    {
                        base.push(Some(snap.ability_totals[i] as u8));
                        i = i + 1;
                    }
                    return LevelUpDecisionProgress::AbilityScoreImprovement {
                        base_scores: base,
                        assignments: empty_table(),
                        remaining_points: *budget,
                    };
                },
                LevelUpPrompt::SkillProficiency { count, .. } => {
                    return LevelUpDecisionProgress::SkillProficiency {
                        selected: Vec::new(),
                        remaining_decisions: *count,
                        all_skills: copy_vec(&snap.skill_proficiencies),
                    };
                },
            }
        }
        Self::from_prompt(prompt)
    }
}


/// Two progress values hold the same picks.
pub open spec fn same_progress(a: LevelUpDecisionProgress, b: LevelUpDecisionProgress) -> bool {
    match a {
        LevelUpDecisionProgress::Choice { id, decisions, required } => b matches LevelUpDecisionProgress::Choice {
            id: i2,
            decisions: d2,
            required: r2,
        } && id@ == i2@ && decisions@ == d2@ && required == r2,
        LevelUpDecisionProgress::SkillProficiency { selected, remaining_decisions, all_skills } =>
            b matches LevelUpDecisionProgress::SkillProficiency {
            selected: s2,
            remaining_decisions: r2,
            all_skills: a2,
        } && selected@ == s2@ && remaining_decisions == r2 && all_skills@ == a2@,
        LevelUpDecisionProgress::AbilityScores {
            assignments,
            remaining_budget,
            plus_2_bonus,
            plus_1_bonus,
        } => b matches LevelUpDecisionProgress::AbilityScores {
            assignments: a2,
            remaining_budget: r2,
            plus_2_bonus: p2,
            plus_1_bonus: p1,
        } && assignments@ == a2@ && remaining_budget == r2 && plus_2_bonus == p2 && plus_1_bonus
            == p1,
        LevelUpDecisionProgress::AbilityScoreImprovement {
            base_scores,
            assignments,
            remaining_points,
        } => b matches LevelUpDecisionProgress::AbilityScoreImprovement {
            base_scores: b2,
            assignments: a2,
            remaining_points: r2,
        } && base_scores@ == b2@ && assignments@ == a2@ && remaining_points == r2,
    }
}

impl LevelUpDecisionProgress {
    /// A copy holding the same picks.
    pub fn duplicate(&self) -> (r: Self)
        ensures
            same_progress(*self, r),
    {
        match self {
            LevelUpDecisionProgress::Choice { id, decisions, required } =>
                LevelUpDecisionProgress::Choice {
                id: copy_string(id),
                decisions: copy_vec(decisions),
                required: *required,
            },
            LevelUpDecisionProgress::SkillProficiency {
                selected,
                remaining_decisions,
                all_skills,
            } => LevelUpDecisionProgress::SkillProficiency {
                selected: copy_vec(selected),
                remaining_decisions: *remaining_decisions,
                all_skills: copy_vec(all_skills),
            },
            LevelUpDecisionProgress::AbilityScores {
                assignments,
                remaining_budget,
                plus_2_bonus,
                plus_1_bonus,
            } => LevelUpDecisionProgress::AbilityScores {
                assignments: copy_vec(assignments),
                remaining_budget: *remaining_budget,
                plus_2_bonus: *plus_2_bonus,
                plus_1_bonus: *plus_1_bonus,
            },
            LevelUpDecisionProgress::AbilityScoreImprovement {
                base_scores,
                assignments,
                remaining_points,
            } => LevelUpDecisionProgress::AbilityScoreImprovement {
                base_scores: copy_vec(base_scores),
                assignments: copy_vec(assignments),
                remaining_points: *remaining_points,
            },
        }
    }
}

/// A prompt, the picks made for it so far, and the picks it started with.
pub struct LevelUpPromptWithProgress {
    pub prompt: LevelUpPrompt,
    pub progress: LevelUpDecisionProgress,
    pub initial_value: LevelUpDecisionProgress,
}

impl LevelUpPromptWithProgress {
    /// A prompt with its default progress for the character.
    pub fn new(prompt: LevelUpPrompt, snap: &CharacterSnapshot) -> (r: Self)
        requires
            snapshot_fits(prompt, *snap),
        ensures
            r.prompt == prompt,
            default_progress(prompt, *snap, r.progress),
            same_progress(r.progress, r.initial_value),
    {
        let progress = LevelUpDecisionProgress::default_from_prompt_and_character(&prompt, snap);
        let initial_value = progress.duplicate();
        LevelUpPromptWithProgress { prompt, progress, initial_value }
    }

    /// Drops the picks made and goes back to the starting ones.
    pub fn reset(&mut self)
        ensures
            final(self).prompt == old(self).prompt,
            final(self).initial_value == old(self).initial_value,
            same_progress(final(self).progress, old(self).initial_value),
    {
        self.progress = self.initial_value.duplicate();
    }
}


/// `s` with every occurrence of `x` taken out.
pub open spec fn without<T>(s: Seq<T>, x: T) -> Seq<T>
    decreases s.len(),
{
    if s.len() == 0 {
        s
    } else if s.last() == x {
        without(s.drop_last(), x)
    } else {
        without(s.drop_last(), x).push(s.last())
    }
}

/// The picks of a choice after clicking `option`: with a single pick the
/// click replaces it; otherwise a picked option is dropped and a new one is
/// added while there is room.
pub open spec fn choice_after_click(
    decisions: Seq<ChoiceItem>,
    required: u8,
    option: ChoiceItem,
) -> Seq<ChoiceItem> {
    if required == 1 {
        seq![option]
    } else if decisions.contains(option) {
        without(decisions, option)
    } else if decisions.len() < required {
        decisions.push(option)
    } else {
        decisions
    }
}

pub(crate) proof fn lemma_without<T>(s: Seq<T>, x: T)
    ensures
        !s.contains(x) ==> without(s, x) == s,
        s.no_duplicates() && s.contains(x) ==> without(s, x).len() == s.len() - 1,
        without(s, x).len() <= s.len(),
        !without(s, x).contains(x),
        forall|y: T| y != x ==> (without(s, x).contains(y) <==> s.contains(y)),
        s.no_duplicates() ==> without(s, x).no_duplicates(),
        s.contains(x) ==> without(s, x).len() < s.len(),
    decreases s.len(),
{
    if s.len() > 0 {
        let t = s.drop_last();
        lemma_without(t, x);
        assert forall|y: T| y != x implies (without(s, x).contains(y) <==> s.contains(y)) by {
            if s.contains(y) {
                let k = choose|k: int| 0 <= k < s.len() && s[k] == y;
                if k < s.len() - 1 {
                    assert(t[k] == y);
                    assert(t.contains(y));
                    assert(without(t, x).contains(y));
                    let m = choose|m: int| 0 <= m < without(t, x).len() && without(t, x)[m] == y;
                    if s.last() == x {
                        assert(without(s, x) == without(t, x));
                    } else {
                        assert(without(s, x) == without(t, x).push(s.last()));
                    }
                    assert(without(s, x)[m] == y);
                } else if s.last() != x {
                    assert(without(s, x).last() == y);
                }
            }
            if without(s, x).contains(y) {
                let k = choose|k: int| 0 <= k < without(s, x).len() && without(s, x)[k] == y;
                if s.last() != x && k == without(s, x).len() - 1 {
                    assert(s[s.len() - 1] == y);
                } else {
                    if s.last() == x {
                        assert(without(s, x) == without(t, x));
                    } else {
                        assert(without(s, x) == without(t, x).push(s.last()));
                    }
                    assert(without(t, x)[k] == y);
                    assert(without(t, x).contains(y));
                    assert(t.contains(y));
                    let m = choose|m: int| 0 <= m < t.len() && t[m] == y;
                    assert(s[m] == y);
                }
            }
        }
        if s.last() != x {
            assert(!without(s, x).contains(x)) by {
                if without(s, x).contains(x) {
                    let k = choose|k: int| 0 <= k < without(s, x).len() && without(s, x)[k] == x;
                    if k < without(t, x).len() {
                        assert(without(t, x)[k] == x);
                    }
                }
            }
            if s.no_duplicates() {
                assert(!t.contains(s.last())) by {
                    if t.contains(s.last()) {
                        let k = choose|k: int| 0 <= k < t.len() && t[k] == s.last();
                        assert(s[k] == s[s.len() - 1]);
                    }
                }
                assert(!without(t, x).contains(s.last()));
                assert(without(s, x).no_duplicates()) by {
                    assert forall|i: int, j: int|
                        0 <= i < j < without(s, x).len() implies without(s, x)[i] != without(
                        s,
                        x,
                    )[j] by {
                        if j == without(s, x).len() - 1 {
                            assert(without(t, x)[i] == without(s, x)[i]);
                        } else {
                            assert(without(t, x)[i] == without(s, x)[i]);
                            assert(without(t, x)[j] == without(s, x)[j]);
                        }
                    }
                }
            }
            if s.contains(x) {
                let k = choose|k: int| 0 <= k < s.len() && s[k] == x;
                assert(t.contains(x)) by {
                    assert(t[k] == x);
                }
            }
        } else {
            if s.no_duplicates() {
                assert(t.no_duplicates()) by {
                    assert forall|i: int, j: int| 0 <= i < j < t.len() implies t[i] != t[j] by {
                        assert(s[i] == t[i] && s[j] == t[j]);
                    }
                }
            }
        }
    }
}

fn remove_item(v: &Vec<ChoiceItem>, x: ChoiceItem) -> (r: Vec<ChoiceItem>)
    ensures
        r@ == without(v@, x),
{
    let mut r: Vec<ChoiceItem> = Vec::new();
    let mut i: usize = 0;
    while i < v.len()
        invariant
            i <= v.len(),
            r@ == without(v@.take(i as int), x),
        decreases v.len() - i,
    {
        assert(v@.take(i + 1).drop_last() =~= v@.take(i as int));
        if v[i] != x {
            r.push(v[i]);
        }
        i = i + 1;
    }
    assert(v@.take(v.len() as int) =~= v@);
    r
}

fn contains_item(v: &Vec<ChoiceItem>, x: ChoiceItem) -> (r: bool)
    ensures
        r == v@.contains(x),
{
    let mut i: usize = 0;
    while i < v.len()
        invariant
            i <= v.len(),
            forall|j: int| 0 <= j < i ==> v@[j] != x,
        decreases v.len() - i,
    {
        if v[i] == x {
            return true;
        }
        i = i + 1;
    }
    false
}

/// After a click on a choice option the picks never exceed what the prompt
/// asks for and never repeat an option.
pub proof fn lemma_choice_click_stays_within_picks(
    decisions: Seq<ChoiceItem>,
    required: u8,
    option: ChoiceItem,
)
    requires
        required >= 1,
        decisions.len() <= required,
        decisions.no_duplicates(),
    ensures
        choice_after_click(decisions, required, option).len() <= required,
        choice_after_click(decisions, required, option).no_duplicates(),
{
    lemma_without(decisions, option);
    if required != 1 && !decisions.contains(option) && decisions.len() < required {
        let n = decisions.push(option);
        assert forall|i: int, j: int| 0 <= i < j < n.len() implies n[i] != n[j] by {
            if j == n.len() - 1 {
                assert(decisions[i] == n[i]);
            }
        }
    }
}

impl LevelUpPromptWithProgress {
    /// Click on option `index` of a choice prompt.
    pub fn click_choice_option(&mut self, index: usize)
        requires
            old(self).prompt matches LevelUpPrompt::Choice(spec) ==> index < spec.options@.len(),
        ensures
            final(self).prompt == old(self).prompt,
            final(self).initial_value == old(self).initial_value,
            match (old(self).prompt, old(self).progress) {
                (
                    LevelUpPrompt::Choice(spec),
                    LevelUpDecisionProgress::Choice { id, decisions, required },
                ) => final(self).progress matches LevelUpDecisionProgress::Choice {
                    id: i2,
                    decisions: d2,
                    required: r2,
                } && i2 == id && r2 == required && d2@ == choice_after_click(
                    decisions@,
                    required,
                    spec.options@[index as int],
                ),
                _ => final(self).progress == old(self).progress,
            },
    {
        match (&self.prompt, &mut self.progress) {
            (
                LevelUpPrompt::Choice(spec),
                LevelUpDecisionProgress::Choice { decisions, required, .. },
            ) => {
                let option = spec.options[index];
                if *required == 1 {
                    decisions.clear();
                    decisions.push(option);
                } else if contains_item(decisions, option) {
                    *decisions = remove_item(decisions, option);
                } else if decisions.len() < *required as usize {
                    decisions.push(option);
                }
            },
            _ => {},
        }
    }
}


/// Every ability at the lowest point-buy score.
pub open spec fn min_scores() -> Seq<Option<u8>> {
    Seq::new(ABILITY_COUNT as nat, |i: int| Some(POINT_BUY_MIN))
}

/// The point-buy scores are in range, within the budget, and the remaining
/// budget is the budget minus what the scores cost.
pub open spec fn point_buy_settled(
    costs: Seq<u8>,
    budget: u8,
    a: Seq<Option<u8>>,
    remaining: u8,
) -> bool {
    &&& valid_cost_table(costs)
    &&& scores_in_range(a)
    &&& a.len() == ABILITY_COUNT
    &&& assigned_cost(costs, a) <= budget
    &&& remaining == budget - assigned_cost(costs, a)
}

/// The point-buy of a prompt is settled (true for any other prompt).
pub open spec fn point_buy_ready(p: LevelUpPromptWithProgress) -> bool {
    match (p.prompt, p.progress) {
        (
            LevelUpPrompt::AbilityScores { costs, budget },
            LevelUpDecisionProgress::AbilityScores { assignments, remaining_budget, .. },
        ) => point_buy_settled(costs@, budget, assignments@, remaining_budget),
        _ => true,
    }
}

/// The score of `ability` after a click on `+`: one more when it is below 15
/// and the extra cost fits in what is left of the budget.
pub open spec fn raised_scores(
    costs: Seq<u8>,
    a: Seq<Option<u8>>,
    remaining: u8,
    i: int,
) -> Seq<Option<u8>> {
    match a[i] {
        Some(v) => if v < POINT_BUY_MAX && cost_of(costs, v + 1) - cost_of(costs, v as int)
            <= remaining {
            a.update(i, Some((v + 1) as u8))
        } else {
            a
        },
        Option::None => a,
    }
}

/// The score of `ability` after a click on `-`: one less when above 8.
pub open spec fn lowered_scores(a: Seq<Option<u8>>, i: int) -> Seq<Option<u8>> {
    match a[i] {
        Some(v) => if v > POINT_BUY_MIN {
            a.update(i, Some((v - 1) as u8))
        } else {
            a
        },
        Option::None => a,
    }
}

/// The point-buy part of a prompt after an event: same prompt and starting
/// picks, the given scores and bonuses, and a settled budget.
pub open spec fn point_buy_after(
    before: LevelUpPromptWithProgress,
    after: LevelUpPromptWithProgress,
    scores: Seq<Option<u8>>,
    plus_2: Option<Ability>,
    plus_1: Option<Ability>,
) -> bool {
    &&& after.prompt == before.prompt
    &&& after.initial_value == before.initial_value
    &&& match (before.prompt, after.progress) {
        (
            LevelUpPrompt::AbilityScores { costs, budget },
            LevelUpDecisionProgress::AbilityScores {
                assignments,
                remaining_budget,
                plus_2_bonus,
                plus_1_bonus,
            },
        ) => assignments@ == scores && plus_2_bonus == plus_2 && plus_1_bonus == plus_1
            && point_buy_settled(costs@, budget, assignments@, remaining_budget),
        _ => false,
    }
}

/// A per-ability table with every ability at the lowest point-buy score.
fn min_score_table() -> (t: Vec<Option<u8>>)
    ensures
        t@ == min_scores(),
{
    let mut t: Vec<Option<u8>> = Vec::new();
    while t.len() < ABILITY_COUNT
        invariant
            t.len() <= ABILITY_COUNT,
            forall|j: int| 0 <= j < t.len() ==> #[trigger] t@[j] == Some(POINT_BUY_MIN),
        decreases ABILITY_COUNT - t.len(),
    {
        t.push(Some(POINT_BUY_MIN));
    }
    assert(t@ =~= min_scores());
    t
}

proof fn lemma_min_scores_cost(costs: Seq<u8>, n: nat)
    requires
        n <= ABILITY_COUNT,
        costs.len() == 8,
    ensures
        assigned_cost(costs, min_scores().take(n as int)) == n * costs[0],
    decreases n,
{
    if n > 0 {
        lemma_min_scores_cost(costs, (n - 1) as nat);
        assert(min_scores().take(n as int).drop_last() =~= min_scores().take(n - 1));
        assert(min_scores().take(n as int).last() == Some(POINT_BUY_MIN));
        assert(n * costs[0] == (n - 1) * costs[0] + costs[0]) by (nonlinear_arith);
    } else {
        assert(min_scores().take(0) =~= Seq::<Option<u8>>::empty());
    }
}

impl LevelUpPromptWithProgress {
    /// Start of a frame of the point-buy: a blank table gets every ability at
    /// 8, and the remaining budget is recomputed from the scores.
    pub fn refresh_point_buy(&mut self)
        requires
            match (old(self).prompt, old(self).progress) {
                (
                    LevelUpPrompt::AbilityScores { costs, budget },
                    LevelUpDecisionProgress::AbilityScores { assignments, .. },
                ) => {
                    let filled = if no_entries(assignments@) {
                        min_scores()
                    } else {
                        assignments@
                    };
                    &&& valid_cost_table(costs@)
                    &&& assignments@.len() == ABILITY_COUNT
                    &&& scores_in_range(assignments@)
                    &&& assigned_cost(costs@, filled) <= budget
                },
                _ => true,
            },
        ensures
            match (old(self).prompt, old(self).progress) {
                (
                    LevelUpPrompt::AbilityScores { .. },
                    LevelUpDecisionProgress::AbilityScores {
                        assignments,
                        plus_2_bonus,
                        plus_1_bonus,
                        ..
                    },
                ) => point_buy_after(
                    *old(self),
                    *final(self),
                    if no_entries(assignments@) {
                        min_scores()
                    } else {
                        assignments@
                    },
                    plus_2_bonus,
                    plus_1_bonus,
                ),
                _ => *final(self) == *old(self),
            },
    {
        match (&self.prompt, &mut self.progress) {
            (
                LevelUpPrompt::AbilityScores { costs, budget },
                LevelUpDecisionProgress::AbilityScores { assignments, remaining_budget, .. },
            ) => {
                if table_has_no_entries(assignments) {
                    *assignments = min_score_table();
                    proof {
                        assert forall|i: int|
                            0 <= i < assignments@.len()
                                && (#[trigger] assignments@[i]) is Some implies POINT_BUY_MIN
                            <= assignments@[i]->0 <= POINT_BUY_MAX by {}
                    }
                }
                let total = point_buy_cost(costs, assignments);
                *remaining_budget = *budget - total as u8;
            },
            _ => {},
        }
    }

    /// Click on `-` next to an ability of the point-buy.
    pub fn decrease_ability(&mut self, ability: Ability)
        requires
            point_buy_ready(*old(self)),
        ensures
            match old(self).progress {
                LevelUpDecisionProgress::AbilityScores {
                    assignments,
                    plus_2_bonus,
                    plus_1_bonus,
                    ..
                } => match old(self).prompt {
                    LevelUpPrompt::AbilityScores { .. } => point_buy_after(
                        *old(self),
                        *final(self),
                        lowered_scores(assignments@, ability_index(ability)),
                        plus_2_bonus,
                        plus_1_bonus,
                    ),
                    _ => *final(self) == *old(self),
                },
                _ => *final(self) == *old(self),
            },
    {
        match (&self.prompt, &mut self.progress) {
            (
                LevelUpPrompt::AbilityScores { costs, budget },
                LevelUpDecisionProgress::AbilityScores { assignments, remaining_budget, .. },
            ) => {
                let i = ability.index();
                let ghost before = assignments@;
                if let Some(score) = assignments[i] {
                    if score > POINT_BUY_MIN {
                        assignments.set(i, Some(score - 1));
                        proof {
                            lemma_assigned_cost_update(costs@, before, i as int, Some((score - 1) as u8));
                            assert(cost_of(costs@, score - 1) <= cost_of(costs@, score as int));
                            assert forall|j: int|
                                0 <= j < assignments@.len()
                                    && (#[trigger] assignments@[j]) is Some implies POINT_BUY_MIN
                                <= assignments@[j]->0 <= POINT_BUY_MAX by {
                                if j != i {
                                    assert(before[j] == assignments@[j]);
                                }
                            }
                        }
                    }
                }
                let total = point_buy_cost(costs, assignments);
                *remaining_budget = *budget - total as u8;
            },
            _ => {},
        }
    }

    /// Click on `+` next to an ability of the point-buy.
    pub fn increase_ability(&mut self, ability: Ability)
        requires
            point_buy_ready(*old(self)),
        ensures
            match old(self).progress {
                LevelUpDecisionProgress::AbilityScores {
                    assignments,
                    remaining_budget,
                    plus_2_bonus,
                    plus_1_bonus,
                } => match old(self).prompt {
                    LevelUpPrompt::AbilityScores { costs, .. } => point_buy_after(
                        *old(self),
                        *final(self),
                        raised_scores(
                            costs@,
                            assignments@,
                            remaining_budget,
                            ability_index(ability),
                        ),
                        plus_2_bonus,
                        plus_1_bonus,
                    ),
                    _ => *final(self) == *old(self),
                },
                _ => *final(self) == *old(self),
            },
    {
        match (&self.prompt, &mut self.progress) {
            (
                LevelUpPrompt::AbilityScores { costs, budget },
                LevelUpDecisionProgress::AbilityScores { assignments, remaining_budget, .. },
            ) => {
                let i = ability.index();
                let ghost before = assignments@;
                if let Some(score) = assignments[i] {
                    if score < POINT_BUY_MAX {
                        let price_of_current = costs[(score - POINT_BUY_MIN) as usize];
                        let price_of_next = costs[(score + 1 - POINT_BUY_MIN) as usize];
                        let price_of_increase = price_of_next - price_of_current;
                        if price_of_increase <= *remaining_budget {
                            assignments.set(i, Some(score + 1));
                            proof {
                                lemma_assigned_cost_update(
                                    costs@,
                                    before,
                                    i as int,
                                    Some((score + 1) as u8),
                                );
                                assert forall|j: int|
                                    0 <= j < assignments@.len()
                                        && (#[trigger] assignments@[j]) is Some implies POINT_BUY_MIN
                                    <= assignments@[j]->0 <= POINT_BUY_MAX by {
                                    if j != i {
                                        assert(before[j] == assignments@[j]);
                                    }
                                }
                            }
                        }
                    }
                }
                let total = point_buy_cost(costs, assignments);
                *remaining_budget = *budget - total as u8;
            },
            _ => {},
        }
    }

    /// Click on "Clear": every ability back to 8 and no bonus chosen.
    pub fn clear_abilities(&mut self)
        requires
            match (old(self).prompt, old(self).progress) {
                (LevelUpPrompt::AbilityScores { costs, budget }, LevelUpDecisionProgress::AbilityScores { .. }) =>
                    valid_cost_table(costs@) && ABILITY_COUNT * costs@[0] <= budget,
                _ => true,
            },
        ensures
            match (old(self).prompt, old(self).progress) {
                (LevelUpPrompt::AbilityScores { .. }, LevelUpDecisionProgress::AbilityScores { .. }) =>
                    point_buy_after(*old(self), *final(self), min_scores(), Option::None, Option::None),
                _ => *final(self) == *old(self),
            },
    {
        match (&self.prompt, &mut self.progress) {
            (
                LevelUpPrompt::AbilityScores { costs, budget },
                LevelUpDecisionProgress::AbilityScores {
                    assignments,
                    remaining_budget,
                    plus_2_bonus,
                    plus_1_bonus,
                },
            ) => {
                *assignments = min_score_table();
                *plus_2_bonus = None;
                *plus_1_bonus = None;
                proof {
                    lemma_min_scores_cost(costs@, ABILITY_COUNT as nat);
                    assert(min_scores().take(ABILITY_COUNT as int) =~= min_scores());
                }
                let total = point_buy_cost(costs, assignments);
                *remaining_budget = *budget - total as u8;
            },
            _ => {},
        }
    }
}


/// The `+2` bonus goes to `ability`, or is taken back when it already had it;
/// the `+1` bonus leaves `ability` when the `+2` moves there.
pub open spec fn bonuses_after_plus_2(
    plus_2: Option<Ability>,
    plus_1: Option<Ability>,
    ability: Ability,
) -> (Option<Ability>, Option<Ability>) {
    if plus_2 == Some(ability) {
        (Option::None, plus_1)
    } else {
        (Some(ability), if plus_1 == Some(ability) {
            Option::None
        } else {
            plus_1
        })
    }
}

/// The `+1` bonus goes to `ability`, or is taken back when it already had it;
/// the `+2` bonus leaves `ability` when the `+1` moves there.
pub open spec fn bonuses_after_plus_1(
    plus_2: Option<Ability>,
    plus_1: Option<Ability>,
    ability: Ability,
) -> (Option<Ability>, Option<Ability>) {
    if plus_1 == Some(ability) {
        (plus_2, Option::None)
    } else {
        (if plus_2 == Some(ability) {
            Option::None
        } else {
            plus_2
        }, Some(ability))
    }
}

/// The two bonuses never go to the same ability.
pub open spec fn bonuses_distinct(plus_2: Option<Ability>, plus_1: Option<Ability>) -> bool {
    plus_2 is Some && plus_1 is Some ==> plus_2 != plus_1
}

/// Whatever the bonuses were, after a click on a bonus checkbox the `+2` and
/// the `+1` bonus are on different abilities.
pub proof fn lemma_bonus_clicks_keep_bonuses_apart(
    plus_2: Option<Ability>,
    plus_1: Option<Ability>,
    ability: Ability,
)
    ensures
        bonuses_distinct(
            bonuses_after_plus_2(plus_2, plus_1, ability).0,
            bonuses_after_plus_2(plus_2, plus_1, ability).1,
        ),
        bonuses_distinct(
            bonuses_after_plus_1(plus_2, plus_1, ability).0,
            bonuses_after_plus_1(plus_2, plus_1, ability).1,
        ),
{
}

impl LevelUpPromptWithProgress {
    /// Click on the `+2` checkbox of an ability.
    pub fn toggle_plus_2_bonus(&mut self, ability: Ability)
        ensures
            final(self).prompt == old(self).prompt,
            final(self).initial_value == old(self).initial_value,
            match old(self).progress {
                LevelUpDecisionProgress::AbilityScores {
                    assignments,
                    remaining_budget,
                    plus_2_bonus,
                    plus_1_bonus,
                } => final(self).progress matches LevelUpDecisionProgress::AbilityScores {
                    assignments: a2,
                    remaining_budget: r2,
                    plus_2_bonus: p2,
                    plus_1_bonus: p1,
                } && a2 == assignments && r2 == remaining_budget && (p2, p1)
                    == bonuses_after_plus_2(plus_2_bonus, plus_1_bonus, ability),
                _ => final(self).progress == old(self).progress,
            },
    {
        match &mut self.progress {
            LevelUpDecisionProgress::AbilityScores { plus_2_bonus, plus_1_bonus, .. } => {
                if *plus_2_bonus == Some(ability) {
                    *plus_2_bonus = None;
                } else {
                    if *plus_1_bonus == Some(ability) {
                        *plus_1_bonus = None;
                    }
                    *plus_2_bonus = Some(ability);
                }
            },
            _ => {},
        }
    }

    /// Click on the `+1` checkbox of an ability.
    pub fn toggle_plus_1_bonus(&mut self, ability: Ability)
        ensures
            final(self).prompt == old(self).prompt,
            final(self).initial_value == old(self).initial_value,
            match old(self).progress {
                LevelUpDecisionProgress::AbilityScores {
                    assignments,
                    remaining_budget,
                    plus_2_bonus,
                    plus_1_bonus,
                } => final(self).progress matches LevelUpDecisionProgress::AbilityScores {
                    assignments: a2,
                    remaining_budget: r2,
                    plus_2_bonus: p2,
                    plus_1_bonus: p1,
                } && a2 == assignments && r2 == remaining_budget && (p2, p1)
                    == bonuses_after_plus_1(plus_2_bonus, plus_1_bonus, ability),
                _ => final(self).progress == old(self).progress,
            },
    {
        match &mut self.progress {
            LevelUpDecisionProgress::AbilityScores { plus_2_bonus, plus_1_bonus, .. } => {
                if *plus_1_bonus == Some(ability) {
                    *plus_1_bonus = None;
                } else {
                    if *plus_2_bonus == Some(ability) {
                        *plus_2_bonus = None;
                    }
                    *plus_1_bonus = Some(ability);
                }
            },
            _ => {},
        }
    }
}

/// The skill picks after a click on the checkbox of `skill`: only offered
/// skills the character is not yet proficient in can be clicked; a picked
/// skill is dropped, another one is added while picks remain.
pub open spec fn skills_after_click(
    options: Seq<bool>,
    all_skills: Seq<ProficiencyLevel>,
    selected: Seq<u8>,
    remaining: u8,
    skill: u8,
) -> (Seq<u8>, int) {
    if !options[skill as int] || all_skills[skill as int] != ProficiencyLevel::Untrained {
        (selected, remaining as int)
    } else if selected.contains(skill) {
        (without(selected, skill), remaining + 1)
    } else if remaining > 0 {
        (selected.push(skill), remaining - 1)
    } else {
        (selected, remaining as int)
    }
}

/// Skill picks plus the picks left always add up to what the prompt asks for,
/// and no skill is picked twice.
pub proof fn lemma_skill_click_keeps_count(
    options: Seq<bool>,
    all_skills: Seq<ProficiencyLevel>,
    selected: Seq<u8>,
    remaining: u8,
    count: u8,
    skill: u8,
)
    requires
        skill < SKILL_COUNT,
        options.len() == SKILL_COUNT,
        all_skills.len() == SKILL_COUNT,
        selected.no_duplicates(),
        selected.len() + remaining == count,
    ensures
        skills_after_click(options, all_skills, selected, remaining, skill).0.no_duplicates(),
        skills_after_click(options, all_skills, selected, remaining, skill).0.len()
            + skills_after_click(options, all_skills, selected, remaining, skill).1 == count,
{
    lemma_without(selected, skill);
    let n = selected.push(skill);
    if !selected.contains(skill) {
        assert forall|i: int, j: int| 0 <= i < j < n.len() implies n[i] != n[j] by {
            if j == n.len() - 1 {
                assert(selected[i] == n[i]);
            }
        }
    }
}

pub(crate) fn contains_skill(v: &Vec<u8>, x: u8) -> (r: bool)
    ensures
        r == v@.contains(x),
{
    let mut i: usize = 0;
    while i < v.len()
        invariant
            i <= v.len(),
            forall|j: int| 0 <= j < i ==> v@[j] != x,
        decreases v.len() - i,
    {
        if v[i] == x {
            return true;
        }
        i = i + 1;
    }
    false
}

pub(crate) fn remove_skill(v: &Vec<u8>, x: u8) -> (r: Vec<u8>)
    ensures
        r@ == without(v@, x),
{
    let mut r: Vec<u8> = Vec::new();
    let mut i: usize = 0;
    while i < v.len()
        invariant
            i <= v.len(),
            r@ == without(v@.take(i as int), x),
        decreases v.len() - i,
    {
        assert(v@.take(i + 1).drop_last() =~= v@.take(i as int));
        if v[i] != x {
            r.push(v[i]);
        }
        i = i + 1;
    }
    assert(v@.take(v.len() as int) =~= v@);
    r
}

impl LevelUpPromptWithProgress {
    /// Click on "Reset": no skill picked, all picks left.
    pub fn reset_skills(&mut self)
        ensures
            final(self).prompt == old(self).prompt,
            final(self).initial_value == old(self).initial_value,
            match (old(self).prompt, old(self).progress) {
                (
                    LevelUpPrompt::SkillProficiency { count, .. },
                    LevelUpDecisionProgress::SkillProficiency { all_skills, .. },
                ) => final(self).progress matches LevelUpDecisionProgress::SkillProficiency {
                    selected: s2,
                    remaining_decisions: r2,
                    all_skills: a2,
                } && s2@.len() == 0 && r2 == count && a2 == all_skills,
                _ => final(self).progress == old(self).progress,
            },
    {
        match (&self.prompt, &mut self.progress) {
            (
                LevelUpPrompt::SkillProficiency { count, .. },
                LevelUpDecisionProgress::SkillProficiency { selected, remaining_decisions, .. },
            ) => {
                selected.clear();
                *remaining_decisions = *count;
            },
            _ => {},
        }
    }

    /// Click on the checkbox of a skill.
    pub fn click_skill(&mut self, skill: u8)
        requires
            skill < SKILL_COUNT,
            match (old(self).prompt, old(self).progress) {
                (
                    LevelUpPrompt::SkillProficiency { options, .. },
                    LevelUpDecisionProgress::SkillProficiency {
                        selected,
                        remaining_decisions,
                        all_skills,
                    },
                ) => options@.len() == SKILL_COUNT && all_skills@.len() == SKILL_COUNT && (
                selected@.contains(skill) ==> remaining_decisions < 255),
                _ => true,
            },
        ensures
            final(self).prompt == old(self).prompt,
            final(self).initial_value == old(self).initial_value,
            match (old(self).prompt, old(self).progress) {
                (
                    LevelUpPrompt::SkillProficiency { options, .. },
                    LevelUpDecisionProgress::SkillProficiency {
                        selected,
                        remaining_decisions,
                        all_skills,
                    },
                ) => final(self).progress matches LevelUpDecisionProgress::SkillProficiency {
                    selected: s2,
                    remaining_decisions: r2,
                    all_skills: a2,
                } && a2 == all_skills && (s2@, r2 as int) == skills_after_click(
                    options@,
                    all_skills@,
                    selected@,
                    remaining_decisions,
                    skill,
                ),
                _ => final(self).progress == old(self).progress,
            },
    {
        match (&self.prompt, &mut self.progress) {
            (
                LevelUpPrompt::SkillProficiency { options, .. },
                LevelUpDecisionProgress::SkillProficiency {
                    selected,
                    remaining_decisions,
                    all_skills,
                },
            ) => {
                let offered = options[skill as usize];
                let already_proficient = all_skills[skill as usize] != ProficiencyLevel::Untrained;
                if offered && !already_proficient {
                    if contains_skill(selected, skill) {
                        *selected = remove_skill(selected, skill);
                        *remaining_decisions = *remaining_decisions + 1;
                    } else if *remaining_decisions > 0 {
                        selected.push(skill);
                        *remaining_decisions = *remaining_decisions - 1;
                    }
                }
            },
            _ => {},
        }
    }
}

/// Points spent on the abilities that have an entry.
pub open spec fn points_spent(a: Seq<Option<u8>>) -> int
    decreases a.len(),
{
    if a.len() == 0 {
        0
    } else {
        points_spent(a.drop_last()) + match a.last() {
            Some(v) => v as int,
            Option::None => 0,
        }
    }
}

proof fn lemma_points_spent_update(a: Seq<Option<u8>>, i: int, v: Option<u8>)
    requires
        0 <= i < a.len(),
    ensures
        points_spent(a.update(i, v)) == points_spent(a) - match a[i] {
            Some(x) => x as int,
            Option::None => 0,
        } + match v {
            Some(x) => x as int,
            Option::None => 0,
        },
    decreases a.len(),
{
    if i == a.len() - 1 {
        assert(a.update(i, v).drop_last() =~= a.drop_last());
    } else {
        lemma_points_spent_update(a.drop_last(), i, v);
        assert(a.update(i, v).drop_last() =~= a.drop_last().update(i, v));
    }
}

/// The value an ability has in an improvement table (0 without an entry).
pub open spec fn entry_or_zero(a: Seq<Option<u8>>, i: int) -> int {
    match a[i] {
        Some(v) => v as int,
        Option::None => 0,
    }
}

/// The improvement table after a frame: every offered ability has an entry.
pub open spec fn improvement_filled(abilities: Seq<bool>, a: Seq<Option<u8>>) -> Seq<Option<u8>> {
    Seq::new(
        a.len(),
        |i: int|
            if abilities[i] && a[i] is None {
                Some(0u8)
            } else {
                a[i]
            },
    )
}

/// The improvement tables of a prompt have one entry per ability, and every
/// offered ability has a known base score.
pub open spec fn improvement_ready(p: LevelUpPromptWithProgress) -> bool {
    match (p.prompt, p.progress) {
        (
            LevelUpPrompt::AbilityScoreImprovement { budget, abilities, .. },
            LevelUpDecisionProgress::AbilityScoreImprovement {
                base_scores,
                assignments,
                remaining_points,
            },
        ) => {
            &&& abilities@.len() == ABILITY_COUNT
            &&& base_scores@.len() == ABILITY_COUNT
            &&& assignments@.len() == ABILITY_COUNT
            &&& forall|i: int| 0 <= i < ABILITY_COUNT && #[trigger] abilities@[i] ==> base_scores@[i] is Some
            &&& points_spent(assignments@) + remaining_points == budget
        },
        _ => true,
    }
}

impl LevelUpPromptWithProgress {
    /// Start of a frame of the improvement table: every offered ability gets
    /// an entry of 0 points if it has none.
    pub fn refresh_improvement(&mut self)
        requires
            improvement_ready(*old(self)),
        ensures
            match (old(self).prompt, old(self).progress) {
                (
                    LevelUpPrompt::AbilityScoreImprovement { abilities, max_score, budget, .. },
                    LevelUpDecisionProgress::AbilityScoreImprovement {
                        base_scores,
                        assignments,
                        remaining_points,
                    },
                ) => final(self).progress matches LevelUpDecisionProgress::AbilityScoreImprovement {
                    assignments: a2,
                    remaining_points: r2,
                    ..
                } && (a2@, r2 as int) == improvement_step(
                    abilities@,
                    base_scores@,
                    max_score,
                    budget,
                    (assignments@, remaining_points as int),
                    ImprovementClick::Refresh,
                ),
                _ => true,
            },
            improvement_ready(*final(self)),
            final(self).prompt == old(self).prompt,
            final(self).initial_value == old(self).initial_value,
            match (old(self).prompt, old(self).progress) {
                (
                    LevelUpPrompt::AbilityScoreImprovement { abilities, .. },
                    LevelUpDecisionProgress::AbilityScoreImprovement {
                        base_scores,
                        assignments,
                        remaining_points,
                    },
                ) => final(self).progress matches LevelUpDecisionProgress::AbilityScoreImprovement {
                    base_scores: b2,
                    assignments: a2,
                    remaining_points: r2,
                } && b2 == base_scores && r2 == remaining_points && a2@ == improvement_filled(
                    abilities@,
                    assignments@,
                ),
                _ => final(self).progress == old(self).progress,
            },
    {
        match (&self.prompt, &mut self.progress) {
            (
                LevelUpPrompt::AbilityScoreImprovement { abilities, .. },
                LevelUpDecisionProgress::AbilityScoreImprovement { assignments, .. },
            ) => {
                let ghost start = assignments@;
                let mut i: usize = 0;
                while i < ABILITY_COUNT
                    invariant
                        i <= ABILITY_COUNT,
                        abilities@.len() == ABILITY_COUNT,
                        start.len() == ABILITY_COUNT,
                        assignments@.len() == ABILITY_COUNT,
                        points_spent(assignments@) == points_spent(start),
                        forall|j: int|
                            0 <= j < i ==> #[trigger] assignments@[j] == improvement_filled(
                                abilities@,
                                start,
                            )[j],
                        forall|j: int| i <= j < ABILITY_COUNT ==> #[trigger] assignments@[j] == start[j],
                    decreases ABILITY_COUNT - i,
                {
                    if abilities[i] && assignments[i].is_none() {
                        proof {
                            lemma_points_spent_update(assignments@, i as int, Some(0u8));
                        }
                        assignments.set(i, Some(0));
                    }
                    i = i + 1;
                }
                assert(assignments@ =~= improvement_filled(abilities@, start));
            },
            _ => {},
        }
    }

    /// Click on "Reset" of the improvement table: all points back.
    pub fn reset_improvement(&mut self)
        requires
            improvement_ready(*old(self)),
        ensures
            match (old(self).prompt, old(self).progress) {
                (
                    LevelUpPrompt::AbilityScoreImprovement { abilities, max_score, budget, .. },
                    LevelUpDecisionProgress::AbilityScoreImprovement {
                        base_scores,
                        assignments,
                        remaining_points,
                    },
                ) => final(self).progress matches LevelUpDecisionProgress::AbilityScoreImprovement {
                    assignments: a2,
                    remaining_points: r2,
                    ..
                } && (a2@, r2 as int) == improvement_step(
                    abilities@,
                    base_scores@,
                    max_score,
                    budget,
                    (assignments@, remaining_points as int),
                    ImprovementClick::Reset,
                ),
                _ => true,
            },
            improvement_ready(*final(self)),
            final(self).prompt == old(self).prompt,
            final(self).initial_value == old(self).initial_value,
            match (old(self).prompt, old(self).progress) {
                (
                    LevelUpPrompt::AbilityScoreImprovement { budget, .. },
                    LevelUpDecisionProgress::AbilityScoreImprovement { base_scores, .. },
                ) => final(self).progress matches LevelUpDecisionProgress::AbilityScoreImprovement {
                    base_scores: b2,
                    assignments: a2,
                    remaining_points: r2,
                } && b2 == base_scores && r2 == budget && no_entries(a2@),
                _ => final(self).progress == old(self).progress,
            },
    {
        match (&self.prompt, &mut self.progress) {
            (
                LevelUpPrompt::AbilityScoreImprovement { budget, .. },
                LevelUpDecisionProgress::AbilityScoreImprovement {
                    assignments,
                    remaining_points,
                    ..
                },
            ) => {
                *assignments = empty_table();
                proof {
                    lemma_points_spent_none(assignments@);
                }
                *remaining_points = *budget;
            },
            _ => {},
        }
    }

    /// Click on `-` next to an ability of the improvement table.
    pub fn decrease_improvement(&mut self, ability: Ability)
        requires
            improvement_ready(*old(self)),
        ensures
            match (old(self).prompt, old(self).progress) {
                (
                    LevelUpPrompt::AbilityScoreImprovement { abilities, max_score, budget, .. },
                    LevelUpDecisionProgress::AbilityScoreImprovement {
                        base_scores,
                        assignments,
                        remaining_points,
                    },
                ) => final(self).progress matches LevelUpDecisionProgress::AbilityScoreImprovement {
                    assignments: a2,
                    remaining_points: r2,
                    ..
                } && (a2@, r2 as int) == improvement_step(
                    abilities@,
                    base_scores@,
                    max_score,
                    budget,
                    (assignments@, remaining_points as int),
                    ImprovementClick::Lower(ability),
                ),
                _ => true,
            },
            improvement_ready(*final(self)),
            final(self).prompt == old(self).prompt,
            final(self).initial_value == old(self).initial_value,
            match (old(self).prompt, old(self).progress) {
                (
                    LevelUpPrompt::AbilityScoreImprovement { abilities, .. },
                    LevelUpDecisionProgress::AbilityScoreImprovement {
                        base_scores,
                        assignments,
                        remaining_points,
                    },
                ) => {
                    let i = ability_index(ability);
                    let cur = entry_or_zero(assignments@, i);
                    final(self).progress matches LevelUpDecisionProgress::AbilityScoreImprovement {
                        base_scores: b2,
                        assignments: a2,
                        remaining_points: r2,
                    } && b2 == base_scores && if !abilities@[i] {
                        a2@ == assignments@ && r2 == remaining_points
                    } else if cur > 0 {
                        a2@ == assignments@.update(i, Some((cur - 1) as u8)) && r2
                            == remaining_points + 1
                    } else {
                        a2@ == assignments@.update(i, Some(0u8)) && r2 == remaining_points
                    }
                },
                _ => final(self).progress == old(self).progress,
            },
    {
        match (&self.prompt, &mut self.progress) {
            (
                LevelUpPrompt::AbilityScoreImprovement { abilities, budget, .. },
                LevelUpDecisionProgress::AbilityScoreImprovement {
                    assignments,
                    remaining_points,
                    ..
                },
            ) => {
                let i = ability.index();
                if abilities[i] {
                    let cur = match assignments[i] {
                        Some(v) => v,
                        None => 0,
                    };
                    proof {
                        lemma_points_spent_update(assignments@, i as int, Some(cur));
                        lemma_points_spent_nonneg(assignments@);
                    }
                    assignments.set(i, Some(cur));
                    if cur > 0 {
                        proof {
                            lemma_points_spent_update(assignments@, i as int, Some((cur - 1) as u8));
                            lemma_points_spent_bound(assignments@, i as int);
                        }
                        assignments.set(i, Some(cur - 1));
                        *remaining_points = *remaining_points + 1;
                    }
                }
            },
            _ => {},
        }
    }

    /// Click on `+` next to an ability of the improvement table.
    pub fn increase_improvement(&mut self, ability: Ability)
        requires
            improvement_ready(*old(self)),
            match (old(self).prompt, old(self).progress) {
                (
                    LevelUpPrompt::AbilityScoreImprovement { abilities, .. },
                    LevelUpDecisionProgress::AbilityScoreImprovement {
                        base_scores,
                        assignments,
                        ..
                    },
                ) => abilities@[ability_index(ability)] ==> base_scores@[ability_index(ability)]->0
                    + entry_or_zero(assignments@, ability_index(ability)) <= 255,
                _ => true,
            },
        ensures
            match (old(self).prompt, old(self).progress) {
                (
                    LevelUpPrompt::AbilityScoreImprovement { abilities, max_score, budget, .. },
                    LevelUpDecisionProgress::AbilityScoreImprovement {
                        base_scores,
                        assignments,
                        remaining_points,
                    },
                ) => final(self).progress matches LevelUpDecisionProgress::AbilityScoreImprovement {
                    assignments: a2,
                    remaining_points: r2,
                    ..
                } && (a2@, r2 as int) == improvement_step(
                    abilities@,
                    base_scores@,
                    max_score,
                    budget,
                    (assignments@, remaining_points as int),
                    ImprovementClick::Raise(ability),
                ),
                _ => true,
            },
            improvement_ready(*final(self)),
            final(self).prompt == old(self).prompt,
            final(self).initial_value == old(self).initial_value,
            match (old(self).prompt, old(self).progress) {
                (
                    LevelUpPrompt::AbilityScoreImprovement { abilities, max_score, .. },
                    LevelUpDecisionProgress::AbilityScoreImprovement {
                        base_scores,
                        assignments,
                        remaining_points,
                    },
                ) => {
                    let i = ability_index(ability);
                    let cur = entry_or_zero(assignments@, i);
                    final(self).progress matches LevelUpDecisionProgress::AbilityScoreImprovement {
                        base_scores: b2,
                        assignments: a2,
                        remaining_points: r2,
                    } && b2 == base_scores && if !abilities@[i] {
                        a2@ == assignments@ && r2 == remaining_points
                    } else if base_scores@[i]->0 + cur < max_score && remaining_points > 0 {
                        a2@ == assignments@.update(i, Some((cur + 1) as u8)) && r2
                            == remaining_points - 1
                    } else {
                        a2@ == assignments@.update(i, Some(cur as u8)) && r2 == remaining_points
                    }
                },
                _ => final(self).progress == old(self).progress,
            },
    {
        match (&self.prompt, &mut self.progress) {
            (
                LevelUpPrompt::AbilityScoreImprovement { abilities, max_score, .. },
                LevelUpDecisionProgress::AbilityScoreImprovement {
                    base_scores,
                    assignments,
                    remaining_points,
                },
            ) => {
                let i = ability.index();
                if abilities[i] {
                    let cur = match assignments[i] {
                        Some(v) => v,
                        None => 0,
                    };
                    proof {
                        lemma_points_spent_update(assignments@, i as int, Some(cur));
                    }
                    assignments.set(i, Some(cur));
                    let total_score = base_scores[i].unwrap() + cur;
                    if total_score < *max_score && *remaining_points > 0 {
                        proof {
                            lemma_points_spent_update(assignments@, i as int, Some((cur + 1) as u8));
                        }
                        assignments.set(i, Some(cur + 1));
                        *remaining_points = *remaining_points - 1;
                    }
                }
            },
            _ => {},
        }
    }
}

proof fn lemma_points_spent_none(a: Seq<Option<u8>>)
    requires
        no_entries(a),
    ensures
        points_spent(a) == 0,
    decreases a.len(),
{
    if a.len() > 0 {
        lemma_points_spent_none(a.drop_last());
    }
}

proof fn lemma_points_spent_nonneg(a: Seq<Option<u8>>)
    ensures
        points_spent(a) >= 0,
    decreases a.len(),
{
    if a.len() > 0 {
        lemma_points_spent_nonneg(a.drop_last());
    }
}

proof fn lemma_points_spent_bound(a: Seq<Option<u8>>, i: int)
    requires
        0 <= i < a.len(),
    ensures
        points_spent(a) >= entry_or_zero(a, i),
    decreases a.len(),
{
    if i < a.len() - 1 {
        lemma_points_spent_bound(a.drop_last(), i);
        lemma_points_spent_nonneg(a.drop_last());
    } else {
        lemma_points_spent_nonneg(a.drop_last());
    }
}


/// A prompt needs the session to be replayed: the session is complete but
/// the prompt is not, or the prompt is complete but its decision is not yet
/// `recorded` in the session.
pub open spec fn needs_replay(p: LevelUpPromptWithProgress, session_complete: bool, recorded: bool) -> bool {
    (session_complete && !progress_complete(p.progress)) || (progress_complete(p.progress)
        && !recorded)
}

/// The last prompt that needs the session to be replayed, if any.
pub open spec fn last_needing_replay(
    pending: Seq<LevelUpPromptWithProgress>,
    session_complete: bool,
    recorded: Seq<bool>,
) -> Option<int>
    decreases pending.len(),
{
    if pending.len() == 0 {
        Option::None
    } else if needs_replay(pending.last(), session_complete, recorded[pending.len() - 1]) {
        Some(pending.len() - 1)
    } else {
        last_needing_replay(pending.drop_last(), session_complete, recorded)
    }
}

/// The index of the last prompt whose decision changed since the session was
/// last replayed. `recorded[i]` tells whether the session already holds the
/// decision of prompt `i`.
pub fn find_updated_decision(
    pending: &Vec<LevelUpPromptWithProgress>,
    session_complete: bool,
    recorded: &Vec<bool>,
) -> (r: Option<usize>)
    requires
        recorded.len() == pending.len(),
    ensures
        r matches Some(i) ==> last_needing_replay(pending@, session_complete, recorded@) == Some(
            i as int,
        ),
        r is None ==> last_needing_replay(pending@, session_complete, recorded@) is None,
{
    let mut updated: Option<usize> = None;
    let mut i: usize = 0;
    while i < pending.len()
        invariant
            i <= pending.len() == recorded.len(),
            updated matches Some(k) ==> last_needing_replay(
                pending@.take(i as int),
                session_complete,
                recorded@,
            ) == Some(k as int),
            updated is None ==> last_needing_replay(
                pending@.take(i as int),
                session_complete,
                recorded@,
            ) is None,
        decreases pending.len() - i,
    {
        assert(pending@.take(i + 1).drop_last() =~= pending@.take(i as int));
        let complete = pending[i].progress.is_complete();
        if (session_complete && !complete) || (complete && !recorded[i]) {
            updated = Some(i);
        }
        i = i + 1;
    }
    assert(pending@.take(pending.len() as int) =~= pending@);
    updated
}

/// A prompt that chooses the class: its first option is a class.
pub open spec fn chooses_class(prompt: LevelUpPrompt) -> bool {
    prompt matches LevelUpPrompt::Choice(spec) && spec.options@.len() > 0 && spec.options@[0].is_class
}

/// After the decision at `index` changed, the prompts that follow a class
/// choice are dropped (they depend on the class), and tells whether the
/// session has to be replayed.
pub fn settle_updated_decision(
    pending: &mut Vec<LevelUpPromptWithProgress>,
    updated: Option<usize>,
) -> (replay: bool)
    requires
        updated matches Some(i) ==> i < old(pending)@.len() && (old(pending)@[i as int].prompt matches LevelUpPrompt::Choice(spec) ==> spec.options@.len() > 0),
    ensures
        final(pending)@ == match updated {
            Some(i) => if chooses_class(old(pending)@[i as int].prompt) {
                old(pending)@.take(i + 1)
            } else {
                old(pending)@
            },
            Option::None => old(pending)@,
        },
        replay == (updated is Some || old(pending)@.len() == 0),
{
    if let Some(index) = updated {
        let is_class_choice = match &pending[index].prompt {
            LevelUpPrompt::Choice(spec) => spec.options[0].is_class,
            _ => false,
        };
        if is_class_choice {
            let n = pending.len();
            assert(index < n);
            pending.truncate(index + 1);
        }
        true
    } else {
        pending.len() == 0
    }
}

/// Number of complete prompts.
pub open spec fn count_complete(s: Seq<LevelUpPromptWithProgress>) -> nat
    decreases s.len(),
{
    if s.len() == 0 {
        0
    } else {
        count_complete(s.drop_last()) + if progress_complete(s.last().progress) {
            1nat
        } else {
            0nat
        }
    }
}

/// The decisions of the complete prompts, in order, to replay on a fresh session.
pub open spec fn replayed(s: Seq<LevelUpPromptWithProgress>, d: Seq<LevelUpDecision>) -> bool {
    &&& d.len() == count_complete(s)
    &&& forall|i: int|
        0 <= i < s.len() && progress_complete(#[trigger] s[i].progress) ==> finalized(
            s[i].progress,
            d[count_complete(s.take(i)) as int],
        )
}

pub(crate) proof fn lemma_count_complete_prefix(s: Seq<LevelUpPromptWithProgress>, i: int, j: int)
    requires
        0 <= i <= j <= s.len(),
    ensures
        count_complete(s.take(i)) <= count_complete(s.take(j)),
        i < j && progress_complete(s[i].progress) ==> count_complete(s.take(i)) < count_complete(
            s.take(j),
        ),
    decreases j - i,
{
    if i < j {
        lemma_count_complete_prefix(s, i, j - 1);
        assert(s.take(j).drop_last() =~= s.take(j - 1));
        if i == j - 1 {
            assert(s.take(j).last() == s[i]);
        }
    }
}

/// The decisions of the complete prompts, in order.
pub fn decisions_to_replay(pending: &Vec<LevelUpPromptWithProgress>) -> (d: Vec<LevelUpDecision>)
    ensures
        replayed(pending@, d@),
{
    let mut d: Vec<LevelUpDecision> = Vec::new();
    let mut i: usize = 0;
    while i < pending.len()
        invariant
            i <= pending.len(),
            replayed(pending@.take(i as int), d@),
        decreases pending.len() - i,
    {
        let ghost pre = pending@.take(i as int);
        assert(pending@.take(i + 1).drop_last() =~= pre);
        if pending[i].progress.is_complete() {
            let dec = pending[i].progress.finalize();
            d.push(dec);
        }
        i = i + 1;
        proof {
            let cur = pending@.take(i as int);
            assert forall|k: int|
                0 <= k < cur.len() && progress_complete(#[trigger] cur[k].progress) implies finalized(
                cur[k].progress,
                d@[count_complete(cur.take(k)) as int],
            ) by {
                assert(cur.take(k) =~= pending@.take(k));
                if k < i - 1 {
                    assert(pre[k] == cur[k]);
                    assert(pre.take(k) =~= pending@.take(k));
                    lemma_count_complete_prefix(pre, k, pre.len() as int);
                    assert(pre.take(pre.len() as int) =~= pre);
                }
            }
        }
    }
    assert(pending@.take(pending.len() as int) =~= pending@);
    d
}


/// Some prompt of `prompts` asks for the same decision as `q`.
pub open spec fn has_same(prompts: Seq<LevelUpPrompt>, q: LevelUpPrompt) -> bool {
    exists|i: int| 0 <= i < prompts.len() && same_prompt(#[trigger] prompts[i], q)
}

/// The prompts of a list of prompts with progress.
pub open spec fn prompts_of(s: Seq<LevelUpPromptWithProgress>) -> Seq<LevelUpPrompt> {
    s.map_values(|p: LevelUpPromptWithProgress| p.prompt)
}

/// The complete prompts whose replay the session accepted (`ok` holds one
/// flag per complete prompt, in order).
pub open spec fn kept_complete(s: Seq<LevelUpPromptWithProgress>, ok: Seq<bool>) -> Seq<
    LevelUpPromptWithProgress,
>
    decreases s.len(),
{
    if s.len() == 0 {
        s
    } else {
        let r = kept_complete(s.drop_last(), ok);
        if progress_complete(s.last().progress) && ok[count_complete(s.drop_last()) as int] {
            r.push(s.last())
        } else {
            r
        }
    }
}

/// The incomplete prompts that are still pending in the session and on which
/// the player has already started.
pub open spec fn kept_incomplete(
    s: Seq<LevelUpPromptWithProgress>,
    prompts: Seq<LevelUpPrompt>,
) -> Seq<LevelUpPromptWithProgress>
    decreases s.len(),
{
    if s.len() == 0 {
        s
    } else {
        let r = kept_incomplete(s.drop_last(), prompts);
        if !progress_complete(s.last().progress) && has_same(prompts, s.last().prompt)
            && !progress_empty(s.last().progress) {
            r.push(s.last())
        } else {
            r
        }
    }
}

/// The prompts of `prompts` that neither `have` nor an earlier prompt of
/// `prompts` already asks for, in order.
pub open spec fn missing_prompts(have: Seq<LevelUpPrompt>, prompts: Seq<LevelUpPrompt>) -> Seq<
    LevelUpPrompt,
>
    decreases prompts.len(),
{
    if prompts.len() == 0 {
        prompts
    } else {
        let m = missing_prompts(have, prompts.drop_last());
        if has_same(have + m, prompts.last()) {
            m
        } else {
            m.push(prompts.last())
        }
    }
}

/// The prompts kept from before a replay: first the complete ones the session
/// accepted again, then the started ones it still asks for.
pub open spec fn kept_prompts(
    pending: Seq<LevelUpPromptWithProgress>,
    ok: Seq<bool>,
    prompts: Seq<LevelUpPrompt>,
) -> Seq<LevelUpPromptWithProgress> {
    kept_complete(pending, ok) + kept_incomplete(pending, prompts)
}

pub(crate) fn has_same_prompt(list: &Vec<LevelUpPromptWithProgress>, q: &LevelUpPrompt) -> (r: bool)
    ensures
        r == has_same(prompts_of(list@), *q),
{
    let mut i: usize = 0;
    while i < list.len()
        invariant
            i <= list.len(),
            forall|j: int| 0 <= j < i ==> !same_prompt(#[trigger] list@[j].prompt, *q),
        decreases list.len() - i,
    {
        if prompts_equal(&list[i].prompt, q) {
            assert(prompts_of(list@)[i as int] == list@[i as int].prompt);
            return true;
        }
        i = i + 1;
    }
    assert forall|j: int| 0 <= j < prompts_of(list@).len() implies !same_prompt(
        #[trigger] prompts_of(list@)[j],
        *q,
    ) by {
        assert(prompts_of(list@)[j] == list@[j].prompt);
    }
    false
}

/// The pending prompts after the session was replayed: the kept ones, then a
/// fresh entry with its default progress for each prompt of the session that
/// none of them asks for yet. `ok[j]` tells whether the session accepted the
/// replay of the `j`-th complete decision; `prompts` are the prompts the
/// session has pending after the replay.
pub fn reconcile_pending(
    pending: Vec<LevelUpPromptWithProgress>,
    ok: &Vec<bool>,
    prompts: Vec<LevelUpPrompt>,
    snap: &CharacterSnapshot,
) -> (r: Vec<LevelUpPromptWithProgress>)
    requires
        ok.len() == count_complete(pending@),
        forall|i: int| 0 <= i < prompts.len() ==> snapshot_fits(#[trigger] prompts@[i], *snap),
    ensures
        ({
            let kept = kept_prompts(pending@, ok@, prompts@);
            let missing = missing_prompts(prompts_of(kept), prompts@);
            &&& r@.len() == kept.len() + missing.len()
            &&& r@.take(kept.len() as int) == kept
            &&& prompts_of(r@) == prompts_of(kept) + missing
            &&& forall|j: int|
                0 <= j < missing.len() ==> (#[trigger] r@[kept.len() + j]).prompt == missing[j]
                    && default_progress(missing[j], *snap, r@[kept.len() + j].progress)
        }),
{
    let ghost orig = pending@;
    let mut pending = pending;
    let mut result: Vec<LevelUpPromptWithProgress> = Vec::new();
    let mut later: Vec<LevelUpPromptWithProgress> = Vec::new();
    let mut j: usize = 0;
    let ghost mut k: int = 0;
    while pending.len() > 0
        invariant
            0 <= k <= orig.len(),
            pending@ == orig.skip(k),
            ok.len() == count_complete(orig),
            j == count_complete(orig.take(k)),
            result@ == kept_complete(orig.take(k), ok@),
            later@ == kept_incomplete(orig.take(k), prompts@),
        decreases pending.len(),
    {
        proof {
            assert(orig.take(k + 1).drop_last() =~= orig.take(k));
            assert(orig.take(k + 1).last() == orig[k]);
            lemma_count_complete_prefix(orig, k + 1, orig.len() as int);
            assert(orig.take(orig.len() as int) =~= orig);
            assert(pending@[0] == orig[k]);
        }
        let item = pending.remove(0);
        if item.progress.is_complete() {
            if ok[j] {
                result.push(item);
            }
            j = j + 1;
        } else if has_same_prompt_in(&prompts, &item.prompt) && !item.progress.is_empty() {
            later.push(item);
        }
        proof {
            k = k + 1;
            assert(pending@ =~= orig.skip(k));
        }
    }
    assert(orig.take(k) =~= orig);
    let ghost complete_part = result@;
    let mut later = later;
    while later.len() > 0
        invariant
            result@ + later@ == complete_part + kept_incomplete(orig, prompts@),
        decreases later.len(),
    {
        let item = later.remove(0);
        result.push(item);
        assert(result@ + later@ =~= complete_part + kept_incomplete(orig, prompts@));
    }
    assert(result@ =~= kept_prompts(orig, ok@, prompts@));
    let ghost kept = result@;
    let ghost all_prompts = prompts@;
    let mut prompts = prompts;
    let ghost mut n: int = 0;
    while prompts.len() > 0
        invariant
            0 <= n <= all_prompts.len(),
            prompts@ == all_prompts.skip(n),
            forall|i: int| 0 <= i < all_prompts.len() ==> snapshot_fits(#[trigger] all_prompts[i], *snap),
            ({
                let missing = missing_prompts(prompts_of(kept), all_prompts.take(n));
                &&& result@.len() == kept.len() + missing.len()
                &&& result@.take(kept.len() as int) == kept
                &&& prompts_of(result@) == prompts_of(kept) + missing
                &&& forall|j: int|
                    0 <= j < missing.len() ==> (#[trigger] result@[kept.len() + j]).prompt
                        == missing[j] && default_progress(
                        missing[j],
                        *snap,
                        result@[kept.len() + j].progress,
                    )
            }),
        decreases prompts.len(),
    {
        proof {
            assert(all_prompts.take(n + 1).drop_last() =~= all_prompts.take(n));
            assert(all_prompts.take(n + 1).last() == all_prompts[n]);
            assert(prompts@[0] == all_prompts[n]);
        }
        let q = prompts.remove(0);
        if !has_same_prompt(&result, &q) {
            let ghost before = result@;
            let entry = LevelUpPromptWithProgress::new(q, snap);
            result.push(entry);
            proof {
                assert(result@.take(kept.len() as int) =~= before.take(kept.len() as int));
                assert(prompts_of(result@) =~= prompts_of(before).push(q));
                let missing = missing_prompts(prompts_of(kept), all_prompts.take(n + 1));
                assert forall|j: int| 0 <= j < missing.len() implies (#[trigger] result@[kept.len()
                    + j]).prompt == missing[j] && default_progress(
                    missing[j],
                    *snap,
                    result@[kept.len() + j].progress,
                ) by {
                    if j < missing.len() - 1 {
                        assert(result@[kept.len() + j] == before[kept.len() + j]);
                    }
                }
            }
        }
        proof {
            n = n + 1;
            assert(prompts@ =~= all_prompts.skip(n));
        }
    }
    assert(all_prompts.take(n) =~= all_prompts);
    result
}

fn has_same_prompt_in(list: &Vec<LevelUpPrompt>, q: &LevelUpPrompt) -> (r: bool)
    ensures
        r == has_same(list@, *q),
{
    let mut i: usize = 0;
    while i < list.len()
        invariant
            i <= list.len(),
            forall|j: int| 0 <= j < i ==> !same_prompt(#[trigger] list@[j], *q),
        decreases list.len() - i,
    {
        if prompts_equal(&list[i], q) {
            return true;
        }
        i = i + 1;
    }
    false
}


/// After a replay every prompt the session has pending is asked for by one of
/// the pending entries: the kept ones (`have`) followed by the fresh ones that
/// [`reconcile_pending`] adds.
pub proof fn lemma_reconciled_prompts_cover_session(
    have: Seq<LevelUpPrompt>,
    prompts: Seq<LevelUpPrompt>,
)
    ensures
        forall|i: int|
            0 <= i < prompts.len() ==> has_same(
                have + missing_prompts(have, prompts),
                #[trigger] prompts[i],
            ),
    decreases prompts.len(),
{
    if prompts.len() > 0 {
        let t = prompts.drop_last();
        lemma_reconciled_prompts_cover_session(have, t);
        let m = missing_prompts(have, t);
        let q = prompts.last();
        let all = have + missing_prompts(have, prompts);
        assert forall|i: int| 0 <= i < prompts.len() implies has_same(all, #[trigger] prompts[i]) by {
            if i < prompts.len() - 1 {
                assert(prompts[i] == t[i]);
                assert(has_same(have + m, t[i]));
                let k = choose|k: int| 0 <= k < (have + m).len() && same_prompt((have + m)[k], t[i]);
                assert(all[k] == (have + m)[k]);
            } else if has_same(have + m, q) {
                let k = choose|k: int| 0 <= k < (have + m).len() && same_prompt((have + m)[k], q);
                assert(all[k] == (have + m)[k]);
            } else {
                assert(all[all.len() - 1] == q);
                assert(same_prompt(q, q));
            }
        }
    }
}


/// The picks of a choice after the options `clicks` were clicked in turn.
pub open spec fn choice_after_clicks(
    decisions: Seq<ChoiceItem>,
    required: u8,
    clicks: Seq<ChoiceItem>,
) -> Seq<ChoiceItem>
    decreases clicks.len(),
{
    if clicks.len() == 0 {
        decisions
    } else {
        choice_after_click(choice_after_clicks(decisions, required, clicks.drop_last()), required, clicks.last())
    }
}

/// Whatever options are clicked, the picks of a choice stay distinct
/// options of the prompt, never more than it asks for; with a single pick
/// the option clicked last is the pick.
pub proof fn lemma_choice_clicks_stay_within_picks(
    options: Seq<ChoiceItem>,
    decisions: Seq<ChoiceItem>,
    required: u8,
    clicks: Seq<ChoiceItem>,
)
    requires
        decisions.len() <= required,
        decisions.no_duplicates(),
        forall|d: ChoiceItem| decisions.contains(d) ==> options.contains(d),
        forall|i: int| 0 <= i < clicks.len() ==> options.contains(#[trigger] clicks[i]),
    ensures
        choice_after_clicks(decisions, required, clicks).len() <= required,
        choice_after_clicks(decisions, required, clicks).no_duplicates(),
        forall|d: ChoiceItem|
            choice_after_clicks(decisions, required, clicks).contains(d) ==> options.contains(d),
        required == 1 && clicks.len() > 0 ==> choice_after_clicks(decisions, required, clicks) == seq![
            clicks.last(),
        ],
    decreases clicks.len(),
{
    if clicks.len() > 0 {
        let prev_clicks = clicks.drop_last();
        assert forall|i: int| 0 <= i < prev_clicks.len() implies options.contains(#[trigger] prev_clicks[i]) by {
            assert(prev_clicks[i] == clicks[i]);
        }
        lemma_choice_clicks_stay_within_picks(options, decisions, required, prev_clicks);
        let prev = choice_after_clicks(decisions, required, prev_clicks);
        let o = clicks.last();
        assert(options.contains(clicks[clicks.len() - 1]));
        let next = choice_after_click(prev, required, o);
        assert(next == choice_after_clicks(decisions, required, clicks));
        if required == 0 {
            assert(prev.len() == 0);
            assert(!prev.contains(o));
            assert(next == prev);
        } else {
            lemma_choice_click_stays_within_picks(prev, required, o);
            lemma_without(prev, o);
            assert forall|d: ChoiceItem| next.contains(d) implies options.contains(d) by {
                if required == 1 {
                    assert(next =~= seq![o]);
                    assert(d == next[0]);
                } else if prev.contains(o) {
                    assert(prev.contains(d));
                } else if prev.len() < required {
                    let k = choose|k: int| 0 <= k < next.len() && next[k] == d;
                    if k < prev.len() {
                        assert(prev[k] == d);
                    }
                }
            }
        }
    }
}

/// What a click does to the skill picks: the checkbox of a skill, or
/// "Reset".
pub enum SkillClick {
    Toggle(u8),
    Reset,
}

/// The skill picks and the picks left after one click.
pub open spec fn skills_after(
    options: Seq<bool>,
    all_skills: Seq<ProficiencyLevel>,
    count: u8,
    selected: Seq<u8>,
    remaining: int,
    click: SkillClick,
) -> (Seq<u8>, int) {
    match click {
        SkillClick::Reset => (Seq::empty(), count as int),
        SkillClick::Toggle(s) => if s < SKILL_COUNT {
            skills_after_click(options, all_skills, selected, remaining as u8, s)
        } else {
            (selected, remaining)
        },
    }
}

/// The skill picks and the picks left after the clicks `clicks`, in turn.
pub open spec fn skills_after_clicks(
    options: Seq<bool>,
    all_skills: Seq<ProficiencyLevel>,
    count: u8,
    selected: Seq<u8>,
    remaining: int,
    clicks: Seq<SkillClick>,
) -> (Seq<u8>, int)
    decreases clicks.len(),
{
    if clicks.len() == 0 {
        (selected, remaining)
    } else {
        let p = skills_after_clicks(options, all_skills, count, selected, remaining, clicks.drop_last());
        skills_after(options, all_skills, count, p.0, p.1, clicks.last())
    }
}

/// Every picked skill is a skill the prompt offers.
pub open spec fn skills_offered(options: Seq<bool>, selected: Seq<u8>) -> bool {
    forall|i: int| 0 <= i < selected.len() ==> #[trigger] selected[i] < SKILL_COUNT && options[selected[i] as int]
}

/// Whatever skills are clicked, the picks stay distinct skills the prompt
/// offers, and the picks plus the picks left add up to what it asks for.
pub proof fn lemma_skill_clicks_keep_count(
    options: Seq<bool>,
    all_skills: Seq<ProficiencyLevel>,
    count: u8,
    selected: Seq<u8>,
    remaining: int,
    clicks: Seq<SkillClick>,
)
    requires
        options.len() == SKILL_COUNT,
        all_skills.len() == SKILL_COUNT,
        selected.no_duplicates(),
        skills_offered(options, selected),
        remaining >= 0,
        selected.len() + remaining == count,
    ensures
        ({
            let r = skills_after_clicks(options, all_skills, count, selected, remaining, clicks);
            &&& r.0.no_duplicates()
            &&& skills_offered(options, r.0)
            &&& r.1 >= 0
            &&& r.0.len() + r.1 == count
            &&& r.0.len() <= count
        }),
    decreases clicks.len(),
{
    if clicks.len() > 0 {
        lemma_skill_clicks_keep_count(options, all_skills, count, selected, remaining, clicks.drop_last());
        let p = skills_after_clicks(options, all_skills, count, selected, remaining, clicks.drop_last());
        match clicks.last() {
            SkillClick::Reset => {},
            SkillClick::Toggle(s) => {
                if s < SKILL_COUNT {
                    lemma_skill_click_keeps_count(options, all_skills, p.0, p.1 as u8, count, s);
                    lemma_without(p.0, s);
                    let n = skills_after_click(options, all_skills, p.0, p.1 as u8, s);
                    assert forall|i: int| 0 <= i < n.0.len() implies #[trigger] n.0[i] < SKILL_COUNT
                        && options[n.0[i] as int] by {
                        if options[s as int] && all_skills[s as int] == ProficiencyLevel::Untrained {
                            if p.0.contains(s) {
                                assert(n.0.contains(n.0[i]));
                                assert(p.0.contains(n.0[i]));
                                let k = choose|k: int| 0 <= k < p.0.len() && p.0[k] == n.0[i];
                                assert(p.0[k] < SKILL_COUNT);
                            } else if p.1 > 0 {
                                if i < p.0.len() {
                                    assert(n.0[i] == p.0[i]);
                                }
                            }
                        }
                    }
                }
            },
        }
    }
}


/// A click on the point-buy table: `+` or `-` next to an ability, "Clear",
/// or the `+2` or `+1` checkbox of an ability.
pub enum PointBuyClick {
    Raise(Ability),
    Lower(Ability),
    Clear,
    PlusTwo(Ability),
    PlusOne(Ability),
}

/// The point-buy scores, remaining budget and bonuses after one click.
pub open spec fn point_buy_step(
    costs: Seq<u8>,
    budget: u8,
    s: (Seq<Option<u8>>, u8, Option<Ability>, Option<Ability>),
    click: PointBuyClick,
) -> (Seq<Option<u8>>, u8, Option<Ability>, Option<Ability>) {
    match click {
        PointBuyClick::Raise(a) => {
            let sc = raised_scores(costs, s.0, s.1, ability_index(a));
            (sc, (budget - assigned_cost(costs, sc)) as u8, s.2, s.3)
        },
        PointBuyClick::Lower(a) => {
            let sc = lowered_scores(s.0, ability_index(a));
            (sc, (budget - assigned_cost(costs, sc)) as u8, s.2, s.3)
        },
        PointBuyClick::Clear => (
            min_scores(),
            (budget - assigned_cost(costs, min_scores())) as u8,
            Option::None,
            Option::None,
        ),
        PointBuyClick::PlusTwo(a) => {
            let b = bonuses_after_plus_2(s.2, s.3, a);
            (s.0, s.1, b.0, b.1)
        },
        PointBuyClick::PlusOne(a) => {
            let b = bonuses_after_plus_1(s.2, s.3, a);
            (s.0, s.1, b.0, b.1)
        },
    }
}

/// The point-buy state after the clicks `clicks`, in turn.
pub open spec fn point_buy_after_clicks(
    costs: Seq<u8>,
    budget: u8,
    s: (Seq<Option<u8>>, u8, Option<Ability>, Option<Ability>),
    clicks: Seq<PointBuyClick>,
) -> (Seq<Option<u8>>, u8, Option<Ability>, Option<Ability>)
    decreases clicks.len(),
{
    if clicks.len() == 0 {
        s
    } else {
        point_buy_step(costs, budget, point_buy_after_clicks(costs, budget, s, clicks.drop_last()), clicks.last())
    }
}

/// A point-buy state as the table keeps it: every ability has a score from
/// 8 to 15, the scores cost at most the budget, the remaining budget is the
/// budget minus their cost, and the bonuses are on different abilities.
pub open spec fn point_buy_sound(
    costs: Seq<u8>,
    budget: u8,
    s: (Seq<Option<u8>>, u8, Option<Ability>, Option<Ability>),
) -> bool {
    &&& point_buy_settled(costs, budget, s.0, s.1)
    &&& all_entries(s.0)
    &&& bonuses_distinct(s.2, s.3)
}

proof fn lemma_point_buy_step_sound(
    costs: Seq<u8>,
    budget: u8,
    s: (Seq<Option<u8>>, u8, Option<Ability>, Option<Ability>),
    click: PointBuyClick,
)
    requires
        point_buy_sound(costs, budget, s),
        ABILITY_COUNT * costs[0] <= budget,
    ensures
        point_buy_sound(costs, budget, point_buy_step(costs, budget, s, click)),
{
    let a = s.0;
    match click {
        PointBuyClick::Raise(ab) => {
            let i = ability_index(ab);
            let sc = raised_scores(costs, a, s.1, i);
            let v = a[i]->0;
            lemma_assigned_cost_nonneg(costs, sc);
            if v < POINT_BUY_MAX && cost_of(costs, v + 1) - cost_of(costs, v as int) <= s.1 {
                lemma_assigned_cost_update(costs, a, i, Some((v + 1) as u8));
                assert(assigned_cost(costs, sc) <= budget);
                assert forall|j: int| 0 <= j < sc.len() && (#[trigger] sc[j]) is Some implies POINT_BUY_MIN
                    <= sc[j]->0 <= POINT_BUY_MAX by {
                    if j != i {
                        assert(sc[j] == a[j]);
                    }
                }
                assert forall|j: int| 0 <= j < sc.len() implies (#[trigger] sc[j]) is Some by {
                    if j != i {
                        assert(sc[j] == a[j]);
                    }
                }
            }
        },
        PointBuyClick::Lower(ab) => {
            let i = ability_index(ab);
            let sc = lowered_scores(a, i);
            let v = a[i]->0;
            lemma_assigned_cost_nonneg(costs, sc);
            if v > POINT_BUY_MIN {
                lemma_assigned_cost_update(costs, a, i, Some((v - 1) as u8));
                assert(cost_of(costs, v - 1) <= cost_of(costs, v as int));
                assert forall|j: int| 0 <= j < sc.len() && (#[trigger] sc[j]) is Some implies POINT_BUY_MIN
                    <= sc[j]->0 <= POINT_BUY_MAX by {
                    if j != i {
                        assert(sc[j] == a[j]);
                    }
                }
                assert forall|j: int| 0 <= j < sc.len() implies (#[trigger] sc[j]) is Some by {
                    if j != i {
                        assert(sc[j] == a[j]);
                    }
                }
            }
        },
        PointBuyClick::Clear => {
            lemma_min_scores_cost(costs, ABILITY_COUNT as nat);
            assert(min_scores().take(ABILITY_COUNT as int) =~= min_scores());
        },
        PointBuyClick::PlusTwo(ab) => {
            lemma_bonus_clicks_keep_bonuses_apart(s.2, s.3, ab);
        },
        PointBuyClick::PlusOne(ab) => {
            lemma_bonus_clicks_keep_bonuses_apart(s.2, s.3, ab);
        },
    }
}

/// Whatever is clicked on a filled point-buy table, every score stays from
/// 8 to 15, the scores never cost more than the budget, the remaining
/// budget stays the budget minus their cost, and the two bonuses are never
/// on the same ability.
pub proof fn lemma_point_buy_clicks_stay_sound(
    costs: Seq<u8>,
    budget: u8,
    s: (Seq<Option<u8>>, u8, Option<Ability>, Option<Ability>),
    clicks: Seq<PointBuyClick>,
)
    requires
        point_buy_sound(costs, budget, s),
        ABILITY_COUNT * costs[0] <= budget,
    ensures
        point_buy_sound(costs, budget, point_buy_after_clicks(costs, budget, s, clicks)),
    decreases clicks.len(),
{
    if clicks.len() > 0 {
        lemma_point_buy_clicks_stay_sound(costs, budget, s, clicks.drop_last());
        lemma_point_buy_step_sound(
            costs,
            budget,
            point_buy_after_clicks(costs, budget, s, clicks.drop_last()),
            clicks.last(),
        );
    }
}


/// A click on the ability-score improvement table: `+` or `-` next to an
/// ability, "Reset", or the start of a frame (which gives every offered
/// ability an entry).
pub enum ImprovementClick {
    Raise(Ability),
    Lower(Ability),
    Reset,
    Refresh,
}

/// The improvement table with no entry.
pub open spec fn blank_improvement() -> Seq<Option<u8>> {
    Seq::new(ABILITY_COUNT as nat, |i: int| Option::<u8>::None)
}

/// The improvement points and the points left after one click.
pub open spec fn improvement_step(
    abilities: Seq<bool>,
    base: Seq<Option<u8>>,
    max_score: u8,
    budget: u8,
    s: (Seq<Option<u8>>, int),
    click: ImprovementClick,
) -> (Seq<Option<u8>>, int) {
    let a = s.0;
    let r = s.1;
    match click {
        ImprovementClick::Raise(ab) => {
            let i = ability_index(ab);
            let cur = entry_or_zero(a, i);
            if !abilities[i] {
                (a, r)
            } else if base[i]->0 + cur < max_score && r > 0 {
                (a.update(i, Some((cur + 1) as u8)), r - 1)
            } else {
                (a.update(i, Some(cur as u8)), r)
            }
        },
        ImprovementClick::Lower(ab) => {
            let i = ability_index(ab);
            let cur = entry_or_zero(a, i);
            if !abilities[i] {
                (a, r)
            } else if cur > 0 {
                (a.update(i, Some((cur - 1) as u8)), r + 1)
            } else {
                (a.update(i, Some(0u8)), r)
            }
        },
        ImprovementClick::Reset => (blank_improvement(), budget as int),
        ImprovementClick::Refresh => (improvement_filled(abilities, a), r),
    }
}

/// The improvement points and the points left after the clicks `clicks`,
/// in turn.
pub open spec fn improvement_after_clicks(
    abilities: Seq<bool>,
    base: Seq<Option<u8>>,
    max_score: u8,
    budget: u8,
    s: (Seq<Option<u8>>, int),
    clicks: Seq<ImprovementClick>,
) -> (Seq<Option<u8>>, int)
    decreases clicks.len(),
{
    if clicks.len() == 0 {
        s
    } else {
        improvement_step(
            abilities,
            base,
            max_score,
            budget,
            improvement_after_clicks(abilities, base, max_score, budget, s, clicks.drop_last()),
            clicks.last(),
        )
    }
}

/// Every offered ability and every ability with points has a base score,
/// and the base score plus the points is at most `max_score`.
pub open spec fn improvement_within_max(
    abilities: Seq<bool>,
    base: Seq<Option<u8>>,
    max_score: u8,
    a: Seq<Option<u8>>,
) -> bool {
    forall|i: int|
        0 <= i < ABILITY_COUNT && (abilities[i] || a[i] is Some) ==> #[trigger] base[i] is Some
            && base[i]->0 + entry_or_zero(a, i) <= max_score
}

/// An improvement table as the window keeps it: one entry per ability, the
/// points spent plus the points left make the budget, and no score goes
/// past `max_score`.
pub open spec fn improvement_sound(
    abilities: Seq<bool>,
    base: Seq<Option<u8>>,
    max_score: u8,
    budget: u8,
    s: (Seq<Option<u8>>, int),
) -> bool {
    &&& abilities.len() == ABILITY_COUNT
    &&& base.len() == ABILITY_COUNT
    &&& s.0.len() == ABILITY_COUNT
    &&& s.1 >= 0
    &&& points_spent(s.0) + s.1 == budget
    &&& improvement_within_max(abilities, base, max_score, s.0)
}

/// The first `k` offered abilities without an entry get one of 0 points.
spec fn filled_upto(abilities: Seq<bool>, a: Seq<Option<u8>>, k: int) -> Seq<Option<u8>> {
    Seq::new(a.len(), |i: int| if i < k && abilities[i] && a[i] is None { Some(0u8) } else { a[i] })
}

proof fn lemma_filled_spent(abilities: Seq<bool>, a: Seq<Option<u8>>, k: int)
    requires
        0 <= k <= a.len(),
    ensures
        points_spent(filled_upto(abilities, a, k)) == points_spent(a),
    decreases k,
{
    if k == 0 {
        assert(filled_upto(abilities, a, 0) =~= a);
    } else {
        lemma_filled_spent(abilities, a, k - 1);
        let prev = filled_upto(abilities, a, k - 1);
        let v = filled_upto(abilities, a, k)[k - 1];
        lemma_points_spent_update(prev, k - 1, v);
        assert(prev.update(k - 1, v) =~= filled_upto(abilities, a, k));
    }
}

proof fn lemma_improvement_step_sound(
    abilities: Seq<bool>,
    base: Seq<Option<u8>>,
    max_score: u8,
    budget: u8,
    s: (Seq<Option<u8>>, int),
    click: ImprovementClick,
)
    requires
        improvement_sound(abilities, base, max_score, budget, s),
    ensures
        improvement_sound(
            abilities,
            base,
            max_score,
            budget,
            improvement_step(abilities, base, max_score, budget, s, click),
        ),
        forall|i: int|
            0 <= i < ABILITY_COUNT && (#[trigger] improvement_step(abilities, base, max_score, budget, s, click).0[i]) is Some
                ==> s.0[i] is Some || abilities[i],
{
    let a = s.0;
    let n = improvement_step(abilities, base, max_score, budget, s, click);
    match click {
        ImprovementClick::Raise(ab) => {
            let i = ability_index(ab);
            let cur = entry_or_zero(a, i);
            if abilities[i] {
                assert(base[i] is Some);
                lemma_points_spent_update(a, i, n.0[i]);
                assert forall|j: int|
                    0 <= j < ABILITY_COUNT && (abilities[j] || n.0[j] is Some) implies #[trigger] base[j] is Some
                        && base[j]->0 + entry_or_zero(n.0, j) <= max_score by {
                    if j != i {
                        assert(n.0[j] == a[j]);
                    }
                }
            }
        },
        ImprovementClick::Lower(ab) => {
            let i = ability_index(ab);
            if abilities[i] {
                lemma_points_spent_update(a, i, n.0[i]);
                assert forall|j: int|
                    0 <= j < ABILITY_COUNT && (abilities[j] || n.0[j] is Some) implies #[trigger] base[j] is Some
                        && base[j]->0 + entry_or_zero(n.0, j) <= max_score by {
                    if j != i {
                        assert(n.0[j] == a[j]);
                    }
                }
            }
        },
        ImprovementClick::Reset => {
            lemma_points_spent_none(blank_improvement());
        },
        ImprovementClick::Refresh => {
            lemma_filled_spent(abilities, a, a.len() as int);
            assert(filled_upto(abilities, a, a.len() as int) =~= improvement_filled(abilities, a));
        },
    }
}

/// Whatever is clicked on the improvement table, the points spent plus the
/// points left stay the budget, no base score plus its points goes past
/// `max_score`, and only offered abilities or abilities that had points
/// hold points.
pub proof fn lemma_improvement_clicks_stay_sound(
    abilities: Seq<bool>,
    base: Seq<Option<u8>>,
    max_score: u8,
    budget: u8,
    s: (Seq<Option<u8>>, int),
    clicks: Seq<ImprovementClick>,
)
    requires
        improvement_sound(abilities, base, max_score, budget, s),
    ensures
        improvement_sound(
            abilities,
            base,
            max_score,
            budget,
            improvement_after_clicks(abilities, base, max_score, budget, s, clicks),
        ),
        forall|i: int|
            0 <= i < ABILITY_COUNT && (#[trigger] improvement_after_clicks(
                abilities,
                base,
                max_score,
                budget,
                s,
                clicks,
            ).0[i]) is Some ==> s.0[i] is Some || abilities[i],
    decreases clicks.len(),
{
    if clicks.len() > 0 {
        lemma_improvement_clicks_stay_sound(abilities, base, max_score, budget, s, clicks.drop_last());
        let p = improvement_after_clicks(abilities, base, max_score, budget, s, clicks.drop_last());
        lemma_improvement_step_sound(abilities, base, max_score, budget, p, clicks.last());
        let n = improvement_after_clicks(abilities, base, max_score, budget, s, clicks);
        assert forall|i: int| 0 <= i < ABILITY_COUNT && (#[trigger] n.0[i]) is Some implies s.0[i] is Some
            || abilities[i] by {
            assert(improvement_step(abilities, base, max_score, budget, p, clicks.last()).0[i] is Some);
            if p.0[i] is Some {
                assert(p.0[i] is Some);
            }
        }
    }
}


/// A click on `-` lowers an assigned score above 8 by one, whatever it is
/// (15 included), and gives back the difference of cost; a score of 8 stays,
/// and no other ability changes.
pub proof fn lemma_lowering_a_score(costs: Seq<u8>, budget: u8, a: Seq<Option<u8>>, remaining: u8, i: int)
    requires
        point_buy_settled(costs, budget, a, remaining),
        0 <= i < ABILITY_COUNT,
        a[i] is Some,
    ensures
        a[i]->0 > POINT_BUY_MIN ==> lowered_scores(a, i) == a.update(i, Some((a[i]->0 - 1) as u8)),
        a[i]->0 > POINT_BUY_MIN ==> budget - assigned_cost(costs, lowered_scores(a, i)) == remaining
            + cost_of(costs, a[i]->0 as int) - cost_of(costs, a[i]->0 - 1),
        a[i]->0 == POINT_BUY_MIN ==> lowered_scores(a, i) == a,
{
    let s = a[i]->0;
    if s > POINT_BUY_MIN {
        lemma_assigned_cost_update(costs, a, i, Some((s - 1) as u8));
    }
}

/// A click on `+` raises an assigned score below 15 by one when the extra
/// cost fits in the remaining budget, and takes that cost from it;
/// otherwise nothing changes. No other ability changes.
pub proof fn lemma_raising_a_score(costs: Seq<u8>, budget: u8, a: Seq<Option<u8>>, remaining: u8, i: int)
    requires
        point_buy_settled(costs, budget, a, remaining),
        0 <= i < ABILITY_COUNT,
        a[i] is Some,
    ensures
        ({
            let s = a[i]->0;
            let price = cost_of(costs, s + 1) - cost_of(costs, s as int);
            &&& s < POINT_BUY_MAX && price <= remaining ==> raised_scores(costs, a, remaining, i) == a.update(
                i,
                Some((s + 1) as u8),
            ) && budget - assigned_cost(costs, raised_scores(costs, a, remaining, i)) == remaining - price
            &&& !(s < POINT_BUY_MAX && price <= remaining) ==> raised_scores(costs, a, remaining, i) == a
        }),
{
    let s = a[i]->0;
    if s < POINT_BUY_MAX {
        lemma_assigned_cost_update(costs, a, i, Some((s + 1) as u8));
    }
}

/// Clicking the `+2` box of an ability gives it the `+2` bonus unless it
/// had it (then the `+2` is taken back), taking the `+1` off it; clicking
/// the `+1` box does the same with the bonuses swapped. The other bonus
/// stays where it was on any other ability.
pub proof fn lemma_bonus_clicks(plus_2: Option<Ability>, plus_1: Option<Ability>, ability: Ability)
    ensures
        plus_2 != Some(ability) ==> bonuses_after_plus_2(plus_2, plus_1, ability).0 == Some(ability),
        plus_2 == Some(ability) ==> bonuses_after_plus_2(plus_2, plus_1, ability).0 is None,
        plus_1 != Some(ability) ==> bonuses_after_plus_2(plus_2, plus_1, ability).1 == plus_1,
        plus_1 != Some(ability) ==> bonuses_after_plus_1(plus_2, plus_1, ability).1 == Some(ability),
        plus_1 == Some(ability) ==> bonuses_after_plus_1(plus_2, plus_1, ability).1 is None,
        plus_2 != Some(ability) ==> bonuses_after_plus_1(plus_2, plus_1, ability).0 == plus_2,
        bonuses_after_plus_2(plus_2, plus_1, ability).1 != Some(ability) || plus_2 == Some(ability),
        bonuses_after_plus_1(plus_2, plus_1, ability).0 != Some(ability) || plus_1 == Some(ability),
{
}

/// Clicking an option of a choice: with a single pick it becomes the pick;
/// otherwise a picked option is dropped (the others stay), and an option not
/// picked is added at the end while fewer than the required number are
/// picked, and ignored once they all are.
pub proof fn lemma_choice_click_behaviour(decisions: Seq<ChoiceItem>, required: u8, option: ChoiceItem)
    requires
        decisions.no_duplicates(),
    ensures
        required == 1 ==> choice_after_click(decisions, required, option) == seq![option],
        required != 1 && decisions.contains(option) ==> {
            &&& !choice_after_click(decisions, required, option).contains(option)
            &&& choice_after_click(decisions, required, option).len() == decisions.len() - 1
            &&& forall|o: ChoiceItem| o != option ==> (choice_after_click(decisions, required, option).contains(o)
                <==> decisions.contains(o))
        },
        required != 1 && !decisions.contains(option) && decisions.len() < required ==> choice_after_click(
            decisions,
            required,
            option,
        ) == decisions.push(option),
        required != 1 && !decisions.contains(option) && decisions.len() >= required ==> choice_after_click(
            decisions,
            required,
            option,
        ) == decisions,
{
    lemma_without(decisions, option);
}

/// Clicking the box of a skill the prompt offers and the character is not
/// yet proficient in: a picked skill is dropped and its pick given back; a
/// skill not picked is added while picks remain, taking one. A skill not
/// offered, or one the character already has, changes nothing.
pub proof fn lemma_skill_click_behaviour(
    options: Seq<bool>,
    all_skills: Seq<ProficiencyLevel>,
    selected: Seq<u8>,
    remaining: u8,
    skill: u8,
)
    requires
        selected.no_duplicates(),
    ensures
        ({
            let (s2, r2) = skills_after_click(options, all_skills, selected, remaining, skill);
            let open = options[skill as int] && all_skills[skill as int] == ProficiencyLevel::Untrained;
            &&& !open ==> s2 == selected && r2 == remaining
            &&& open && selected.contains(skill) ==> !s2.contains(skill) && s2.len() == selected.len() - 1
                && r2 == remaining + 1 && forall|k: u8| k != skill ==> (s2.contains(k) <==> selected.contains(k))
            &&& open && !selected.contains(skill) && remaining > 0 ==> s2 == selected.push(skill) && r2
                == remaining - 1
            &&& open && !selected.contains(skill) && remaining == 0 ==> s2 == selected && r2 == 0
        }),
{
    lemma_without(selected, skill);
}


/// The replay starts from the last prompt that needs it: a prompt needs a
/// replay when the session is complete but its decision is not, or its
/// decision is complete but the session does not hold it; no prompt after
/// the one found needs one, and none is found when no prompt needs one.
pub proof fn lemma_last_needing_replay(pending: Seq<LevelUpPromptWithProgress>, session_complete: bool, recorded: Seq<bool>)
    requires
        recorded.len() == pending.len(),
    ensures
        last_needing_replay(pending, session_complete, recorded) matches Some(i) ==> 0 <= i < pending.len()
            && needs_replay(pending[i], session_complete, recorded[i]) && forall|j: int|
            i < j < pending.len() ==> !needs_replay(#[trigger] pending[j], session_complete, recorded[j]),
        last_needing_replay(pending, session_complete, recorded) is None ==> forall|j: int|
            0 <= j < pending.len() ==> !needs_replay(#[trigger] pending[j], session_complete, recorded[j]),
        forall|p: LevelUpPromptWithProgress, r: bool|
            #[trigger] needs_replay(p, session_complete, r) <==> (session_complete && !progress_complete(p.progress))
                || (progress_complete(p.progress) && !r),
    decreases pending.len(),
{
    if pending.len() > 0 {
        let p = pending.drop_last();
        lemma_last_needing_replay(p, session_complete, recorded.drop_last());
        lemma_last_needing_replay_prefix(p, session_complete, recorded);
        let res = last_needing_replay(pending, session_complete, recorded);
        if needs_replay(pending.last(), session_complete, recorded[pending.len() - 1]) {
            assert(pending[pending.len() - 1] == pending.last());
        } else {
            assert forall|j: int| 0 <= j < pending.len() && !(res matches Some(i) && j <= i) implies !needs_replay(#[trigger] pending[j], session_complete, recorded[j]) by {
                if j < p.len() {
                    assert(pending[j] == p[j]);
                    assert(recorded[j] == recorded.drop_last()[j]);
                }
            }
            if let Some(i) = res {
                assert(pending[i] == p[i]);
                assert(recorded[i] == recorded.drop_last()[i]);
            }
        }
    }
}

proof fn lemma_last_needing_replay_prefix(p: Seq<LevelUpPromptWithProgress>, session_complete: bool, recorded: Seq<bool>)
    requires
        recorded.len() == p.len() + 1,
    ensures
        last_needing_replay(p, session_complete, recorded) == last_needing_replay(
            p,
            session_complete,
            recorded.drop_last(),
        ),
    decreases p.len(),
{
    if p.len() > 0 {
        let q = p.drop_last();
        assert(recorded[p.len() - 1] == recorded.drop_last()[p.len() - 1]);
        lemma_last_needing_replay_rec(q, session_complete, recorded, recorded.drop_last());
    }
}

proof fn lemma_last_needing_replay_rec(q: Seq<LevelUpPromptWithProgress>, session_complete: bool, a: Seq<bool>, b: Seq<bool>)
    requires
        q.len() <= a.len(),
        q.len() <= b.len(),
        forall|j: int| 0 <= j < q.len() ==> a[j] == b[j],
    ensures
        last_needing_replay(q, session_complete, a) == last_needing_replay(q, session_complete, b),
    decreases q.len(),
{
    if q.len() > 0 {
        lemma_last_needing_replay_rec(q.drop_last(), session_complete, a, b);
    }
}

/// The choices kept after a replay are complete choices the session
/// accepted, in their order: a complete choice is kept exactly when the
/// session accepted its decision.
pub proof fn lemma_kept_complete(s: Seq<LevelUpPromptWithProgress>, ok: Seq<bool>)
    requires
        ok.len() == count_complete(s),
    ensures
        kept_complete(s, ok).len() <= s.len(),
        forall|k: int| 0 <= k < kept_complete(s, ok).len() ==> progress_complete(
            (#[trigger] kept_complete(s, ok)[k]).progress,
        ),
        forall|i: int|
            0 <= i < s.len() && progress_complete((#[trigger] s[i]).progress) && ok[count_complete(s.take(i)) as int]
                ==> kept_complete(s, ok).contains(s[i]),
    decreases s.len(),
{
    if s.len() > 0 {
        let p = s.drop_last();
        lemma_count_complete_prefix(s, p.len() as int, s.len() as int);
        assert(s.take(p.len() as int) =~= p);
        assert(s.take(s.len() as int) =~= s);
        lemma_kept_complete_loose(p, ok);
        let r = kept_complete(p, ok);
        let n = kept_complete(s, ok);
        assert forall|k: int| 0 <= k < n.len() implies progress_complete((#[trigger] n[k]).progress) by {
            if k < r.len() {
                assert(n[k] == r[k]);
            }
        }
        assert forall|i: int|
            0 <= i < s.len() && progress_complete((#[trigger] s[i]).progress) && ok[count_complete(s.take(i)) as int]
                implies n.contains(s[i]) by {
            if i < p.len() {
                assert(s.take(i) =~= p.take(i));
                assert(p[i] == s[i]);
                assert(r.contains(p[i]));
                let k = choose|k: int| 0 <= k < r.len() && r[k] == p[i];
                assert(n[k] == r[k]);
            } else {
                assert(s.take(i) =~= p);
                assert(n[n.len() - 1] == s[i]);
            }
        }
    }
}

proof fn lemma_kept_complete_loose(s: Seq<LevelUpPromptWithProgress>, ok: Seq<bool>)
    requires
        ok.len() >= count_complete(s),
    ensures
        kept_complete(s, ok).len() <= s.len(),
        forall|k: int| 0 <= k < kept_complete(s, ok).len() ==> progress_complete(
            (#[trigger] kept_complete(s, ok)[k]).progress,
        ),
        forall|i: int|
            0 <= i < s.len() && progress_complete((#[trigger] s[i]).progress) && ok[count_complete(s.take(i)) as int]
                ==> kept_complete(s, ok).contains(s[i]),
    decreases s.len(),
{
    if s.len() > 0 {
        let p = s.drop_last();
        lemma_count_complete_prefix(s, p.len() as int, s.len() as int);
        assert(s.take(p.len() as int) =~= p);
        assert(s.take(s.len() as int) =~= s);
        lemma_kept_complete_loose(p, ok);
        let r = kept_complete(p, ok);
        let n = kept_complete(s, ok);
        assert forall|k: int| 0 <= k < n.len() implies progress_complete((#[trigger] n[k]).progress) by {
            if k < r.len() {
                assert(n[k] == r[k]);
            }
        }
        assert forall|i: int|
            0 <= i < s.len() && progress_complete((#[trigger] s[i]).progress) && ok[count_complete(s.take(i)) as int]
                implies n.contains(s[i]) by {
            if i < p.len() {
                assert(s.take(i) =~= p.take(i));
                assert(p[i] == s[i]);
                assert(r.contains(p[i]));
                let k = choose|k: int| 0 <= k < r.len() && r[k] == p[i];
                assert(n[k] == r[k]);
            } else {
                assert(s.take(i) =~= p);
                assert(n[n.len() - 1] == s[i]);
            }
        }
    }
}

/// The prompts added after a replay are prompts none of the kept entries
/// (nor an earlier added one) asks for already.
pub proof fn lemma_missing_prompts_new(have: Seq<LevelUpPrompt>, prompts: Seq<LevelUpPrompt>)
    ensures
        forall|k: int| 0 <= k < missing_prompts(have, prompts).len() ==> !has_same(
            have,
            #[trigger] missing_prompts(have, prompts)[k],
        ),
        missing_prompts(have, prompts).len() <= prompts.len(),
    decreases prompts.len(),
{
    if prompts.len() > 0 {
        lemma_missing_prompts_new(have, prompts.drop_last());
        let m = missing_prompts(have, prompts.drop_last());
        let n = missing_prompts(have, prompts);
        assert forall|k: int| 0 <= k < n.len() implies !has_same(have, #[trigger] n[k]) by {
            if k < m.len() {
                assert(n[k] == m[k]);
            } else {
                assert(!has_same(have + m, prompts.last()));
                if has_same(have, prompts.last()) {
                    let i = choose|i: int| 0 <= i < have.len() && same_prompt(#[trigger] have[i], prompts.last());
                    assert((have + m)[i] == have[i]);
                }
            }
        }
    }
}


/// On the improvement table, `+` next to an offered ability gives it one
/// more point when its score stays below the maximum and points are left,
/// taking one; `-` gives a point back when it has one. Other abilities keep
/// their points, an ability that is not offered cannot be clicked, "Reset"
/// gives every point back, and the start of a frame only adds empty
/// entries.
pub proof fn lemma_improvement_clicks(
    abilities: Seq<bool>,
    base: Seq<Option<u8>>,
    max_score: u8,
    budget: u8,
    s: (Seq<Option<u8>>, int),
    ab: Ability,
)
    requires
        s.0.len() == ABILITY_COUNT,
        abilities.len() == ABILITY_COUNT,
    ensures
        ({
            let i = ability_index(ab);
            let cur = entry_or_zero(s.0, i);
            let up = improvement_step(abilities, base, max_score, budget, s, ImprovementClick::Raise(ab));
            let down = improvement_step(abilities, base, max_score, budget, s, ImprovementClick::Lower(ab));
            &&& !abilities[i] ==> up == s && down == s
            &&& abilities[i] && base[i]->0 + cur < max_score && s.1 > 0 ==> entry_or_zero(up.0, i) == cur + 1
                && up.1 == s.1 - 1
            &&& abilities[i] && !(base[i]->0 + cur < max_score && s.1 > 0) ==> entry_or_zero(up.0, i) == cur
                && up.1 == s.1
            &&& abilities[i] && cur > 0 ==> entry_or_zero(down.0, i) == cur - 1 && down.1 == s.1 + 1
            &&& abilities[i] && cur == 0 ==> entry_or_zero(down.0, i) == 0 && down.1 == s.1
            &&& forall|j: int| 0 <= j < ABILITY_COUNT && j != i ==> #[trigger] up.0[j] == s.0[j] && down.0[j] == s.0[j]
            &&& improvement_step(abilities, base, max_score, budget, s, ImprovementClick::Reset) == (
                blank_improvement(),
                budget as int,
            )
            &&& forall|j: int| 0 <= j < ABILITY_COUNT ==> entry_or_zero(
                #[trigger] improvement_step(abilities, base, max_score, budget, s, ImprovementClick::Refresh).0,
                j,
            ) == entry_or_zero(s.0, j)
        }),
{
    let i = ability_index(ab);
    let cur = entry_or_zero(s.0, i);
    assert(0 <= cur <= 255);
}

} // verus!
