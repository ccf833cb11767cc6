//! Rows of the character tables: skills grouped under their abilities, and
//! the use counts of resources.
use vstd::prelude::*;
use crate::level_up::Ability;
use crate::text::{decimal, decimal_string, push_char, push_text};

verus! {

/// A row of the skills table: an ability heading, or the skill at a
/// position of the skill list.
#[derive(Clone, Copy, Debug, PartialEq, Eq, Structural)]
pub enum SkillRow {
    Heading(Ability),
    Skill(usize),
}

/// The rows of the skills table for skills whose abilities are listed in
/// `abilities`: a heading wherever the ability differs from the one before
/// (the first skill is compared with Charisma, the last ability).
pub open spec fn skill_rows(abilities: Seq<Ability>) -> Seq<SkillRow>
    decreases abilities.len(),
{
    if abilities.len() == 0 {
        Seq::empty()
    } else {
        let n = abilities.len() - 1;
        let prev = if n == 0 { Ability::Charisma } else { abilities[n - 1] };
        let head = if abilities[n] != prev {
            seq![SkillRow::Heading(abilities[n])]
        } else {
            Seq::empty()
        };
        skill_rows(abilities.drop_last()) + head + seq![SkillRow::Skill(n as usize)]
    }
}

/// The rows of the skills table.
pub fn skill_table(abilities: &Vec<Ability>) -> (rows: Vec<SkillRow>)
    ensures
        rows@ == skill_rows(abilities@),
{
    let mut rows: Vec<SkillRow> = Vec::new();
    let mut prev = Ability::Charisma;
    let mut i: usize = 0;
    while i < abilities.len()
        invariant
            i <= abilities@.len(),
            prev == if i == 0 { Ability::Charisma } else { abilities@[i - 1] },
            rows@ == skill_rows(abilities@.take(i as int)),
        decreases abilities@.len() - i,
    {
        let ghost t = abilities@.take(i + 1);
        assert(t.drop_last() =~= abilities@.take(i as int));
        let ability = abilities[i];
        if ability != prev {
            rows.push(SkillRow::Heading(ability));
            prev = ability;
        }
        rows.push(SkillRow::Skill(i));
        assert(rows@ =~= skill_rows(t));
        prev = ability;
        i = i + 1;
    }
    assert(abilities@.take(abilities@.len() as int) =~= abilities@);
    rows
}

/// The count column of a resource: uses left, a slash, uses in all.
pub open spec fn budget_text(current: u64, max: u64) -> Seq<char> {
    decimal(current as nat) + seq!['/'] + decimal(max as nat)
}

/// The count column of a resource with `current` of `max` uses left.
pub fn budget_label(current: u64, max: u64) -> (s: String)
    ensures
        s@ == budget_text(current, max),
{
    let mut s = decimal_string(current);
    push_char(&mut s, '/');
    let m = decimal_string(max);
    push_text(&mut s, m.as_str());
    s
}


/// The skills table grows one skill at a time: the rows of the first
/// `i + 1` skills are those of the first `i`, then a heading for the new
/// skill's ability when it differs from the one before (from Charisma for
/// the first skill, so Strength skills open with their heading), then the
/// skill itself.
pub proof fn lemma_skill_rows_grow(abilities: Seq<Ability>, i: int)
    requires
        0 <= i < abilities.len(),
    ensures
        ({
            let prev = if i == 0 { Ability::Charisma } else { abilities[i - 1] };
            skill_rows(abilities.take(i + 1)) == skill_rows(abilities.take(i)) + (if abilities[i] != prev {
                seq![SkillRow::Heading(abilities[i])]
            } else {
                Seq::<SkillRow>::empty()
            }) + seq![SkillRow::Skill(i as usize)]
        }),
        skill_rows(abilities.take(0)).len() == 0,
{
    let t = abilities.take(i + 1);
    assert(t.drop_last() =~= abilities.take(i));
    assert(t[i] == abilities[i]);
    if i > 0 {
        assert(t[i - 1] == abilities[i - 1]);
    }
    assert(abilities.take(0) =~= Seq::<Ability>::empty());
}


/// The count column reads `left/all`: the digits before the slash read back
/// as the uses left, those after it as all the uses.
pub proof fn lemma_budget_text(current: u64, max: u64)
    ensures
        ({
            let t = budget_text(current, max);
            let k = decimal(current as nat).len() as int;
            &&& t[k] == '/'
            &&& crate::text::decimal_value(t.take(k)) == current
            &&& crate::text::decimal_value(t.skip(k + 1)) == max
        }),
{
    crate::text::lemma_decimal_reads_back(current as nat);
    crate::text::lemma_decimal_reads_back(max as nat);
    let t = budget_text(current, max);
    let k = decimal(current as nat).len() as int;
    assert(t.take(k) =~= decimal(current as nat));
    assert(t.skip(k + 1) =~= decimal(max as nat));
}

} // verus!
