//! The character creation window: how its screens follow one another, which
//! character it holds, and how its level-up choices are replayed.
use vstd::prelude::*;
use crate::combat::EntityId;
use crate::level_up::{
    blank_progress, contains_skill, count_complete, has_same, has_same_prompt, kept_complete,
    lemma_without, missing_prompts, remove_skill, without,
    progress_complete, prompts_of, LevelUpDecisionProgress, LevelUpPrompt,
    LevelUpPromptWithProgress,
};

verus! {

/// The screen of the character creation window.
#[derive(Clone, Copy, Debug, PartialEq, Eq, Structural)]
pub enum CharacterCreationState {
    ChoosingMethod,
    FromPredefined,
    FromScratch,
    CreationComplete,
}

/// The character creation window: the screen shown (none while closed), the
/// character being made, and the level-up choices in progress.
pub struct CharacterCreation {
    pub state: Option<CharacterCreationState>,
    pub current_character: Option<EntityId>,
    pub pending_decisions: Vec<LevelUpPromptWithProgress>,
}

impl CharacterCreation {
    /// Closed, with no character.
    pub fn new() -> (c: Self)
        ensures
            c.state is None,
            c.current_character is None,
            c.pending_decisions@.len() == 0,
    {
        CharacterCreation { state: None, current_character: None, pending_decisions: Vec::new() }
    }

    /// Shows the screen `state`.
    pub fn set_state(&mut self, state: CharacterCreationState)
        ensures
            final(self).state == Some(state),
            final(self).current_character == old(self).current_character,
            final(self).pending_decisions@ == old(self).pending_decisions@,
    {
        self.state = Some(state);
    }

    /// A character has been made and can be taken.
    pub fn creation_complete(&self) -> (b: bool)
        ensures
            b == (self.state == Some(CharacterCreationState::CreationComplete)),
    {
        match self.state {
            Some(CharacterCreationState::CreationComplete) => true,
            _ => false,
        }
    }

    /// Closes the window and forgets the character and its choices; returns
    /// the character to remove from the scratch world, if there was one.
    pub fn reset(&mut self) -> (removed: Option<EntityId>)
        ensures
            removed == old(self).current_character,
            final(self).state is None,
            final(self).current_character is None,
            final(self).pending_decisions@.len() == 0,
    {
        let removed = self.current_character;
        self.state = None;
        self.current_character = None;
        self.pending_decisions = Vec::new();
        removed
    }

    /// Hands out the character made (to be copied out of the scratch world
    /// and then removed from it) and resets the window; `None`, with nothing
    /// changed, when there is no character.
    pub fn get_character(&mut self) -> (c: Option<EntityId>)
        ensures
            c == old(self).current_character,
            c is Some ==> final(self).state is None && final(self).current_character is None
                && final(self).pending_decisions@.len() == 0,
            c is None ==> final(self).state == old(self).state && final(self).pending_decisions@
                == old(self).pending_decisions@,
    {
        if self.current_character.is_some() {
            self.reset()
        } else {
            None
        }
    }

    /// "From Predefined" on the first screen.
    pub fn choose_predefined(&mut self)
        ensures
            final(self).state == Some(CharacterCreationState::FromPredefined),
            final(self).current_character == old(self).current_character,
            final(self).pending_decisions@ == old(self).pending_decisions@,
    {
        self.state = Some(CharacterCreationState::FromPredefined);
    }

    /// "From Scratch" on the first screen: starts over on the scratch
    /// screen; returns the character to remove, if there was one.
    pub fn choose_from_scratch(&mut self) -> (removed: Option<EntityId>)
        ensures
            removed == old(self).current_character,
            final(self).state == Some(CharacterCreationState::FromScratch),
            final(self).current_character is None,
            final(self).pending_decisions@.len() == 0,
    {
        let removed = self.reset();
        self.state = Some(CharacterCreationState::FromScratch);
        removed
    }

    /// "Cancel" on the first screen closes the window.
    pub fn cancel(&mut self)
        ensures
            final(self).state is None,
            final(self).current_character == old(self).current_character,
            final(self).pending_decisions@ == old(self).pending_decisions@,
    {
        self.state = None;
    }

    /// "Back" on the predefined or scratch screen.
    pub fn back(&mut self)
        ensures
            final(self).state == Some(CharacterCreationState::ChoosingMethod),
            final(self).current_character == old(self).current_character,
            final(self).pending_decisions@ == old(self).pending_decisions@,
    {
        self.state = Some(CharacterCreationState::ChoosingMethod);
    }

    /// "Add to World" under a predefined character: it is the character
    /// made.
    pub fn add_predefined(&mut self, entity: EntityId)
        ensures
            final(self).state == Some(CharacterCreationState::CreationComplete),
            final(self).current_character == Some(entity),
            final(self).pending_decisions@ == old(self).pending_decisions@,
    {
        self.current_character = Some(entity);
        self.state = Some(CharacterCreationState::CreationComplete);
    }

    /// The scratch screen made a fresh character.
    pub fn start_character(&mut self, entity: EntityId)
        ensures
            final(self).state == old(self).state,
            final(self).current_character == Some(entity),
            final(self).pending_decisions@ == old(self).pending_decisions@,
    {
        self.current_character = Some(entity);
    }

    /// "Level Up": allowed once the session has every choice it needs; the
    /// choices made are then dropped so that the next level's come up.
    /// Returns whether the level was taken.
    pub fn level_up(&mut self, session_complete: bool) -> (taken: bool)
        ensures
            taken == session_complete,
            final(self).state == old(self).state,
            final(self).current_character == old(self).current_character,
            final(self).pending_decisions@ == if session_complete {
                Seq::empty()
            } else {
                old(self).pending_decisions@
            },
    {
        if session_complete {
            self.pending_decisions = Vec::new();
        }
        session_complete
    }

    /// "Finish Character Creation": allowed once the session has every
    /// choice it needs.
    pub fn finish(&mut self, session_complete: bool)
        ensures
            final(self).state == if session_complete {
                Some(CharacterCreationState::CreationComplete)
            } else {
                old(self).state
            },
            final(self).current_character == old(self).current_character,
            final(self).pending_decisions@ == old(self).pending_decisions@,
    {
        if session_complete {
            self.state = Some(CharacterCreationState::CreationComplete);
        }
    }
}

/// A choice must be replayed when the session is complete but the choice
/// was undone, or when a complete choice is not among the session's
/// decisions.
pub open spec fn choice_changed(session_complete: bool, progress_complete: bool, known: bool) -> bool {
    (session_complete && !progress_complete) || (progress_complete && !known)
}

/// Whether a choice must be replayed on a fresh session.
pub fn decision_changed(session_complete: bool, progress_complete: bool, known: bool) -> (b: bool)
    ensures
        b == choice_changed(session_complete, progress_complete, known),
{
    (session_complete && !progress_complete) || (progress_complete && !known)
}

/// The choices after a replay on a fresh session: the complete ones the
/// session accepted (`ok` holds one flag per complete choice, in order),
/// then a blank choice for each prompt of the session not asked yet.
pub fn sync_pending_decisions(
    pending: Vec<LevelUpPromptWithProgress>,
    ok: &Vec<bool>,
    prompts: Vec<LevelUpPrompt>,
) -> (r: Vec<LevelUpPromptWithProgress>)
    requires
        ok.len() == count_complete(pending@),
    ensures
        ({
            let kept = kept_complete(pending@, ok@);
            let missing = missing_prompts(prompts_of(kept), prompts@);
            &&& r@.len() == kept.len() + missing.len()
            &&& r@.take(kept.len() as int) == kept
            &&& prompts_of(r@) == prompts_of(kept) + missing
            &&& forall|j: int|
                0 <= j < missing.len() ==> (#[trigger] r@[kept.len() + j]).prompt == missing[j]
                    && blank_progress(missing[j], r@[kept.len() + j].progress)
        }),
{
    let ghost orig = pending@;
    let mut pending = pending;
    let mut result: Vec<LevelUpPromptWithProgress> = Vec::new();
    let mut j: usize = 0;
    let ghost mut k: int = 0;
    while pending.len() > 0
        invariant
            0 <= k <= orig.len(),
            pending@ == orig.skip(k),
            ok.len() == count_complete(orig),
            j == count_complete(orig.take(k)),
            result@ == kept_complete(orig.take(k), ok@),
        decreases pending.len(),
    {
        proof {
            assert(orig.take(k + 1).drop_last() =~= orig.take(k));
            assert(orig.take(k + 1).last() == orig[k]);
            crate::level_up::lemma_count_complete_prefix(orig, k + 1, orig.len() as int);
            assert(orig.take(orig.len() as int) =~= orig);
            assert(pending@[0] == orig[k]);
        }
        let item = pending.remove(0);
        if item.progress.is_complete() {
            if ok[j] {
                result.push(item);
            }
            j = j + 1;
        }
        proof {
            k = k + 1;
            assert(pending@ =~= orig.skip(k));
        }
    }
    assert(orig.take(k) =~= orig);
    let ghost kept = result@;
    let ghost all_prompts = prompts@;
    let mut prompts = prompts;
    let ghost mut n: int = 0;
    while prompts.len() > 0
        invariant
            0 <= n <= all_prompts.len(),
            prompts@ == all_prompts.skip(n),
            ({
                let missing = missing_prompts(prompts_of(kept), all_prompts.take(n));
                &&& result@.len() == kept.len() + missing.len()
                &&& result@.take(kept.len() as int) == kept
                &&& prompts_of(result@) == prompts_of(kept) + missing
                &&& forall|j: int|
                    0 <= j < missing.len() ==> (#[trigger] result@[kept.len() + j]).prompt
                        == missing[j] && blank_progress(missing[j], result@[kept.len() + j].progress)
            }),
        decreases prompts.len(),
    {
        proof {
            assert(all_prompts.take(n + 1).drop_last() =~= all_prompts.take(n));
            assert(all_prompts.take(n + 1).last() == all_prompts[n]);
            assert(prompts@[0] == all_prompts[n]);
        }
        let q = prompts.remove(0);
        if !has_same_prompt(&result, &q) {
            let ghost before = result@;
            let progress = LevelUpDecisionProgress::from_prompt(&q);
            let initial_value = LevelUpDecisionProgress::from_prompt(&q);
            result.push(LevelUpPromptWithProgress { prompt: q, progress, initial_value });
            proof {
                assert(result@.take(kept.len() as int) =~= before.take(kept.len() as int));
                assert(prompts_of(result@) =~= prompts_of(before).push(q));
                let missing = missing_prompts(prompts_of(kept), all_prompts.take(n + 1));
                assert forall|j: int| 0 <= j < missing.len() implies (#[trigger] result@[kept.len()
                    + j]).prompt == missing[j] && blank_progress(
                    missing[j],
                    result@[kept.len() + j].progress,
                ) by {
                    if j < missing.len() - 1 {
                        assert(result@[kept.len() + j] == before[kept.len() + j]);
                    }
                }
            }
        }
        proof {
            n = n + 1;
            assert(prompts@ =~= all_prompts.skip(n));
        }
    }
    assert(all_prompts.take(n) =~= all_prompts);
    result
}


/// The skill picks of the character creation window and the picks left
/// after a click on the checkbox of `skill`: a picked skill is dropped, and
/// another one is added while fewer than `count` are picked.
pub open spec fn creation_skills_after_click(selected: Seq<u8>, remaining: int, count: u8, skill: u8) -> (
    Seq<u8>,
    int,
) {
    if selected.contains(skill) {
        (without(selected, skill), remaining + 1)
    } else if selected.len() < count {
        (selected.push(skill), remaining - 1)
    } else {
        (selected, remaining)
    }
}

/// A click on the checkbox of an offered skill in the character creation
/// window; `count` is how many skills the prompt asks for.
pub fn click_creation_skill(selected: &mut Vec<u8>, remaining: &mut u8, count: u8, skill: u8)
    requires
        old(selected)@.contains(skill) ==> *old(remaining) < 255,
        !old(selected)@.contains(skill) && old(selected)@.len() < count ==> *old(remaining) > 0,
    ensures
        (final(selected)@, *final(remaining) as int) == creation_skills_after_click(
            old(selected)@,
            *old(remaining) as int,
            count,
            skill,
        ),
{
    if contains_skill(selected, skill) {
        *selected = remove_skill(selected, skill);
        *remaining = *remaining + 1;
    } else if selected.len() < count as usize {
        selected.push(skill);
        *remaining = *remaining - 1;
    }
}

/// A click in the skill table of the character creation window: the
/// checkbox of a skill, or "Reset".
pub enum CreationSkillClick {
    Toggle(u8),
    Reset,
}

/// The picks and the picks left after the clicks `clicks`, in turn.
pub open spec fn creation_skills_after_clicks(
    count: u8,
    selected: Seq<u8>,
    remaining: int,
    clicks: Seq<CreationSkillClick>,
) -> (Seq<u8>, int)
    decreases clicks.len(),
{
    if clicks.len() == 0 {
        (selected, remaining)
    } else {
        let p = creation_skills_after_clicks(count, selected, remaining, clicks.drop_last());
        match clicks.last() {
            CreationSkillClick::Reset => (Seq::empty(), count as int),
            CreationSkillClick::Toggle(s) => creation_skills_after_click(p.0, p.1, count, s),
        }
    }
}

/// Whatever offered skills are clicked in the character creation window,
/// the picks stay distinct offered skills, never more than the prompt asks
/// for, and the picks plus the picks left make what it asks for.
pub proof fn lemma_creation_skill_clicks_keep_count(
    offered: Seq<u8>,
    count: u8,
    selected: Seq<u8>,
    remaining: int,
    clicks: Seq<CreationSkillClick>,
)
    requires
        selected.no_duplicates(),
        forall|s: u8| selected.contains(s) ==> offered.contains(s),
        forall|i: int| 0 <= i < clicks.len() ==> (#[trigger] clicks[i] matches CreationSkillClick::Toggle(s)
            ==> offered.contains(s)),
        remaining >= 0,
        selected.len() + remaining == count,
    ensures
        ({
            let r = creation_skills_after_clicks(count, selected, remaining, clicks);
            &&& r.0.no_duplicates()
            &&& forall|s: u8| r.0.contains(s) ==> offered.contains(s)
            &&& r.1 >= 0
            &&& r.0.len() + r.1 == count
            &&& r.0.len() <= count
        }),
    decreases clicks.len(),
{
    if clicks.len() > 0 {
        let prev = clicks.drop_last();
        assert forall|i: int| 0 <= i < prev.len() implies (#[trigger] prev[i] matches CreationSkillClick::Toggle(s)
            ==> offered.contains(s)) by {
            assert(prev[i] == clicks[i]);
        }
        lemma_creation_skill_clicks_keep_count(offered, count, selected, remaining, prev);
        let p = creation_skills_after_clicks(count, selected, remaining, prev);
        assert(clicks[clicks.len() - 1] == clicks.last());
        match clicks.last() {
            CreationSkillClick::Reset => {},
            CreationSkillClick::Toggle(s) => {
                lemma_without(p.0, s);
                let n = creation_skills_after_click(p.0, p.1, count, s);
                if !p.0.contains(s) && p.0.len() < count {
                    assert forall|a: int, b: int| 0 <= a < b < n.0.len() implies n.0[a] != n.0[b] by {
                        if b == n.0.len() - 1 {
                            assert(p.0[a] == n.0[a]);
                        }
                    }
                    assert forall|t: u8| n.0.contains(t) implies offered.contains(t) by {
                        let k = choose|k: int| 0 <= k < n.0.len() && n.0[k] == t;
                        if k < p.0.len() {
                            assert(p.0[k] == t);
                        }
                    }
                }
            },
        }
    }
}


/// A choice is replayed on a fresh session when the session was complete
/// but the choice is not, or when the choice is complete but the session
/// does not know it; a choice in progress that the session never finished
/// is not.
pub proof fn lemma_choice_changed(session_complete: bool, progress_complete: bool, known: bool)
    ensures
        session_complete && !progress_complete ==> choice_changed(session_complete, progress_complete, known),
        progress_complete && !known ==> choice_changed(session_complete, progress_complete, known),
        progress_complete && known ==> !choice_changed(session_complete, progress_complete, known),
        !session_complete && !progress_complete ==> !choice_changed(session_complete, progress_complete, known),
{
}

} // verus!
