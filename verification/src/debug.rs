//! The debug pop-ups of characters and creatures: which menu they show and
//! what a click on one of their buttons asks the game to do.
use vstd::prelude::*;
use crate::combat::EntityId;

verus! {

/// The kind of d20 check a debug pop-up rolls.
#[derive(Clone, Copy, Debug, PartialEq, Eq, Structural)]
pub enum CheckKind {
    SavingThrow,
    SkillCheck,
}

/// How much time passes for a creature.
#[derive(Clone, Copy, Debug, PartialEq, Eq, Structural)]
pub enum RestKind {
    Turn,
    ShortRest,
    LongRest,
}

/// What a click in a debug pop-up asks the game to do. Check indices count
/// the saving throw kinds, abilities or skills in their listed order.
#[derive(Clone, Copy, Debug, PartialEq, Eq, Structural)]
pub enum DebugAction {
    Despawn,
    HealFull,
    SavingThrow { index: usize, dc: i32 },
    SkillCheck { index: usize, dc: i32 },
    PassTime(RestKind),
    SetPlayerControlled(bool),
}

/// The DC a new check starts with.
pub const DEFAULT_DC: i32 = 10;

/// The menu of a character's debug pop-up.
#[derive(Clone, Copy, Debug, PartialEq, Eq, Structural)]
pub enum CharacterDebugState {
    MainMenu,
    Check { kind: CheckKind, dc_value: i32 },
}

/// The debug pop-up of a character.
pub struct CharacterDebugGui {
    pub character: EntityId,
    pub state: CharacterDebugState,
}

/// What a check button does: roll the check of the `index`-th item against
/// the DC typed in.
pub open spec fn check_action(kind: CheckKind, index: usize, dc: i32) -> DebugAction {
    match kind {
        CheckKind::SavingThrow => DebugAction::SavingThrow { index, dc },
        CheckKind::SkillCheck => DebugAction::SkillCheck { index, dc },
    }
}

fn roll_check(kind: CheckKind, index: usize, dc: i32) -> (a: DebugAction)
    ensures
        a == check_action(kind, index, dc),
{
    match kind {
        CheckKind::SavingThrow => DebugAction::SavingThrow { index, dc },
        CheckKind::SkillCheck => DebugAction::SkillCheck { index, dc },
    }
}

impl CharacterDebugGui {
    /// The pop-up of `character`, on its main menu.
    pub fn new(character: EntityId) -> (g: Self)
        ensures
            g.character == character,
            g.state == CharacterDebugState::MainMenu,
    {
        CharacterDebugGui { character, state: CharacterDebugState::MainMenu }
    }

    /// A click on the main menu's buttons "Heal Full", "Saving Throw" and
    /// "Skill Check" (in that order): healing is done at once, the checks
    /// open their menu with the default DC.
    pub fn click_main_menu(&mut self, index: usize) -> (a: Option<DebugAction>)
        requires
            old(self).state == CharacterDebugState::MainMenu,
            index < 3,
        ensures
            final(self).character == old(self).character,
            index == 0 ==> a == Some(DebugAction::HealFull) && final(self).state == old(self).state,
            index == 1 ==> a is None && final(self).state == (CharacterDebugState::Check {
                kind: CheckKind::SavingThrow,
                dc_value: DEFAULT_DC,
            }),
            index == 2 ==> a is None && final(self).state == (CharacterDebugState::Check {
                kind: CheckKind::SkillCheck,
                dc_value: DEFAULT_DC,
            }),
    {
        if index == 0 {
            Some(DebugAction::HealFull)
        } else if index == 1 {
            self.state = CharacterDebugState::Check { kind: CheckKind::SavingThrow, dc_value: DEFAULT_DC };
            None
        } else {
            self.state = CharacterDebugState::Check { kind: CheckKind::SkillCheck, dc_value: DEFAULT_DC };
            None
        }
    }

    /// The DC typed into a check menu.
    pub fn set_dc(&mut self, value: i32)
        ensures
            final(self).character == old(self).character,
            final(self).state == match old(self).state {
                CharacterDebugState::Check { kind, .. } => CharacterDebugState::Check { kind, dc_value: value },
                s => s,
            },
    {
        match self.state {
            CharacterDebugState::Check { kind, .. } => {
                self.state = CharacterDebugState::Check { kind, dc_value: value };
            },
            _ => {},
        }
    }

    /// A click on the `index`-th ability (saving throw) or skill (skill
    /// check) of a check menu: roll it against the DC; the pop-up then
    /// closes on the same menu.
    pub fn click_check(&self, index: usize) -> (a: DebugAction)
        requires
            self.state is Check,
        ensures
            a == check_action(self.state->kind, index, self.state->dc_value),
    {
        match self.state {
            CharacterDebugState::Check { kind, dc_value } => roll_check(kind, index, dc_value),
            CharacterDebugState::MainMenu => DebugAction::HealFull,
        }
    }
}

/// The menu of a creature's debug pop-up.
#[derive(Clone, Copy, Debug, PartialEq, Eq, Structural)]
pub enum CreatureDebugState {
    MainMenu,
    Check { kind: CheckKind, dc_value: i32 },
    PassTime,
    TogglePlayerControl,
}

/// The debug pop-up of a creature.
pub struct CreatureDebugWindow {
    pub state: CreatureDebugState,
    pub creature: EntityId,
}

/// What a click does in a debug pop-up: the action asked of the game, and
/// whether the pop-up closes.
pub type DebugClick = (Option<DebugAction>, bool);

impl CreatureDebugWindow {
    /// The pop-up of `creature`, on its main menu.
    pub fn new(creature: EntityId) -> (w: Self)
        ensures
            w.creature == creature,
            w.state == CreatureDebugState::MainMenu,
    {
        CreatureDebugWindow { state: CreatureDebugState::MainMenu, creature }
    }

    /// A click on the main menu's buttons "Despawn", "Heal Full", "Pass
    /// Time", "Toggle Player Control", "Saving Throw" and "Skill Check" (in
    /// that order).
    pub fn click_main_menu(&mut self, index: usize) -> (c: DebugClick)
        requires
            old(self).state == CreatureDebugState::MainMenu,
            index < 6,
        ensures
            final(self).creature == old(self).creature,
            index == 0 ==> c == (Some(DebugAction::Despawn), true) && final(self).state == old(self).state,
            index == 1 ==> c == (Some(DebugAction::HealFull), true) && final(self).state == old(self).state,
            index == 2 ==> c == (Option::<DebugAction>::None, false) && final(self).state == CreatureDebugState::PassTime,
            index == 3 ==> c == (Option::<DebugAction>::None, false) && final(self).state
                == CreatureDebugState::TogglePlayerControl,
            index == 4 ==> c == (Option::<DebugAction>::None, false) && final(self).state == (CreatureDebugState::Check {
                kind: CheckKind::SavingThrow,
                dc_value: DEFAULT_DC,
            }),
            index == 5 ==> c == (Option::<DebugAction>::None, false) && final(self).state == (CreatureDebugState::Check {
                kind: CheckKind::SkillCheck,
                dc_value: DEFAULT_DC,
            }),
    {
        if index == 0 {
            (Some(DebugAction::Despawn), true)
        } else if index == 1 {
            (Some(DebugAction::HealFull), true)
        } else if index == 2 {
            self.state = CreatureDebugState::PassTime;
            (None, false)
        } else if index == 3 {
            self.state = CreatureDebugState::TogglePlayerControl;
            (None, false)
        } else if index == 4 {
            self.state = CreatureDebugState::Check { kind: CheckKind::SavingThrow, dc_value: DEFAULT_DC };
            (None, false)
        } else {
            self.state = CreatureDebugState::Check { kind: CheckKind::SkillCheck, dc_value: DEFAULT_DC };
            (None, false)
        }
    }

    /// The DC typed into a check menu.
    pub fn set_dc(&mut self, value: i32)
        ensures
            final(self).creature == old(self).creature,
            final(self).state == match old(self).state {
                CreatureDebugState::Check { kind, .. } => CreatureDebugState::Check { kind, dc_value: value },
                s => s,
            },
    {
        match self.state {
            CreatureDebugState::Check { kind, .. } => {
                self.state = CreatureDebugState::Check { kind, dc_value: value };
            },
            _ => {},
        }
    }

    /// A click on the `index`-th button of the check, pass-time ("New Turn",
    /// "Short Rest", "Long Rest") or player-control ("Set Player
    /// Controlled", "Set AI Controlled") menu; the pop-up then closes on the
    /// same menu.
    pub fn click_submenu(&self, index: usize) -> (c: DebugClick)
        requires
            !(self.state is MainMenu),
            self.state is PassTime ==> index < 3,
            self.state is TogglePlayerControl ==> index < 2,
        ensures
            c.1,
            c.0 == Some(match self.state {
                CreatureDebugState::Check { kind, dc_value } => check_action(kind, index, dc_value),
                CreatureDebugState::PassTime => DebugAction::PassTime(
                    if index == 0 {
                        RestKind::Turn
                    } else if index == 1 {
                        RestKind::ShortRest
                    } else {
                        RestKind::LongRest
                    },
                ),
                _ => DebugAction::SetPlayerControlled(index == 0),
            }),
    {
        match self.state {
            CreatureDebugState::Check { kind, dc_value } => (Some(roll_check(kind, index, dc_value)), true),
            CreatureDebugState::PassTime => {
                let rest = if index == 0 {
                    RestKind::Turn
                } else if index == 1 {
                    RestKind::ShortRest
                } else {
                    RestKind::LongRest
                };
                (Some(DebugAction::PassTime(rest)), true)
            },
            _ => (Some(DebugAction::SetPlayerControlled(index == 0)), true),
        }
    }
}


/// The menu of the pop-up opened by a right click on a creature.
pub enum CreatureRightClickState {
    MainMenu,
    InspectCreature,
    DebugCreature(CreatureDebugWindow),
}

/// The pop-up opened by a right click on a creature.
pub struct CreatureRightClickWindow {
    pub state: CreatureRightClickState,
    pub entity: EntityId,
}

impl CreatureRightClickWindow {
    /// The pop-up for `entity`, on its main menu.
    pub fn new(entity: EntityId) -> (w: Self)
        ensures
            w.entity == entity,
            w.state is MainMenu,
    {
        CreatureRightClickWindow { state: CreatureRightClickState::MainMenu, entity }
    }

    /// A click on "Inspect" (0) or "Debug" (1) of the main menu; any other
    /// index changes nothing.
    pub fn click_main_menu(&mut self, index: usize)
        requires
            old(self).state is MainMenu,
        ensures
            final(self).entity == old(self).entity,
            index == 0 ==> final(self).state is InspectCreature,
            index == 1 ==> (final(self).state matches CreatureRightClickState::DebugCreature(w) && w.creature
                == old(self).entity && w.state == CreatureDebugState::MainMenu),
            index > 1 ==> final(self).state is MainMenu,
    {
        if index == 0 {
            self.state = CreatureRightClickState::InspectCreature;
        } else if index == 1 {
            self.state = CreatureRightClickState::DebugCreature(CreatureDebugWindow::new(self.entity));
        }
    }
}

/// A check button rolls the check of its kind for the item clicked, against
/// the DC typed in.
pub proof fn lemma_check_action(kind: CheckKind, index: usize, dc: i32)
    ensures
        kind == CheckKind::SavingThrow ==> check_action(kind, index, dc) == (DebugAction::SavingThrow { index, dc }),
        kind == CheckKind::SkillCheck ==> check_action(kind, index, dc) == (DebugAction::SkillCheck { index, dc }),
{
}

} // verus!
