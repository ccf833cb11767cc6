//! The main window's bookkeeping: which creature is selected and whose
//! action bar is shown, which encounter windows stay open, and which event
//! log is shown at which level.
use vstd::prelude::*;
use crate::combat::{EncounterWindow, EncounterWindowState, EntityId};
use crate::event_log::{level_from_index, LogLevel};

verus! {

/// What becomes of the action bar for the selected creature.
#[derive(Clone, Copy, Debug, PartialEq, Eq, Structural)]
pub enum BarUpdate {
    /// The bar already belongs to the selected creature.
    Keep,
    /// A new bar for this creature replaces the old one (if any).
    Replace(EntityId),
    /// Nothing is selected: the bar goes away.
    Remove,
}

/// The action bar follows the selection.
pub open spec fn bar_update(selected: Option<EntityId>, bar_entity: Option<EntityId>) -> BarUpdate {
    match selected {
        Some(e) => if bar_entity == Some(e) {
            BarUpdate::Keep
        } else {
            BarUpdate::Replace(e)
        },
        Option::None => BarUpdate::Remove,
    }
}

/// What becomes of the action bar, given the selected creature and the
/// creature whose bar is shown.
pub fn action_bar_update(selected: Option<EntityId>, bar_entity: Option<EntityId>) -> (u: BarUpdate)
    ensures
        u == bar_update(selected, bar_entity),
{
    match selected {
        Some(e) => match bar_entity {
            Some(b) => if b == e {
                BarUpdate::Keep
            } else {
                BarUpdate::Replace(e)
            },
            None => BarUpdate::Replace(e),
        },
        None => BarUpdate::Remove,
    }
}

/// The selection after a left click on a player-controlled creature: it is
/// selected, or deselected when it was the one selected.
pub open spec fn toggled_selection(selected: Option<EntityId>, clicked: EntityId) -> Option<EntityId> {
    if selected == Some(clicked) {
        Option::None
    } else {
        Some(clicked)
    }
}

/// The selection after a left click on the player-controlled creature
/// `clicked`.
pub fn toggle_selection(selected: Option<EntityId>, clicked: EntityId) -> (r: Option<EntityId>)
    ensures
        r == toggled_selection(selected, clicked),
{
    match selected {
        Some(s) => if s == clicked {
            None
        } else {
            Some(clicked)
        },
        None => Some(clicked),
    }
}

/// Clicking the same creature twice gives back the selection when that
/// creature was selected, and otherwise leaves nothing selected.
pub proof fn lemma_toggle_selection_twice(selected: Option<EntityId>, clicked: EntityId)
    ensures
        toggled_selection(toggled_selection(selected, clicked), clicked) == if selected == Some(clicked) {
            selected
        } else {
            Option::None
        },
{
}

/// An encounter needs at least two creatures.
pub fn new_encounter_allowed(creature_count: usize) -> (b: bool)
    ensures
        b == (creature_count >= 2),
{
    creature_count >= 2
}

/// The two entries of the "Spawn Creature" pop-up.
#[derive(Clone, Copy, Debug, PartialEq, Eq, Structural)]
pub enum SpawnChoice {
    NewCharacter,
    PredefinedCreature,
}

/// The entry at `index` of the "Spawn Creature" pop-up.
pub fn spawn_choice(index: usize) -> (c: SpawnChoice)
    requires
        index < 2,
    ensures
        c == if index == 0 { SpawnChoice::NewCharacter } else { SpawnChoice::PredefinedCreature },
{
    if index == 0 {
        SpawnChoice::NewCharacter
    } else {
        SpawnChoice::PredefinedCreature
    }
}

/// The event log window: scrolling, level, and source (0 for the world,
/// `i` for the `i`-th encounter window).
pub struct EventLogView {
    pub auto_scroll: bool,
    pub log_level: LogLevel,
    pub log_source: usize,
}

impl EventLogView {
    /// Scrolling along, at the info level, showing the world's log.
    pub fn new() -> (v: Self)
        ensures
            v.auto_scroll,
            v.log_level == LogLevel::Info,
            v.log_source == 0,
    {
        EventLogView { auto_scroll: true, log_level: LogLevel::Info, log_source: 0 }
    }

    /// Keeps the source at most the number of sources (the world and each
    /// encounter of the game).
    pub fn clamp_source(&mut self, source_count: usize)
        ensures
            final(self).log_source == if old(self).log_source < source_count {
                old(self).log_source
            } else {
                source_count
            },
            final(self).log_level == old(self).log_level,
            final(self).auto_scroll == old(self).auto_scroll,
    {
        if source_count < self.log_source {
            self.log_source = source_count;
        }
    }

    /// The encounter window whose log is shown (by position), or `None` for
    /// the world's log.
    pub fn shown_window(&self, window_count: usize) -> (w: Option<usize>)
        ensures
            w == if self.log_source == 0 || window_count < self.log_source {
                Option::<usize>::None
            } else {
                Some((self.log_source - 1) as usize)
            },
    {
        if self.log_source == 0 || window_count < self.log_source {
            None
        } else {
            Some(self.log_source - 1)
        }
    }

    /// The level picked in the level box, by position.
    pub fn pick_level(&mut self, index: usize)
        ensures
            final(self).log_level == level_from_index(index as int),
            final(self).log_source == old(self).log_source,
            final(self).auto_scroll == old(self).auto_scroll,
    {
        self.log_level = LogLevel::from(index);
    }
}

/// Opens a new encounter window with the given id and shows its log.
pub fn open_encounter(encounters: &mut Vec<EncounterWindow>, id: u64, log: &mut EventLogView)
    ensures
        final(encounters)@.len() == old(encounters)@.len() + 1,
        final(encounters)@.take(old(encounters)@.len() as int) == old(encounters)@,
        final(encounters)@.last().id == id,
        final(encounters)@.last().state matches EncounterWindowState::EncounterCreation { participants }
            && participants@.len() == 0,
        final(log).log_source == final(encounters)@.len(),
        final(log).log_level == old(log).log_level,
        final(log).auto_scroll == old(log).auto_scroll,
{
    encounters.push(EncounterWindow::new(id));
    log.log_source = encounters.len();
}

/// The id of the last finished encounter window, if any.
pub open spec fn last_finished(ws: Seq<EncounterWindow>) -> Option<u64>
    decreases ws.len(),
{
    if ws.len() == 0 {
        Option::None
    } else if ws.last().state is EncounterFinished {
        Some(ws.last().id)
    } else {
        last_finished(ws.drop_last())
    }
}

/// The ids of a list of encounter windows.
pub open spec fn window_ids(ws: Seq<EncounterWindow>) -> Seq<u64> {
    ws.map_values(|w: EncounterWindow| w.id)
}

/// Closes the windows of the last finished encounter: every window with
/// its id goes, the others stay in order.
pub fn remove_finished(encounters: Vec<EncounterWindow>) -> (r: Vec<EncounterWindow>)
    ensures
        match last_finished(encounters@) {
            Some(id) => window_ids(r@) == window_ids(encounters@).filter(|x: u64| x != id),
            Option::None => r@ == encounters@,
        },
{
    let mut finished: Option<u64> = None;
    let mut i: usize = 0;
    while i < encounters.len()
        invariant
            i <= encounters@.len(),
            finished == last_finished(encounters@.take(i as int)),
        decreases encounters@.len() - i,
    {
        assert(encounters@.take(i + 1).drop_last() =~= encounters@.take(i as int));
        if encounters[i].finished() {
            finished = Some(encounters[i].id);
        }
        i = i + 1;
    }
    assert(encounters@.take(encounters@.len() as int) =~= encounters@);
    let id = match finished {
        Some(id) => id,
        None => {
            return encounters;
        },
    };
    let ghost ids = window_ids(encounters@);
    let mut encounters = encounters;
    let mut r: Vec<EncounterWindow> = Vec::new();
    let ghost mut k: int = 0;
    proof {
        reveal(Seq::filter);
        assert(ids.take(0) =~= Seq::<u64>::empty());
        assert(window_ids(r@) =~= ids.take(0).filter(|x: u64| x != id));
        assert(ids.skip(0) =~= ids);
    }
    while encounters.len() > 0
        invariant
            0 <= k <= ids.len(),
            window_ids(encounters@) == ids.skip(k),
            window_ids(r@) == ids.take(k).filter(|x: u64| x != id),
        decreases encounters@.len(),
    {
        let ghost prev = encounters@;
        let w = encounters.remove(0);
        let ghost wid = w.id;
        proof {
            assert(window_ids(prev).len() == prev.len());
            assert(window_ids(prev)[0] == prev[0].id);
            assert(ids.skip(k)[0] == window_ids(prev)[0]);
            assert(ids.skip(k)[0] == wid);
            assert(ids[k] == wid);
            assert(ids.take(k + 1) =~= ids.take(k).push(wid));
            ids.take(k).lemma_filter_push(wid, |x: u64| x != id);
        }
        if w.id != id {
            let ghost before = window_ids(r@);
            r.push(w);
            assert(window_ids(r@) =~= before.push(wid));
        }
        proof {
            k = k + 1;
            assert(window_ids(encounters@) =~= window_ids(prev).drop_first());
            assert(window_ids(encounters@) =~= ids.skip(k));
        }
    }
    assert(ids.take(k) =~= ids);
    r
}


/// The action bar follows the selection: without a selection it goes; the
/// bar of the selected creature stays; any other bar (or none) is replaced
/// by one for the selected creature.
pub proof fn lemma_bar_follows_selection(selected: Option<EntityId>, bar_entity: Option<EntityId>)
    ensures
        selected is None ==> bar_update(selected, bar_entity) == BarUpdate::Remove,
        selected is Some && bar_entity == selected ==> bar_update(selected, bar_entity) == BarUpdate::Keep,
        selected is Some && bar_entity != selected ==> bar_update(selected, bar_entity) == BarUpdate::Replace(
            selected->0,
        ),
{
}

/// A left click on the selected creature deselects it; a click on any other
/// creature selects that one.
pub proof fn lemma_click_selects(selected: Option<EntityId>, clicked: EntityId)
    ensures
        selected == Some(clicked) ==> toggled_selection(selected, clicked) is None,
        selected != Some(clicked) ==> toggled_selection(selected, clicked) == Some(clicked),
{
}

/// The encounter whose windows close is the last finished one: none when
/// no window is finished, and otherwise the id of a finished window after
/// which no window is finished.
pub proof fn lemma_last_finished(ws: Seq<EncounterWindow>)
    ensures
        (forall|i: int| 0 <= i < ws.len() ==> !((#[trigger] ws[i]).state is EncounterFinished)) <==> last_finished(ws) is None,
        last_finished(ws) matches Some(id) ==> exists|i: int|
            0 <= i < ws.len() && (#[trigger] ws[i]).state is EncounterFinished && ws[i].id == id && forall|j: int|
                i < j < ws.len() ==> !(#[trigger] ws[j].state is EncounterFinished),
    decreases ws.len(),
{
    if ws.len() > 0 {
        let p = ws.drop_last();
        lemma_last_finished(p);
        if ws.last().state is EncounterFinished {
            assert(ws[ws.len() - 1].state is EncounterFinished);
        } else {
            if forall|i: int| 0 <= i < p.len() ==> !((#[trigger] p[i]).state is EncounterFinished) {
                assert forall|i: int| 0 <= i < ws.len() implies !((#[trigger] ws[i]).state is EncounterFinished) by {
                    if i < p.len() {
                        assert(ws[i] == p[i]);
                    }
                }
            } else {
                let i = choose|i: int| 0 <= i < p.len() && (#[trigger] p[i]).state is EncounterFinished;
                assert(ws[i] == p[i]);
            }
            if let Some(id) = last_finished(ws) {
                let i = choose|i: int|
                    0 <= i < p.len() && (#[trigger] p[i]).state is EncounterFinished && p[i].id == id && forall|j: int|
                        i < j < p.len() ==> !(#[trigger] p[j].state is EncounterFinished);
                assert(ws[i] == p[i]);
                assert forall|j: int| i < j < ws.len() implies !(#[trigger] ws[j].state is EncounterFinished) by {
                    if j < p.len() {
                        assert(ws[j] == p[j]);
                    }
                }
            }
        }
    }
}

} // verus!
