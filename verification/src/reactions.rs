//! The reactions window: which prompt it answers, which of its options is
//! the one chosen, and when every player-controlled reactor has decided.
use vstd::prelude::*;
use crate::combat::EntityId;

verus! {

/// A reaction option, known by the handle the game gave it.
pub type ReactionHandle = u64;

/// What a reactor has decided for a prompt: a reaction (or none), or an
/// action when the prompt asked for one.
#[derive(Clone, Copy, Debug, PartialEq, Eq, Structural)]
pub enum DecisionChoice {
    Reaction(Option<ReactionHandle>),
    Action,
}

/// An option is shown as chosen when the reactor's decision is to take it.
pub open spec fn option_chosen(decision: Option<DecisionChoice>, option: ReactionHandle) -> bool {
    decision == Some(DecisionChoice::Reaction(Some(option)))
}

/// Whether `option` is the reaction the reactor decided on.
pub fn is_option_selected(decision: Option<DecisionChoice>, option: ReactionHandle) -> (b: bool)
    ensures
        b == option_chosen(decision, option),
{
    match decision {
        Some(DecisionChoice::Reaction(Some(choice))) => choice == option,
        _ => false,
    }
}

/// The window waits for a prompt, or shows the reactors of one.
pub enum ReactionWindowState {
    Active { prompt_id: u64, reactors: Vec<EntityId> },
    Pending,
}

/// The reactions window.
pub struct ReactionsWindow {
    pub state: ReactionWindowState,
}

/// Every reactor is either not controlled by the player or has decided.
pub open spec fn all_decided(reactors: Seq<EntityId>, player_controlled: Seq<bool>, decided: Seq<EntityId>) -> bool {
    forall|i: int| 0 <= i < reactors.len() ==> !player_controlled[i] || decided.contains(#[trigger] reactors[i])
}

/// The reactors that have decided once the frame's submission is counted:
/// the submitted reactor joins them when the game accepted its decision.
pub open spec fn decided_after(decided: Seq<EntityId>, submitted: Option<(EntityId, bool)>) -> Seq<EntityId> {
    match submitted {
        Some((reactor, true)) => decided.push(reactor),
        _ => decided,
    }
}

fn contains_entity(v: &Vec<EntityId>, e: EntityId) -> (b: bool)
    ensures
        b == v@.contains(e),
{
    let mut i: usize = 0;
    while i < v.len()
        invariant
            i <= v.len(),
            forall|j: int| 0 <= j < i ==> v@[j] != e,
        decreases v.len() - i,
    {
        if v[i] == e {
            return true;
        }
        i = i + 1;
    }
    false
}

impl ReactionsWindow {
    /// Waiting for a prompt.
    pub fn new() -> (w: Self)
        ensures
            w.state is Pending,
    {
        ReactionsWindow { state: ReactionWindowState::Pending }
    }

    /// Whether the window shows a prompt.
    pub fn is_active(&self) -> (b: bool)
        ensures
            b == (self.state is Active),
    {
        match self.state {
            ReactionWindowState::Active { .. } => true,
            ReactionWindowState::Pending => false,
        }
    }

    /// Shows the prompt `prompt_id` to its `reactors`.
    pub fn activate(&mut self, prompt_id: u64, reactors: Vec<EntityId>)
        ensures
            final(self).state matches ReactionWindowState::Active { prompt_id: p, reactors: r }
                && p == prompt_id && r@ == reactors@,
    {
        self.state = ReactionWindowState::Active { prompt_id, reactors };
    }

    /// Ends a frame of the window: `decided` holds the reactors that had
    /// decided before the frame (`None` when the game has no decisions for
    /// the prompt), `submitted` the reactor whose decision was sent this
    /// frame and whether the game accepted it, `player_controlled` one flag
    /// per reactor. An active window goes back to waiting once every
    /// player-controlled reactor has decided; returns whether it did. A
    /// frame while waiting changes nothing.
    pub fn end_frame(
        &mut self,
        decided: Option<Vec<EntityId>>,
        submitted: Option<(EntityId, bool)>,
        player_controlled: &Vec<bool>,
    ) -> (closed: bool)
        requires
            old(self).state matches ReactionWindowState::Active { reactors, .. } ==> player_controlled@.len()
                == reactors@.len(),
        ensures
            closed == match old(self).state {
                ReactionWindowState::Active { reactors, .. } => frame_closes(
                    reactors@,
                    ReactionFrame {
                        decided: match decided {
                            Some(d) => Some(d@),
                            Option::None => Option::None,
                        },
                        submitted,
                        player_controlled: player_controlled@,
                    },
                ),
                ReactionWindowState::Pending => false,
            },
            closed ==> final(self).state is Pending,
            !closed ==> final(self).state == old(self).state,
    {
        if !self.is_active() {
            return false;
        }
        let mut keys = match decided {
            Some(d) => d,
            None => {
                return false;
            },
        };
        match submitted {
            Some((reactor, true)) => {
                keys.push(reactor);
            },
            _ => {},
        }
        let done = match &self.state {
            ReactionWindowState::Active { reactors, .. } => {
                let mut i: usize = 0;
                let mut all = true;
                while i < reactors.len()
                    invariant
                        i <= reactors@.len(),
                        player_controlled@.len() == reactors@.len(),
                        all == all_decided(reactors@.take(i as int), player_controlled@, keys@),
                    decreases reactors@.len() - i,
                {
                    let ok = !player_controlled[i] || contains_entity(&keys, reactors[i]);
                    proof {
                        let t = reactors@.take(i as int);
                        let t1 = reactors@.take(i + 1);
                        assert(t1[i as int] == reactors@[i as int]);
                        assert forall|j: int| 0 <= j < i implies t1[j] == t[j] by {}
                        if all_decided(t1, player_controlled@, keys@) {
                            assert(!player_controlled@[i as int] || keys@.contains(t1[i as int]));
                        }
                        if all_decided(t, player_controlled@, keys@) && ok {
                            assert forall|j: int| 0 <= j < t1.len() implies !player_controlled@[j] || keys@.contains(#[trigger] t1[j]) by {
                                if j < i {
                                    assert(t1[j] == t[j]);
                                }
                            }
                        }
                    }
                    all = all && ok;
                    i = i + 1;
                }
                assert(reactors@.take(reactors@.len() as int) =~= reactors@);
                all
            },
            ReactionWindowState::Pending => false,
        };
        if done {
            self.state = ReactionWindowState::Pending;
        }
        done
    }
}


/// What the game tells the window at the end of a frame: the reactors that
/// had decided (`None` without decisions for the prompt), the decision sent
/// this frame and whether it was accepted, and which reactors the player
/// controls.
pub struct ReactionFrame {
    pub decided: Option<Seq<EntityId>>,
    pub submitted: Option<(EntityId, bool)>,
    pub player_controlled: Seq<bool>,
}

/// An active window with `reactors` goes back to waiting at the end of the
/// frame `f`: every player-controlled reactor has decided.
pub open spec fn frame_closes(reactors: Seq<EntityId>, f: ReactionFrame) -> bool {
    match f.decided {
        Some(d) => all_decided(reactors, f.player_controlled, decided_after(d, f.submitted)),
        Option::None => false,
    }
}

/// Whether the window (active or not at first, showing `reactors`) is still
/// active after the frames `frames`.
pub open spec fn active_after_frames(active: bool, reactors: Seq<EntityId>, frames: Seq<ReactionFrame>) -> bool
    decreases frames.len(),
{
    if frames.len() == 0 {
        active
    } else {
        active_after_frames(active, reactors, frames.drop_last()) && !frame_closes(reactors, frames.last())
    }
}

/// Over any frames, a waiting window stays waiting, and an active window
/// goes back to waiting only at the end of a frame in which every
/// player-controlled reactor had decided; while that never happens it stays
/// active.
pub proof fn lemma_reactions_close_only_when_decided(
    active: bool,
    reactors: Seq<EntityId>,
    frames: Seq<ReactionFrame>,
)
    ensures
        !active ==> !active_after_frames(active, reactors, frames),
        active && !active_after_frames(active, reactors, frames) ==> exists|k: int|
            0 <= k < frames.len() && #[trigger] frame_closes(reactors, frames[k]),
        active && (forall|k: int| 0 <= k < frames.len() ==> !#[trigger] frame_closes(reactors, frames[k]))
            ==> active_after_frames(active, reactors, frames),
    decreases frames.len(),
{
    if frames.len() > 0 {
        let prev = frames.drop_last();
        lemma_reactions_close_only_when_decided(active, reactors, prev);
        if active && !active_after_frames(active, reactors, frames) {
            if active_after_frames(active, reactors, prev) {
                assert(frame_closes(reactors, frames[frames.len() - 1]));
            } else {
                let k = choose|k: int| 0 <= k < prev.len() && #[trigger] frame_closes(reactors, prev[k]);
                assert(frames[k] == prev[k]);
            }
        }
        if active && (forall|k: int| 0 <= k < frames.len() ==> !#[trigger] frame_closes(reactors, frames[k])) {
            assert forall|k: int| 0 <= k < prev.len() implies !#[trigger] frame_closes(reactors, prev[k]) by {
                assert(frames[k] == prev[k]);
            }
            assert(!frame_closes(reactors, frames[frames.len() - 1]));
        }
    }
}


/// An active window closes at the end of a frame exactly when the game
/// has decisions for the prompt and every player-controlled reactor has
/// decided before the frame or had its decision accepted in it; a refused
/// submission does not count.
pub proof fn lemma_frame_closes_exact(reactors: Seq<EntityId>, f: ReactionFrame)
    requires
        f.player_controlled.len() == reactors.len(),
    ensures
        f.decided is None ==> !frame_closes(reactors, f),
        f.decided matches Some(d) ==> (frame_closes(reactors, f) <==> forall|i: int|
            0 <= i < reactors.len() && #[trigger] f.player_controlled[i] ==> d.contains(reactors[i])
                || f.submitted == Some((reactors[i], true))),
{
    if let Some(d) = f.decided {
        let all = decided_after(d, f.submitted);
        assert forall|x: EntityId| all.contains(x) <==> (d.contains(x) || f.submitted == Some((x, true))) by {
            if f.submitted == Some((x, true)) {
                assert(all[all.len() - 1] == x);
            }
            if all.contains(x) && !d.contains(x) {
                let k = choose|k: int| 0 <= k < all.len() && all[k] == x;
                if let Some((y, ok)) = f.submitted {
                    if ok && k < d.len() {
                        assert(d[k] == x);
                    }
                }
            }
            if d.contains(x) {
                let k = choose|k: int| 0 <= k < d.len() && d[k] == x;
                if let Some((y, ok)) = f.submitted {
                    if ok {
                        assert(all[k] == x);
                    }
                }
            }
        }
    }
}

/// An option is shown as chosen exactly when the reactor decided to take
/// that reaction.
pub proof fn lemma_option_chosen(decision: Option<DecisionChoice>, option: ReactionHandle)
    ensures
        option_chosen(decision, option) <==> decision == Some(DecisionChoice::Reaction(Some(option))),
        decision is None || decision == Some(DecisionChoice::Action) || decision == Some(
            DecisionChoice::Reaction(Option::None),
        ) ==> !option_chosen(decision, option),
{
}

} // verus!
