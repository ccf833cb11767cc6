//! Decisions of the combat windows: which actions the action bar offers, how
//! a click moves it from picking an action to picking a context and targets,
//! and how targets are picked for each kind of targeting.
use vstd::prelude::*;

verus! {

/// Identifies a creature of the game world.
pub type EntityId = u64;

/// What an action is aimed at: a creature, or a point of the world (known to
/// the renderer by a handle).
#[derive(Clone, Copy, Debug, PartialEq, Eq, Structural)]
pub enum TargetInstance {
    Entity(EntityId),
    Point(u64),
}

/// How an action picks its targets.
#[derive(Clone, Copy, Debug, PartialEq, Eq, Structural)]
pub enum TargetingKind {
    SelfTarget,
    Single,
    Multiple { max_targets: u8 },
    Area,
}

/// One way of performing an action (a weapon slot, a spell level...), known
/// by a handle, with a handle on its resource cost.
#[derive(Clone, Copy, Debug, PartialEq, Eq, Structural)]
pub struct ContextOption {
    pub context: u64,
    pub cost: u64,
    /// The cost includes the reaction resource.
    pub costs_reaction: bool,
    /// The engine allows the action in this context right now.
    pub usable: bool,
}

/// An action the creature knows, and the contexts it can be performed in.
pub struct ActionEntry {
    pub action_id: u64,
    /// The action is a reaction.
    pub is_reaction: bool,
    pub contexts: Vec<ContextOption>,
}

/// An action about to be submitted: who performs it, in which context, at what.
pub struct ActionData {
    pub actor: EntityId,
    pub action_id: u64,
    pub context: u64,
    pub cost: u64,
    pub targets: Vec<TargetInstance>,
}

/// The action bar offers an action: it is not a reaction and some context of
/// it does not cost the reaction.
pub open spec fn action_offered(a: ActionEntry) -> bool {
    &&& !a.is_reaction
    &&& exists|j: int| 0 <= j < a.contexts@.len() && !(#[trigger] a.contexts@[j]).costs_reaction
}

/// Some context of the action can be used now.
pub open spec fn action_usable(a: ActionEntry) -> bool {
    exists|j: int| 0 <= j < a.contexts@.len() && (#[trigger] a.contexts@[j]).usable
}

/// Whether the action bar shows `a` (reactions and actions that only cost
/// the reaction are left out).
pub fn is_offered(a: &ActionEntry) -> (r: bool)
    ensures
        r == action_offered(*a),
{
    if a.is_reaction {
        return false;
    }
    let mut j: usize = 0;
    while j < a.contexts.len()
        invariant
            !a.is_reaction,
            j <= a.contexts.len(),
            forall|k: int| 0 <= k < j ==> (#[trigger] a.contexts@[k]).costs_reaction,
        decreases a.contexts.len() - j,
    {
        if !a.contexts[j].costs_reaction {
            assert(!a.contexts@[j as int].costs_reaction);
            return true;
        }
        j = j + 1;
    }
    false
}

/// Whether the button of `a` is enabled.
pub fn is_usable(a: &ActionEntry) -> (r: bool)
    ensures
        r == action_usable(*a),
{
    let mut j: usize = 0;
    while j < a.contexts.len()
        invariant
            j <= a.contexts.len(),
            forall|k: int| 0 <= k < j ==> !(#[trigger] a.contexts@[k]).usable,
        decreases a.contexts.len() - j,
    {
        if a.contexts[j].usable {
            assert(a.contexts@[j as int].usable);
            return true;
        }
        j = j + 1;
    }
    false
}

/// The indices of the actions the bar shows, in order.
pub open spec fn offered_indices(actions: Seq<ActionEntry>) -> Seq<int>
    decreases actions.len(),
{
    if actions.len() == 0 {
        Seq::empty()
    } else {
        let r = offered_indices(actions.drop_last());
        if action_offered(actions.last()) {
            r.push(actions.len() - 1)
        } else {
            r
        }
    }
}

/// The indices of the actions the action bar shows, in order.
pub fn offered_actions(actions: &Vec<ActionEntry>) -> (r: Vec<usize>)
    ensures
        r@.len() == offered_indices(actions@).len(),
        forall|i: int| 0 <= i < r@.len() ==> r@[i] as int == offered_indices(actions@)[i],
{
    let mut r: Vec<usize> = Vec::new();
    let mut i: usize = 0;
    while i < actions.len()
        invariant
            i <= actions.len(),
            r@.len() == offered_indices(actions@.take(i as int)).len(),
            forall|k: int|
                0 <= k < r@.len() ==> r@[k] as int == offered_indices(actions@.take(i as int))[k],
        decreases actions.len() - i,
    {
        assert(actions@.take(i + 1).drop_last() =~= actions@.take(i as int));
        if is_offered(&actions[i]) {
            r.push(i);
        }
        i = i + 1;
    }
    assert(actions@.take(actions.len() as int) =~= actions@);
    r
}

/// What the action bar shows: the list of actions, the contexts of one
/// action, or the target picking of an action about to be performed.
pub enum ActionBarState {
    Action { actions: Vec<ActionEntry> },
    Context { action_id: u64, contexts: Vec<ContextOption> },
    Targets { action: ActionData, potential_target: Option<TargetInstance> },
}

/// The action bar of one creature.
pub struct ActionBarWindow {
    pub state: ActionBarState,
    pub entity: EntityId,
}

/// The action bar is greyed out while its creature is in an encounter and it
/// is another creature's turn, or the creature has a reaction to decide on.
pub open spec fn bar_disabled(
    current_in_encounter: Option<EntityId>,
    entity: EntityId,
    reaction_pending: bool,
) -> bool {
    match current_in_encounter {
        Some(current) => current != entity || reaction_pending,
        Option::None => false,
    }
}

impl ActionBarWindow {
    /// A bar showing `actions` for `entity`.
    pub fn new(actions: Vec<ActionEntry>, entity: EntityId) -> (w: Self)
        ensures
            w.entity == entity,
            w.state matches ActionBarState::Action { actions: a } && a == actions,
    {
        ActionBarWindow { state: ActionBarState::Action { actions }, entity }
    }

    /// Whether the bar is greyed out. `current_in_encounter` is the creature
    /// whose turn it is when the bar's creature is in an encounter.
    pub fn is_disabled(&self, current_in_encounter: Option<EntityId>, reaction_pending: bool) -> (r:
        bool)
        ensures
            r == bar_disabled(current_in_encounter, self.entity, reaction_pending),
    {
        match current_in_encounter {
            Some(current) => current != self.entity || reaction_pending,
            None => false,
        }
    }

    /// Click on the button of action `index`: an action with a single context
    /// goes straight to target picking, others to context picking. Hidden or
    /// unusable actions cannot be clicked.
    pub fn click_action(&mut self, index: usize)
        ensures
            final(self).entity == old(self).entity,
            match old(self).state {
                ActionBarState::Action { actions } => if index < actions@.len() && action_offered(
                    actions@[index as int],
                ) && action_usable(actions@[index as int]) {
                    let a = actions@[index as int];
                    if a.contexts@.len() == 1 {
                        final(self).state matches ActionBarState::Targets {
                            action,
                            potential_target,
                        } && action.actor == old(self).entity && action.action_id == a.action_id
                            && action.context == a.contexts@[0].context && action.cost
                            == a.contexts@[0].cost && action.targets@.len() == 0
                            && potential_target is None
                    } else {
                        final(self).state matches ActionBarState::Context { action_id, contexts }
                            && action_id == a.action_id && contexts@ == a.contexts@
                    }
                } else {
                    final(self).state == old(self).state
                },
                _ => final(self).state == old(self).state,
            },
    {
        let mut next: Option<ActionBarState> = None;
        match &self.state {
            ActionBarState::Action { actions } => {
                if index < actions.len() && is_offered(&actions[index]) && is_usable(
                    &actions[index],
                ) {
                    let a = &actions[index];
                    if a.contexts.len() == 1 {
                        next = Some(
                            ActionBarState::Targets {
                                action: ActionData {
                                    actor: self.entity,
                                    action_id: a.action_id,
                                    context: a.contexts[0].context,
                                    cost: a.contexts[0].cost,
                                    targets: Vec::new(),
                                },
                                potential_target: None,
                            },
                        );
                    } else {
                        next = Some(
                            ActionBarState::Context {
                                action_id: a.action_id,
                                contexts: crate::level_up::copy_vec(&a.contexts),
                            },
                        );
                    }
                }
            },
            _ => {},
        }
        if let Some(state) = next {
            self.state = state;
        }
    }

    /// Click on context `index` while picking a context: target picking starts.
    pub fn click_context(&mut self, index: usize)
        ensures
            final(self).entity == old(self).entity,
            match old(self).state {
                ActionBarState::Context { action_id, contexts } => if index < contexts@.len() {
                    final(self).state matches ActionBarState::Targets {
                        action: data,
                        potential_target,
                    } && data.actor == old(self).entity && data.action_id == action_id
                        && data.context == contexts@[index as int].context && data.cost
                        == contexts@[index as int].cost && data.targets@.len() == 0
                        && potential_target is None
                } else {
                    final(self).state == old(self).state
                },
                _ => final(self).state == old(self).state,
            },
    {
        let mut next: Option<ActionBarState> = None;
        match &self.state {
            ActionBarState::Context { action_id, contexts } => {
                if index < contexts.len() {
                    next = Some(
                        ActionBarState::Targets {
                            action: ActionData {
                                actor: self.entity,
                                action_id: *action_id,
                                context: contexts[index].context,
                                cost: contexts[index].cost,
                                targets: Vec::new(),
                            },
                            potential_target: None,
                        },
                    );
                }
            },
            _ => {},
        }
        if let Some(state) = next {
            self.state = state;
        }
    }

    /// Back to the list of actions, freshly read from the engine.
    pub fn show_actions(&mut self, actions: Vec<ActionEntry>)
        ensures
            final(self).entity == old(self).entity,
            final(self).state matches ActionBarState::Action { actions: a } && a == actions,
    {
        self.state = ActionBarState::Action { actions };
    }
}

/// What happened on the screen during one frame of target picking.
#[derive(Clone, Copy, Debug, PartialEq, Eq, Structural)]
pub struct TargetInput {
    /// The cursor ray is still unclaimed.
    pub ray_present: bool,
    /// That ray hit something.
    pub ray_hits: bool,
    /// The target under the cursor, when the targeting previews one.
    pub potential: Option<TargetInstance>,
    pub left_click: bool,
    pub right_click: bool,
    /// "Confirm Targets" was clicked.
    pub confirm_click: bool,
    /// "Cancel" was clicked.
    pub cancel_click: bool,
}

/// What target picking decided during one frame.
#[derive(Clone, Copy, Debug, PartialEq, Eq, Structural)]
pub struct TargetOutcome {
    /// The action goes to the engine.
    pub submit: bool,
    /// The bar goes back to the list of actions.
    pub back_to_actions: bool,
    /// The cursor ray was claimed and no other window may use it.
    pub ray_taken: bool,
}

/// The targets after the clicks of a frame, and whether the action is
/// submitted and the ray claimed by the picking itself.
pub open spec fn picked_targets(
    actor: EntityId,
    targets: Seq<TargetInstance>,
    kind: TargetingKind,
    input: TargetInput,
) -> (Seq<TargetInstance>, bool, bool) {
    if !(input.ray_present && input.ray_hits) {
        (targets, false, false)
    } else {
        match kind {
            TargetingKind::SelfTarget => if input.left_click {
                (seq![TargetInstance::Entity(actor)], true, true)
            } else {
                (targets, false, false)
            },
            TargetingKind::Single => match input.potential {
                Some(t) => if input.left_click {
                    (seq![t], true, true)
                } else {
                    (targets, false, false)
                },
                Option::None => (targets, false, false),
            },
            TargetingKind::Area => match input.potential {
                Some(t) => if input.left_click {
                    (seq![t], true, true)
                } else {
                    (targets, false, false)
                },
                Option::None => (targets, false, false),
            },
            TargetingKind::Multiple { max_targets } => {
                let popped = if input.right_click && targets.len() > 0 {
                    targets.drop_last()
                } else {
                    targets
                };
                let taken_by_pop = input.right_click && popped.len() > 0;
                match input.potential {
                    Some(t) => if popped.len() < max_targets && input.left_click {
                        (popped.push(t), popped.len() + 1 == max_targets, true)
                    } else {
                        (popped, false, taken_by_pop)
                    },
                    Option::None => (popped, false, taken_by_pop),
                }
            },
        }
    }
}

/// The targets and the outcome of a frame of target picking.
pub open spec fn target_pick(
    actor: EntityId,
    targets: Seq<TargetInstance>,
    kind: TargetingKind,
    input: TargetInput,
) -> (Seq<TargetInstance>, TargetOutcome) {
    let (t, submit_by_click, taken) = picked_targets(actor, targets, kind, input);
    let submit = submit_by_click || (input.confirm_click && t.len() > 0);
    let ray_left = input.ray_present && !taken;
    let right_cancel = ray_left && input.right_click && t.len() == 0;
    (t, TargetOutcome {
        submit,
        back_to_actions: input.cancel_click || right_cancel || submit,
        ray_taken: taken || right_cancel,
    })
}

/// One frame of target picking: the clicks on the world pick targets
/// according to the targeting kind; the action is submitted once enough
/// targets are picked or "Confirm Targets" is clicked with some target; the
/// bar goes back to the actions on submit, on "Cancel", and on a right click
/// that finds no target left to drop.
pub fn pick_targets(action: &mut ActionData, kind: TargetingKind, input: TargetInput) -> (out:
    TargetOutcome)
    ensures
        final(action).actor == old(action).actor,
        final(action).action_id == old(action).action_id,
        final(action).context == old(action).context,
        final(action).cost == old(action).cost,
        ({
            let (t, submit_by_click, taken) = picked_targets(
                old(action).actor,
                old(action).targets@,
                kind,
                input,
            );
            let submit = submit_by_click || (input.confirm_click && t.len() > 0);
            let ray_left = input.ray_present && !taken;
            let right_cancel = ray_left && input.right_click && t.len() == 0;
            &&& final(action).targets@ == t
            &&& out.submit == submit
            &&& out.back_to_actions == (input.cancel_click || right_cancel || submit)
            &&& out.ray_taken == (taken || right_cancel)
        }),
        (final(action).targets@, out) == target_pick(old(action).actor, old(action).targets@, kind, input),
{
    let mut submit = false;
    let mut taken = false;
    if input.ray_present && input.ray_hits {
        match kind {
            TargetingKind::SelfTarget => {
                if input.left_click {
                    action.targets.clear();
                    action.targets.push(TargetInstance::Entity(action.actor));
                    taken = true;
                    submit = true;
                }
            },
            TargetingKind::Single | TargetingKind::Area => {
                if let Some(t) = input.potential {
                    if input.left_click {
                        action.targets.clear();
                        action.targets.push(t);
                        taken = true;
                        submit = true;
                    }
                }
            },
            TargetingKind::Multiple { max_targets } => {
                if input.right_click {
                    action.targets.pop();
                    if action.targets.len() > 0 {
                        taken = true;
                    }
                }
                if let Some(t) = input.potential {
                    if action.targets.len() < max_targets as usize && input.left_click {
                        action.targets.push(t);
                        taken = true;
                        if action.targets.len() == max_targets as usize {
                            submit = true;
                        }
                    }
                }
            },
        }
    }
    if input.confirm_click && action.targets.len() > 0 {
        submit = true;
    }
    let ray_left = input.ray_present && !taken;
    let right_cancel = ray_left && input.right_click && action.targets.len() == 0;
    TargetOutcome {
        submit,
        back_to_actions: input.cancel_click || right_cancel || submit,
        ray_taken: taken || right_cancel,
    }
}

/// Picking targets never goes past what the targeting allows: one target for
/// single and area targeting, at most `max_targets` for multiple targeting,
/// and only the actor for self targeting.
pub proof fn lemma_picked_targets_within_limits(
    actor: EntityId,
    targets: Seq<TargetInstance>,
    kind: TargetingKind,
    input: TargetInput,
)
    requires
        kind matches TargetingKind::Multiple { max_targets } ==> targets.len() <= max_targets,
        kind matches TargetingKind::Single ==> targets.len() <= 1,
        kind matches TargetingKind::Area ==> targets.len() <= 1,
    ensures
        ({
            let t = picked_targets(actor, targets, kind, input).0;
            &&& kind matches TargetingKind::Multiple { max_targets } ==> t.len() <= max_targets
            &&& kind matches TargetingKind::Single ==> t.len() <= 1
            &&& kind matches TargetingKind::Area ==> t.len() <= 1
            &&& (kind is SelfTarget && picked_targets(actor, targets, kind, input).1) ==> t
                == seq![TargetInstance::Entity(actor)]
        }),
{
}


/// Where an encounter window is: picking participants, running, or over.
pub enum EncounterWindowState {
    EncounterCreation { participants: Vec<EntityId> },
    EncounterRunning,
    EncounterFinished,
}

/// The window of one encounter.
pub struct EncounterWindow {
    pub state: EncounterWindowState,
    pub id: u64,
}

/// The participants after a click on a creature: picked again, it is dropped.
pub open spec fn toggled(participants: Seq<EntityId>, e: EntityId) -> Seq<EntityId> {
    if participants.contains(e) {
        crate::level_up::without(participants, e)
    } else {
        participants.push(e)
    }
}

fn contains_entity(v: &Vec<EntityId>, x: EntityId) -> (r: bool)
    ensures
        r == v@.contains(x),
{
    let mut i: usize = 0;
    while i < v.len()
        invariant
            i <= v.len(),
            forall|j: int| 0 <= j < i ==> v@[j] != x,
        decreases v.len() - i,
    {
        if v[i] == x {
            return true;
        }
        i = i + 1;
    }
    false
}

fn remove_entity(v: &Vec<EntityId>, x: EntityId) -> (r: Vec<EntityId>)
    ensures
        r@ == crate::level_up::without(v@, x),
{
    let mut r: Vec<EntityId> = Vec::new();
    let mut i: usize = 0;
    while i < v.len()
        invariant
            i <= v.len(),
            r@ == crate::level_up::without(v@.take(i as int), x),
        decreases v.len() - i,
    {
        assert(v@.take(i + 1).drop_last() =~= v@.take(i as int));
        if v[i] != x {
            r.push(v[i]);
        }
        i = i + 1;
    }
    assert(v@.take(v.len() as int) =~= v@);
    r
}

impl EncounterWindow {
    /// A window picking the participants of the encounter `id`.
    pub fn new(id: u64) -> (w: Self)
        ensures
            w.id == id,
            w.state matches EncounterWindowState::EncounterCreation { participants }
                && participants@.len() == 0,
    {
        EncounterWindow {
            state: EncounterWindowState::EncounterCreation { participants: Vec::new() },
            id,
        }
    }

    /// The encounter is over.
    pub fn finished(&self) -> (r: bool)
        ensures
            r == (self.state is EncounterFinished),
    {
        matches!(self.state, EncounterWindowState::EncounterFinished)
    }

    /// Click on a creature while picking participants.
    pub fn toggle_participant(&mut self, e: EntityId)
        ensures
            final(self).id == old(self).id,
            match old(self).state {
                EncounterWindowState::EncounterCreation { participants } => final(self).state matches EncounterWindowState::EncounterCreation {
                    participants: p2,
                } && p2@ == toggled(participants@, e),
                _ => final(self).state == old(self).state,
            },
    {
        match &mut self.state {
            EncounterWindowState::EncounterCreation { participants } => {
                if contains_entity(participants, e) {
                    *participants = remove_entity(participants, e);
                } else {
                    participants.push(e);
                }
            },
            _ => {},
        }
    }

    /// Click on "Start Encounter": with at least two participants the
    /// encounter starts with them (returned) and the window runs it.
    pub fn start_encounter(&mut self) -> (started: Option<Vec<EntityId>>)
        ensures
            final(self).id == old(self).id,
            match old(self).state {
                EncounterWindowState::EncounterCreation { participants } => if participants@.len()
                    >= 2 {
                    final(self).state is EncounterRunning && (started matches Some(p) && p@
                        == participants@)
                } else {
                    final(self).state == old(self).state && started is None
                },
                _ => final(self).state == old(self).state && started is None,
            },
    {
        let mut started: Option<Vec<EntityId>> = None;
        match &self.state {
            EncounterWindowState::EncounterCreation { participants } => {
                if participants.len() >= 2 {
                    started = Some(crate::level_up::copy_vec(participants));
                }
            },
            _ => {},
        }
        if started.is_some() {
            self.state = EncounterWindowState::EncounterRunning;
        }
        started
    }

    /// Click on "End Encounter" while it runs.
    pub fn end_encounter(&mut self)
        ensures
            final(self).id == old(self).id,
            old(self).state is EncounterRunning ==> final(self).state is EncounterFinished,
            !(old(self).state is EncounterRunning) ==> final(self).state == old(self).state,
    {
        if matches!(self.state, EncounterWindowState::EncounterRunning) {
            self.state = EncounterWindowState::EncounterFinished;
        }
    }
}

/// Toggling the same creature twice gives back the participants, when no
/// creature was picked twice.
pub proof fn lemma_toggle_twice_restores(participants: Seq<EntityId>, e: EntityId)
    requires
        participants.no_duplicates(),
    ensures
        toggled(participants, e).no_duplicates(),
        !participants.contains(e) ==> toggled(toggled(participants, e), e) == participants,
        participants.contains(e) ==> toggled(toggled(participants, e), e).to_set()
            == participants.to_set(),
{
    crate::level_up::lemma_without(participants, e);
    let p = participants.push(e);
    if !participants.contains(e) {
        assert forall|i: int, j: int| 0 <= i < j < p.len() implies p[i] != p[j] by {
            if j == p.len() - 1 {
                assert(participants[i] == p[i]);
            }
        }
        assert(p.contains(e)) by {
            assert(p[p.len() - 1] == e);
        }
        assert(p.drop_last() =~= participants);
        assert(crate::level_up::without(p, e) == crate::level_up::without(participants, e));
    } else {
        let w = crate::level_up::without(participants, e);
        let q = w.push(e);
        assert(q.to_set() =~= participants.to_set()) by {
            assert forall|x: EntityId| q.to_set().contains(x) <==> participants.to_set().contains(x) by {
                if x == e {
                    assert(q[q.len() - 1] == e);
                } else {
                    if q.contains(x) {
                        let k = choose|k: int| 0 <= k < q.len() && q[k] == x;
                        assert(w[k] == x);
                    }
                    if w.contains(x) {
                        let k = choose|k: int| 0 <= k < w.len() && w[k] == x;
                        assert(q[k] == x);
                    }
                }
            }
        }
        assert(!w.contains(e));
    }
}


/// The targets of an action decision after a click on the creature `e`:
/// the one target of a single-target action, one more (while there is
/// room) for a multiple-target action, the actor for a self-targeted one;
/// an area action takes no creature.
pub open spec fn targets_after_click(
    targets: Seq<EntityId>,
    actor: EntityId,
    e: EntityId,
    kind: TargetingKind,
) -> Seq<EntityId> {
    match kind {
        TargetingKind::Single => seq![e],
        TargetingKind::Multiple { max_targets } => if targets.len() < max_targets {
            targets.push(e)
        } else {
            targets
        },
        TargetingKind::SelfTarget => targets.push(actor),
        TargetingKind::Area => targets,
    }
}

/// Clicking a creature as a target: a single-target action has exactly
/// that creature as its target; a multiple-target action adds it at the
/// end while fewer than its maximum are picked and never goes past the
/// maximum; a self-targeted action adds its actor; an area action keeps its
/// targets.
pub proof fn lemma_targets_after_click(targets: Seq<EntityId>, actor: EntityId, e: EntityId, kind: TargetingKind)
    ensures
        kind is Single ==> targets_after_click(targets, actor, e, kind) == seq![e],
        kind matches TargetingKind::Multiple { max_targets } ==> {
            &&& targets.len() < max_targets ==> targets_after_click(targets, actor, e, kind) == targets.push(e)
            &&& targets.len() >= max_targets ==> targets_after_click(targets, actor, e, kind) == targets
            &&& targets.len() <= max_targets ==> targets_after_click(targets, actor, e, kind).len() <= max_targets
        },
        kind is SelfTarget ==> targets_after_click(targets, actor, e, kind) == targets.push(actor),
        kind is Area ==> targets_after_click(targets, actor, e, kind) == targets,
{
}

/// What the encounter waits for: an action of the creature whose turn it is,
/// or a reaction to an action (known by a handle) among some options.
pub enum ActionPrompt {
    Action { actor: EntityId },
    Reaction { reactor: EntityId, action: u64, options: Vec<u64> },
}

/// The decision the player is putting together for a prompt of the encounter.
pub enum ActionDecisionProgress {
    Action {
        actor: EntityId,
        chosen_action: Option<u64>,
        context_options: Vec<u64>,
        chosen_context: Option<u64>,
        targets: Vec<EntityId>,
    },
    Reaction { reactor: EntityId, action: u64, choice: Option<u64> },
}

/// A finished decision, in the form the encounter takes it.
pub enum ActionDecision {
    Action { actor: EntityId, action_id: u64, context: u64, targets: Vec<EntityId> },
    Reaction { reactor: EntityId, action: u64, choice: Option<u64> },
}

impl ActionDecisionProgress {
    /// Nothing decided yet; a reaction starts on its first option.
    pub fn from_prompt(prompt: &ActionPrompt) -> (p: Self)
        ensures
            match *prompt {
                ActionPrompt::Action { actor } => p matches ActionDecisionProgress::Action {
                    actor: a,
                    chosen_action,
                    context_options,
                    chosen_context,
                    targets,
                } && a == actor && chosen_action is None && context_options@.len() == 0
                    && chosen_context is None && targets@.len() == 0,
                ActionPrompt::Reaction { reactor, action, options } => p matches ActionDecisionProgress::Reaction {
                    reactor: r,
                    action: a,
                    choice,
                } && r == reactor && a == action && choice == (if options@.len() > 0 {
                    Some(options@[0])
                } else {
                    Option::None
                }),
            },
    {
        match prompt {
            ActionPrompt::Action { actor } => ActionDecisionProgress::Action {
                actor: *actor,
                chosen_action: None,
                context_options: Vec::new(),
                chosen_context: None,
                targets: Vec::new(),
            },
            ActionPrompt::Reaction { reactor, action, options } => ActionDecisionProgress::Reaction {
                reactor: *reactor,
                action: *action,
                choice: if options.len() > 0 {
                    Some(options[0])
                } else {
                    None
                },
            },
        }
    }

    /// The decision; an action needs its action and context chosen.
    pub fn finalize(self) -> (d: ActionDecision)
        requires
            self matches ActionDecisionProgress::Action { chosen_action, chosen_context, .. }
                ==> chosen_action is Some && chosen_context is Some,
        ensures
            match self {
                ActionDecisionProgress::Action {
                    actor,
                    chosen_action,
                    chosen_context,
                    targets,
                    ..
                } => d matches ActionDecision::Action { actor: a, action_id, context, targets: t }
                    && a == actor && Some(action_id) == chosen_action && Some(context)
                    == chosen_context && t == targets,
                ActionDecisionProgress::Reaction { reactor, action, choice } => d matches ActionDecision::Reaction {
                    reactor: r,
                    action: a,
                    choice: c,
                } && r == reactor && a == action && c == choice,
            },
    {
        match self {
            ActionDecisionProgress::Action {
                actor,
                chosen_action,
                chosen_context,
                targets,
                ..
            } => ActionDecision::Action {
                actor,
                action_id: chosen_action.unwrap(),
                context: chosen_context.unwrap(),
                targets,
            },
            ActionDecisionProgress::Reaction { reactor, action, choice } => ActionDecision::Reaction {
                reactor,
                action,
                choice,
            },
        }
    }

    /// Click on an action: the first action clicked is kept; with a single
    /// context it is chosen at once, otherwise the contexts are offered.
    pub fn choose_action(&mut self, action_id: u64, contexts: &Vec<u64>)
        ensures
            match *old(self) {
                ActionDecisionProgress::Action {
                    actor,
                    chosen_action,
                    context_options,
                    chosen_context,
                    targets,
                } => if chosen_action is None {
                    *final(self) matches ActionDecisionProgress::Action {
                        actor: a2,
                        chosen_action: c2,
                        context_options: o2,
                        chosen_context: x2,
                        targets: t2,
                    } && a2 == actor && c2 == Some(action_id) && t2 == targets && if contexts@.len()
                        == 1 {
                        x2 == Some(contexts@[0]) && o2 == context_options
                    } else {
                        x2 == chosen_context && o2@ == contexts@
                    }
                } else {
                    *final(self) == *old(self)
                },
                _ => *final(self) == *old(self),
            },
    {
        match self {
            ActionDecisionProgress::Action {
                chosen_action,
                context_options,
                chosen_context,
                ..
            } => {
                if chosen_action.is_none() {
                    *chosen_action = Some(action_id);
                    if contexts.len() == 1 {
                        *chosen_context = Some(contexts[0]);
                    } else {
                        *context_options = crate::level_up::copy_vec(contexts);
                    }
                }
            },
            _ => {},
        }
    }

    /// Click on a context once the action is chosen.
    pub fn choose_context(&mut self, context: u64)
        ensures
            match *old(self) {
                ActionDecisionProgress::Action {
                    actor,
                    chosen_action,
                    context_options,
                    chosen_context,
                    targets,
                } => if chosen_action is Some && chosen_context is None {
                    *final(self) == (ActionDecisionProgress::Action {
                        actor,
                        chosen_action,
                        context_options,
                        chosen_context: Some(context),
                        targets,
                    })
                } else {
                    *final(self) == *old(self)
                },
                _ => *final(self) == *old(self),
            },
    {
        match self {
            ActionDecisionProgress::Action { chosen_action, chosen_context, .. } => {
                if chosen_action.is_some() && chosen_context.is_none() {
                    *chosen_context = Some(context);
                }
            },
            _ => {},
        }
    }

    /// Click on a creature when the action takes targets: a single target
    /// replaces the previous one; multiple targets are added up to `max`.
    pub fn click_target(&mut self, e: EntityId, kind: TargetingKind)
        ensures
            match *old(self) {
                ActionDecisionProgress::Action {
                    actor,
                    chosen_action,
                    context_options,
                    chosen_context,
                    targets,
                } => *final(self) matches ActionDecisionProgress::Action {
                    actor: a2,
                    chosen_action: c2,
                    context_options: o2,
                    chosen_context: x2,
                    targets: t2,
                } && a2 == actor && c2 == chosen_action && o2 == context_options && x2
                    == chosen_context && t2@ == match kind {
                    TargetingKind::Single => seq![e],
                    TargetingKind::Multiple { max_targets } => if targets@.len() < max_targets {
                        targets@.push(e)
                    } else {
                        targets@
                    },
                    TargetingKind::SelfTarget => targets@.push(actor),
                    TargetingKind::Area => targets@,
                } && t2@ == targets_after_click(targets@, actor, e, kind),
                _ => *final(self) == *old(self),
            },
    {
        match self {
            ActionDecisionProgress::Action { actor, targets, .. } => match kind {
                TargetingKind::Single => {
                    if targets.len() > 0 {
                        targets.clear();
                    }
                    targets.push(e);
                },
                TargetingKind::Multiple { max_targets } => {
                    if targets.len() < max_targets as usize {
                        targets.push(e);
                    }
                },
                TargetingKind::SelfTarget => {
                    targets.push(*actor);
                },
                TargetingKind::Area => {},
            },
            _ => {},
        }
    }

    /// Click on a picked target to drop it.
    pub fn remove_target(&mut self, e: EntityId)
        ensures
            match *old(self) {
                ActionDecisionProgress::Action {
                    actor,
                    chosen_action,
                    context_options,
                    chosen_context,
                    targets,
                } => *final(self) matches ActionDecisionProgress::Action {
                    actor: a2,
                    chosen_action: c2,
                    context_options: o2,
                    chosen_context: x2,
                    targets: t2,
                } && a2 == actor && c2 == chosen_action && o2 == context_options && x2
                    == chosen_context && t2@ == crate::level_up::without(targets@, e),
                _ => *final(self) == *old(self),
            },
    {
        match self {
            ActionDecisionProgress::Action { targets, .. } => {
                *targets = remove_entity(targets, e);
            },
            _ => {},
        }
    }
}


/// Only actions aimed at something else than the performer preview their
/// target.
pub fn should_render_target_preview(kind: TargetingKind) -> (b: bool)
    ensures
        b == !(kind is SelfTarget),
{
    match kind {
        TargetingKind::SelfTarget => false,
        _ => true,
    }
}

/// A path to the target under the cursor is looked for only when it is not
/// the target previewed already.
pub fn is_new_target(previewed: Option<TargetInstance>, under_cursor: TargetInstance) -> (b: bool)
    ensures
        b == (previewed != Some(under_cursor)),
{
    match previewed {
        Some(t) => t != under_cursor,
        None => true,
    }
}

/// What a frame of target picking does, by targeting kind. With the ray on
/// something, a left click on a previewed target makes it the one target of
/// a single or area action, and on the actor the target of a self action;
/// either way the action is submitted and the bar goes back to the actions.
/// A multiple-target action takes the previewed target as one more while
/// there is room (after a right click drops the last one), and is
/// submitted once it has them all. Without the ray on something the
/// targets stay. "Confirm Targets" submits an action with some target, and
/// "Cancel" always goes back to the actions.
pub proof fn lemma_target_pick_behaviour(
    actor: EntityId,
    targets: Seq<TargetInstance>,
    kind: TargetingKind,
    input: TargetInput,
)
    ensures
        ({
            let (t, out) = target_pick(actor, targets, kind, input);
            let aimed = input.ray_present && input.ray_hits;
            &&& aimed && input.left_click && (kind is Single || kind is Area) && input.potential is Some ==> {
                &&& t == seq![input.potential->0]
                &&& out.submit
                &&& out.back_to_actions
                &&& out.ray_taken
            }
            &&& aimed && input.left_click && kind is SelfTarget ==> {
                &&& t == seq![TargetInstance::Entity(actor)]
                &&& out.submit
                &&& out.back_to_actions
                &&& out.ray_taken
            }
            &&& (kind is Single || kind is Area || kind is SelfTarget) && !(aimed && input.left_click) ==> t == targets
            &&& !aimed ==> t == targets && !out.ray_taken == !(input.ray_present && input.right_click
                && targets.len() == 0)
            &&& kind matches TargetingKind::Multiple { max_targets } ==> {
                let kept = if aimed && input.right_click && targets.len() > 0 {
                    targets.drop_last()
                } else {
                    targets
                };
                &&& aimed && input.left_click && input.potential is Some && kept.len() < max_targets ==> {
                    &&& t == kept.push(input.potential->0)
                    &&& (t.len() == max_targets ==> out.submit && out.back_to_actions)
                }
                &&& !(aimed && input.left_click && input.potential is Some && kept.len() < max_targets) ==> t
                    == kept
            }
            &&& input.confirm_click && t.len() > 0 ==> out.submit && out.back_to_actions
            &&& input.cancel_click ==> out.back_to_actions
            &&& out.submit ==> out.back_to_actions
        }),
{
}


/// Out of an encounter the bar is never greyed out; in one it is greyed
/// out exactly when it is another creature's turn or the creature has a
/// reaction to decide on.
pub proof fn lemma_bar_disabled(current_in_encounter: Option<EntityId>, entity: EntityId, reaction_pending: bool)
    ensures
        current_in_encounter is None ==> !bar_disabled(current_in_encounter, entity, reaction_pending),
        current_in_encounter == Some(entity) ==> (bar_disabled(current_in_encounter, entity, reaction_pending)
            <==> reaction_pending),
        current_in_encounter is Some && current_in_encounter != Some(entity) ==> bar_disabled(
            current_in_encounter,
            entity,
            reaction_pending,
        ),
{
}

/// The bar shows exactly the actions it offers, in their order.
pub proof fn lemma_offered_indices_exact(actions: Seq<ActionEntry>)
    ensures
        forall|i: int| offered_indices(actions).contains(i) <==> (0 <= i < actions.len() && action_offered(
            #[trigger] actions[i],
        )),
        forall|a: int, b: int|
            0 <= a < b < offered_indices(actions).len() ==> #[trigger] offered_indices(actions)[a]
                < #[trigger] offered_indices(actions)[b],
        forall|k: int|
            0 <= k < offered_indices(actions).len() ==> 0 <= #[trigger] offered_indices(actions)[k] < actions.len(),
    decreases actions.len(),
{
    if actions.len() > 0 {
        let p = actions.drop_last();
        lemma_offered_indices_exact(p);
        let r = offered_indices(p);
        let f = offered_indices(actions);
        assert forall|i: int| f.contains(i) <==> (0 <= i < actions.len() && action_offered(#[trigger] actions[i])) by {
            if 0 <= i < p.len() {
                assert(p[i] == actions[i]);
            }
            if f.contains(i) {
                let k = choose|k: int| 0 <= k < f.len() && f[k] == i;
                if k < r.len() {
                    assert(r[k] == f[k]);
                    assert(r.contains(i));
                    assert(0 <= r[k] < p.len());
                }
            }
            if 0 <= i < p.len() && action_offered(actions[i]) {
                assert(r.contains(i));
                let k = choose|k: int| 0 <= k < r.len() && r[k] == i;
                assert(f[k] == i);
            }
            if i == actions.len() - 1 && action_offered(actions[i]) {
                assert(f[f.len() - 1] == i);
            }
        }
        assert forall|a: int, b: int| 0 <= a < b < f.len() implies #[trigger] f[a] < #[trigger] f[b] by {
            if b == f.len() - 1 && f.len() > r.len() {
                assert(r[a] == f[a]);
                assert(0 <= r[a] < p.len());
            } else {
                assert(r[a] == f[a] && r[b] == f[b]);
            }
        }
        assert forall|k: int| 0 <= k < f.len() implies 0 <= #[trigger] f[k] < actions.len() by {
            if k < r.len() {
                assert(r[k] == f[k]);
            }
        }
    }
}

/// Clicking a creature while picking participants adds it when it was not
/// among them and drops it when it was; the others stay.
pub proof fn lemma_toggled_membership(participants: Seq<EntityId>, e: EntityId)
    ensures
        toggled(participants, e).contains(e) <==> !participants.contains(e),
        forall|x: EntityId| x != e ==> (toggled(participants, e).contains(x) <==> participants.contains(x)),
{
    crate::level_up::lemma_without(participants, e);
    let p = participants.push(e);
    if !participants.contains(e) {
        assert(p[p.len() - 1] == e);
        assert forall|x: EntityId| x != e implies (p.contains(x) <==> participants.contains(x)) by {
            if p.contains(x) {
                let k = choose|k: int| 0 <= k < p.len() && p[k] == x;
                assert(participants[k] == x);
            }
            if participants.contains(x) {
                let k = choose|k: int| 0 <= k < participants.len() && participants[k] == x;
                assert(p[k] == x);
            }
        }
    }
}

} // verus!
