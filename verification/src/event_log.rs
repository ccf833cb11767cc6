//! Which events of the game log are shown at a log level.
use vstd::prelude::*;
use crate::combat::{EntityId, TargetInstance};

verus! {

/// How much of the log is shown: `Info` shows less than `Debug`.
#[derive(Clone, Copy, Debug, PartialEq, Eq, Structural)]
pub enum LogLevel {
    Info,
    Debug,
}

/// Position of a level in the order `Info` < `Debug`.
pub open spec fn level_rank(l: LogLevel) -> int {
    match l {
        LogLevel::Info => 0,
        LogLevel::Debug => 1,
    }
}

/// The level of a position in the level list (unknown positions are `Info`).
pub open spec fn level_from_index(value: int) -> LogLevel {
    if value == 1 {
        LogLevel::Debug
    } else {
        LogLevel::Info
    }
}

impl LogLevel {
    /// All levels, in order.
    pub fn all() -> (v: Vec<LogLevel>)
        ensures
            v@ == seq![LogLevel::Info, LogLevel::Debug],
    {
        let mut v = Vec::new();
        v.push(LogLevel::Info);
        v.push(LogLevel::Debug);
        v
    }

    /// The name shown in the level selector.
    pub fn name(self) -> (s: &'static str)
        ensures
            s@ == match self {
                LogLevel::Info => "Info"@,
                LogLevel::Debug => "Debug"@,
            },
    {
        match self {
            LogLevel::Info => "Info",
            LogLevel::Debug => "Debug",
        }
    }

    /// Position of the level in the level list.
    pub fn index(self) -> (i: usize)
        ensures
            i as int == level_rank(self),
    {
        match self {
            LogLevel::Info => 0,
            LogLevel::Debug => 1,
        }
    }

    /// Whether this level is at or below `other`.
    pub fn at_most(self, other: LogLevel) -> (r: bool)
        ensures
            r == (level_rank(self) <= level_rank(other)),
    {
        self.index() <= other.index()
    }
}

impl From<usize> for LogLevel {
    fn from(value: usize) -> (l: Self) {
        match value {
            0 => LogLevel::Info,
            1 => LogLevel::Debug,
            _ => LogLevel::Info,
        }
    }
}

impl vstd::std_specs::convert::FromSpecImpl<usize> for LogLevel {
    open spec fn obeys_from_spec() -> bool {
        true
    }

    open spec fn from_spec(value: usize) -> Self {
        level_from_index(value as int)
    }
}

/// Reading back the position of a level gives the level.
pub proof fn lemma_level_index_round_trip(l: LogLevel)
    ensures
        level_from_index(level_rank(l)) == l,
{
}

/// The kind of a d20 check: saving throw, skill check or attack roll.
#[derive(Clone, Copy, Debug, PartialEq, Eq, Structural)]
pub enum D20ResultKind {
    SavingThrow,
    Skill,
    AttackRoll,
}

/// What the log needs to know of an event to filter it.
pub enum EventKind {
    Encounter,
    ActionRequested { actor: EntityId, action_id: u64, targets: Vec<TargetInstance> },
    ActionPerformed { actor: EntityId, action_id: u64, targets: Vec<TargetInstance> },
    ReactionTriggered,
    LifeStateChanged,
    D20CheckPerformed { entity: EntityId, result: D20ResultKind },
    D20CheckResolved { entity: EntityId, result: D20ResultKind },
    DamageRollPerformed { entity: EntityId },
    DamageRollResolved { entity: EntityId },
}

/// The lowest log level an event is shown at: attack rolls and damage rolls
/// are details.
pub open spec fn event_level(e: EventKind) -> LogLevel {
    match e {
        EventKind::D20CheckPerformed { result, .. } => if result == D20ResultKind::AttackRoll {
            LogLevel::Debug
        } else {
            LogLevel::Info
        },
        EventKind::D20CheckResolved { result, .. } => if result == D20ResultKind::AttackRoll {
            LogLevel::Debug
        } else {
            LogLevel::Info
        },
        EventKind::DamageRollPerformed { .. } => LogLevel::Debug,
        EventKind::DamageRollResolved { .. } => LogLevel::Debug,
        _ => LogLevel::Info,
    }
}

/// The lowest log level an event is shown at.
pub fn event_log_level(e: &EventKind) -> (l: LogLevel)
    ensures
        l == event_level(*e),
{
    match e {
        EventKind::D20CheckPerformed { result, .. } | EventKind::D20CheckResolved {
            result,
            ..
        } => match result {
            D20ResultKind::AttackRoll => LogLevel::Debug,
            _ => LogLevel::Info,
        },
        EventKind::DamageRollPerformed { .. } => LogLevel::Debug,
        EventKind::DamageRollResolved { .. } => LogLevel::Debug,
        _ => LogLevel::Info,
    }
}

/// The second event completes the first: an action performed after it was
/// requested, a d20 check or a damage roll resolved after it was performed.
pub open spec fn events_match_spec(a: EventKind, b: EventKind) -> bool {
    match a {
        EventKind::ActionRequested { actor: a1, action_id: i1, targets: t1 } => match b {
            EventKind::ActionPerformed { actor: a2, action_id: i2, targets: t2 } => a1 == a2 && i1
                == i2 && t1@ == t2@,
            _ => false,
        },
        EventKind::D20CheckPerformed { entity: e1, .. } => match b {
            EventKind::D20CheckResolved { entity: e2, .. } => e1 == e2,
            _ => false,
        },
        EventKind::DamageRollPerformed { entity: e1 } => match b {
            EventKind::DamageRollResolved { entity: e2 } => e1 == e2,
            _ => false,
        },
        _ => false,
    }
}

fn targets_equal(a: &Vec<TargetInstance>, b: &Vec<TargetInstance>) -> (r: bool)
    ensures
        r == (a@ == b@),
{
    if a.len() != b.len() {
        return false;
    }
    let mut i: usize = 0;
    while i < a.len()
        invariant
            i <= a.len() == b.len(),
            forall|j: int| 0 <= j < i ==> a@[j] == b@[j],
        decreases a.len() - i,
    {
        if a[i] != b[i] {
            return false;
        }
        i = i + 1;
    }
    assert(a@ =~= b@);
    true
}

/// Whether the second event completes the first.
pub fn events_match(a: &EventKind, b: &EventKind) -> (r: bool)
    ensures
        r == events_match_spec(*a, *b),
{
    match a {
        EventKind::ActionRequested { actor: a1, action_id: i1, targets: t1 } => match b {
            EventKind::ActionPerformed { actor: a2, action_id: i2, targets: t2 } => *a1 == *a2
                && *i1 == *i2 && targets_equal(t1, t2),
            _ => false,
        },
        EventKind::D20CheckPerformed { entity: e1, .. } => match b {
            EventKind::D20CheckResolved { entity: e2, .. } => *e1 == *e2,
            _ => false,
        },
        EventKind::DamageRollPerformed { entity: e1 } => match b {
            EventKind::DamageRollResolved { entity: e2 } => *e1 == *e2,
            _ => false,
        },
        _ => false,
    }
}

/// Indices of the events shown at `level`, in order.
pub open spec fn level_filtered(events: Seq<EventKind>, level: LogLevel) -> Seq<int>
    decreases events.len(),
{
    if events.len() == 0 {
        Seq::empty()
    } else {
        let r = level_filtered(events.drop_last(), level);
        if level_rank(event_level(events.last())) <= level_rank(level) {
            r.push(events.len() - 1)
        } else {
            r
        }
    }
}

/// At `Info` level, an event followed (among those shown at the level) by the
/// event that completes it is left out: only the completing one is shown.
pub open spec fn kept_at(events: Seq<EventKind>, level: LogLevel, f: Seq<int>, i: int) -> bool {
    !(level == LogLevel::Info && i + 1 < f.len() && events_match_spec(events[f[i]], events[f[i + 1]]))
}

/// The indices of the events shown, among the first `n` that pass the level.
pub open spec fn shown_upto(events: Seq<EventKind>, level: LogLevel, f: Seq<int>, n: int) -> Seq<
    int,
>
    decreases n,
{
    if n <= 0 {
        Seq::empty()
    } else {
        let r = shown_upto(events, level, f, n - 1);
        if kept_at(events, level, f, n - 1) {
            r.push(f[n - 1])
        } else {
            r
        }
    }
}

/// The indices of the events the log shows at `level`.
pub open spec fn shown_events(events: Seq<EventKind>, level: LogLevel) -> Seq<int> {
    let f = level_filtered(events, level);
    shown_upto(events, level, f, f.len() as int)
}

proof fn lemma_level_filtered_bounds(events: Seq<EventKind>, level: LogLevel)
    ensures
        forall|k: int|
            0 <= k < level_filtered(events, level).len() ==> 0 <= #[trigger] level_filtered(
                events,
                level,
            )[k] < events.len() && level_rank(event_level(events[level_filtered(events, level)[k]]))
                <= level_rank(level),
    decreases events.len(),
{
    if events.len() > 0 {
        lemma_level_filtered_bounds(events.drop_last(), level);
        let r = level_filtered(events.drop_last(), level);
        assert forall|k: int| 0 <= k < r.len() implies events.drop_last()[r[k]] == events[r[k]] by {}
    }
}

/// The indices of the events the log shows at `level`, in order.
pub fn visible_events(events: &Vec<EventKind>, level: LogLevel) -> (r: Vec<usize>)
    ensures
        r@.len() == shown_events(events@, level).len(),
        forall|k: int| 0 <= k < r@.len() ==> r@[k] as int == shown_events(events@, level)[k],
        forall|k: int|
            0 <= k < r@.len() ==> r@[k] < events@.len() && level_rank(
                event_level(events@[r@[k] as int]),
            ) <= level_rank(level),
{
    let mut f: Vec<usize> = Vec::new();
    let mut i: usize = 0;
    while i < events.len()
        invariant
            i <= events.len(),
            f@.len() == level_filtered(events@.take(i as int), level).len(),
            forall|k: int|
                0 <= k < f@.len() ==> f@[k] as int == level_filtered(events@.take(i as int), level)[k],
        decreases events.len() - i,
    {
        assert(events@.take(i + 1).drop_last() =~= events@.take(i as int));
        if event_log_level(&events[i]).at_most(level) {
            f.push(i);
        }
        i = i + 1;
    }
    assert(events@.take(events.len() as int) =~= events@);
    let ghost fs = level_filtered(events@, level);
    proof {
        lemma_level_filtered_bounds(events@, level);
    }
    let mut r: Vec<usize> = Vec::new();
    let mut j: usize = 0;
    while j < f.len()
        invariant
            j <= f.len() == fs.len(),
            forall|k: int| 0 <= k < f@.len() ==> f@[k] as int == fs[k],
            forall|k: int|
                0 <= k < fs.len() ==> 0 <= #[trigger] fs[k] < events@.len() && level_rank(
                    event_level(events@[fs[k]]),
                ) <= level_rank(level),
            r@.len() == shown_upto(events@, level, fs, j as int).len(),
            forall|k: int| 0 <= k < r@.len() ==> r@[k] as int == shown_upto(events@, level, fs, j as int)[k],
            forall|k: int|
                0 <= k < r@.len() ==> r@[k] < events@.len() && level_rank(
                    event_level(events@[r@[k] as int]),
                ) <= level_rank(level),
        decreases f.len() - j,
    {
        let mut skip = false;
        if level == LogLevel::Info && j + 1 < f.len() {
            assert(0 <= fs[j as int] < events@.len());
            assert(0 <= fs[j + 1] < events@.len());
            skip = events_match(&events[f[j]], &events[f[j + 1]]);
        }
        assert(0 <= fs[j as int] < events@.len());
        if !skip {
            r.push(f[j]);
        }
        j = j + 1;
    }
    r
}


/// An action aimed only at its own performer: the log then leaves out the
/// "on ..." part.
pub open spec fn aimed_at_self(targets: Seq<TargetInstance>, actor: EntityId) -> bool {
    targets.len() == 1 && targets[0] == TargetInstance::Entity(actor)
}

/// Whether the action of `actor` is aimed only at itself.
pub fn is_self_target(targets: &Vec<TargetInstance>, actor: EntityId) -> (b: bool)
    ensures
        b == aimed_at_self(targets@, actor),
{
    targets.len() == 1 && targets[0] == TargetInstance::Entity(actor)
}

/// The creatures the log names as targets: each creature aimed at, and the
/// performer in place of a point.
pub open spec fn named_targets(targets: Seq<TargetInstance>, actor: EntityId) -> Seq<EntityId> {
    targets.map_values(
        |t: TargetInstance|
            match t {
                TargetInstance::Entity(e) => e,
                TargetInstance::Point(_) => actor,
            },
    )
}

/// The creatures the log names as targets of an action of `actor`.
pub fn target_entities(targets: &Vec<TargetInstance>, actor: EntityId) -> (r: Vec<EntityId>)
    ensures
        r@ == named_targets(targets@, actor),
{
    let mut r: Vec<EntityId> = Vec::new();
    let mut i: usize = 0;
    while i < targets.len()
        invariant
            i <= targets@.len(),
            r@ == named_targets(targets@, actor).take(i as int),
        decreases targets@.len() - i,
    {
        let e = match targets[i] {
            TargetInstance::Entity(e) => e,
            TargetInstance::Point(_) => actor,
        };
        r.push(e);
        assert(r@ =~= named_targets(targets@, actor).take(i + 1));
        i = i + 1;
    }
    assert(named_targets(targets@, actor).take(targets@.len() as int) =~= named_targets(targets@, actor));
    r
}

/// Attack rolls are the only d20 checks the log treats as details: a
/// saving throw or a skill check is an `Info` event, an attack roll a
/// `Debug` one; damage rolls are `Debug`; every other event is `Info`.
pub proof fn lemma_event_levels(e: EventKind)
    ensures
        e matches EventKind::D20CheckPerformed { result, .. } ==> (event_level(e) == LogLevel::Debug
            <==> result == D20ResultKind::AttackRoll),
        e matches EventKind::D20CheckResolved { result, .. } ==> (event_level(e) == LogLevel::Debug
            <==> result == D20ResultKind::AttackRoll),
        e is DamageRollPerformed || e is DamageRollResolved ==> event_level(e) == LogLevel::Debug,
        e is Encounter || e is ActionRequested || e is ActionPerformed || e is ReactionTriggered
            || e is LifeStateChanged ==> event_level(e) == LogLevel::Info,
{
}

/// The level filter keeps exactly the events whose level is at most the
/// log's level, in increasing order of position.
pub proof fn lemma_level_filter_exact(events: Seq<EventKind>, level: LogLevel)
    ensures
        forall|i: int|
            level_filtered(events, level).contains(i) <==> (0 <= i < events.len() && level_rank(
                event_level(#[trigger] events[i]),
            ) <= level_rank(level)),
        forall|a: int, b: int|
            0 <= a < b < level_filtered(events, level).len() ==> #[trigger] level_filtered(events, level)[a]
                < #[trigger] level_filtered(events, level)[b],
    decreases events.len(),
{
    if events.len() > 0 {
        let p = events.drop_last();
        lemma_level_filter_exact(p, level);
        lemma_level_filtered_bounds(p, level);
        let r = level_filtered(p, level);
        let f = level_filtered(events, level);
        assert forall|i: int| f.contains(i) <==> (0 <= i < events.len() && level_rank(
            event_level(#[trigger] events[i]),
        ) <= level_rank(level)) by {
            if 0 <= i < p.len() {
                assert(p[i] == events[i]);
            }
            if f.contains(i) {
                let k = choose|k: int| 0 <= k < f.len() && f[k] == i;
                if k < r.len() {
                    assert(r.contains(i));
                }
            }
            if 0 <= i < p.len() && level_rank(event_level(events[i])) <= level_rank(level) {
                assert(r.contains(i));
                let k = choose|k: int| 0 <= k < r.len() && r[k] == i;
                assert(f[k] == i);
            }
            if i == events.len() - 1 && level_rank(event_level(events[i])) <= level_rank(level) {
                assert(f[f.len() - 1] == i);
            }
        }
        assert forall|a: int, b: int| 0 <= a < b < f.len() implies #[trigger] f[a] < #[trigger] f[b] by {
            if b == f.len() - 1 && f.len() > r.len() {
                assert(r[a] == f[a]);
                assert(0 <= r[a] < p.len());
            } else {
                assert(r[a] == f[a] && r[b] == f[b]);
            }
        }
    }
}

proof fn lemma_shown_upto_members(events: Seq<EventKind>, level: LogLevel, f: Seq<int>, n: int)
    requires
        0 <= n <= f.len(),
        forall|a: int, b: int| 0 <= a < b < f.len() ==> #[trigger] f[a] < #[trigger] f[b],
    ensures
        forall|j: int| 0 <= j < n ==> (shown_upto(events, level, f, n).contains(#[trigger] f[j]) <==> kept_at(events, level, f, j)),
        forall|x: int| shown_upto(events, level, f, n).contains(x) ==> exists|j: int| 0 <= j < n && #[trigger] f[j] == x,
    decreases n,
{
    if n > 0 {
        lemma_shown_upto_members(events, level, f, n - 1);
        let r = shown_upto(events, level, f, n - 1);
        let s = shown_upto(events, level, f, n);
        assert forall|j: int| 0 <= j < n implies (s.contains(#[trigger] f[j]) <==> kept_at(events, level, f, j)) by {
            if j < n - 1 {
                assert(f[j] < f[n - 1]);
                if s.contains(f[j]) {
                    let k = choose|k: int| 0 <= k < s.len() && s[k] == f[j];
                    if k < r.len() {
                        assert(r.contains(f[j]));
                    }
                }
                if r.contains(f[j]) {
                    let k = choose|k: int| 0 <= k < r.len() && r[k] == f[j];
                    assert(s[k] == f[j]);
                }
            } else {
                if kept_at(events, level, f, n - 1) {
                    assert(s[s.len() - 1] == f[j]);
                } else {
                    if r.contains(f[j]) {
                        let jj = choose|jj: int| 0 <= jj < n - 1 && #[trigger] f[jj] == f[j];
                        assert(f[jj] < f[n - 1]);
                    }
                }
            }
        }
        assert forall|x: int| s.contains(x) implies exists|j: int| 0 <= j < n && #[trigger] f[j] == x by {
            let k = choose|k: int| 0 <= k < s.len() && s[k] == x;
            if k < r.len() {
                assert(r.contains(x));
                let jj = choose|jj: int| 0 <= jj < n - 1 && #[trigger] f[jj] == x;
                assert(f[jj] == x);
            } else {
                assert(f[n - 1] == x);
            }
        }
    }
}

/// The log shows an event exactly when the level filter keeps it and, at
/// `Info`, the next event the filter keeps does not complete it; at
/// `Debug` it shows every event.
pub proof fn lemma_shown_events_exact(events: Seq<EventKind>, level: LogLevel, i: int)
    ensures
        shown_events(events, level).contains(i) <==> (0 <= i < events.len() && level_rank(
            event_level(events[i]),
        ) <= level_rank(level) && !(level == LogLevel::Info && exists|k: int|
            0 <= k && k + 1 < level_filtered(events, level).len() && #[trigger] level_filtered(events, level)[k]
                == i && events_match_spec(events[i], events[level_filtered(events, level)[k + 1]]))),
        level == LogLevel::Debug ==> (shown_events(events, level).contains(i) <==> 0 <= i < events.len()),
{
    lemma_level_filter_exact(events, level);
    let f = level_filtered(events, level);
    lemma_shown_upto_members(events, level, f, f.len() as int);
    let s = shown_events(events, level);
    if s.contains(i) {
        let j = choose|j: int| 0 <= j < f.len() && #[trigger] f[j] == i;
        assert(f.contains(i));
        assert(kept_at(events, level, f, j));
        if level == LogLevel::Info {
            assert forall|k: int| 0 <= k && k + 1 < f.len() && #[trigger] f[k] == i implies !events_match_spec(
                events[i],
                events[f[k + 1]],
            ) by {
                if k != j {
                    if k < j {
                        assert(f[k] < f[j]);
                    } else {
                        assert(f[j] < f[k]);
                    }
                }
            }
        }
    }
    if 0 <= i < events.len() && level_rank(event_level(events[i])) <= level_rank(level) {
        assert(f.contains(i));
        let j = choose|j: int| 0 <= j < f.len() && f[j] == i;
        if !(level == LogLevel::Info && exists|k: int|
            0 <= k && k + 1 < f.len() && #[trigger] f[k] == i && events_match_spec(events[i], events[f[k + 1]])) {
            if level == LogLevel::Info && j + 1 < f.len() {
                assert(!events_match_spec(events[f[j]], events[f[j + 1]]));
            }
            assert(kept_at(events, level, f, j));
        }
    }
    if level == LogLevel::Debug {
        if 0 <= i < events.len() {
            assert(level_rank(event_level(events[i])) <= 1);
        }
    }
}


/// An event is completed only by the next step of the same thing: a
/// requested action by that action performed (same actor, action and
/// targets), a d20 check or a damage roll by its resolution for the same
/// creature. Nothing else completes an event, and a completion never goes
/// backwards.
pub proof fn lemma_events_match(a: EventKind, b: EventKind)
    ensures
        events_match_spec(a, b) ==> (a is ActionRequested && b is ActionPerformed) || (a is D20CheckPerformed
            && b is D20CheckResolved) || (a is DamageRollPerformed && b is DamageRollResolved),
        a matches EventKind::ActionRequested { actor: a1, action_id: i1, targets: t1 } ==> (b matches EventKind::ActionPerformed {
            actor: a2,
            action_id: i2,
            targets: t2,
        } ==> (events_match_spec(a, b) <==> a1 == a2 && i1 == i2 && t1@ == t2@)),
        a matches EventKind::D20CheckPerformed { entity: e1, .. } ==> (b matches EventKind::D20CheckResolved {
            entity: e2,
            ..
        } ==> (events_match_spec(a, b) <==> e1 == e2)),
        a matches EventKind::DamageRollPerformed { entity: e1 } ==> (b matches EventKind::DamageRollResolved {
            entity: e2,
        } ==> (events_match_spec(a, b) <==> e1 == e2)),
        events_match_spec(a, b) ==> !events_match_spec(b, a),
{
}

} // verus!
