//! The window that spawns predefined creatures: which creature is being
//! placed, what is removed when the choice changes or is cancelled, and the
//! unique name a spawned creature gets.
use vstd::prelude::*;
use vstd::set_lib::lemma_len_subset;
use crate::combat::EntityId;
use crate::level_up::copy_string;
use crate::text::{decimal, decimal_string, lemma_decimal_injective, lemma_decimal_len, push_text};

verus! {

/// The `k`-th name tried for a creature called `base`: the name itself,
/// then `base (0)`, `base (1)` and so on.
pub open spec fn candidate_name(base: Seq<char>, k: nat) -> Seq<char> {
    if k == 0 {
        base
    } else {
        base + seq![' ', '('] + decimal((k - 1) as nat) + seq![')']
    }
}

/// Different tries give different names.
proof fn lemma_candidate_injective(base: Seq<char>, i: nat, j: nat)
    requires
        candidate_name(base, i) == candidate_name(base, j),
    ensures
        i == j,
{
    if i > 0 {
        lemma_decimal_len((i - 1) as nat);
    }
    if j > 0 {
        lemma_decimal_len((j - 1) as nat);
    }
    if i > 0 && j > 0 {
        let a = candidate_name(base, i);
        let n = base.len() as int;
        let di = decimal((i - 1) as nat);
        let dj = decimal((j - 1) as nat);
        assert(a.len() == candidate_name(base, j).len());
        assert(di.len() == dj.len());
        assert(a.subrange(n + 2, n + 2 + di.len() as int) =~= di);
        assert(a.subrange(n + 2, n + 2 + dj.len() as int) =~= dj);
        lemma_decimal_injective((i - 1) as nat, (j - 1) as nat);
    } else if i > 0 || j > 0 {
        assert(candidate_name(base, i).len() != candidate_name(base, j).len());
    }
}

/// When the first `n + 1` tries are all taken, there are at least `n + 1`
/// taken names.
proof fn lemma_tries_fit(base: Seq<char>, taken: Seq<Seq<char>>, n: nat)
    requires
        forall|k: nat| k <= n ==> taken.contains(#[trigger] candidate_name(base, k)),
    ensures
        n + 1 <= taken.len(),
{
    let s = Seq::new(n + 1, |k: int| candidate_name(base, k as nat));
    assert forall|a: int, b: int| 0 <= a < s.len() && 0 <= b < s.len() && a != b implies s[a] != s[b] by {
        if s[a] == s[b] {
            lemma_candidate_injective(base, a as nat, b as nat);
        }
    }
    assert(s.no_duplicates());
    s.unique_seq_to_set();
    assert forall|x: Seq<char>| s.to_set().contains(x) implies taken.to_set().contains(x) by {
        let k = choose|k: int| 0 <= k < s.len() && s[k] == x;
        assert(taken.contains(candidate_name(base, k as nat)));
    }
    taken.lemma_cardinality_of_set();
    lemma_len_subset(s.to_set(), taken.to_set());
}

/// The views of a list of names.
pub open spec fn name_views(v: Seq<String>) -> Seq<Seq<char>> {
    v.map_values(|s: String| s@)
}

fn name_taken(taken: &Vec<String>, name: &String) -> (b: bool)
    ensures
        b == name_views(taken@).contains(name@),
{
    let mut i: usize = 0;
    while i < taken.len()
        invariant
            i <= taken@.len(),
            forall|j: int| 0 <= j < i ==> taken@[j]@ != name@,
        decreases taken@.len() - i,
    {
        if taken[i] == *name {
            assert(name_views(taken@)[i as int] == name@);
            return true;
        }
        i = i + 1;
    }
    assert forall|j: int| 0 <= j < name_views(taken@).len() implies name_views(taken@)[j] != name@ by {
        assert(name_views(taken@)[j] == taken@[j]@);
    }
    false
}

/// The name a creature called `base` gets among the `taken` names: `None`
/// when `base` itself is free, else the first of `base (0)`, `base (1)`, ...
/// that is free.
pub fn unique_name(base: &String, taken: &Vec<String>) -> (r: Option<String>)
    ensures
        match r {
            Option::None => !name_views(taken@).contains(base@),
            Some(name) => exists|k: nat|
                #![trigger candidate_name(base@, k)]
                k >= 1 && name@ == candidate_name(base@, k) && !name_views(taken@).contains(name@) && forall|j: nat|
                    j < k ==> name_views(taken@).contains(#[trigger] candidate_name(base@, j)),
        },
{
    let ghost views = name_views(taken@);
    let mut candidate = copy_string(base);
    let mut counter: u64 = 0;
    proof {
        views.lemma_cardinality_of_set();
    }
    while name_taken(taken, &candidate)
        invariant
            views == name_views(taken@),
            candidate@ == candidate_name(base@, counter as nat),
            counter <= views.len(),
            forall|j: nat| j < counter ==> views.contains(#[trigger] candidate_name(base@, j)),
        decreases views.len() - counter,
    {
        proof {
            lemma_tries_fit(base@, views, counter as nat);
            assert(views.len() == taken@.len());
            assert(taken@.len() == taken.len());
            assert(counter + 1 <= taken.len());
        }
        let digits = decimal_string(counter);
        let mut next = copy_string(base);
        push_text(&mut next, " (");
        push_text(&mut next, digits.as_str());
        push_text(&mut next, ")");
        proof {
            reveal_strlit(" (");
            reveal_strlit(")");
            assert(next@ =~= candidate_name(base@, (counter + 1) as nat));
        }
        candidate = next;
        counter = counter + 1;
    }
    if counter == 0 {
        None
    } else {
        Some(candidate)
    }
}

/// The window that spawns predefined creatures into the game: the
/// predefined creature chosen (in the window's own world), the copy of it
/// being placed (in the game's world), and whether the window is done.
#[derive(Clone, Copy, Debug, PartialEq, Eq, Structural)]
pub struct SpawnPredefinedWindow {
    pub entity_to_spawn: Option<EntityId>,
    pub current_entity: Option<EntityId>,
    pub spawning_completed: bool,
}

impl SpawnPredefinedWindow {
    /// Nothing chosen yet.
    pub fn new() -> (w: Self)
        ensures
            w.entity_to_spawn is None,
            w.current_entity is None,
            !w.spawning_completed,
    {
        SpawnPredefinedWindow { entity_to_spawn: None, current_entity: None, spawning_completed: false }
    }

    /// Whether the window is done.
    pub fn is_spawning_completed(&self) -> (b: bool)
        ensures
            b == self.spawning_completed,
    {
        self.spawning_completed
    }

    /// "Spawn" under a predefined creature: it is the one to place; the copy
    /// being placed, if any, is returned to be removed from the game.
    pub fn pick(&mut self, entity: EntityId) -> (removed: Option<EntityId>)
        ensures
            removed == old(self).current_entity,
            final(self).entity_to_spawn == Some(entity),
            final(self).current_entity is None,
            final(self).spawning_completed == old(self).spawning_completed,
    {
        let removed = self.current_entity;
        self.entity_to_spawn = Some(entity);
        self.current_entity = None;
        removed
    }

    /// A copy must be spawned into the game when a creature is chosen and
    /// no copy is being placed.
    pub fn needs_copy(&self) -> (b: bool)
        ensures
            b == (self.entity_to_spawn is Some && self.current_entity is None),
    {
        self.entity_to_spawn.is_some() && self.current_entity.is_none()
    }

    /// The copy spawned into the game is now the one being placed.
    pub fn copy_spawned(&mut self, spawned: EntityId)
        ensures
            final(self).current_entity == Some(spawned),
            final(self).entity_to_spawn == old(self).entity_to_spawn,
            final(self).spawning_completed == old(self).spawning_completed,
    {
        self.current_entity = Some(spawned);
    }

    /// A right click cancels the placing: the copy is returned to be
    /// removed, and nothing is chosen any more.
    pub fn cancel(&mut self) -> (removed: Option<EntityId>)
        ensures
            removed == old(self).current_entity,
            final(self).current_entity is None,
            final(self).entity_to_spawn is None,
            final(self).spawning_completed == old(self).spawning_completed,
    {
        let removed = self.current_entity;
        self.current_entity = None;
        self.entity_to_spawn = None;
        removed
    }

    /// A left click on the ground puts the copy down; the same creature
    /// stays chosen, so the next frame spawns another copy.
    pub fn place(&mut self)
        ensures
            final(self).current_entity is None,
            final(self).entity_to_spawn == old(self).entity_to_spawn,
            final(self).spawning_completed == old(self).spawning_completed,
    {
        self.current_entity = None;
    }

    /// "Done".
    pub fn done(&mut self)
        ensures
            final(self).spawning_completed,
            final(self).current_entity == old(self).current_entity,
            final(self).entity_to_spawn == old(self).entity_to_spawn,
    {
        self.spawning_completed = true;
    }

    /// The end of a frame: once done, the copy being placed (returned) is
    /// removed and nothing stays chosen; otherwise closing the window
    /// (`opened` false) makes it done.
    pub fn end_frame(&mut self, opened: bool) -> (removed: Option<EntityId>)
        ensures
            old(self).spawning_completed ==> {
                &&& removed == old(self).current_entity
                &&& final(self).spawning_completed
                &&& final(self).current_entity is None
                &&& final(self).entity_to_spawn == if old(self).current_entity is Some {
                    Option::None
                } else {
                    old(self).entity_to_spawn
                }
            },
            !old(self).spawning_completed ==> {
                &&& removed is None
                &&& final(self).spawning_completed == !opened
                &&& final(self).current_entity == old(self).current_entity
                &&& final(self).entity_to_spawn == old(self).entity_to_spawn
            },
    {
        if self.spawning_completed {
            match self.current_entity {
                Some(e) => {
                    self.current_entity = None;
                    self.entity_to_spawn = None;
                    Some(e)
                },
                None => None,
            }
        } else {
            self.spawning_completed = !opened;
            None
        }
    }
}


/// What happens in the spawn window during a frame: "Spawn" under a
/// creature, the copy of the chosen creature spawned into the game, a right
/// click, a left click on the ground, "Done".
pub enum SpawnEvent {
    Pick(EntityId),
    CopySpawned(EntityId),
    Cancel,
    Place,
    Done,
}

/// The window after one event, and the copy it removes from the game, if
/// any. A copy is spawned only when a creature is chosen and none is being
/// placed; the clicks on the ground only act on a copy being placed.
pub open spec fn spawn_step(w: SpawnPredefinedWindow, e: SpawnEvent) -> (SpawnPredefinedWindow, Option<EntityId>) {
    match e {
        SpawnEvent::Pick(x) => (
            SpawnPredefinedWindow {
                entity_to_spawn: Some(x),
                current_entity: Option::None,
                spawning_completed: w.spawning_completed,
            },
            w.current_entity,
        ),
        SpawnEvent::CopySpawned(x) => if w.entity_to_spawn is Some && w.current_entity is None {
            (
                SpawnPredefinedWindow {
                    entity_to_spawn: w.entity_to_spawn,
                    current_entity: Some(x),
                    spawning_completed: w.spawning_completed,
                },
                Option::None,
            )
        } else {
            (w, Option::None)
        },
        SpawnEvent::Cancel => if w.current_entity is Some {
            (
                SpawnPredefinedWindow {
                    entity_to_spawn: Option::None,
                    current_entity: Option::None,
                    spawning_completed: w.spawning_completed,
                },
                w.current_entity,
            )
        } else {
            (w, Option::None)
        },
        SpawnEvent::Place => (
            SpawnPredefinedWindow {
                entity_to_spawn: w.entity_to_spawn,
                current_entity: Option::None,
                spawning_completed: w.spawning_completed,
            },
            Option::None,
        ),
        SpawnEvent::Done => (
            SpawnPredefinedWindow {
                entity_to_spawn: w.entity_to_spawn,
                current_entity: w.current_entity,
                spawning_completed: true,
            },
            Option::None,
        ),
    }
}

/// The window after the events `es`, in turn, and the copies removed.
pub open spec fn spawn_steps(w: SpawnPredefinedWindow, es: Seq<SpawnEvent>) -> (SpawnPredefinedWindow, Seq<EntityId>)
    decreases es.len(),
{
    if es.len() == 0 {
        (w, Seq::empty())
    } else {
        let p = spawn_steps(w, es.drop_last());
        let n = spawn_step(p.0, es.last());
        (n.0, match n.1 {
            Some(e) => p.1.push(e),
            Option::None => p.1,
        })
    }
}

/// A whole frame of the window: nothing at all once it is done; otherwise
/// its events, then the end of the frame (see `end_frame`).
pub open spec fn spawn_frame(w: SpawnPredefinedWindow, es: Seq<SpawnEvent>, opened: bool) -> (
    SpawnPredefinedWindow,
    Seq<EntityId>,
) {
    if w.spawning_completed {
        (w, Seq::empty())
    } else {
        let m = spawn_steps(w, es);
        if m.0.spawning_completed {
            match m.0.current_entity {
                Some(e) => (
                    SpawnPredefinedWindow {
                        entity_to_spawn: Option::None,
                        current_entity: Option::None,
                        spawning_completed: true,
                    },
                    m.1.push(e),
                ),
                Option::None => m,
            }
        } else {
            (
                SpawnPredefinedWindow {
                    entity_to_spawn: m.0.entity_to_spawn,
                    current_entity: m.0.current_entity,
                    spawning_completed: !opened,
                },
                m.1,
            )
        }
    }
}

impl SpawnPredefinedWindow {
    /// A whole frame of the window with the events `events`, `opened` false
    /// when the window was closed; returns the copies to remove from the
    /// game.
    pub fn frame(&mut self, events: &Vec<SpawnEvent>, opened: bool) -> (removed: Vec<EntityId>)
        ensures
            (*final(self), removed@) == spawn_frame(*old(self), events@, opened),
    {
        let mut removed: Vec<EntityId> = Vec::new();
        if self.spawning_completed {
            return removed;
        }
        let ghost start = *self;
        let mut i: usize = 0;
        while i < events.len()
            invariant
                i <= events.len(),
                (*self, removed@) == spawn_steps(start, events@.take(i as int)),
            decreases events.len() - i,
        {
            assert(events@.take(i + 1).drop_last() =~= events@.take(i as int));
            match events[i] {
                SpawnEvent::Pick(x) => {
                    match self.pick(x) {
                        Some(e) => removed.push(e),
                        None => {},
                    }
                },
                SpawnEvent::CopySpawned(x) => {
                    if self.needs_copy() {
                        self.copy_spawned(x);
                    }
                },
                SpawnEvent::Cancel => {
                    if self.current_entity.is_some() {
                        match self.cancel() {
                            Some(e) => removed.push(e),
                            None => {},
                        }
                    }
                },
                SpawnEvent::Place => self.place(),
                SpawnEvent::Done => self.done(),
            }
            i = i + 1;
        }
        assert(events@.take(events.len() as int) =~= events@);
        match self.end_frame(opened) {
            Some(e) => removed.push(e),
            None => {},
        }
        removed
    }
}

proof fn lemma_spawn_steps_keep_done(w: SpawnPredefinedWindow, es: Seq<SpawnEvent>)
    ensures
        w.spawning_completed ==> spawn_steps(w, es).0.spawning_completed,
        (exists|k: int| 0 <= k < es.len() && #[trigger] es[k] == SpawnEvent::Done) ==> spawn_steps(
            w,
            es,
        ).0.spawning_completed,
    decreases es.len(),
{
    if es.len() > 0 {
        let prev = es.drop_last();
        lemma_spawn_steps_keep_done(w, prev);
        if exists|k: int| 0 <= k < es.len() && #[trigger] es[k] == SpawnEvent::Done {
            let k = choose|k: int| 0 <= k < es.len() && #[trigger] es[k] == SpawnEvent::Done;
            if k < prev.len() {
                assert(prev[k] == es[k]);
            }
        }
    }
}

/// Over a frame: once the window is done the frame changes nothing and
/// removes nothing, and it never stops being done; when "Done" is clicked
/// during the frame, the copy being placed at the end of the frame is
/// removed and no copy is left being placed.
pub proof fn lemma_spawn_frame(w: SpawnPredefinedWindow, es: Seq<SpawnEvent>, opened: bool)
    ensures
        w.spawning_completed ==> spawn_frame(w, es, opened) == (w, Seq::<EntityId>::empty()),
        w.spawning_completed ==> spawn_frame(w, es, opened).0.spawning_completed,
        !w.spawning_completed && (exists|k: int| 0 <= k < es.len() && #[trigger] es[k] == SpawnEvent::Done)
            ==> {
            let r = spawn_frame(w, es, opened);
            &&& r.0.spawning_completed
            &&& r.0.current_entity is None
            &&& spawn_steps(w, es).0.current_entity matches Some(e) ==> r.1.last() == e
        },
{
    lemma_spawn_steps_keep_done(w, es);
}


/// The first try is the name itself; try `k` after it is the name, a
/// space, and `k - 1` in brackets.
pub proof fn lemma_candidate_shape(base: Seq<char>, k: nat)
    ensures
        candidate_name(base, 0) == base,
        k >= 1 ==> {
            let c = candidate_name(base, k);
            let n = base.len() as int;
            &&& c.take(n) == base
            &&& c[n] == ' '
            &&& c[n + 1] == '('
            &&& c.last() == ')'
            &&& crate::text::decimal_value(c.subrange(n + 2, c.len() - 1)) == k - 1
        },
{
    if k >= 1 {
        let c = candidate_name(base, k);
        let d = decimal((k - 1) as nat);
        crate::text::lemma_decimal_reads_back((k - 1) as nat);
        assert(c.take(base.len() as int) =~= base);
        assert(c.subrange(base.len() as int + 2, c.len() - 1) =~= d);
    }
}

} // verus!
