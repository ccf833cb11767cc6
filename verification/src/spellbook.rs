//! The spellbook panel: the cantrips, the prepared spells with their empty
//! places, the table of spells by level with the spell slots left, and what
//! a click on a spell asks for.
use vstd::prelude::*;
use crate::text::{decimal, decimal_string, push_char, push_text};

verus! {

/// A known spell: the handle of its id, its base level (0 for a cantrip),
/// and whether it is prepared.
#[derive(Clone, Copy, Debug, PartialEq, Eq, Structural)]
pub struct SpellEntry {
    pub id: u64,
    pub level: u8,
    pub prepared: bool,
}

/// Whether the panel only shows the spellbook or lets the player change it.
#[derive(Clone, Copy, Debug, PartialEq, Eq, Structural)]
pub enum RenderMode {
    ReadOnly,
    Editable,
}

/// What a click in the panel asks of the spellbook.
#[derive(Clone, Copy, Debug, PartialEq, Eq, Structural)]
pub enum SpellbookUiAction {
    Prepare(u64),
    Unprepare(u64),
}

/// Where in the panel a spell was clicked.
#[derive(Clone, Copy, Debug, PartialEq, Eq, Structural)]
pub enum SpellArea {
    Cantrips,
    Prepared,
    Table,
}

/// A click on a prepared spell unprepares it and one in the table prepares
/// it, when the panel may change the spellbook; nothing else does anything.
pub open spec fn click_result(mode: RenderMode, area: SpellArea, id: u64) -> Option<SpellbookUiAction> {
    if mode == RenderMode::ReadOnly {
        Option::None
    } else {
        match area {
            SpellArea::Prepared => Some(SpellbookUiAction::Unprepare(id)),
            SpellArea::Table => Some(SpellbookUiAction::Prepare(id)),
            SpellArea::Cantrips => Option::None,
        }
    }
}

/// What clicking spell `id` in `area` asks for.
pub fn click_action(mode: RenderMode, area: SpellArea, id: u64) -> (a: Option<SpellbookUiAction>)
    ensures
        a == click_result(mode, area, id),
{
    match mode {
        RenderMode::ReadOnly => None,
        RenderMode::Editable => match area {
            SpellArea::Prepared => Some(SpellbookUiAction::Unprepare(id)),
            SpellArea::Table => Some(SpellbookUiAction::Prepare(id)),
            SpellArea::Cantrips => None,
        },
    }
}

/// The highest base level among the spells, 0 when there is none.
pub open spec fn max_level(spells: Seq<SpellEntry>) -> int
    decreases spells.len(),
{
    if spells.len() == 0 {
        0
    } else {
        let m = max_level(spells.drop_last());
        if spells.last().level > m {
            spells.last().level as int
        } else {
            m
        }
    }
}

/// The spells of one base level, in their order.
pub open spec fn spells_of_level(spells: Seq<SpellEntry>, level: int) -> Seq<SpellEntry> {
    spells.filter(|s: SpellEntry| s.level == level)
}

/// The spell slot budgets by level: `(level, uses left, uses in all)`.
pub type SlotBudget = (u8, u64, u64);

/// The slots column of a level: `left/all` from the first budget of that
/// level, `0/0` when there is none.
pub open spec fn slot_text(slots: Seq<SlotBudget>, level: int) -> Seq<char>
    decreases slots.len(),
{
    if slots.len() == 0 {
        seq!['0', '/', '0']
    } else if slots[0].0 == level {
        decimal(slots[0].1 as nat) + seq!['/'] + decimal(slots[0].2 as nat)
    } else {
        slot_text(slots.drop_first(), level)
    }
}

/// A row of the spell table: the level, its spells, its slots.
pub struct SpellRow {
    pub level: u8,
    pub spells: Vec<SpellEntry>,
    pub slots: String,
}

/// The rows of the spell table: one for each level from 1 to the highest
/// base level.
pub open spec fn table_rows(spells: Seq<SpellEntry>, slots: Seq<SlotBudget>) -> Seq<(u8, Seq<SpellEntry>, Seq<char>)> {
    Seq::new(
        if max_level(spells) >= 1 { max_level(spells) as nat } else { 0 },
        |i: int| ((i + 1) as u8, spells_of_level(spells, i + 1), slot_text(slots, i + 1)),
    )
}

/// The views of the table rows.
pub open spec fn rows_view(rows: Seq<SpellRow>) -> Seq<(u8, Seq<SpellEntry>, Seq<char>)> {
    rows.map_values(|r: SpellRow| (r.level, r.spells@, r.slots@))
}

/// The highest base level among the spells.
fn highest_level(spells: &Vec<SpellEntry>) -> (m: u8)
    ensures
        m == max_level(spells@),
{
    let mut m: u8 = 0;
    let mut i: usize = 0;
    while i < spells.len()
        invariant
            i <= spells@.len(),
            m == max_level(spells@.take(i as int)),
        decreases spells@.len() - i,
    {
        assert(spells@.take(i + 1).drop_last() =~= spells@.take(i as int));
        if spells[i].level > m {
            m = spells[i].level;
        }
        i = i + 1;
    }
    assert(spells@.take(spells@.len() as int) =~= spells@);
    m
}

/// The spells of base level `level`, in order.
fn spells_at(spells: &Vec<SpellEntry>, level: u8) -> (r: Vec<SpellEntry>)
    ensures
        r@ == spells_of_level(spells@, level as int),
{
    let mut r: Vec<SpellEntry> = Vec::new();
    let mut i: usize = 0;
    proof {
        reveal(Seq::filter);
        assert(spells@.take(0) =~= Seq::<SpellEntry>::empty());
    }
    while i < spells.len()
        invariant
            i <= spells@.len(),
            r@ == spells@.take(i as int).filter(|s: SpellEntry| s.level == level as int),
        decreases spells@.len() - i,
    {
        proof {
            assert(spells@.take(i + 1) =~= spells@.take(i as int).push(spells@[i as int]));
            spells@.take(i as int).lemma_filter_push(spells@[i as int], |s: SpellEntry| s.level == level as int);
        }
        if spells[i].level == level {
            r.push(spells[i]);
        }
        i = i + 1;
    }
    assert(spells@.take(spells@.len() as int) =~= spells@);
    r
}

/// The slots column of `level`.
fn slots_at(slots: &Vec<SlotBudget>, level: u8) -> (s: String)
    ensures
        s@ == slot_text(slots@, level as int),
{
    let mut i: usize = 0;
    assert(slots@.skip(0) =~= slots@);
    while i < slots.len()
        invariant
            i <= slots@.len(),
            slot_text(slots@, level as int) == slot_text(slots@.skip(i as int), level as int),
        decreases slots@.len() - i,
    {
        assert(slots@.skip(i as int)[0] == slots@[i as int]);
        if slots[i].0 == level {
            let mut s = decimal_string(slots[i].1);
            push_char(&mut s, '/');
            let max = decimal_string(slots[i].2);
            push_text(&mut s, max.as_str());
            return s;
        }
        assert(slots@.skip(i as int).drop_first() =~= slots@.skip(i + 1));
        i = i + 1;
    }
    assert(slots@.skip(i as int) =~= Seq::<SlotBudget>::empty());
    let mut s = String::new();
    push_char(&mut s, '0');
    push_char(&mut s, '/');
    push_char(&mut s, '0');
    assert(s@ =~= seq!['0', '/', '0']);
    s
}

/// The spell table of the panel: for each level from 1 to the highest base
/// level, its spells in order and its slots.
pub fn spell_table(spells: &Vec<SpellEntry>, slots: &Vec<SlotBudget>) -> (rows: Vec<SpellRow>)
    ensures
        rows_view(rows@) == table_rows(spells@, slots@),
{
    let top = highest_level(spells);
    let mut rows: Vec<SpellRow> = Vec::new();
    let mut level: u16 = 1;
    while level <= top as u16
        invariant
            top == max_level(spells@),
            1 <= level <= top as int + 1,
            rows_view(rows@) == table_rows(spells@, slots@).take(level - 1),
        decreases top as int + 1 - level,
    {
        let l = level as u8;
        let row = SpellRow { level: l, spells: spells_at(spells, l), slots: slots_at(slots, l) };
        let ghost before = rows_view(rows@);
        let ghost rv = (row.level, row.spells@, row.slots@);
        rows.push(row);
        assert(rows_view(rows@) =~= before.push(rv));
        assert(rows_view(rows@) =~= table_rows(spells@, slots@).take(level as int));
        level = level + 1;
    }
    assert(table_rows(spells@, slots@).take(top as int) =~= table_rows(spells@, slots@));
    rows
}

/// The cantrips among the spells, in order.
pub fn cantrips(spells: &Vec<SpellEntry>) -> (r: Vec<SpellEntry>)
    ensures
        r@ == spells_of_level(spells@, 0),
{
    spells_at(spells, 0)
}

/// The empty places shown after the prepared spells: what is left of the
/// most that may be prepared.
pub fn empty_prepared_places(prepared: usize, max_prepared: usize) -> (n: usize)
    ensures
        n == if prepared < max_prepared { (max_prepared - prepared) as usize } else { 0 },
{
    if prepared < max_prepared {
        max_prepared - prepared
    } else {
        0
    }
}


/// A read-only panel never asks for anything; in an editable one a click
/// on a prepared spell unprepares that spell, one in the table prepares it,
/// and a click on a cantrip asks for nothing.
pub proof fn lemma_click_results(mode: RenderMode, area: SpellArea, id: u64)
    ensures
        mode == RenderMode::ReadOnly ==> click_result(mode, area, id) is None,
        mode == RenderMode::Editable && area == SpellArea::Prepared ==> click_result(mode, area, id) == Some(
            SpellbookUiAction::Unprepare(id),
        ),
        mode == RenderMode::Editable && area == SpellArea::Table ==> click_result(mode, area, id) == Some(
            SpellbookUiAction::Prepare(id),
        ),
        area == SpellArea::Cantrips ==> click_result(mode, area, id) is None,
{
}

/// The highest level is at least the level of every spell, and is the
/// level of one of them (0 without spells).
pub proof fn lemma_max_level(spells: Seq<SpellEntry>)
    ensures
        forall|i: int| 0 <= i < spells.len() ==> (#[trigger] spells[i]).level <= max_level(spells),
        spells.len() == 0 ==> max_level(spells) == 0,
        spells.len() > 0 ==> exists|i: int| 0 <= i < spells.len() && #[trigger] spells[i].level == max_level(spells),
        max_level(spells) >= 0,
    decreases spells.len(),
{
    if spells.len() > 0 {
        let p = spells.drop_last();
        lemma_max_level(p);
        assert forall|i: int| 0 <= i < spells.len() implies (#[trigger] spells[i]).level <= max_level(spells) by {
            if i < p.len() {
                assert(spells[i] == p[i]);
            }
        }
        if spells.last().level > max_level(p) {
            assert(spells[spells.len() - 1].level == max_level(spells));
        } else if p.len() > 0 {
            let i = choose|i: int| 0 <= i < p.len() && #[trigger] p[i].level == max_level(p);
            assert(spells[i] == p[i]);
        } else {
            assert(spells[0].level == 0 || spells[0].level <= 0);
            assert(spells[spells.len() - 1].level == max_level(spells));
        }
    }
}

/// The spell table has one row per level from 1 to the highest level of a
/// spell, in order; each row holds exactly the spells of its level, in
/// their order.
pub proof fn lemma_table_rows(spells: Seq<SpellEntry>, slots: Seq<SlotBudget>)
    ensures
        table_rows(spells, slots).len() == max_level(spells),
        forall|k: int|
            0 <= k < table_rows(spells, slots).len() ==> {
                let row = #[trigger] table_rows(spells, slots)[k];
                &&& row.0 == k + 1
                &&& forall|s: SpellEntry| row.1.contains(s) <==> (spells.contains(s) && s.level == k + 1)
            },
{
    lemma_max_level(spells);
    assert forall|k: int| 0 <= k < table_rows(spells, slots).len() implies {
        let row = #[trigger] table_rows(spells, slots)[k];
        &&& row.0 == k + 1
        &&& forall|s: SpellEntry| row.1.contains(s) <==> (spells.contains(s) && s.level == k + 1)
    } by {
        let pred = |s: SpellEntry| s.level == k + 1;
        assert(table_rows(spells, slots)[k].1 == spells.filter(pred));
        assert forall|s: SpellEntry| spells.filter(pred).contains(s) <==> (spells.contains(s) && s.level == k + 1) by {
            if spells.filter(pred).contains(s) {
                spells.lemma_filter_contains_rev(pred, s);
                let i = choose|i: int| 0 <= i < spells.filter(pred).len() && spells.filter(pred)[i] == s;
                spells.lemma_filter_pred(pred, i);
            }
            if spells.contains(s) && s.level == k + 1 {
                let i = choose|i: int| 0 <= i < spells.len() && spells[i] == s;
                spells.lemma_filter_contains(pred, i);
            }
        }
    }
}

/// The slots shown for a level are those of the first budget of that
/// level, as `left/all`, and `0/0` when no budget has that level.
pub proof fn lemma_slot_text(slots: Seq<SlotBudget>, level: int)
    ensures
        (forall|j: int| 0 <= j < slots.len() ==> (#[trigger] slots[j]).0 != level) ==> slot_text(slots, level)
            == seq!['0', '/', '0'],
        forall|j: int|
            0 <= j < slots.len() && (#[trigger] slots[j]).0 == level && (forall|i: int| 0 <= i < j ==> slots[i].0
                != level) ==> slot_text(slots, level) == decimal(slots[j].1 as nat) + seq!['/'] + decimal(
                slots[j].2 as nat,
            ),
    decreases slots.len(),
{
    if slots.len() > 0 {
        let rest = slots.drop_first();
        lemma_slot_text(rest, level);
        if forall|j: int| 0 <= j < slots.len() ==> (#[trigger] slots[j]).0 != level {
            assert(slots[0].0 != level);
            assert forall|j: int| 0 <= j < rest.len() implies (#[trigger] rest[j]).0 != level by {
                assert(rest[j] == slots[j + 1]);
            }
        }
        assert forall|j: int|
            0 <= j < slots.len() && (#[trigger] slots[j]).0 == level && (forall|i: int| 0 <= i < j ==> slots[i].0
                != level) implies slot_text(slots, level) == decimal(slots[j].1 as nat) + seq!['/'] + decimal(
            slots[j].2 as nat,
        ) by {
            if j > 0 {
                assert(slots[0].0 != level);
                assert(rest[j - 1] == slots[j]);
                assert forall|i: int| 0 <= i < j - 1 implies rest[i].0 != level by {
                    assert(rest[i] == slots[i + 1]);
                }
            }
        }
    }
}

} // verus!
