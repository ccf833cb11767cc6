//! The effects table: effects ordered by duration (keeping their order
//! within a duration), with a duration header wherever the duration
//! changes.
use vstd::prelude::*;

verus! {

/// Effect `a` comes before effect `b`: a shorter duration first, and in
/// their own order for the same duration.
pub open spec fn comes_before(keys: Seq<u64>, a: usize, b: usize) -> bool {
    keys[a as int] < keys[b as int] || (keys[a as int] == keys[b as int] && a < b)
}

/// `order` lists the effects `0..keys.len()`, each once, by duration and
/// then by position.
pub open spec fn duration_order(keys: Seq<u64>, order: Seq<usize>) -> bool {
    &&& order.len() == keys.len()
    &&& forall|k: usize| k < keys.len() <==> order.contains(k)
    &&& forall|i: int, j: int| 0 <= i < j < order.len() ==> comes_before(keys, #[trigger] order[i], #[trigger] order[j])
}

/// The effects ordered by their duration keys (the order of the durations),
/// effects of the same duration in the order they were given.
pub fn order_by_duration(keys: &Vec<u64>) -> (order: Vec<usize>)
    ensures
        duration_order(keys@, order@),
{
    let mut order: Vec<usize> = Vec::new();
    let mut x: usize = 0;
    while x < keys.len()
        invariant
            x <= keys@.len(),
            order@.len() == x,
            forall|k: usize| k < x <==> order@.contains(k),
            forall|j: int| 0 <= j < order@.len() ==> #[trigger] order@[j] < x,
            forall|i: int, j: int| 0 <= i < j < order@.len() ==> comes_before(keys@, #[trigger] order@[i], #[trigger] order@[j]),
        decreases keys@.len() - x,
    {
        let mut p: usize = 0;
        while p < order.len() && keys[order[p]] <= keys[x]
            invariant
                p <= order@.len(),
                order@.len() == x,
                x < keys@.len(),
                forall|k: usize| k < x <==> order@.contains(k),
                forall|j: int| 0 <= j < order@.len() ==> #[trigger] order@[j] < x,
                forall|j: int| 0 <= j < p ==> keys@[order@[j] as int] <= keys@[x as int],
            decreases order@.len() - p,
        {
            p = p + 1;
        }
        let ghost before = order@;
        order.insert(p, x);
        proof {
            let after = order@;
            assert(after == before.insert(p as int, x));
            assert forall|k: usize| k < x + 1 <==> after.contains(k) by {
                if k < x {
                    assert(before.contains(k));
                    let i = choose|i: int| 0 <= i < before.len() && before[i] == k;
                    if i < p {
                        assert(after[i] == k);
                    } else {
                        assert(after[i + 1] == k);
                    }
                } else if k == x {
                    assert(after[p as int] == x);
                }
                if after.contains(k) {
                    let i = choose|i: int| 0 <= i < after.len() && after[i] == k;
                    if i < p {
                        assert(after[i] == before[i]);
                    } else if i > p {
                        assert(after[i] == before[i - 1]);
                    }
                }
            }
            assert forall|i: int, j: int| 0 <= i < j < after.len() implies comes_before(keys@, #[trigger] after[i], #[trigger] after[j]) by {
                if j < p {
                    assert(after[i] == before[i] && after[j] == before[j]);
                } else if j == p {
                    assert(after[i] == before[i]);
                } else if i < p {
                    assert(after[i] == before[i] && after[j] == before[j - 1]);
                    if comes_before(keys@, before[i], before[j - 1]) {}
                    assert(keys@[before[i] as int] <= keys@[x as int]);
                    if p < before.len() {
                        assert(keys@[before[p as int] as int] > keys@[x as int]);
                        if j - 1 > p {
                            assert(comes_before(keys@, before[p as int], before[j - 1]));
                        }
                    }
                } else if i == p {
                    assert(after[j] == before[j - 1]);
                    assert(keys@[before[p as int] as int] > keys@[x as int]);
                    if j - 1 > p {
                        assert(comes_before(keys@, before[p as int], before[j - 1]));
                    }
                } else {
                    assert(after[i] == before[i - 1] && after[j] == before[j - 1]);
                }
            }
        }
        x = x + 1;
    }
    order
}

/// A row of the effects table: the header of a duration (shown with the
/// duration of the given effect), or an effect.
#[derive(Clone, Copy, Debug, PartialEq, Eq, Structural)]
pub enum EffectRow {
    Duration(usize),
    Effect(usize),
}

/// The rows for the effects in `order`: a header before the first effect and
/// before each effect whose duration differs from the one before it.
pub open spec fn effect_rows(keys: Seq<u64>, order: Seq<usize>) -> Seq<EffectRow>
    decreases order.len(),
{
    if order.len() == 0 {
        Seq::empty()
    } else {
        let n = order.len() - 1;
        let head = if n == 0 || keys[order[n] as int] != keys[order[n - 1] as int] {
            seq![EffectRow::Duration(order[n])]
        } else {
            Seq::empty()
        };
        effect_rows(keys, order.drop_last()) + head + seq![EffectRow::Effect(order[n])]
    }
}

/// The rows of the effects table for effects with the given duration keys.
pub fn effects_table(keys: &Vec<u64>) -> (rows: Vec<EffectRow>)
    ensures
        ({
            let order = choose|o: Seq<usize>| duration_order(keys@, o);
            &&& duration_order(keys@, order)
            &&& rows@ == effect_rows(keys@, order)
        }),
{
    let order = order_by_duration(keys);
    let mut rows: Vec<EffectRow> = Vec::new();
    let mut i: usize = 0;
    while i < order.len()
        invariant
            i <= order@.len(),
            duration_order(keys@, order@),
            rows@ == effect_rows(keys@, order@.take(i as int)),
        decreases order@.len() - i,
    {
        assert(order@.contains(order@[i as int]));
        if i > 0 {
            assert(order@.contains(order@[i - 1]));
        }
        let ghost t = order@.take(i + 1);
        assert(t.drop_last() =~= order@.take(i as int));
        if i == 0 || keys[order[i]] != keys[order[i - 1]] {
            rows.push(EffectRow::Duration(order[i]));
        }
        rows.push(EffectRow::Effect(order[i]));
        assert(rows@ =~= effect_rows(keys@, t));
        i = i + 1;
    }
    assert(order@.take(order@.len() as int) =~= order@);
    proof {
        lemma_duration_order_unique(keys@, order@, choose|o: Seq<usize>| duration_order(keys@, o));
    }
    rows
}

/// Only one order sorts the effects by duration and then by position.
pub proof fn lemma_duration_order_unique(keys: Seq<u64>, a: Seq<usize>, b: Seq<usize>)
    requires
        duration_order(keys, a),
        duration_order(keys, b),
    ensures
        a == b,
    decreases a.len(),
{
    assert forall|i: int| 0 <= i < a.len() implies a[i] == b[i] by {
        lemma_rank(keys, a, i);
        lemma_rank(keys, b, i);
        let ra = Set::new(|k: usize| k < keys.len() && comes_before(keys, k, a[i]));
        let rb = Set::new(|k: usize| k < keys.len() && comes_before(keys, k, b[i]));
        if a[i] != b[i] {
            assert(a.contains(a[i]));
            assert(b.contains(a[i]));
            assert(b.contains(b[i]));
            assert(a[i] < keys.len() && b[i] < keys.len());
            if comes_before(keys, a[i], b[i]) {
                assert(rb.contains(a[i]));
                assert forall|k: usize| ra.contains(k) implies rb.contains(k) by {}
                assert(!ra.contains(a[i]));
                assert(ra.subset_of(rb));
                assert(ra.insert(a[i]).subset_of(rb));
                vstd::set_lib::lemma_len_subset(ra.insert(a[i]), rb);
            } else {
                assert(comes_before(keys, b[i], a[i]));
                assert(ra.contains(b[i]));
                assert forall|k: usize| rb.contains(k) implies ra.contains(k) by {}
                assert(!rb.contains(b[i]));
                assert(rb.insert(b[i]).subset_of(ra));
                vstd::set_lib::lemma_len_subset(rb.insert(b[i]), ra);
            }
        }
    }
    assert(a =~= b);
}

/// In such an order, the effect at position `i` has exactly `i` effects
/// before it.
proof fn lemma_rank(keys: Seq<u64>, order: Seq<usize>, i: int)
    requires
        duration_order(keys, order),
        0 <= i < order.len(),
    ensures
        Set::new(|k: usize| k < keys.len() && comes_before(keys, k, order[i])).len() == i,
        Set::new(|k: usize| k < keys.len() && comes_before(keys, k, order[i])).finite(),
{
    let s = Set::new(|k: usize| k < keys.len() && comes_before(keys, k, order[i]));
    let prefix = order.take(i);
    assert(prefix.no_duplicates()) by {
        assert forall|a: int, b: int| 0 <= a < prefix.len() && 0 <= b < prefix.len() && a != b implies prefix[a] != prefix[b] by {
            if a < b {
                assert(comes_before(keys, order[a], order[b]));
            } else {
                assert(comes_before(keys, order[b], order[a]));
            }
        }
    }
    prefix.unique_seq_to_set();
    assert(s =~= prefix.to_set()) by {
        assert forall|k: usize| s.contains(k) <==> prefix.to_set().contains(k) by {
            if s.contains(k) {
                assert(order.contains(k));
                let j = choose|j: int| 0 <= j < order.len() && order[j] == k;
                if j >= i {
                    if j == i {
                        assert(!comes_before(keys, k, k));
                    } else {
                        assert(comes_before(keys, order[i], order[j]));
                    }
                }
                assert(prefix[j] == k);
            }
            if prefix.to_set().contains(k) {
                let j = choose|j: int| 0 <= j < prefix.len() && prefix[j] == k;
                assert(comes_before(keys, order[j], order[i]));
                assert(order.contains(order[j]));
            }
        }
    }
}


/// A shorter duration always comes first, and effects of one duration keep
/// their order; so the ordered effects have nondecreasing durations.
pub proof fn lemma_shorter_first(keys: Seq<u64>, order: Seq<usize>, a: usize, b: usize)
    requires
        a < keys.len(),
        b < keys.len(),
    ensures
        keys[a as int] < keys[b as int] ==> comes_before(keys, a, b) && !comes_before(keys, b, a),
        keys[a as int] == keys[b as int] ==> (comes_before(keys, a, b) <==> a < b),
        duration_order(keys, order) ==> forall|i: int, j: int|
            0 <= i < j < order.len() ==> keys[#[trigger] order[i] as int] <= keys[#[trigger] order[j] as int],
{
}


/// The effects table grows one effect at a time, in the given order: a
/// duration header opens the table and comes before every effect whose
/// duration differs from the one before it, then the effect follows.
pub proof fn lemma_effect_rows_grow(keys: Seq<u64>, order: Seq<usize>, i: int)
    requires
        0 <= i < order.len(),
    ensures
        effect_rows(keys, order.take(i + 1)) == effect_rows(keys, order.take(i)) + (if i == 0 || keys[order[i] as int]
            != keys[order[i - 1] as int] {
            seq![EffectRow::Duration(order[i])]
        } else {
            Seq::<EffectRow>::empty()
        }) + seq![EffectRow::Effect(order[i])],
        effect_rows(keys, order.take(0)).len() == 0,
{
    let t = order.take(i + 1);
    assert(t.drop_last() =~= order.take(i));
    assert(t[i] == order[i]);
    if i > 0 {
        assert(t[i - 1] == order[i - 1]);
    }
    assert(order.take(0) =~= Seq::<usize>::empty());
}

} // verus!
