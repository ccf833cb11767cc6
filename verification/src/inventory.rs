//! Inventory widgets: what a mouse gesture on an item slot means, the short
//! label of an item button, and the grid of item slots.
use vstd::prelude::*;
use vstd::string::StrSliceExecFns;
use crate::combat::EntityId;
use crate::text::{joined_lines, push_char};

verus! {

/// Where an item sits: a position in the inventory, or an equipment slot
/// (by its position in the list of slots).
#[derive(Clone, Copy, Debug, PartialEq, Eq, Structural)]
pub enum ContainerSlot {
    Inventory(usize),
    Loadout(u8),
}

/// The gesture made on an item slot.
#[derive(Clone, Copy, Debug, PartialEq, Eq, Structural)]
pub enum InteractMode {
    RightClick,
    DoubleClick,
    Drag,
}

/// A gesture on the item slot `slot` of `entity`.
#[derive(Clone, Copy, Debug, PartialEq, Eq, Structural)]
pub struct InteractEvent {
    pub entity: EntityId,
    pub slot: ContainerSlot,
    pub mode: InteractMode,
}

/// The gesture read from the mouse over a hovered slot: a released right
/// button first, then a left double click, then a left drag.
pub open spec fn gesture(hovered: bool, right_released: bool, double_clicked: bool, dragging: bool) -> Option<InteractMode> {
    if !hovered {
        Option::None
    } else if right_released {
        Some(InteractMode::RightClick)
    } else if double_clicked {
        Some(InteractMode::DoubleClick)
    } else if dragging {
        Some(InteractMode::Drag)
    } else {
        Option::None
    }
}

impl InteractEvent {
    /// The event for the mouse state over the slot just drawn, if any.
    pub fn from_input(
        hovered: bool,
        right_released: bool,
        double_clicked: bool,
        dragging: bool,
        entity: EntityId,
        slot: ContainerSlot,
    ) -> (e: Option<InteractEvent>)
        ensures
            match gesture(hovered, right_released, double_clicked, dragging) {
                Some(mode) => e == Some(InteractEvent { entity, slot, mode }),
                Option::None => e is None,
            },
    {
        if hovered {
            if right_released {
                return Some(InteractEvent { entity, slot, mode: InteractMode::RightClick });
            }
            if double_clicked {
                return Some(InteractEvent { entity, slot, mode: InteractMode::DoubleClick });
            }
            if dragging {
                return Some(InteractEvent { entity, slot, mode: InteractMode::Drag });
            }
        }
        None
    }
}

/// Whether a character has the Unicode `White_Space` property: the
/// controls U+0009 to U+000D, the space, U+0085, the no-break space, the
/// Ogham space mark, the spaces U+2000 to U+200A, the line and paragraph
/// separators, the narrow no-break space, the medium mathematical space and
/// the ideographic space.
pub open spec fn whitespace_char(c: char) -> bool {
    let u = c as u32;
    ||| 0x9 <= u <= 0xD
    ||| u == 0x20
    ||| u == 0x85
    ||| u == 0xA0
    ||| u == 0x1680
    ||| 0x2000 <= u <= 0x200A
    ||| u == 0x2028
    ||| u == 0x2029
    ||| u == 0x202F
    ||| u == 0x205F
    ||| u == 0x3000
}

/// `char::is_whitespace`: whether the character has the Unicode
/// `White_Space` property, the set [`whitespace_char`] lists.
#[verifier::external_body]
fn is_whitespace(c: char) -> (b: bool)
    ensures
        b == whitespace_char(c),
{
    c.is_whitespace()
}

/// The words of a text as `str::split_whitespace` gives them: the maximal
/// runs of characters that are not whitespace.
pub open spec fn words(s: Seq<char>) -> Seq<Seq<char>>
    decreases s.len(),
{
    if s.len() == 0 {
        Seq::empty()
    } else {
        let w = words(s.drop_last());
        let c = s.last();
        if whitespace_char(c) {
            w
        } else if s.len() >= 2 && !whitespace_char(s[s.len() - 2]) {
            w.update(w.len() - 1, w.last().push(c))
        } else {
            w.push(seq![c])
        }
    }
}

/// The label of an item button: the first three characters of each word of
/// the item's name, one word per line.
pub open spec fn short_name(name: Seq<char>) -> Seq<char> {
    joined_lines(words(name).map_values(|w: Seq<char>| w.take(if w.len() < 3 { w.len() as int } else { 3 })))
}

/// The first three characters of `w`, or all of it when shorter.
pub open spec fn word_head(w: Seq<char>) -> Seq<char> {
    w.take(if w.len() < 3 { w.len() as int } else { 3 })
}

/// The label of an item button for an item called `name`.
pub fn item_short_name(name: &str) -> (label: String)
    ensures
        label@ == short_name(name@),
{
    let n = name.unicode_len();
    let mut heads: Vec<String> = Vec::new();
    let mut cur = String::new();
    let mut cur_len: usize = 0;
    let mut in_word = false;
    let mut i: usize = 0;
    assert(name@.take(0) =~= Seq::<char>::empty());
    while i < n
        invariant
            n == name@.len(),
            i <= n,
            in_word == (i > 0 && !whitespace_char(name@[i - 1])),
            ({
                let w = words(name@.take(i as int));
                &&& !in_word ==> heads@.map_values(|h: String| h@) == w.map_values(|x: Seq<char>| word_head(x))
                &&& in_word ==> w.len() > 0 && heads@.map_values(|h: String| h@) == w.drop_last().map_values(
                    |x: Seq<char>| word_head(x),
                ) && cur@ == word_head(w.last()) && cur_len == (if w.last().len() < 3 {
                    w.last().len()
                } else {
                    3
                })
            }),
        decreases n - i,
    {
        let c = name.get_char(i);
        let ghost pre = name@.take(i as int);
        let ghost next = name@.take(i + 1);
        assert(next.drop_last() =~= pre);
        assert(next.last() == c);
        if is_whitespace(c) {
            if in_word {
                let ghost hv = heads@.map_values(|h: String| h@);
                heads.push(cur);
                cur = String::new();
                cur_len = 0;
                proof {
                    let w = words(pre);
                    assert(heads@.map_values(|h: String| h@) =~= hv.push(word_head(w.last())));
                    assert(w.drop_last().push(w.last()) =~= w);
                    assert(w.map_values(|x: Seq<char>| word_head(x)) =~= w.drop_last().map_values(
                        |x: Seq<char>| word_head(x),
                    ).push(word_head(w.last())));
                }
            }
            in_word = false;
        } else {
            proof {
                let w = words(pre);
                if in_word {
                    assert(pre.len() >= 1 && next[next.len() - 2] == pre.last());
                    let nw = words(next);
                    assert(nw == w.update(w.len() - 1, w.last().push(c)));
                    assert(nw.drop_last() =~= w.drop_last());
                    assert(nw.last() == w.last().push(c));
                } else {
                    let nw = words(next);
                    assert(nw == w.push(seq![c]));
                    assert(nw.drop_last() =~= w);
                }
            }
            if !in_word {
                cur_len = 0;
                cur = String::new();
            }
            if cur_len < 3 {
                push_char(&mut cur, c);
                cur_len = cur_len + 1;
            }
            proof {
                let nw = words(next);
                let last = nw.last();
                assert(word_head(last) =~= cur@);
            }
            in_word = true;
        }
        i = i + 1;
    }
    assert(name@.take(n as int) =~= name@);
    if in_word {
        let ghost hv = heads@.map_values(|h: String| h@);
        heads.push(cur);
        proof {
            let w = words(name@);
            assert(heads@.map_values(|h: String| h@) =~= hv.push(word_head(w.last())));
            assert(w.map_values(|x: Seq<char>| word_head(x)) =~= w.drop_last().map_values(
                |x: Seq<char>| word_head(x),
            ).push(word_head(w.last())));
        }
    }
    let ghost heads_view = heads@.map_values(|h: String| h@);
    assert(heads_view =~= words(name@).map_values(|w: Seq<char>| w.take(if w.len() < 3 { w.len() as int } else { 3 })));
    let mut label = String::new();
    let mut k: usize = 0;
    while k < heads.len()
        invariant
            k <= heads@.len(),
            heads_view == heads@.map_values(|h: String| h@),
            label@ == joined_lines(heads_view.take(k as int)),
        decreases heads@.len() - k,
    {
        let ghost before = label@;
        if k > 0 {
            push_char(&mut label, '\n');
        }
        crate::text::push_text(&mut label, heads[k].as_str());
        proof {
            assert(heads_view.take(k + 1).drop_last() =~= heads_view.take(k as int));
            assert(heads_view[k as int] == heads@[k as int]@);
            if k == 0 {
                assert(label@ =~= heads_view.take(1)[0]);
            } else {
                assert(label@ =~= before + seq!['\n'] + heads_view[k as int]);
            }
        }
        k = k + 1;
    }
    assert(heads_view.take(heads@.len() as int) =~= heads_view);
    label
}

/// Item slots per row of the inventory grid.
pub const INVENTORY_ITEMS_PER_ROW: usize = 8;

/// Slots of the inventory grid for `items` items: whole rows, with room
/// for at least one more item.
pub open spec fn slot_count(items: int) -> int {
    (items + 8) / 8 * 8
}

/// The number of slots the inventory grid shows for `items` items.
pub fn inventory_slots(items: usize) -> (slots: usize)
    requires
        items + 8 <= usize::MAX,
    ensures
        slots == slot_count(items as int),
        slots > items,
        slots % INVENTORY_ITEMS_PER_ROW == 0,
{
    let rows = (items + INVENTORY_ITEMS_PER_ROW) / INVENTORY_ITEMS_PER_ROW;
    assert(rows * 8 <= items + 8) by (nonlinear_arith)
        requires rows == (items + 8) / 8;
    assert(rows * 8 > items) by (nonlinear_arith)
        requires rows == (items + 8) / 8;
    assert((rows * 8) % 8 == 0) by (nonlinear_arith);
    rows * INVENTORY_ITEMS_PER_ROW
}

/// The slot after slot `i` goes on the same row: `i` does not end a row and
/// is not the last slot.
pub fn slot_continues_row(i: usize, slots: usize) -> (b: bool)
    requires
        i < slots,
    ensures
        b == ((i + 1) % 8 != 0 && i + 1 < slots),
{
    (i + 1) % INVENTORY_ITEMS_PER_ROW != 0 && i + 1 < slots
}


/// What a gesture on an item asks of the game.
#[derive(Clone, Copy, Debug, PartialEq, Eq, Structural)]
pub enum InventoryCommand {
    /// Take off the item of an equipment slot and put it in the inventory.
    Unequip(u8),
    /// Put on the inventory item at a position.
    Equip(usize),
}

/// A double click on an equipped item takes it off; a double click on an
/// inventory item puts it on; nothing else changes the items.
pub open spec fn command_for(event: InteractEvent) -> Option<InventoryCommand> {
    if event.mode == InteractMode::DoubleClick {
        match event.slot {
            ContainerSlot::Loadout(slot) => Some(InventoryCommand::Unequip(slot)),
            ContainerSlot::Inventory(index) => Some(InventoryCommand::Equip(index)),
        }
    } else {
        Option::None
    }
}

/// The command a gesture on an item slot asks for.
pub fn inventory_command(event: InteractEvent) -> (c: Option<InventoryCommand>)
    ensures
        c == command_for(event),
{
    match event.mode {
        InteractMode::DoubleClick => match event.slot {
            ContainerSlot::Loadout(slot) => Some(InventoryCommand::Unequip(slot)),
            ContainerSlot::Inventory(index) => Some(InventoryCommand::Equip(index)),
        },
        _ => None,
    }
}

/// Only a hovered slot reads a gesture; a released right button wins over
/// a double click, which wins over a drag; without any of them there is no
/// gesture.
pub proof fn lemma_gesture_priority(hovered: bool, right_released: bool, double_clicked: bool, dragging: bool)
    ensures
        !hovered ==> gesture(hovered, right_released, double_clicked, dragging) is None,
        hovered && right_released ==> gesture(hovered, right_released, double_clicked, dragging) == Some(
            InteractMode::RightClick,
        ),
        hovered && !right_released && double_clicked ==> gesture(hovered, right_released, double_clicked, dragging)
            == Some(InteractMode::DoubleClick),
        hovered && !right_released && !double_clicked && dragging ==> gesture(
            hovered,
            right_released,
            double_clicked,
            dragging,
        ) == Some(InteractMode::Drag),
        !right_released && !double_clicked && !dragging ==> gesture(hovered, right_released, double_clicked, dragging)
            is None,
{
}

/// Only a double click asks for a command: on an equipped item it takes
/// that item off, on an inventory item it puts that item on.
pub proof fn lemma_commands(event: InteractEvent)
    ensures
        event.mode != InteractMode::DoubleClick ==> command_for(event) is None,
        event.mode == InteractMode::DoubleClick ==> match event.slot {
            ContainerSlot::Loadout(slot) => command_for(event) == Some(InventoryCommand::Unequip(slot)),
            ContainerSlot::Inventory(index) => command_for(event) == Some(InventoryCommand::Equip(index)),
        },
{
}

/// Words are never empty and hold no whitespace, and a text without any
/// character other than whitespace has no word.
pub proof fn lemma_words(s: Seq<char>)
    ensures
        forall|k: int| 0 <= k < words(s).len() ==> (#[trigger] words(s)[k]).len() > 0,
        forall|k: int, j: int| 0 <= k < words(s).len() && 0 <= j < words(s)[k].len() ==> !whitespace_char(
            #[trigger] words(s)[k][j],
        ),
        (forall|j: int| 0 <= j < s.len() ==> whitespace_char(#[trigger] s[j])) ==> words(s).len() == 0,
        s.len() > 0 && !whitespace_char(s.last()) ==> words(s).len() > 0 && words(s).last().last() == s.last(),
    decreases s.len(),
{
    if s.len() > 0 {
        let p = s.drop_last();
        lemma_words(p);
        let w = words(p);
        let c = s.last();
        let n = words(s);
        if (forall|j: int| 0 <= j < s.len() ==> whitespace_char(#[trigger] s[j])) {
            assert forall|j: int| 0 <= j < p.len() implies whitespace_char(#[trigger] p[j]) by {
                assert(p[j] == s[j]);
            }
            assert(whitespace_char(s[s.len() - 1]));
        }
        if !whitespace_char(c) && s.len() >= 2 && !whitespace_char(s[s.len() - 2]) {
            assert(p.last() == s[s.len() - 2]);
            assert forall|k: int| 0 <= k < n.len() implies (#[trigger] n[k]).len() > 0 by {
                if k < w.len() - 1 {
                    assert(n[k] == w[k]);
                }
            }
            assert forall|k: int, j: int| 0 <= k < n.len() && 0 <= j < n[k].len() implies !whitespace_char(
                #[trigger] n[k][j],
            ) by {
                if k < w.len() - 1 {
                    assert(n[k] == w[k]);
                } else if j < w.last().len() {
                    assert(n[k][j] == w[k][j]);
                }
            }
        } else if !whitespace_char(c) {
            assert forall|k: int| 0 <= k < n.len() implies (#[trigger] n[k]).len() > 0 by {
                if k < w.len() {
                    assert(n[k] == w[k]);
                }
            }
            assert forall|k: int, j: int| 0 <= k < n.len() && 0 <= j < n[k].len() implies !whitespace_char(
                #[trigger] n[k][j],
            ) by {
                if k < w.len() {
                    assert(n[k] == w[k]);
                }
            }
        }
    }
}

} // verus!
