//! Windows pinned to a side or corner of the screen: which windows share an
//! anchor, which of them were drawn last frame, and in which direction the
//! earlier ones push a window along.
use vstd::prelude::*;
use crate::level_up::copy_string;

verus! {

/// Horizontal side a window is pinned to.
#[derive(Clone, Copy, Debug, PartialEq, Eq, Hash, Structural)]
pub enum HorizontalAnchor {
    Left,
    Center,
    Right,
}

/// Vertical side a window is pinned to.
#[derive(Clone, Copy, Debug, PartialEq, Eq, Hash, Structural)]
pub enum VerticalAnchor {
    Top,
    Center,
    Bottom,
}

/// Where on the screen a window is pinned.
#[derive(Clone, Copy, Debug, PartialEq, Eq, Hash, Structural)]
pub struct WindowAnchor {
    pub horizontal: HorizontalAnchor,
    pub vertical: VerticalAnchor,
}

impl WindowAnchor {
    /// The anchor on the given sides.
    pub fn new(horizontal: HorizontalAnchor, vertical: VerticalAnchor) -> (a: Self)
        ensures
            a.horizontal == horizontal,
            a.vertical == vertical,
    {
        WindowAnchor { horizontal, vertical }
    }

    /// Top left corner.
    pub fn top_left() -> (a: Self)
        ensures
            a == (WindowAnchor { horizontal: HorizontalAnchor::Left, vertical: VerticalAnchor::Top }),
    {
        WindowAnchor::new(HorizontalAnchor::Left, VerticalAnchor::Top)
    }

    /// Middle of the top side.
    pub fn top_center() -> (a: Self)
        ensures
            a == (WindowAnchor { horizontal: HorizontalAnchor::Center, vertical: VerticalAnchor::Top }),
    {
        WindowAnchor::new(HorizontalAnchor::Center, VerticalAnchor::Top)
    }

    /// Top right corner.
    pub fn top_right() -> (a: Self)
        ensures
            a == (WindowAnchor { horizontal: HorizontalAnchor::Right, vertical: VerticalAnchor::Top }),
    {
        WindowAnchor::new(HorizontalAnchor::Right, VerticalAnchor::Top)
    }

    /// Middle of the left side.
    pub fn center_left() -> (a: Self)
        ensures
            a == (WindowAnchor { horizontal: HorizontalAnchor::Left, vertical: VerticalAnchor::Center }),
    {
        WindowAnchor::new(HorizontalAnchor::Left, VerticalAnchor::Center)
    }

    /// Middle of the screen.
    pub fn center() -> (a: Self)
        ensures
            a == (WindowAnchor { horizontal: HorizontalAnchor::Center, vertical: VerticalAnchor::Center }),
    {
        WindowAnchor::new(HorizontalAnchor::Center, VerticalAnchor::Center)
    }

    /// Middle of the right side.
    pub fn center_right() -> (a: Self)
        ensures
            a == (WindowAnchor { horizontal: HorizontalAnchor::Right, vertical: VerticalAnchor::Center }),
    {
        WindowAnchor::new(HorizontalAnchor::Right, VerticalAnchor::Center)
    }

    /// Bottom left corner.
    pub fn bottom_left() -> (a: Self)
        ensures
            a == (WindowAnchor { horizontal: HorizontalAnchor::Left, vertical: VerticalAnchor::Bottom }),
    {
        WindowAnchor::new(HorizontalAnchor::Left, VerticalAnchor::Bottom)
    }

    /// Middle of the bottom side.
    pub fn bottom_center() -> (a: Self)
        ensures
            a == (WindowAnchor { horizontal: HorizontalAnchor::Center, vertical: VerticalAnchor::Bottom }),
    {
        WindowAnchor::new(HorizontalAnchor::Center, VerticalAnchor::Bottom)
    }

    /// Bottom right corner.
    pub fn bottom_right() -> (a: Self)
        ensures
            a == (WindowAnchor { horizontal: HorizontalAnchor::Right, vertical: VerticalAnchor::Bottom }),
    {
        WindowAnchor::new(HorizontalAnchor::Right, VerticalAnchor::Bottom)
    }
}

/// How an earlier window with the same anchor moves a window: windows on the
/// left and right sides are pushed towards the middle horizontally, windows
/// at the top and bottom vertically, centred windows stay.
#[derive(Clone, Copy, Debug, PartialEq, Eq, Structural)]
pub enum StackDirection {
    /// Move right by the earlier window's width.
    Right,
    /// Move left by the earlier window's width.
    Left,
    /// Move down by the earlier window's height.
    Down,
    /// Move up by the earlier window's height.
    Up,
}

/// The direction earlier windows push a window with this anchor, if any.
pub open spec fn stack_direction(anchor: WindowAnchor) -> Option<StackDirection> {
    match anchor.horizontal {
        HorizontalAnchor::Left => Some(StackDirection::Right),
        HorizontalAnchor::Right => Some(StackDirection::Left),
        HorizontalAnchor::Center => match anchor.vertical {
            VerticalAnchor::Top => Some(StackDirection::Down),
            VerticalAnchor::Bottom => Some(StackDirection::Up),
            VerticalAnchor::Center => Option::None,
        },
    }
}

/// The direction earlier windows push a window with `anchor`, if any.
pub fn stacking_direction(anchor: WindowAnchor) -> (d: Option<StackDirection>)
    ensures
        d == stack_direction(anchor),
{
    match anchor.horizontal {
        HorizontalAnchor::Left => Some(StackDirection::Right),
        HorizontalAnchor::Right => Some(StackDirection::Left),
        HorizontalAnchor::Center => match anchor.vertical {
            VerticalAnchor::Top => Some(StackDirection::Down),
            VerticalAnchor::Bottom => Some(StackDirection::Up),
            VerticalAnchor::Center => None,
        },
    }
}

/// A window pinned to an anchor, and whether it was drawn last frame.
pub struct AnchoredWindow {
    pub label: String,
    pub anchor: WindowAnchor,
    pub rendered_prev_frame: bool,
}

impl AnchoredWindow {
    /// A window not drawn yet.
    pub fn new(label: String, anchor: WindowAnchor) -> (w: Self)
        ensures
            w.label == label,
            w.anchor == anchor,
            !w.rendered_prev_frame,
    {
        AnchoredWindow { label, anchor, rendered_prev_frame: false }
    }
}

/// A window as the manager sees it: label, anchor, drawn last frame.
pub type WindowEntry = (Seq<char>, WindowAnchor, bool);

/// What a [`WindowManager`] holds: its windows, the `(anchor, label)` pairs
/// in the order the windows were added, and the labels drawn this frame.
pub struct WindowManagerView {
    pub windows: Seq<WindowEntry>,
    pub entries: Seq<(WindowAnchor, Seq<char>)>,
    pub rendered: Seq<Seq<char>>,
}

/// The manager's view of one window.
pub open spec fn window_entry(w: AnchoredWindow) -> WindowEntry {
    (w.label@, w.anchor, w.rendered_prev_frame)
}

/// No two windows share a label.
pub open spec fn labels_unique(ws: Seq<WindowEntry>) -> bool {
    forall|i: int, j: int| 0 <= i < ws.len() && 0 <= j < ws.len() && i != j ==> #[trigger] ws[i].0 != #[trigger] ws[j].0
}

/// Some window is labelled `label`.
pub open spec fn has_window(ws: Seq<WindowEntry>, label: Seq<char>) -> bool {
    exists|i: int| 0 <= i < ws.len() && #[trigger] ws[i].0 == label
}

/// Position of the window labelled `label` (meaningful when there is one).
pub open spec fn window_index(ws: Seq<WindowEntry>, label: Seq<char>) -> int {
    choose|i: int| 0 <= i < ws.len() && #[trigger] ws[i].0 == label
}

/// The window labelled `label` exists and was drawn last frame.
pub open spec fn drawn_last_frame(ws: Seq<WindowEntry>, label: Seq<char>) -> bool {
    exists|i: int| 0 <= i < ws.len() && #[trigger] ws[i].0 == label && ws[i].2
}

/// Labels are unique and every window is listed under its own anchor.
pub open spec fn manager_wf(v: WindowManagerView) -> bool {
    &&& labels_unique(v.windows)
    &&& forall|i: int|
        0 <= i < v.windows.len() ==> v.entries.contains((#[trigger] v.windows[i].1, v.windows[i].0))
}

/// Adding a window: it replaces the window with the same label or joins the
/// end, and its label is listed last under its anchor.
pub open spec fn added(v: WindowManagerView, w: WindowEntry) -> WindowManagerView {
    WindowManagerView {
        windows: if has_window(v.windows, w.0) {
            v.windows.update(window_index(v.windows, w.0), w)
        } else {
            v.windows.push(w)
        },
        entries: v.entries.push((w.1, w.0)),
        rendered: v.rendered,
    }
}

/// Adding a fresh window with `label` and `anchor` unless one has that label.
pub open spec fn added_if_missing(v: WindowManagerView, label: Seq<char>, anchor: WindowAnchor) -> WindowManagerView {
    if has_window(v.windows, label) {
        v
    } else {
        added(v, (label, anchor, false))
    }
}

/// Recording that the window labelled `label` was drawn this frame, if there
/// is such a window.
pub open spec fn marked_rendered(v: WindowManagerView, label: Seq<char>) -> WindowManagerView {
    if has_window(v.windows, label) && !v.rendered.contains(label) {
        WindowManagerView { rendered: v.rendered.push(label), ..v }
    } else {
        v
    }
}

/// Starting a frame: a window counts as drawn last frame exactly when it was
/// recorded as drawn, and nothing is recorded yet.
pub open spec fn next_frame(v: WindowManagerView) -> WindowManagerView {
    WindowManagerView {
        windows: v.windows.map_values(|w: WindowEntry| (w.0, w.1, v.rendered.contains(w.0))),
        entries: v.entries,
        rendered: Seq::empty(),
    }
}

/// The labels listed under `anchor` before the first `(anchor, label)` entry
/// whose windows were drawn last frame, in the order they were added: the
/// windows that push the window `label` away from its anchor.
pub open spec fn drawn_before(
    entries: Seq<(WindowAnchor, Seq<char>)>,
    anchor: WindowAnchor,
    label: Seq<char>,
    ws: Seq<WindowEntry>,
) -> Seq<Seq<char>>
    decreases entries.len(),
{
    if entries.len() == 0 {
        Seq::empty()
    } else if entries[0] == (anchor, label) {
        Seq::empty()
    } else {
        let rest = drawn_before(entries.drop_first(), anchor, label, ws);
        if entries[0].0 == anchor && drawn_last_frame(ws, entries[0].1) {
            seq![entries[0].1] + rest
        } else {
            rest
        }
    }
}

/// Keeps track of the anchored windows: each window by label, the windows of
/// each anchor in the order they were added, and the windows drawn this frame.
pub struct WindowManager {
    pub windows_by_label: Vec<AnchoredWindow>,
    pub windows_by_anchor: Vec<(WindowAnchor, String)>,
    pub rendered_this_frame: Vec<String>,
}

impl View for WindowManager {
    type V = WindowManagerView;

    open spec fn view(&self) -> WindowManagerView {
        WindowManagerView {
            windows: self.windows_by_label@.map_values(|w: AnchoredWindow| window_entry(w)),
            entries: self.windows_by_anchor@.map_values(|e: (WindowAnchor, String)| (e.0, e.1@)),
            rendered: self.rendered_this_frame@.map_values(|l: String| l@),
        }
    }
}

/// Position of the window labelled `label` in `ws`, if any.
fn find_window(ws: &Vec<AnchoredWindow>, label: &String) -> (r: Option<usize>)
    ensures
        match r {
            Some(i) => i < ws@.len() && ws@[i as int].label@ == label@,
            None => forall|i: int| 0 <= i < ws@.len() ==> ws@[i].label@ != label@,
        },
{
    let mut i: usize = 0;
    while i < ws.len()
        invariant
            i <= ws@.len(),
            forall|j: int| 0 <= j < i ==> ws@[j].label@ != label@,
        decreases ws@.len() - i,
    {
        if ws[i].label == *label {
            return Some(i);
        }
        i = i + 1;
    }
    None
}

/// Whether `label` is among `ls`.
fn listed(ls: &Vec<String>, label: &String) -> (b: bool)
    ensures
        b == ls@.map_values(|l: String| l@).contains(label@),
{
    let ghost views = ls@.map_values(|l: String| l@);
    let mut i: usize = 0;
    while i < ls.len()
        invariant
            i <= ls@.len(),
            views == ls@.map_values(|l: String| l@),
            forall|j: int| 0 <= j < i ==> ls@[j]@ != label@,
        decreases ls@.len() - i,
    {
        if ls[i] == *label {
            assert(views[i as int] == label@);
            return true;
        }
        i = i + 1;
    }
    assert forall|j: int| 0 <= j < views.len() implies views[j] != label@ by {
        assert(views[j] == ls@[j]@);
    }
    false
}

impl WindowManager {
    /// No window yet.
    pub fn new() -> (m: Self)
        ensures
            m@.windows.len() == 0,
            m@.entries.len() == 0,
            m@.rendered.len() == 0,
            manager_wf(m@),
    {
        WindowManager {
            windows_by_label: Vec::new(),
            windows_by_anchor: Vec::new(),
            rendered_this_frame: Vec::new(),
        }
    }
}


impl WindowManager {
    /// Adds `window`, replacing any window with the same label, and lists its
    /// label last under its anchor.
    pub fn add(&mut self, window: AnchoredWindow)
        requires
            manager_wf(old(self)@),
        ensures
            final(self)@ == added(old(self)@, window_entry(window)),
            manager_wf(final(self)@),
    {
        let ghost v = self@;
        let ghost w = window_entry(window);
        let label = copy_string(&window.label);
        let anchor = window.anchor;
        match find_window(&self.windows_by_label, &label) {
            Some(i) => {
                proof {
                    assert(v.windows[i as int].0 == w.0);
                    assert(has_window(v.windows, w.0));
                    let k = window_index(v.windows, w.0);
                    assert(k == i);
                }
                self.windows_by_label.set(i, window);
            },
            None => {
                proof {
                    assert forall|j: int| 0 <= j < v.windows.len() implies v.windows[j].0 != w.0 by {
                        assert(v.windows[j] == window_entry(old(self).windows_by_label@[j]));
                    }
                }
                self.windows_by_label.push(window);
            },
        }
        self.windows_by_anchor.push((anchor, label));
        proof {
            let nv = self@;
            let target = added(v, w);
            assert(nv.windows =~= target.windows);
            assert(nv.entries =~= target.entries);
            assert(nv.rendered =~= target.rendered);
            assert(nv.entries.last() == (w.1, w.0));
            assert forall|i: int| 0 <= i < nv.windows.len() implies nv.entries.contains(
                (#[trigger] nv.windows[i].1, nv.windows[i].0),
            ) by {
                if nv.windows[i] == w {
                    assert(nv.entries[nv.entries.len() - 1] == (w.1, w.0));
                } else {
                    assert(nv.windows[i] == v.windows[i]);
                    let j = choose|j: int| 0 <= j < v.entries.len() && v.entries[j] == (v.windows[i].1, v.windows[i].0);
                    assert(nv.entries[j] == v.entries[j]);
                }
            }
        }
    }

    /// Adds a fresh window with `label` and `anchor` unless a window has that
    /// label already.
    pub fn add_if_missing(&mut self, label: &str, anchor: &WindowAnchor)
        requires
            manager_wf(old(self)@),
        ensures
            final(self)@ == added_if_missing(old(self)@, label@, *anchor),
            manager_wf(final(self)@),
    {
        let owned = label.to_owned();
        let ghost v = self@;
        match find_window(&self.windows_by_label, &owned) {
            Some(i) => {
                assert(v.windows[i as int].0 == label@);
            },
            None => {
                proof {
                    assert forall|j: int| 0 <= j < v.windows.len() implies v.windows[j].0 != label@ by {
                        assert(v.windows[j] == window_entry(self.windows_by_label@[j]));
                    }
                }
                self.add(AnchoredWindow::new(owned, *anchor));
            },
        }
    }
}

impl WindowManager {
    /// Records that the window labelled `label` was drawn this frame; a label
    /// without a window is ignored.
    pub fn mark_rendered(&mut self, label: &str)
        ensures
            final(self)@ == marked_rendered(old(self)@, label@),
    {
        let owned = label.to_owned();
        let ghost v = self@;
        match find_window(&self.windows_by_label, &owned) {
            Some(i) => {
                assert(v.windows[i as int].0 == label@);
                if !listed(&self.rendered_this_frame, &owned) {
                    self.rendered_this_frame.push(owned);
                    assert(self@.rendered =~= v.rendered.push(label@));
                    assert(self@.windows =~= v.windows);
                    assert(self@.entries =~= v.entries);
                }
            },
            None => {
                assert forall|j: int| 0 <= j < v.windows.len() implies v.windows[j].0 != label@ by {
                    assert(v.windows[j] == window_entry(self.windows_by_label@[j]));
                }
            },
        }
    }

    /// Starts a new frame: each window counts as drawn last frame exactly
    /// when it was recorded as drawn, and the record is cleared.
    pub fn new_frame(&mut self)
        requires
            manager_wf(old(self)@),
        ensures
            final(self)@ == next_frame(old(self)@),
            manager_wf(final(self)@),
    {
        let ghost v = self@;
        let mut previous: Vec<AnchoredWindow> = Vec::new();
        std::mem::swap(&mut previous, &mut self.windows_by_label);
        let ghost target = next_frame(v).windows;
        let mut next: Vec<AnchoredWindow> = Vec::new();
        let mut i: usize = 0;
        while i < previous.len()
            invariant
                i <= previous@.len(),
                v.windows == previous@.map_values(|w: AnchoredWindow| window_entry(w)),
                v.rendered == self.rendered_this_frame@.map_values(|l: String| l@),
                target == next_frame(v).windows,
                next@.len() == i,
                forall|j: int| 0 <= j < i ==> window_entry(#[trigger] next@[j]) == target[j],
            decreases previous@.len() - i,
        {
            let seen = listed(&self.rendered_this_frame, &previous[i].label);
            next.push(AnchoredWindow {
                label: copy_string(&previous[i].label),
                anchor: previous[i].anchor,
                rendered_prev_frame: seen,
            });
            i = i + 1;
        }
        self.windows_by_label = next;
        self.rendered_this_frame = Vec::new();
        proof {
            assert(self@.windows =~= target);
            assert(self@.rendered =~= Seq::<Seq<char>>::empty());
            assert(self@.entries =~= v.entries);
            let nv = self@;
            assert forall|a: int, b: int|
                0 <= a < nv.windows.len() && 0 <= b < nv.windows.len() && a != b
                implies #[trigger] nv.windows[a].0 != #[trigger] nv.windows[b].0 by {
                assert(nv.windows[a].0 == v.windows[a].0);
                assert(nv.windows[b].0 == v.windows[b].0);
            }
            assert forall|a: int| 0 <= a < nv.windows.len() implies nv.entries.contains(
                (#[trigger] nv.windows[a].1, nv.windows[a].0),
            ) by {
                assert(nv.windows[a].1 == v.windows[a].1 && nv.windows[a].0 == v.windows[a].0);
            }
        }
    }
}

/// Unfolds [`drawn_before`] on a suffix of the entries.
proof fn lemma_drawn_before_step(
    entries: Seq<(WindowAnchor, Seq<char>)>,
    i: int,
    anchor: WindowAnchor,
    label: Seq<char>,
    ws: Seq<WindowEntry>,
)
    requires
        0 <= i < entries.len(),
        entries[i] != (anchor, label),
    ensures
        drawn_before(entries.skip(i), anchor, label, ws) == if entries[i].0 == anchor && drawn_last_frame(ws, entries[i].1) {
            seq![entries[i].1] + drawn_before(entries.skip(i + 1), anchor, label, ws)
        } else {
            drawn_before(entries.skip(i + 1), anchor, label, ws)
        },
{
    assert(entries.skip(i).drop_first() =~= entries.skip(i + 1));
    assert(entries.skip(i)[0] == entries[i]);
}

impl WindowManager {
    /// The anchor of the window labelled `label` and the labels of the
    /// windows that push it along: those listed before it under the same
    /// anchor that were drawn last frame. `None` when no window has that
    /// label.
    pub fn windows_drawn_before(&self, label: &str) -> (r: Option<(WindowAnchor, Vec<String>)>)
        requires
            manager_wf(self@),
        ensures
            match r {
                Option::None => !has_window(self@.windows, label@),
                Some((anchor, ls)) => {
                    &&& has_window(self@.windows, label@)
                    &&& anchor == self@.windows[window_index(self@.windows, label@)].1
                    &&& ls@.map_values(|l: String| l@) == drawn_before(self@.entries, anchor, label@, self@.windows)
                },
            },
    {
        let owned = label.to_owned();
        let ghost v = self@;
        let k = match find_window(&self.windows_by_label, &owned) {
            Some(k) => k,
            None => {
                assert forall|j: int| 0 <= j < v.windows.len() implies v.windows[j].0 != label@ by {
                    assert(v.windows[j] == window_entry(self.windows_by_label@[j]));
                }
                return None;
            },
        };
        let anchor = self.windows_by_label[k].anchor;
        proof {
            assert(v.windows[k as int].0 == label@);
            assert(has_window(v.windows, label@));
            assert(window_index(v.windows, label@) == k);
            assert(v.windows[k as int] == window_entry(self.windows_by_label@[k as int]));
        }
        let ghost whole = drawn_before(v.entries, anchor, label@, v.windows);
        let mut out: Vec<String> = Vec::new();
        let mut i: usize = 0;
        assert(v.entries.skip(0) =~= v.entries);
        while i < self.windows_by_anchor.len()
            invariant
                i <= v.entries.len(),
                v == self@,
                manager_wf(v),
                owned@ == label@,
                has_window(v.windows, label@),
                anchor == v.windows[window_index(v.windows, label@)].1,
                whole == drawn_before(v.entries, anchor, label@, v.windows),
                whole == out@.map_values(|l: String| l@) + drawn_before(v.entries.skip(i as int), anchor, label@, v.windows),
            decreases v.entries.len() - i,
        {
            let ghost before = out@.map_values(|l: String| l@);
            let entry_anchor = self.windows_by_anchor[i].0;
            assert(v.entries[i as int] == (entry_anchor, self.windows_by_anchor@[i as int].1@));
            if entry_anchor == anchor && self.windows_by_anchor[i].1 == owned {
                assert(drawn_before(v.entries.skip(i as int), anchor, label@, v.windows) == Seq::<Seq<char>>::empty()) by {
                    assert(v.entries.skip(i as int)[0] == v.entries[i as int]);
                }
                assert(whole =~= out@.map_values(|l: String| l@));
                return Some((anchor, out));
            }
            let drawn = match find_window(&self.windows_by_label, &self.windows_by_anchor[i].1) {
                Some(j) => {
                    let d = self.windows_by_label[j].rendered_prev_frame;
                    proof {
                        let l = v.entries[i as int].1;
                        assert(v.windows[j as int].0 == l);
                        if drawn_last_frame(v.windows, l) {
                            let t = choose|t: int| 0 <= t < v.windows.len() && #[trigger] v.windows[t].0 == l && v.windows[t].2;
                            assert(t == j);
                        }
                        assert(d == v.windows[j as int].2);
                    }
                    d
                },
                Option::None => {
                    proof {
                        let l = v.entries[i as int].1;
                        assert forall|t: int| 0 <= t < v.windows.len() implies v.windows[t].0 != l by {
                            assert(v.windows[t] == window_entry(self.windows_by_label@[t]));
                        }
                    }
                    false
                },
            };
            proof {
                lemma_drawn_before_step(v.entries, i as int, anchor, label@, v.windows);
            }
            if entry_anchor == anchor && drawn {
                out.push(copy_string(&self.windows_by_anchor[i].1));
                assert(out@.map_values(|l: String| l@) =~= before.push(v.entries[i as int].1));
                assert(whole =~= out@.map_values(|l: String| l@) + drawn_before(v.entries.skip(i + 1), anchor, label@, v.windows));
            }
            i = i + 1;
        }
        assert(v.entries.skip(i as int) =~= Seq::<(WindowAnchor, Seq<char>)>::empty());
        assert(whole =~= out@.map_values(|l: String| l@));
        Some((anchor, out))
    }
}

/// Adding a window if missing twice is the same as adding it once.
pub proof fn lemma_add_if_missing_idempotent(v: WindowManagerView, label: Seq<char>, anchor: WindowAnchor)
    ensures
        added_if_missing(added_if_missing(v, label, anchor), label, anchor) == added_if_missing(v, label, anchor),
{
    let once = added_if_missing(v, label, anchor);
    if !has_window(v.windows, label) {
        let n = v.windows.len() as int;
        assert(once.windows[n].0 == label);
    }
}

/// A window recorded as drawn this frame counts as drawn last frame once the
/// next frame starts, and the new frame starts with nothing recorded.
pub proof fn lemma_drawn_window_counts_next_frame(v: WindowManagerView, label: Seq<char>)
    requires
        has_window(v.windows, label),
    ensures
        drawn_last_frame(next_frame(marked_rendered(v, label)).windows, label),
        next_frame(marked_rendered(v, label)).rendered.len() == 0,
{
    let m = marked_rendered(v, label);
    let i = choose|i: int| 0 <= i < v.windows.len() && #[trigger] v.windows[i].0 == label;
    assert(m.windows == v.windows);
    assert(m.rendered.contains(label)) by {
        if !v.rendered.contains(label) {
            assert(m.rendered[m.rendered.len() - 1] == label);
        }
    }
    let n = next_frame(m);
    assert(n.windows[i].0 == label && n.windows[i].2);
}

/// Only windows drawn last frame and listed under the same anchor push a
/// window along.
pub proof fn lemma_pushers_drawn_under_same_anchor(
    entries: Seq<(WindowAnchor, Seq<char>)>,
    anchor: WindowAnchor,
    label: Seq<char>,
    ws: Seq<WindowEntry>,
)
    ensures
        forall|k: int|
            0 <= k < drawn_before(entries, anchor, label, ws).len() ==> {
                let x = #[trigger] drawn_before(entries, anchor, label, ws)[k];
                drawn_last_frame(ws, x) && entries.contains((anchor, x))
            },
    decreases entries.len(),
{
    if entries.len() > 0 && entries[0] != (anchor, label) {
        let rest = entries.drop_first();
        lemma_pushers_drawn_under_same_anchor(rest, anchor, label, ws);
        let d = drawn_before(entries, anchor, label, ws);
        let r = drawn_before(rest, anchor, label, ws);
        assert forall|k: int| 0 <= k < d.len() implies {
            let x = #[trigger] d[k];
            drawn_last_frame(ws, x) && entries.contains((anchor, x))
        } by {
            if entries[0].0 == anchor && drawn_last_frame(ws, entries[0].1) {
                if k == 0 {
                    assert(entries[0] == (anchor, d[k]));
                } else {
                    assert(d[k] == r[k - 1]);
                    let j = choose|j: int| 0 <= j < rest.len() && rest[j] == (anchor, r[k - 1]);
                    assert(entries[j + 1] == rest[j]);
                }
            } else {
                assert(d[k] == r[k]);
                let j = choose|j: int| 0 <= j < rest.len() && rest[j] == (anchor, r[k]);
                assert(entries[j + 1] == rest[j]);
            }
        }
    }
}

/// Windows stack towards the middle of the screen: along a side the earlier
/// windows push a window inwards (right from the left side, left from the
/// right side) whatever its vertical side; only horizontally centred
/// windows stack vertically (down from the top, up from the bottom), and
/// nothing stacks in the middle of the screen.
pub proof fn lemma_stacking_towards_middle(anchor: WindowAnchor, vertical: VerticalAnchor)
    ensures
        anchor.horizontal == HorizontalAnchor::Left ==> stack_direction(anchor) == Some(StackDirection::Right),
        anchor.horizontal == HorizontalAnchor::Right ==> stack_direction(anchor) == Some(StackDirection::Left),
        anchor.horizontal != HorizontalAnchor::Center ==> stack_direction(anchor) == stack_direction(
            WindowAnchor { horizontal: anchor.horizontal, vertical },
        ),
        anchor.horizontal == HorizontalAnchor::Center ==> stack_direction(anchor) == match anchor.vertical {
            VerticalAnchor::Top => Some(StackDirection::Down),
            VerticalAnchor::Bottom => Some(StackDirection::Up),
            VerticalAnchor::Center => Option::<StackDirection>::None,
        },
{
}


/// Adding a window: afterwards exactly one window has its label and it is
/// the new one; every other window is as it was; its anchor and label are
/// listed last, after the earlier listings; what was drawn this frame stays.
pub proof fn lemma_add_effects(v: WindowManagerView, w: WindowEntry, l: Seq<char>)
    requires
        labels_unique(v.windows),
    ensures
        ({
            let n = added(v, w);
            &&& labels_unique(n.windows)
            &&& has_window(n.windows, w.0)
            &&& n.windows[window_index(n.windows, w.0)] == w
            &&& l != w.0 ==> (has_window(n.windows, l) <==> has_window(v.windows, l))
            &&& l != w.0 ==> (drawn_last_frame(n.windows, l) <==> drawn_last_frame(v.windows, l))
            &&& n.entries == v.entries.push((w.1, w.0))
            &&& n.rendered == v.rendered
        }),
{
    let n = added(v, w);
    if has_window(v.windows, w.0) {
        let i = window_index(v.windows, w.0);
        assert(n.windows[i].0 == w.0);
        assert forall|a: int, b: int| 0 <= a < n.windows.len() && 0 <= b < n.windows.len() && a != b implies #[trigger] n.windows[a].0
            != #[trigger] n.windows[b].0 by {
            if a != i && b != i {
                assert(n.windows[a] == v.windows[a] && n.windows[b] == v.windows[b]);
            } else if a == i {
                assert(n.windows[b] == v.windows[b]);
            } else {
                assert(n.windows[a] == v.windows[a]);
            }
        }
        let j = window_index(n.windows, w.0);
        assert(j == i) by {
            if j != i {
                assert(n.windows[j].0 == n.windows[i].0);
            }
        }
        if l != w.0 {
            if has_window(v.windows, l) {
                let k = choose|k: int| 0 <= k < v.windows.len() && #[trigger] v.windows[k].0 == l;
                assert(k != i);
                assert(n.windows[k] == v.windows[k]);
            }
            if has_window(n.windows, l) {
                let k = choose|k: int| 0 <= k < n.windows.len() && #[trigger] n.windows[k].0 == l;
                assert(n.windows[k] == v.windows[k]);
            }
            if drawn_last_frame(v.windows, l) {
                let k = choose|k: int| 0 <= k < v.windows.len() && #[trigger] v.windows[k].0 == l && v.windows[k].2;
                assert(n.windows[k] == v.windows[k]);
            }
            if drawn_last_frame(n.windows, l) {
                let k = choose|k: int| 0 <= k < n.windows.len() && #[trigger] n.windows[k].0 == l && n.windows[k].2;
                assert(n.windows[k] == v.windows[k]);
            }
        }
    } else {
        let i = v.windows.len() as int;
        assert(n.windows[i] == w);
        assert forall|a: int, b: int| 0 <= a < n.windows.len() && 0 <= b < n.windows.len() && a != b implies #[trigger] n.windows[a].0
            != #[trigger] n.windows[b].0 by {
            if a != i && b != i {
                assert(n.windows[a] == v.windows[a] && n.windows[b] == v.windows[b]);
            } else if a == i {
                assert(n.windows[b] == v.windows[b]);
            } else {
                assert(n.windows[a] == v.windows[a]);
            }
        }
        let j = window_index(n.windows, w.0);
        assert(j == i) by {
            if j != i {
                assert(n.windows[j] == v.windows[j]);
            }
        }
        if l != w.0 {
            if has_window(v.windows, l) {
                let k = choose|k: int| 0 <= k < v.windows.len() && #[trigger] v.windows[k].0 == l;
                assert(n.windows[k] == v.windows[k]);
            }
            if has_window(n.windows, l) {
                let k = choose|k: int| 0 <= k < n.windows.len() && #[trigger] n.windows[k].0 == l;
                assert(n.windows[k] == v.windows[k]);
            }
            if drawn_last_frame(v.windows, l) {
                let k = choose|k: int| 0 <= k < v.windows.len() && #[trigger] v.windows[k].0 == l && v.windows[k].2;
                assert(n.windows[k] == v.windows[k]);
            }
            if drawn_last_frame(n.windows, l) {
                let k = choose|k: int| 0 <= k < n.windows.len() && #[trigger] n.windows[k].0 == l && n.windows[k].2;
                assert(n.windows[k] == v.windows[k]);
            }
        }
    }
}

/// Every window listed under the same anchor before the window `label`
/// and drawn last frame pushes it along.
pub proof fn lemma_drawn_earlier_windows_push(
    entries: Seq<(WindowAnchor, Seq<char>)>,
    anchor: WindowAnchor,
    label: Seq<char>,
    ws: Seq<WindowEntry>,
    k: int,
)
    requires
        0 <= k < entries.len(),
        entries[k].0 == anchor,
        drawn_last_frame(ws, entries[k].1),
        forall|j: int| 0 <= j <= k ==> #[trigger] entries[j] != (anchor, label),
    ensures
        drawn_before(entries, anchor, label, ws).contains(entries[k].1),
    decreases k,
{
    let d = drawn_before(entries, anchor, label, ws);
    assert(entries[0] != (anchor, label));
    if k == 0 {
        assert(d[0] == entries[0].1);
    } else {
        let rest = entries.drop_first();
        assert forall|j: int| 0 <= j <= k - 1 implies #[trigger] rest[j] != (anchor, label) by {
            assert(rest[j] == entries[j + 1]);
        }
        assert(rest[k - 1] == entries[k]);
        lemma_drawn_earlier_windows_push(rest, anchor, label, ws, k - 1);
        let r = drawn_before(rest, anchor, label, ws);
        let m = choose|m: int| 0 <= m < r.len() && r[m] == entries[k].1;
        if entries[0].0 == anchor && drawn_last_frame(ws, entries[0].1) {
            assert(d[m + 1] == r[m]);
        } else {
            assert(d[m] == r[m]);
        }
    }
}

/// Recording a window as drawn: a window of the manager is recorded from
/// then on, a label without a window is not, and the windows and listings
/// stay as they were.
pub proof fn lemma_mark_effects(v: WindowManagerView, label: Seq<char>)
    ensures
        marked_rendered(v, label).windows == v.windows,
        marked_rendered(v, label).entries == v.entries,
        has_window(v.windows, label) ==> marked_rendered(v, label).rendered.contains(label),
        forall|l: Seq<char>| l != label ==> (marked_rendered(v, label).rendered.contains(l) <==> v.rendered.contains(l)),
        !has_window(v.windows, label) ==> marked_rendered(v, label) == v,
{
    let m = marked_rendered(v, label);
    if has_window(v.windows, label) && !v.rendered.contains(label) {
        assert(m.rendered[m.rendered.len() - 1] == label);
        assert forall|l: Seq<char>| l != label implies (m.rendered.contains(l) <==> v.rendered.contains(l)) by {
            if v.rendered.contains(l) {
                let k = choose|k: int| 0 <= k < v.rendered.len() && v.rendered[k] == l;
                assert(m.rendered[k] == l);
            }
            if m.rendered.contains(l) {
                let k = choose|k: int| 0 <= k < m.rendered.len() && m.rendered[k] == l;
                assert(v.rendered[k] == l);
            }
        }
    }
}

} // verus!
