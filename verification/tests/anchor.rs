use nat20_gui::anchor::{
    stacking_direction, AnchoredWindow, HorizontalAnchor, StackDirection, VerticalAnchor,
    WindowAnchor, WindowManager,
};

fn labels(v: &[String]) -> Vec<&str> {
    v.iter().map(|s| s.as_str()).collect()
}

#[test]
fn anchor_constructors() {
    let a = WindowAnchor::new(HorizontalAnchor::Right, VerticalAnchor::Bottom);
    assert_eq!(a, WindowAnchor::bottom_right());
    assert_eq!(WindowAnchor::top_left().horizontal, HorizontalAnchor::Left);
    assert_eq!(WindowAnchor::center().vertical, VerticalAnchor::Center);
}

#[test]
fn stacking_directions_point_to_the_middle() {
    assert_eq!(stacking_direction(WindowAnchor::top_left()), Some(StackDirection::Right));
    assert_eq!(stacking_direction(WindowAnchor::center_right()), Some(StackDirection::Left));
    assert_eq!(stacking_direction(WindowAnchor::top_center()), Some(StackDirection::Down));
    assert_eq!(stacking_direction(WindowAnchor::bottom_center()), Some(StackDirection::Up));
    assert_eq!(stacking_direction(WindowAnchor::center()), None);
}

#[test]
fn only_windows_drawn_last_frame_push() {
    let mut m = WindowManager::new();
    m.add_if_missing("World", &WindowAnchor::top_left());
    m.add_if_missing("Spawn", &WindowAnchor::top_left());
    m.add_if_missing("Log", &WindowAnchor::bottom_right());
    // Nothing was drawn yet.
    let (anchor, before) = m.windows_drawn_before("Spawn").unwrap();
    assert_eq!(anchor, WindowAnchor::top_left());
    assert!(before.is_empty());
    // "World" is drawn this frame and counts from the next one on.
    m.mark_rendered("World");
    m.mark_rendered("Log");
    m.new_frame();
    let (_, before) = m.windows_drawn_before("Spawn").unwrap();
    assert_eq!(labels(&before), vec!["World"]);
    let (_, before) = m.windows_drawn_before("World").unwrap();
    assert!(before.is_empty());
    let (_, before) = m.windows_drawn_before("Log").unwrap();
    assert!(before.is_empty());
    // A frame without drawing "World" stops it from pushing.
    m.new_frame();
    let (_, before) = m.windows_drawn_before("Spawn").unwrap();
    assert!(before.is_empty());
}

#[test]
fn unknown_windows_have_no_position() {
    let m = WindowManager::new();
    assert!(m.windows_drawn_before("Nothing").is_none());
}

#[test]
fn adding_twice_if_missing_changes_nothing() {
    let mut m = WindowManager::new();
    m.add_if_missing("A", &WindowAnchor::top_left());
    m.add_if_missing("A", &WindowAnchor::bottom_left());
    assert_eq!(m.windows_by_label.len(), 1);
    assert_eq!(m.windows_by_anchor.len(), 1);
    assert_eq!(m.windows_by_label[0].anchor, WindowAnchor::top_left());
}

#[test]
fn add_replaces_a_window_with_the_same_label() {
    let mut m = WindowManager::new();
    m.add(AnchoredWindow::new("A".to_string(), WindowAnchor::top_left()));
    m.add(AnchoredWindow::new("A".to_string(), WindowAnchor::bottom_left()));
    assert_eq!(m.windows_by_label.len(), 1);
    assert_eq!(m.windows_by_label[0].anchor, WindowAnchor::bottom_left());
    assert_eq!(m.windows_by_anchor.len(), 2);
}

#[test]
fn marking_an_unknown_window_is_ignored() {
    let mut m = WindowManager::new();
    m.add_if_missing("A", &WindowAnchor::top_left());
    m.mark_rendered("B");
    m.mark_rendered("A");
    m.mark_rendered("A");
    assert_eq!(m.rendered_this_frame.len(), 1);
    m.new_frame();
    assert!(m.windows_by_label[0].rendered_prev_frame);
    assert!(m.rendered_this_frame.is_empty());
}
