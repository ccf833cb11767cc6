use nat20_gui::settings::{
    key_matches, leaf_label, split_key, text_less, GuiSettings, Setting, ViewNode, RENDER_GRID,
    RENDER_IMGUI_DEMO, RENDER_LINE_OF_SIGHT_DEBUG,
};

fn names(node: &ViewNode) -> Vec<&str> {
    node.children.iter().map(|(n, _)| n.as_str()).collect()
}

fn leaves(node: &ViewNode) -> Vec<&str> {
    node.leaves.iter().map(|l| l.as_str()).collect()
}

fn child<'a>(node: &'a ViewNode, name: &str) -> &'a ViewNode {
    &node.children.iter().find(|(n, _)| n == name).unwrap().1
}

#[test]
fn leaf_labels_are_last_parts() {
    assert_eq!(leaf_label("render.grid"), "grid");
    assert_eq!(leaf_label("a.b.c"), "c");
    assert_eq!(leaf_label("plain"), "plain");
    assert_eq!(leaf_label("ends."), "");
    assert_eq!(split_key("a.b.c"), vec!["a", "b", "c"]);
}

#[test]
fn strings_are_ordered_by_code_point() {
    let s = |x: &str| x.to_string();
    assert!(text_less(&s("a"), &s("b")));
    assert!(text_less(&s("ab"), &s("abc")));
    assert!(!text_less(&s("abc"), &s("ab")));
    assert!(!text_less(&s("x"), &s("x")));
    assert!(text_less(&s("Z"), &s("a")));
    assert_eq!(text_less(&s("grid"), &s("imgui_demo")), "grid" < "imgui_demo");
}

#[test]
fn view_tree_groups_keys_by_folder() {
    let keys: Vec<String> = vec![
        "render.grid".to_string(),
        "render.camera.debug".to_string(),
        "top".to_string(),
        "render.camera.fov".to_string(),
        "audio.volume".to_string(),
    ];
    let tree = ViewNode::new(&keys);
    assert_eq!(names(&tree), vec!["audio", "render"]);
    assert_eq!(leaves(&tree), vec!["top"]);
    let render = child(&tree, "render");
    assert_eq!(names(render), vec!["camera"]);
    assert_eq!(leaves(render), vec!["render.grid"]);
    let camera = child(render, "camera");
    assert_eq!(leaves(camera), vec!["render.camera.debug", "render.camera.fov"]);
    assert!(camera.children.is_empty());
}

#[test]
fn filtered_tree_keeps_matching_keys_and_their_folders() {
    let keys: Vec<String> = vec![
        "render.grid".to_string(),
        "render.camera.debug".to_string(),
        "audio.volume".to_string(),
    ];
    let tree = ViewNode::new_filtered(&keys, |k: &str| k.contains("debug"));
    assert_eq!(names(&tree), vec!["render"]);
    let render = child(&tree, "render");
    assert!(render.leaves.is_empty());
    assert_eq!(leaves(child(render, "camera")), vec!["render.camera.debug"]);
    let none = ViewNode::new_filtered(&keys, |_: &str| false);
    assert!(none.children.is_empty() && none.leaves.is_empty());
    let mut asked: Vec<String> = Vec::new();
    let asked_cell = std::cell::RefCell::new(&mut asked);
    let audio = ViewNode::new_filtered(&keys, |k: &str| {
        asked_cell.borrow_mut().push(k.to_string());
        k.starts_with("audio")
    });
    assert_eq!(names(&audio), vec!["audio"]);
    assert_eq!(leaves(child(&audio, "audio")), vec!["audio.volume"]);
    assert_eq!(asked, keys);
}

#[test]
fn search_matches_key_or_leaf_case_insensitively() {
    assert!(key_matches("", "anything"));
    assert!(key_matches("grid", "Render.GRID"));
    assert!(key_matches("render.g", "render.grid"));
    assert!(!key_matches("audio", "render.grid"));
}

#[test]
fn default_settings() {
    let s = GuiSettings::default();
    assert_eq!(*s.get::<bool>(RENDER_GRID), true);
    assert_eq!(*s.get::<bool>(RENDER_IMGUI_DEMO), false);
    assert_eq!(*s.get::<bool>(RENDER_LINE_OF_SIGHT_DEBUG), false);
    let keys = s.keys();
    let mut sorted = keys.clone();
    sorted.sort();
    assert_eq!(keys, sorted);
    assert_eq!(keys.len(), 6);
    assert_eq!(names(s.view_tree()), vec!["render"]);
}

#[test]
fn read_after_write() {
    let mut s = GuiSettings::new(vec![
        ("b.level".to_string(), Setting::I32(3)),
        ("a.flag".to_string(), Setting::Bool(false)),
        ("b.level".to_string(), Setting::I32(4)),
    ]);
    assert_eq!(*s.get::<i32>("b.level"), 4);
    s.set("a.flag", true);
    assert_eq!(*s.get::<bool>("a.flag"), true);
    assert_eq!(*s.get::<i32>("b.level"), 4);
    s.set("c.count", 7u16);
    assert_eq!(*s.get::<u16>("c.count"), 7);
    let bits = 1.5f32.to_bits();
    s.set("d.scale", bits);
    assert_eq!(f32::from_bits(*s.get::<u32>("d.scale")), 1.5);
    assert_eq!(s.keys(), vec!["a.flag", "b.level", "c.count", "d.scale"]);
}

#[test]
fn search_box() {
    let mut s = GuiSettings::default();
    assert!(s.search_tree().is_none());
    s.set_search("  GRID ".to_string());
    assert_eq!(s.search_query(), "grid");
    let tree = s.search_tree().unwrap();
    assert_eq!(leaves(child(&tree, "render")), vec!["render.grid"]);
    s.set_search("   ".to_string());
    assert!(s.search_tree().is_none());
    s.clear_search();
    assert_eq!(s.search(), "");
}
