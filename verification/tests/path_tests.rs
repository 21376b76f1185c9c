use nuke_node_modules::path::{
    ends_with_node_modules, parent_of, path_precedes, split_components, PathPart,
};
use std::path::{Component, Path};

/// Every text of up to `max` characters over the given alphabet.
fn all_texts(alphabet: &[char], max: usize) -> Vec<String> {
    let mut out = vec![String::new()];
    let mut layer = vec![String::new()];
    for _ in 0..max {
        let mut next = Vec::new();
        for s in &layer {
            for c in alphabet {
                let mut t = s.clone();
                t.push(*c);
                next.push(t);
            }
        }
        out.extend(next.iter().cloned());
        layer = next;
    }
    out
}

fn part_text(part: &PathPart) -> String {
    match part {
        PathPart::Root => String::from("<root>"),
        PathPart::Current => String::from("<cur>"),
        PathPart::Parent => String::from("<parent>"),
        PathPart::Normal(name) => name.iter().collect(),
    }
}

fn std_part_text(part: &Component) -> String {
    match part {
        Component::RootDir => String::from("<root>"),
        Component::CurDir => String::from("<cur>"),
        Component::ParentDir => String::from("<parent>"),
        Component::Normal(name) => name.to_string_lossy().into_owned(),
        Component::Prefix(_) => String::from("<prefix>"),
    }
}

#[test]
fn components_of_plain_paths() {
    let parts: Vec<String> = split_components("/a//b/./c/../d/").iter().map(part_text).collect();
    assert_eq!(parts, vec!["<root>", "a", "b", "c", "<parent>", "d"]);
    let parts: Vec<String> = split_components("./x").iter().map(part_text).collect();
    assert_eq!(parts, vec!["<cur>", "x"]);
    assert!(split_components("").is_empty());
}

#[test]
fn components_agree_with_std() {
    for s in all_texts(&['a', '.', '/', 'b'], 7) {
        let ours: Vec<String> = split_components(&s).iter().map(part_text).collect();
        let theirs: Vec<String> = Path::new(&s).components().map(|c| std_part_text(&c)).collect();
        assert_eq!(ours, theirs, "for {:?}", s);
    }
}

#[test]
fn terminal_component_is_node_modules() {
    assert!(ends_with_node_modules("/some/path/node_modules"));
    assert!(ends_with_node_modules("node_modules"));
    assert!(ends_with_node_modules("/a/node_modules/"));
    assert!(ends_with_node_modules("/a/node_modules/."));
    assert!(!ends_with_node_modules("/a/node_modules/.."));
    assert!(!ends_with_node_modules("/a/node_modules/b"));
    assert!(!ends_with_node_modules("/a/node_modules2"));
    assert!(!ends_with_node_modules("/a/xnode_modules"));
    assert!(!ends_with_node_modules("/"));
    assert!(!ends_with_node_modules(""));
    for s in ["/x/node_modules", "node_modules/", "a/b", "/", "", "..", "node_modules/.."] {
        let theirs = Path::new(s).file_name() == Some("node_modules".as_ref());
        assert_eq!(ends_with_node_modules(s), theirs, "for {:?}", s);
    }
}

#[test]
fn parent_agrees_with_std() {
    for s in all_texts(&['a', '.', '/'], 8) {
        let theirs = Path::new(&s).parent().map(|p| p.to_string_lossy().into_owned());
        assert_eq!(parent_of(&s), theirs, "for {:?}", s);
    }
}

#[test]
fn parent_of_plain_paths() {
    assert_eq!(parent_of("/r/app/node_modules"), Some(String::from("/r/app")));
    assert_eq!(parent_of("/node_modules"), Some(String::from("/")));
    assert_eq!(parent_of("node_modules"), Some(String::new()));
    assert_eq!(parent_of("a//b/"), Some(String::from("a")));
    assert_eq!(parent_of("/"), None);
    assert_eq!(parent_of(""), None);
}

#[test]
fn order_agrees_with_std() {
    let texts = all_texts(&['a', '-', '/', '.'], 5);
    for a in &texts {
        for b in &texts {
            assert_eq!(path_precedes(a, b), Path::new(a) < Path::new(b), "for {:?} and {:?}", a, b);
        }
    }
}

#[test]
fn order_is_by_component() {
    // As strings "/r/app-v2" comes first, as paths "/r/app" does.
    assert!(path_precedes("/r/app/node_modules", "/r/app-v2/node_modules"));
    assert!(!path_precedes("/r/app-v2/node_modules", "/r/app/node_modules"));
    assert!(path_precedes("/r/a", "/r/a/b"));
    assert!(!path_precedes("/r/a", "/r/a"));
    assert!(!path_precedes("/r//a", "/r/a"));
    assert!(path_precedes("/a", "a"));
    assert!(path_precedes("./a", "../a"));
    assert!(path_precedes("../a", "a"));
}
