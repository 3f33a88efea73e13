use jterm3::sidebar::{
    arrange_entries, is_hidden_name, DirectoryRequest, DirectoryResult, DirectoryState,
    FileTreeNode, Sidebar,
};

fn tree(request: DirectoryRequest) -> DirectoryResult {
    let below = |name: String, is_dir: bool| {
        FileTreeNode::entry(name.clone(), format!("{}/{}", request.path, name), is_dir)
    };
    let mut entries = Vec::new();
    if request.path.ends_with("/nested") {
        entries.push(below("deep".to_string(), true));
    } else {
        for index in 0..32 {
            entries.push(below(format!("file-{index:02}.txt"), false));
        }
        entries.push(below("nested".to_string(), true));
    }
    DirectoryResult {
        generation: request.generation,
        path: request.path.clone(),
        entries: Ok(arrange_entries(entries)),
    }
}

#[test]
fn loads_all_entries_and_expands_lazily() {
    let root = "/tmp/tree".to_string();
    let mut sidebar = Sidebar::new("/".to_string());
    let request = sidebar.set_current_dir(root.clone());
    assert_eq!(sidebar.root.state, DirectoryState::Loading);
    assert!(sidebar.apply_load(tree(request)));
    assert_eq!(sidebar.root.state, DirectoryState::Loaded);
    assert_eq!(sidebar.root.children.len(), 33);

    let nested = format!("{root}/nested");
    let request = sidebar
        .toggle_node(&nested)
        .expect("unloaded directory should request a load");
    assert!(sidebar.apply_load(tree(request)));
    let nested_node = sidebar
        .root
        .children
        .iter()
        .find(|node| node.path == nested)
        .expect("nested node");
    assert_eq!(nested_node.state, DirectoryState::Loaded);
    assert_eq!(nested_node.children.len(), 1);
}

#[test]
fn stale_response_cannot_replace_new_root() {
    let first = "/tmp/first".to_string();
    let second = "/tmp/second".to_string();
    let mut sidebar = Sidebar::new("/".to_string());
    let stale = sidebar.set_current_dir(first.clone());
    let current = sidebar.set_current_dir(second.clone());

    assert!(!sidebar.apply_load(tree(stale)));
    assert!(sidebar.apply_load(tree(current)));
    assert_eq!(sidebar.root.path, second);
}

#[test]
fn directories_come_first_and_names_ignore_case() {
    let names = [("b.txt", false), ("Zoo", true), ("A.txt", false), ("src", true)];
    let entries = names
        .iter()
        .map(|(name, is_dir)| {
            FileTreeNode::entry(name.to_string(), format!("/r/{name}"), *is_dir)
        })
        .collect();
    let shown: Vec<String> = arrange_entries(entries).into_iter().map(|node| node.name).collect();
    assert_eq!(shown, ["src", "Zoo", "A.txt", "b.txt"]);
}

#[test]
fn a_failed_load_is_shown_and_tried_again() {
    let mut sidebar = Sidebar::new("/r".to_string());
    let request = sidebar.begin_load_root();
    assert!(sidebar.apply_load(DirectoryResult {
        generation: request.generation,
        path: request.path,
        entries: Err("permission denied".to_string()),
    }));
    assert_eq!(sidebar.root.state, DirectoryState::Error("permission denied".to_string()));
    let again = sidebar.refresh();
    assert_eq!(again.path, "/r");
    assert_eq!(sidebar.root.state, DirectoryState::Loading);
}

#[test]
fn toggling_an_unknown_path_changes_nothing() {
    let mut sidebar = Sidebar::new("/r".to_string());
    assert!(sidebar.toggle_node("/elsewhere").is_none());
    assert!(sidebar.root.expanded);
}

#[test]
fn open_directories_show_their_entries() {
    let mut sidebar = Sidebar::new("/tmp/tree".to_string());
    let request = sidebar.begin_load_root();
    sidebar.apply_load(tree(request));
    assert_eq!(sidebar.rows().len(), 33);
    let request = sidebar.toggle_node("/tmp/tree/nested").unwrap();
    sidebar.apply_load(tree(request));
    let rows = sidebar.rows();
    assert_eq!(rows.len(), 34);
    assert_eq!((rows[0].name.as_str(), rows[0].depth, rows[0].expanded), ("nested", 0, true));
    assert_eq!((rows[1].name.as_str(), rows[1].depth), ("deep", 1));
    sidebar.toggle_node("/tmp/tree/nested");
    assert_eq!(sidebar.rows().len(), 33);
}

#[test]
fn names_that_start_with_a_dot_are_hidden() {
    assert!(is_hidden_name(".git") && is_hidden_name("."));
    assert!(!is_hidden_name("a.txt") && !is_hidden_name(""));
}
