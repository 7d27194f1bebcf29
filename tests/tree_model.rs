use surf::engine::FileEntry;
use surf::tree::{
    build_tree, find_node, get_node_display_path, get_node_display_size, get_node_display_type,
    recompute_aggregated_sizes, remove_child_of, DirNode, NodeType,
};

fn entry(path: &str, size: u64) -> FileEntry {
    FileEntry { path: path.to_string(), size }
}

#[test]
fn build_tree_aggregates_root_and_direct_children() {
    let entries = vec![
        entry("/root/a.bin", 10),
        entry("/root/sub1/b.bin", 20),
        entry("/root/sub1/deep/c.bin", 30),
    ];

    let tree = build_tree("/root", entries);

    assert_eq!(tree.size, 10 + 20 + 30);
    assert_eq!(tree.children.len(), 2);

    let mut has_root_file = false;
    let mut has_subdir = false;
    for child in &tree.children {
        if child.is_file() && child.name == "a.bin" {
            has_root_file = true;
            assert_eq!(child.size, 10);
        }
        if child.is_directory() && child.name == "sub1" {
            has_subdir = true;
            assert_eq!(child.size, 20 + 30);
        }
    }
    assert!(has_root_file, "root should expose direct file child");
    assert!(has_subdir, "root should expose direct sub-directory child");

    let sub1 = tree
        .children
        .iter()
        .find(|c| c.is_directory() && c.name == "sub1")
        .expect("sub1 directory should exist");
    let deep = sub1
        .children
        .iter()
        .find(|c| c.is_directory() && c.name == "deep")
        .expect("deep directory should exist under sub1");

    assert_eq!(deep.size, 30);
    assert_eq!(deep.children.len(), 1);
    assert!(deep.children[0].is_file());
    assert_eq!(deep.children[0].name, "c.bin");
}

#[test]
fn recompute_sizes_after_removing_child_updates_ancestors() {
    let entries = vec![entry("/root/a.bin", 10), entry("/root/sub1/b.bin", 20)];

    let mut tree = build_tree("/root", entries);

    assert_eq!(tree.size, 30);
    let sub1 = tree
        .children
        .iter()
        .find(|c| c.is_directory() && c.name == "sub1")
        .expect("sub1 directory should exist");
    assert_eq!(sub1.size, 20);

    {
        let sub1_mut = tree
            .children
            .iter_mut()
            .find(|c| c.is_directory() && c.name == "sub1")
            .expect("sub1 directory should exist (mutable)");
        let idx = sub1_mut
            .children
            .iter()
            .position(|c| c.is_file() && c.name == "b.bin")
            .expect("b.bin should exist under sub1");
        sub1_mut.remove_child_at(idx);
    }

    let total_after = recompute_aggregated_sizes(&mut tree);
    assert_eq!(total_after, tree.size);
    assert_eq!(tree.size, 10);

    let sub1_after = tree
        .children
        .iter()
        .find(|c| c.is_directory() && c.name == "sub1")
        .expect("sub1 directory should still exist after delete");
    assert_eq!(sub1_after.size, 0);
}

#[test]
fn tree_children_sorted_by_size_at_every_level() {
    let tree = build_tree(
        "/root",
        vec![
            entry("/root/a.bin", 10),
            entry("/root/sub1/b.bin", 20),
            entry("/root/sub1/deep/c.bin", 30),
        ],
    );
    assert_eq!(tree.size, 60);
    assert_eq!(tree.children[0].name, "sub1");
    assert_eq!(tree.children[0].size, 50);
    assert_eq!(tree.children[1].name, "a.bin");
    assert_eq!(tree.children[1].size, 10);
    let sub1 = &tree.children[0];
    assert_eq!(sub1.children[0].name, "deep");
    assert_eq!(sub1.children[0].size, 30);
    assert_eq!(sub1.children[1].name, "b.bin");
    assert_eq!(sub1.children[1].size, 20);
    let deep = &sub1.children[0];
    assert_eq!(deep.children.len(), 1);
    assert_eq!(deep.children[0].name, "c.bin");
    assert_eq!(deep.children[0].size, 30);
    assert_eq!(deep.children[0].full_path, "/root/sub1/deep/c.bin");
}

#[test]
fn deleting_a_file_reaggregates_every_ancestor() {
    let mut tree = build_tree(
        "/root",
        vec![
            entry("/root/a.bin", 10),
            entry("/root/sub1/b.bin", 20),
            entry("/root/sub1/deep/c.bin", 30),
        ],
    );
    let sub1 = find_node(&tree, "/root/sub1").expect("sub1");
    let idx = sub1.children.iter().position(|c| c.full_path == "/root/sub1/b.bin").expect("b.bin");
    let removed = remove_child_of(&mut tree, "/root/sub1", idx).expect("removed");
    assert_eq!(removed.full_path, "/root/sub1/b.bin");
    let total = recompute_aggregated_sizes(&mut tree);
    assert_eq!(total, 40);
    assert_eq!(tree.size, 40);
    let sub1 = find_node(&tree, "/root/sub1").expect("sub1");
    assert_eq!(sub1.size, 30);
    let deep = find_node(&tree, "/root/sub1/deep").expect("deep");
    assert_eq!(deep.size, 30);
}

#[test]
fn remove_child_of_leaves_the_tree_alone_when_nothing_matches() {
    let mut tree = build_tree("/root", vec![entry("/root/a.bin", 10)]);
    assert!(remove_child_of(&mut tree, "/root/missing", 0).is_none());
    assert!(remove_child_of(&mut tree, "/root", 5).is_none());
    assert!(remove_child_of(&mut tree, "/root/a.bin", 0).is_none());
    assert_eq!(tree.children.len(), 1);
    assert_eq!(tree.size, 10);
}

#[test]
fn files_outside_the_root_hang_under_the_root() {
    let tree = build_tree("/root", vec![entry("/elsewhere/x.bin", 7), entry("/root/y.bin", 3)]);
    assert_eq!(tree.size, 10);
    assert_eq!(tree.children.len(), 2);
    assert_eq!(tree.children[0].full_path, "/elsewhere/x.bin");
    assert!(tree.children[0].is_file());
}

#[test]
fn empty_entry_list_gives_an_empty_root() {
    let tree = build_tree("/root", Vec::new());
    assert_eq!(tree.size, 0);
    assert!(tree.children.is_empty());
    assert!(tree.is_directory());
    assert_eq!(tree.name, "root");
}

#[test]
fn node_helpers_report_kind_and_size() {
    let file = DirNode::new_file("/root/a.bin".to_string(), 12);
    assert_eq!(file.name, "a.bin");
    assert_eq!(file.node_type, NodeType::File);
    assert_eq!(get_node_display_type(&file), "文件");
    assert_eq!(get_node_display_size(&file), "12 字节");
    assert_eq!(get_node_display_path(&file), "/root/a.bin");
    let mut dir = DirNode::new_directory("/root/".to_string());
    assert_eq!(dir.name, "root");
    assert_eq!(get_node_display_type(&dir), "目录");
    dir.add_child(file);
    assert_eq!(dir.size, 12);
    assert_eq!(dir.children().len(), 1);
    assert!(dir.remove_child_at(3).is_none());
    let back = dir.remove_child_at(0).expect("child");
    assert_eq!(back.size, 12);
    assert_eq!(dir.size, 0);
}

#[test]
fn sort_children_is_stable_for_equal_sizes() {
    let mut dir = DirNode::new_directory("/d".to_string());
    dir.add_child(DirNode::new_file("/d/a".to_string(), 5));
    dir.add_child(DirNode::new_file("/d/b".to_string(), 9));
    dir.add_child(DirNode::new_file("/d/c".to_string(), 5));
    dir.sort_children();
    let names: Vec<&str> = dir.children.iter().map(|c| c.name.as_str()).collect();
    assert_eq!(names, vec!["b", "a", "c"]);
}

#[test]
fn file_names_follow_path_rules() {
    assert_eq!(DirNode::new_file("/a/b.txt/.".to_string(), 1).name, "b.txt");
    assert_eq!(DirNode::new_file("/a/b.txt/./".to_string(), 1).name, "b.txt");
    assert_eq!(DirNode::new_file("/a/..".to_string(), 1).name, "");
    assert_eq!(DirNode::new_file(".".to_string(), 1).name, "");
    assert_eq!(DirNode::new_file("/".to_string(), 1).name, "");
}
