use polina_vfs::storage::{DiskEntry, ErrorKind, VFSNode, VFS};

fn file(name: &str) -> DiskEntry {
    DiskEntry::File { name: name.to_string() }
}

fn dir(name: &str, entries: Vec<DiskEntry>) -> DiskEntry {
    DiskEntry::Dir { name: name.to_string(), entries }
}

fn sample_listing() -> Vec<DiskEntry> {
    vec![
        dir("test", vec![dir("second_dir", vec![]), file("notes.txt")]),
        dir("xd", vec![dir("double", vec![file("r")])]),
        file("readme.md"),
    ]
}

fn names(nodes: &Vec<VFSNode>) -> Vec<String> {
    nodes.iter().map(|n| n.name().clone()).collect()
}

#[test]
fn test_init() {
    let vfs = VFS::new("".to_string(), "./storage".to_string(), sample_listing());
    println!("{:?} {}", vfs.root, vfs.current_path);
}

#[test]
fn test_found_dir() {
    let vfs = VFS::new("".to_string(), "./storage".to_string(), sample_listing());
    let _ = vfs.get_node_from_path(&"/".to_string());
    let _ = vfs.get_node_from_path(&"xd/double/r".to_string());
    let _ = vfs.get_node_from_path(&"/xddddd".to_string());
    let _ = vfs.get_node_from_path(&"test/second_dir".to_string());
}

#[test]
fn resolves_nested_paths_to_child_indices() {
    let vfs = VFS::new("u".to_string(), "./storage".to_string(), sample_listing());
    assert_eq!(vfs.get_node_from_path(&"/".to_string()).unwrap(), Vec::<usize>::new());
    assert_eq!(vfs.get_node_from_path(&"xd/double/r".to_string()).unwrap(), vec![1, 0, 0]);
    assert_eq!(vfs.get_node_from_path(&"test/second_dir".to_string()).unwrap(), vec![0, 0]);
    let e = vfs.get_node_from_path(&"/xddddd".to_string()).unwrap_err();
    assert_eq!(e.kind, ErrorKind::NotFound);
    assert_eq!(e.to_string(), "dir not found: xddddd");
}

#[test]
fn new_builds_tree_in_disk_order_with_shell_owner() {
    let vfs = VFS::new("u".to_string(), "./storage".to_string(), sample_listing());
    assert_eq!(vfs.current_path, "/");
    assert_eq!(vfs.user, "u");
    assert_eq!(vfs.sys_path_name, "./storage");
    assert_eq!(vfs.root.name(), "/");
    assert_eq!(vfs.root.owner(), "ilya");
    let top = vfs.list_dir(vec![]).unwrap();
    assert_eq!(names(top), vec!["test", "xd", "readme.md"]);
    let inner = vfs.list_dir(vec!["/xd/double".to_string()]).unwrap();
    assert_eq!(names(inner), vec!["r"]);
    assert_eq!(inner[0].owner(), "ilya");
}

#[test]
fn fresh_root_listing_matches_listing() {
    let vfs = VFS::new("".to_string(), "s".to_string(), vec![file("b"), dir("a", vec![]), file("c")]);
    assert_eq!(names(vfs.list_dir(vec![]).unwrap()), vec!["b", "a", "c"]);
    let empty = VFS::new("".to_string(), "s".to_string(), vec![]);
    assert!(empty.list_dir(vec![]).unwrap().is_empty());
}

#[test]
fn canonical_path_round_trip_drops_redundant_slashes() {
    let vfs = VFS::new("".to_string(), "s".to_string(), sample_listing());
    let idx = vfs.get_node_from_path(&"//xd///double/".to_string()).unwrap();
    assert_eq!(vfs.get_path_from_node(&idx).unwrap(), "/xd/double");
    let root = vfs.get_node_from_path(&"///".to_string()).unwrap();
    assert_eq!(vfs.get_path_from_node(&root).unwrap(), "/");
    let e = vfs.get_path_from_node(&vec![7]).unwrap_err();
    assert_eq!(e.kind, ErrorKind::NotFound);
    assert_eq!(e.to_string(), "node not found");
}

#[test]
fn change_dir_then_relative_lookup() {
    let mut vfs = VFS::new("".to_string(), "s".to_string(), sample_listing());
    assert_eq!(vfs.change_dir(vec!["xd//double".to_string()]).unwrap(), vec![1, 0]);
    assert_eq!(vfs.current_path, "/xd/double");
    assert_eq!(names(vfs.list_dir(vec![]).unwrap()), vec!["r"]);
    assert_eq!(vfs.get_node_from_path(&"r".to_string()).unwrap(), vec![1, 0, 0]);
    vfs.change_dir(vec![]).unwrap();
    assert_eq!(vfs.current_path, "/");
}

#[test]
fn dot_dot_is_a_missing_child_name() {
    let mut vfs = VFS::new("".to_string(), "s".to_string(), sample_listing());
    vfs.change_dir(vec!["test".to_string()]).unwrap();
    let e = vfs.change_dir(vec!["..".to_string()]).unwrap_err();
    assert_eq!(e.kind, ErrorKind::NotFound);
    assert_eq!(e.to_string(), "dir not found: ..");
    assert_eq!(vfs.current_path, "/test");
}

#[test]
fn too_many_arguments_are_rejected() {
    let mut vfs = VFS::new("".to_string(), "s".to_string(), sample_listing());
    let e = vfs.change_dir(vec!["a".to_string(), "b".to_string()]).unwrap_err();
    assert_eq!(e.kind, ErrorKind::InvalidArgument);
    assert_eq!(e.to_string(), "too many args");
    assert_eq!(vfs.current_path, "/");
    let e = vfs.list_dir(vec!["a".to_string(), "b".to_string()]).unwrap_err();
    assert_eq!(e.kind, ErrorKind::InvalidArgument);
}

#[test]
fn descending_through_a_file_is_not_a_directory() {
    let vfs = VFS::new("".to_string(), "s".to_string(), sample_listing());
    let e = vfs.get_node_from_path(&"/readme.md/x".to_string()).unwrap_err();
    assert_eq!(e.kind, ErrorKind::NotADirectory);
    assert_eq!(e.to_string(), "x is a file, not a directory");
}

#[test]
fn listing_a_file_is_invalid() {
    let vfs = VFS::new("".to_string(), "s".to_string(), sample_listing());
    let e = vfs.list_dir(vec!["readme.md".to_string()]).unwrap_err();
    assert_eq!(e.kind, ErrorKind::InvalidArgument);
    assert_eq!(e.to_string(), "readme.md: not a dir");
}

#[test]
fn change_dir_onto_a_file_is_allowed() {
    let mut vfs = VFS::new("".to_string(), "s".to_string(), sample_listing());
    assert_eq!(vfs.change_dir(vec!["/readme.md".to_string()]).unwrap(), vec![2]);
    assert_eq!(vfs.current_path, "/readme.md");
}

#[test]
fn set_node_owner_changes_only_that_node() {
    let mut vfs = VFS::new("".to_string(), "s".to_string(), sample_listing());
    vfs.set_node_owner("/xd/double".to_string(), "root".to_string()).unwrap();
    let xd = vfs.list_dir(vec!["/".to_string()]).unwrap();
    assert_eq!(xd[1].owner(), "ilya");
    let d = vfs.list_dir(vec!["/xd".to_string()]).unwrap();
    assert_eq!(d[0].owner(), "root");
    assert_eq!(vfs.list_dir(vec!["/xd/double".to_string()]).unwrap()[0].owner(), "ilya");
    vfs.set_node_owner("/".to_string(), "admin".to_string()).unwrap();
    assert_eq!(vfs.root.owner(), "admin");
    let e = vfs.set_node_owner("/nope".to_string(), "x".to_string()).unwrap_err();
    assert_eq!(e.kind, ErrorKind::NotFound);
}
