use markflow_fs::delete::{delete_action, DeleteAction};
use markflow_fs::error::FsError;
use markflow_fs::listing::{read_directory_nodes, sort_nodes, DirEntry, FileNode};
use markflow_fs::paths::{join_path, parent_dir};
use markflow_fs::save::{resolve_save_dir, save_image_target};

fn entry(name: &str, path: &str, is_dir: bool) -> DirEntry {
    DirEntry { name: name.to_string(), path: path.to_string(), is_dir }
}

#[test]
fn listing_example() {
    // A directory holding b.txt, a.txt and the subdirectory sub lists as
    // [sub, a.txt, b.txt].
    let items = vec![
        entry("b.txt", "/tmp/proj/b.txt", false),
        entry("a.txt", "/tmp/proj/a.txt", false),
        entry("sub", "/tmp/proj/sub", true),
    ];
    let nodes = read_directory_nodes(items);
    let names: Vec<&str> = nodes.iter().map(|n| n.name.as_str()).collect();
    assert_eq!(names, vec!["sub", "a.txt", "b.txt"]);
    assert_eq!(nodes[0].path, "/tmp/proj/sub");
    assert!(nodes[0].is_dir);
    assert!(matches!(nodes[0].children, Some(ref c) if c.is_empty()));
    assert!(!nodes[1].is_dir);
    assert!(nodes[1].children.is_none());
    assert_eq!(nodes[2].path, "/tmp/proj/b.txt");
}

#[test]
fn listing_directories_before_files() {
    let items = vec![
        entry("zeta.txt", "/d/zeta.txt", false),
        entry("beta", "/d/beta", true),
        entry("Alpha.txt", "/d/Alpha.txt", false),
        entry("alpha", "/d/alpha", true),
    ];
    let nodes = read_directory_nodes(items);
    let names: Vec<&str> = nodes.iter().map(|n| n.name.as_str()).collect();
    // Directories first, each group in case-sensitive lexicographic order
    // ('A' sorts before 'a').
    assert_eq!(names, vec!["alpha", "beta", "Alpha.txt", "zeta.txt"]);
    assert!(nodes[0].is_dir && nodes[1].is_dir);
    assert!(!nodes[2].is_dir && !nodes[3].is_dir);
}

#[test]
fn listing_empty_directory() {
    let nodes = read_directory_nodes(Vec::new());
    assert!(nodes.is_empty());
}

#[test]
fn sort_prefix_names() {
    let nodes = vec![
        FileNode::new("ab".to_string(), "/p/ab".to_string(), false),
        FileNode::new("a".to_string(), "/p/a".to_string(), false),
        FileNode::new("abc".to_string(), "/p/abc".to_string(), false),
    ];
    let sorted = sort_nodes(nodes);
    let names: Vec<&str> = sorted.iter().map(|n| n.name.as_str()).collect();
    assert_eq!(names, vec!["a", "ab", "abc"]);
}

#[test]
fn file_node_children_placeholder() {
    let d = FileNode::new("sub".to_string(), "/p/sub".to_string(), true);
    assert!(matches!(d.children, Some(ref c) if c.is_empty()));
    let f = FileNode::new("a.txt".to_string(), "/p/a.txt".to_string(), false);
    assert!(f.children.is_none());
}

#[test]
fn parent_dir_cases() {
    assert_eq!(parent_dir("a/b/c.txt"), Some("a/b".to_string()));
    assert_eq!(parent_dir("notes.txt"), None);
    assert_eq!(parent_dir("/c.txt"), Some("/".to_string()));
    assert_eq!(parent_dir("a/b/"), Some("a/b".to_string()));
    assert_eq!(parent_dir("/"), Some("/".to_string()));
    assert_eq!(parent_dir(""), None);
}

#[test]
fn join_path_cases() {
    assert_eq!(join_path("a", "b"), "a/b");
    assert_eq!(join_path("a/", "b"), "a/b");
    assert_eq!(join_path("", "b"), "/b");
    assert_eq!(join_path("/data/img", "x.png"), "/data/img/x.png");
}

#[test]
fn resolve_save_dir_explicit() {
    let r = resolve_save_dir(Some("/pics".to_string()), Some("/home/u/Documents".to_string()));
    assert_eq!(r.ok(), Some("/pics".to_string()));
}

#[test]
fn resolve_save_dir_default() {
    let r = resolve_save_dir(None, Some("/home/u/Documents".to_string()));
    assert_eq!(r.ok(), Some("/home/u/Documents/MarkFlowImages".to_string()));
}

#[test]
fn resolve_save_dir_unresolvable() {
    let r = resolve_save_dir(None, None);
    match r {
        Ok(_) => panic!("expected a configuration error"),
        Err(e) => {
            assert!(matches!(e, FsError::Config(_)));
            assert_eq!(e.message(), "无法获取文档目录");
        }
    }
}

#[test]
fn save_image_target_default_directory() {
    // SaveImage(bytes, "x.png", None) with a resolvable documents directory
    // targets <documents>/MarkFlowImages/x.png.
    let r = save_image_target("x.png", None, Some("/home/u/Documents".to_string()));
    assert_eq!(r.ok(), Some("/home/u/Documents/MarkFlowImages/x.png".to_string()));
}

#[test]
fn save_image_target_explicit_directory() {
    let r = save_image_target("x.png", Some("/data/img".to_string()), None);
    assert_eq!(r.ok(), Some("/data/img/x.png".to_string()));
}

#[test]
fn save_image_target_unresolvable() {
    let r = save_image_target("x.png", None, None);
    match r {
        Ok(_) => panic!("expected a configuration error"),
        Err(e) => assert_eq!(e.message(), "无法获取文档目录"),
    }
}

#[test]
fn delete_action_cases() {
    assert!(matches!(delete_action(true), DeleteAction::RemoveDirRecursive));
    assert!(matches!(delete_action(false), DeleteAction::RemoveFile));
}

#[test]
fn error_messages() {
    let io = FsError::Io("disk full".to_string());
    assert_eq!(io.message(), "disk full");
    let config = FsError::Config("no documents directory".to_string());
    assert_eq!(config.message(), "no documents directory");
}
