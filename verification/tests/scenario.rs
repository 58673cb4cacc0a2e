use clannad::filter::{
    run, BasicFilter, FileInfo, FileType, Filter, SymlinkFilter, SymlinkFollowFilter,
};
use clannad::fstree::{ChildRef, Fs, FsNode, FsNodeKind};

fn file(path: &str) -> FsNode {
    FsNode { path: path.to_owned(), kind: FsNodeKind::File }
}

fn dir(path: &str, children: Vec<(&str, usize)>) -> FsNode {
    FsNode {
        path: path.to_owned(),
        kind: FsNodeKind::Dir {
            children: children
                .into_iter()
                .map(|(name, id)| ChildRef { name: name.to_owned(), id })
                .collect(),
        },
    }
}

fn link(path: &str, target: &str, target_id: Option<usize>) -> FsNode {
    FsNode { path: path.to_owned(), kind: FsNodeKind::Link { target: target.to_owned(), target_id } }
}

/// A root directory holding one regular file `a.txt`, one subdirectory `sub`
/// with `b.txt` inside, and one symlink `link -> sub`.
fn scenario_tree() -> Fs {
    let nodes = vec![
        dir("root", vec![("a.txt", 1), ("sub", 3), ("link", 2)]),
        file("root/a.txt"),
        link("root/link", "sub", Some(3)),
        dir("root/sub", vec![("b.txt", 4)]),
        file("root/sub/b.txt"),
    ];
    let fs = Fs { nodes, root: Some(0) };
    assert!(fs.check_wf());
    fs
}

fn entry_for<'a>(entries: &'a [FileInfo], path: &str) -> &'a FileInfo {
    entries
        .iter()
        .find(|e| e.path == path)
        .unwrap_or_else(|| panic!("no entry for {}", path))
}

#[test]
fn preserving_scenario() {
    let mut filter = SymlinkFilter::new("root".to_owned());
    filter.scan(&scenario_tree());
    let entries = filter.into_files();
    // One entry per node: the four listed above plus b.txt under its own
    // directory.
    assert_eq!(entries.len(), 5);

    let root = entry_for(&entries, "root");
    assert_eq!(root.file_type, FileType::DIRECTORY);
    assert!(root.symlink_path.is_none());

    let a = entry_for(&entries, "root/a.txt");
    assert_eq!(a.file_type, FileType::REGULAR);

    let sub = entry_for(&entries, "root/sub");
    assert_eq!(sub.file_type, FileType::DIRECTORY);
    assert!(sub.symlink_path.is_none());

    let l = entry_for(&entries, "root/link");
    assert_eq!(l.symlink_path.as_deref(), Some("sub"));

    // b.txt is listed once, under its own directory — the symlink is a
    // leaf, so nothing is listed below it.
    assert!(entries.iter().any(|e| e.path == "root/sub/b.txt"));
    assert!(entries.iter().all(|e| e.path != "root/link/b.txt"));
}

#[test]
fn follow_scenario() {
    let mut filter = SymlinkFollowFilter::new("root".to_owned());
    filter.scan(&scenario_tree());
    let entries = filter.into_files();

    let root = entry_for(&entries, "root");
    assert_eq!(root.file_type, FileType::DIRECTORY);

    let a = entry_for(&entries, "root/a.txt");
    assert_eq!(a.file_type, FileType::REGULAR);

    let sub = entry_for(&entries, "root/sub");
    assert_eq!(sub.file_type, FileType::DIRECTORY);

    // The symlink is materialized as a directory whose content comes from the
    // resolved target.
    let l = entry_for(&entries, "root/link");
    assert_eq!(l.file_type, FileType::DIRECTORY);
    assert_eq!(l.content_path, "root/sub");
    assert!(l.symlink_path.is_none());

    // The file behind the symlink appears under the symlink's own location,
    // sourced from the target's path.
    let lb = entry_for(&entries, "root/link/b.txt");
    assert_eq!(lb.file_type, FileType::REGULAR);
    assert_eq!(lb.content_path, "root/sub/b.txt");

    // ... and once under its own directory, so the whole manifest has six
    // entries and none of them is a symlink.
    let sb = entry_for(&entries, "root/sub/b.txt");
    assert_eq!(sb.content_path, "root/sub/b.txt");
    assert_eq!(entries.len(), 6);
    assert!(entries.iter().all(|e| e.file_type != FileType::SYMLINK));
    assert!(entries.iter().all(|e| e.symlink_path.is_none()));
}

#[test]
fn basic_counts_symlinks_as_target_kind() {
    let mut filter = BasicFilter::new("root".to_owned());
    filter.scan(&scenario_tree());
    let entries = filter.into_files();
    // One entry per node, the directory symlink contributing its target's
    // subtree again under its own path.
    assert_eq!(entries.len(), 6);
    let l = entry_for(&entries, "root/link");
    assert_eq!(l.file_type, FileType::DIRECTORY);
    assert!(l.symlink_path.is_none());
    let lb = entry_for(&entries, "root/link/b.txt");
    assert_eq!(lb.file_type, FileType::REGULAR);
    assert_eq!(lb.content_path, "root/link/b.txt");
    assert!(entries
        .iter()
        .all(|e| e.file_type == FileType::REGULAR || e.file_type == FileType::DIRECTORY));
}

#[test]
fn symlink_chain_kinds() {
    // link2 -> link1 -> a.txt: under the preserving policy the entry for a
    // symlink whose immediate target is itself a symlink has kind SYMLINK,
    // while the inner one takes its target's kind.
    let nodes = vec![
        dir("r", vec![("link2", 1), ("link1", 2), ("a.txt", 3)]),
        link("r/link2", "link1", Some(2)),
        link("r/link1", "a.txt", Some(3)),
        file("r/a.txt"),
    ];
    let fs = Fs { nodes, root: Some(0) };
    assert!(fs.check_wf());
    let mut filter = SymlinkFilter::new("r".to_owned());
    filter.scan(&fs);
    let entries = filter.into_files();
    assert_eq!(entry_for(&entries, "r/link2").file_type, FileType::SYMLINK);
    assert_eq!(entry_for(&entries, "r/link1").file_type, FileType::REGULAR);
}

#[test]
fn broken_symlink_in_tree() {
    let nodes = vec![
        dir("r", vec![("gone", 1), ("a.txt", 2)]),
        link("r/gone", "missing", None),
        file("r/a.txt"),
    ];
    let fs = Fs { nodes, root: Some(0) };
    assert!(fs.check_wf());

    // Preserving: the broken link is its own entry, of the broken kind.
    let mut preserving = SymlinkFilter::new("r".to_owned());
    preserving.scan(&fs);
    let entries = preserving.into_files();
    let gone = entry_for(&entries, "r/gone");
    assert_eq!(gone.file_type, FileType::NONE);
    assert_eq!(gone.symlink_path.as_deref(), Some("missing"));

    // Follow: the broken link is a broken leaf rather than a fatal error.
    let mut follow = SymlinkFollowFilter::new("r".to_owned());
    follow.scan(&fs);
    let entries = follow.into_files();
    assert_eq!(entry_for(&entries, "r/gone").file_type, FileType::NONE);

    // Basic: the broken link is recorded as a regular leaf.
    let mut basic = BasicFilter::new("r".to_owned());
    basic.scan(&fs);
    let entries = basic.into_files();
    assert_eq!(entry_for(&entries, "r/gone").file_type, FileType::REGULAR);
}

#[test]
fn broken_root_link() {
    let fs = Fs { nodes: vec![link("r", "missing", None)], root: Some(0) };
    assert!(fs.check_wf());

    // Under follow, a root whose chain does not resolve has no manifest.
    let mut follow = SymlinkFollowFilter::new("r".to_owned());
    follow.scan(&fs);
    assert!(follow.files().is_none());

    // Under basic, a symlink root short-circuits to one regular entry.
    let mut basic = BasicFilter::new("r".to_owned());
    basic.scan(&fs);
    let entries = basic.into_files();
    assert_eq!(entries.len(), 1);
    assert_eq!(entries[0].file_type, FileType::REGULAR);

    // Under preserving, the single entry records the broken link.
    let mut preserving = SymlinkFilter::new("r".to_owned());
    preserving.scan(&fs);
    let entries = preserving.into_files();
    assert_eq!(entries.len(), 1);
    assert_eq!(entries[0].file_type, FileType::NONE);
    assert_eq!(entries[0].symlink_path.as_deref(), Some("missing"));
}

#[test]
fn empty_directory_is_not_absent() {
    let fs = Fs { nodes: vec![dir("empty", vec![])], root: Some(0) };
    assert!(fs.check_wf());
    let mut filter = SymlinkFilter::new("empty".to_owned());
    filter.scan(&fs);
    // An existing empty directory yields a present, one-entry manifest —
    // distinguishable from the absent manifest of a missing root.
    assert!(filter.files().is_some());
    assert_eq!(filter.into_files().len(), 1);

    let mut missing = SymlinkFilter::new("empty".to_owned());
    missing.scan(&Fs { nodes: Vec::new(), root: None });
    assert!(missing.files().is_none());
}

#[test]
fn rescan_is_idempotent() {
    let mut a = SymlinkFilter::new("root".to_owned());
    a.scan(&scenario_tree());
    let mut b = SymlinkFilter::new("root".to_owned());
    b.scan(&scenario_tree());
    assert_eq!(a.files(), b.files());
    // Scanning the same filter again replaces the manifest with an equal one.
    let first = a.files().clone();
    a.scan(&scenario_tree());
    assert_eq!(a.files(), &first);
}

#[test]
fn update_clears_results() {
    let mut filter = BasicFilter::new("root".to_owned());
    filter.scan(&scenario_tree());
    assert!(filter.files().is_some());
    let filter = filter.update("elsewhere".to_owned());
    // Rebinding clears prior results: before the next scan the state is absent.
    assert!(filter.files().is_none());
}

#[test]
fn run_concatenates_manifests() {
    let one = scenario_tree();
    let two = Fs { nodes: vec![dir("other", vec![("c.txt", 1)]), file("other/c.txt")], root: Some(0) };
    assert!(two.check_wf());

    let preserved = run(
        false,
        vec![("root".to_owned(), scenario_tree()), ("other".to_owned(), two)],
    );
    assert_eq!(preserved.len(), 5 + 2);
    assert_eq!(preserved[0].path, "root");
    assert_eq!(preserved[5].path, "other");

    let followed = run(true, vec![("root".to_owned(), one)]);
    assert_eq!(followed.len(), 6);
    assert!(followed.iter().all(|e| e.symlink_path.is_none()));
}

#[test]
fn fileinfo_new_keeps_fields() {
    let info = FileInfo::new(
        "a/b".to_owned(),
        "c/d".to_owned(),
        FileType::SYMLINK,
        Some("e".to_owned()),
    );
    assert_eq!(info.path, "a/b");
    assert_eq!(info.content_path, "c/d");
    assert_eq!(info.file_type, FileType::SYMLINK);
    assert_eq!(info.symlink_path.as_deref(), Some("e"));
}

#[test]
fn check_wf_rejects_backward_edges() {
    // A directory whose child reference points at the directory itself.
    let fs = Fs {
        nodes: vec![dir("r", vec![("self", 0)])],
        root: Some(0),
    };
    assert!(!fs.check_wf());

    // A symlink whose recorded target points backwards.
    let fs = Fs {
        nodes: vec![dir("r", vec![("l", 1)]), link("r/l", "r", Some(0))],
        root: Some(0),
    };
    assert!(!fs.check_wf());

    // A root index outside the node table.
    let fs = Fs { nodes: vec![file("r")], root: Some(7) };
    assert!(!fs.check_wf());
}
