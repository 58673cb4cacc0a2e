use clannad::filter::{BasicFilter, FileType, Filter, SymlinkFilter, SymlinkFollowFilter};
use clannad::fstree::{ChildRef, Fs, FsNode, FsNodeKind};

fn file(path: &str) -> FsNode {
    FsNode { path: path.to_owned(), kind: FsNodeKind::File }
}

fn dir(path: &str, children: Vec<(&str, usize)>) -> FsNode {
    FsNode {
        path: path.to_owned(),
        kind: FsNodeKind::Dir {
            children: children
                .into_iter()
                .map(|(name, id)| ChildRef { name: name.to_owned(), id })
                .collect(),
        },
    }
}

fn link(path: &str, target: &str, target_id: Option<usize>) -> FsNode {
    FsNode { path: path.to_owned(), kind: FsNodeKind::Link { target: target.to_owned(), target_id } }
}

/// A snapshot of a tree of 8 nodes with 3 symlinks: a file, a directory of
/// two files, a symlink to the file, a symlink to the directory, and a
/// symlink to the first symlink.
fn normalfolder() -> Fs {
    let nodes = vec![
        dir(
            "resources/normalfolder",
            vec![
                ("filea", 3),
                ("level1", 5),
                ("linktolevel1", 4),
                ("linktofilea", 2),
                ("linktolink", 1),
            ],
        ),
        link("resources/normalfolder/linktolink", "linktofilea", Some(2)),
        link("resources/normalfolder/linktofilea", "filea", Some(3)),
        file("resources/normalfolder/filea"),
        link("resources/normalfolder/linktolevel1", "level1", Some(5)),
        dir("resources/normalfolder/level1", vec![("test1.ext1", 6), ("test2.ext2", 7)]),
        file("resources/normalfolder/level1/test1.ext1"),
        file("resources/normalfolder/level1/test2.ext2"),
    ];
    let fs = Fs { nodes, root: Some(0) };
    assert!(fs.check_wf());
    fs
}

/// A snapshot whose root path is itself a symlink to the tree above.
fn normalsymlink() -> Fs {
    let nodes = vec![
        link("resources/normalsymlink", "normalfolder", Some(1)),
        dir(
            "resources/normalfolder",
            vec![
                ("filea", 4),
                ("level1", 6),
                ("linktolevel1", 5),
                ("linktofilea", 3),
                ("linktolink", 2),
            ],
        ),
        link("resources/normalfolder/linktolink", "linktofilea", Some(3)),
        link("resources/normalfolder/linktofilea", "filea", Some(4)),
        file("resources/normalfolder/filea"),
        link("resources/normalfolder/linktolevel1", "level1", Some(6)),
        dir("resources/normalfolder/level1", vec![("test1.ext1", 7), ("test2.ext2", 8)]),
        file("resources/normalfolder/level1/test1.ext1"),
        file("resources/normalfolder/level1/test2.ext2"),
    ];
    let fs = Fs { nodes, root: Some(0) };
    assert!(fs.check_wf());
    fs
}

/// A snapshot for a root path that does not exist.
fn absent() -> Fs {
    Fs { nodes: Vec::new(), root: None }
}

#[test]
fn basic_filter() {
    let mut filter = BasicFilter::new("dst".to_owned());
    filter.scan(&absent());
    assert_eq!(filter.files().is_none(), true);
    filter = filter.update("resources/normalfolder".to_owned());
    filter.scan(&normalfolder());
    assert_eq!(filter.into_files().len(), 10 as usize);
}

#[test]
fn basic_filter_symlink_root() {
    let mut filter = BasicFilter::new("resources/normalsymlink".to_owned());
    filter.scan(&normalsymlink());
    assert_eq!(filter.into_files().len(), 1 as usize);
}

#[test]
fn symlink_filter() {
    let mut filter = SymlinkFilter::new("dst".to_owned());
    filter.scan(&absent());
    assert_eq!(filter.files().is_none(), true);
    filter = filter.update("resources/normalfolder".to_owned());
    filter.scan(&normalfolder());
    assert_eq!(
        filter
            .files()
            .as_ref()
            .unwrap()
            .iter()
            .filter(|x| x.symlink_path.is_some())
            .count(),
        3
    );
    assert_eq!(filter.into_files().len(), 8 as usize);
}

#[test]
fn symlink_filter_symlink_root() {
    let mut filter = SymlinkFilter::new("resources/normalsymlink".to_owned());
    filter.scan(&normalsymlink());
    assert_eq!(filter.into_files().len(), 1 as usize);
}

#[test]
fn symlink_follow_filter() {
    let mut filter = SymlinkFollowFilter::new("dst".to_owned());
    filter.scan(&absent());
    assert_eq!(filter.files().is_none(), true);
    filter = filter.update("resources/normalfolder".to_owned());
    filter.scan(&normalfolder());
    assert!(filter
        .files()
        .as_ref()
        .unwrap()
        .iter()
        .all(|x| x.symlink_path.is_none()));
    assert_eq!(filter.into_files().len(), 10 as usize);
}

#[test]
fn symlink_follow_filter_symlink_root() {
    let mut filter = SymlinkFollowFilter::new("resources/normalsymlink".to_owned());
    filter.scan(&normalsymlink());
    assert_eq!(filter.into_files().len(), 10 as usize);
}

#[test]
fn follow_resolves_multi_hop_chains() {
    // linktolink -> linktofilea -> filea: the content source is the final
    // target of the whole chain, not the next hop.
    let mut filter = SymlinkFollowFilter::new("resources/normalfolder".to_owned());
    filter.scan(&normalfolder());
    let entries = filter.into_files();
    let chained = entries
        .iter()
        .find(|e| e.path == "resources/normalfolder/linktolink")
        .unwrap();
    assert_eq!(chained.content_path, "resources/normalfolder/filea");
    assert_eq!(chained.file_type, FileType::REGULAR);
}
