//! Manifest entries and the scanning filters: one entry model shared by all
//! symlink policies, and one breadth-first engine that each policy drives.

use std::collections::VecDeque;
use vstd::prelude::*;
use vstd::string::StringExecFns;

use crate::fstree::{resolve, Fs, FsNodeKind};
use crate::manifest::{
    basic_entry, bfs, children_of, entry_at, expand_target, follow_entry, frontier, join,
    lemma_bfs_step, manifest, preserving_entry, ItemV, Policy,
};

verus! {

/// The kind of a manifest entry.
///
/// `NONE` marks a broken symlink: one whose resolution chain ends at a path
/// that does not exist.
#[derive(Clone, Copy, PartialEq, Eq, Structural, Debug)]
pub enum FileType {
    REGULAR,
    DIRECTORY,
    SYMLINK,
    NONE,
}

/// One element of a manifest.
#[derive(Clone, Debug, PartialEq, Eq)]
pub struct FileInfo {
    /// The logical path: where the entry should sit in the output container.
    pub path: String,
    /// The content source: the on-disk path the entry's bytes are read from.
    /// It differs from `path` only under the follow policy, where a symlink's
    /// content comes from its resolved target.
    pub content_path: String,
    /// The one-hop target of a symlink, exactly as stored in the link;
    /// present if and only if the entry records a symlink node under the
    /// symlink-preserving policy.
    pub symlink_path: Option<String>,
    pub file_type: FileType,
}

/// Mathematical image of a `FileInfo`.
pub struct EntryV {
    pub path: Seq<char>,
    pub content_path: Seq<char>,
    pub symlink_path: Option<Seq<char>>,
    pub file_type: FileType,
}

/// The spec-level image of an optional owned path.
pub open spec fn opt_str_view(s: Option<String>) -> Option<Seq<char>> {
    match s {
        Some(p) => Some(p@),
        None => None,
    }
}

impl View for FileInfo {
    type V = EntryV;

    open spec fn view(&self) -> EntryV {
        EntryV {
            path: self.path@,
            content_path: self.content_path@,
            symlink_path: opt_str_view(self.symlink_path),
            file_type: self.file_type,
        }
    }
}

impl FileInfo {
    /// Build one manifest entry from its four attributes.
    pub fn new(
        path: String,
        content_path: String,
        file_type: FileType,
        symlink_path: Option<String>,
    ) -> (r: Self)
        ensures
            r@ == (EntryV {
                path: path@,
                content_path: content_path@,
                symlink_path: opt_str_view(symlink_path),
                file_type: file_type,
            }),
    {
        Self { path, content_path, symlink_path, file_type }
    }
}

/// The spec-level image of a sequence of entries.
pub open spec fn entries_view(s: Seq<FileInfo>) -> Seq<EntryV> {
    s.map_values(|e: FileInfo| e@)
}

/// The spec-level image of a scan result: `None` is the absent manifest.
pub open spec fn opt_entries(r: Option<Vec<FileInfo>>) -> Option<Seq<EntryV>> {
    match r {
        Some(v) => Some(entries_view(v@)),
        None => None,
    }
}

/// A pending traversal item of the executable engine.
struct QItem {
    path: String,
    id: usize,
}

impl View for QItem {
    type V = ItemV;

    closed spec fn view(&self) -> ItemV {
        ItemV { path: self.path@, id: self.id as int }
    }
}

/// The spec-level image of an executable queue.
spec fn items_view(q: Seq<QItem>) -> Seq<ItemV> {
    q.map_values(|it: QItem| it@)
}

/// Join a child name under a parent path with the path separator.
fn join_path(p: &str, name: &str) -> (r: String)
    ensures
        r@ == join(p@, name@),
{
    let mut r = p.to_owned();
    r.append("/");
    r.append(name);
    r
}

/// Whether a snapshot node is a symlink.
fn is_link_kind(k: &FsNodeKind) -> (b: bool)
    ensures
        b == (k@ is Link),
{
    match k {
        FsNodeKind::Link { .. } => true,
        _ => false,
    }
}

/// The entry the basic policy records for node `id` found at `path`.
fn query_basic(fs: &Fs, path: &str, id: usize) -> (r: FileInfo)
    requires
        fs.wf(),
        id < fs@.nodes.len(),
    ensures
        r@ == basic_entry(fs@.nodes, path@, id as int),
{
    proof {
        crate::fstree::lemma_resolve(fs@.nodes, id as int);
    }
    let file_type = match crate::fstree::resolve_node(fs, id) {
        Some(f) => match &fs.nodes[f].kind {
            FsNodeKind::Dir { .. } => FileType::DIRECTORY,
            _ => FileType::REGULAR,
        },
        None => FileType::REGULAR,
    };
    FileInfo::new(path.to_owned(), path.to_owned(), file_type, None)
}

impl SymlinkFilter {
    /// The entry the preserving policy records for node `id` found at `path`.
    fn query_fileinfo(fs: &Fs, path: &str, id: usize) -> (r: FileInfo)
        requires
            fs.wf(),
            id < fs@.nodes.len(),
        ensures
            r@ == preserving_entry(fs@.nodes, path@, id as int),
    {
        match &fs.nodes[id].kind {
            FsNodeKind::File => FileInfo::new(
                path.to_owned(),
                path.to_owned(),
                FileType::REGULAR,
                None,
            ),
            FsNodeKind::Dir { .. } => FileInfo::new(
                path.to_owned(),
                path.to_owned(),
                FileType::DIRECTORY,
                None,
            ),
            FsNodeKind::Link { target, target_id } => {
                let file_type = match target_id {
                    None => FileType::NONE,
                    Some(t) => {
                        proof {
                            assert(crate::fstree::node_edges_ok(
                                fs@.nodes[id as int],
                                id as int,
                                fs@.nodes.len() as int,
                            ));
                        }
                        match crate::fstree::resolve_node(fs, *t) {
                            None => FileType::NONE,
                            Some(_) => match &fs.nodes[*t].kind {
                                FsNodeKind::Link { .. } => FileType::SYMLINK,
                                FsNodeKind::Dir { .. } => FileType::DIRECTORY,
                                FsNodeKind::File => FileType::REGULAR,
                            },
                        }
                    },
                };
                FileInfo::new(path.to_owned(), path.to_owned(), file_type, Some(target.clone()))
            },
        }
    }
}

impl SymlinkFollowFilter {
    /// The entry the follow policy records for the symlink node `id` found at
    /// `path`: the chain's final target supplies content path and kind; an
    /// unresolvable chain yields a broken (`NONE`) leaf.
    fn follow_link(fs: &Fs, path: &str, id: usize) -> (r: FileInfo)
        requires
            fs.wf(),
            id < fs@.nodes.len(),
        ensures
            r@ == follow_entry(fs@.nodes, path@, id as int),
    {
        proof {
            crate::fstree::lemma_resolve(fs@.nodes, id as int);
        }
        match crate::fstree::resolve_node(fs, id) {
            None => FileInfo::new(path.to_owned(), path.to_owned(), FileType::NONE, None),
            Some(f) => {
                let file_type = match &fs.nodes[f].kind {
                    FsNodeKind::Dir { .. } => FileType::DIRECTORY,
                    _ => FileType::REGULAR,
                };
                FileInfo::new(path.to_owned(), fs.nodes[f].path.clone(), file_type, None)
            },
        }
    }

    /// The entry the follow policy records for node `id` found at `path`.
    fn query_fileinfo(fs: &Fs, path: &str, id: usize) -> (r: FileInfo)
        requires
            fs.wf(),
            id < fs@.nodes.len(),
        ensures
            r@ == follow_entry(fs@.nodes, path@, id as int),
    {
        match &fs.nodes[id].kind {
            FsNodeKind::Link { .. } => Self::follow_link(fs, path, id),
            FsNodeKind::Dir { .. } => {
                proof {
                    assert(resolve(fs@.nodes, id as int) == Some(id as int));
                }
                FileInfo::new(
                    path.to_owned(),
                    fs.nodes[id].path.clone(),
                    FileType::DIRECTORY,
                    None,
                )
            },
            FsNodeKind::File => {
                proof {
                    assert(resolve(fs@.nodes, id as int) == Some(id as int));
                }
                FileInfo::new(path.to_owned(), fs.nodes[id].path.clone(), FileType::REGULAR, None)
            },
        }
    }
}

/// The entry recorded for one traversal item under policy `pol`.
fn classify_item(fs: &Fs, pol: Policy, path: &str, id: usize) -> (r: FileInfo)
    requires
        fs.wf(),
        id < fs@.nodes.len(),
    ensures
        r@ == entry_at(fs@.nodes, pol, path@, id as int),
{
    match pol {
        Policy::Basic => query_basic(fs, path, id),
        Policy::Preserving => SymlinkFilter::query_fileinfo(fs, path, id),
        Policy::Follow => SymlinkFollowFilter::query_fileinfo(fs, path, id),
    }
}

/// Append one pending item per child of directory node `f` to the queue, with
/// logical paths joined under `path`.
fn expand_children(fs: &Fs, f: usize, path: &str, queue: &mut VecDeque<QItem>)
    requires
        fs.wf(),
        f < fs@.nodes.len(),
        fs@.nodes[f as int].kind is Dir,
    ensures
        items_view(final(queue)@) == items_view(old(queue)@) + children_of(
            fs@.nodes,
            f as int,
        ).map_values(|c: crate::fstree::ChildV| ItemV { path: join(path@, c.name), id: c.id }),
{
    let ghost cs = children_of(fs@.nodes, f as int);
    let ghost mapped = cs.map_values(
        |c: crate::fstree::ChildV| ItemV { path: join(path@, c.name), id: c.id },
    );
    match &fs.nodes[f].kind {
        FsNodeKind::Dir { children } => {
            proof {
                assert(cs =~= children@.map_values(|c: crate::fstree::ChildRef| c@));
            }
            let mut k: usize = 0;
            while k < children.len()
                invariant
                    k <= children.len(),
                    cs == children@.map_values(|c: crate::fstree::ChildRef| c@),
                    mapped == cs.map_values(
                        |c: crate::fstree::ChildV| ItemV { path: join(path@, c.name), id: c.id },
                    ),
                    items_view(queue@) == items_view(old(queue)@) + mapped.subrange(0, k as int),
                decreases children.len() - k,
            {
                let c = &children[k];
                let ghost q_before = queue@;
                let item = QItem { path: join_path(path, c.name.as_str()), id: c.id };
                let ghost itv = item@;
                queue.push_back(item);
                proof {
                    assert(cs[k as int] == children@[k as int]@);
                    assert(itv == mapped[k as int]);
                    assert(items_view(queue@) =~= items_view(q_before).push(itv));
                    assert(mapped.subrange(0, k + 1) =~= mapped.subrange(0, k as int).push(
                        mapped[k as int],
                    ));
                    assert(items_view(queue@) =~= items_view(old(queue)@) + mapped.subrange(
                        0,
                        k + 1,
                    ));
                }
                k = k + 1;
            }
            proof {
                assert(mapped.subrange(0, cs.len() as int) =~= mapped);
            }
        },
        _ => {
            // The precondition says node `f` is a directory.
            proof {
                assert(false);
            }
        },
    }
}

/// Append the frontier of the item (`path`, `id`) to the queue, as policy
/// `pol` expands it.
fn query_next_batch(fs: &Fs, pol: Policy, path: &str, id: usize, queue: &mut VecDeque<QItem>)
    requires
        fs.wf(),
        id < fs@.nodes.len(),
    ensures
        items_view(final(queue)@) == items_view(old(queue)@) + frontier(
            fs@.nodes,
            pol,
            path@,
            id as int,
        ),
{
    let target: Option<usize> = match pol {
        Policy::Preserving => match &fs.nodes[id].kind {
            FsNodeKind::Dir { .. } => Some(id),
            _ => None,
        },
        _ => {
            proof {
                crate::fstree::lemma_resolve(fs@.nodes, id as int);
            }
            match crate::fstree::resolve_node(fs, id) {
                Some(f) => match &fs.nodes[f].kind {
                    FsNodeKind::Dir { .. } => Some(f),
                    _ => None,
                },
                None => None,
            }
        },
    };
    proof {
        assert(crate::fstree::opt_id_view(target) == expand_target(fs@.nodes, pol, id as int));
    }
    match target {
        Some(f) => {
            proof {
                crate::manifest::lemma_expand_target(fs@.nodes, pol, id as int);
            }
            expand_children(fs, f, path, queue);
        },
        None => {
            proof {
                assert(items_view(queue@) =~= items_view(queue@) + frontier(
                    fs@.nodes,
                    pol,
                    path@,
                    id as int,
                ));
            }
        },
    }
}

/// Scan the snapshot `fs` under policy `pol` from the root path `root`,
/// producing the policy's manifest: the engine every filter drives.
fn scan_entries(fs: &Fs, pol: Policy, root: &str) -> (r: Option<Vec<FileInfo>>)
    requires
        fs.wf(),
    ensures
        opt_entries(r) == manifest(fs@, pol, root@),
{
    let root_id: usize = match fs.root {
        Some(r) => r,
        None => {
            return None;
        },
    };
    // Per-policy treatment of the root itself.
    match pol {
        Policy::Basic => {
            if is_link_kind(&fs.nodes[root_id].kind) {
                let entry = FileInfo::new(root.to_owned(), root.to_owned(), FileType::REGULAR, None);
                let mut one: Vec<FileInfo> = Vec::new();
                one.push(entry);
                proof {
                    assert(entries_view(one@) =~= manifest(fs@, pol, root@).unwrap());
                }
                return Some(one);
            }
        },
        Policy::Preserving => {
            if is_link_kind(&fs.nodes[root_id].kind) {
                let entry = SymlinkFilter::query_fileinfo(fs, root, root_id);
                let mut one: Vec<FileInfo> = Vec::new();
                one.push(entry);
                proof {
                    assert(entries_view(one@) =~= manifest(fs@, pol, root@).unwrap());
                }
                return Some(one);
            }
        },
        Policy::Follow => {
            match crate::fstree::resolve_node(fs, root_id) {
                None => {
                    return None;
                },
                Some(_) => {},
            }
        },
    }
    let ghost init: Seq<ItemV> = seq![ItemV { path: root@, id: root_id as int }];
    let mut results: Vec<FileInfo> = Vec::new();
    let mut queue: VecDeque<QItem> = VecDeque::new();
    queue.push_back(QItem { path: root.to_owned(), id: root_id });
    proof {
        assert(items_view(queue@) =~= init);
    }
    while queue.len() > 0
        invariant
            fs.wf(),
            crate::manifest::q_ok(fs@.nodes, items_view(queue@)),
            crate::manifest::q_ok(fs@.nodes, init),
            entries_view(results@) + bfs(fs@.nodes, pol, items_view(queue@)) == bfs(
                fs@.nodes,
                pol,
                init,
            ),
        decreases crate::manifest::qsize(fs@.nodes, pol, items_view(queue@)),
    {
        let ghost q_pre = items_view(queue@);
        proof {
            lemma_bfs_step(fs@.nodes, pol, q_pre);
        }
        let it = queue.pop_front().unwrap();
        proof {
            assert(it@ == q_pre[0]);
            assert(items_view(queue@) =~= q_pre.drop_first());
        }
        let info = classify_item(fs, pol, it.path.as_str(), it.id);
        results.push(info);
        query_next_batch(fs, pol, it.path.as_str(), it.id, &mut queue);
        proof {
            assert(items_view(queue@) == q_pre.drop_first() + frontier(
                fs@.nodes,
                pol,
                q_pre[0].path,
                q_pre[0].id,
            ));
            assert(entries_view(results@) =~= entries_view(results@.drop_last()) + seq![info@]);
            assert(bfs(fs@.nodes, pol, q_pre) == seq![
                entry_at(fs@.nodes, pol, q_pre[0].path, q_pre[0].id),
            ] + bfs(fs@.nodes, pol, items_view(queue@)));
            assert(entries_view(results@) + bfs(fs@.nodes, pol, items_view(queue@)) =~= bfs(
                fs@.nodes,
                pol,
                init,
            ));
        }
    }
    proof {
        assert(entries_view(results@) =~= bfs(fs@.nodes, pol, init));
    }
    Some(results)
}

/// A scanner bound to a root path: it can scan a snapshot, hand out the
/// resulting manifest, and be rebound to a new root (which clears the
/// manifest). Each implementor fixes one symlink policy.
pub trait Filter: Sized {
    /// The symlink policy this filter scans with.
    spec fn policy() -> Policy;

    /// The root path the filter is bound to.
    spec fn root_view(&self) -> Seq<char>;

    /// The manifest of the last scan: `None` before any scan, after a rebind,
    /// and when the last scan found no root.
    spec fn files_view(&self) -> Option<Seq<EntryV>>;

    /// Bind a new filter to a root path; no manifest yet.
    fn new(root: String) -> (r: Self)
        ensures
            r.root_view() == root@,
            r.files_view() is None,
    ;

    /// Scan the snapshot, replacing any previous manifest with the policy's
    /// manifest of `fs` — absent exactly when the root is absent.
    fn scan(&mut self, fs: &Fs)
        requires
            fs.wf(),
        ensures
            final(self).root_view() == old(self).root_view(),
            final(self).files_view() == manifest(fs@, Self::policy(), old(self).root_view()),
    ;

    /// The manifest of the last scan.
    fn files(&self) -> (r: &Option<Vec<FileInfo>>)
        ensures
            opt_entries(*r) == self.files_view(),
    ;

    /// Rebind to a new root, clearing any previous manifest.
    fn update(self, root: String) -> (r: Self)
        ensures
            r.root_view() == root@,
            r.files_view() is None,
    ;

    /// Consume the filter, yielding the manifest's entries in traversal
    /// order; empty when the manifest is absent.
    fn into_files(self) -> (r: Vec<FileInfo>)
        ensures
            entries_view(r@) == (match self.files_view() {
                Some(s) => s,
                None => Seq::<EntryV>::empty(),
            }),
    ;
}

/// The symlink-blind filter: every node is recorded as a regular file or a
/// directory under its own path, and directory symlinks are traversed into.
/// A symlink root short-circuits the scan to a single regular-file entry.
pub struct BasicFilter {
    root: String,
    files: Option<Vec<FileInfo>>,
}

/// The symlink-preserving filter: every symlink is kept as its own entry,
/// carrying its one-hop target, and is never traversed into — even when it
/// points at a directory.
pub struct SymlinkFilter {
    root: String,
    files: Option<Vec<FileInfo>>,
}

/// The follow-symlinks filter: symlinks are eliminated; every entry is a
/// regular file or a directory whose content comes from the resolved target,
/// while logical paths stay rooted at the symlink's own location. A symlink
/// whose chain cannot be resolved is recorded as a broken leaf.
pub struct SymlinkFollowFilter {
    root: String,
    files: Option<Vec<FileInfo>>,
}

impl BasicFilter {
    /// The basic-policy manifest of `fs` below this filter's root.
    fn list_files(&self, fs: &Fs) -> (r: Option<Vec<FileInfo>>)
        requires
            fs.wf(),
        ensures
            opt_entries(r) == manifest(fs@, Policy::Basic, self.root@),
    {
        scan_entries(fs, Policy::Basic, self.root.as_str())
    }
}

impl SymlinkFilter {
    /// The preserving-policy manifest of `fs` below this filter's root.
    fn list_files(&self, fs: &Fs) -> (r: Option<Vec<FileInfo>>)
        requires
            fs.wf(),
        ensures
            opt_entries(r) == manifest(fs@, Policy::Preserving, self.root@),
    {
        scan_entries(fs, Policy::Preserving, self.root.as_str())
    }
}

impl SymlinkFollowFilter {
    /// The follow-policy manifest of `fs` below this filter's root.
    fn list_files(&self, fs: &Fs) -> (r: Option<Vec<FileInfo>>)
        requires
            fs.wf(),
        ensures
            opt_entries(r) == manifest(fs@, Policy::Follow, self.root@),
    {
        scan_entries(fs, Policy::Follow, self.root.as_str())
    }
}

impl Filter for BasicFilter {
    open spec fn policy() -> Policy {
        Policy::Basic
    }

    closed spec fn root_view(&self) -> Seq<char> {
        self.root@
    }

    closed spec fn files_view(&self) -> Option<Seq<EntryV>> {
        opt_entries(self.files)
    }

    fn new(root: String) -> Self {
        BasicFilter { root, files: None }
    }

    fn scan(&mut self, fs: &Fs) {
        let r = self.list_files(fs);
        self.files = r;
    }

    fn files(&self) -> &Option<Vec<FileInfo>> {
        &self.files
    }

    fn update(self, root: String) -> Self {
        BasicFilter { root, files: None }
    }

    fn into_files(self) -> Vec<FileInfo> {
        match self.files {
            Some(v) => v,
            None => {
                let v: Vec<FileInfo> = Vec::new();
                proof {
                    assert(entries_view(v@) =~= Seq::<EntryV>::empty());
                }
                v
            },
        }
    }
}

impl Filter for SymlinkFilter {
    open spec fn policy() -> Policy {
        Policy::Preserving
    }

    closed spec fn root_view(&self) -> Seq<char> {
        self.root@
    }

    closed spec fn files_view(&self) -> Option<Seq<EntryV>> {
        opt_entries(self.files)
    }

    fn new(root: String) -> Self {
        SymlinkFilter { root, files: None }
    }

    fn scan(&mut self, fs: &Fs) {
        let r = self.list_files(fs);
        self.files = r;
    }

    fn files(&self) -> &Option<Vec<FileInfo>> {
        &self.files
    }

    fn update(self, root: String) -> Self {
        SymlinkFilter { root, files: None }
    }

    fn into_files(self) -> Vec<FileInfo> {
        match self.files {
            Some(v) => v,
            None => {
                let v: Vec<FileInfo> = Vec::new();
                proof {
                    assert(entries_view(v@) =~= Seq::<EntryV>::empty());
                }
                v
            },
        }
    }
}

impl Filter for SymlinkFollowFilter {
    open spec fn policy() -> Policy {
        Policy::Follow
    }

    closed spec fn root_view(&self) -> Seq<char> {
        self.root@
    }

    closed spec fn files_view(&self) -> Option<Seq<EntryV>> {
        opt_entries(self.files)
    }

    fn new(root: String) -> Self {
        SymlinkFollowFilter { root, files: None }
    }

    fn scan(&mut self, fs: &Fs) {
        let r = self.list_files(fs);
        self.files = r;
    }

    fn files(&self) -> &Option<Vec<FileInfo>> {
        &self.files
    }

    fn update(self, root: String) -> Self {
        SymlinkFollowFilter { root, files: None }
    }

    fn into_files(self) -> Vec<FileInfo> {
        match self.files {
            Some(v) => v,
            None => {
                let v: Vec<FileInfo> = Vec::new();
                proof {
                    assert(entries_view(v@) =~= Seq::<EntryV>::empty());
                }
                v
            },
        }
    }
}

/// The policy `run` scans with: preserving by default, follow on request.
pub open spec fn run_policy(follow_symlink: bool) -> Policy {
    if follow_symlink {
        Policy::Follow
    } else {
        Policy::Preserving
    }
}

/// The manifests of a list of (root path, snapshot) scans, concatenated in
/// order; an absent manifest contributes nothing.
pub open spec fn concat_manifests(scans: Seq<(String, Fs)>, pol: Policy) -> Seq<EntryV>
    decreases scans.len(),
{
    if scans.len() == 0 {
        Seq::empty()
    } else {
        (match manifest(scans[0].1@, pol, scans[0].0@) {
            Some(s) => s,
            None => Seq::empty(),
        }) + concat_manifests(scans.drop_first(), pol)
    }
}

proof fn lemma_concat_snoc(scans: Seq<(String, Fs)>, x: (String, Fs), pol: Policy)
    ensures
        concat_manifests(scans.push(x), pol) == concat_manifests(scans, pol) + (match manifest(
            x.1@,
            pol,
            x.0@,
        ) {
            Some(s) => s,
            None => Seq::<EntryV>::empty(),
        }),
    decreases scans.len(),
{
    let mx = match manifest(x.1@, pol, x.0@) {
        Some(s) => s,
        None => Seq::<EntryV>::empty(),
    };
    if scans.len() == 0 {
        assert(scans.push(x)[0] == x);
        assert(scans.push(x).drop_first() =~= scans);
        assert(concat_manifests(scans.push(x), pol) == mx + concat_manifests(scans, pol));
        assert(concat_manifests(scans, pol) == Seq::<EntryV>::empty());
        assert(mx + Seq::<EntryV>::empty() =~= concat_manifests(scans, pol) + mx);
    } else {
        let m0 = match manifest(scans[0].1@, pol, scans[0].0@) {
            Some(s) => s,
            None => Seq::<EntryV>::empty(),
        };
        assert(scans.push(x)[0] == scans[0]);
        assert(scans.push(x).drop_first() =~= scans.drop_first().push(x));
        lemma_concat_snoc(scans.drop_first(), x, pol);
        assert(concat_manifests(scans.push(x), pol) == m0 + concat_manifests(
            scans.drop_first().push(x),
            pol,
        ));
        assert(concat_manifests(scans, pol) == m0 + concat_manifests(scans.drop_first(), pol));
        assert(m0 + (concat_manifests(scans.drop_first(), pol) + mx) =~= (m0 + concat_manifests(
            scans.drop_first(),
            pol,
        )) + mx);
    }
}

/// Scan every listed root against its snapshot — preserving symlinks by
/// default, following them on request — and chain the manifests into one
/// entry list, ready for an archive writer. Every root must exist (and, under
/// follow, resolve), as each scan's manifest is required to be present.
pub fn run(follow_symlink: bool, scans: Vec<(String, Fs)>) -> (r: Vec<FileInfo>)
    requires
        forall|k: int| 0 <= k < scans@.len() ==> (#[trigger] scans@[k]).1.wf() && manifest(
            scans@[k].1@,
            run_policy(follow_symlink),
            scans@[k].0@,
        ) is Some,
    ensures
        entries_view(r@) == concat_manifests(scans@, run_policy(follow_symlink)),
{
    let pol = if follow_symlink {
        Policy::Follow
    } else {
        Policy::Preserving
    };
    let mut out: Vec<FileInfo> = Vec::new();
    let mut i: usize = 0;
    proof {
        assert(scans@.subrange(0, 0) =~= Seq::<(String, Fs)>::empty());
        assert(entries_view(out@) =~= Seq::<EntryV>::empty());
    }
    while i < scans.len()
        invariant
            i <= scans.len(),
            pol == run_policy(follow_symlink),
            forall|k: int| 0 <= k < scans@.len() ==> (#[trigger] scans@[k]).1.wf() && manifest(
                scans@[k].1@,
                pol,
                scans@[k].0@,
            ) is Some,
            entries_view(out@) == concat_manifests(scans@.subrange(0, i as int), pol),
        decreases scans.len() - i,
    {
        let pair = &scans[i];
        let ghost out_pre = out@;
        let res = scan_entries(&pair.1, pol, pair.0.as_str());
        match res {
            Some(mut v) => {
                let ghost v_snap = v@;
                out.append(&mut v);
                proof {
                    assert(entries_view(out@) =~= entries_view(out_pre) + entries_view(v_snap));
                }
            },
            None => {
                // A scan of a listed root cannot come back absent: the
                // precondition promises every root a present manifest.
                proof {
                    assert(false);
                }
            },
        }
        proof {
            assert(scans@.subrange(0, i + 1) =~= scans@.subrange(0, i as int).push(
                scans@[i as int],
            ));
            lemma_concat_snoc(scans@.subrange(0, i as int), scans@[i as int], pol);
        }
        i = i + 1;
    }
    proof {
        assert(scans@.subrange(0, scans@.len() as int) =~= scans@);
    }
    out
}

} // verus!
