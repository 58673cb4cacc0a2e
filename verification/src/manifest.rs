//! The mathematical description of a scan: what entry each visited path
//! yields, which paths the traversal visits next, and the breadth-first
//! manifest that a whole scan produces, for each symlink policy.

use vstd::prelude::*;

use crate::filter::{EntryV, FileType};
use crate::fstree::{node_edges_ok, nodes_wf, resolve, ChildV, FsV, NodeKindV, NodeV};

verus! {

/// The symlink policy of a scan.
///
/// - `Basic`: symlink-blind; every node is recorded as `REGULAR` or
///   `DIRECTORY` by the kind of its resolved target, under its own path,
///   and directory symlinks are traversed into.
/// - `Preserving`: symlinks are kept as their own entries, carrying the
///   one-hop target, and are never traversed into.
/// - `Follow`: symlinks are eliminated; content comes from the resolved
///   target, while logical paths stay rooted at the symlink's own location.
#[derive(Clone, Copy, PartialEq, Eq, Structural, Debug)]
pub enum Policy {
    Basic,
    Preserving,
    Follow,
}

/// A pending traversal item: the logical path to emit, and the index of the
/// snapshot node found at that path.
pub struct ItemV {
    pub path: Seq<char>,
    pub id: int,
}

/// A child name joined under a parent path with the path separator.
pub open spec fn join(p: Seq<char>, name: Seq<char>) -> Seq<char> {
    p + "/"@ + name
}

/// The children of node `f`, when it is a directory.
pub open spec fn children_of(nodes: Seq<NodeV>, f: int) -> Seq<ChildV> {
    match nodes[f].kind {
        NodeKindV::Dir { children } => children,
        _ => Seq::empty(),
    }
}

/// The node whose children the traversal expands below an item holding node
/// `id`; `None` when the item is a leaf.
///
/// Under `Preserving` a symlink is always a leaf; under `Basic` and `Follow`
/// the traversal descends into the directory a symlink chain resolves to.
pub open spec fn expand_target(nodes: Seq<NodeV>, pol: Policy, id: int) -> Option<int> {
    match pol {
        Policy::Preserving => if nodes[id].kind is Dir {
            Some(id)
        } else {
            None
        },
        _ => match resolve(nodes, id) {
            Some(f) => if nodes[f].kind is Dir {
                Some(f)
            } else {
                None
            },
            None => None,
        },
    }
}

/// The entry the basic policy records for node `id` at logical path `p`:
/// always the node's own path, never a symlink, classified by the kind of
/// the resolved target (a broken link counts as a regular file).
pub open spec fn basic_entry(nodes: Seq<NodeV>, p: Seq<char>, id: int) -> EntryV {
    EntryV {
        path: p,
        content_path: p,
        symlink_path: None,
        file_type: match resolve(nodes, id) {
            Some(f) => if nodes[f].kind is Dir {
                FileType::DIRECTORY
            } else {
                FileType::REGULAR
            },
            None => FileType::REGULAR,
        },
    }
}

/// The kind the preserving policy gives a symlink whose one-hop target is
/// `target_id`: `NONE` when the chain beyond it is broken, `SYMLINK` when the
/// immediate target is itself a symlink, else the immediate target's kind.
pub open spec fn link_kind(nodes: Seq<NodeV>, target_id: Option<int>) -> FileType {
    match target_id {
        None => FileType::NONE,
        Some(t) => match resolve(nodes, t) {
            None => FileType::NONE,
            Some(_) => if nodes[t].kind is Link {
                FileType::SYMLINK
            } else if nodes[t].kind is Dir {
                FileType::DIRECTORY
            } else {
                FileType::REGULAR
            },
        },
    }
}

/// The entry the preserving policy records for node `id` at logical path `p`:
/// a symlink keeps its own path and carries its one-hop target.
pub open spec fn preserving_entry(nodes: Seq<NodeV>, p: Seq<char>, id: int) -> EntryV {
    match nodes[id].kind {
        NodeKindV::File => EntryV {
            path: p,
            content_path: p,
            symlink_path: None,
            file_type: FileType::REGULAR,
        },
        NodeKindV::Dir { .. } => EntryV {
            path: p,
            content_path: p,
            symlink_path: None,
            file_type: FileType::DIRECTORY,
        },
        NodeKindV::Link { target, target_id } => EntryV {
            path: p,
            content_path: p,
            symlink_path: Some(target),
            file_type: link_kind(nodes, target_id),
        },
    }
}

/// The entry the follow policy records for node `id` at logical path `p`:
/// content comes from the resolved target's on-disk path; an unresolvable
/// chain is recorded as a broken (`NONE`) leaf rather than aborting the scan.
pub open spec fn follow_entry(nodes: Seq<NodeV>, p: Seq<char>, id: int) -> EntryV {
    match resolve(nodes, id) {
        None => EntryV { path: p, content_path: p, symlink_path: None, file_type: FileType::NONE },
        Some(f) => EntryV {
            path: p,
            content_path: nodes[f].path,
            symlink_path: None,
            file_type: if nodes[f].kind is Dir {
                FileType::DIRECTORY
            } else {
                FileType::REGULAR
            },
        },
    }
}

/// The entry recorded for one traversal item under policy `pol`.
pub open spec fn entry_at(nodes: Seq<NodeV>, pol: Policy, p: Seq<char>, id: int) -> EntryV {
    match pol {
        Policy::Basic => basic_entry(nodes, p, id),
        Policy::Preserving => preserving_entry(nodes, p, id),
        Policy::Follow => follow_entry(nodes, p, id),
    }
}

/// The items the traversal appends to its queue after emitting the entry for
/// (`p`, `id`): one per child of the expand target, with logical paths joined
/// under `p` — under `Follow`, a followed directory symlink's children keep
/// logical paths rooted at the symlink's own location.
pub open spec fn frontier(nodes: Seq<NodeV>, pol: Policy, p: Seq<char>, id: int) -> Seq<ItemV> {
    match expand_target(nodes, pol, id) {
        Some(f) => children_of(nodes, f).map_values(
            |c: ChildV| ItemV { path: join(p, c.name), id: c.id },
        ),
        None => Seq::empty(),
    }
}

/// Whether a traversal item's node index lies inside the node table.
pub open spec fn item_ok(nodes: Seq<NodeV>, it: ItemV) -> bool {
    0 <= it.id < nodes.len()
}

/// Whether every item of a queue lies inside the node table.
pub open spec fn q_ok(nodes: Seq<NodeV>, q: Seq<ItemV>) -> bool {
    forall|j: int| 0 <= j < q.len() ==> item_ok(nodes, #[trigger] q[j])
}

/// Whether every child of a list points into the node table strictly after
/// `lo`.
pub open spec fn children_ok(nodes: Seq<NodeV>, cs: Seq<ChildV>, lo: int) -> bool {
    forall|j: int| 0 <= j < cs.len() ==> lo < #[trigger] cs[j].id < nodes.len()
}

/// The number of entries a scan emits for the subtree below one item holding
/// node `id` — the policy's node count of that subtree.
pub open spec fn esize(nodes: Seq<NodeV>, pol: Policy, id: int) -> nat
    decreases nodes.len() - id, 1int, 0int,
    when nodes_wf(nodes) && 0 <= id < nodes.len()
    via esize_decreases
{
    match expand_target(nodes, pol, id) {
        Some(f) => 1 + esize_list(nodes, pol, children_of(nodes, f), f),
        None => 1,
    }
}

/// The sum of `esize` over a list of children, all sitting strictly after
/// `lo` in the node table.
pub open spec fn esize_list(nodes: Seq<NodeV>, pol: Policy, cs: Seq<ChildV>, lo: int) -> nat
    decreases nodes.len() - lo, 0int, cs.len(),
    when nodes_wf(nodes) && 0 <= lo < nodes.len() && children_ok(nodes, cs, lo)
    via esize_list_decreases
{
    if cs.len() == 0 {
        0
    } else {
        esize(nodes, pol, cs[0].id) + esize_list(nodes, pol, cs.drop_first(), lo)
    }
}

#[via_fn]
proof fn esize_decreases(nodes: Seq<NodeV>, pol: Policy, id: int) {
    lemma_expand_target(nodes, pol, id);
}

#[via_fn]
proof fn esize_list_decreases(nodes: Seq<NodeV>, pol: Policy, cs: Seq<ChildV>, lo: int) {
    if cs.len() > 0 {
        assert(lo < cs[0].id < nodes.len());
    }
}

/// The expand target sits at or after its item's node, inside the table, is
/// a directory, and its children all point strictly after it.
pub proof fn lemma_expand_target(nodes: Seq<NodeV>, pol: Policy, id: int)
    requires
        nodes_wf(nodes),
        0 <= id < nodes.len(),
    ensures
        match expand_target(nodes, pol, id) {
            Some(f) => {
                &&& id <= f < nodes.len()
                &&& nodes[f].kind is Dir
                &&& children_ok(nodes, children_of(nodes, f), f)
            },
            None => true,
        },
{
    match pol {
        Policy::Preserving => {
            assert(node_edges_ok(nodes[id], id, nodes.len() as int));
        },
        _ => {
            crate::fstree::lemma_resolve(nodes, id);
            match resolve(nodes, id) {
                Some(f) => {
                    assert(node_edges_ok(nodes[f], f, nodes.len() as int));
                },
                None => {},
            }
        },
    }
}

/// The total number of entries still owed for a whole queue.
pub open spec fn qsize(nodes: Seq<NodeV>, pol: Policy, q: Seq<ItemV>) -> nat
    decreases q.len(),
{
    if q.len() == 0 {
        0
    } else {
        esize(nodes, pol, q[0].id) + qsize(nodes, pol, q.drop_first())
    }
}

/// `qsize` distributes over queue concatenation.
pub proof fn lemma_qsize_app(nodes: Seq<NodeV>, pol: Policy, a: Seq<ItemV>, b: Seq<ItemV>)
    ensures
        qsize(nodes, pol, a + b) == qsize(nodes, pol, a) + qsize(nodes, pol, b),
    decreases a.len(),
{
    if a.len() == 0 {
        assert(a + b =~= b);
    } else {
        assert((a + b).drop_first() =~= a.drop_first() + b);
        lemma_qsize_app(nodes, pol, a.drop_first(), b);
    }
}

/// Summing `esize` over the frontier items of a child list equals
/// `esize_list` of those children.
proof fn lemma_qsize_children(
    nodes: Seq<NodeV>,
    pol: Policy,
    cs: Seq<ChildV>,
    lo: int,
    p: Seq<char>,
)
    requires
        nodes_wf(nodes),
        0 <= lo < nodes.len(),
        children_ok(nodes, cs, lo),
    ensures
        qsize(nodes, pol, cs.map_values(|c: ChildV| ItemV { path: join(p, c.name), id: c.id }))
            == esize_list(nodes, pol, cs, lo),
    decreases cs.len(),
{
    let items = cs.map_values(|c: ChildV| ItemV { path: join(p, c.name), id: c.id });
    if cs.len() == 0 {
    } else {
        assert(items[0].id == cs[0].id);
        assert(items.drop_first() =~= cs.drop_first().map_values(
            |c: ChildV| ItemV { path: join(p, c.name), id: c.id },
        ));
        lemma_qsize_children(nodes, pol, cs.drop_first(), lo, p);
    }
}

/// Each visited item accounts for one entry plus whatever its frontier owes,
/// and the frontier's items all lie inside the node table.
pub proof fn lemma_esize_frontier(nodes: Seq<NodeV>, pol: Policy, p: Seq<char>, id: int)
    requires
        nodes_wf(nodes),
        0 <= id < nodes.len(),
    ensures
        esize(nodes, pol, id) == 1 + qsize(nodes, pol, frontier(nodes, pol, p, id)),
        q_ok(nodes, frontier(nodes, pol, p, id)),
{
    lemma_expand_target(nodes, pol, id);
    match expand_target(nodes, pol, id) {
        Some(f) => {
            lemma_qsize_children(nodes, pol, children_of(nodes, f), f, p);
        },
        None => {},
    }
}

/// Taking the head item off a queue and appending its frontier strictly
/// shrinks the total work owed, and keeps the queue inside the node table.
pub proof fn lemma_bfs_step(nodes: Seq<NodeV>, pol: Policy, q: Seq<ItemV>)
    requires
        nodes_wf(nodes),
        q_ok(nodes, q),
        q.len() > 0,
    ensures
        qsize(nodes, pol, q.drop_first() + frontier(nodes, pol, q[0].path, q[0].id))
            < qsize(nodes, pol, q),
        q_ok(nodes, q.drop_first() + frontier(nodes, pol, q[0].path, q[0].id)),
{
    let fr = frontier(nodes, pol, q[0].path, q[0].id);
    assert(item_ok(nodes, q[0]));
    lemma_esize_frontier(nodes, pol, q[0].path, q[0].id);
    lemma_qsize_app(nodes, pol, q.drop_first(), fr);
    assert forall|j: int| 0 <= j < (q.drop_first() + fr).len() implies item_ok(
        nodes,
        #[trigger] (q.drop_first() + fr)[j],
    ) by {
        if j < q.drop_first().len() {
            assert((q.drop_first() + fr)[j] == q[j + 1]);
        } else {
            assert((q.drop_first() + fr)[j] == fr[j - q.drop_first().len()]);
        }
    }
}

/// The ordered sequence of entries a breadth-first traversal emits for the
/// pending queue `q`: the head item's entry, then the entries for the rest of
/// the queue with the head's frontier appended at the back.
pub open spec fn bfs(nodes: Seq<NodeV>, pol: Policy, q: Seq<ItemV>) -> Seq<EntryV>
    decreases qsize(nodes, pol, q),
    when nodes_wf(nodes) && q_ok(nodes, q)
    via bfs_decreases
{
    if q.len() == 0 {
        Seq::empty()
    } else {
        seq![entry_at(nodes, pol, q[0].path, q[0].id)] + bfs(
            nodes,
            pol,
            q.drop_first() + frontier(nodes, pol, q[0].path, q[0].id),
        )
    }
}

#[via_fn]
proof fn bfs_decreases(nodes: Seq<NodeV>, pol: Policy, q: Seq<ItemV>) {
    if q.len() > 0 {
        lemma_bfs_step(nodes, pol, q);
    }
}

/// The number of symlink nodes the preserving traversal visits below one
/// item holding node `id` (symlinks are leaves of that traversal, so each
/// tree position counts at most once).
pub open spec fn lcount(nodes: Seq<NodeV>, id: int) -> nat
    decreases nodes.len() - id, 1int, 0int,
    when nodes_wf(nodes) && 0 <= id < nodes.len()
    via lcount_decreases
{
    match nodes[id].kind {
        NodeKindV::File => 0,
        NodeKindV::Dir { children } => lcount_list(nodes, children, id),
        NodeKindV::Link { .. } => 1,
    }
}

/// The sum of `lcount` over a list of children, all sitting strictly after
/// `lo` in the node table.
pub open spec fn lcount_list(nodes: Seq<NodeV>, cs: Seq<ChildV>, lo: int) -> nat
    decreases nodes.len() - lo, 0int, cs.len(),
    when nodes_wf(nodes) && 0 <= lo < nodes.len() && children_ok(nodes, cs, lo)
    via lcount_list_decreases
{
    if cs.len() == 0 {
        0
    } else {
        lcount(nodes, cs[0].id) + lcount_list(nodes, cs.drop_first(), lo)
    }
}

#[via_fn]
proof fn lcount_decreases(nodes: Seq<NodeV>, id: int) {
    assert(node_edges_ok(nodes[id], id, nodes.len() as int));
}

#[via_fn]
proof fn lcount_list_decreases(nodes: Seq<NodeV>, cs: Seq<ChildV>, lo: int) {
    if cs.len() > 0 {
        assert(lo < cs[0].id < nodes.len());
    }
}

/// The total `lcount` of a whole queue.
pub open spec fn qlcount(nodes: Seq<NodeV>, q: Seq<ItemV>) -> nat
    decreases q.len(),
{
    if q.len() == 0 {
        0
    } else {
        lcount(nodes, q[0].id) + qlcount(nodes, q.drop_first())
    }
}

/// `qlcount` distributes over queue concatenation.
pub proof fn lemma_qlcount_app(nodes: Seq<NodeV>, a: Seq<ItemV>, b: Seq<ItemV>)
    ensures
        qlcount(nodes, a + b) == qlcount(nodes, a) + qlcount(nodes, b),
    decreases a.len(),
{
    if a.len() == 0 {
        assert(a + b =~= b);
    } else {
        assert((a + b).drop_first() =~= a.drop_first() + b);
        lemma_qlcount_app(nodes, a.drop_first(), b);
    }
}

/// Summing `lcount` over the frontier items of a child list equals
/// `lcount_list` of those children.
proof fn lemma_qlcount_children(nodes: Seq<NodeV>, cs: Seq<ChildV>, lo: int, p: Seq<char>)
    requires
        nodes_wf(nodes),
        0 <= lo < nodes.len(),
        children_ok(nodes, cs, lo),
    ensures
        qlcount(nodes, cs.map_values(|c: ChildV| ItemV { path: join(p, c.name), id: c.id }))
            == lcount_list(nodes, cs, lo),
    decreases cs.len(),
{
    let items = cs.map_values(|c: ChildV| ItemV { path: join(p, c.name), id: c.id });
    if cs.len() == 0 {
    } else {
        assert(items[0].id == cs[0].id);
        assert(items.drop_first() =~= cs.drop_first().map_values(
            |c: ChildV| ItemV { path: join(p, c.name), id: c.id },
        ));
        lemma_qlcount_children(nodes, cs.drop_first(), lo, p);
    }
}

/// Under the preserving policy, a visited item contributes one symlink
/// exactly when its node is a symlink, and its frontier carries the rest of
/// its subtree's symlink count.
pub proof fn lemma_lcount_step(nodes: Seq<NodeV>, q: Seq<ItemV>)
    requires
        nodes_wf(nodes),
        q_ok(nodes, q),
        q.len() > 0,
    ensures
        qlcount(nodes, q) == (if nodes[q[0].id].kind is Link {
            1nat
        } else {
            0nat
        }) + qlcount(nodes, q.drop_first() + frontier(nodes, Policy::Preserving, q[0].path, q[0].id)),
{
    let fr = frontier(nodes, Policy::Preserving, q[0].path, q[0].id);
    assert(item_ok(nodes, q[0]));
    lemma_qlcount_app(nodes, q.drop_first(), fr);
    lemma_expand_target(nodes, Policy::Preserving, q[0].id);
    match nodes[q[0].id].kind {
        NodeKindV::Dir { children } => {
            assert(expand_target(nodes, Policy::Preserving, q[0].id) == Some(q[0].id));
            lemma_qlcount_children(nodes, children, q[0].id, q[0].path);
        },
        _ => {
            assert(fr =~= Seq::<ItemV>::empty());
        },
    }
}

/// The length of a breadth-first traversal's output is the total work of its
/// queue: one entry per visited tree position.
pub proof fn lemma_bfs_len(nodes: Seq<NodeV>, pol: Policy, q: Seq<ItemV>)
    requires
        nodes_wf(nodes),
        q_ok(nodes, q),
    ensures
        bfs(nodes, pol, q).len() == qsize(nodes, pol, q),
    decreases qsize(nodes, pol, q),
{
    if q.len() > 0 {
        lemma_bfs_step(nodes, pol, q);
        lemma_esize_frontier(nodes, pol, q[0].path, q[0].id);
        lemma_qsize_app(nodes, pol, q.drop_first(), frontier(nodes, pol, q[0].path, q[0].id));
        lemma_bfs_len(nodes, pol, q.drop_first() + frontier(nodes, pol, q[0].path, q[0].id));
    }
}

/// Under the preserving policy, the traversal records exactly the symlink
/// nodes of the scanned tree as entries carrying a one-hop target.
pub proof fn lemma_bfs_link_count(nodes: Seq<NodeV>, q: Seq<ItemV>)
    requires
        nodes_wf(nodes),
        q_ok(nodes, q),
    ensures
        bfs(nodes, Policy::Preserving, q).filter(|e: EntryV| e.symlink_path is Some).len()
            == qlcount(nodes, q),
    decreases qsize(nodes, Policy::Preserving, q),
{
    let pred = |e: EntryV| e.symlink_path is Some;
    if q.len() == 0 {
        assert(bfs(nodes, Policy::Preserving, q) =~= Seq::<EntryV>::empty());
        reveal(Seq::filter);
    } else {
        let e0 = entry_at(nodes, Policy::Preserving, q[0].path, q[0].id);
        let q2 = q.drop_first() + frontier(nodes, Policy::Preserving, q[0].path, q[0].id);
        lemma_bfs_step(nodes, Policy::Preserving, q);
        lemma_bfs_link_count(nodes, q2);
        lemma_lcount_step(nodes, q);
        Seq::<EntryV>::filter_distributes_over_add(
            seq![e0],
            bfs(nodes, Policy::Preserving, q2),
            pred,
        );
        assert(seq![e0].drop_last() =~= Seq::<EntryV>::empty());
        assert(seq![e0].last() == e0);
        reveal_with_fuel(Seq::filter, 3);
        assert(Seq::<EntryV>::empty().filter(pred).len() == 0);
        assert(seq![e0].filter(pred).len() == (if pred(e0) {
            1nat
        } else {
            0nat
        }));
        assert(item_ok(nodes, q[0]));
        assert(pred(e0) == (nodes[q[0].id].kind is Link));
    }
}

/// Every policy records an item's entry under the item's own logical path,
/// so every output path of a traversal extends some pending path — in
/// particular, the root's.
pub proof fn lemma_bfs_rooted(nodes: Seq<NodeV>, pol: Policy, q: Seq<ItemV>, root: Seq<char>)
    requires
        nodes_wf(nodes),
        q_ok(nodes, q),
        forall|j: int| 0 <= j < q.len() ==> root.is_prefix_of((#[trigger] q[j]).path),
    ensures
        forall|k: int| 0 <= k < bfs(nodes, pol, q).len() ==> root.is_prefix_of(
            (#[trigger] bfs(nodes, pol, q)[k]).path,
        ),
    decreases qsize(nodes, pol, q),
{
    if q.len() > 0 {
        let fr = frontier(nodes, pol, q[0].path, q[0].id);
        let q2 = q.drop_first() + fr;
        lemma_bfs_step(nodes, pol, q);
        assert forall|j: int| 0 <= j < q2.len() implies root.is_prefix_of(
            (#[trigger] q2[j]).path,
        ) by {
            if j < q.drop_first().len() {
                assert(q2[j] == q[j + 1]);
            } else {
                let i = j - q.drop_first().len();
                assert(q2[j] == fr[i]);
                match expand_target(nodes, pol, q[0].id) {
                    Some(f) => {
                        assert(fr[i].path == join(q[0].path, children_of(nodes, f)[i].name));
                        assert(root.is_prefix_of(q[0].path));
                        assert(root =~= join(q[0].path, children_of(nodes, f)[i].name).subrange(
                            0,
                            root.len() as int,
                        ));
                    },
                    None => {},
                }
            }
        }
        lemma_bfs_rooted(nodes, pol, q2, root);
        assert(entry_at(nodes, pol, q[0].path, q[0].id).path == q[0].path);
    }
}

/// Under the basic and follow policies no entry is a symlink: none carries a
/// one-hop target, none has kind `SYMLINK`, and under basic none is broken
/// either.
pub proof fn lemma_bfs_kinds(nodes: Seq<NodeV>, pol: Policy, q: Seq<ItemV>)
    requires
        nodes_wf(nodes),
        q_ok(nodes, q),
        pol is Basic || pol is Follow,
    ensures
        forall|k: int| 0 <= k < bfs(nodes, pol, q).len() ==> {
            let e = (#[trigger] bfs(nodes, pol, q)[k]);
            &&& e.symlink_path is None
            &&& !(e.file_type is SYMLINK)
            &&& (pol is Basic ==> (e.file_type is REGULAR || e.file_type is DIRECTORY))
        },
    decreases qsize(nodes, pol, q),
{
    if q.len() > 0 {
        lemma_bfs_step(nodes, pol, q);
        lemma_bfs_kinds(nodes, pol, q.drop_first() + frontier(nodes, pol, q[0].path, q[0].id));
    }
}

/// Under the preserving policy an entry of symlink kind (`SYMLINK`) or
/// broken kind (`NONE`) always records a symlink node, so it carries that
/// node's one-hop target.
pub proof fn lemma_preserving_kinds(nodes: Seq<NodeV>, q: Seq<ItemV>)
    requires
        nodes_wf(nodes),
        q_ok(nodes, q),
    ensures
        forall|k: int| 0 <= k < bfs(nodes, Policy::Preserving, q).len() ==> {
            let e = (#[trigger] bfs(nodes, Policy::Preserving, q)[k]);
            (e.file_type is SYMLINK || e.file_type is NONE) ==> e.symlink_path is Some
        },
    decreases qsize(nodes, Policy::Preserving, q),
{
    if q.len() > 0 {
        lemma_bfs_step(nodes, Policy::Preserving, q);
        lemma_preserving_kinds(
            nodes,
            q.drop_first() + frontier(nodes, Policy::Preserving, q[0].path, q[0].id),
        );
    }
}

/// The manifest one scan produces: `None` when the root is absent (under
/// `Follow`, also when the root's symlink chain does not resolve), the
/// policy's root short-circuit for a symlink root, else the breadth-first
/// traversal seeded with the root item.
pub open spec fn manifest(fs: FsV, pol: Policy, root: Seq<char>) -> Option<Seq<EntryV>> {
    match fs.root {
        None => None,
        Some(r) => match pol {
            Policy::Basic => if fs.nodes[r].kind is Link {
                Some(
                    seq![
                        EntryV {
                            path: root,
                            content_path: root,
                            symlink_path: None,
                            file_type: FileType::REGULAR,
                        },
                    ],
                )
            } else {
                Some(bfs(fs.nodes, pol, seq![ItemV { path: root, id: r }]))
            },
            Policy::Preserving => if fs.nodes[r].kind is Link {
                Some(seq![preserving_entry(fs.nodes, root, r)])
            } else {
                Some(bfs(fs.nodes, pol, seq![ItemV { path: root, id: r }]))
            },
            Policy::Follow => match resolve(fs.nodes, r) {
                None => None,
                Some(_) => Some(bfs(fs.nodes, pol, seq![ItemV { path: root, id: r }])),
            },
        },
    }
}

} // verus!
