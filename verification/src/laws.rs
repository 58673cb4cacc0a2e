//! The library's stated laws, proved once from the manifest specification:
//! absent roots, per-policy entry counts and kinds, symlink accounting,
//! logical-path rooting, and determinism of rescans.

use vstd::prelude::*;

use crate::filter::{EntryV, Filter};
use crate::fstree::{fsv_wf, resolve, FsV};
use crate::manifest::{
    esize, item_ok, lcount, lemma_bfs_kinds, lemma_bfs_len, lemma_bfs_link_count,
    lemma_bfs_rooted, manifest, q_ok, qlcount, qsize, ItemV, Policy,
};

verus! {

/// A scan yields the absent manifest exactly when its root is missing: under
/// every policy a nonexistent root path gives `None` — distinguishable from
/// a present, merely child-less manifest — and under the follow policy so
/// does a root whose symlink chain cannot be resolved.
pub proof fn lemma_absent_root(fs: FsV, pol: Policy, root: Seq<char>)
    ensures
        (manifest(fs, pol, root) is None) == (match fs.root {
            None => true,
            Some(r) => pol is Follow && resolve(fs.nodes, r) is None,
        }),
{
    match fs.root {
        None => {
        },
        Some(r) => {
            match pol {
                Policy::Basic => {
                },
                Policy::Preserving => {
                },
                Policy::Follow => {
                },
            }
        },
    }
}

/// The root item as a singleton queue, with the facts the traversal lemmas
/// need about it.
proof fn lemma_root_queue(fs: FsV, pol: Policy, root: Seq<char>, r: int)
    requires
        fsv_wf(fs),
        fs.root == Some(r),
    ensures
        q_ok(fs.nodes, seq![ItemV { path: root, id: r }]),
        qsize(fs.nodes, pol, seq![ItemV { path: root, id: r }]) == esize(fs.nodes, pol, r),
        qlcount(fs.nodes, seq![ItemV { path: root, id: r }]) == lcount(fs.nodes, r),
{
    let q = seq![ItemV { path: root, id: r }];
    assert forall|j: int| 0 <= j < q.len() implies item_ok(fs.nodes, #[trigger] q[j]) by {
        assert(q[j] == q[0]);
    }
    assert(q.drop_first() =~= Seq::<ItemV>::empty());
    assert(qsize(fs.nodes, pol, q.drop_first()) == 0);
    assert(qlcount(fs.nodes, q.drop_first()) == 0);
}

/// Basic policy: a present manifest has exactly one entry per filesystem
/// node of the scanned tree — symlinks counted as the kind of their resolved
/// target, a directory symlink contributing its target's subtree — and every
/// entry is `REGULAR` or `DIRECTORY`, never a symlink and never broken. A
/// symlink root short-circuits the scan to a single regular entry.
pub proof fn lemma_basic_scan_shape(fs: FsV, root: Seq<char>)
    requires
        fsv_wf(fs),
    ensures
        match manifest(fs, Policy::Basic, root) {
            Some(m) => {
                &&& forall|k: int| 0 <= k < m.len() ==> (#[trigger] m[k]).symlink_path is None && (
                m[k].file_type is REGULAR || m[k].file_type is DIRECTORY)
                &&& match fs.root {
                    Some(r) => m.len() == (if fs.nodes[r].kind is Link {
                        1nat
                    } else {
                        esize(fs.nodes, Policy::Basic, r)
                    }),
                    None => false,
                }
            },
            None => fs.root is None,
        },
{
    match fs.root {
        None => {
        },
        Some(r) => {
            if !(fs.nodes[r].kind is Link) {
                let q = seq![ItemV { path: root, id: r }];
                lemma_root_queue(fs, Policy::Basic, root, r);
                lemma_bfs_len(fs.nodes, Policy::Basic, q);
                lemma_bfs_kinds(fs.nodes, Policy::Basic, q);
            }
        },
    }
}

/// Preserving policy: a present manifest has exactly one entry per node of
/// the scanned tree (symlinks standing as their own leaf nodes), and the
/// entries carrying a one-hop target are exactly as many as the tree's
/// symlink nodes.
pub proof fn lemma_preserving_scan_shape(fs: FsV, root: Seq<char>)
    requires
        fsv_wf(fs),
    ensures
        match manifest(fs, Policy::Preserving, root) {
            Some(m) => match fs.root {
                Some(r) => {
                    &&& m.len() == esize(fs.nodes, Policy::Preserving, r)
                    &&& m.filter(|e: EntryV| e.symlink_path is Some).len() == lcount(fs.nodes, r)
                    &&& forall|k: int| 0 <= k < m.len() ==> (((#[trigger] m[k]).file_type
                        is SYMLINK || m[k].file_type is NONE) ==> m[k].symlink_path is Some)
                },
                None => false,
            },
            None => fs.root is None,
        },
{
    let pred = |e: EntryV| e.symlink_path is Some;
    match fs.root {
        None => {
        },
        Some(r) => {
            if fs.nodes[r].kind is Link {
                let m = seq![crate::manifest::preserving_entry(fs.nodes, root, r)];
                assert(pred(m[0]));
                assert(m.drop_last() =~= Seq::<EntryV>::empty());
                reveal_with_fuel(Seq::filter, 3);
                assert(m.filter(pred).len() == 1);
                assert(esize(fs.nodes, Policy::Preserving, r) == 1);
                assert(lcount(fs.nodes, r) == 1);
            } else {
                let q = seq![ItemV { path: root, id: r }];
                lemma_root_queue(fs, Policy::Preserving, root, r);
                lemma_bfs_len(fs.nodes, Policy::Preserving, q);
                lemma_bfs_link_count(fs.nodes, q);
                crate::manifest::lemma_preserving_kinds(fs.nodes, q);
            }
        },
    }
}

/// Follow policy: a present manifest eliminates symlinks — no entry has kind
/// `SYMLINK` and none carries a one-hop target — and has one entry per
/// filesystem node reachable through the followed tree, a directory symlink
/// contributing its resolved target's subtree under the symlink's own path.
pub proof fn lemma_follow_scan_shape(fs: FsV, root: Seq<char>)
    requires
        fsv_wf(fs),
    ensures
        match manifest(fs, Policy::Follow, root) {
            Some(m) => {
                &&& forall|k: int| 0 <= k < m.len() ==> (#[trigger] m[k]).symlink_path is None
                    && !(m[k].file_type is SYMLINK)
                &&& match fs.root {
                    Some(r) => m.len() == esize(fs.nodes, Policy::Follow, r),
                    None => false,
                }
            },
            None => match fs.root {
                None => true,
                Some(r) => resolve(fs.nodes, r) is None,
            },
        },
{
    match fs.root {
        None => {
        },
        Some(r) => {
            match resolve(fs.nodes, r) {
                None => {
                },
                Some(_) => {
                    let q = seq![ItemV { path: root, id: r }];
                    lemma_root_queue(fs, Policy::Follow, root, r);
                    lemma_bfs_len(fs.nodes, Policy::Follow, q);
                    lemma_bfs_kinds(fs.nodes, Policy::Follow, q);
                },
            }
        },
    }
}

/// Every entry's logical path extends the scanned root path, under every
/// policy: the manifest mirrors the root's location, never a resolution
/// target's.
pub proof fn lemma_scan_rooted(fs: FsV, pol: Policy, root: Seq<char>)
    requires
        fsv_wf(fs),
    ensures
        match manifest(fs, pol, root) {
            Some(m) => forall|k: int| 0 <= k < m.len() ==> root.is_prefix_of(
                (#[trigger] m[k]).path,
            ),
            None => true,
        },
{
    assert(root.is_prefix_of(root)) by {
        assert(root =~= root.subrange(0, root.len() as int));
    }
    match fs.root {
        None => {
        },
        Some(r) => {
            let q = seq![ItemV { path: root, id: r }];
            lemma_root_queue(fs, pol, root, r);
            assert forall|j: int| 0 <= j < q.len() implies root.is_prefix_of(
                (#[trigger] q[j]).path,
            ) by {
                assert(q[j] == q[0]);
            }
            lemma_bfs_rooted(fs.nodes, pol, q, root);
        },
    }
}

/// Scanning the same unchanged snapshot twice with the same policy and the
/// same root yields identical manifests: a completed scan's outcome is a
/// function of snapshot, policy and root alone.
pub proof fn lemma_rescan_agrees<F: Filter>(a: F, b: F, fs: FsV)
    requires
        a.root_view() == b.root_view(),
        a.files_view() == manifest(fs, F::policy(), a.root_view()),
        b.files_view() == manifest(fs, F::policy(), b.root_view()),
    ensures
        a.files_view() == b.files_view(),
{
}

} // verus!
