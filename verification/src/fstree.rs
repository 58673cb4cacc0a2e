//! The filesystem snapshot model: the nodes a scan reads, their
//! well-formedness, and symlink-chain resolution.

use vstd::prelude::*;

verus! {

/// What one node of a filesystem snapshot is.
pub enum FsNodeKind {
    /// A regular file.
    File,
    /// A directory together with its direct children, in directory-read order.
    Dir { children: Vec<ChildRef> },
    /// A symbolic link: the one-hop target path exactly as stored in the link,
    /// and the snapshot node that the target path names. A target path that
    /// does not exist, or whose resolution could not be recorded (for example
    /// a link cycle), is represented by `target_id == None`.
    Link { target: String, target_id: Option<usize> },
}

/// A reference from a directory to one direct child.
pub struct ChildRef {
    /// The child's name within its directory.
    pub name: String,
    /// The index of the child's node in `Fs::nodes`.
    pub id: usize,
}

/// One node of a filesystem snapshot.
pub struct FsNode {
    /// The on-disk path of this node. For a node reached through a followed
    /// symlink, this is the path the node's bytes are actually read from.
    pub path: String,
    pub kind: FsNodeKind,
}

/// An immutable snapshot of the part of a filesystem that one scan reads:
/// a table of nodes, and the node found at the scanned root path, if any.
///
/// A snapshot is well-formed (`wf`) when every edge — from a directory to a
/// child, from a symlink to its target — points strictly forward in the node
/// table. Scans require this; it is what makes every traversal terminate.
pub struct Fs {
    pub nodes: Vec<FsNode>,
    /// The node at the scanned root path; `None` when that path does not
    /// exist (without following the root itself if it is a symlink).
    pub root: Option<usize>,
}

/// Mathematical image of a `ChildRef`.
pub struct ChildV {
    pub name: Seq<char>,
    pub id: int,
}

/// Mathematical image of an `FsNodeKind`.
pub enum NodeKindV {
    File,
    Dir { children: Seq<ChildV> },
    Link { target: Seq<char>, target_id: Option<int> },
}

/// Mathematical image of an `FsNode`.
pub struct NodeV {
    pub path: Seq<char>,
    pub kind: NodeKindV,
}

/// Mathematical image of an `Fs`.
pub struct FsV {
    pub nodes: Seq<NodeV>,
    pub root: Option<int>,
}

impl View for ChildRef {
    type V = ChildV;

    open spec fn view(&self) -> ChildV {
        ChildV { name: self.name@, id: self.id as int }
    }
}

impl View for FsNodeKind {
    type V = NodeKindV;

    open spec fn view(&self) -> NodeKindV {
        match self {
            FsNodeKind::File => NodeKindV::File,
            FsNodeKind::Dir { children } => NodeKindV::Dir {
                children: children@.map_values(|c: ChildRef| c@),
            },
            FsNodeKind::Link { target, target_id } => NodeKindV::Link {
                target: target@,
                target_id: match target_id {
                    Some(t) => Some(*t as int),
                    None => None,
                },
            },
        }
    }
}

impl View for FsNode {
    type V = NodeV;

    open spec fn view(&self) -> NodeV {
        NodeV { path: self.path@, kind: self.kind@ }
    }
}

impl View for Fs {
    type V = FsV;

    open spec fn view(&self) -> FsV {
        FsV {
            nodes: self.nodes@.map_values(|n: FsNode| n@),
            root: match self.root {
                Some(r) => Some(r as int),
                None => None,
            },
        }
    }
}

/// Every edge out of node `n`, which sits at index `i` of a table of `len`
/// nodes, points strictly forward and stays inside the table.
pub open spec fn node_edges_ok(n: NodeV, i: int, len: int) -> bool {
    match n.kind {
        NodeKindV::File => true,
        NodeKindV::Dir { children } => forall|j: int|
            0 <= j < children.len() ==> i < #[trigger] children[j].id < len,
        NodeKindV::Link { target_id, .. } => match target_id {
            Some(t) => i < t < len,
            None => true,
        },
    }
}

/// Every edge in the node table points strictly forward.
pub open spec fn nodes_wf(nodes: Seq<NodeV>) -> bool {
    forall|i: int| 0 <= i < nodes.len() ==> node_edges_ok(#[trigger] nodes[i], i, nodes.len() as int)
}

/// Well-formedness of a snapshot image: forward edges, root index in range.
pub open spec fn fsv_wf(fs: FsV) -> bool {
    &&& nodes_wf(fs.nodes)
    &&& match fs.root {
        Some(r) => 0 <= r < fs.nodes.len(),
        None => true,
    }
}

impl Fs {
    /// Well-formedness of a snapshot: forward edges, root index in range.
    pub open spec fn wf(&self) -> bool {
        fsv_wf(self@)
    }

    /// Decide well-formedness, so that unverified callers can establish `wf`
    /// before handing a snapshot to a scan.
    #[verifier::loop_isolation(false)]
    pub fn check_wf(&self) -> (b: bool)
        ensures
            b == self.wf(),
    {
        let n = self.nodes.len();
        match self.root {
            Some(r) => {
                if !(r < n) {
                    return false;
                }
            },
            None => {},
        }
        let mut i: usize = 0;
        while i < n
            invariant
                i <= n,
                forall|x: int| 0 <= x < i ==> node_edges_ok(#[trigger] self@.nodes[x], x, n as int),
            decreases n - i,
        {
            match &self.nodes[i].kind {
                FsNodeKind::File => {},
                FsNodeKind::Dir { children } => {
                    let ghost cv: Seq<ChildV> = match self@.nodes[i as int].kind {
                        NodeKindV::Dir { children: cs } => cs,
                        _ => Seq::empty(),
                    };
                    proof {
                        assert(self@.nodes[i as int] == self.nodes@[i as int]@);
                        assert(self@.nodes[i as int].kind == (NodeKindV::Dir { children: cv }));
                        assert(cv.len() == children@.len());
                    }
                    let mut j: usize = 0;
                    while j < children.len()
                        invariant
                            j <= children.len(),
                            cv.len() == children@.len(),
                            forall|y: int| 0 <= y < j ==> i < (#[trigger] cv[y]).id < n,
                        decreases children.len() - j,
                    {
                        let ch = &children[j];
                        if !(i < ch.id && ch.id < n) {
                            proof {
                                assert(cv[j as int] == children@[j as int]@);
                                assert(cv[j as int].id == ch.id as int);
                                assert(!(i < cv[j as int].id < n));
                                assert(!node_edges_ok(self@.nodes[i as int], i as int, n as int));
                            }
                            return false;
                        }
                        proof {
                            assert(cv[j as int] == children@[j as int]@);
                            assert(cv[j as int].id == ch.id as int);
                        }
                        j = j + 1;
                    }
                },
                FsNodeKind::Link { target_id, .. } => match target_id {
                    Some(t) => {
                        if !(i < *t && *t < n) {
                            proof {
                                assert(!node_edges_ok(self@.nodes[i as int], i as int, n as int));
                            }
                            return false;
                        }
                    },
                    None => {},
                },
            }
            proof {
                assert(node_edges_ok(self@.nodes[i as int], i as int, n as int));
            }
            i = i + 1;
        }
        true
    }
}

/// Follow a chain of symlinks from node `id` until the first node that is not
/// a symlink; `None` when some hop's target does not exist. Meaningful on
/// well-formed tables, where every hop moves strictly forward.
pub open spec fn resolve(nodes: Seq<NodeV>, id: int) -> Option<int>
    decreases nodes.len() - id,
    when nodes_wf(nodes) && 0 <= id < nodes.len()
{
    match nodes[id].kind {
        NodeKindV::Link { target_id, .. } => match target_id {
            Some(t) => resolve(nodes, t),
            None => None,
        },
        _ => Some(id),
    }
}

/// Resolution lands on a non-link node at or after the start of the chain.
pub proof fn lemma_resolve(nodes: Seq<NodeV>, id: int)
    requires
        nodes_wf(nodes),
        0 <= id < nodes.len(),
    ensures
        match resolve(nodes, id) {
            Some(f) => id <= f < nodes.len() && !(nodes[f].kind is Link),
            None => true,
        },
    decreases nodes.len() - id,
{
    match nodes[id].kind {
        NodeKindV::Link { target_id, .. } => match target_id {
            Some(t) => lemma_resolve(nodes, t),
            None => {},
        },
        _ => {},
    }
}

/// The spec-level image of an optional node index.
pub open spec fn opt_id_view(r: Option<usize>) -> Option<int> {
    match r {
        Some(f) => Some(f as int),
        None => None,
    }
}

/// Walk the symlink chain starting at node `id`; the executable counterpart
/// of `resolve`.
pub fn resolve_node(fs: &Fs, id: usize) -> (r: Option<usize>)
    requires
        fs.wf(),
        id < fs@.nodes.len(),
    ensures
        opt_id_view(r) == resolve(fs@.nodes, id as int),
{
    let mut cur = id;
    loop
        invariant
            fs.wf(),
            cur < fs@.nodes.len(),
            resolve(fs@.nodes, cur as int) == resolve(fs@.nodes, id as int),
        decreases fs@.nodes.len() - cur,
    {
        match &fs.nodes[cur].kind {
            FsNodeKind::Link { target_id, .. } => match target_id {
                Some(t) => {
                    proof {
                        assert(fs@.nodes[cur as int] == fs.nodes@[cur as int]@);
                    }
                    cur = *t;
                },
                None => {
                    return None;
                },
            },
            _ => {
                return Some(cur);
            },
        }
    }
}

} // verus!
