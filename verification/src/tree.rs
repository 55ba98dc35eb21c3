//! The arena-backed UI node tree.  Nodes live in a flat vector and refer to
//! each other by arena index; [`NodeId`]s are stable identifiers handed out
//! once and never reused.  Removing a node leaves tombstones behind until
//! [`NodeTree::compact`] reclaims them.

use vstd::prelude::*;

use crate::input::NodeId;
use crate::widget::NodeRole;

verus! {

/// What a node displays.
#[derive(Debug, Clone, Copy, PartialEq, Eq, Structural)]
pub enum NodeKind {
    Container,
    Text,
    Image,
}

impl Default for NodeKind {
    fn default() -> (k: Self)
        ensures
            k == NodeKind::Container,
    {
        NodeKind::Container
    }
}

/// The identifier that marks a removed arena slot.
pub open spec fn tombstone() -> NodeId {
    NodeId(u64::MAX)
}

/// Abstract state of one arena slot.
pub struct NodeView {
    pub id: NodeId,
    pub kind: NodeKind,
    pub role: NodeRole,
    /// Arena indices of the children, in order.
    pub children: Seq<usize>,
    /// Arena index of the parent; `None` for the root.
    pub parent: Option<usize>,
    /// Whether the node changed since the dirty set was last flushed.
    pub dirty: bool,
}

/// Abstract state of a [`NodeTree`].
pub struct TreeView {
    pub nodes: Seq<NodeView>,
    /// The identifier the next added node receives.
    pub next_id: u64,
}

impl TreeView {
    /// Slot `i` holds a node that has not been removed.
    pub open spec fn live(self, i: int) -> bool {
        0 <= i < self.nodes.len() && self.nodes[i].id != tombstone()
    }

    /// Slot `i` holds the live node `id`.
    pub open spec fn holds(self, i: int, id: NodeId) -> bool {
        self.live(i) && self.nodes[i].id == id
    }

    /// The tree holds a live node `id`.
    pub open spec fn contains(self, id: NodeId) -> bool {
        exists|i: int| self.holds(i, id)
    }

    /// The slot of the live node `id`, or -1.
    pub open spec fn index_of(self, id: NodeId) -> int {
        if self.contains(id) {
            choose|i: int| self.holds(i, id)
        } else {
            -1
        }
    }

    /// Slot `b` lies in the subtree rooted at slot `a` (following parents).
    pub open spec fn in_subtree(self, a: int, b: int) -> bool
        decreases b,
    {
        if b == a {
            true
        } else if b < a || b >= self.nodes.len() {
            false
        } else {
            match self.nodes[b].parent {
                Option::Some(p) => p < b && self.in_subtree(a, p as int),
                Option::None => false,
            }
        }
    }

    /// Structural well-formedness: the root sits in slot 0, live identifiers
    /// are distinct and were handed out already, and live parents and
    /// children point at each other (parents always precede children).
    pub open spec fn wf(self) -> bool {
        &&& 1 <= self.nodes.len() <= usize::MAX
        &&& self.nodes[0].id == NodeId(0)
        &&& self.nodes[0].parent is None
        &&& self.next_id >= 1
        &&& forall|i: int, j: int|
            #![trigger self.nodes[i].id, self.nodes[j].id]
            self.live(i) && self.live(j) && i != j ==> self.nodes[i].id != self.nodes[j].id
        &&& forall|i: int| #[trigger] self.live(i) ==> self.nodes[i].id.0 < self.next_id
        &&& forall|i: int|
            #[trigger] self.live(i) && i > 0 ==> {
                &&& self.nodes[i].parent is Some
                &&& self.nodes[i].parent->0 < i
                &&& self.live(self.nodes[i].parent->0 as int)
                &&& self.nodes[self.nodes[i].parent->0 as int].children.contains(i as usize)
            }
        &&& forall|i: int, k: int|
            #![trigger self.nodes[i].children[k]]
            self.live(i) && 0 <= k < self.nodes[i].children.len() ==> {
                &&& i < self.nodes[i].children[k]
                &&& self.live(self.nodes[i].children[k] as int)
                &&& self.nodes[self.nodes[i].children[k] as int].parent == Option::Some(i as usize)
            }
    }

    /// The identifiers of the children of the live node at slot `i`.
    pub open spec fn child_ids(self, i: int) -> Seq<NodeId> {
        self.nodes[i].children.map_values(|c: usize| self.nodes[c as int].id)
    }

    /// The tree after adding a `kind` node under the live slot `p`.
    pub open spec fn after_add(self, p: int, kind: NodeKind) -> TreeView {
        let new_index = self.nodes.len() as usize;
        TreeView {
            nodes: self.nodes.update(
                p,
                NodeView { children: self.nodes[p].children.push(new_index), ..self.nodes[p] },
            ).push(
                NodeView {
                    id: NodeId(self.next_id),
                    kind,
                    role: NodeRole::NoRole,
                    children: Seq::empty(),
                    parent: Option::Some(p as usize),
                    dirty: true,
                },
            ),
            next_id: (self.next_id + 1) as u64,
        }
    }

    /// The tree after compaction: tombstones are dropped and the remaining
    /// slots keep their order.
    pub open spec fn after_compact(self) -> TreeView {
        TreeView { nodes: compacted(self.nodes, self.nodes.len() as int), next_id: self.next_id }
    }

    /// The tree after removing the subtree rooted at the live slot `r`: its
    /// slots become tombstones and it is detached from its parent.
    pub open spec fn after_remove(self, r: int) -> TreeView {
        let p = self.nodes[r].parent->0 as int;
        TreeView {
            nodes: Seq::new(
                self.nodes.len(),
                |j: int|
                    {
                        let n = if j == p {
                            NodeView {
                                children: self.nodes[j].children.filter(not_index(r as usize)),
                                ..self.nodes[j]
                            }
                        } else {
                            self.nodes[j]
                        };
                        if self.in_subtree(r, j) {
                            NodeView { id: tombstone(), ..n }
                        } else {
                            n
                        }
                    },
            ),
            next_id: self.next_id,
        }
    }
}

/// The predicate "is not `x`".
pub open spec fn not_index(x: usize) -> spec_fn(usize) -> bool {
    |c: usize| c != x
}

/// Whether an arena slot holds a node that has not been removed.
pub open spec fn is_live(n: NodeView) -> bool {
    n.id != tombstone()
}

/// The identifiers of the live dirty nodes among `nodes`, in arena order.
pub open spec fn dirty_ids(nodes: Seq<NodeView>) -> Seq<NodeId>
    decreases nodes.len(),
{
    if nodes.len() == 0 {
        Seq::empty()
    } else {
        let last = nodes.last();
        dirty_ids(nodes.drop_last()) + (if is_live(last) && last.dirty {
            seq![last.id]
        } else {
            Seq::empty()
        })
    }
}

/// A slot after its dirty flag has been collected: live nodes become clean.
pub open spec fn cleaned(n: NodeView) -> NodeView {
    NodeView { dirty: n.dirty && !is_live(n), ..n }
}

/// A slot marked as changed.
pub open spec fn marked(n: NodeView) -> NodeView {
    NodeView { dirty: true, ..n }
}

/// The number of live slots among the first `n` slots.
pub open spec fn live_count(nodes: Seq<NodeView>, n: int) -> nat
    decreases n,
{
    if n <= 0 {
        0
    } else {
        live_count(nodes, n - 1) + (if is_live(nodes[n - 1]) {
            1nat
        } else {
            0nat
        })
    }
}

/// A live slot moved by compaction: its parent and children now refer to
/// the compacted arena positions.
pub open spec fn remapped(nodes: Seq<NodeView>, node: NodeView) -> NodeView {
    NodeView {
        children: node.children.map_values(|c: usize| live_count(nodes, c as int) as usize),
        parent: match node.parent {
            Option::Some(p) => Option::Some(live_count(nodes, p as int) as usize),
            Option::None => Option::None,
        },
        ..node
    }
}

/// The live slots among the first `n`, in order, remapped.
pub open spec fn compacted(nodes: Seq<NodeView>, n: int) -> Seq<NodeView>
    decreases n,
{
    if n <= 0 {
        Seq::empty()
    } else {
        compacted(nodes, n - 1) + (if is_live(nodes[n - 1]) {
            seq![remapped(nodes, nodes[n - 1])]
        } else {
            Seq::empty()
        })
    }
}

/// The tree that [`NodeTree::new`] builds: the root alone.
pub open spec fn initial_tree() -> TreeView {
    TreeView {
        nodes: seq![
            NodeView {
                id: NodeId(0),
                kind: NodeKind::Container,
                role: NodeRole::NoRole,
                children: Seq::<usize>::empty(),
                parent: Option::<usize>::None,
                dirty: true,
            },
        ],
        next_id: 1,
    }
}

/// A node of the tree.
pub struct Node {
    pub id: NodeId,
    pub kind: NodeKind,
    /// Accessibility role.
    pub role: NodeRole,
    children: Vec<usize>,
    parent: Option<usize>,
    dirty: bool,
}

impl View for Node {
    type V = NodeView;

    closed spec fn view(&self) -> NodeView {
        NodeView {
            id: self.id,
            kind: self.kind,
            role: self.role,
            children: self.children@,
            parent: self.parent,
            dirty: self.dirty,
        }
    }
}

impl Node {
    fn new(id: NodeId, kind: NodeKind, parent: Option<usize>) -> (n: Self)
        ensures
            n@ == (NodeView {
                id,
                kind,
                role: NodeRole::NoRole,
                children: Seq::empty(),
                parent,
                dirty: true,
            }),
    {
        Node { id, kind, role: NodeRole::NoRole, children: Vec::new(), parent, dirty: true }
    }

    /// Whether the node has changed since the last flush of the dirty set.
    pub fn is_dirty(&self) -> (b: bool)
        ensures
            b == self@.dirty,
    {
        self.dirty
    }
}

/// Arena-based UI node tree.
pub struct NodeTree {
    nodes: Vec<Node>,
    next_id: u64,
}

impl View for NodeTree {
    type V = TreeView;

    closed spec fn view(&self) -> TreeView {
        TreeView { nodes: self.nodes@.map_values(|n: Node| n@), next_id: self.next_id }
    }
}

impl NodeTree {
    /// A tree holding only the root node.
    pub fn new() -> (t: Self)
        ensures
            t@.wf(),
            t@ == initial_tree(),
    {
        let mut nodes: Vec<Node> = Vec::new();
        nodes.push(Node::new(NodeId(0), NodeKind::Container, None));
        let t = NodeTree { nodes, next_id: 1 };
        assert(t@.nodes[0].id == NodeId(0));
        assert(t@.nodes =~= initial_tree().nodes);
        t
    }

    /// The number of arena slots, tombstones included.
    pub fn len(&self) -> (n: usize)
        ensures
            n == self@.nodes.len(),
    {
        self.nodes.len()
    }

    /// Whether the arena holds no slot at all (never the case for a tree
    /// built by [`NodeTree::new`], which always holds the root).
    pub fn is_empty(&self) -> (b: bool)
        ensures
            b == (self@.nodes.len() == 0),
    {
        self.nodes.len() == 0
    }

    fn find(&self, id: NodeId) -> (r: Option<usize>)
        requires
            self@.wf(),
        ensures
            match r {
                Option::None => !self@.contains(id),
                Option::Some(i) => self@.holds(i as int, id) && self@.index_of(id) == i,
            },
    {
        if id == NodeId(u64::MAX) {
            return None;
        }
        let mut i: usize = 0;
        while i < self.nodes.len()
            invariant
                i <= self.nodes@.len(),
                self@.wf(),
                id != tombstone(),
                forall|k: int| 0 <= k < i ==> !#[trigger] self@.holds(k, id),
            decreases self.nodes@.len() - i,
        {
            if self.nodes[i].id == id {
                assert(self@.holds(i as int, id));
                proof {
                    lemma_index_of(self@, i as int, id);
                }
                return Some(i);
            }
            i = i + 1;
        }
        None
    }

    /// Whether a live node `id` is in the tree.
    pub fn contains(&self, id: NodeId) -> (b: bool)
        requires
            self@.wf(),
        ensures
            b == self@.contains(id),
    {
        self.find(id).is_some()
    }

    /// Returns the live node `id`, if any.
    pub fn get(&self, id: NodeId) -> (r: Option<&Node>)
        requires
            self@.wf(),
        ensures
            match r {
                Option::None => !self@.contains(id),
                Option::Some(n) => self@.contains(id) && n@ == self@.nodes[self@.index_of(id)],
            },
    {
        match self.find(id) {
            Some(i) => Some(&self.nodes[i]),
            None => None,
        }
    }

    /// Adds a new `kind` node as the last child of `parent_id` and returns
    /// its identifier.  The parent must be a live node of the tree.
    pub fn add_node(&mut self, parent_id: NodeId, kind: NodeKind) -> (id: NodeId)
        requires
            old(self)@.wf(),
            old(self)@.contains(parent_id),
            old(self)@.next_id < u64::MAX - 1,
        ensures
            final(self)@.wf(),
            id == NodeId(old(self)@.next_id),
            final(self)@ == old(self)@.after_add(old(self)@.index_of(parent_id), kind),
            final(self)@.contains(id),
            final(self)@.index_of(id) == old(self)@.nodes.len(),
            forall|other: NodeId| #[trigger] old(self)@.contains(other) ==> final(self)@.contains(other)
                && final(self)@.index_of(other) == old(self)@.index_of(other),
    {
        let p = match self.find(parent_id) {
            Some(p) => p,
            None => {
                assert(false);
                return NodeId(0);
            },
        };
        let ghost old_v = self@;
        let new_id = NodeId(self.next_id);
        let new_index = self.nodes.len();
        let mut parent_node = self.nodes.remove(p);
        parent_node.children.push(new_index);
        self.nodes.insert(p, parent_node);
        self.nodes.push(Node::new(new_id, kind, Some(p)));
        let grown_len = self.nodes.len();
        assert(grown_len == old_v.nodes.len() + 1);
        self.next_id = self.next_id + 1;
        proof {
            let v = self@;
            let target = old_v.after_add(p as int, kind);
            assert(v.nodes =~= target.nodes);
            assert(v == target);
            lemma_after_add_wf(old_v, p as int, kind);
            assert(v.holds(new_index as int, new_id));
            lemma_index_of(v, new_index as int, new_id);
            assert forall|other: NodeId| #[trigger] old_v.contains(other) implies v.contains(other)
                && v.index_of(other) == old_v.index_of(other) by {
                let k = old_v.index_of(other);
                lemma_index_of(old_v, choose|i: int| old_v.holds(i, other), other);
                assert(v.nodes[k].id == old_v.nodes[k].id);
                assert(v.holds(k, other));
                lemma_index_of(v, k, other);
            }
        }
        new_id
    }

    /// Sets the accessibility role of node `id`; `false` if it is absent.
    pub fn set_role(&mut self, id: NodeId, role: NodeRole) -> (found: bool)
        requires
            old(self)@.wf(),
        ensures
            final(self)@.wf(),
            found == old(self)@.contains(id),
            final(self)@ == (if found {
                TreeView {
                    nodes: old(self)@.nodes.update(
                        old(self)@.index_of(id),
                        NodeView { role, ..old(self)@.nodes[old(self)@.index_of(id)] },
                    ),
                    ..old(self)@
                }
            } else {
                old(self)@
            }),
    {
        let i = match self.find(id) {
            Some(i) => i,
            None => return false,
        };
        let ghost old_v = self@;
        let mut n = self.nodes.remove(i);
        n.role = role;
        self.nodes.insert(i, n);
        proof {
            let target = TreeView {
                nodes: old_v.nodes.update(i as int, NodeView { role, ..old_v.nodes[i as int] }),
                ..old_v
            };
            assert(self@.nodes =~= target.nodes);
            lemma_same_shape_wf(old_v, self@);
        }
        true
    }

    /// Removes node `id` and its whole subtree.  The root cannot be removed;
    /// returns `false` (and changes nothing) for the root or an absent node.
    /// The freed slots stay in the arena as tombstones until [`compact`].
    ///
    /// [`compact`]: NodeTree::compact
    pub fn remove_node(&mut self, id: NodeId) -> (removed: bool)
        requires
            old(self)@.wf(),
        ensures
            final(self)@.wf(),
            removed == (id != NodeId(0) && old(self)@.contains(id)),
            final(self)@ == (if removed {
                old(self)@.after_remove(old(self)@.index_of(id))
            } else {
                old(self)@
            }),
    {
        if id == NodeId(0) {
            return false;
        }
        let r = match self.find(id) {
            Some(r) => r,
            None => return false,
        };
        let ghost old_v = self@;
        assert(r > 0) by {
            if r == 0 {
                assert(old_v.nodes[0].id == NodeId(0));
            }
        }
        assert(old_v.live(r as int));
        let p = match self.nodes[r].parent {
            Some(p) => p,
            None => { return false; },
        };
        // Detach from the parent.
        let mut parent_node = self.nodes.remove(p);
        parent_node.children = without_index(&parent_node.children, r);
        self.nodes.insert(p, parent_node);
        // Every slot of the subtree follows its root in the arena, so one
        // sweep over the later slots finds them all through their parents.
        let n = self.nodes.len();
        let mut marked: Vec<bool> = Vec::new();
        let mut k: usize = 0;
        while k < r
            invariant
                k <= r,
                marked@.len() == k,
                forall|q: int| 0 <= q < k ==> !marked@[q],
            decreases r - k,
        {
            marked.push(false);
            k = k + 1;
        }
        let mut j: usize = r;
        while j < n
            invariant
                r <= j <= n,
                n == old_v.nodes.len(),
                0 < r < n,
                p as int == old_v.nodes[r as int].parent->0,
                marked@.len() == j,
                forall|q: int| 0 <= q < j ==> marked@[q] == old_v.in_subtree(r as int, q),
                self@.nodes.len() == n,
                self@.next_id == old_v.next_id,
                forall|q: int|
                    0 <= q < n ==> #[trigger] self@.nodes[q] == (if q < j {
                        old_v.after_remove(r as int).nodes[q]
                    } else if q == p {
                        NodeView {
                            children: old_v.nodes[q].children.filter(not_index(r)),
                            ..old_v.nodes[q]
                        }
                    } else {
                        old_v.nodes[q]
                    }),
            decreases n - j,
        {
            let inside = if j == r {
                true
            } else {
                match self.nodes[j].parent {
                    Some(q) => q >= r && q < j && marked[q],
                    None => false,
                }
            };
            proof {
                assert(self@.nodes[j as int].parent == old_v.nodes[j as int].parent);
                assert(inside == old_v.in_subtree(r as int, j as int));
            }
            marked.push(inside);
            if inside {
                let mut node = self.nodes.remove(j);
                node.id = NodeId(u64::MAX);
                self.nodes.insert(j, node);
            }
            j = j + 1;
        }
        proof {
            assert(self@.nodes =~= old_v.after_remove(r as int).nodes);
            lemma_after_remove_wf(old_v, r as int);
        }
        true
    }

    /// Marks node `id` as changed; `false` if it is absent.
    pub fn mark_dirty(&mut self, id: NodeId) -> (found: bool)
        requires
            old(self)@.wf(),
        ensures
            final(self)@.wf(),
            found == old(self)@.contains(id),
            final(self)@ == (if found {
                TreeView {
                    nodes: old(self)@.nodes.update(
                        old(self)@.index_of(id),
                        NodeView { dirty: true, ..old(self)@.nodes[old(self)@.index_of(id)] },
                    ),
                    ..old(self)@
                }
            } else {
                old(self)@
            }),
    {
        let i = match self.find(id) {
            Some(i) => i,
            None => return false,
        };
        let ghost old_v = self@;
        let mut n = self.nodes.remove(i);
        n.dirty = true;
        self.nodes.insert(i, n);
        proof {
            let target = TreeView {
                nodes: old_v.nodes.update(i as int, NodeView { dirty: true, ..old_v.nodes[i as int] }),
                ..old_v
            };
            assert(self@.nodes =~= target.nodes);
            lemma_same_shape_wf(old_v, self@);
        }
        true
    }

    /// Marks every slot dirty (useful after a resize).
    pub fn mark_all_dirty(&mut self)
        requires
            old(self)@.wf(),
        ensures
            final(self)@.wf(),
            final(self)@.next_id == old(self)@.next_id,
            final(self)@.nodes == old(self)@.nodes.map_values(|n: NodeView| marked(n)),
    {
        let ghost old_v = self@;
        let n = self.nodes.len();
        let mut i: usize = 0;
        while i < n
            invariant
                i <= n,
                n == old_v.nodes.len(),
                self@.next_id == old_v.next_id,
                self@.nodes.len() == n,
                forall|k: int|
                    0 <= k < n ==> #[trigger] self@.nodes[k] == (if k < i {
                        marked(old_v.nodes[k])
                    } else {
                        old_v.nodes[k]
                    }),
            decreases n - i,
        {
            let ghost before = self@;
            assert(before.nodes[i as int] == old_v.nodes[i as int]);
            self.nodes[i].dirty = true;
            assert(self@.nodes[i as int] == marked(old_v.nodes[i as int]));
            assert(forall|k: int| 0 <= k < n && k != i ==> self@.nodes[k] == before.nodes[k]);
            assert forall|k: int| 0 <= k < n implies #[trigger] self@.nodes[k] == (if k < i + 1 {
                marked(old_v.nodes[k])
            } else {
                old_v.nodes[k]
            }) by {
                if k != i {
                    assert(self@.nodes[k] == before.nodes[k]);
                    assert(before.nodes[k] == (if k < i { marked(old_v.nodes[k]) } else { old_v.nodes[k] }));
                }
            }
            i = i + 1;
        }
        proof {
            assert(self@.nodes =~= old_v.nodes.map_values(|n: NodeView| marked(n)));
            lemma_same_shape_wf(old_v, self@);
        }
    }

    /// Collects the identifiers of all live dirty nodes, in arena order, and
    /// clears their dirty flags.
    pub fn flush_dirty(&mut self) -> (ids: Vec<NodeId>)
        requires
            old(self)@.wf(),
        ensures
            final(self)@.wf(),
            ids@ == dirty_ids(old(self)@.nodes),
            final(self)@.next_id == old(self)@.next_id,
            final(self)@.nodes == old(self)@.nodes.map_values(|n: NodeView| cleaned(n)),
    {
        let ghost old_v = self@;
        let n = self.nodes.len();
        let mut ids: Vec<NodeId> = Vec::new();
        let mut i: usize = 0;
        while i < n
            invariant
                i <= n,
                n == old_v.nodes.len(),
                self@.next_id == old_v.next_id,
                self@.nodes.len() == n,
                ids@ == dirty_ids(old_v.nodes.subrange(0, i as int)),
                forall|k: int|
                    0 <= k < n ==> #[trigger] self@.nodes[k] == (if k < i {
                        cleaned(old_v.nodes[k])
                    } else {
                        old_v.nodes[k]
                    }),
            decreases n - i,
        {
            assert(old_v.nodes.subrange(0, i + 1).drop_last() == old_v.nodes.subrange(0, i as int));
            assert(self@.nodes[i as int] == old_v.nodes[i as int]);
            if self.nodes[i].dirty && self.nodes[i].id != NodeId(u64::MAX) {
                ids.push(self.nodes[i].id);
                self.nodes[i].dirty = false;
            }
            i = i + 1;
        }
        proof {
            assert(old_v.nodes.subrange(0, n as int) == old_v.nodes);
            assert(self@.nodes =~= old_v.nodes.map_values(|n: NodeView| cleaned(n)));
            lemma_same_shape_wf(old_v, self@);
        }
        ids
    }

    /// The identifiers of the children of `id`, in order; empty when `id` is
    /// not in the tree.
    pub fn children_of(&self, id: NodeId) -> (ids: Vec<NodeId>)
        requires
            self@.wf(),
        ensures
            ids@ == (if self@.contains(id) {
                self@.child_ids(self@.index_of(id))
            } else {
                Seq::empty()
            }),
    {
        let p = match self.find(id) {
            Some(p) => p,
            None => return Vec::new(),
        };
        let ghost v = self@;
        let children = &self.nodes[p].children;
        let mut ids: Vec<NodeId> = Vec::new();
        let mut k: usize = 0;
        while k < children.len()
            invariant
                v == self@,
                v.wf(),
                v.live(p as int),
                children@ == v.nodes[p as int].children,
                k <= children@.len(),
                ids@ == v.child_ids(p as int).subrange(0, k as int),
            decreases children@.len() - k,
        {
            let c = children[k];
            assert(v.live(c as int));
            ids.push(self.nodes[c].id);
            assert(ids@ =~= v.child_ids(p as int).subrange(0, k + 1));
            k = k + 1;
        }
        assert(ids@ =~= v.child_ids(p as int));
        ids
    }

    /// The live nodes in arena order.
    pub fn iter(&self) -> (live: Vec<&Node>)
        requires
            self@.wf(),
        ensures
            live@.map_values(|n: &Node| n@) == self@.nodes.filter(|n: NodeView| is_live(n)),
    {
        let ghost v = self@;
        let mut live: Vec<&Node> = Vec::new();
        let mut i: usize = 0;
        while i < self.nodes.len()
            invariant
                v == self@,
                i <= v.nodes.len(),
                live@.map_values(|n: &Node| n@) == v.nodes.subrange(0, i as int).filter(
                    |n: NodeView| is_live(n),
                ),
            decreases v.nodes.len() - i,
        {
            reveal(Seq::filter);
            assert(v.nodes.subrange(0, i + 1).drop_last() == v.nodes.subrange(0, i as int));
            let node = &self.nodes[i];
            assert(node@ == v.nodes[i as int]);
            if node.id != NodeId(u64::MAX) {
                live.push(node);
                assert(live@.map_values(|n: &Node| n@) =~= v.nodes.subrange(0, i as int).filter(
                    |n: NodeView| is_live(n),
                ).push(node@));
            }
            i = i + 1;
        }
        assert(v.nodes.subrange(0, v.nodes.len() as int) == v.nodes);
        live
    }

    /// Drops the tombstone slots from the arena.  Live nodes keep their
    /// identifiers, order, kinds, roles, dirty flags, parents and children;
    /// only arena positions change.
    pub fn compact(&mut self)
        requires
            old(self)@.wf(),
        ensures
            final(self)@ == old(self)@.after_compact(),
            final(self)@.wf(),
    {
        let ghost v = self@;
        let n = self.nodes.len();
        let mut rank: Vec<usize> = Vec::new();
        let mut count: usize = 0;
        let mut i: usize = 0;
        while i < n
            invariant
                v == self@,
                n == v.nodes.len(),
                i <= n,
                rank@.len() == i,
                count == live_count(v.nodes, i as int),
                count <= i,
                forall|k: int| 0 <= k < i ==> rank@[k] == live_count(v.nodes, k),
            decreases n - i,
        {
            rank.push(count);
            if self.nodes[i].id != NodeId(u64::MAX) {
                count = count + 1;
            }
            i = i + 1;
        }
        let mut out: Vec<Node> = Vec::new();
        i = 0;
        while i < n
            invariant
                v == self@,
                v.wf(),
                n == v.nodes.len(),
                i <= n,
                rank@.len() == n,
                forall|k: int| 0 <= k < n ==> rank@[k] == live_count(v.nodes, k),
                out@.map_values(|m: Node| m@) == compacted(v.nodes, i as int),
            decreases n - i,
        {
            let node = &self.nodes[i];
            assert(node@ == v.nodes[i as int]);
            if node.id != NodeId(u64::MAX) {
                assert(v.live(i as int));
                let children = remap_indices(&node.children, &rank);
                let parent = match node.parent {
                    Some(p) => {
                        assert(p < i);
                        Some(rank[p])
                    },
                    None => None,
                };
                let moved = Node {
                    id: node.id,
                    kind: node.kind,
                    role: node.role,
                    children,
                    parent,
                    dirty: node.dirty,
                };
                proof {
                    assert forall|k: int| 0 <= k < node@.children.len() implies rank@[node@.children[k] as int]
                        == live_count(v.nodes, node@.children[k] as int) as usize by {
                        lemma_live_count_le(v.nodes, node@.children[k] as int);
                    }
                    assert(moved@.children =~= remapped(v.nodes, node@).children);
                    if let Some(p) = node@.parent {
                        lemma_live_count_le(v.nodes, p as int);
                    }
                    assert(moved@ == remapped(v.nodes, node@));
                }
                out.push(moved);
                assert(out@.map_values(|m: Node| m@) =~= compacted(v.nodes, i + 1));
            } else {
                assert(out@.map_values(|m: Node| m@) =~= compacted(v.nodes, i + 1));
            }
            i = i + 1;
        }
        self.nodes = out;
        proof {
            assert(self@.nodes =~= v.after_compact().nodes);
            lemma_after_compact_wf(v);
        }
    }
}

proof fn lemma_index_of(v: TreeView, i: int, id: NodeId)
    requires
        v.wf(),
        v.holds(i, id),
    ensures
        v.contains(id),
        v.index_of(id) == i,
{
    let j = choose|j: int| v.holds(j, id);
    if j != i {
        assert(v.nodes[i].id != v.nodes[j].id);
    }
}

/// Copies `v` without the occurrences of `x`.
fn without_index(v: &Vec<usize>, x: usize) -> (r: Vec<usize>)
    ensures
        r@ == v@.filter(not_index(x)),
{
    let mut r: Vec<usize> = Vec::new();
    let mut i: usize = 0;
    while i < v.len()
        invariant
            i <= v@.len(),
            r@ == v@.subrange(0, i as int).filter(not_index(x)),
        decreases v@.len() - i,
    {
        reveal(Seq::filter);
        assert(v@.subrange(0, i + 1).drop_last() == v@.subrange(0, i as int));
        if v[i] != x {
            r.push(v[i]);
        }
        i = i + 1;
    }
    assert(v@.subrange(0, v@.len() as int) == v@);
    r
}

proof fn lemma_after_remove_wf(v: TreeView, r: int)
    requires
        v.wf(),
        v.live(r),
        r > 0,
    ensures
        v.after_remove(r).wf(),
        forall|j: int| #[trigger] v.after_remove(r).live(j) <==> (v.live(j) && !v.in_subtree(r, j)),
{
    broadcast use vstd::seq_lib::group_filter_ensures;
    let w = v.after_remove(r);
    let p = v.nodes[r].parent->0 as int;
    let pred = not_index(r as usize);
    assert forall|j: int| #[trigger] w.live(j) <==> (v.live(j) && !v.in_subtree(r, j)) by {}
    assert forall|j: int| 0 <= j < v.nodes.len() implies #[trigger] w.nodes[j].parent == v.nodes[j].parent by {}
    assert(!v.in_subtree(r, 0));
    assert(w.nodes[0].id == NodeId(0));
    assert forall|i: int, j: int|
        #![trigger w.nodes[i].id, w.nodes[j].id]
        w.live(i) && w.live(j) && i != j implies w.nodes[i].id != w.nodes[j].id by {
        assert(v.live(i) && v.live(j));
    }
    assert forall|i: int| #[trigger] w.live(i) implies w.nodes[i].id.0 < w.next_id by {
        assert(v.live(i));
    }
    assert forall|i: int| #[trigger] w.live(i) && i > 0 implies {
        &&& w.nodes[i].parent is Some
        &&& w.nodes[i].parent->0 < i
        &&& w.live(w.nodes[i].parent->0 as int)
        &&& w.nodes[w.nodes[i].parent->0 as int].children.contains(i as usize)
    } by {
        assert(v.live(i));
        let q = v.nodes[i].parent->0 as int;
        assert(v.live(q));
        if v.in_subtree(r, q) {
            assert(v.in_subtree(r, i));
        }
        assert(i != r);
        if q == p {
            let k = choose|k: int| 0 <= k < v.nodes[q].children.len() && v.nodes[q].children[k] == i as usize;
            assert(pred(v.nodes[q].children[k]));
            v.nodes[q].children.lemma_filter_contains(pred, k);
        }
    }
    assert forall|i: int, k: int|
        #![trigger w.nodes[i].children[k]]
        w.live(i) && 0 <= k < w.nodes[i].children.len() implies {
        &&& i < w.nodes[i].children[k]
        &&& w.live(w.nodes[i].children[k] as int)
        &&& w.nodes[w.nodes[i].children[k] as int].parent == Option::Some(i as usize)
    } by {
        assert(v.live(i));
        let c = w.nodes[i].children[k];
        let vc = v.nodes[i].children;
        let kk: int = if i == p {
            assert(w.nodes[i].children == vc.filter(pred));
            assert(vc.filter(pred).contains(c));
            vc.lemma_filter_contains_rev(pred, c);
            assert(pred(c));
            choose|kk: int| 0 <= kk < vc.len() && vc[kk] == c
        } else {
            k
        };
        assert(vc[kk] == c);
        assert(v.live(c as int));
        if c as int == r {
            assert(v.nodes[r].parent == Option::Some(i as usize));
            assert(i == p);
            assert(pred(c));
        }
        assert(!v.in_subtree(r, c as int));
    }
}

/// Two trees with the same identifiers, parents, children and counter.
pub open spec fn same_shape(a: TreeView, b: TreeView) -> bool {
    &&& a.nodes.len() == b.nodes.len()
    &&& a.next_id == b.next_id
    &&& forall|i: int|
        0 <= i < a.nodes.len() ==> {
            &&& #[trigger] a.nodes[i].id == b.nodes[i].id
            &&& a.nodes[i].children == b.nodes[i].children
            &&& a.nodes[i].parent == b.nodes[i].parent
        }
}

proof fn lemma_same_shape_wf(a: TreeView, b: TreeView)
    requires
        a.wf(),
        same_shape(a, b),
    ensures
        b.wf(),
{
    assert forall|i: int| b.live(i) <==> #[trigger] a.live(i) by {
        if 0 <= i < a.nodes.len() {
            assert(a.nodes[i].id == b.nodes[i].id);
        }
    }
    assert forall|i: int, j: int|
        #![trigger b.nodes[i].id, b.nodes[j].id]
        b.live(i) && b.live(j) && i != j implies b.nodes[i].id != b.nodes[j].id by {
        assert(a.nodes[i].id == b.nodes[i].id);
        assert(a.nodes[j].id == b.nodes[j].id);
        assert(a.live(i) && a.live(j));
    }
    assert forall|i: int| #[trigger] b.live(i) implies b.nodes[i].id.0 < b.next_id by {
        assert(a.nodes[i].id == b.nodes[i].id);
        assert(a.live(i));
    }
    assert forall|i: int| #[trigger] b.live(i) && i > 0 implies {
        &&& b.nodes[i].parent is Some
        &&& b.nodes[i].parent->0 < i
        &&& b.live(b.nodes[i].parent->0 as int)
        &&& b.nodes[b.nodes[i].parent->0 as int].children.contains(i as usize)
    } by {
        assert(a.nodes[i].id == b.nodes[i].id);
        assert(a.live(i));
        let p = a.nodes[i].parent->0 as int;
        assert(a.nodes[p].id == b.nodes[p].id);
        assert(a.live(p));
    }
    assert forall|i: int, k: int|
        #![trigger b.nodes[i].children[k]]
        b.live(i) && 0 <= k < b.nodes[i].children.len() implies {
        &&& i < b.nodes[i].children[k]
        &&& b.live(b.nodes[i].children[k] as int)
        &&& b.nodes[b.nodes[i].children[k] as int].parent == Option::Some(i as usize)
    } by {
        assert(a.nodes[i].id == b.nodes[i].id);
        assert(a.live(i));
        assert(a.nodes[i].children[k] == b.nodes[i].children[k]);
        let c = a.nodes[i].children[k] as int;
        assert(a.nodes[c].id == b.nodes[c].id);
        assert(a.live(c));
    }
    assert(a.nodes[0].id == b.nodes[0].id);
}

proof fn lemma_after_add_wf(v: TreeView, p: int, kind: NodeKind)
    requires
        v.wf(),
        v.live(p),
        v.next_id < u64::MAX - 1,
        v.nodes.len() < usize::MAX,
    ensures
        v.after_add(p, kind).wf(),
{
    let w = v.after_add(p, kind);
    let n = v.nodes.len() as int;
    assert forall|i: int| 0 <= i < n && i != p implies #[trigger] w.nodes[i] == v.nodes[i] by {}
    assert(w.nodes[p].children == v.nodes[p].children.push(n as usize));
    assert(w.nodes[n].parent == Option::Some(p as usize));
    assert forall|i: int| 0 <= i < n implies #[trigger] w.nodes[i].id == v.nodes[i].id by {}
    assert forall|i: int| 0 <= i < n implies (#[trigger] w.live(i) <==> v.live(i)) by {
        assert(w.nodes[i].id == v.nodes[i].id);
    }
    assert(w.live(n));
    assert forall|i: int, j: int|
        #![trigger w.nodes[i].id, w.nodes[j].id]
        w.live(i) && w.live(j) && i != j implies w.nodes[i].id != w.nodes[j].id by {
        if i < n && j < n {
            assert(v.live(i) && v.live(j));
        } else if i == n {
            assert(v.live(j));
        } else {
            assert(v.live(i));
        }
    }
    assert forall|i: int| #[trigger] w.live(i) implies w.nodes[i].id.0 < w.next_id by {
        if i < n {
            assert(v.live(i));
        }
    }
    assert forall|i: int| #[trigger] w.live(i) && i > 0 implies {
        &&& w.nodes[i].parent is Some
        &&& w.nodes[i].parent->0 < i
        &&& w.live(w.nodes[i].parent->0 as int)
        &&& w.nodes[w.nodes[i].parent->0 as int].children.contains(i as usize)
    } by {
        if i == n {
            assert(w.nodes[p].children[v.nodes[p].children.len() as int] == n as usize);
        } else {
            assert(v.live(i));
            let q = v.nodes[i].parent->0 as int;
            assert(v.live(q));
            if q == p {
                let k = choose|k: int| 0 <= k < v.nodes[p].children.len() && v.nodes[p].children[k] == i as usize;
                assert(w.nodes[p].children[k] == i as usize);
            }
        }
    }
    assert forall|i: int, k: int|
        #![trigger w.nodes[i].children[k]]
        w.live(i) && 0 <= k < w.nodes[i].children.len() implies {
        &&& i < w.nodes[i].children[k]
        &&& w.live(w.nodes[i].children[k] as int)
        &&& w.nodes[w.nodes[i].children[k] as int].parent == Option::Some(i as usize)
    } by {
        if i != n {
            assert(v.live(i));
            if i == p && k == v.nodes[p].children.len() {
                assert(w.nodes[i].children[k] == n as usize);
            } else {
                assert(w.nodes[i].children[k] == v.nodes[i].children[k]);
                let c = v.nodes[i].children[k] as int;
                assert(v.live(c));
            }
        }
    }
}

/// Copies `v`, replacing each entry `c` with `rank[c]`.
fn remap_indices(v: &Vec<usize>, rank: &Vec<usize>) -> (r: Vec<usize>)
    requires
        forall|k: int| 0 <= k < v@.len() ==> #[trigger] v@[k] < rank@.len(),
    ensures
        r@ == v@.map_values(|c: usize| rank@[c as int]),
{
    let mut r: Vec<usize> = Vec::new();
    let mut k: usize = 0;
    while k < v.len()
        invariant
            k <= v@.len(),
            forall|q: int| 0 <= q < v@.len() ==> #[trigger] v@[q] < rank@.len(),
            r@ == v@.subrange(0, k as int).map_values(|c: usize| rank@[c as int]),
        decreases v@.len() - k,
    {
        assert(v@[k as int] < rank@.len());
        r.push(rank[v[k]]);
        assert(r@ =~= v@.subrange(0, k + 1).map_values(|c: usize| rank@[c as int]));
        k = k + 1;
    }
    assert(v@.subrange(0, v@.len() as int) == v@);
    r
}

proof fn lemma_live_count_le(nodes: Seq<NodeView>, k: int)
    requires
        0 <= k,
    ensures
        live_count(nodes, k) <= k,
    decreases k,
{
    if k > 0 {
        lemma_live_count_le(nodes, k - 1);
    }
}

proof fn lemma_live_count_mono(nodes: Seq<NodeView>, i: int, j: int)
    requires
        0 <= i <= j,
    ensures
        live_count(nodes, i) <= live_count(nodes, j),
    decreases j - i,
{
    if i < j {
        lemma_live_count_mono(nodes, i, j - 1);
    }
}

proof fn lemma_live_count_strict(nodes: Seq<NodeView>, i: int, j: int)
    requires
        0 <= i < j,
        is_live(nodes[i]),
    ensures
        live_count(nodes, i) < live_count(nodes, j),
{
    lemma_live_count_mono(nodes, i + 1, j);
}

proof fn lemma_compacted(nodes: Seq<NodeView>, n: int)
    requires
        0 <= n <= nodes.len(),
    ensures
        compacted(nodes, n).len() == live_count(nodes, n),
        forall|i: int|
            0 <= i < n && is_live(nodes[i]) ==> #[trigger] compacted(nodes, n)[live_count(nodes, i) as int]
                == remapped(nodes, nodes[i]),
    decreases n,
{
    if n > 0 {
        lemma_compacted(nodes, n - 1);
        assert forall|i: int|
            0 <= i < n && is_live(nodes[i]) implies #[trigger] compacted(nodes, n)[live_count(nodes, i) as int]
                == remapped(nodes, nodes[i]) by {
            if i < n - 1 {
                lemma_live_count_strict(nodes, i, n - 1);
            }
        }
    }
}

proof fn lemma_rank_witness(nodes: Seq<NodeView>, n: int, k: int) -> (i: int)
    requires
        0 <= n <= nodes.len(),
        0 <= k < live_count(nodes, n),
    ensures
        0 <= i < n,
        is_live(nodes[i]),
        live_count(nodes, i) == k,
    decreases n,
{
    if k < live_count(nodes, n - 1) {
        lemma_rank_witness(nodes, n - 1, k)
    } else {
        n - 1
    }
}

/// The identifier of the parent of the live slot `i`, if it has one.
pub open spec fn parent_id(v: TreeView, i: int) -> Option<NodeId> {
    match v.nodes[i].parent {
        Option::Some(p) => Option::Some(v.nodes[p as int].id),
        Option::None => Option::None,
    }
}

proof fn lemma_after_compact_wf(v: TreeView)
    requires
        v.wf(),
    ensures
        v.after_compact().wf(),
        forall|i: int| #[trigger] v.live(i) ==> {
            &&& v.after_compact().live(live_count(v.nodes, i) as int)
            &&& v.after_compact().nodes[live_count(v.nodes, i) as int] == remapped(v.nodes, v.nodes[i])
        },
        forall|k: int| #[trigger] v.after_compact().live(k) ==> exists|i: int| #[trigger]
            v.live(i) && live_count(v.nodes, i) == k,
{
    let w = v.after_compact();
    let nodes = v.nodes;
    let n = nodes.len() as int;
    let l = live_count(nodes, n);
    lemma_compacted(nodes, n);
    lemma_live_count_le(nodes, n);
    assert forall|i: int| #[trigger] v.live(i) implies {
        &&& w.live(live_count(nodes, i) as int)
        &&& w.nodes[live_count(nodes, i) as int] == remapped(nodes, nodes[i])
    } by {
        lemma_live_count_strict(nodes, i, n);
    }
    assert forall|k: int| #[trigger] w.live(k) implies exists|i: int| #[trigger]
        v.live(i) && live_count(nodes, i) == k by {
        let i = lemma_rank_witness(nodes, n, k);
        assert(v.live(i));
    }
    // every compacted slot is the image of a live slot
    assert forall|k: int| 0 <= k < l implies #[trigger] w.live(k) by {
        let i = lemma_rank_witness(nodes, n, k);
        assert(v.live(i));
    }
    assert(v.live(0));
    assert(live_count(nodes, 0) == 0);
    assert(w.live(0));
    assert(w.nodes[0] == remapped(nodes, nodes[0]));
    assert forall|i: int, j: int|
        #![trigger w.nodes[i].id, w.nodes[j].id]
        w.live(i) && w.live(j) && i != j implies w.nodes[i].id != w.nodes[j].id by {
        let a = lemma_rank_witness(nodes, n, i);
        let b = lemma_rank_witness(nodes, n, j);
        assert(v.live(a) && v.live(b));
        assert(w.nodes[i] == remapped(nodes, nodes[a]));
        assert(w.nodes[j] == remapped(nodes, nodes[b]));
    }
    assert forall|k: int| #[trigger] w.live(k) implies w.nodes[k].id.0 < w.next_id by {
        let a = lemma_rank_witness(nodes, n, k);
        assert(v.live(a));
        assert(w.nodes[k] == remapped(nodes, nodes[a]));
    }
    assert forall|k: int| #[trigger] w.live(k) && k > 0 implies {
        &&& w.nodes[k].parent is Some
        &&& w.nodes[k].parent->0 < k
        &&& w.live(w.nodes[k].parent->0 as int)
        &&& w.nodes[w.nodes[k].parent->0 as int].children.contains(k as usize)
    } by {
        let i = lemma_rank_witness(nodes, n, k);
        assert(v.live(i));
        assert(i > 0);
        assert(w.nodes[k] == remapped(nodes, nodes[i]));
        let p = nodes[i].parent->0 as int;
        assert(v.live(p));
        lemma_live_count_strict(nodes, p, i);
        lemma_live_count_le(nodes, p);
        let q = live_count(nodes, p) as int;
        assert(w.nodes[k].parent->0 == q);
        assert(w.live(q));
        assert(w.nodes[q] == remapped(nodes, nodes[p]));
        let kk = choose|kk: int| 0 <= kk < nodes[p].children.len() && nodes[p].children[kk] == i as usize;
        lemma_live_count_le(nodes, i);
        assert(w.nodes[q].children[kk] == k as usize);
    }
    assert forall|k: int, kk: int|
        #![trigger w.nodes[k].children[kk]]
        w.live(k) && 0 <= kk < w.nodes[k].children.len() implies {
        &&& k < w.nodes[k].children[kk]
        &&& w.live(w.nodes[k].children[kk] as int)
        &&& w.nodes[w.nodes[k].children[kk] as int].parent == Option::Some(k as usize)
    } by {
        let i = lemma_rank_witness(nodes, n, k);
        assert(v.live(i));
        assert(w.nodes[k] == remapped(nodes, nodes[i]));
        let c = nodes[i].children[kk] as int;
        assert(v.live(c));
        lemma_live_count_strict(nodes, i, c);
        lemma_live_count_le(nodes, c);
        lemma_live_count_le(nodes, i);
        let q = live_count(nodes, c) as int;
        assert(w.nodes[k].children[kk] == q);
        assert(w.live(q));
        assert(w.nodes[q] == remapped(nodes, nodes[c]));
    }
}

/// The root is always there: every well-formed tree (and every operation
/// keeps the tree well formed) holds the root node in slot 0, and removing
/// the root is refused.
pub proof fn lemma_root_always_present(v: TreeView)
    requires
        v.wf(),
    ensures
        v.contains(NodeId(0)),
        v.index_of(NodeId(0)) == 0,
{
    assert(v.holds(0, NodeId(0)));
}

/// Compaction keeps every node: the same identifiers stay in the tree, each
/// with the same kind, role, dirty flag, parent and children.
pub proof fn lemma_compact_keeps_nodes(v: TreeView, id: NodeId)
    requires
        v.wf(),
    ensures
        v.after_compact().contains(id) == v.contains(id),
        v.contains(id) ==> {
            let w = v.after_compact();
            let a = w.index_of(id);
            let b = v.index_of(id);
            &&& w.nodes[a].kind == v.nodes[b].kind
            &&& w.nodes[a].role == v.nodes[b].role
            &&& w.nodes[a].dirty == v.nodes[b].dirty
            &&& w.child_ids(a) == v.child_ids(b)
            &&& parent_id(w, a) == parent_id(v, b)
        },
{
    let w = v.after_compact();
    let nodes = v.nodes;
    lemma_after_compact_wf(v);
    if v.contains(id) {
        let b = v.index_of(id);
        lemma_index_of(v, choose|i: int| v.holds(i, id), id);
        assert(v.live(b));
        let a = live_count(nodes, b) as int;
        assert(w.live(a));
        assert(w.holds(a, id));
        lemma_index_of(w, a, id);
        assert(w.nodes[a] == remapped(nodes, nodes[b]));
        assert forall|kk: int| 0 <= kk < nodes[b].children.len() implies #[trigger] w.child_ids(a)[kk]
            == v.child_ids(b)[kk] by {
            let c = nodes[b].children[kk] as int;
            assert(v.live(c));
            lemma_live_count_le(nodes, c);
            assert(w.nodes[live_count(nodes, c) as int] == remapped(nodes, nodes[c]));
        }
        assert(w.child_ids(a) =~= v.child_ids(b));
        if let Option::Some(p) = nodes[b].parent {
            assert(b > 0);
            assert(v.live(p as int));
            lemma_live_count_le(nodes, p as int);
            assert(w.nodes[live_count(nodes, p as int) as int] == remapped(nodes, nodes[p as int]));
        }
    } else {
        if w.contains(id) {
            let k = choose|k: int| w.holds(k, id);
            assert(w.live(k));
            let i = choose|i: int| #[trigger] v.live(i) && live_count(nodes, i) == k;
            assert(w.nodes[k] == remapped(nodes, nodes[i]));
            assert(v.holds(i, id));
        }
    }
}

/// Removing a node drops exactly its subtree: the removed node and its
/// descendants leave the tree, every other node stays at its slot.
pub proof fn lemma_remove_drops_subtree(v: TreeView, id: NodeId, other: NodeId)
    requires
        v.wf(),
        v.contains(id),
        id != NodeId(0),
    ensures
        !v.after_remove(v.index_of(id)).contains(id),
        v.after_remove(v.index_of(id)).contains(other) <==> (v.contains(other) && !v.in_subtree(
            v.index_of(id),
            v.index_of(other),
        )),
        v.after_remove(v.index_of(id)).contains(other) ==> v.after_remove(v.index_of(id)).index_of(
            other,
        ) == v.index_of(other),
{
    let r = v.index_of(id);
    lemma_index_of(v, choose|i: int| v.holds(i, id), id);
    assert(r > 0) by {
        if r == 0 {
            assert(v.nodes[0].id == NodeId(0));
        }
    }
    lemma_after_remove_wf(v, r);
    let w = v.after_remove(r);
    if w.contains(id) {
        let k = choose|k: int| w.holds(k, id);
        assert(w.live(k));
        assert(v.holds(k, id));
        lemma_index_of(v, k, id);
    }
    if v.contains(other) {
        let b = v.index_of(other);
        lemma_index_of(v, choose|i: int| v.holds(i, other), other);
        if !v.in_subtree(r, b) {
            assert(w.live(b));
            assert(w.holds(b, other));
            lemma_index_of(w, b, other);
        } else {
            if w.contains(other) {
                let k = choose|k: int| w.holds(k, other);
                assert(w.live(k));
                assert(v.holds(k, other));
                lemma_index_of(v, k, other);
            }
        }
    } else {
        if w.contains(other) {
            let k = choose|k: int| w.holds(k, other);
            assert(w.live(k));
            assert(v.holds(k, other));
        }
    }
}

/// Adding a node keeps every node of the tree in its slot.
pub proof fn lemma_add_keeps_slot(v: TreeView, p: int, kind: NodeKind, i: int, id: NodeId)
    requires
        0 <= p < v.nodes.len(),
        v.holds(i, id),
    ensures
        v.after_add(p, kind).holds(i, id),
{
    assert(v.after_add(p, kind).nodes[i].id == v.nodes[i].id);
}

} // verus!
