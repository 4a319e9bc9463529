//! The arena that holds the process tree, and what it looks like as a table.

use core::cmp::Ordering;
use ego_tree::{NodeId, Tree};
use vstd::prelude::*;

use crate::number::order_of;
use crate::order::sorted_by;

verus! {

/// A process number.
pub type Pid = u32;

/// What a node of the process tree stands for.
#[derive(Debug, Clone, Copy, PartialEq, Eq, Structural)]
pub enum ProcessNode {
    Root,
    Process(Pid),
}

/// Where a process stands among its siblings, for the drawing of the tree.
#[derive(Debug, Clone, Copy, PartialEq, Eq, Structural)]
pub enum TreePrefix {
    FirstChild,
    MiddleChild,
    LastChild,
}

/// A line of the process table: depth, place among the siblings, process.
pub type ProcessRow = (usize, TreePrefix, Pid);

/// A step of a walk through a tree: a node is entered or left.
#[derive(Debug, Clone, Copy)]
pub enum Edge {
    Open(NodeId),
    Close(NodeId),
}

/// `ego_tree::Tree`, the arena.
#[verifier::external_type_specification]
#[verifier::external_body]
#[verifier::reject_recursive_types(T)]
pub struct ExTree<T>(ego_tree::Tree<T>);

/// `ego_tree::NodeId`, the handle of a node.
#[verifier::external_type_specification]
#[verifier::external_body]
pub struct ExNodeId(ego_tree::NodeId);

/// The value at each node of an arena.
pub uninterp spec fn node_values(tree: Tree<ProcessNode>) -> Map<NodeId, ProcessNode>;

/// The children of each node of an arena, first to last.
pub uninterp spec fn node_children(tree: Tree<ProcessNode>) -> Map<NodeId, Seq<NodeId>>;

/// The root of an arena.
pub uninterp spec fn root_of(tree: Tree<ProcessNode>) -> NodeId;

/// An arena as values, child lists and a root.
#[verifier::ext_equal]
pub struct TreeModel {
    pub values: Map<NodeId, ProcessNode>,
    pub children: Map<NodeId, Seq<NodeId>>,
    pub root: NodeId,
}

/// What an arena holds.
pub open spec fn model(tree: Tree<ProcessNode>) -> TreeModel {
    TreeModel { values: node_values(tree), children: node_children(tree), root: root_of(tree) }
}

/// Whether `f` can be called on any two children of `p`.
pub open spec fn compares_at<F: Fn(&ProcessNode, &ProcessNode) -> Ordering>(
    f: F,
    m: TreeModel,
    p: NodeId,
) -> bool {
    forall|x: NodeId, y: NodeId| #[trigger]
        m.siblings(p, x, y) ==> f.requires((&m.values[x], &m.values[y]))
}

/// Whether `f` orders the children of `p` as their ranks do.
pub open spec fn ranks_at<F: Fn(&ProcessNode, &ProcessNode) -> Ordering>(
    f: F,
    m: TreeModel,
    p: NodeId,
    rank: spec_fn(ProcessNode) -> int,
) -> bool {
    forall|x: NodeId, y: NodeId, o: Ordering|
        #[trigger] m.siblings(p, x, y) && #[trigger] f.ensures((&m.values[x], &m.values[y]), o)
            ==> o == order_of(rank(m.values[x]), rank(m.values[y]))
}

/// Whether `f` can be called on any two children of one node; a sort calls it on no
/// others.
pub open spec fn compares<F: Fn(&ProcessNode, &ProcessNode) -> Ordering>(
    f: F,
    m: TreeModel,
) -> bool {
    forall|p: NodeId| #[trigger] m.has(p) ==> compares_at(f, m, p)
}

/// Whether `f` orders the children of each node as their ranks do.
pub open spec fn ranks<F: Fn(&ProcessNode, &ProcessNode) -> Ordering>(
    f: F,
    m: TreeModel,
    rank: spec_fn(ProcessNode) -> int,
) -> bool {
    forall|p: NodeId| #[trigger] m.has(p) ==> ranks_at(f, m, p, rank)
}

/// The rank of a node: that of its value.
pub open spec fn node_rank(
    values: Map<NodeId, ProcessNode>,
    rank: spec_fn(ProcessNode) -> int,
) -> spec_fn(NodeId) -> int {
    |id: NodeId| rank(values[id])
}

impl TreeModel {
    /// Whether the node is in the arena.
    pub open spec fn has(self, id: NodeId) -> bool {
        self.values.contains_key(id)
    }

    /// Whether `c` is child number `i` of `p`.
    pub open spec fn link(self, p: NodeId, i: int, c: NodeId) -> bool {
        self.has(p) && 0 <= i < self.children[p].len() && self.children[p][i] == c
    }

    /// Whether `x` and `y` are children of `p`.
    pub open spec fn siblings(self, p: NodeId, x: NodeId, y: NodeId) -> bool {
        self.has(p) && self.children[p].contains(x) && self.children[p].contains(y)
    }

    /// Whether some node has `id` for a child.
    pub open spec fn adopted(self, id: NodeId) -> bool {
        exists|p: NodeId, i: int| self.link(p, i, id)
    }

    /// The child lists name nodes of the arena, none of them the root and none of
    /// them twice.
    pub open spec fn linked(self) -> bool {
        &&& self.has(self.root)
        &&& self.values.dom().finite()
        &&& self.children.dom() == self.values.dom()
        &&& forall|p: NodeId, i: int, c: NodeId| #[trigger]
            self.link(p, i, c) ==> self.has(c) && c != self.root
        &&& forall|p: NodeId, i: int, q: NodeId, j: int, c: NodeId|
            #[trigger] self.link(p, i, c) && #[trigger] self.link(q, j, c) ==> p == q && i == j
    }

    /// Each node but the root is a child, one level below its parent.
    pub open spec fn leveled(self, level: spec_fn(NodeId) -> nat) -> bool {
        &&& level(self.root) == 0
        &&& forall|p: NodeId, i: int, c: NodeId| #[trigger]
            self.link(p, i, c) ==> level(c) == level(p) + 1
        &&& forall|id: NodeId| #[trigger] self.has(id) ==> level(id) < self.values.len()
        &&& forall|id: NodeId| #[trigger] self.has(id) && id != self.root ==> self.adopted(id)
    }

    /// The arena is one tree.
    pub open spec fn is_tree(self) -> bool {
        &&& self.linked()
        &&& exists|level: spec_fn(NodeId) -> nat| self.leveled(level)
    }

    /// The arena is one tree of processes below a placeholder.
    pub open spec fn wf(self) -> bool {
        &&& self.is_tree()
        &&& self.values[self.root] is Root
        &&& forall|id: NodeId| #[trigger]
            self.has(id) && id != self.root ==> self.values[id] is Process
    }

    /// The arena after a new node under `parent`.
    pub open spec fn appended(self, parent: NodeId, id: NodeId, value: ProcessNode) -> TreeModel {
        TreeModel {
            values: self.values.insert(id, value),
            children: self.children.insert(id, Seq::empty()).insert(
                parent,
                self.children[parent].push(id),
            ),
            root: self.root,
        }
    }

    /// The processes in the tree.
    pub open spec fn pids(self) -> Set<Pid> {
        Set::new(
            |pid: Pid|
                exists|id: NodeId| #[trigger]
                    self.has(id) && self.values[id] == ProcessNode::Process(pid),
        )
    }

    /// The arena with the children of one node sorted.
    pub open spec fn sorted_at(
        self,
        id: NodeId,
        rank: spec_fn(ProcessNode) -> int,
    ) -> TreeModel {
        TreeModel {
            children: self.children.insert(
                id,
                sorted_by(self.children[id], node_rank(self.values, rank)),
            ),
            ..self
        }
    }

    /// The arena with the children of every node sorted.
    pub open spec fn sorted(self, rank: spec_fn(ProcessNode) -> int) -> TreeModel {
        TreeModel {
            children: Map::new(
                |id: NodeId| self.children.contains_key(id),
                |id: NodeId| sorted_by(self.children[id], node_rank(self.values, rank)),
            ),
            ..self
        }
    }

    /// The walk through the part of the tree below `id`, down to `levels` levels:
    /// a node is entered, its children are walked through in order, and it is left.
    pub open spec fn tour(self, id: NodeId, levels: nat) -> Seq<Edge>
        decreases levels, 0nat,
    {
        if levels == 0 {
            Seq::empty()
        } else {
            seq![Edge::Open(id)] + self.child_tours(
                id,
                self.children[id].len(),
                (levels - 1) as nat,
            ) + seq![Edge::Close(id)]
        }
    }

    /// The walks through the first `k` children of `id`, one after the other.
    pub open spec fn child_tours(self, id: NodeId, k: nat, levels: nat) -> Seq<Edge>
        decreases levels, k + 1,
    {
        if k == 0 {
            Seq::empty()
        } else {
            self.child_tours(id, (k - 1) as nat, levels) + self.tour(
                self.children[id][k - 1],
                levels,
            )
        }
    }

    /// The table line of one node: none for the placeholder.
    pub open spec fn own_row(self, id: NodeId, last: bool, depth: int) -> Seq<ProcessRow> {
        match self.values[id] {
            ProcessNode::Root => Seq::empty(),
            ProcessNode::Process(pid) => seq![(depth as usize, prefix_at(last, depth), pid)],
        }
    }

    /// The table lines of `id` and what is below it, down to `levels` levels.
    pub open spec fn subtree_rows(
        self,
        id: NodeId,
        last: bool,
        depth: int,
        levels: nat,
    ) -> Seq<ProcessRow>
        decreases levels, 0nat,
    {
        if levels == 0 {
            Seq::empty()
        } else {
            self.own_row(id, last, depth) + self.child_rows(
                id,
                self.children[id].len(),
                depth + 1,
                (levels - 1) as nat,
            )
        }
    }

    /// The table lines of the first `k` children of `id` and what is below them.
    pub open spec fn child_rows(self, id: NodeId, k: nat, depth: int, levels: nat) -> Seq<
        ProcessRow,
    >
        decreases levels, k + 1,
    {
        if k == 0 {
            Seq::empty()
        } else {
            self.child_rows(id, (k - 1) as nat, depth, levels) + self.subtree_rows(
                self.children[id][k - 1],
                k == self.children[id].len(),
                depth,
                levels,
            )
        }
    }

    /// The table lines of the whole tree: each process after its parent and before
    /// its next sibling. A tree has no more levels than nodes.
    pub open spec fn rows(self) -> Seq<ProcessRow> {
        self.subtree_rows(self.root, true, 1, self.values.len())
    }

    /// Whether no sibling follows.
    pub open spec fn is_last(self, id: NodeId) -> bool {
        forall|p: NodeId, i: int| #[trigger]
            self.link(p, i, id) ==> i + 1 == self.children[p].len()
    }

    /// The lines that a walk gives, and the depth at which it ends.
    spec fn scan(self, edges: Seq<Edge>, depth: int) -> (Seq<ProcessRow>, int)
        decreases edges.len(),
    {
        if edges.len() == 0 {
            (Seq::empty(), depth)
        } else {
            let before = self.scan(edges.drop_last(), depth);
            match edges.last() {
                Edge::Open(id) => (
                    before.0 + self.own_row(id, self.is_last(id), before.1 + 1),
                    before.1 + 1,
                ),
                Edge::Close(_) => (before.0, before.1 - 1),
            }
        }
    }
}

/// The place among the siblings that a line shows: the top processes stand
/// without a mark.
pub open spec fn prefix_at(last: bool, depth: int) -> TreePrefix {
    if depth <= 2 {
        TreePrefix::FirstChild
    } else if last {
        TreePrefix::LastChild
    } else {
        TreePrefix::MiddleChild
    }
}

/// `ego_tree::Tree::new`: an arena whose one node is a root without children.
#[verifier::external_body]
pub(crate) fn new_tree(root: ProcessNode) -> (tree: Tree<ProcessNode>)
    ensures
        node_values(tree) == map![root_of(tree) => root],
        node_children(tree) == map![root_of(tree) => Seq::<NodeId>::empty()],
{
    Tree::new(root)
}

/// `ego_tree::Tree::root`: the handle of the root.
#[verifier::external_body]
pub(crate) fn root_id(tree: &Tree<ProcessNode>) -> (id: NodeId)
    ensures
        id == root_of(*tree),
{
    tree.root().id()
}

/// `ego_tree::NodeMut::append` at the node that `Tree::get_mut` finds: a new node
/// with a handle of its own, last among the children of `parent`. Without such a
/// `parent` the arena stays as it was.
#[verifier::external_body]
pub(crate) fn append_child(
    tree: &mut Tree<ProcessNode>,
    parent: NodeId,
    value: ProcessNode,
) -> (id: Option<NodeId>)
    ensures
        id is Some == node_values(*old(tree)).contains_key(parent),
        id matches Some(id) ==> !node_values(*old(tree)).contains_key(id) && model(*final(tree))
            == model(*old(tree)).appended(parent, id, value),
        id is None ==> *final(tree) == *old(tree),
{
    tree.get_mut(parent).map(|mut node| node.append(value).id())
}

/// `ego_tree::NodeRef::children` at the node that `Tree::get` finds: the handles
/// of the children, first to last.
#[verifier::external_body]
pub(crate) fn children_of(tree: &Tree<ProcessNode>, id: NodeId) -> (ids: Option<Vec<NodeId>>)
    ensures
        ids is Some == node_values(*tree).contains_key(id),
        ids matches Some(ids) ==> ids@ == node_children(*tree)[id],
{
    tree.get(id).map(|node| node.children().map(|child| child.id()).collect())
}

/// `ego_tree::NodeRef::value` at the node that `Tree::get` finds.
#[verifier::external_body]
pub(crate) fn value_of(tree: &Tree<ProcessNode>, id: NodeId) -> (value: Option<ProcessNode>)
    ensures
        value is Some == node_values(*tree).contains_key(id),
        value matches Some(value) ==> value == node_values(*tree)[id],
{
    tree.get(id).map(|node| *node.value())
}

/// `ego_tree::NodeRef::next_sibling` at the node that `Tree::get` finds: the next
/// child of the same parent, where there is one. A node that is no child has no
/// siblings.
#[verifier::external_body]
pub(crate) fn next_sibling_of(tree: &Tree<ProcessNode>, id: NodeId) -> (next: Option<NodeId>)
    requires
        model(*tree).is_tree(),
        node_values(*tree).contains_key(id),
    ensures
        forall|p: NodeId, i: int| #[trigger]
            model(*tree).link(p, i, id) ==> next == if i + 1 < node_children(*tree)[p].len() {
                Some(node_children(*tree)[p][i + 1])
            } else {
                None
            },
        !model(*tree).adopted(id) ==> next is None,
{
    tree.get(id).and_then(|node| node.next_sibling()).map(|node| node.id())
}

/// `ego_tree::NodeMut::sort_by` at the node that `Tree::get_mut` finds: sorts its
/// children by `f`, equal ones staying in order. It calls `f` on the children of that
/// node alone, and asks that it compares them as some rank would.
#[verifier::external_body]
pub(crate) fn sort_children<F: Fn(&ProcessNode, &ProcessNode) -> Ordering>(
    tree: &mut Tree<ProcessNode>,
    id: NodeId,
    f: &F,
)
    requires
        model(*old(tree)).wf(),
        node_values(*old(tree)).contains_key(id),
        compares_at(*f, model(*old(tree)), id),
        exists|rank: spec_fn(ProcessNode) -> int| ranks_at(*f, model(*old(tree)), id, rank),
    ensures
        forall|rank: spec_fn(ProcessNode) -> int| #[trigger]
            ranks_at(*f, model(*old(tree)), id, rank) ==> model(*final(tree)) == model(
                *old(tree),
            ).sorted_at(id, rank),
{
    if let Some(mut node) = tree.get_mut(id) {
        node.sort_by(|a, b| f(a.value(), b.value()));
    }
}

/// `ego_tree::NodeRef::traverse` at the root: the walk through the whole tree.
#[verifier::external_body]
pub(crate) fn traverse(tree: &Tree<ProcessNode>) -> (edges: Vec<Edge>)
    requires
        model(*tree).is_tree(),
    ensures
        edges@ == model(*tree).tour(root_of(*tree), node_values(*tree).len()),
{
    tree.root().traverse().map(|edge| match edge {
        ego_tree::iter::Edge::Open(node) => Edge::Open(node.id()),
        ego_tree::iter::Edge::Close(node) => Edge::Close(node.id()),
    }).collect()
}

/// Walking through two stretches gives the lines of both.
proof fn lemma_scan_concat(m: TreeModel, a: Seq<Edge>, b: Seq<Edge>, depth: int)
    ensures
        m.scan(a + b, depth).0 == m.scan(a, depth).0 + m.scan(b, m.scan(a, depth).1).0,
        m.scan(a + b, depth).1 == m.scan(b, m.scan(a, depth).1).1,
    decreases b.len(),
{
    if b.len() == 0 {
        assert(a + b =~= a);
    } else {
        lemma_scan_concat(m, a, b.drop_last(), depth);
        assert((a + b).drop_last() =~= a + b.drop_last());
        assert((a + b).last() == b.last());
    }
}

/// The walk below a node gives the lines of that part of the tree.
proof fn lemma_tour_scan(m: TreeModel, id: NodeId, depth: int, levels: nat)
    requires
        m.linked(),
        m.has(id),
    ensures
        m.scan(m.tour(id, levels), depth) == (
            m.subtree_rows(id, m.is_last(id), depth + 1, levels),
            depth,
        ),
    decreases levels, 0nat,
{
    if levels > 0 {
        let k = m.children[id].len();
        let inner = m.child_tours(id, k, (levels - 1) as nat);
        let open = seq![Edge::Open(id)];
        let close = seq![Edge::Close(id)];
        lemma_child_scan(m, id, k, depth + 1, (levels - 1) as nat);
        lemma_scan_concat(m, open, inner, depth);
        lemma_scan_concat(m, open + inner, close, depth);
        assert(open.drop_last() =~= Seq::<Edge>::empty());
        assert(close.drop_last() =~= Seq::<Edge>::empty());
        assert(m.scan(open, depth) == (m.own_row(id, m.is_last(id), depth + 1), depth + 1)) by {
            reveal_with_fuel(TreeModel::scan, 2);
            assert(Seq::<ProcessRow>::empty() + m.own_row(id, m.is_last(id), depth + 1)
                =~= m.own_row(id, m.is_last(id), depth + 1));
        }
        assert(m.scan(close, depth + 1) == (Seq::<ProcessRow>::empty(), depth)) by {
            reveal_with_fuel(TreeModel::scan, 2);
        }
        let all = m.subtree_rows(id, m.is_last(id), depth + 1, levels);
        assert(all + Seq::<ProcessRow>::empty() =~= all);
    }
}

proof fn lemma_child_scan(m: TreeModel, id: NodeId, k: nat, depth: int, levels: nat)
    requires
        m.linked(),
        m.has(id),
        k <= m.children[id].len(),
    ensures
        m.scan(m.child_tours(id, k, levels), depth) == (
            m.child_rows(id, k, depth + 1, levels),
            depth,
        ),
    decreases levels, k + 1,
{
    if k > 0 {
        let c = m.children[id][k - 1];
        assert(m.link(id, k - 1, c));
        lemma_child_scan(m, id, (k - 1) as nat, depth, levels);
        lemma_tour_scan(m, c, depth, levels);
        lemma_scan_concat(
            m,
            m.child_tours(id, (k - 1) as nat, levels),
            m.tour(c, levels),
            depth,
        );
        assert(m.is_last(c) == (k == m.children[id].len()));
    }
}

/// Inside the walk below a node the depth stays below that of the node.
proof fn lemma_tour_depth(m: TreeModel, id: NodeId, depth: int, levels: nat, n: int)
    requires
        m.linked(),
        m.has(id),
        0 <= n <= m.tour(id, levels).len(),
    ensures
        m.scan(m.tour(id, levels).take(n), depth).1 >= depth,
        0 < n < m.tour(id, levels).len() ==> m.scan(m.tour(id, levels).take(n), depth).1 > depth,
    decreases levels, 0nat,
{
    let whole = m.tour(id, levels);
    if levels > 0 {
        let k = m.children[id].len();
        let inner = m.child_tours(id, k, (levels - 1) as nat);
        let open = seq![Edge::Open(id)];
        if n == whole.len() {
            assert(whole.take(n) =~= whole);
            lemma_tour_scan(m, id, depth, levels);
        } else if n == 0 {
            assert(whole.take(n) =~= Seq::<Edge>::empty());
        } else {
            assert(whole.take(n) =~= open + inner.take(n - 1));
            lemma_scan_concat(m, open, inner.take(n - 1), depth);
            assert(open.drop_last() =~= Seq::<Edge>::empty());
            reveal_with_fuel(TreeModel::scan, 2);
            lemma_child_depth(m, id, k, depth + 1, (levels - 1) as nat, n - 1);
        }
    } else {
        assert(whole.take(n) =~= Seq::<Edge>::empty());
    }
}

proof fn lemma_child_depth(m: TreeModel, id: NodeId, k: nat, depth: int, levels: nat, n: int)
    requires
        m.linked(),
        m.has(id),
        k <= m.children[id].len(),
        0 <= n <= m.child_tours(id, k, levels).len(),
    ensures
        m.scan(m.child_tours(id, k, levels).take(n), depth).1 >= depth,
    decreases levels, k + 1,
{
    let whole = m.child_tours(id, k, levels);
    if k == 0 {
        assert(whole.take(n) =~= Seq::<Edge>::empty());
    } else {
        let c = m.children[id][k - 1];
        assert(m.link(id, k - 1, c));
        let before = m.child_tours(id, (k - 1) as nat, levels);
        let here = m.tour(c, levels);
        if n <= before.len() {
            assert(whole.take(n) =~= before.take(n));
            lemma_child_depth(m, id, (k - 1) as nat, depth, levels, n);
        } else {
            assert(whole.take(n) =~= before + here.take(n - before.len()));
            lemma_scan_concat(m, before, here.take(n - before.len()), depth);
            lemma_child_scan(m, id, (k - 1) as nat, depth, levels);
            lemma_tour_depth(m, c, depth, levels, n - before.len());
        }
    }
}

/// The node that an edge enters or leaves.
spec fn edge_node(edge: Edge) -> NodeId {
    match edge {
        Edge::Open(id) => id,
        Edge::Close(id) => id,
    }
}

/// A walk stays within the tree.
proof fn lemma_tour_nodes(m: TreeModel, id: NodeId, levels: nat)
    requires
        m.linked(),
        m.has(id),
    ensures
        forall|n: int|
            0 <= n < m.tour(id, levels).len() ==> m.has(
                edge_node(#[trigger] m.tour(id, levels)[n]),
            ),
    decreases levels, 0nat,
{
    if levels > 0 {
        let k = m.children[id].len();
        let whole = m.tour(id, levels);
        let inner = m.child_tours(id, k, (levels - 1) as nat);
        lemma_child_nodes(m, id, k, (levels - 1) as nat);
        assert forall|n: int| 0 <= n < whole.len() implies m.has(
            edge_node(#[trigger] whole[n]),
        ) by {
            if 0 < n < whole.len() - 1 {
                assert(whole[n] == inner[n - 1]);
            }
        }
    }
}

proof fn lemma_child_nodes(m: TreeModel, id: NodeId, k: nat, levels: nat)
    requires
        m.linked(),
        m.has(id),
        k <= m.children[id].len(),
    ensures
        forall|n: int|
            0 <= n < m.child_tours(id, k, levels).len() ==> m.has(
                edge_node(#[trigger] m.child_tours(id, k, levels)[n]),
            ),
    decreases levels, k + 1,
{
    if k > 0 {
        let c = m.children[id][k - 1];
        assert(m.link(id, k - 1, c));
        lemma_child_nodes(m, id, (k - 1) as nat, levels);
        lemma_tour_nodes(m, c, levels);
        let whole = m.child_tours(id, k, levels);
        let before = m.child_tours(id, (k - 1) as nat, levels);
        let here = m.tour(c, levels);
        assert forall|n: int| 0 <= n < whole.len() implies m.has(
            edge_node(#[trigger] whole[n]),
        ) by {
            if n < before.len() {
                assert(whole[n] == before[n]);
            } else {
                assert(whole[n] == here[n - before.len()]);
            }
        }
    }
}

/// The table lines of the tree.
pub(crate) fn tree_rows(tree: &Tree<ProcessNode>) -> (rows: Vec<ProcessRow>)
    requires
        model(*tree).wf(),
    ensures
        rows@ == model(*tree).rows(),
{
    let edges = traverse(tree);
    let mut rows: Vec<ProcessRow> = Vec::new();
    let mut depth: usize = 0;
    let ghost m = model(*tree);
    proof {
        lemma_tour_nodes(m, m.root, m.values.len());
        assert(edges@.take(0) =~= Seq::<Edge>::empty());
    }
    for n in 0..edges.len()
        invariant
            m == model(*tree),
            m.wf(),
            edges@ == m.tour(m.root, m.values.len()),
            (rows@, depth as int) == m.scan(edges@.take(n as int), 0),
            depth <= n,
            forall|i: int| 0 <= i < edges@.len() ==> m.has(edge_node(#[trigger] edges@[i])),
    {
        proof {
            assert(edges@.take(n + 1).drop_last() =~= edges@.take(n as int));
            assert(m.has(edge_node(edges@[n as int])));
            lemma_tour_depth(m, m.root, 0, m.values.len(), n as int);
        }
        match edges[n] {
            Edge::Open(id) => {
                depth = depth + 1;
                let last = next_sibling_of(tree, id).is_none();
                proof {
                    if m.adopted(id) {
                        let (p, i) = choose|p: NodeId, i: int| m.link(p, i, id);
                        assert(m.link(p, i, id));
                        assert(last == m.is_last(id));
                    } else {
                        assert(m.is_last(id));
                    }
                }
                if let Some(ProcessNode::Process(pid)) = value_of(tree, id) {
                    let prefix = if depth <= 2 {
                        TreePrefix::FirstChild
                    } else if last {
                        TreePrefix::LastChild
                    } else {
                        TreePrefix::MiddleChild
                    };
                    rows.push((depth, prefix, pid));
                }
                assert(rows@ =~= m.scan(edges@.take(n + 1), 0).0);
            },
            Edge::Close(id) => {
                assert(n > 0) by {
                    assert(m.values.len() > 0) by {
                        assert(m.values.dom().contains(m.root));
                        vstd::set_lib::lemma_set_empty_equivalency_len(m.values.dom());
                    }
                    assert(edges@[0] == Edge::Open(m.root));
                }
                depth = depth - 1;
            },
        }
    }
    proof {
        assert(edges@.take(edges@.len() as int) =~= edges@);
        lemma_tour_scan(m, m.root, 0, m.values.len());
        assert(m.is_last(m.root));
    }
    rows
}

} // verus!
