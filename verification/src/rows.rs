//! Which processes the table lists, and in which order.

use ego_tree::NodeId;
use vstd::prelude::*;

use crate::tree::{prefix_at, Pid, ProcessNode, TreeModel, TreePrefix};

verus! {

impl TreeModel {
    /// Whether the way from `x` up leads to `top` in `n` steps.
    spec fn below(self, top: NodeId, x: NodeId, n: nat) -> bool
        decreases n,
    {
        if n == 0 {
            x == top
        } else {
            exists|p: NodeId, i: int| #[trigger]
                self.link(p, i, x) && self.below(top, p, (n - 1) as nat)
        }
    }

    /// The nodes of a part of the tree, in the order of its table lines.
    pub open spec fn subtree_ids(self, id: NodeId, levels: nat) -> Seq<NodeId>
        decreases levels, 0nat,
    {
        if levels == 0 {
            Seq::empty()
        } else {
            seq![id] + self.child_ids(id, self.children[id].len(), (levels - 1) as nat)
        }
    }

    /// The nodes of the first `k` children of `id` and of what is below them.
    pub open spec fn child_ids(self, id: NodeId, k: nat, levels: nat) -> Seq<NodeId>
        decreases levels, k + 1,
    {
        if k == 0 {
            Seq::empty()
        } else {
            self.child_ids(id, (k - 1) as nat, levels) + self.subtree_ids(
                self.children[id][k - 1],
                levels,
            )
        }
    }

    /// The nodes of the tree, in the order of its table lines, the placeholder first.
    pub open spec fn ids(self) -> Seq<NodeId> {
        self.subtree_ids(self.root, self.values.len())
    }

    /// No two nodes hold the same value.
    pub open spec fn distinct(self) -> bool {
        forall|a: NodeId, b: NodeId|
            #[trigger] self.has(a) && #[trigger] self.has(b) && self.values[a] == self.values[b]
                ==> a == b
    }
}

/// The way up is the only one.
proof fn lemma_one_way_up(m: TreeModel, a: NodeId, b: NodeId, x: NodeId, n: nat)
    requires
        m.linked(),
        m.below(a, x, n),
        m.below(b, x, n),
    ensures
        a == b,
    decreases n,
{
    if n > 0 {
        let (p, i) = choose|p: NodeId, i: int| #[trigger]
            m.link(p, i, x) && m.below(a, p, (n - 1) as nat);
        let (q, j) = choose|q: NodeId, j: int| #[trigger]
            m.link(q, j, x) && m.below(b, q, (n - 1) as nat);
        assert(p == q);
        lemma_one_way_up(m, a, b, p, (n - 1) as nat);
    }
}

/// From a child one step more leads to its parent.
proof fn lemma_one_more(m: TreeModel, top: NodeId, i: int, c: NodeId, x: NodeId, n: nat)
    requires
        m.link(top, i, c),
        m.below(c, x, n),
    ensures
        m.below(top, x, n + 1),
    decreases n,
{
    if n == 0 {
        assert(m.below(top, top, 0));
        assert(m.link(top, i, x) && m.below(top, top, 0));
    } else {
        let (p, j) = choose|p: NodeId, j: int| #[trigger]
            m.link(p, j, x) && m.below(c, p, (n - 1) as nat);
        lemma_one_more(m, top, i, c, p, (n - 1) as nat);
        assert(m.link(p, j, x) && m.below(top, p, n));
    }
}

/// The last step of a way up starts at a child.
proof fn lemma_last_step(m: TreeModel, top: NodeId, x: NodeId, n: nat) -> (i: int)
    requires
        n > 0,
        m.below(top, x, n),
    ensures
        m.link(top, i, m.children[top][i]),
        m.below(m.children[top][i], x, (n - 1) as nat),
    decreases n,
{
    let (p, j) = choose|p: NodeId, j: int| #[trigger]
        m.link(p, j, x) && m.below(top, p, (n - 1) as nat);
    if n == 1 {
        assert(p == top);
        j
    } else {
        let i = lemma_last_step(m, top, p, (n - 1) as nat);
        assert(m.link(p, j, x) && m.below(m.children[top][i], p, (n - 2) as nat));
        i
    }
}

/// All nodes of a part of the tree lead up to its top, and none comes twice.
proof fn lemma_subtree_ids(m: TreeModel, level: spec_fn(NodeId) -> nat, id: NodeId, levels: nat)
    requires
        m.linked(),
        m.leveled(level),
        m.has(id),
    ensures
        m.subtree_ids(id, levels).no_duplicates(),
        forall|x: NodeId| #[trigger]
            m.subtree_ids(id, levels).contains(x) ==> m.has(x) && level(x) >= level(id) && m.below(
                id,
                x,
                (level(x) - level(id)) as nat,
            ),
    decreases levels, 0nat,
{
    if levels > 0 {
        let k = m.children[id].len();
        let inner = m.child_ids(id, k, (levels - 1) as nat);
        let all = m.subtree_ids(id, levels);
        lemma_child_ids(m, level, id, k, (levels - 1) as nat);
        assert(all == seq![id] + inner);
        assert forall|x: NodeId| #[trigger] all.contains(x) implies m.has(x) && level(x) >= level(
            id,
        ) && m.below(id, x, (level(x) - level(id)) as nat) by {
            let j = choose|j: int| 0 <= j < all.len() && all[j] == x;
            if j > 0 {
                assert(inner[j - 1] == x);
                assert(inner.contains(x));
            }
        }
        assert forall|a: int, b: int|
            0 <= a < all.len() && 0 <= b < all.len() && a != b implies all[a] != all[b] by {
            if a > 0 {
                assert(all[a] == inner[a - 1]);
                assert(inner.contains(all[a]));
            }
            if b > 0 {
                assert(all[b] == inner[b - 1]);
                assert(inner.contains(all[b]));
            }
        }
    }
}

proof fn lemma_child_ids(
    m: TreeModel,
    level: spec_fn(NodeId) -> nat,
    id: NodeId,
    k: nat,
    levels: nat,
)
    requires
        m.linked(),
        m.leveled(level),
        m.has(id),
        k <= m.children[id].len(),
    ensures
        m.child_ids(id, k, levels).no_duplicates(),
        forall|x: NodeId| #[trigger]
            m.child_ids(id, k, levels).contains(x) ==> m.has(x) && level(x) > level(id) && m.below(
                id,
                x,
                (level(x) - level(id)) as nat,
            ) && exists|j: int|
                0 <= j < k && m.below(
                    #[trigger] m.children[id][j],
                    x,
                    (level(x) - level(id) - 1) as nat,
                ),
    decreases levels, k + 1,
{
    if k > 0 {
        let c = m.children[id][k - 1];
        assert(m.link(id, k - 1, c));
        lemma_child_ids(m, level, id, (k - 1) as nat, levels);
        lemma_subtree_ids(m, level, c, levels);
        let a = m.child_ids(id, (k - 1) as nat, levels);
        let b = m.subtree_ids(c, levels);
        let all = m.child_ids(id, k, levels);
        assert(all == a + b);
        assert forall|x: NodeId| #[trigger] b.contains(x) implies m.has(x) && level(x) > level(id)
            && m.below(id, x, (level(x) - level(id)) as nat) && m.below(
            c,
            x,
            (level(x) - level(id) - 1) as nat,
        ) by {
            lemma_one_more(m, id, k - 1, c, x, (level(x) - level(c)) as nat);
        }
        assert forall|x: NodeId| #[trigger] all.contains(x) implies a.contains(x) || b.contains(
            x,
        ) by {
            let j = choose|j: int| 0 <= j < all.len() && all[j] == x;
            if j < a.len() {
                assert(a[j] == x);
            } else {
                assert(b[j - a.len()] == x);
            }
        }
        assert forall|x: NodeId| #[trigger] all.contains(x) implies m.has(x) && level(x) > level(id)
            && m.below(id, x, (level(x) - level(id)) as nat) && exists|j: int|
            0 <= j < k && m.below(
                #[trigger] m.children[id][j],
                x,
                (level(x) - level(id) - 1) as nat,
            ) by {
            if a.contains(x) {
                let j = choose|j: int|
                    0 <= j < k - 1 && m.below(
                        #[trigger] m.children[id][j],
                        x,
                        (level(x) - level(id) - 1) as nat,
                    );
                assert(0 <= j < k);
            } else {
                assert(b.contains(x));
                assert(m.children[id][k - 1] == c);
            }
        }
        assert forall|x: NodeId| a.contains(x) && #[trigger] b.contains(x) implies false by {
            let n = (level(x) - level(id) - 1) as nat;
            let j = choose|j: int|
                0 <= j < k - 1 && m.below(#[trigger] m.children[id][j], x, n);
            lemma_one_way_up(m, m.children[id][j], c, x, n);
            assert(m.link(id, j, c));
        }
        assert forall|s: int, t: int|
            0 <= s < all.len() && 0 <= t < all.len() && s != t implies all[s] != all[t] by {
            if s < a.len() && t >= a.len() {
                assert(a.contains(a[s]));
                assert(b.contains(b[t - a.len()]));
            }
            if t < a.len() && s >= a.len() {
                assert(a.contains(a[t]));
                assert(b.contains(b[s - a.len()]));
            }
        }
    }
}

/// What leads up to the top in less than `levels` steps is listed.
proof fn lemma_listed(m: TreeModel, id: NodeId, x: NodeId, n: nat, levels: nat)
    requires
        m.linked(),
        m.has(id),
        m.below(id, x, n),
        n < levels,
    ensures
        m.subtree_ids(id, levels).contains(x),
    decreases n,
{
    let k = m.children[id].len();
    let inner = m.child_ids(id, k, (levels - 1) as nat);
    let all = m.subtree_ids(id, levels);
    assert(all == seq![id] + inner);
    if n == 0 {
        assert(all[0] == x);
    } else {
        let i = lemma_last_step(m, id, x, n);
        let c = m.children[id][i];
        lemma_listed(m, c, x, (n - 1) as nat, (levels - 1) as nat);
        lemma_in_child(m, id, i, x, k, (levels - 1) as nat);
        let j = choose|j: int| 0 <= j < inner.len() && inner[j] == x;
        assert(all[j + 1] == x);
    }
}

proof fn lemma_in_child(m: TreeModel, id: NodeId, i: int, x: NodeId, k: nat, levels: nat)
    requires
        0 <= i < k,
        m.subtree_ids(m.children[id][i], levels).contains(x),
    ensures
        m.child_ids(id, k, levels).contains(x),
    decreases k,
{
    let a = m.child_ids(id, (k - 1) as nat, levels);
    let b = m.subtree_ids(m.children[id][k - 1], levels);
    let all = m.child_ids(id, k, levels);
    assert(all == a + b);
    if i == k - 1 {
        let j = choose|j: int| 0 <= j < b.len() && b[j] == x;
        assert(all[a.len() + j] == x);
    } else {
        lemma_in_child(m, id, i, x, (k - 1) as nat, levels);
        let j = choose|j: int| 0 <= j < a.len() && a[j] == x;
        assert(all[j] == x);
    }
}

/// Every node leads up to the root.
proof fn lemma_up_to_root(m: TreeModel, level: spec_fn(NodeId) -> nat, x: NodeId)
    requires
        m.linked(),
        m.leveled(level),
        m.has(x),
    ensures
        m.below(m.root, x, level(x)),
    decreases level(x),
{
    if x != m.root {
        assert(m.adopted(x));
        let (p, i) = choose|p: NodeId, i: int| m.link(p, i, x);
        assert(m.link(p, i, x));
        lemma_up_to_root(m, level, p);
        assert(m.link(p, i, x) && m.below(m.root, p, (level(x) - 1) as nat));
    }
}

/// The lines below a process, node by node.
proof fn lemma_subtree_lines(m: TreeModel, id: NodeId, last: bool, depth: int, levels: nat)
    requires
        m.wf(),
        m.has(id),
        id != m.root,
    ensures
        m.subtree_rows(id, last, depth, levels).len() == m.subtree_ids(id, levels).len(),
        forall|i: int|
            #![trigger m.subtree_rows(id, last, depth, levels)[i]]
            0 <= i < m.subtree_ids(id, levels).len() ==> m.values[m.subtree_ids(id, levels)[i]]
                == ProcessNode::Process(m.subtree_rows(id, last, depth, levels)[i].2),
    decreases levels, 0nat,
{
    if levels > 0 {
        let k = m.children[id].len();
        assert(m.values[id] is Process);
        lemma_child_lines(m, id, k, depth + 1, (levels - 1) as nat);
    }
}

proof fn lemma_child_lines(m: TreeModel, id: NodeId, k: nat, depth: int, levels: nat)
    requires
        m.wf(),
        m.has(id),
        k <= m.children[id].len(),
    ensures
        m.child_rows(id, k, depth, levels).len() == m.child_ids(id, k, levels).len(),
        forall|i: int|
            #![trigger m.child_rows(id, k, depth, levels)[i]]
            0 <= i < m.child_ids(id, k, levels).len() ==> m.values[m.child_ids(id, k, levels)[i]]
                == ProcessNode::Process(m.child_rows(id, k, depth, levels)[i].2),
    decreases levels, k + 1,
{
    if k > 0 {
        let c = m.children[id][k - 1];
        let last = k == m.children[id].len();
        assert(m.link(id, k - 1, c));
        lemma_child_lines(m, id, (k - 1) as nat, depth, levels);
        lemma_subtree_lines(m, c, last, depth, levels);
        let a = m.child_rows(id, (k - 1) as nat, depth, levels);
        let b = m.subtree_rows(c, last, depth, levels);
        let all = m.child_rows(id, k, depth, levels);
        assert(all == a + b);
        let ids = m.child_ids(id, k, levels);
        assert forall|i: int|
            #![trigger all[i]]
            0 <= i < ids.len() implies m.values[ids[i]] == ProcessNode::Process(all[i].2) by {
            if i < a.len() {
                assert(all[i] == a[i]);
            } else {
                assert(all[i] == b[i - a.len()]);
            }
        }
    }
}

/// The table has one line for each node but the placeholder.
pub proof fn rows_stand_for_nodes(m: TreeModel)
    requires
        m.wf(),
    ensures
        m.ids().no_duplicates(),
        forall|x: NodeId| #[trigger] m.ids().contains(x) == m.has(x),
        m.ids().len() == m.rows().len() + 1,
        m.ids()[0] == m.root,
        forall|i: int|
            #![trigger m.rows()[i]]
            0 <= i < m.rows().len() ==> m.values[m.ids()[i + 1]] == ProcessNode::Process(
                m.rows()[i].2,
            ),
{
    let level = choose|level: spec_fn(NodeId) -> nat| m.leveled(level);
    let n = m.values.len();
    assert(m.has(m.root));
    assert(level(m.root) < n);
    let k = m.children[m.root].len();
    lemma_subtree_ids(m, level, m.root, n);
    assert forall|x: NodeId| #[trigger] m.ids().contains(x) == m.has(x) by {
        if m.has(x) {
            lemma_up_to_root(m, level, x);
            lemma_listed(m, m.root, x, level(x), n);
        }
    }
    lemma_child_lines(m, m.root, k, 2, (n - 1) as nat);
    assert(m.rows() =~= m.child_rows(m.root, k, 2, (n - 1) as nat));
}

/// The table lists exactly the processes of the tree.
pub proof fn rows_list_every_process(m: TreeModel, pid: Pid)
    requires
        m.wf(),
    ensures
        (exists|i: int| 0 <= i < m.rows().len() && (#[trigger] m.rows()[i]).2 == pid)
            == m.pids().contains(pid),
        m.rows().len() + 1 == m.values.len(),
{
    rows_stand_for_nodes(m);
    assert forall|i: int| 0 <= i < m.rows().len() implies m.pids().contains(
        (#[trigger] m.rows()[i]).2,
    ) by {
        let id = m.ids()[i + 1];
        assert(m.ids().contains(id));
        assert(m.has(id));
    }
    if m.pids().contains(pid) {
        let id = choose|id: NodeId| #[trigger]
            m.has(id) && m.values[id] == ProcessNode::Process(pid);
        assert(m.ids().contains(id));
        let j = choose|j: int| 0 <= j < m.ids().len() && m.ids()[j] == id;
        assert(j > 0);
        assert(m.rows()[j - 1].2 == pid);
    }
    m.ids().unique_seq_to_set();
    assert(m.ids().to_set() =~= m.values.dom()) by {
        assert forall|x: NodeId| #[trigger] m.ids().to_set().contains(x) == m.values.dom().contains(
            x,
        ) by {
            assert(m.ids().contains(x) == m.has(x));
        }
    }
}

/// Where no process stands twice in the tree, none stands twice in the table.
pub proof fn rows_list_no_process_twice(m: TreeModel, i: int, j: int)
    requires
        m.wf(),
        m.distinct(),
        0 <= i < j < m.rows().len(),
    ensures
        m.rows()[i].2 != m.rows()[j].2,
{
    rows_stand_for_nodes(m);
    let a = m.ids()[i + 1];
    let b = m.ids()[j + 1];
    assert(m.ids().contains(a) && m.ids().contains(b));
    assert(m.has(a) && m.has(b));
    let one = m.rows()[i];
    let other = m.rows()[j];
}

/// `x` stands before `y`.
pub open spec fn stands_before(s: Seq<NodeId>, x: NodeId, y: NodeId) -> bool {
    exists|a: int, b: int| 0 <= a < b < s.len() && #[trigger] s[a] == x && #[trigger] s[b] == y
}

proof fn lemma_parent_first(m: TreeModel, id: NodeId, levels: nat, p: NodeId, i: int, c: NodeId)
    requires
        m.linked(),
        m.has(id),
        m.link(p, i, c),
        m.subtree_ids(id, levels).contains(c),
        c != id,
    ensures
        stands_before(m.subtree_ids(id, levels), p, c),
    decreases levels, 0nat,
{
    let k = m.children[id].len();
    let inner = m.child_ids(id, k, (levels - 1) as nat);
    let all = m.subtree_ids(id, levels);
    assert(all == seq![id] + inner);
    let j = choose|j: int| 0 <= j < all.len() && all[j] == c;
    assert(inner[j - 1] == c);
    if p == id {
        assert(all[0] == p && all[j] == c);
    } else {
        assert(inner.contains(c));
        lemma_parent_first_among(m, id, k, (levels - 1) as nat, p, i, c);
        let (a, b) = choose|a: int, b: int|
            0 <= a < b < inner.len() && #[trigger] inner[a] == p && #[trigger] inner[b] == c;
        assert(all[a + 1] == p && all[b + 1] == c);
    }
}

proof fn lemma_parent_first_among(
    m: TreeModel,
    id: NodeId,
    k: nat,
    levels: nat,
    p: NodeId,
    i: int,
    c: NodeId,
)
    requires
        m.linked(),
        m.has(id),
        k <= m.children[id].len(),
        m.link(p, i, c),
        p != id,
        m.child_ids(id, k, levels).contains(c),
    ensures
        stands_before(m.child_ids(id, k, levels), p, c),
    decreases levels, k + 1,
{
    let all = m.child_ids(id, k, levels);
    let last = m.children[id][k - 1];
    let before = m.child_ids(id, (k - 1) as nat, levels);
    let here = m.subtree_ids(last, levels);
    assert(all == before + here);
    assert(m.link(id, k - 1, last));
    let j = choose|j: int| 0 <= j < all.len() && all[j] == c;
    if j < before.len() {
        assert(before[j] == c);
        lemma_parent_first_among(m, id, (k - 1) as nat, levels, p, i, c);
        let (a, b) = choose|a: int, b: int|
            0 <= a < b < before.len() && #[trigger] before[a] == p && #[trigger] before[b] == c;
        assert(all[a] == p && all[b] == c);
    } else {
        assert(here[j - before.len()] == c);
        assert(here.contains(c));
        lemma_parent_first(m, last, levels, p, i, c);
        let (a, b) = choose|a: int, b: int|
            0 <= a < b < here.len() && #[trigger] here[a] == p && #[trigger] here[b] == c;
        assert(all[before.len() + a] == p && all[before.len() + b] == c);
    }
}

/// Every process stands below its parent.
pub proof fn children_stand_below_their_parent(m: TreeModel, p: NodeId, i: int, c: NodeId)
    requires
        m.wf(),
        m.link(p, i, c),
    ensures
        stands_before(m.ids(), p, c),
{
    rows_stand_for_nodes(m);
    assert(m.ids().contains(c));
    lemma_parent_first(m, m.root, m.values.len(), p, i, c);
}

/// The children of a node stand in order among what is below it.
proof fn lemma_children_in_order(m: TreeModel, id: NodeId, k: nat, levels: nat, i: int, j: int)
    requires
        m.linked(),
        m.has(id),
        k <= m.children[id].len(),
        levels > 0,
        0 <= i < j < k,
    ensures
        stands_before(m.child_ids(id, k, levels), m.children[id][i], m.children[id][j]),
    decreases k,
{
    let x = m.children[id][i];
    let y = m.children[id][j];
    let all = m.child_ids(id, k, levels);
    let before = m.child_ids(id, (k - 1) as nat, levels);
    let here = m.subtree_ids(m.children[id][k - 1], levels);
    assert(all == before + here);
    if j == k - 1 {
        assert(m.subtree_ids(x, levels)[0] == x);
        lemma_in_child(m, id, i, x, (k - 1) as nat, levels);
        let a = choose|a: int| 0 <= a < before.len() && before[a] == x;
        assert(here[0] == y);
        assert(all[a] == x && all[before.len() as int] == y);
    } else {
        lemma_children_in_order(m, id, (k - 1) as nat, levels, i, j);
        let (a, b) = choose|a: int, b: int|
            0 <= a < b < before.len() && #[trigger] before[a] == x && #[trigger] before[b] == y;
        assert(all[a] == x && all[b] == y);
    }
}

proof fn lemma_siblings(m: TreeModel, id: NodeId, levels: nat, p: NodeId, i: int, j: int)
    requires
        m.linked(),
        m.has(id),
        m.has(p),
        0 <= i < j < m.children[p].len(),
        m.subtree_ids(id, levels).contains(m.children[p][j]),
        m.children[p][j] != id,
    ensures
        stands_before(m.subtree_ids(id, levels), m.children[p][i], m.children[p][j]),
    decreases levels, 0nat,
{
    let x = m.children[p][i];
    let y = m.children[p][j];
    let k = m.children[id].len();
    let inner = m.child_ids(id, k, (levels - 1) as nat);
    let all = m.subtree_ids(id, levels);
    assert(all == seq![id] + inner);
    let t = choose|t: int| 0 <= t < all.len() && all[t] == y;
    assert(inner[t - 1] == y);
    if p == id {
        if levels == 1 {
            lemma_no_levels(m, id, k);
        }
        lemma_children_in_order(m, id, k, (levels - 1) as nat, i, j);
    } else {
        assert(inner.contains(y));
        lemma_siblings_among(m, id, k, (levels - 1) as nat, p, i, j);
    }
    let (a, b) = choose|a: int, b: int|
        0 <= a < b < inner.len() && #[trigger] inner[a] == x && #[trigger] inner[b] == y;
    assert(all[a + 1] == x && all[b + 1] == y);
}

/// On no levels there is nothing.
proof fn lemma_no_levels(m: TreeModel, id: NodeId, k: nat)
    ensures
        m.child_ids(id, k, 0).len() == 0,
    decreases k,
{
    if k > 0 {
        lemma_no_levels(m, id, (k - 1) as nat);
        assert(m.subtree_ids(m.children[id][k - 1], 0).len() == 0);
    }
}

proof fn lemma_siblings_among(
    m: TreeModel,
    id: NodeId,
    k: nat,
    levels: nat,
    p: NodeId,
    i: int,
    j: int,
)
    requires
        m.linked(),
        m.has(id),
        m.has(p),
        p != id,
        k <= m.children[id].len(),
        0 <= i < j < m.children[p].len(),
        m.child_ids(id, k, levels).contains(m.children[p][j]),
    ensures
        stands_before(m.child_ids(id, k, levels), m.children[p][i], m.children[p][j]),
    decreases levels, k + 1,
{
    let x = m.children[p][i];
    let y = m.children[p][j];
    let all = m.child_ids(id, k, levels);
    let last = m.children[id][k - 1];
    let before = m.child_ids(id, (k - 1) as nat, levels);
    let here = m.subtree_ids(last, levels);
    assert(all == before + here);
    assert(m.link(id, k - 1, last));
    assert(m.link(p, j, y));
    let t = choose|t: int| 0 <= t < all.len() && all[t] == y;
    if t < before.len() {
        assert(before[t] == y);
        lemma_siblings_among(m, id, (k - 1) as nat, levels, p, i, j);
        let (a, b) = choose|a: int, b: int|
            0 <= a < b < before.len() && #[trigger] before[a] == x && #[trigger] before[b] == y;
        assert(all[a] == x && all[b] == y);
    } else {
        assert(here[t - before.len()] == y);
        assert(here.contains(y));
        lemma_siblings(m, last, levels, p, i, j);
        let (a, b) = choose|a: int, b: int|
            0 <= a < b < here.len() && #[trigger] here[a] == x && #[trigger] here[b] == y;
        assert(all[before.len() + a] == x && all[before.len() + b] == y);
    }
}

/// The children of a process stand in the order in which the tree has them.
pub proof fn siblings_stand_in_order(m: TreeModel, p: NodeId, i: int, j: int)
    requires
        m.wf(),
        m.has(p),
        0 <= i < j < m.children[p].len(),
    ensures
        stands_before(m.ids(), m.children[p][i], m.children[p][j]),
{
    rows_stand_for_nodes(m);
    let y = m.children[p][j];
    assert(m.link(p, j, y));
    assert(m.ids().contains(y));
    lemma_siblings(m, m.root, m.values.len(), p, i, j);
}

/// The depth and the mark of each line below a process.
proof fn lemma_subtree_depths(
    m: TreeModel,
    level: spec_fn(NodeId) -> nat,
    id: NodeId,
    depth: int,
    levels: nat,
)
    requires
        m.wf(),
        m.leveled(level),
        m.has(id),
        id != m.root,
    ensures
        ({
            let rows = m.subtree_rows(id, m.is_last(id), depth, levels);
            let ids = m.subtree_ids(id, levels);
            forall|j: int|
                #![trigger rows[j]]
                0 <= j < ids.len() ==> rows[j].0 == (depth + level(ids[j]) - level(id)) as usize
                    && rows[j].1 == prefix_at(
                    m.is_last(ids[j]),
                    depth + level(ids[j]) - level(id),
                )
        }),
    decreases levels, 0nat,
{
    if levels > 0 {
        let k = m.children[id].len();
        let rows = m.subtree_rows(id, m.is_last(id), depth, levels);
        let ids = m.subtree_ids(id, levels);
        let inner = m.child_rows(id, k, depth + 1, (levels - 1) as nat);
        assert(m.values[id] is Process);
        lemma_child_depths(m, level, id, k, depth + 1, (levels - 1) as nat);
        lemma_child_lines(m, id, k, depth + 1, (levels - 1) as nat);
        assert forall|j: int|
            #![trigger rows[j]]
            0 <= j < ids.len() implies rows[j].0 == (depth + level(ids[j]) - level(id)) as usize
            && rows[j].1 == prefix_at(m.is_last(ids[j]), depth + level(ids[j]) - level(id)) by {
            if j > 0 {
                assert(rows[j] == inner[j - 1]);
            }
        }
    }
}

proof fn lemma_child_depths(
    m: TreeModel,
    level: spec_fn(NodeId) -> nat,
    id: NodeId,
    k: nat,
    depth: int,
    levels: nat,
)
    requires
        m.wf(),
        m.leveled(level),
        m.has(id),
        k <= m.children[id].len(),
    ensures
        ({
            let rows = m.child_rows(id, k, depth, levels);
            let ids = m.child_ids(id, k, levels);
            forall|j: int|
                #![trigger rows[j]]
                0 <= j < ids.len() ==> rows[j].0 == (depth + level(ids[j]) - level(id) - 1) as usize
                    && rows[j].1 == prefix_at(
                    m.is_last(ids[j]),
                    depth + level(ids[j]) - level(id) - 1,
                )
        }),
    decreases levels, k + 1,
{
    if k > 0 {
        let c = m.children[id][k - 1];
        assert(m.link(id, k - 1, c));
        assert(m.is_last(c) == (k == m.children[id].len()));
        lemma_child_depths(m, level, id, (k - 1) as nat, depth, levels);
        lemma_subtree_depths(m, level, c, depth, levels);
        lemma_child_lines(m, id, (k - 1) as nat, depth, levels);
        lemma_subtree_lines(m, c, m.is_last(c), depth, levels);
        let a = m.child_rows(id, (k - 1) as nat, depth, levels);
        let b = m.subtree_rows(c, m.is_last(c), depth, levels);
        let rows = m.child_rows(id, k, depth, levels);
        let ids = m.child_ids(id, k, levels);
        assert(rows == a + b);
        assert forall|j: int|
            #![trigger rows[j]]
            0 <= j < ids.len() implies rows[j].0 == (depth + level(ids[j]) - level(id)
            - 1) as usize && rows[j].1 == prefix_at(
            m.is_last(ids[j]),
            depth + level(ids[j]) - level(id) - 1,
        ) by {
            if j < a.len() {
                assert(rows[j] == a[j]);
            } else {
                assert(rows[j] == b[j - a.len()]);
            }
        }
    }
}

/// Between a node and its child stands only what is deeper than the node.
proof fn lemma_between(
    m: TreeModel,
    level: spec_fn(NodeId) -> nat,
    id: NodeId,
    levels: nat,
    a: int,
    b: int,
    i: int,
)
    requires
        m.linked(),
        m.leveled(level),
        m.has(id),
        0 <= a < m.subtree_ids(id, levels).len(),
        0 <= b < m.subtree_ids(id, levels).len(),
        m.link(m.subtree_ids(id, levels)[a], i, m.subtree_ids(id, levels)[b]),
    ensures
        a < b,
        forall|k: int|
            a < k < b ==> level(#[trigger] m.subtree_ids(id, levels)[k]) > level(
                m.subtree_ids(id, levels)[a],
            ),
    decreases levels, 0nat,
{
    let n = m.children[id].len();
    let inner = m.child_ids(id, n, (levels - 1) as nat);
    let all = m.subtree_ids(id, levels);
    assert(all == seq![id] + inner);
    lemma_subtree_ids(m, level, id, levels);
    lemma_child_ids(m, level, id, n, (levels - 1) as nat);
    assert(all.contains(all[a]));
    assert(level(all[b]) == level(all[a]) + 1);
    if a == 0 {
        assert forall|k: int| a < k < b implies level(#[trigger] all[k]) > level(all[a]) by {
            assert(all[k] == inner[k - 1]);
            assert(inner.contains(inner[k - 1]));
        }
    } else {
        assert(all[a] == inner[a - 1] && all[b] == inner[b - 1]);
        assert(inner.contains(inner[a - 1]));
        lemma_between_among(m, level, id, n, (levels - 1) as nat, a - 1, b - 1, i);
        assert forall|k: int| a < k < b implies level(#[trigger] all[k]) > level(all[a]) by {
            assert(all[k] == inner[k - 1]);
        }
    }
}

proof fn lemma_between_among(
    m: TreeModel,
    level: spec_fn(NodeId) -> nat,
    id: NodeId,
    n: nat,
    levels: nat,
    a: int,
    b: int,
    i: int,
)
    requires
        m.linked(),
        m.leveled(level),
        m.has(id),
        n <= m.children[id].len(),
        0 <= a < m.child_ids(id, n, levels).len(),
        0 <= b < m.child_ids(id, n, levels).len(),
        m.link(m.child_ids(id, n, levels)[a], i, m.child_ids(id, n, levels)[b]),
    ensures
        a < b,
        forall|k: int|
            a < k < b ==> level(#[trigger] m.child_ids(id, n, levels)[k]) > level(
                m.child_ids(id, n, levels)[a],
            ),
    decreases levels, n + 1,
{
    let all = m.child_ids(id, n, levels);
    let last = m.children[id][n - 1];
    let before = m.child_ids(id, (n - 1) as nat, levels);
    let here = m.subtree_ids(last, levels);
    assert(all == before + here);
    assert(m.link(id, n - 1, last));
    lemma_child_ids(m, level, id, (n - 1) as nat, levels);
    lemma_subtree_ids(m, level, last, levels);
    let (p, c) = (all[a], all[b]);
    if a < before.len() && b < before.len() {
        lemma_between_among(m, level, id, (n - 1) as nat, levels, a, b, i);
        assert forall|k: int| a < k < b implies level(#[trigger] all[k]) > level(all[a]) by {
            assert(all[k] == before[k]);
        }
    } else if a >= before.len() && b >= before.len() {
        let d = before.len() as int;
        lemma_between(m, level, last, levels, a - d, b - d, i);
        assert forall|k: int| a < k < b implies level(#[trigger] all[k]) > level(all[a]) by {
            assert(all[k] == here[k - d]);
        }
    } else if a < before.len() {
        assert(before.contains(before[a]) && here.contains(here[b - before.len()]));
        let up = (level(p) - level(id) - 1) as nat;
        let j = choose|j: int|
            0 <= j < n - 1 && m.below(#[trigger] m.children[id][j], p, up);
        lemma_parent_below(m, last, p, i, c, (up + 1) as nat);
        lemma_one_way_up(m, m.children[id][j], last, p, up);
        assert(m.link(id, j, last));
    } else {
        assert(before.contains(before[b]) && here.contains(here[a - before.len()]));
        let up = (level(c) - level(id) - 1) as nat;
        let j = choose|j: int|
            0 <= j < n - 1 && m.below(#[trigger] m.children[id][j], c, up);
        assert(m.link(id, j, m.children[id][j]));
        assert(up > 0) by {
            assert(level(p) >= level(last));
        }
        lemma_parent_below(m, m.children[id][j], p, i, c, up);
        lemma_one_way_up(m, m.children[id][j], last, p, (up - 1) as nat);
        assert(m.link(id, j, last));
    }
}

/// The way up from a child leads through its parent.
proof fn lemma_parent_below(m: TreeModel, top: NodeId, p: NodeId, i: int, c: NodeId, n: nat)
    requires
        m.linked(),
        n > 0,
        m.link(p, i, c),
        m.below(top, c, n),
    ensures
        m.below(top, p, (n - 1) as nat),
{
    let (q, j) = choose|q: NodeId, j: int| #[trigger]
        m.link(q, j, c) && m.below(top, q, (n - 1) as nat);
    assert(q == p);
}

/// The table shows the tree. The line of a child stands below that of its parent and one
/// level deeper, and all lines between them are deeper than the parent. The top
/// processes stand on the second level. A line is marked as that of a top process, as
/// that of the last child, or as that of another.
pub proof fn the_lines_show_the_tree(m: TreeModel, p: NodeId, i: int, c: NodeId, a: int, b: int)
    requires
        m.wf(),
        m.values.len() < usize::MAX,
        m.link(p, i, c),
        0 <= a < m.ids().len() && m.ids()[a] == p,
        0 <= b < m.ids().len() && m.ids()[b] == c,
    ensures
        ({
            let rows = m.rows();
            &&& a < b <= rows.len()
            &&& m.values[c] == ProcessNode::Process(rows[b - 1].2)
            &&& p == m.root ==> rows[b - 1].0 == 2 && rows[b - 1].1 is FirstChild
            &&& p != m.root ==> {
                &&& m.values[p] == ProcessNode::Process(rows[a - 1].2)
                &&& rows[b - 1].0 == rows[a - 1].0 + 1
                &&& rows[a - 1].0 >= 2
                &&& rows[b - 1].1 == if i + 1 == m.children[p].len() {
                    TreePrefix::LastChild
                } else {
                    TreePrefix::MiddleChild
                }
                &&& forall|k: int| a <= k < b - 1 ==> (#[trigger] rows[k]).0 > rows[a - 1].0
            }
        }),
{
    rows_stand_for_nodes(m);
    let level = choose|level: spec_fn(NodeId) -> nat| m.leveled(level);
    let n = m.values.len();
    let k = m.children[m.root].len();
    let rows = m.rows();
    let ids = m.ids();
    assert(m.has(m.root));
    assert(level(m.root) < n);
    lemma_between(m, level, m.root, n, a, b, i);
    lemma_child_depths(m, level, m.root, k, 2, (n - 1) as nat);
    lemma_child_lines(m, m.root, k, 2, (n - 1) as nat);
    let below = m.child_rows(m.root, k, 2, (n - 1) as nat);
    assert(rows =~= below);
    assert forall|j: int| 0 <= j < rows.len() implies (#[trigger] rows[j]).0 == level(ids[j + 1])
        + 1 && rows[j].1 == prefix_at(m.is_last(ids[j + 1]), (level(ids[j + 1]) + 1) as int) by {
        assert(rows[j] == below[j]);
        assert(ids[j + 1] == m.child_ids(m.root, k, (n - 1) as nat)[j]);
        assert(ids.contains(ids[j + 1]));
        assert(m.has(ids[j + 1]));
    }
    assert(level(c) == level(p) + 1);
    let line = rows[b - 1];
    assert(m.is_last(c) == (i + 1 == m.children[p].len()));
    if p != m.root {
        assert(a > 0);
        let over = rows[a - 1];
        assert(m.has(p) && m.adopted(p));
        assert(level(p) >= 1) by {
            let (q, j) = choose|q: NodeId, j: int| m.link(q, j, p);
            assert(m.link(q, j, p));
        }
        assert forall|t: int| a <= t < b - 1 implies (#[trigger] rows[t]).0 > over.0 by {
            assert(level(ids[t + 1]) > level(p));
        }
    }
}

} // verus!
