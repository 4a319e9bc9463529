//! The processes of a system and the tree that their parents make of them.

use core::cmp::Ordering;
use ego_tree::{NodeId, Tree};
use vstd::prelude::*;

use crate::number::Single;
use crate::order::{sorted_by, sorting_is_stable};
use crate::tree::{
    children_of, compares, compares_at, model, new_tree, node_rank, ranks, ranks_at, root_id,
    sort_children, tree_rows, value_of, Pid, ProcessNode, ProcessRow, TreeModel,
};

verus! {

impl ProcessNode {
    /// Whether this is the placeholder above the top processes.
    #[must_use]
    pub fn is_root(&self) -> (res: bool)
        ensures
            res == (*self is Root),
    {
        matches!(self, ProcessNode::Root)
    }

    /// Whether this is a process.
    #[must_use]
    pub fn is_process(&self) -> (res: bool)
        ensures
            res == (*self is Process),
    {
        matches!(self, ProcessNode::Process(_))
    }
}

/// What is shown of a process.
#[derive(Debug)]
pub struct ProcessData {
    pub pid: Pid,
    pub name: String,
    pub user: String,
    pub cpu_usage: Single,
    pub memory_usage: u64,
    pub memory_percent: Single,
}

/// What was measured of a process: the path of its program, where that is known,
/// its name, its user, and what it uses.
#[derive(Debug)]
pub struct ProcessSample {
    pub pid: Pid,
    pub exe: Option<String>,
    pub name: String,
    pub user: String,
    pub cpu_usage: Single,
    pub memory_usage: u64,
    pub memory_percent: Single,
}

/// What is shown of a measured process: the path of its program stands for its
/// name, where it is known.
pub open spec fn shown_of(value: ProcessSample) -> ProcessData {
    ProcessData {
        pid: value.pid,
        name: match value.exe {
            Some(exe) => exe,
            None => value.name,
        },
        user: value.user,
        cpu_usage: value.cpu_usage,
        memory_usage: value.memory_usage,
        memory_percent: value.memory_percent,
    }
}

impl ProcessData {
    /// What is shown of a measured process.
    pub fn from_process(value: ProcessSample) -> (res: ProcessData)
        ensures
            res == shown_of(value),
    {
        let name = match value.exe {
            Some(exe) => exe,
            None => value.name,
        };
        ProcessData {
            pid: value.pid,
            name,
            user: value.user,
            cpu_usage: value.cpu_usage,
            memory_usage: value.memory_usage,
            memory_percent: value.memory_percent,
        }
    }
}

impl Clone for ProcessData {
    fn clone(&self) -> (res: ProcessData)
        ensures
            res == *self,
    {
        ProcessData {
            pid: self.pid,
            name: self.name.clone(),
            user: self.user.clone(),
            cpu_usage: self.cpu_usage,
            memory_usage: self.memory_usage,
            memory_percent: self.memory_percent,
        }
    }
}

/// The processes among some nodes, in order.
pub open spec fn processes_among(nodes: Seq<ProcessNode>) -> Seq<Pid>
    decreases nodes.len(),
{
    if nodes.len() == 0 {
        Seq::empty()
    } else {
        let before = processes_among(nodes.drop_last());
        match nodes.last() {
            ProcessNode::Root => before,
            ProcessNode::Process(pid) => before.push(pid),
        }
    }
}

/// Nodes of a tree, to be taken without the placeholder.
pub trait SkipPlaceholderRoot: Sized {
    /// The nodes, in order.
    spec fn nodes(&self) -> Seq<ProcessNode>;

    /// The processes among the nodes, in order.
    fn skip_placeholder_root(self) -> (res: Vec<Pid>)
        ensures
            res@ == processes_among(self.nodes()),
    ;
}

impl SkipPlaceholderRoot for Vec<ProcessNode> {
    open spec fn nodes(&self) -> Seq<ProcessNode> {
        self@
    }

    fn skip_placeholder_root(self) -> (res: Vec<Pid>) {
        let mut res: Vec<Pid> = Vec::new();
        for i in 0..self.len()
            invariant
                res@ == processes_among(self@.take(i as int)),
        {
            proof {
                assert(self@.take(i + 1).drop_last() =~= self@.take(i as int));
            }
            match self[i] {
                ProcessNode::Root => {},
                ProcessNode::Process(pid) => {
                    res.push(pid);
                },
            }
        }
        proof {
            assert(self@.take(self@.len() as int) =~= self@);
        }
        res
    }
}

/// The tree of processes, below a placeholder for the system.
#[derive(Debug)]
pub struct ProcessTree(pub Tree<ProcessNode>);

impl View for ProcessTree {
    type V = TreeModel;

    open spec fn view(&self) -> TreeModel {
        model(self.0)
    }
}

impl TreeModel {
    /// The tree with the children of some nodes sorted.
    spec fn partly_sorted(
        self,
        done: Set<NodeId>,
        rank: spec_fn(ProcessNode) -> int,
    ) -> TreeModel {
        TreeModel {
            children: Map::new(
                |id: NodeId| self.children.contains_key(id),
                |id: NodeId|
                    if done.contains(id) {
                        sorted_by(self.children[id], node_rank(self.values, rank))
                    } else {
                        self.children[id]
                    },
            ),
            ..self
        }
    }

    /// Nodes that are done have only children that are done or waiting, and what
    /// is done or waiting has a parent that is done.
    spec fn progress(self, done: Set<NodeId>, waiting: Seq<NodeId>) -> bool {
        &&& forall|id: NodeId| #[trigger] done.contains(id) ==> self.has(id)
        &&& forall|i: int|
            0 <= i < waiting.len() ==> self.has(#[trigger] waiting[i]) && !done.contains(
                waiting[i],
            )
        &&& waiting.no_duplicates()
        &&& done.contains(self.root) || waiting.contains(self.root)
        &&& forall|p: NodeId, i: int, c: NodeId| #[trigger]
            self.link(p, i, c) ==> (done.contains(p) <==> done.contains(c) || waiting.contains(c))
    }
}

/// A sequence with the items of another that has none twice has none twice.
pub proof fn same_items_no_duplicates<A>(s: Seq<A>, t: Seq<A>)
    requires
        s.to_multiset() == t.to_multiset(),
        s.no_duplicates(),
    ensures
        t.no_duplicates(),
        t.len() == s.len(),
        forall|x: A| #[trigger] t.contains(x) == s.contains(x),
{
    broadcast use vstd::seq_lib::group_to_multiset_ensures;

    assert(s.len() == s.to_multiset().len());
    assert(t.len() == t.to_multiset().len());
    assert forall|x: A| #[trigger] t.contains(x) == s.contains(x) by {
        assert(t.to_multiset().count(x) > 0 <==> t.contains(x));
        assert(s.to_multiset().count(x) > 0 <==> s.contains(x));
    }
    s.lemma_multiset_has_no_duplicates();
    assert forall|x: A| t.to_multiset().contains(x) implies t.to_multiset().count(x) == 1 by {}
    t.lemma_multiset_has_no_duplicates_conv();
}

/// Sorting child lists keeps who is whose child.
proof fn lemma_partly_sorted_links(
    m: TreeModel,
    done: Set<NodeId>,
    rank: spec_fn(ProcessNode) -> int,
)
    requires
        m.wf(),
    ensures
        m.partly_sorted(done, rank).wf(),
        forall|id: NodeId| #[trigger]
            m.has(id) ==> m.partly_sorted(done, rank).children[id].no_duplicates()
                && m.partly_sorted(done, rank).children[id].len() == m.children[id].len() && (
            forall|c: NodeId|
                m.children[id].contains(c) == #[trigger] m.partly_sorted(
                    done,
                    rank,
                ).children[id].contains(c)),
{
    let n = m.partly_sorted(done, rank);
    assert forall|id: NodeId| #[trigger] m.has(id) implies n.children[id].no_duplicates()
        && n.children[id].len() == m.children[id].len() && (forall|c: NodeId|
        m.children[id].contains(c) == #[trigger] n.children[id].contains(c)) by {
        let s = m.children[id];
        assert(s.no_duplicates()) by {
            assert forall|i: int, j: int|
                0 <= i < s.len() && 0 <= j < s.len() && i != j implies s[i] != s[j] by {
                assert(m.link(id, i, s[i]));
                assert(m.link(id, j, s[j]));
            }
        }
        if done.contains(id) {
            sorting_is_stable(s, node_rank(m.values, rank), 0);
            same_items_no_duplicates(s, n.children[id]);
        }
    }
    assert forall|p: NodeId, i: int, c: NodeId| #[trigger] n.link(p, i, c) implies exists|j: int|
        m.link(p, j, c) by {
        assert(m.has(p));
        assert(n.children[p].contains(c));
        assert(m.children[p].contains(c));
        let j = choose|j: int| 0 <= j < m.children[p].len() && m.children[p][j] == c;
        assert(m.link(p, j, c));
    }
    assert forall|p: NodeId, i: int, c: NodeId| #[trigger] m.link(p, i, c) implies exists|j: int|
        n.link(p, j, c) by {
        assert(m.children[p].contains(c));
        assert(n.children[p].contains(c));
        let j = choose|j: int| 0 <= j < n.children[p].len() && n.children[p][j] == c;
        assert(n.link(p, j, c));
    }
    assert(n.children.dom() =~= n.values.dom());
    assert forall|p: NodeId, i: int, q: NodeId, j: int, c: NodeId|
        #[trigger] n.link(p, i, c) && #[trigger] n.link(q, j, c) implies p == q && i == j by {
        let a = choose|a: int| m.link(p, a, c);
        let b = choose|b: int| m.link(q, b, c);
        assert(m.link(p, a, c) && m.link(q, b, c));
        assert(n.children[p].no_duplicates());
    }
    assert(n.linked());
    let level = choose|level: spec_fn(NodeId) -> nat| m.leveled(level);
    assert(n.leveled(level)) by {
        assert forall|p: NodeId, i: int, c: NodeId| #[trigger] n.link(p, i, c) implies level(c)
            == level(p) + 1 by {
            let j = choose|j: int| m.link(p, j, c);
            assert(m.link(p, j, c));
        }
        assert forall|id: NodeId| #[trigger] n.has(id) && id != n.root implies n.adopted(id) by {
            assert(m.has(id) && m.adopted(id));
            let (p, i) = choose|p: NodeId, i: int| m.link(p, i, id);
            assert(m.link(p, i, id));
            let j = choose|j: int| n.link(p, j, id);
            assert(n.link(p, j, id));
        }
        assert forall|id: NodeId| #[trigger] n.has(id) implies level(id) < n.values.len() by {
            assert(m.has(id));
        }
    }
    assert forall|id: NodeId| #[trigger]
        n.has(id) && id != n.root implies n.values[id] is Process by {
        assert(m.has(id));
    }
}

/// Two trees with the same values have the same processes.
pub proof fn same_values_same_pids(a: TreeModel, b: TreeModel)
    requires
        a.values == b.values,
    ensures
        a.pids() == b.pids(),
{
    assert forall|pid: Pid| #[trigger] a.pids().contains(pid) == b.pids().contains(pid) by {
        if a.pids().contains(pid) {
            let id = choose|id: NodeId| #[trigger]
                a.has(id) && a.values[id] == ProcessNode::Process(pid);
            assert(b.has(id));
        }
        if b.pids().contains(pid) {
            let id = choose|id: NodeId| #[trigger]
                b.has(id) && b.values[id] == ProcessNode::Process(pid);
            assert(a.has(id));
        }
    }
    assert(a.pids() =~= b.pids());
}

/// Sorting the children of every node leaves a tree of the same processes.
pub proof fn sorting_keeps_the_tree(m: TreeModel, rank: spec_fn(ProcessNode) -> int)
    requires
        m.wf(),
    ensures
        m.sorted(rank).wf(),
        m.sorted(rank).values == m.values,
{
    lemma_partly_sorted_links(m, m.values.dom(), rank);
    let all = m.partly_sorted(m.values.dom(), rank);
    assert(all.children =~= m.sorted(rank).children);
}

/// Nodes are children of one parent in two trees that list the same children.
proof fn lemma_same_siblings(m: TreeModel, n: TreeModel, p: NodeId)
    requires
        m.values == n.values,
        forall|c: NodeId| m.children[p].contains(c) == #[trigger] n.children[p].contains(c),
    ensures
        forall|x: NodeId, y: NodeId| #[trigger] n.siblings(p, x, y) == m.siblings(p, x, y),
{
}

/// Children of one parent are processes: no sort compares the placeholder.
pub proof fn siblings_are_processes(m: TreeModel, p: NodeId, x: NodeId, y: NodeId)
    requires
        m.wf(),
        m.siblings(p, x, y),
    ensures
        x != m.root && y != m.root,
        m.values[x] matches ProcessNode::Process(pid) && m.pids().contains(pid),
        m.values[y] matches ProcessNode::Process(pid) && m.pids().contains(pid),
{
    let i = choose|i: int| 0 <= i < m.children[p].len() && m.children[p][i] == x;
    let j = choose|j: int| 0 <= j < m.children[p].len() && m.children[p][j] == y;
    assert(m.link(p, i, x) && m.link(p, j, y));
    assert(m.has(x) && m.has(y));
}

/// A sort asks of a comparison that it can be called on two processes, and no more: it
/// hands it two children of one parent each time, and never the placeholder.
pub proof fn sorting_compares_processes_alone<F: Fn(&ProcessNode, &ProcessNode) -> Ordering>(
    f: F,
    m: TreeModel,
)
    requires
        m.wf(),
        forall|a: Pid, b: Pid|
            m.pids().contains(a) && m.pids().contains(b) ==> #[trigger] f.requires(
                (&ProcessNode::Process(a), &ProcessNode::Process(b)),
            ),
    ensures
        compares(f, m),
{
    assert forall|p: NodeId| #[trigger] m.has(p) implies compares_at(f, m, p) by {
        assert forall|x: NodeId, y: NodeId| #[trigger] m.siblings(p, x, y) implies f.requires(
            (&m.values[x], &m.values[y]),
        ) by {
            siblings_are_processes(m, p, x, y);
        }
    }
}

/// Puts `items` on top of `stack`.
pub(crate) fn push_all<T: Copy>(stack: &mut Vec<T>, items: &Vec<T>)
    ensures
        final(stack)@ == old(stack)@ + items@,
{
    let ghost rest = stack@;
    for k in 0..items.len()
        invariant
            stack@ == rest + items@.take(k as int),
    {
        stack.push(items[k]);
        assert(items@.take(k + 1) =~= items@.take(k as int).push(items@[k as int]));
    }
    assert(items@.take(items@.len() as int) =~= items@);
}

/// What holds of the root and passes from parent to child holds of all nodes.
proof fn lemma_reaches_all(
    m: TreeModel,
    done: Set<NodeId>,
    id: NodeId,
    level: spec_fn(NodeId) -> nat,
)
    requires
        m.linked(),
        m.leveled(level),
        done.contains(m.root),
        forall|p: NodeId, i: int, c: NodeId| #[trigger]
            m.link(p, i, c) && done.contains(p) ==> done.contains(c),
        m.has(id),
    ensures
        done.contains(id),
    decreases level(id),
{
    if id != m.root {
        assert(m.adopted(id));
        let (p, i) = choose|p: NodeId, i: int| m.link(p, i, id);
        assert(m.link(p, i, id));
        lemma_reaches_all(m, done, p, level);
    }
}

impl ProcessTree {
    /// The tree with no process in it.
    pub fn new() -> (res: ProcessTree)
        ensures
            res@.wf(),
            res@.pids() == Set::<Pid>::empty(),
            res@.rows() == Seq::<ProcessRow>::empty(),
    {
        let tree = new_tree(ProcessNode::Root);
        let res = ProcessTree(tree);
        proof {
            let m = res@;
            assert(m.children.dom() =~= m.values.dom());
            assert(m.values.dom() =~= set![m.root]);
            assert(m.leveled(|id: NodeId| 0nat));
            assert(m.pids() =~= Set::empty());
            reveal_with_fuel(TreeModel::subtree_rows, 2);
            reveal_with_fuel(TreeModel::child_rows, 2);
            assert(m.rows() =~= Seq::<ProcessRow>::empty());
        }
        res
    }

    /// The table lines of the tree, each process after its parent.
    pub fn rows(&self) -> (rows: Vec<ProcessRow>)
        requires
            self@.wf(),
        ensures
            rows@ == self@.rows(),
    {
        tree_rows(&self.0)
    }

    /// The processes without a parent.
    pub fn top_processes(&self) -> (res: Vec<Pid>)
        requires
            self@.wf(),
        ensures
            res@ == processes_among(
                self@.children[self@.root].map_values(|id: NodeId| self@.values[id]),
            ),
    {
        let mut nodes: Vec<ProcessNode> = Vec::new();
        let root = root_id(&self.0);
        if let Some(ids) = children_of(&self.0, root) {
            for i in 0..ids.len()
                invariant
                    self@.wf(),
                    ids@ == self@.children[self@.root],
                    nodes@.len() == i,
                    forall|k: int| 0 <= k < i ==> #[trigger] nodes@[k] == self@.values[ids@[k]],
            {
                assert(self@.link(self@.root, i as int, ids@[i as int]));
                if let Some(node) = value_of(&self.0, ids[i]) {
                    nodes.push(node);
                }
            }
            proof {
                assert(nodes@ =~= self@.children[self@.root].map_values(
                    |id: NodeId| self@.values[id],
                ));
            }
        }
        nodes.skip_placeholder_root()
    }

    /// Sorts the children of every node by `f`, equal ones staying in order. Only
    /// children of one parent are compared: nothing is asked of `f` on other nodes, nor
    /// on the placeholder.
    pub fn deep_sort_by<F: Fn(&ProcessNode, &ProcessNode) -> Ordering>(&mut self, f: F)
        requires
            old(self)@.wf(),
            compares(f, old(self)@),
            exists|rank: spec_fn(ProcessNode) -> int| ranks(f, old(self)@, rank),
        ensures
            final(self)@.wf(),
            forall|rank: spec_fn(ProcessNode) -> int| #[trigger]
                ranks(f, old(self)@, rank) ==> final(self)@ == old(self)@.sorted(rank),
    {
        let ghost m = self@;
        let ghost some_rank = choose|rank: spec_fn(ProcessNode) -> int| ranks(f, m, rank);
        let ghost mut done = Set::<NodeId>::empty();
        let mut stack: Vec<NodeId> = Vec::new();
        stack.push(root_id(&self.0));
        proof {
            assert(stack@[0] == m.root);
            assert forall|rank: spec_fn(ProcessNode) -> int| #[trigger]
                ranks(f, m, rank) implies self@ == m.partly_sorted(done, rank) by {
                assert(self@ =~= m.partly_sorted(done, rank)) by {
                    assert(self@.children =~= m.partly_sorted(done, rank).children);
                }
            }
            assert forall|p: NodeId, i: int, c: NodeId| #[trigger] m.link(p, i, c) implies (
            done.contains(p) <==> done.contains(c) || stack@.contains(c)) by {
                assert(c != m.root);
            }
        }
        while stack.len() > 0
            invariant
                m.wf(),
                compares(f, m),
                ranks(f, m, some_rank),
                forall|rank: spec_fn(ProcessNode) -> int| #[trigger]
                    ranks(f, m, rank) ==> self@ == m.partly_sorted(done, rank),
                m.progress(done, stack@),
                done.finite(),
                done.subset_of(m.values.dom()),
            decreases m.values.len() - done.len(),
        {
            let ghost before = stack@;
            let ghost was_done = done;
            if let Some(node_id) = stack.pop() {
                assert(stack@ =~= before.drop_last());
                assert(node_id == before.last());
                assert(m.has(before[before.len() - 1]));
                proof {
                    assert(ranks(f, m, some_rank));
                    lemma_partly_sorted_links(m, was_done, some_rank);
                    assert(self@.values == m.values);
                    lemma_same_siblings(m, self@, node_id);
                    assert(m.has(node_id));
                    assert forall|rank: spec_fn(ProcessNode) -> int| #[trigger]
                        ranks(f, m, rank) implies ranks_at(f, self@, node_id, rank) by {
                        assert(ranks_at(f, m, node_id, rank));
                    }
                    assert(ranks_at(f, self@, node_id, some_rank));
                }
                let ghost unsorted = self@;
                sort_children(&mut self.0, node_id, &f);
                proof {
                    done = done.insert(node_id);
                    assert forall|rank: spec_fn(ProcessNode) -> int| #[trigger]
                        ranks(f, m, rank) implies self@ == m.partly_sorted(done, rank) by {
                        assert(ranks_at(f, unsorted, node_id, rank));
                        let prior = m.partly_sorted(was_done, rank);
                        let next = m.partly_sorted(done, rank);
                        assert(self@ == prior.sorted_at(node_id, rank));
                        assert(self@.children =~= next.children) by {
                            assert forall|id: NodeId| #[trigger]
                                next.children.contains_key(id) implies self@.children[id]
                                == next.children[id] by {}
                        }
                        assert(self@ =~= next);
                    }
                    lemma_partly_sorted_links(m, done, some_rank);
                    assert(self@ == m.partly_sorted(done, some_rank));
                    vstd::set_lib::lemma_len_subset(done, m.values.dom());
                }
                let children = children_of(&self.0, node_id);
                if let Some(ids) = children {
                    let ghost listed = ids@;
                    let ghost rest = stack@;
                    push_all(&mut stack, &ids);
                    proof {
                        assert(stack@ == rest + listed);
                        lemma_progress(m, was_done, before, node_id, listed);
                    }
                }
            }
        }
        proof {
            let level = choose|level: spec_fn(NodeId) -> nat| m.leveled(level);
            assert forall|p: NodeId, i: int, c: NodeId| #[trigger] m.link(p, i, c)
                && done.contains(p) implies done.contains(c) by {}
            assert forall|id: NodeId| m.has(id) implies #[trigger] done.contains(id) by {
                lemma_reaches_all(m, done, id, level);
            }
            assert forall|rank: spec_fn(ProcessNode) -> int| #[trigger]
                ranks(f, m, rank) implies self@ == m.sorted(rank) by {
                assert(self@ == m.partly_sorted(done, rank));
                assert(self@.children =~= m.sorted(rank).children) by {
                    assert forall|id: NodeId| #[trigger]
                        m.sorted(rank).children.contains_key(id) implies self@.children[id]
                        == m.sorted(rank).children[id] by {
                        assert(m.has(id));
                        assert(done.contains(id));
                    }
                }
                assert(self@ =~= m.sorted(rank));
            }
            lemma_partly_sorted_links(m, done, some_rank);
        }
    }
}

impl Default for ProcessTree {
    /// The tree with no process in it.
    fn default() -> (res: ProcessTree)
        ensures
            res@.wf(),
            res@.pids() == Set::<Pid>::empty(),
            res@.rows() == Seq::<ProcessRow>::empty(),
    {
        ProcessTree::new()
    }
}

/// One step of the sort: a waiting node is done and its children wait.
proof fn lemma_progress(
    m: TreeModel,
    done: Set<NodeId>,
    waiting: Seq<NodeId>,
    id: NodeId,
    listed: Seq<NodeId>,
)
    requires
        m.wf(),
        m.progress(done, waiting),
        waiting.len() > 0,
        id == waiting.last(),
        listed.no_duplicates(),
        forall|c: NodeId| m.children[id].contains(c) == #[trigger] listed.contains(c),
    ensures
        m.progress(done.insert(id), waiting.drop_last() + listed),
{
    let now = done.insert(id);
    let rest = waiting.drop_last();
    let next = rest + listed;
    let level = choose|level: spec_fn(NodeId) -> nat| m.leveled(level);
    assert(waiting.contains(id));
    assert(m.has(waiting[waiting.len() - 1]));
    assert(!done.contains(waiting[waiting.len() - 1]));
    assert forall|c: NodeId| #[trigger] listed.contains(c) implies m.has(c) && !now.contains(c)
        && !waiting.contains(c) by {
        let i = choose|i: int| 0 <= i < m.children[id].len() && m.children[id][i] == c;
        assert(m.link(id, i, c));
    }
    assert forall|i: int| 0 <= i < next.len() implies m.has(#[trigger] next[i]) && !now.contains(
        next[i],
    ) by {
        if i < rest.len() {
            assert(next[i] == waiting[i]);
            assert(waiting[i] != waiting[waiting.len() - 1]);
        } else {
            assert(next[i] == listed[i - rest.len()]);
            assert(listed.contains(next[i]));
        }
    }
    assert(next.no_duplicates()) by {
        assert forall|i: int, j: int|
            0 <= i < next.len() && 0 <= j < next.len() && i != j implies next[i] != next[j] by {
            if i < rest.len() && j >= rest.len() {
                assert(listed.contains(listed[j - rest.len()]));
                assert(waiting.contains(waiting[i]));
            }
            if j < rest.len() && i >= rest.len() {
                assert(listed.contains(listed[i - rest.len()]));
                assert(waiting.contains(waiting[j]));
            }
        }
    }
    assert forall|c: NodeId| #[trigger] next.contains(c) == (listed.contains(c) || (
    waiting.contains(c) && c != id)) by {
        if waiting.contains(c) && c != id {
            let i = choose|i: int| 0 <= i < waiting.len() && waiting[i] == c;
            assert(next[i] == c);
        }
        if listed.contains(c) {
            let i = choose|i: int| 0 <= i < listed.len() && listed[i] == c;
            assert(next[rest.len() + i] == c);
        }
        if next.contains(c) {
            let i = choose|i: int| 0 <= i < next.len() && next[i] == c;
            if i < rest.len() {
                assert(waiting[i] == c);
                assert(waiting[i] != waiting[waiting.len() - 1]);
            } else {
                assert(listed[i - rest.len()] == c);
            }
        }
    }
    assert forall|p: NodeId, i: int, c: NodeId| #[trigger] m.link(p, i, c) implies (now.contains(p)
        <==> now.contains(c) || next.contains(c)) by {
        if p == id {
            assert(m.children[id].contains(c));
            assert(listed.contains(c));
        } else {
            if listed.contains(c) {
                let j = choose|j: int| 0 <= j < m.children[id].len() && m.children[id][j] == c;
                assert(m.link(id, j, c));
            }
        }
    }
}

/// What is shown of a measured process is what was measured. The path of its program
/// stands for its name, where it is known.
pub proof fn what_is_shown_was_measured(value: ProcessSample, res: ProcessData)
    requires
        call_ensures(ProcessData::from_process, (value,), res),
    ensures
        res.pid == value.pid,
        value.exe matches Some(exe) ==> res.name@ == exe@,
        value.exe is None ==> res.name@ == value.name@,
        res.user@ == value.user@,
        res.cpu_usage == value.cpu_usage,
        res.memory_usage == value.memory_usage,
        res.memory_percent == value.memory_percent,
{
}

proof fn lemma_all_processes(nodes: Seq<ProcessNode>)
    requires
        forall|i: int| 0 <= i < nodes.len() ==> (#[trigger] nodes[i]) is Process,
    ensures
        processes_among(nodes).len() == nodes.len(),
        forall|i: int|
            0 <= i < nodes.len() ==> nodes[i] == ProcessNode::Process(
                #[trigger] processes_among(nodes)[i],
            ),
    decreases nodes.len(),
{
    if nodes.len() > 0 {
        let rest = nodes.drop_last();
        assert forall|i: int| 0 <= i < rest.len() implies (#[trigger] rest[i]) is Process by {
            assert(nodes[i] is Process);
        }
        lemma_all_processes(rest);
        assert(nodes[nodes.len() - 1] is Process);
        assert forall|i: int| 0 <= i < nodes.len() implies nodes[i] == ProcessNode::Process(
            #[trigger] processes_among(nodes)[i],
        ) by {
            if i < rest.len() {
                assert(processes_among(nodes)[i] == processes_among(rest)[i]);
                assert(rest[i] == nodes[i]);
            }
        }
    }
}

/// The processes at the top are those directly below the placeholder, in order.
pub proof fn the_top_processes_stand_below_the_placeholder(
    tree: ProcessTree,
    res: Vec<Pid>,
    i: int,
)
    requires
        call_ensures(ProcessTree::top_processes, (&tree,), res),
        tree@.wf(),
    ensures
        res@.len() == tree@.children[tree@.root].len(),
        0 <= i < res@.len() ==> tree@.values[tree@.children[tree@.root][i]]
            == ProcessNode::Process(res@[i]),
{
    let m = tree@;
    let ids = m.children[m.root];
    let nodes = ids.map_values(|id: NodeId| m.values[id]);
    assert forall|k: int| 0 <= k < nodes.len() implies (#[trigger] nodes[k]) is Process by {
        assert(m.link(m.root, k, ids[k]));
        assert(m.has(ids[k]));
    }
    lemma_all_processes(nodes);
    if 0 <= i < res@.len() {
        assert(nodes[i] == ProcessNode::Process(res@[i]));
    }
}

/// Without the placeholder nodes come out in order: one more node adds its process at the
/// end, or nothing where it is the placeholder.
pub proof fn one_node_more(
    few: Vec<ProcessNode>,
    more: Vec<ProcessNode>,
    node: ProcessNode,
    a: Vec<Pid>,
    b: Vec<Pid>,
)
    requires
        more@ == few@.push(node),
        call_ensures(<Vec<ProcessNode>>::skip_placeholder_root, (few,), a),
        call_ensures(<Vec<ProcessNode>>::skip_placeholder_root, (more,), b),
    ensures
        node is Root ==> b@ == a@,
        node matches ProcessNode::Process(pid) ==> b@ == a@.push(pid),
        few@.len() == 0 ==> a@.len() == 0,
{
    assert(more@.drop_last() =~= few@);
}

} // verus!
