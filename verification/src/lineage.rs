//! Growing the process tree from what each process says of its parent.

use ego_tree::NodeId;
use std::collections::HashMap;
use vstd::prelude::*;

use crate::process::ProcessTree;
use crate::tree::{append_child, model, new_tree, root_id, Pid, ProcessNode, TreeModel};

verus! {

/// The parent of each process, for the processes that have one.
pub type Parents = Map<Pid, Option<Pid>>;

/// Why a tree could not be grown.
#[derive(Debug, Clone, Copy, PartialEq, Eq, Structural)]
pub enum TreeError {
    PidNotInTreeMap,
    ParentNotInTree,
}

/// Whether a process without a parent is at most so many steps up from `pid`.
pub open spec fn rooted_within(parents: Parents, pid: Pid, steps: nat) -> bool
    decreases steps,
{
    parents.contains_key(pid) && match parents[pid] {
        None => true,
        Some(up) => steps > 0 && rooted_within(parents, up, (steps - 1) as nat),
    }
}

/// Whether the way up from `pid` ends at a process without a parent.
pub open spec fn rooted(parents: Parents, pid: Pid) -> bool {
    exists|steps: nat| rooted_within(parents, pid, steps)
}

/// The parent that a node gives to its children.
pub open spec fn as_parent(node: ProcessNode) -> Option<Pid> {
    match node {
        ProcessNode::Root => None,
        ProcessNode::Process(pid) => Some(pid),
    }
}

/// The tree holds the rooted processes, each at one node, below its parent.
pub open spec fn grown_from(m: TreeModel, parents: Parents) -> bool {
    &&& m.wf()
    &&& forall|pid: Pid| #[trigger] m.pids().contains(pid) == rooted(parents, pid)
    &&& forall|a: NodeId, b: NodeId|
        #[trigger] m.has(a) && #[trigger] m.has(b) && m.values[a] == m.values[b] ==> a == b
    &&& forall|p: NodeId, i: int, c: NodeId| #[trigger]
        m.link(p, i, c) ==> (m.values[c] matches ProcessNode::Process(pid) && parents[pid]
            == as_parent(m.values[p]))
}

/// The processes whose parent is `up`, in no particular order.
pub fn pids_with_parent(proc: &HashMap<Pid, Option<Pid>>, up: Option<Pid>) -> (res: Vec<Pid>)
    ensures
        res@.no_duplicates(),
        forall|pid: Pid| #[trigger]
            res@.contains(pid) <==> proc@.contains_key(pid) && proc@[pid] == up,
{
    broadcast use vstd::std_specs::hash::group_hash_axioms;

    let mut res: Vec<Pid> = Vec::new();
    for entry in it: proc.iter()
        invariant
            it.seq().no_duplicates(),
            forall|i: int|
                0 <= i < it.seq().len() ==> proc@.contains_key(*(#[trigger] it.seq()[i]).0)
                    && proc@[*it.seq()[i].0] == *it.seq()[i].1,
            forall|pid: Pid| #[trigger]
                proc@.contains_key(pid) ==> it.seq().contains((&pid, &proc@[pid])),
            res@.no_duplicates(),
            forall|pid: Pid| #[trigger]
                res@.contains(pid) <==> exists|i: int|
                    0 <= i < it.index() && *(#[trigger] it.seq()[i]).0 == pid && *it.seq()[i].1
                        == up,
    {
        let (pid, parent) = entry;
        let ghost n = it.index();
        let ghost before = res@;
        assert(it.seq()[n] == entry);
        if *parent == up {
            res.push(*pid);
        }
        proof {
            if before.contains(*pid) {
                let i = choose|i: int|
                    0 <= i < n && *(#[trigger] it.seq()[i]).0 == *pid && *it.seq()[i].1 == up;
                assert(it.seq()[i] == it.seq()[n]);
            }
            assert forall|x: Pid| #[trigger] res@.contains(x) <==> exists|i: int|
                0 <= i < n + 1 && *(#[trigger] it.seq()[i]).0 == x && *it.seq()[i].1 == up by {
                if res@.contains(x) {
                    if before.contains(x) {
                        let i = choose|i: int|
                            0 <= i < n && *(#[trigger] it.seq()[i]).0 == x && *it.seq()[i].1 == up;
                        assert(0 <= i < n + 1 && *it.seq()[i].0 == x);
                    } else {
                        assert(x == *pid && *it.seq()[n].1 == up);
                    }
                }
                if exists|i: int|
                    0 <= i < n + 1 && *(#[trigger] it.seq()[i]).0 == x && *it.seq()[i].1 == up {
                    let i = choose|i: int|
                        0 <= i < n + 1 && *(#[trigger] it.seq()[i]).0 == x && *it.seq()[i].1 == up;
                    if i < n {
                        assert(before.contains(x));
                        let k = choose|k: int| 0 <= k < before.len() && before[k] == x;
                        assert(res@[k] == x);
                    } else {
                        assert(res@[res@.len() - 1] == x);
                    }
                }
            }
        }
    }
    res
}

/// A new child keeps the tree a tree, with one more link.
proof fn lemma_appended(m: TreeModel, parent: NodeId, id: NodeId, pid: Pid)
    requires
        m.wf(),
        m.has(parent),
        !m.has(id),
    ensures
        ({
            let n = m.appended(parent, id, ProcessNode::Process(pid));
            &&& n.wf()
            &&& forall|x: NodeId| #[trigger] n.has(x) <==> m.has(x) || x == id
            &&& forall|p: NodeId, i: int, c: NodeId| #[trigger]
                n.link(p, i, c) <==> m.link(p, i, c) || (p == parent && i
                    == m.children[parent].len() && c == id)
        }),
{
    let n = m.appended(parent, id, ProcessNode::Process(pid));
    assert(n.values.dom() =~= m.values.dom().insert(id));
    assert(n.children.dom() =~= n.values.dom());
    assert forall|x: NodeId| #[trigger] n.has(x) <==> m.has(x) || x == id by {}
    assert forall|p: NodeId, i: int, c: NodeId| #[trigger]
        n.link(p, i, c) <==> m.link(p, i, c) || (p == parent && i == m.children[parent].len() && c
            == id) by {
        if p == parent && n.link(p, i, c) && i < m.children[parent].len() {
            assert(m.link(p, i, c));
        }
    }
    assert(n.linked()) by {
        assert forall|p: NodeId, i: int, c: NodeId| #[trigger] n.link(p, i, c) implies n.has(c) && c
            != n.root by {
            if m.link(p, i, c) {
                assert(m.has(c));
            }
        }
        assert forall|p: NodeId, i: int, q: NodeId, j: int, c: NodeId|
            #[trigger] n.link(p, i, c) && #[trigger] n.link(q, j, c) implies p == q && i == j by {
            if m.link(p, i, c) {
                assert(m.has(c));
            }
            if m.link(q, j, c) {
                assert(m.has(c));
            }
        }
    }
    let level = choose|level: spec_fn(NodeId) -> nat| m.leveled(level);
    let taller = |x: NodeId| if x == id { (level(parent) + 1) as nat } else { level(x) };
    assert(n.leveled(taller)) by {
        assert forall|p: NodeId, i: int, c: NodeId| #[trigger] n.link(p, i, c) implies taller(c)
            == taller(p) + 1 by {
            if m.link(p, i, c) {
                assert(m.has(p) && m.has(c));
            }
        }
        assert forall|x: NodeId| #[trigger] n.has(x) implies taller(x) < n.values.len() by {
            if x != id {
                assert(m.has(x));
            } else {
                assert(m.has(parent));
            }
        }
        assert forall|x: NodeId| #[trigger] n.has(x) && x != n.root implies n.adopted(x) by {
            if x == id {
                assert(n.link(parent, m.children[parent].len() as int, id));
            } else {
                assert(m.has(x) && m.adopted(x));
                let (p, i) = choose|p: NodeId, i: int| m.link(p, i, x);
                assert(n.link(p, i, x));
            }
        }
    }
    assert forall|x: NodeId| #[trigger] n.has(x) && x != n.root implies n.values[x] is Process by {
        if x != id {
            assert(m.has(x));
        }
    }
}

/// How far the tree has grown: `nodes` tells where each process stands that is in
/// it, `done` are those whose children have been found, and `waiting` are those
/// that are still to be looked at.
spec fn growing(
    m: TreeModel,
    parents: Parents,
    nodes: Map<Pid, NodeId>,
    waiting: Seq<Pid>,
    done: Set<Pid>,
) -> bool {
    &&& m.wf()
    &&& forall|pid: Pid| #[trigger]
        nodes.contains_key(pid) ==> m.has(nodes[pid]) && nodes[pid] != m.root
            && m.values[nodes[pid]] == ProcessNode::Process(pid) && (done.contains(pid)
            || waiting.contains(pid))
    &&& forall|id: NodeId| #[trigger]
        m.has(id) && id != m.root ==> (m.values[id] matches ProcessNode::Process(pid)
            && nodes.contains_key(pid) && nodes[pid] == id)
    &&& forall|p: NodeId, i: int, c: NodeId| #[trigger]
        m.link(p, i, c) ==> (m.values[c] matches ProcessNode::Process(pid) && parents[pid]
            == as_parent(m.values[p]))
    &&& waiting.no_duplicates()
    &&& forall|i: int|
        0 <= i < waiting.len() ==> may_wait(parents, nodes, done, #[trigger] waiting[i])
    &&& forall|pid: Pid| #[trigger]
        done.contains(pid) ==> parents.contains_key(pid) && nodes.contains_key(pid) && rooted(
            parents,
            pid,
        ) && (parents[pid] matches Some(up) ==> done.contains(up))
}

/// A process may wait once its parent is done; one without a parent is in the tree.
spec fn may_wait(parents: Parents, nodes: Map<Pid, NodeId>, done: Set<Pid>, pid: Pid) -> bool {
    &&& parents.contains_key(pid)
    &&& rooted(parents, pid)
    &&& !done.contains(pid)
    &&& match parents[pid] {
        None => nodes.contains_key(pid),
        Some(up) => done.contains(up) && !nodes.contains_key(pid),
    }
}

/// Nobody has been passed over.
spec fn nobody_lost(parents: Parents, waiting: Seq<Pid>, done: Set<Pid>) -> bool {
    forall|pid: Pid| #[trigger]
        parents.contains_key(pid) && (parents[pid] matches Some(up) ==> done.contains(up))
            ==> done.contains(pid) || waiting.contains(pid)
}

/// A process is rooted when its parent is.
proof fn lemma_rooted_child(parents: Parents, pid: Pid, up: Pid)
    requires
        parents.contains_key(pid),
        parents[pid] == Some(up),
        rooted(parents, up),
    ensures
        rooted(parents, pid),
{
    let steps = choose|steps: nat| rooted_within(parents, up, steps);
    assert(rooted_within(parents, pid, steps + 1));
}

/// With nobody waiting and nobody lost, every rooted process is done.
proof fn lemma_all_done(parents: Parents, done: Set<Pid>, pid: Pid, steps: nat)
    requires
        nobody_lost(parents, Seq::empty(), done),
        rooted_within(parents, pid, steps),
    ensures
        done.contains(pid),
    decreases steps,
{
    if let Some(up) = parents[pid] {
        lemma_all_done(parents, done, up, (steps - 1) as nat);
    }
    assert(!Seq::<Pid>::empty().contains(pid));
}

/// One step: the last that waits is done, and its children wait.
proof fn lemma_wait(
    m: TreeModel,
    parents: Parents,
    nodes: Map<Pid, NodeId>,
    waiting: Seq<Pid>,
    done: Set<Pid>,
    kids: Seq<Pid>,
    n: TreeModel,
    placed: Map<Pid, NodeId>,
)
    requires
        growing(m, parents, nodes, waiting, done),
        nobody_lost(parents, waiting, done),
        waiting.len() > 0,
        kids.no_duplicates(),
        forall|pid: Pid| #[trigger]
            kids.contains(pid) <==> parents.contains_key(pid) && parents[pid] == Some(
                waiting.last(),
            ),
        match parents[waiting.last()] {
            None => n == m && placed == nodes,
            Some(up) => {
                &&& placed.contains_key(waiting.last())
                &&& !m.has(placed[waiting.last()])
                &&& placed == nodes.insert(waiting.last(), placed[waiting.last()])
                &&& n == m.appended(
                    nodes[up],
                    placed[waiting.last()],
                    ProcessNode::Process(waiting.last()),
                )
            },
        },
    ensures
        growing(n, parents, placed, waiting.drop_last() + kids, done.insert(waiting.last())),
        nobody_lost(parents, waiting.drop_last() + kids, done.insert(waiting.last())),
{
    let here = waiting.last();
    let rest = waiting.drop_last();
    let next = rest + kids;
    let now = done.insert(here);
    assert(may_wait(parents, nodes, done, waiting[waiting.len() - 1]));
    if let Some(up) = parents[here] {
        assert(done.contains(up));
        assert(nodes.contains_key(up));
        lemma_appended(m, nodes[up], placed[here], here);
    }
    assert forall|pid: Pid| #[trigger] kids.contains(pid) implies !now.contains(pid)
        && !waiting.contains(pid) && !placed.contains_key(pid) && rooted(parents, pid) by {
        lemma_rooted_child(parents, pid, here);
        if done.contains(pid) {
            assert(done.contains(here));
        }
        if waiting.contains(pid) {
            let k = choose|k: int| 0 <= k < waiting.len() && waiting[k] == pid;
            assert(may_wait(parents, nodes, done, waiting[k]));
        }
        if nodes.contains_key(pid) {
            assert(done.contains(pid) || waiting.contains(pid));
        }
        assert(waiting.contains(here));
    }
    assert forall|pid: Pid| #[trigger] next.contains(pid) == (kids.contains(pid) || (
    waiting.contains(pid) && pid != here)) by {
        if waiting.contains(pid) && pid != here {
            let k = choose|k: int| 0 <= k < waiting.len() && waiting[k] == pid;
            assert(next[k] == pid);
        }
        if kids.contains(pid) {
            let k = choose|k: int| 0 <= k < kids.len() && kids[k] == pid;
            assert(next[rest.len() + k] == pid);
        }
        if next.contains(pid) {
            let k = choose|k: int| 0 <= k < next.len() && next[k] == pid;
            if k < rest.len() {
                assert(waiting[k] == pid);
                assert(waiting[k] != waiting[waiting.len() - 1]);
            } else {
                assert(kids[k - rest.len()] == pid);
            }
        }
    }
    assert(next.no_duplicates()) by {
        assert forall|i: int, j: int|
            0 <= i < next.len() && 0 <= j < next.len() && i != j implies next[i] != next[j] by {
            if i < rest.len() && j >= rest.len() {
                assert(kids.contains(kids[j - rest.len()]));
                assert(waiting.contains(waiting[i]));
            }
            if j < rest.len() && i >= rest.len() {
                assert(kids.contains(kids[i - rest.len()]));
                assert(waiting.contains(waiting[j]));
            }
        }
    }
    assert forall|i: int| 0 <= i < next.len() implies may_wait(
        parents,
        placed,
        now,
        #[trigger] next[i],
    ) by {
        if i < rest.len() {
            assert(may_wait(parents, nodes, done, waiting[i]));
            assert(waiting[i] != waiting[waiting.len() - 1]);
        } else {
            assert(kids.contains(kids[i - rest.len()]));
        }
    }
    assert forall|pid: Pid| #[trigger] placed.contains_key(pid) implies n.has(placed[pid])
        && placed[pid] != n.root && n.values[placed[pid]] == ProcessNode::Process(pid) && (
    now.contains(pid) || next.contains(pid)) by {
        if pid != here {
            assert(nodes.contains_key(pid));
        }
    }
    assert forall|id: NodeId| #[trigger] n.has(id) && id != n.root implies (
    n.values[id] matches ProcessNode::Process(pid) && placed.contains_key(pid) && placed[pid]
        == id) by {
        if m.has(id) {
            let pid = m.values[id]->Process_0;
            assert(nodes.contains_key(pid) && nodes[pid] == id);
            if let Some(up) = parents[here] {
                assert(!nodes.contains_key(here));
            }
        }
    }
    assert forall|p: NodeId, i: int, c: NodeId| #[trigger] n.link(p, i, c) implies (
    n.values[c] matches ProcessNode::Process(pid) && parents[pid] == as_parent(n.values[p])) by {
        if m.link(p, i, c) {
            assert(m.has(p) && m.has(c));
        }
    }
    assert forall|pid: Pid| #[trigger] parents.contains_key(pid) && (
    parents[pid] matches Some(up) ==> now.contains(up)) implies now.contains(pid) || next.contains(
        pid,
    ) by {
        if parents[pid] == Some(here) {
            assert(kids.contains(pid));
        }
    }
}

impl ProcessTree {
    /// Grows the tree from the parent of each process: the processes without a
    /// parent stand at the top and the others below their parents. A process from
    /// which no way up ends at the top is left out. The order among siblings is
    /// that in which the map is walked.
    pub fn try_new(proc: &HashMap<Pid, Option<Pid>>) -> (res: Result<ProcessTree, TreeError>)
        ensures
            res matches Ok(tree) && grown_from(tree@, proc@),
    {
        broadcast use vstd::std_specs::hash::group_hash_axioms;

        let mut tree = new_tree(ProcessNode::Root);
        let root = root_id(&tree);
        let mut tree_map: HashMap<Pid, NodeId> = HashMap::new();
        let mut stack: Vec<Pid> = Vec::new();
        let ghost mut done = Set::<Pid>::empty();
        proof {
            let m = model(tree);
            assert(m.children.dom() =~= m.values.dom());
            assert(m.values.dom() =~= set![m.root]);
            assert(m.leveled(|id: NodeId| 0nat));
        }
        let top = pids_with_parent(proc, None);
        for k in 0..top.len()
            invariant
                top@.no_duplicates(),
                forall|pid: Pid| #[trigger]
                    top@.contains(pid) <==> proc@.contains_key(pid) && proc@[pid] == None::<Pid>,
                root == model(tree).root,
                stack@ == top@.take(k as int),
                done == Set::<Pid>::empty(),
                growing(model(tree), proc@, tree_map@, stack@, done),
        {
            let pid: Pid = top[k];
            let ghost m = model(tree);
            let ghost nodes = tree_map@;
            match append_child(&mut tree, root, ProcessNode::Process(pid)) {
                Some(id) => {
                    proof {
                        lemma_top(m, proc@, nodes, top@, k as int, id);
                        assert(top@.take(k + 1) =~= top@.take(k as int).push(pid));
                    }
                    tree_map.insert(pid, id);
                    stack.push(pid);
                },
                None => {
                    return Err(TreeError::ParentNotInTree);
                },
            }
        }
        proof {
            assert(top@.take(top@.len() as int) =~= top@);
            assert(nobody_lost(proc@, stack@, done));
        }
        while stack.len() > 0
            invariant
                growing(model(tree), proc@, tree_map@, stack@, done),
                nobody_lost(proc@, stack@, done),
                done.finite(),
                done.subset_of(proc@.dom()),
            decreases proc@.len() - done.len(),
        {
            let ghost waiting = stack@;
            let ghost m = model(tree);
            let ghost nodes = tree_map@;
            if let Some(value) = stack.pop() {
                assert(may_wait(proc@, nodes, done, waiting[waiting.len() - 1]));
                let kids = pids_with_parent(proc, Some(value));
                let ghost rest = stack@;
                assert(rest =~= waiting.drop_last());
                crate::process::push_all(&mut stack, &kids);
                if let Some(Some(parent_pid)) = proc.get(&value) {
                    match tree_map.get(parent_pid) {
                        Some(parent_id) => {
                            match append_child(&mut tree, *parent_id, ProcessNode::Process(value)) {
                                Some(id) => {
                                    tree_map.insert(value, id);
                                },
                                None => {
                                    return Err(TreeError::ParentNotInTree);
                                },
                            }
                        },
                        None => {
                            return Err(TreeError::PidNotInTreeMap);
                        },
                    }
                }
                proof {
                    lemma_wait(m, proc@, nodes, waiting, done, kids@, model(tree), tree_map@);
                    done = done.insert(value);
                    vstd::set_lib::lemma_len_subset(done, proc@.dom());
                }
            }
        }
        proof {
            let m = model(tree);
            assert(stack@ =~= Seq::<Pid>::empty());
            assert forall|pid: Pid| #[trigger] m.pids().contains(pid) == rooted(proc@, pid) by {
                if m.pids().contains(pid) {
                    let id = choose|id: NodeId| #[trigger]
                        m.has(id) && m.values[id] == ProcessNode::Process(pid);
                    assert(m.has(id) && id != m.root);
                    assert(tree_map@.contains_key(pid));
                    assert(done.contains(pid));
                }
                if rooted(proc@, pid) {
                    let steps = choose|steps: nat| rooted_within(proc@, pid, steps);
                    lemma_all_done(proc@, done, pid, steps);
                    assert(tree_map@.contains_key(pid));
                    assert(m.has(tree_map@[pid]));
                }
            }
            assert forall|a: NodeId, b: NodeId|
                #[trigger] m.has(a) && #[trigger] m.has(b) && m.values[a] == m.values[b] implies a
                == b by {}
        }
        Ok(ProcessTree(tree))
    }
}

/// A process without a parent goes to the top.
proof fn lemma_top(
    m: TreeModel,
    parents: Parents,
    nodes: Map<Pid, NodeId>,
    top: Seq<Pid>,
    k: int,
    id: NodeId,
)
    requires
        growing(m, parents, nodes, top.take(k), Set::empty()),
        top.no_duplicates(),
        forall|pid: Pid| #[trigger]
            top.contains(pid) <==> parents.contains_key(pid) && parents[pid] == None::<Pid>,
        0 <= k < top.len(),
        !m.has(id),
    ensures
        growing(
            m.appended(m.root, id, ProcessNode::Process(top[k])),
            parents,
            nodes.insert(top[k], id),
            top.take(k).push(top[k]),
            Set::empty(),
        ),
{
    let here = top[k];
    let before = top.take(k);
    let after = before.push(here);
    let n = m.appended(m.root, id, ProcessNode::Process(here));
    let placed = nodes.insert(here, id);
    let done = Set::<Pid>::empty();
    lemma_appended(m, m.root, id, here);
    assert(top.contains(here));
    assert(rooted_within(parents, here, 0));
    assert(after =~= top.take(k + 1));
    assert(!nodes.contains_key(here)) by {
        if nodes.contains_key(here) {
            assert(before.contains(here));
        }
    }
    assert forall|i: int| 0 <= i < after.len() implies may_wait(
        parents,
        placed,
        done,
        #[trigger] after[i],
    ) by {
        if i < before.len() {
            assert(may_wait(parents, nodes, done, before[i]));
            assert(top.contains(top[i]));
        }
    }
    assert forall|pid: Pid| #[trigger] placed.contains_key(pid) implies n.has(placed[pid])
        && placed[pid] != n.root && n.values[placed[pid]] == ProcessNode::Process(pid) && (
    done.contains(pid) || after.contains(pid)) by {
        if pid != here {
            assert(nodes.contains_key(pid));
            let j = choose|j: int| 0 <= j < before.len() && before[j] == pid;
            assert(after[j] == pid);
        } else {
            assert(after[k] == here);
        }
    }
    assert forall|x: NodeId| #[trigger] n.has(x) && x != n.root implies (
    n.values[x] matches ProcessNode::Process(pid) && placed.contains_key(pid) && placed[pid]
        == x) by {
        if m.has(x) {
            let pid = m.values[x]->Process_0;
            assert(nodes.contains_key(pid) && nodes[pid] == x);
        }
    }
    assert forall|p: NodeId, i: int, c: NodeId| #[trigger] n.link(p, i, c) implies (
    n.values[c] matches ProcessNode::Process(pid) && parents[pid] == as_parent(n.values[p])) by {
        if m.link(p, i, c) {
            assert(m.has(p) && m.has(c));
        }
    }
}

/// Whether a way leads from a process up to one without a parent, each step going to the
/// parent.
pub open spec fn way_up(parents: Parents, way: Seq<Pid>) -> bool {
    &&& way.len() > 0
    &&& forall|i: int| 0 <= i < way.len() ==> parents.contains_key(#[trigger] way[i])
    &&& forall|i: int, j: int|
        0 <= i && j == i + 1 && j < way.len() ==> parents[#[trigger] way[i]] == Some(
            #[trigger] way[j],
        )
    &&& parents[way.last()] is None
}

proof fn lemma_way_within(parents: Parents, pid: Pid, steps: nat) -> (way: Seq<Pid>)
    requires
        rooted_within(parents, pid, steps),
    ensures
        way_up(parents, way),
        way[0] == pid,
    decreases steps,
{
    match parents[pid] {
        None => seq![pid],
        Some(up) => {
            let rest = lemma_way_within(parents, up, (steps - 1) as nat);
            let way = seq![pid] + rest;
            assert forall|i: int| 0 <= i < way.len() implies parents.contains_key(
                #[trigger] way[i],
            ) by {
                if i > 0 {
                    assert(way[i] == rest[i - 1]);
                }
            }
            assert forall|i: int, j: int|
                0 <= i && j == i + 1 && j < way.len() implies parents[#[trigger] way[i]] == Some(
                #[trigger] way[j],
            ) by {
                assert(way[j] == rest[j - 1]);
                if i > 0 {
                    assert(way[i] == rest[i - 1]);
                }
            }
            assert(way.last() == rest.last());
            way
        },
    }
}

proof fn lemma_way_roots(parents: Parents, way: Seq<Pid>)
    requires
        way_up(parents, way),
    ensures
        rooted(parents, way[0]),
    decreases way.len(),
{
    if way.len() == 1 {
        assert(rooted_within(parents, way[0], 0));
    } else {
        let rest = way.skip(1);
        assert forall|i: int| 0 <= i < rest.len() implies parents.contains_key(
            #[trigger] rest[i],
        ) by {
            assert(rest[i] == way[i + 1]);
        }
        assert forall|i: int, j: int| 0 <= i && j == i + 1 && j < rest.len() implies parents[
        #[trigger] rest[i]] == Some(#[trigger] rest[j]) by {
            assert(rest[i] == way[i + 1] && rest[j] == way[j + 1]);
        }
        assert(rest.last() == way.last());
        lemma_way_roots(parents, rest);
        assert(parents[way[0]] == Some(way[1]));
        lemma_rooted_child(parents, way[0], way[1]);
    }
}

/// A tree that is grown holds a process if and only if a way leads from it up to one
/// without a parent, and none at two nodes.
pub proof fn the_tree_holds_what_has_a_way_up(
    proc: HashMap<Pid, Option<Pid>>,
    res: Result<ProcessTree, TreeError>,
    pid: Pid,
)
    requires
        call_ensures(ProcessTree::try_new, (&proc,), res),
    ensures
        res matches Ok(tree) && {
            &&& (exists|id: NodeId| #[trigger]
                tree@.has(id) && tree@.values[id] == ProcessNode::Process(pid)) == exists|
                way: Seq<Pid>,
            | #[trigger] way_up(proc@, way) && way[0] == pid
            &&& forall|a: NodeId, b: NodeId|
                #[trigger] tree@.has(a) && #[trigger] tree@.has(b) && tree@.values[a]
                    == ProcessNode::Process(pid) && tree@.values[b] == ProcessNode::Process(pid)
                    ==> a == b
        },
{
    let tree = res->Ok_0;
    assert(tree@.pids().contains(pid) == rooted(proc@, pid));
    if rooted(proc@, pid) {
        let steps = choose|steps: nat| rooted_within(proc@, pid, steps);
        let way = lemma_way_within(proc@, pid, steps);
        assert(way_up(proc@, way) && way[0] == pid);
    }
    if exists|way: Seq<Pid>| #[trigger] way_up(proc@, way) && way[0] == pid {
        let way = choose|way: Seq<Pid>| #[trigger] way_up(proc@, way) && way[0] == pid;
        lemma_way_roots(proc@, way);
    }
}

/// In a tree that is grown, a process is a child of the node of its parent, and one
/// without a parent a child of the root.
pub proof fn processes_hang_below_their_parents(
    proc: HashMap<Pid, Option<Pid>>,
    res: Result<ProcessTree, TreeError>,
    p: NodeId,
    i: int,
    c: NodeId,
    pid: Pid,
)
    requires
        call_ensures(ProcessTree::try_new, (&proc,), res),
        res matches Ok(tree) && tree@.has(p) && 0 <= i < tree@.children[p].len()
            && tree@.children[p][i] == c && tree@.values[c] == ProcessNode::Process(pid),
    ensures
        res matches Ok(tree) && {
            &&& proc@[pid] is None == (p == tree@.root)
            &&& proc@[pid] matches Some(up) ==> tree@.values[p] == ProcessNode::Process(up)
        },
{
    let tree = res->Ok_0;
    assert(tree@.link(p, i, c));
    if p != tree@.root {
        assert(tree@.has(p));
        assert(tree@.values[p] is Process);
    }
}

} // verus!
