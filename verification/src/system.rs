//! One round of measurements: the processes, their tree, and what the machine as
//! a whole uses.

use std::collections::HashMap;
use vstd::prelude::*;

use crate::lineage::{grown_from, rooted, rooted_within, Parents, TreeError};
use crate::number::Single;
use crate::process::{shown_of, ProcessData, ProcessSample, ProcessTree};
use crate::tree::{Pid, ProcessNode, ProcessRow, TreeModel};

verus! {

/// One round of measurements.
#[derive(Debug)]
pub struct SystemInformation {
    pub process_tree: ProcessTree,
    pub process_data: HashMap<Pid, ProcessData>,
    pub mem_usage: Single,
    pub cpu_usage: Vec<Single>,
}

/// One round of measurements.
pub struct SystemModel {
    pub tree: TreeModel,
    pub data: Map<Pid, ProcessData>,
    pub mem_usage: Single,
    pub cpu_usage: Seq<Single>,
}

impl View for SystemInformation {
    type V = SystemModel;

    open spec fn view(&self) -> SystemModel {
        SystemModel {
            tree: self.process_tree@,
            data: self.process_data@,
            mem_usage: self.mem_usage,
            cpu_usage: self.cpu_usage@,
        }
    }
}

impl SystemModel {
    /// The tree is a tree of processes, each of which was measured.
    pub open spec fn wf(self) -> bool {
        &&& self.tree.wf()
        &&& forall|pid: Pid| #[trigger]
            self.tree.pids().contains(pid) ==> self.data.contains_key(pid)
    }

    /// Each process is filed under its own number.
    pub open spec fn filed(self) -> bool {
        forall|pid: Pid| #[trigger] self.data.contains_key(pid) ==> self.data[pid].pid == pid
    }
}

impl Default for SystemInformation {
    /// No process, and nothing used.
    fn default() -> (res: SystemInformation)
        ensures
            res@.wf(),
            res@.tree.pids() == Set::<Pid>::empty(),
            res@.tree.rows() == Seq::<ProcessRow>::empty(),
            res@.data == Map::<Pid, ProcessData>::empty(),
            res@.mem_usage == (Single { bits: 0 }),
            res@.cpu_usage == Seq::<Single>::empty(),
    {
        broadcast use vstd::std_specs::hash::group_hash_axioms;

        SystemInformation {
            process_tree: ProcessTree::default(),
            process_data: HashMap::new(),
            mem_usage: Single::default(),
            cpu_usage: Vec::new(),
        }
    }
}

/// A measured process and its parent, where it has one.
#[derive(Debug)]
pub struct Measured {
    pub parent: Option<Pid>,
    pub process: ProcessSample,
}

/// The parent of each measured process. Of two with one number the later counts.
pub open spec fn parents_in(measured: Seq<Measured>) -> Parents
    decreases measured.len(),
{
    if measured.len() == 0 {
        Map::empty()
    } else {
        parents_in(measured.drop_last()).insert(measured.last().process.pid, measured.last().parent)
    }
}

/// What is shown of each measured process. Of two with one number the later counts.
pub open spec fn data_in(measured: Seq<Measured>) -> Map<Pid, ProcessData>
    decreases measured.len(),
{
    if measured.len() == 0 {
        Map::empty()
    } else {
        data_in(measured.drop_last()).insert(
            measured.last().process.pid,
            shown_of(measured.last().process),
        )
    }
}

proof fn lemma_filed(measured: Seq<Measured>)
    ensures
        parents_in(measured).dom() == data_in(measured).dom(),
        forall|pid: Pid| #[trigger]
            data_in(measured).contains_key(pid) ==> data_in(measured)[pid].pid == pid,
    decreases measured.len(),
{
    if measured.len() > 0 {
        lemma_filed(measured.drop_last());
    }
    assert(parents_in(measured).dom() =~= data_in(measured).dom());
}

impl SystemInformation {
    /// Files the measured processes and grows their tree.
    pub fn gather(
        measured: Vec<Measured>,
        mem_usage: Single,
        cpu_usage: Vec<Single>,
    ) -> (res: Result<SystemInformation, TreeError>)
        ensures
            res is Ok,
            res matches Ok(info) ==> {
                &&& info@.wf()
                &&& info@.filed()
                &&& grown_from(info@.tree, parents_in(measured@))
                &&& info@.data == data_in(measured@)
                &&& info@.mem_usage == mem_usage
                &&& info@.cpu_usage == cpu_usage@
            },
    {
        broadcast use vstd::std_specs::hash::group_hash_axioms;

        let ghost all = measured@;
        let mut parents: HashMap<Pid, Option<Pid>> = HashMap::new();
        let mut process_data: HashMap<Pid, ProcessData> = HashMap::new();
        for one in it: measured
            invariant
                it.seq() == all,
                parents@ == parents_in(it.seq().take(it.index())),
                process_data@ == data_in(it.seq().take(it.index())),
        {
            proof {
                let done = it.seq().take(it.index() + 1);
                assert(done.drop_last() =~= it.seq().take(it.index()));
                assert(done.last() == one);
            }
            parents.insert(one.process.pid, one.parent);
            process_data.insert(one.process.pid, ProcessData::from_process(one.process));
        }
        proof {
            assert(all.take(all.len() as int) =~= all);
            lemma_filed(all);
        }
        match ProcessTree::try_new(&parents) {
            Ok(process_tree) => {
                proof {
                    let pids = process_tree@.pids();
                    assert forall|pid: Pid| #[trigger]
                        pids.contains(pid) implies process_data@.contains_key(pid) by {
                        assert(rooted(parents@, pid));
                        let steps = choose|steps: nat| rooted_within(parents@, pid, steps);
                        assert(rooted_within(parents@, pid, steps));
                    }
                }
                Ok(SystemInformation { process_tree, process_data, mem_usage, cpu_usage })
            },
            Err(err) => Err(err),
        }
    }
}

/// Whether a measurement is the last one of its process.
pub open spec fn last_of_its_process(measured: Seq<Measured>, k: int) -> bool {
    &&& 0 <= k < measured.len()
    &&& forall|j: int|
        k < j < measured.len() ==> (#[trigger] measured[j]).process.pid != measured[k].process.pid
}

proof fn lemma_last_counts(measured: Seq<Measured>, k: int)
    requires
        last_of_its_process(measured, k),
    ensures
        data_in(measured).contains_key(measured[k].process.pid),
        data_in(measured)[measured[k].process.pid] == shown_of(measured[k].process),
        parents_in(measured).contains_key(measured[k].process.pid),
        parents_in(measured)[measured[k].process.pid] == measured[k].parent,
    decreases measured.len(),
{
    if k < measured.len() - 1 {
        let rest = measured.drop_last();
        assert(measured[measured.len() - 1].process.pid != measured[k].process.pid);
        assert forall|j: int| k < j < rest.len() implies (#[trigger] rest[j]).process.pid
            != rest[k].process.pid by {
            assert(rest[j] == measured[j]);
        }
        lemma_last_counts(rest, k);
    }
}

proof fn lemma_has_a_last(measured: Seq<Measured>, pid: Pid) -> (k: int)
    requires
        data_in(measured).contains_key(pid),
    ensures
        last_of_its_process(measured, k),
        measured[k].process.pid == pid,
    decreases measured.len(),
{
    if measured.last().process.pid == pid {
        measured.len() - 1
    } else {
        let rest = measured.drop_last();
        let k = lemma_has_a_last(rest, pid);
        assert forall|j: int| k < j < measured.len() implies (#[trigger] measured[j]).process.pid
            != measured[k].process.pid by {
            if j < rest.len() {
                assert(rest[j] == measured[j]);
            }
        }
        k
    }
}

/// The last measurement of each process counts, as it was made, and nothing is filed that
/// was not measured. What the machine uses is passed on.
pub proof fn the_last_measurement_counts(
    measured: Vec<Measured>,
    mem_usage: Single,
    cpu_usage: Vec<Single>,
    res: Result<SystemInformation, TreeError>,
    k: int,
    pid: Pid,
)
    requires
        call_ensures(SystemInformation::gather, (measured, mem_usage, cpu_usage), res),
    ensures
        res matches Ok(info) && {
            let data = info.process_data@;
            let one = measured@[k];
            let filed = data[one.process.pid];
            &&& last_of_its_process(measured@, k) ==> {
                &&& data.contains_key(one.process.pid)
                &&& filed.pid == one.process.pid
                &&& one.process.exe matches Some(exe) ==> filed.name@ == exe@
                &&& one.process.exe is None ==> filed.name@ == one.process.name@
                &&& filed.user@ == one.process.user@
                &&& filed.cpu_usage == one.process.cpu_usage
                &&& filed.memory_usage == one.process.memory_usage
                &&& filed.memory_percent == one.process.memory_percent
            }
            &&& data.contains_key(pid) == exists|j: int|
                0 <= j < measured@.len() && (#[trigger] measured@[j]).process.pid == pid
            &&& info.mem_usage == mem_usage && info.cpu_usage@ == cpu_usage@
        },
{
    if last_of_its_process(measured@, k) {
        lemma_last_counts(measured@, k);
    }
    if data_in(measured@).contains_key(pid) {
        let j = lemma_has_a_last(measured@, pid);
        assert(measured@[j].process.pid == pid);
    }
    lemma_measured_is_filed(measured@, pid);
}

proof fn lemma_measured_is_filed(measured: Seq<Measured>, pid: Pid)
    ensures
        (exists|j: int| 0 <= j < measured.len() && (#[trigger] measured[j]).process.pid == pid)
            ==> data_in(measured).contains_key(pid),
    decreases measured.len(),
{
    if exists|j: int| 0 <= j < measured.len() && (#[trigger] measured[j]).process.pid == pid {
        let j = choose|j: int|
            0 <= j < measured.len() && (#[trigger] measured[j]).process.pid == pid;
        if j < measured.len() - 1 {
            let rest = measured.drop_last();
            assert(rest[j].process.pid == pid);
            lemma_measured_is_filed(rest, pid);
        }
    }
}

/// In the tree of a round of measurements a process hangs below the parent that its last
/// measurement names, and at the top where that names none.
pub proof fn measured_processes_hang_below_their_parents(
    measured: Vec<Measured>,
    mem_usage: Single,
    cpu_usage: Vec<Single>,
    res: Result<SystemInformation, TreeError>,
    k: int,
    p: ego_tree::NodeId,
    i: int,
    c: ego_tree::NodeId,
)
    requires
        call_ensures(SystemInformation::gather, (measured, mem_usage, cpu_usage), res),
        last_of_its_process(measured@, k),
        res matches Ok(info) && info.process_tree@.has(p) && 0 <= i
            < info.process_tree@.children[p].len() && info.process_tree@.children[p][i] == c
            && info.process_tree@.values[c] == ProcessNode::Process(measured@[k].process.pid),
    ensures
        res matches Ok(info) && {
            &&& measured@[k].parent is None == (p == info.process_tree@.root)
            &&& measured@[k].parent matches Some(up) ==> info.process_tree@.values[p]
                == ProcessNode::Process(up)
        },
{
    lemma_last_counts(measured@, k);
    let tree = (res->Ok_0).process_tree@;
    assert(tree.link(p, i, c));
    if p != tree.root {
        assert(tree.has(p));
        assert(tree.values[p] is Process);
    }
}

} // verus!
