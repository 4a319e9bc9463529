//! What the screen is drawn from, and how it follows fresh measurements.

use bit_vec::BitVec;
use core::cmp::Ordering;
use ego_tree::NodeId;
use std::collections::HashMap;
use vstd::prelude::*;

use crate::effect::{EffectsModel, TuiEffects};
use crate::number::{order_of, Single};
use crate::order::{sort_by_keys, sorted_by, sorting_is_stable};
use crate::process::{siblings_are_processes, ProcessData};
use crate::rows::rows_list_every_process;
use crate::search::{find_rows, finds, select, selection, Mode, ModeModel, SearchModel, SearchState};
use crate::system::{SystemInformation, SystemModel};
use crate::table::{bits, collect_bits, no_bits, TableState};
use crate::tree::{compares, ranks, Pid, ProcessNode, ProcessRow};

verus! {

/// By what the processes are ordered.
#[derive(Debug, Clone, Copy, PartialEq, Eq, Structural)]
pub enum SortMode {
    Cpu,
}

impl Default for SortMode {
    fn default() -> (res: SortMode)
        ensures
            res == SortMode::Cpu,
    {
        SortMode::Cpu
    }
}

impl SortMode {
    /// The place of a process: what uses more stands first.
    pub open spec fn rank(self, process: ProcessData) -> int {
        match self {
            SortMode::Cpu => -process.cpu_usage.total_place(),
        }
    }

    /// The order of two processes.
    pub fn cmp(&self, a: &ProcessData, b: &ProcessData) -> (res: Ordering)
        ensures
            res == order_of(self.rank(*a), self.rank(*b)),
    {
        match self {
            SortMode::Cpu => b.cpu_usage.total_order(a.cpu_usage),
        }
    }

    /// The order of two processes.
    pub fn call(&self, pair: (&ProcessData, &ProcessData)) -> (res: Ordering)
        ensures
            res == order_of(self.rank(*pair.0), self.rank(*pair.1)),
    {
        self.cmp(pair.0, pair.1)
    }

    /// The place of a process, as a number to sort by.
    pub fn key(&self, process: &ProcessData) -> (res: i64)
        ensures
            res == self.rank(*process),
    {
        match self {
            SortMode::Cpu => -process.cpu_usage.total_key(),
        }
    }
}

/// Whether the processes are shown as a tree or one below the other.
#[derive(Debug, Clone, Copy, PartialEq, Eq, Structural)]
pub enum ProcessView {
    Tree,
    Flat,
}

impl Default for ProcessView {
    fn default() -> (res: ProcessView)
        ensures
            res == ProcessView::Flat,
    {
        ProcessView::Flat
    }
}

/// What the screen is drawn from.
#[derive(Debug)]
pub struct State {
    pub exit: bool,
    pub process_view: ProcessView,
    pub sort_mode: SortMode,
    pub mode: Mode,
    pub old_search_state: Option<SearchState>,
    pub search_matches: BitVec<u32>,
    pub sysinfo: SystemInformation,
    pub process_rows: Option<Vec<ProcessRow>>,
    pub process_table_state: TableState,
    pub effects: TuiEffects,
    /// The milliseconds that the next drawing of the animations stands for.
    pub dt: u32,
    pub last_killed_pid: Option<Pid>,
}

/// What the screen is drawn from.
#[verifier::ext_equal]
pub struct StateModel {
    pub exit: bool,
    pub process_view: ProcessView,
    pub sort_mode: SortMode,
    pub mode: ModeModel,
    pub old_search_state: Option<SearchModel>,
    pub search_matches: Seq<bool>,
    pub sysinfo: SystemModel,
    pub process_rows: Option<Seq<ProcessRow>>,
    pub process_table_state: TableState,
    pub effects: EffectsModel,
    pub dt: u32,
    pub last_killed_pid: Option<Pid>,
}

/// A search that may be missing.
pub open spec fn maybe_search(search: Option<SearchState>) -> Option<SearchModel> {
    match search {
        Some(search) => Some(search@),
        None => None,
    }
}

/// Lines that may be missing.
pub open spec fn maybe_rows(rows: Option<Vec<ProcessRow>>) -> Option<Seq<ProcessRow>> {
    match rows {
        Some(rows) => Some(rows@),
        None => None,
    }
}

impl View for State {
    type V = StateModel;

    open spec fn view(&self) -> StateModel {
        StateModel {
            exit: self.exit,
            process_view: self.process_view,
            sort_mode: self.sort_mode,
            mode: self.mode@,
            old_search_state: maybe_search(self.old_search_state),
            search_matches: bits(self.search_matches),
            sysinfo: self.sysinfo@,
            process_rows: maybe_rows(self.process_rows),
            process_table_state: self.process_table_state,
            effects: self.effects@,
            dt: self.dt,
            last_killed_pid: self.last_killed_pid,
        }
    }
}

/// The place of each line.
pub open spec fn row_rank(data: Map<Pid, ProcessData>, sort: SortMode) -> spec_fn(
    ProcessRow,
) -> int {
    |row: ProcessRow| sort.rank(data[row.2])
}

/// The place of each node.
pub open spec fn value_rank(data: Map<Pid, ProcessData>, sort: SortMode) -> spec_fn(
    ProcessNode,
) -> int {
    |node: ProcessNode|
        match node {
            ProcessNode::Root => 0,
            ProcessNode::Process(pid) => sort.rank(data[pid]),
        }
}

/// The lines, each with the number that its process was measured with.
pub open spec fn numbered(rows: Seq<ProcessRow>, data: Map<Pid, ProcessData>) -> Seq<ProcessRow> {
    rows.map_values(|row: ProcessRow| (row.0, row.1, data[row.2].pid))
}

impl StateModel {
    /// The measurements belong together, and the animations are the screen's own.
    pub open spec fn wf(self) -> bool {
        self.sysinfo.wf() && self.effects.wf()
    }

    /// The search takes a new form: it marks its finds and selects one of them,
    /// and is kept as the search being edited, or else as the last one. Before
    /// there are lines it is only kept.
    pub open spec fn update_search(self, search: SearchModel) -> StateModel {
        match self.process_rows {
            None => match self.mode {
                ModeModel::Search(_) => StateModel {
                    mode: ModeModel::Search(search),
                    old_search_state: Some(search),
                    ..self
                },
                ModeModel::Normal => StateModel { old_search_state: Some(search), ..self },
            },
            Some(rows) => {
                let found = finds(rows, self.sysinfo.data, search.term);
                let marked = StateModel {
                    search_matches: found,
                    process_table_state: TableState {
                        selected: selection(found, search.idx),
                        ..self.process_table_state
                    },
                    ..self
                };
                match self.mode {
                    ModeModel::Search(_) => StateModel {
                        mode: ModeModel::Search(search),
                        ..marked
                    },
                    ModeModel::Normal => StateModel { old_search_state: Some(search), ..marked },
                }
            },
        }
    }

    /// The last search is made again.
    pub open spec fn refresh_search(self) -> StateModel {
        match self.old_search_state {
            Some(search) => self.update_search(search),
            None => self,
        }
    }

    /// The selection follows the last search, or does not.
    pub open spec fn set_hooked(self, hooked: bool) -> StateModel {
        match self.old_search_state {
            Some(search) => StateModel {
                old_search_state: Some(SearchModel { hooked, ..search }),
                ..self
            },
            None => self,
        }
    }

    /// The search that counts: the one being edited, or else the last one.
    pub open spec fn current_search(self) -> Option<SearchModel> {
        match self.mode {
            ModeModel::Search(search) => Some(search),
            ModeModel::Normal => self.old_search_state,
        }
    }

    /// Whether the selection follows the search that counts.
    pub open spec fn hooked(self) -> bool {
        self.current_search() matches Some(search) && search.hooked
    }

    /// The search that counts is made again, where the selection follows it.
    pub open spec fn refresh_search_if_hooked(self) -> StateModel {
        if self.hooked() {
            self.update_search(self.current_search()->Some_0)
        } else {
            self
        }
    }

    /// The lines of the table come anew from the measurements: in the order of
    /// the tree, the children of each process sorted, or all sorted.
    pub open spec fn prepare(self) -> StateModel {
        let data = self.sysinfo.data;
        match self.process_view {
            ProcessView::Tree => {
                let tree = self.sysinfo.tree.sorted(value_rank(data, self.sort_mode));
                StateModel {
                    sysinfo: SystemModel { tree, ..self.sysinfo },
                    process_rows: Some(numbered(tree.rows(), data)),
                    ..self
                }
            },
            ProcessView::Flat => {
                let rows = sorted_by(self.sysinfo.tree.rows(), row_rank(data, self.sort_mode));
                StateModel { process_rows: Some(numbered(rows, data)), ..self }
            },
        }
    }
}

impl Default for State {
    fn default() -> (res: State)
        ensures
            res@.wf(),
            !res@.exit,
            res@.process_view == ProcessView::Flat,
            res@.sort_mode == SortMode::Cpu,
            res@.mode == ModeModel::Normal,
            res@.old_search_state == None::<SearchModel>,
            res@.search_matches == Seq::<bool>::empty(),
            res@.sysinfo.tree.rows() == Seq::<ProcessRow>::empty(),
            res@.sysinfo.tree.pids() == Set::<Pid>::empty(),
            res@.sysinfo.data == Map::<Pid, ProcessData>::empty(),
            res@.sysinfo.mem_usage == (Single { bits: 0 }),
            res@.sysinfo.cpu_usage == Seq::<Single>::empty(),
            res@.process_rows == None::<Seq<ProcessRow>>,
            res@.process_table_state == (TableState { offset: 0, selected: None }),
            res@.effects == EffectsModel::resting(),
            res@.dt == 0,
            res@.last_killed_pid == None::<Pid>,
    {
        State {
            exit: false,
            process_view: ProcessView::default(),
            sort_mode: SortMode::default(),
            mode: Mode::default(),
            old_search_state: None,
            search_matches: no_bits(),
            sysinfo: SystemInformation::default(),
            process_rows: None,
            process_table_state: TableState::default(),
            effects: TuiEffects::default(),
            dt: 0,
            last_killed_pid: None,
        }
    }
}

impl State {
    /// The search takes a new form.
    pub fn update_search(self, search_state: SearchState) -> (res: State)
        ensures
            res@ == self@.update_search(search_state@),
    {
        match &self.process_rows {
            None => match &self.mode {
                Mode::Search(_) => State {
                    mode: Mode::Search(search_state.clone()),
                    old_search_state: Some(search_state),
                    ..self
                },
                Mode::Normal => State { old_search_state: Some(search_state), ..self },
            },
            Some(process_rows) => {
                let found = find_rows(
                    process_rows,
                    &self.sysinfo.process_data,
                    search_state.term.as_str(),
                );
                let result = select(&found, search_state.idx);
                let search_matches = collect_bits(found);
                let process_table_state = self.process_table_state.with_selected(result);
                match &self.mode {
                    Mode::Normal => State {
                        process_table_state,
                        old_search_state: Some(search_state),
                        search_matches,
                        ..self
                    },
                    Mode::Search(_) => State {
                        process_table_state,
                        mode: Mode::Search(search_state),
                        search_matches,
                        ..self
                    },
                }
            },
        }
    }

    /// The last search is made again.
    pub fn refresh_search(self) -> (res: State)
        ensures
            res@ == self@.refresh_search(),
    {
        match &self.old_search_state {
            Some(search_state) => {
                let search_state = search_state.clone();
                self.update_search(search_state)
            },
            None => self,
        }
    }

    /// The selection follows the last search.
    pub fn hook_search(self) -> (res: State)
        ensures
            res@ == self@.set_hooked(true),
    {
        let mut state = self;
        if let Some(search_state) = &mut state.old_search_state {
            search_state.hooked = true;
        }
        state
    }

    /// The selection does not follow the last search.
    pub fn unhook_search(self) -> (res: State)
        ensures
            res@ == self@.set_hooked(false),
    {
        let mut state = self;
        if let Some(search_state) = &mut state.old_search_state {
            search_state.hooked = false;
        }
        state
    }

    /// The search that counts is made again, where the selection follows it.
    pub fn refresh_search_if_hooked(self) -> (res: State)
        ensures
            res@ == self@.refresh_search_if_hooked(),
    {
        let current = match (&self.mode, &self.old_search_state) {
            (Mode::Search(search_state), _) => Some(search_state.clone()),
            (Mode::Normal, Some(search_state)) => Some(search_state.clone()),
            (Mode::Normal, None) => None,
        };
        match current {
            Some(search_state) => {
                if search_state.hooked {
                    self.update_search(search_state)
                } else {
                    self
                }
            },
            None => self,
        }
    }
}

/// Sorts the children of every process by what they use.
fn sort_tree(info: &mut SystemInformation, sort: SortMode)
    requires
        old(info)@.wf(),
    ensures
        final(info)@ == (SystemModel {
            tree: old(info)@.tree.sorted(value_rank(old(info)@.data, sort)),
            ..old(info)@
        }),
        final(info)@.wf(),
{
    broadcast use vstd::std_specs::hash::group_hash_axioms;

    let data = &info.process_data;
    let ghost before = info@;
    let by_usage = |a: &ProcessNode, b: &ProcessNode| -> (res: Ordering)
        ensures
            (*a matches ProcessNode::Process(x) && *b matches ProcessNode::Process(y)
                && data@.contains_key(x) && data@.contains_key(y)) ==> res == order_of(
                value_rank(data@, sort)(*a),
                value_rank(data@, sort)(*b),
            ),
        {
            match (a, b) {
                (ProcessNode::Root, ProcessNode::Root) => Ordering::Equal,
                (ProcessNode::Root, ProcessNode::Process(_)) => Ordering::Less,
                (ProcessNode::Process(_), ProcessNode::Root) => Ordering::Greater,
                (ProcessNode::Process(a), ProcessNode::Process(b)) => match (
                    data.get(a),
                    data.get(b),
                ) {
                    (Some(a), Some(b)) => sort.call((a, b)),
                    _ => Ordering::Equal,
                },
            }
        };
    proof {
        let tree = before.tree;
        let rank = value_rank(data@, sort);
        assert(compares(by_usage, tree));
        assert(ranks(by_usage, tree, rank)) by {
            assert forall|p: NodeId, x: NodeId, y: NodeId, o: Ordering|
                #[trigger] tree.siblings(p, x, y) && #[trigger] by_usage.ensures(
                    (&tree.values[x], &tree.values[y]),
                    o,
                ) implies o == order_of(rank(tree.values[x]), rank(tree.values[y])) by {
                siblings_are_processes(tree, p, x, y);
            }
        }
    }
    info.process_tree.deep_sort_by(by_usage);
    proof {
        assert(info@.tree.values == before.tree.values);
        crate::process::same_values_same_pids(info@.tree, before.tree);
    }
}

/// Sorts lines by what their processes use, equal ones staying in order.
fn sort_rows(
    rows: &Vec<ProcessRow>,
    data: &HashMap<Pid, ProcessData>,
    sort: SortMode,
) -> (res: Vec<ProcessRow>)
    requires
        forall|i: int| 0 <= i < rows@.len() ==> data@.contains_key((#[trigger] rows@[i]).2),
    ensures
        res@ == sorted_by(rows@, row_rank(data@, sort)),
{
    broadcast use vstd::std_specs::hash::group_hash_axioms;

    let mut keys: Vec<i64> = Vec::new();
    for i in 0..rows.len()
        invariant
            forall|i: int| 0 <= i < rows@.len() ==> data@.contains_key((#[trigger] rows@[i]).2),
            keys@.len() == i,
            forall|k: int|
                0 <= k < i ==> #[trigger] keys@[k] == row_rank(data@, sort)(rows@[k]),
    {
        assert(data@.contains_key(rows@[i as int].2));
        let key: i64 = match data.get(&rows[i].2) {
            Some(process) => sort.key(process),
            None => 0,
        };
        keys.push(key);
    }
    sort_by_keys(rows, &keys, Ghost(row_rank(data@, sort)))
}

/// The lines, each with the number that its process was measured with.
fn number_rows(rows: &Vec<ProcessRow>, data: &HashMap<Pid, ProcessData>) -> (res: Vec<ProcessRow>)
    requires
        forall|i: int| 0 <= i < rows@.len() ==> data@.contains_key((#[trigger] rows@[i]).2),
    ensures
        res@ == numbered(rows@, data@),
{
    broadcast use vstd::std_specs::hash::group_hash_axioms;

    let mut res: Vec<ProcessRow> = Vec::new();
    for i in 0..rows.len()
        invariant
            forall|i: int| 0 <= i < rows@.len() ==> data@.contains_key((#[trigger] rows@[i]).2),
            res@.len() == i,
            forall|k: int|
                0 <= k < i ==> #[trigger] res@[k] == (
                    rows@[k].0,
                    rows@[k].1,
                    data@[rows@[k].2].pid,
                ),
    {
        assert(data@.contains_key(rows@[i as int].2));
        let (depth, prefix, pid) = rows[i];
        let pid: Pid = match data.get(&pid) {
            Some(process) => process.pid,
            None => pid,
        };
        res.push((depth, prefix, pid));
    }
    assert(res@ =~= numbered(rows@, data@));
    res
}

/// Every line of a tree of measured processes was measured.
proof fn lemma_rows_measured(info: SystemModel)
    requires
        info.wf(),
    ensures
        forall|i: int|
            0 <= i < info.tree.rows().len() ==> info.data.contains_key(
                (#[trigger] info.tree.rows()[i]).2,
            ),
{
    let rows = info.tree.rows();
    assert forall|i: int| 0 <= i < rows.len() implies info.data.contains_key(
        (#[trigger] rows[i]).2,
    ) by {
        rows_list_every_process(info.tree, rows[i].2);
        assert(info.tree.pids().contains(rows[i].2));
    }
}

/// Sorted lines are the same lines.
proof fn lemma_sorted_rows(rows: Seq<ProcessRow>, rank: spec_fn(ProcessRow) -> int, i: int)
    requires
        0 <= i < sorted_by(rows, rank).len(),
    ensures
        rows.contains(sorted_by(rows, rank)[i]),
{
    broadcast use vstd::seq_lib::group_to_multiset_ensures;

    sorting_is_stable(rows, rank, 0);
    let sorted = sorted_by(rows, rank);
    assert(sorted.contains(sorted[i]));
    assert(sorted.to_multiset().count(sorted[i]) > 0);
    assert(rows.to_multiset().count(sorted[i]) > 0);
}

impl State {
    /// The lines of the table come anew from the measurements.
    pub fn prepare(self) -> (res: State)
        requires
            self@.sysinfo.wf(),
        ensures
            res@ == self@.prepare(),
            res@.sysinfo.wf(),
    {
        let mut state = self;
        match state.process_view {
            ProcessView::Tree => {
                sort_tree(&mut state.sysinfo, state.sort_mode);
            },
            ProcessView::Flat => {},
        }
        let rows = state.sysinfo.process_tree.rows();
        let rows = match state.process_view {
            ProcessView::Tree => rows,
            ProcessView::Flat => {
                proof {
                    lemma_rows_measured(state.sysinfo@);
                }
                sort_rows(&rows, &state.sysinfo.process_data, state.sort_mode)
            },
        };
        proof {
            let tree_rows = state.sysinfo@.tree.rows();
            lemma_rows_measured(state.sysinfo@);
            assert forall|i: int| 0 <= i < rows@.len() implies state.sysinfo@.data.contains_key(
                (#[trigger] rows@[i]).2,
            ) by {
                if state.process_view is Flat {
                    let rank = row_rank(state.sysinfo@.data, state.sort_mode);
                    lemma_sorted_rows(tree_rows, rank, i);
                    let j = choose|j: int| 0 <= j < tree_rows.len() && tree_rows[j] == rows@[i];
                    assert(state.sysinfo@.data.contains_key(tree_rows[j].2));
                }
            }
        }
        let rows = number_rows(&rows, &state.sysinfo.process_data);
        state.process_rows = Some(rows);
        state
    }
}

/// Of two processes the one that uses more comes first: the one with the larger pattern
/// while both signs are clear, the one with the smaller while both are set, and one with
/// a clear sign before one with a set one. The same pattern is equal.
pub proof fn the_busier_process_comes_first(
    mode: SortMode,
    a: ProcessData,
    b: ProcessData,
    res: Ordering,
    called: Ordering,
)
    requires
        call_ensures(SortMode::cmp, (&mode, &a, &b), res),
        call_ensures(SortMode::call, (&mode, (&a, &b)), called),
    ensures
        ({
            let (x, y) = (a.cpu_usage.bits, b.cpu_usage.bits);
            &&& x < 0x8000_0000 && y < 0x8000_0000 ==> (res is Less) == (x > y)
            &&& x >= 0x8000_0000 && y >= 0x8000_0000 ==> (res is Less) == (x < y)
            &&& x < 0x8000_0000 && y >= 0x8000_0000 ==> res is Less
            &&& x >= 0x8000_0000 && y < 0x8000_0000 ==> res is Greater
            &&& (res is Equal) == (x == y)
        }),
        called == res,
{
}

/// The key of a process falls as it uses more.
pub proof fn the_busier_process_has_the_smaller_key(
    mode: SortMode,
    a: ProcessData,
    b: ProcessData,
    x: i64,
    y: i64,
)
    requires
        call_ensures(SortMode::key, (&mode, &a), x),
        call_ensures(SortMode::key, (&mode, &b), y),
    ensures
        a.cpu_usage.bits < 0x8000_0000 && b.cpu_usage.bits < 0x8000_0000 ==> (x < y) == (
        a.cpu_usage.bits > b.cpu_usage.bits),
        a.cpu_usage.bits >= 0x8000_0000 && b.cpu_usage.bits >= 0x8000_0000 ==> (x < y) == (
        a.cpu_usage.bits < b.cpu_usage.bits),
        a.cpu_usage.bits < 0x8000_0000 && b.cpu_usage.bits >= 0x8000_0000 ==> x < y,
{
}

} // verus!
