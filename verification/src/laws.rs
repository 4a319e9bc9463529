//! What holds of the state whatever steps it takes.

use vstd::prelude::*;

use crate::effect::lemma_rewound_known;
use crate::lineage::{grown_from, rooted, Parents};
use crate::order::{ascending, sorted_by, sorting_is_stable, sorting_twice_is_sorting_once};
use crate::rows::{
    rows_list_every_process, rows_list_no_process_twice, siblings_stand_in_order, stands_before,
};
use crate::search::{finds, is_find, selection_is_a_find, ModeModel, SearchModel};
use crate::state::{numbered, row_rank, value_rank, ProcessView, StateModel};
use crate::system::{SystemInformation, SystemModel};
use crate::transition::{SearchTypeTransition, Transition};
use crate::tree::{node_rank, Pid, ProcessNode, ProcessRow, TreeModel};

verus! {

/// Every step that can be taken keeps a valid state valid.
pub proof fn steps_keep_validity(m: StateModel, t: Transition)
    requires
        m.wf(),
        m.allows(t),
    ensures
        m.after(t).wf(),
{
    if let Transition::UpdateSysInfo(info) = t {
        let fresh = StateModel { sysinfo: info@, ..m };
        preparing_keeps_validity(fresh);
    }
    lemma_rewound_known(m.effects.kill_effect.state);
}

/// Preparing keeps a valid state valid.
pub proof fn preparing_keeps_validity(m: StateModel)
    requires
        m.wf(),
    ensures
        m.prepare().wf(),
{
    if m.process_view is Tree {
        let rank = value_rank(m.sysinfo.data, m.sort_mode);
        let tree = m.sysinfo.tree.sorted(rank);
        crate::process::sorting_keeps_the_tree(m.sysinfo.tree, rank);
        crate::process::same_values_same_pids(tree, m.sysinfo.tree);
    }
}

/// Sorting a sorted tree changes nothing.
pub proof fn sorting_a_tree_twice(m: TreeModel, rank: spec_fn(ProcessNode) -> int)
    ensures
        m.sorted(rank).sorted(rank) == m.sorted(rank),
{
    let once = m.sorted(rank);
    let twice = once.sorted(rank);
    assert(twice.children =~= once.children) by {
        assert forall|id: ego_tree::NodeId| #[trigger]
            once.children.contains_key(id) implies twice.children[id] == once.children[id] by {
            sorting_twice_is_sorting_once(m.children[id], node_rank(m.values, rank));
        }
    }
}

/// Preparing twice is preparing once.
pub proof fn preparing_twice_is_preparing_once(m: StateModel)
    ensures
        m.prepare().prepare() == m.prepare(),
{
    if m.process_view is Tree {
        sorting_a_tree_twice(m.sysinfo.tree, value_rank(m.sysinfo.data, m.sort_mode));
    }
}

/// The table shows the last measurements: once it does, it does after every step,
/// and it does after fresh measurements in any case.
pub proof fn the_table_follows_the_measurements(m: StateModel, t: Transition)
    requires
        m.prepare() == m || t is UpdateSysInfo,
    ensures
        m.after(t).prepare() == m.after(t),
{
    if let Transition::UpdateSysInfo(info) = t {
        let fresh = StateModel { sysinfo: info@, ..m };
        preparing_twice_is_preparing_once(fresh);
        lemma_search_keeps_rows(fresh.prepare());
    } else {
        let n = m.after(t);
        assert(n.sysinfo == m.sysinfo && n.process_rows == m.process_rows && n.process_view
            == m.process_view && n.sort_mode == m.sort_mode);
    }
}

proof fn lemma_search_keeps_rows(m: StateModel)
    requires
        m.prepare() == m,
    ensures
        m.refresh_search_if_hooked().prepare() == m.refresh_search_if_hooked(),
{
    let n = m.refresh_search_if_hooked();
    assert(n.sysinfo == m.sysinfo && n.process_rows == m.process_rows && n.process_view
        == m.process_view && n.sort_mode == m.sort_mode);
}

/// Only fresh measurements change the measurements and the lines.
pub proof fn only_measurements_change_the_lines(m: StateModel, t: Transition)
    requires
        !(t is UpdateSysInfo),
    ensures
        m.after(t).sysinfo == m.sysinfo,
        m.after(t).process_rows == m.process_rows,
{
}

/// Each of the other parts of the state has one step that changes it.
pub proof fn each_part_has_its_step(m: StateModel, t: Transition)
    ensures
        m.after(t).exit == (m.exit || t is Exit),
        !(t is UpdateDt) ==> m.after(t).dt == m.dt,
        !(t is KillProcess) ==> m.after(t).last_killed_pid == m.last_killed_pid,
        !(t is KillProcess) ==> m.after(t).effects == m.effects,
        m.after(t).process_view == m.process_view,
        m.after(t).sort_mode == m.sort_mode,
        m.after(t).process_table_state.offset == m.process_table_state.offset,
{
}

/// Killing a process names it, starts the wipe of its line, and unhooks the last
/// search.
pub proof fn killing_names_the_process(m: StateModel, pid: Pid)
    ensures
        m.after(Transition::KillProcess(pid)).last_killed_pid == Some(pid),
        m.after(Transition::KillProcess(pid)).effects.kill_effect.started,
        m.after(Transition::KillProcess(pid)).old_search_state matches Some(search)
            ==> !search.hooked,
{
}

/// A search starts with no term and is followed; the last one is forgotten.
pub proof fn a_search_starts_afresh(m: StateModel)
    requires
        m.mode is Normal,
    ensures
        m.after(Transition::StartSearch).mode == ModeModel::Search(SearchModel::fresh()),
        m.after(Transition::StartSearch).old_search_state == None::<SearchModel>,
        m.after(Transition::StartSearch).hooked(),
{
}

/// Typing puts a character behind the term, and the search is followed.
pub proof fn typing_builds_the_term(m: StateModel, search: SearchModel, ch: char)
    requires
        m.mode == ModeModel::Search(search),
    ensures
        m.after(Transition::SearchType(SearchTypeTransition::Type(ch))).mode == ModeModel::Search(
            SearchModel { term: search.term.push(ch), hooked: true, ..search },
        ),
        m.after(Transition::SearchType(SearchTypeTransition::Type(ch))).hooked(),
{
}

/// Deleting takes back what was typed.
pub proof fn deleting_undoes_typing(m: StateModel, search: SearchModel, ch: char)
    requires
        m.mode == ModeModel::Search(search),
    ensures
        m.after(Transition::SearchType(SearchTypeTransition::Type(ch))).after(
            Transition::SearchType(SearchTypeTransition::Delete),
        ).mode == ModeModel::Search(SearchModel { hooked: true, ..search }),
        (ch as u32) < 128 ==> m.after(
            Transition::SearchType(SearchTypeTransition::Type(ch)),
        ).allows(Transition::SearchType(SearchTypeTransition::Delete)),
{
    assert(search.term.push(ch).drop_last() =~= search.term);
}

/// Completing a search leaves it as the last one, with its term, followed.
pub proof fn completing_keeps_the_search(m: StateModel, search: SearchModel)
    requires
        m.mode == ModeModel::Search(search),
    ensures
        m.after(Transition::CompleteSearch).mode == ModeModel::Normal,
        m.after(Transition::CompleteSearch).old_search_state == Some(
            SearchModel { hooked: true, ..search },
        ),
{
}

/// The next and the previous find are opposite ways through the finds of the last
/// search, and both follow it. While a search is edited over a table with lines,
/// they leave the last search as it is.
pub proof fn next_and_previous_are_opposite(m: StateModel, search: SearchModel)
    requires
        m.mode is Normal || m.process_rows is None,
        m.old_search_state == Some(search),
    ensures
        m.after(Transition::NextSearchResult).old_search_state == Some(
            SearchModel { idx: search.idx + 1, hooked: true, ..search },
        ),
        m.after(Transition::PrevSearchResult).old_search_state == Some(
            SearchModel { idx: search.idx - 1, hooked: true, ..search },
        ),
        m.after(Transition::NextSearchResult).after(Transition::PrevSearchResult).old_search_state
            == Some(SearchModel { hooked: true, ..search }),
        m.after(Transition::PrevSearchResult).after(Transition::NextSearchResult).old_search_state
            == Some(SearchModel { hooked: true, ..search }),
{
}

/// Scrolling moves the selection by a line and unhooks the last search.
pub proof fn scrolling_unhooks_the_search(m: StateModel, t: Transition)
    requires
        t is ScrollUp || t is ScrollDown,
    ensures
        m.after(t).process_table_state == if t is ScrollUp {
            m.process_table_state.previous()
        } else {
            m.process_table_state.next()
        },
        m.after(t).mode == m.mode,
        m.after(t).old_search_state == match m.old_search_state {
            Some(search) => Some(SearchModel { hooked: false, ..search }),
            None => None,
        },
{
}

/// Hooking and unhooking undo each other and do nothing twice.
pub proof fn hooking_is_a_switch(m: StateModel, a: bool, b: bool)
    ensures
        m.set_hooked(a).set_hooked(b) == m.set_hooked(b),
        m.set_hooked(a).mode == m.mode,
        m.set_hooked(a).process_table_state == m.process_table_state,
{
}

/// Fresh measurements leave the selection alone where it does not follow a search.
pub proof fn unhooked_selection_stays(m: StateModel, t: Transition)
    requires
        t is UpdateSysInfo,
        !m.hooked(),
    ensures
        m.after(t).process_table_state == m.process_table_state,
        m.after(t).search_matches == m.search_matches,
{
}

/// After a search each line is marked if and only if it is a find, and the
/// selected line is one of them; nothing is selected only where there is none.
pub proof fn a_search_marks_and_selects_its_finds(m: StateModel, search: SearchModel)
    requires
        m.process_rows is Some,
        m.process_rows->Some_0.len() <= usize::MAX,
    ensures
        ({
            let rows = m.process_rows->Some_0;
            let n = m.update_search(search);
            &&& n.search_matches.len() == rows.len()
            &&& forall|i: int|
                0 <= i < rows.len() ==> #[trigger] n.search_matches[i] == (
                m.sysinfo.data.contains_key(rows[i].2) && is_find(
                    m.sysinfo.data[rows[i].2],
                    search.term,
                ))
            &&& n.process_table_state.selected matches Some(i) ==> i < rows.len()
                && n.search_matches[i as int]
            &&& n.process_table_state.selected is None ==> forall|i: int|
                0 <= i < rows.len() ==> !(#[trigger] n.search_matches[i])
        }),
{
    let rows = m.process_rows->Some_0;
    let found = finds(rows, m.sysinfo.data, search.term);
    selection_is_a_find(found, search.idx);
}

/// Making a search again changes nothing.
pub proof fn searching_twice_is_searching_once(m: StateModel, search: SearchModel)
    ensures
        m.update_search(search).update_search(search) == m.update_search(search),
{
}

/// Whether a process has a line.
pub open spec fn lists(rows: Seq<ProcessRow>, pid: Pid) -> bool {
    exists|i: int| 0 <= i < rows.len() && (#[trigger] rows[i]).2 == pid
}

/// Filing under the own number leaves the lines of a tree as they are.
proof fn lemma_numbered(info: SystemModel, rows: Seq<ProcessRow>)
    requires
        info.filed(),
        forall|i: int| 0 <= i < rows.len() ==> info.data.contains_key((#[trigger] rows[i]).2),
    ensures
        numbered(rows, info.data) == rows,
{
    assert(numbered(rows, info.data) =~= rows) by {
        let same = numbered(rows, info.data);
        assert forall|i: int| 0 <= i < rows.len() implies same[i] == rows[i] by {
            assert(info.data.contains_key(rows[i].2));
        }
    }
}

proof fn lemma_same_lines(rows: Seq<ProcessRow>, rank: spec_fn(ProcessRow) -> int)
    ensures
        sorted_by(rows, rank).len() == rows.len(),
        forall|row: ProcessRow| #[trigger]
            sorted_by(rows, rank).contains(row) == rows.contains(row),
        forall|pid: Pid| #[trigger] lists(sorted_by(rows, rank), pid) == lists(rows, pid),
{
    broadcast use vstd::seq_lib::group_to_multiset_ensures;

    sorting_is_stable(rows, rank, 0);
    let sorted = sorted_by(rows, rank);
    assert forall|row: ProcessRow| #[trigger] sorted.contains(row) == rows.contains(row) by {
        assert(sorted.to_multiset().count(row) == rows.to_multiset().count(row));
    }
    assert forall|pid: Pid| #[trigger] lists(sorted, pid) == lists(rows, pid) by {
        if lists(sorted, pid) {
            let i = choose|i: int| 0 <= i < sorted.len() && (#[trigger] sorted[i]).2 == pid;
            assert(sorted.contains(sorted[i]));
            let j = choose|j: int| 0 <= j < rows.len() && rows[j] == sorted[i];
            assert(rows[j].2 == pid);
        }
        if lists(rows, pid) {
            let i = choose|i: int| 0 <= i < rows.len() && (#[trigger] rows[i]).2 == pid;
            assert(rows.contains(rows[i]));
            assert(sorted.contains(rows[i]));
            let j = choose|j: int| 0 <= j < sorted.len() && sorted[j] == rows[i];
            assert(sorted[j].2 == pid);
        }
    }
}

/// The lines of a prepared table, where each process is filed under its number.
pub(crate) proof fn lemma_prepared_rows(m: StateModel)
    requires
        m.wf(),
        m.sysinfo.filed(),
    ensures
        m.prepare().process_rows == Some(
            match m.process_view {
                ProcessView::Tree => m.prepare().sysinfo.tree.rows(),
                ProcessView::Flat => sorted_by(
                    m.sysinfo.tree.rows(),
                    row_rank(m.sysinfo.data, m.sort_mode),
                ),
            },
        ),
        m.prepare().sysinfo.tree.wf(),
        m.prepare().sysinfo.tree.values == m.sysinfo.tree.values,
        m.prepare().sysinfo.tree.pids() == m.sysinfo.tree.pids(),
{
    preparing_keeps_validity(m);
    let n = m.prepare();
    crate::process::same_values_same_pids(n.sysinfo.tree, m.sysinfo.tree);
    let rows = match m.process_view {
        ProcessView::Tree => n.sysinfo.tree.rows(),
        ProcessView::Flat => sorted_by(
            m.sysinfo.tree.rows(),
            row_rank(m.sysinfo.data, m.sort_mode),
        ),
    };
    let from = n.sysinfo.tree.rows();
    assert forall|i: int| 0 <= i < rows.len() implies m.sysinfo.data.contains_key(
        (#[trigger] rows[i]).2,
    ) by {
        if m.process_view is Flat {
            lemma_same_lines(from, row_rank(m.sysinfo.data, m.sort_mode));
        }
        assert(rows.contains(rows[i]));
        assert(from.contains(rows[i]));
        let j = choose|j: int| 0 <= j < from.len() && from[j] == rows[i];
        rows_list_every_process(n.sysinfo.tree, from[j].2);
        assert(n.sysinfo.tree.pids().contains(from[j].2));
    }
    lemma_numbered(m.sysinfo, rows);
}

/// A prepared table lists the processes of the tree, all of them and no others.
pub proof fn the_table_lists_the_processes(m: StateModel, pid: Pid)
    requires
        m.wf(),
        m.sysinfo.filed(),
    ensures
        m.prepare().process_rows matches Some(rows) && lists(rows, pid)
            == m.sysinfo.tree.pids().contains(pid),
{
    lemma_prepared_rows(m);
    let tree = m.prepare().sysinfo.tree;
    rows_list_every_process(tree, pid);
    if m.process_view is Flat {
        lemma_same_lines(m.sysinfo.tree.rows(), row_rank(m.sysinfo.data, m.sort_mode));
        assert(lists(
            sorted_by(m.sysinfo.tree.rows(), row_rank(m.sysinfo.data, m.sort_mode)),
            pid,
        ) == lists(m.sysinfo.tree.rows(), pid));
    }
}

/// A prepared table lists no process twice, where the tree holds none twice.
pub proof fn the_table_lists_no_process_twice(m: StateModel, i: int, j: int)
    requires
        m.wf(),
        m.sysinfo.filed(),
        m.sysinfo.tree.distinct(),
        0 <= i < j < m.prepare().process_rows->Some_0.len(),
    ensures
        m.prepare().process_rows->Some_0[i].2 != m.prepare().process_rows->Some_0[j].2,
{
    lemma_prepared_rows(m);
    let tree = m.prepare().sysinfo.tree;
    assert(tree.distinct()) by {
        assert forall|a: ego_tree::NodeId, b: ego_tree::NodeId|
            #[trigger] tree.has(a) && #[trigger] tree.has(b) && tree.values[a]
                == tree.values[b] implies a == b by {
            assert(m.sysinfo.tree.has(a) && m.sysinfo.tree.has(b));
        }
    }
    let rows = tree.rows();
    assert forall|s: int, t: int| 0 <= s < t < rows.len() implies (#[trigger] rows[s]).2 != (
    #[trigger] rows[t]).2 by {
        rows_list_no_process_twice(tree, s, t);
    }
    if m.process_view is Flat {
        let rank = row_rank(m.sysinfo.data, m.sort_mode);
        let sorted = sorted_by(rows, rank);
        sorting_is_stable(rows, rank, 0);
        assert(rows.no_duplicates());
        crate::process::same_items_no_duplicates(rows, sorted);
        assert(sorted[i] != sorted[j]);
        assert(rows.contains(sorted[i])) by {
            assert(sorted.contains(sorted[i]));
        }
        assert(rows.contains(sorted[j])) by {
            assert(sorted.contains(sorted[j]));
        }
        let s = choose|s: int| 0 <= s < rows.len() && rows[s] == sorted[i];
        let t = choose|t: int| 0 <= t < rows.len() && rows[t] == sorted[j];
        if s < t {
            assert(rows[s].2 != rows[t].2);
        } else {
            assert(rows[t].2 != rows[s].2);
        }
    }
}

/// One below the other, what uses more stands above what uses less.
pub proof fn the_flat_table_is_sorted(m: StateModel, i: int, j: int)
    requires
        m.wf(),
        m.sysinfo.filed(),
        m.process_view is Flat,
        0 <= i <= j < m.prepare().process_rows->Some_0.len(),
    ensures
        ({
            let rows = m.prepare().process_rows->Some_0;
            m.sysinfo.data[rows[i].2].cpu_usage.total_place()
                >= m.sysinfo.data[rows[j].2].cpu_usage.total_place()
        }),
{
    lemma_prepared_rows(m);
    let rank = row_rank(m.sysinfo.data, m.sort_mode);
    sorting_is_stable(m.sysinfo.tree.rows(), rank, 0);
    let rows = sorted_by(m.sysinfo.tree.rows(), rank);
    assert(ascending(rows, rank));
    assert(rank(rows[i]) <= rank(rows[j]));
}

/// In the tree, what uses more stands above its siblings that use less.
pub proof fn siblings_are_sorted(m: StateModel, p: ego_tree::NodeId, i: int, j: int)
    requires
        m.wf(),
        m.process_view is Tree,
        m.sysinfo.tree.has(p),
        0 <= i < j < m.prepare().sysinfo.tree.children[p].len(),
    ensures
        ({
            let tree = m.prepare().sysinfo.tree;
            let rank = value_rank(m.sysinfo.data, m.sort_mode);
            let (x, y) = (tree.children[p][i], tree.children[p][j]);
            &&& stands_before(tree.ids(), x, y)
            &&& rank(tree.values[x]) <= rank(tree.values[y])
        }),
{
    preparing_keeps_validity(m);
    let tree = m.prepare().sysinfo.tree;
    let rank = value_rank(m.sysinfo.data, m.sort_mode);
    assert(tree.has(p));
    siblings_stand_in_order(tree, p, i, j);
    let order = node_rank(m.sysinfo.tree.values, rank);
    sorting_is_stable(m.sysinfo.tree.children[p], order, 0);
    assert(ascending(tree.children[p], order));
    assert(order(tree.children[p][i]) <= order(tree.children[p][j]));
}

/// Fresh measurements fill the table: a process has a line if and only if the way
/// up from it ends at a process without a parent, and none has two.
pub proof fn measurements_fill_the_table(
    m: StateModel,
    info: SystemInformation,
    parents: Parents,
    pid: Pid,
)
    requires
        m.effects.wf(),
        info@.wf(),
        info@.filed(),
        grown_from(info@.tree, parents),
    ensures
        m.after(Transition::UpdateSysInfo(info)).process_rows matches Some(rows) && {
            &&& lists(rows, pid) == rooted(parents, pid)
            &&& forall|i: int, j: int|
                0 <= i < j < rows.len() ==> (#[trigger] rows[i]).2 != (#[trigger] rows[j]).2
        },
{
    let fresh = StateModel { sysinfo: info@, ..m };
    let rows = fresh.prepare().process_rows->Some_0;
    the_table_lists_the_processes(fresh, pid);
    assert(info@.tree.pids().contains(pid) == rooted(parents, pid));
    assert(info@.tree.distinct());
    assert forall|i: int, j: int| 0 <= i < j < rows.len() implies (#[trigger] rows[i]).2 != (
    #[trigger] rows[j]).2 by {
        the_table_lists_no_process_twice(fresh, i, j);
    }
    assert(m.after(Transition::UpdateSysInfo(info)).process_rows
        == fresh.prepare().process_rows);
}

} // verus!
