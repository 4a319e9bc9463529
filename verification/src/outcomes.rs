//! What the steps come to: the order of the lines, what a search marks and selects, and
//! what each step changes, said of the state before and after.

use ego_tree::NodeId;
use vstd::prelude::*;

use crate::effect::EffectsModel;
use crate::laws::lemma_prepared_rows;
use crate::number::Single;
use crate::order::{of_rank, sorted_by, sorting_is_stable};
use crate::process::{siblings_are_processes, ProcessData};
use crate::rows::stands_before;
use crate::search::{
    finds, lemma_count_walks, meant_by, selection, the_finds_are_what_is_meant, Mode, SearchState,
};
use crate::state::{row_rank, ProcessView, State, StateModel};
use crate::system::SystemInformation;
use crate::table::bits;
use crate::transition::{SearchTypeTransition, Transition};
use crate::tree::{Pid, ProcessNode, ProcessRow, TreeModel};

verus! {

/// Whether what one pattern stands for is no less than what another does: the larger
/// pattern is no less while both signs are clear, the smaller while both are set, and a
/// clear sign is no less than a set one.
pub open spec fn no_less(a: Single, b: Single) -> bool {
    if a.bits < 0x8000_0000 {
        b.bits < 0x8000_0000 ==> a.bits >= b.bits
    } else {
        b.bits >= 0x8000_0000 && a.bits <= b.bits
    }
}

/// Whether every measured process is filed under its own number.
pub open spec fn filed(data: Map<Pid, ProcessData>) -> bool {
    forall|pid: Pid| #[trigger] data.contains_key(pid) ==> data[pid].pid == pid
}

/// Whether the lines of a table stand in the order of what their processes use, the
/// busiest first.
pub open spec fn busiest_first(rows: Seq<ProcessRow>, data: Map<Pid, ProcessData>) -> bool {
    forall|i: int, j: int|
        0 <= i < j < rows.len() ==> no_less(
            data[(#[trigger] rows[i]).2].cpu_usage,
            data[(#[trigger] rows[j]).2].cpu_usage,
        )
}

/// Preparing looks at the measurements alone, not at the animations.
proof fn lemma_rows_of(m: StateModel)
    requires
        m.sysinfo.wf(),
        m.sysinfo.filed(),
    ensures
        m.prepare().process_rows == Some(
            match m.process_view {
                ProcessView::Tree => m.prepare().sysinfo.tree.rows(),
                ProcessView::Flat => sorted_by(
                    m.sysinfo.tree.rows(),
                    row_rank(m.sysinfo.data, m.sort_mode),
                ),
            },
        ),
        m.prepare().sysinfo.tree.wf(),
{
    let calm = StateModel { effects: EffectsModel::resting(), ..m };
    lemma_prepared_rows(calm);
    assert(calm.prepare().process_rows == m.prepare().process_rows);
    assert(calm.prepare().sysinfo == m.prepare().sysinfo);
}

pub(crate) proof fn lemma_busiest_first(m: StateModel)
    requires
        m.sysinfo.wf(),
        m.sysinfo.filed(),
        m.process_view is Flat,
    ensures
        m.prepare().process_rows matches Some(rows) && busiest_first(rows, m.sysinfo.data)
            && rows.to_multiset() == m.sysinfo.tree.rows().to_multiset(),
{
    lemma_rows_of(m);
    let rank = row_rank(m.sysinfo.data, m.sort_mode);
    let rows = m.prepare().process_rows->Some_0;
    sorting_is_stable(m.sysinfo.tree.rows(), rank, 0);
    assert forall|i: int, j: int| 0 <= i < j < rows.len() implies no_less(
        m.sysinfo.data[(#[trigger] rows[i]).2].cpu_usage,
        m.sysinfo.data[(#[trigger] rows[j]).2].cpu_usage,
    ) by {
        assert(rank(rows[i]) <= rank(rows[j]));
    }
}

/// One below the other, the busiest processes stand first, and the lines are those of the
/// tree.
pub proof fn the_busiest_stand_first(s: State, res: State)
    requires
        call_ensures(State::prepare, (s,), res),
        s@.sysinfo.wf(),
        filed(s.sysinfo.process_data@),
        s.process_view is Flat,
    ensures
        res.process_rows matches Some(rows) && {
            &&& busiest_first(rows@, s.sysinfo.process_data@)
            &&& rows@.to_multiset() == s.sysinfo.process_tree@.rows().to_multiset()
        },
{
    lemma_busiest_first(s@);
}

/// After fresh measurements the busiest processes stand first, whatever was shown before
/// and whatever is searched for.
pub proof fn fresh_measurements_are_sorted(s: State, info: SystemInformation, res: State)
    requires
        call_ensures(Transition::transition, (Transition::UpdateSysInfo(info), s), res),
        info@.wf(),
        filed(info.process_data@),
        s.process_view is Flat,
    ensures
        res.process_rows matches Some(rows) && {
            &&& busiest_first(rows@, info.process_data@)
            &&& rows@.to_multiset() == info.process_tree@.rows().to_multiset()
        },
{
    lemma_busiest_first(StateModel { sysinfo: info@, ..s@ });
}

proof fn lemma_same_filter<A>(s: Seq<A>, p: spec_fn(A) -> bool, q: spec_fn(A) -> bool)
    requires
        forall|x: A| #[trigger] p(x) == q(x),
    ensures
        s.filter(p) == s.filter(q),
    decreases s.len(),
{
    reveal(Seq::filter);
    if s.len() > 0 {
        lemma_same_filter(s.drop_last(), p, q);
        assert(p(s.last()) == q(s.last()));
    }
}

/// One below the other, the lines of processes that use the same stand in the order that
/// they have in the tree.
pub proof fn equal_lines_keep_the_order_of_the_tree(s: State, res: State, usage: Single)
    requires
        call_ensures(State::prepare, (s,), res),
        s@.sysinfo.wf(),
        filed(s.sysinfo.process_data@),
        s.process_view is Flat,
    ensures
        ({
            let data = s.sysinfo.process_data@;
            let uses = |row: ProcessRow| data[row.2].cpu_usage == usage;
            res.process_rows matches Some(rows) && rows@.filter(uses)
                == s.sysinfo.process_tree@.rows().filter(uses)
        }),
{
    let data = s.sysinfo.process_data@;
    let uses = |row: ProcessRow| data[row.2].cpu_usage == usage;
    let m = s@;
    lemma_rows_of(m);
    let rank = row_rank(data, m.sort_mode);
    let tree_rows = m.sysinfo.tree.rows();
    let place = -usage.total_place();
    sorting_is_stable(tree_rows, rank, place);
    let has = crate::order::has_rank(rank, place);
    assert forall|row: ProcessRow| #[trigger] has(row) == uses(row) by {
        assert(data[row.2].cpu_usage.total_place() == usage.total_place() ==> data[row.2].cpu_usage
            == usage);
    }
    lemma_same_filter(tree_rows, has, uses);
    lemma_same_filter(sorted_by(tree_rows, rank), has, uses);
    assert(of_rank(tree_rows, rank, place) == tree_rows.filter(has));
}

/// In the tree the busiest of the children of one process stand first, the children are
/// those that were there, and the lines are those of the tree.
pub proof fn the_busiest_children_stand_first(
    s: State,
    res: State,
    p: NodeId,
    i: int,
    j: int,
    x: Pid,
    y: Pid,
)
    requires
        call_ensures(State::prepare, (s,), res),
        s@.sysinfo.wf(),
        filed(s.sysinfo.process_data@),
        s.process_view is Tree,
        s.sysinfo.process_tree@.has(p),
        0 <= i < j < res.sysinfo.process_tree@.children[p].len(),
        res.sysinfo.process_tree@.values[res.sysinfo.process_tree@.children[p][i]]
            == ProcessNode::Process(x),
        res.sysinfo.process_tree@.values[res.sysinfo.process_tree@.children[p][j]]
            == ProcessNode::Process(y),
    ensures
        ({
            let (before, after) = (s.sysinfo.process_tree@, res.sysinfo.process_tree@);
            let data = s.sysinfo.process_data@;
            &&& no_less(data[x].cpu_usage, data[y].cpu_usage)
            &&& stands_before(after.ids(), after.children[p][i], after.children[p][j])
            &&& after.values == before.values && after.root == before.root
            &&& after.children[p].to_multiset() == before.children[p].to_multiset()
            &&& res.process_rows matches Some(rows) && rows@ == after.rows()
        }),
{
    let m = s@;
    lemma_rows_of(m);
    let calm = StateModel { effects: EffectsModel::resting(), ..m };
    assert(calm.prepare().sysinfo == m.prepare().sysinfo);
    crate::laws::siblings_are_sorted(calm, p, i, j);
    let rank = crate::state::value_rank(m.sysinfo.data, m.sort_mode);
    sorting_is_stable(
        m.sysinfo.tree.children[p],
        crate::tree::node_rank(m.sysinfo.tree.values, rank),
        0,
    );
}

/// Preparing makes the lines anew, in the tree it sorts, and it changes nothing else.
pub proof fn preparing_makes_lines_alone(s: State, res: State)
    requires
        call_ensures(State::prepare, (s,), res),
    ensures
        res.process_rows is Some,
        res.exit == s.exit && res.process_view == s.process_view && res.sort_mode == s.sort_mode,
        res.mode@ == s.mode@ && res@.old_search_state == s@.old_search_state,
        bits(res.search_matches) == bits(s.search_matches),
        res.sysinfo.process_data@ == s.sysinfo.process_data@,
        res.sysinfo.mem_usage == s.sysinfo.mem_usage,
        res.sysinfo.cpu_usage@ == s.sysinfo.cpu_usage@,
        s.process_view is Flat ==> res.sysinfo.process_tree@ == s.sysinfo.process_tree@,
        res.process_table_state == s.process_table_state,
        res.effects@ == s.effects@ && res.dt == s.dt && res.last_killed_pid == s.last_killed_pid,
{
}

/// Whether the marks of a table are those of a term: each line is marked if and only if
/// its process was measured and the term means it.
pub open spec fn marks_of(
    marks: Seq<bool>,
    rows: Seq<ProcessRow>,
    data: Map<Pid, ProcessData>,
    term: Seq<char>,
) -> bool {
    &&& marks.len() == rows.len()
    &&& forall|i: int|
        0 <= i < rows.len() ==> #[trigger] marks[i] == (data.contains_key(rows[i].2) && meant_by(
            data[rows[i].2],
            term,
        ))
}

/// Whether a selected line is a marked one, and none is selected only where none is
/// marked.
pub open spec fn selects_a_mark(selected: Option<usize>, marks: Seq<bool>) -> bool {
    match selected {
        Some(i) => i < marks.len() && marks[i as int],
        None => forall|i: int| 0 <= i < marks.len() ==> !#[trigger] marks[i],
    }
}

/// Whether no line above the selected one is marked.
pub open spec fn selects_the_first(selected: Option<usize>, marks: Seq<bool>) -> bool {
    selected matches Some(i) ==> forall|k: int| 0 <= k < i ==> !#[trigger] marks[k]
}

/// Whether one selected line is the next marked one below another, or the first behind
/// the last.
pub open spec fn selects_the_next(
    here: Option<usize>,
    next: Option<usize>,
    marks: Seq<bool>,
) -> bool {
    &&& here is None == next is None
    &&& here matches Some(i) ==> (next matches Some(j) ==> {
        ||| i < j && forall|k: int| i < k < j ==> !#[trigger] marks[k]
        ||| {
            &&& j <= i
            &&& forall|k: int| i < k < marks.len() ==> !#[trigger] marks[k]
            &&& forall|k: int| 0 <= k < j ==> !#[trigger] marks[k]
        }
    })
}

proof fn lemma_finds(rows: Vec<ProcessRow>, data: Map<Pid, ProcessData>, term: Seq<char>, idx: int)
    ensures
        ({
            let found = finds(rows@, data, term);
            &&& marks_of(found, rows@, data, term)
            &&& selects_a_mark(selection(found, idx), found)
            &&& selects_the_first(selection(found, 0), found)
            &&& selects_the_next(selection(found, idx), selection(found, idx + 1), found)
        }),
{
    let found = finds(rows@, data, term);
    assert forall|i: int| 0 <= i < rows@.len() implies #[trigger] found[i] == (data.contains_key(
        rows@[i].2,
    ) && meant_by(data[rows@[i].2], term)) by {
        the_finds_are_what_is_meant(data[rows@[i].2], term);
    }
    assert(rows.len() == rows@.len());
    lemma_count_walks(found, idx);
}

/// A search marks what its term means and selects one of those lines, the first where it
/// has not been counted on. It is kept as the search that is edited, or else as the last
/// one, and nothing else changes.
pub proof fn a_search_marks_what_is_meant(
    s: State,
    search: SearchState,
    res: State,
    rows: Vec<ProcessRow>,
)
    requires
        call_ensures(State::update_search, (s, search), res),
        s.process_rows == Some(rows),
    ensures
        ({
            let marks = bits(res.search_matches);
            &&& marks_of(marks, rows@, s.sysinfo.process_data@, search.term@)
            &&& selects_a_mark(res.process_table_state.selected, marks)
            &&& search.idx == 0 ==> selects_the_first(res.process_table_state.selected, marks)
        }),
        res.process_table_state.offset == s.process_table_state.offset,
        s.mode is Normal ==> res.mode is Normal && same_search(res.old_search_state, search),
        s.mode is Search ==> {
            &&& res.mode matches Mode::Search(kept) && same_search(Some(kept), search)
            &&& res@.old_search_state == s@.old_search_state
        },
        untouched(s, res),
{
    lemma_finds(rows, s.sysinfo.process_data@, search.term@, search.idx as int);
}

/// Before there are lines a search is kept, as the last one in any case, and nothing is
/// marked or selected anew.
pub proof fn a_search_without_lines_is_kept(s: State, search: SearchState, res: State)
    requires
        call_ensures(State::update_search, (s, search), res),
        s.process_rows is None,
    ensures
        same_search(res.old_search_state, search),
        s.mode is Normal == res.mode is Normal,
        res.mode matches Mode::Search(kept) ==> same_search(Some(kept), search),
        bits(res.search_matches) == bits(s.search_matches),
        res.process_table_state == s.process_table_state,
        untouched(s, res),
{
}

/// Whether a search is kept, with its term, its count and whether it is followed.
pub open spec fn same_search(kept: Option<SearchState>, search: SearchState) -> bool {
    kept matches Some(kept) && kept.term@ == search.term@ && kept.idx == search.idx && kept.hooked
        == search.hooked
}

/// Whether two states agree in all but the search, its marks and the selected line.
pub open spec fn untouched(s: State, res: State) -> bool {
    &&& res.exit == s.exit && res.process_view == s.process_view && res.sort_mode == s.sort_mode
    &&& res.sysinfo@ == s.sysinfo@
    &&& res@.process_rows == s@.process_rows
    &&& res.effects@ == s.effects@ && res.dt == s.dt && res.last_killed_pid == s.last_killed_pid
}

/// Whether two states agree in the search that is edited and in the last one, but for
/// whether the last one is followed.
pub open spec fn same_searches(s: State, res: State) -> bool {
    &&& res.mode@ == s.mode@
    &&& s.old_search_state is None == res.old_search_state is None
    &&& s.old_search_state matches Some(search) ==> (res.old_search_state matches Some(kept)
        && kept.term@ == search.term@ && kept.idx == search.idx)
}

/// The last search is followed, or not, and nothing else changes.
pub proof fn hooking_changes_the_hook_alone(s: State, on: State, off: State)
    requires
        call_ensures(State::hook_search, (s,), on),
        call_ensures(State::unhook_search, (s,), off),
    ensures
        on.old_search_state matches Some(search) ==> search.hooked,
        off.old_search_state matches Some(search) ==> !search.hooked,
        same_searches(s, on) && untouched(s, on),
        same_searches(s, off) && untouched(s, off),
        on.process_table_state == s.process_table_state,
        off.process_table_state == s.process_table_state,
        bits(on.search_matches) == bits(s.search_matches),
        bits(off.search_matches) == bits(s.search_matches),
{
}

/// The search that is edited, or else the last one, is made again where it is followed;
/// where it is not, the marks and the selected line stay as they are.
pub proof fn what_is_followed_is_searched_again(
    s: State,
    res: State,
    rows: Vec<ProcessRow>,
    search: SearchState,
)
    requires
        call_ensures(State::refresh_search_if_hooked, (s,), res),
        s.process_rows == Some(rows),
        s.mode == Mode::Search(search) || (s.mode is Normal && s.old_search_state == Some(search)),
    ensures
        ({
            let marks = bits(res.search_matches);
            &&& search.hooked ==> marks_of(
                marks,
                rows@,
                s.sysinfo.process_data@,
                search.term@,
            )
            &&& search.hooked ==> selects_a_mark(res.process_table_state.selected, marks)
            &&& !search.hooked ==> marks == bits(s.search_matches)
            &&& !search.hooked ==> res.process_table_state == s.process_table_state
        }),
        untouched(s, res),
        same_searches(s, res),
{
    lemma_finds(rows, s.sysinfo.process_data@, search.term@, search.idx as int);
}

/// Without a search there is nothing to follow.
pub proof fn without_a_search_nothing_is_searched(s: State, res: State, again: State)
    requires
        call_ensures(State::refresh_search_if_hooked, (s,), res),
        call_ensures(State::refresh_search, (s,), again),
        s.old_search_state is None,
    ensures
        s.mode is Normal ==> res@ == s@,
        again@ == s@,
{
}

/// The last search is made again on the lines that there are, followed or not.
pub proof fn the_last_search_is_made_again(
    s: State,
    res: State,
    rows: Vec<ProcessRow>,
    search: SearchState,
)
    requires
        call_ensures(State::refresh_search, (s,), res),
        s.process_rows == Some(rows),
        s.old_search_state == Some(search),
    ensures
        marks_of(bits(res.search_matches), rows@, s.sysinfo.process_data@, search.term@),
        selects_a_mark(res.process_table_state.selected, bits(res.search_matches)),
        same_search(res.old_search_state, search),
        untouched(s, res),
{
    lemma_finds(rows, s.sysinfo.process_data@, search.term@, search.idx as int);
}

/// Fresh measurements take the place of the old ones as they are. The tree is sorted
/// where it is shown.
pub proof fn fresh_measurements_are_taken_over(s: State, info: SystemInformation, res: State)
    requires
        call_ensures(Transition::transition, (Transition::UpdateSysInfo(info), s), res),
    ensures
        res.sysinfo.process_data@ == info.process_data@,
        res.sysinfo.mem_usage == info.mem_usage,
        res.sysinfo.cpu_usage@ == info.cpu_usage@,
        res.sysinfo.process_tree@.values == info.process_tree@.values,
        res.sysinfo.process_tree@.root == info.process_tree@.root,
        s.process_view is Flat ==> res.sysinfo.process_tree@ == info.process_tree@,
        res.process_rows is Some,
        same_searches(s, res),
        res.exit == s.exit && res.process_view == s.process_view && res.sort_mode == s.sort_mode,
        res.effects@ == s.effects@ && res.dt == s.dt && res.last_killed_pid == s.last_killed_pid,
{
}

/// A search that is followed marks the lines of fresh measurements and selects one of
/// those that it marks.
pub proof fn a_followed_search_follows_fresh_measurements(
    s: State,
    info: SystemInformation,
    res: State,
    search: SearchState,
)
    requires
        call_ensures(Transition::transition, (Transition::UpdateSysInfo(info), s), res),
        s.mode == Mode::Search(search) || (s.mode is Normal && s.old_search_state == Some(search)),
        search.hooked,
    ensures
        res.process_rows matches Some(rows) && {
            &&& marks_of(bits(res.search_matches), rows@, info.process_data@, search.term@)
            &&& selects_a_mark(res.process_table_state.selected, bits(res.search_matches))
        },
{
    let rows = res.process_rows->Some_0;
    lemma_finds(rows, info.process_data@, search.term@, search.idx as int);
}

/// Where no search is followed, fresh measurements leave the marks and the selected line
/// alone.
pub proof fn fresh_measurements_leave_the_selected_line(
    s: State,
    info: SystemInformation,
    res: State,
)
    requires
        call_ensures(Transition::transition, (Transition::UpdateSysInfo(info), s), res),
        s.mode matches Mode::Search(search) ==> !search.hooked,
        s.mode is Normal ==> (s.old_search_state matches Some(search) ==> !search.hooked),
    ensures
        bits(res.search_matches) == bits(s.search_matches),
        res.process_table_state == s.process_table_state,
{
}

/// A character that is typed stands at the end of the term, and one that is deleted was
/// there. The search is followed, marks what the new term means, and selects one of those
/// lines, the first where it has not been counted on.
pub proof fn typing_searches_for_the_new_term(
    s: State,
    change: SearchTypeTransition,
    res: State,
    rows: Vec<ProcessRow>,
    search: SearchState,
)
    requires
        call_ensures(Transition::transition, (Transition::SearchType(change), s), res),
        s.mode == Mode::Search(search),
        s.process_rows == Some(rows),
    ensures
        res.mode matches Mode::Search(now) && {
            let marks = bits(res.search_matches);
            &&& change matches SearchTypeTransition::Type(ch) ==> now.term@ == search.term@.push(ch)
            &&& change is Delete && search.term@.len() > 0 ==> now.term@.push(
                search.term@[search.term@.len() - 1],
            ) == search.term@
            &&& change is Delete && search.term@.len() == 0 ==> now.term@.len() == 0
            &&& now.hooked && now.idx == search.idx
            &&& marks_of(marks, rows@, s.sysinfo.process_data@, now.term@)
            &&& selects_a_mark(res.process_table_state.selected, marks)
            &&& search.idx == 0 ==> selects_the_first(res.process_table_state.selected, marks)
        },
        untouched(s, res),
{
    let term = change.applied(search.term@);
    if search.term@.len() > 0 {
        assert(search.term@.drop_last().push(search.term@[search.term@.len() - 1])
            =~= search.term@);
    }
    lemma_finds(rows, s.sysinfo.process_data@, term, search.idx as int);
}

/// The next result is the next marked line of the last search, the previous result the
/// one before: from the line that the last search selects to the next one, and from the
/// one that the previous result selects to that line. Both follow the search.
pub proof fn results_follow_each_other(
    s: State,
    again: State,
    next: State,
    prev: State,
    rows: Vec<ProcessRow>,
    search: SearchState,
)
    requires
        call_ensures(State::refresh_search, (s,), again),
        call_ensures(Transition::transition, (Transition::NextSearchResult, s), next),
        call_ensures(Transition::transition, (Transition::PrevSearchResult, s), prev),
        s.mode is Normal,
        s.process_rows == Some(rows),
        s.old_search_state == Some(search),
    ensures
        ({
            let marks = bits(again.search_matches);
            &&& marks_of(marks, rows@, s.sysinfo.process_data@, search.term@)
            &&& bits(next.search_matches) == marks && bits(prev.search_matches) == marks
            &&& selects_a_mark(next.process_table_state.selected, marks)
            &&& selects_a_mark(prev.process_table_state.selected, marks)
            &&& selects_the_next(
                again.process_table_state.selected,
                next.process_table_state.selected,
                marks,
            )
            &&& selects_the_next(
                prev.process_table_state.selected,
                again.process_table_state.selected,
                marks,
            )
        }),
        next.old_search_state matches Some(kept) && kept.term@ == search.term@ && kept.idx
            == search.idx + 1 && kept.hooked,
        prev.old_search_state matches Some(kept) && kept.term@ == search.term@ && kept.idx
            == search.idx - 1 && kept.hooked,
        untouched(s, next) && untouched(s, prev),
{
    let idx = search.idx as int;
    lemma_finds(rows, s.sysinfo.process_data@, search.term@, idx);
    lemma_finds(rows, s.sysinfo.process_data@, search.term@, idx - 1);
    lemma_finds(rows, s.sysinfo.process_data@, search.term@, idx + 1);
}

/// Without a last search there is no result to go to.
pub proof fn without_a_search_there_is_no_result(s: State, next: State, prev: State)
    requires
        call_ensures(Transition::transition, (Transition::NextSearchResult, s), next),
        call_ensures(Transition::transition, (Transition::PrevSearchResult, s), prev),
        s.old_search_state is None,
    ensures
        next@ == s@ && prev@ == s@,
{
}

/// Scrolling goes to the next line or to the one before, and stays at the first line.
/// Where none was selected it goes to the first line or to the last number. It unhooks
/// the last search and changes nothing else.
pub proof fn scrolling_moves_by_a_line(s: State, down: State, up: State)
    requires
        call_ensures(Transition::transition, (Transition::ScrollDown, s), down),
        call_ensures(Transition::transition, (Transition::ScrollUp, s), up),
    ensures
        s.process_table_state.selected matches Some(i) ==> {
            &&& i < usize::MAX ==> down.process_table_state.selected == Some((i + 1) as usize)
            &&& i == usize::MAX ==> down.process_table_state.selected == Some(i)
            &&& i > 0 ==> up.process_table_state.selected == Some((i - 1) as usize)
            &&& i == 0 ==> up.process_table_state.selected == Some(0usize)
        },
        s.process_table_state.selected is None ==> {
            &&& down.process_table_state.selected == Some(0usize)
            &&& up.process_table_state.selected == Some(usize::MAX)
        },
        down.process_table_state.offset == s.process_table_state.offset,
        up.process_table_state.offset == s.process_table_state.offset,
        down.old_search_state matches Some(search) ==> !search.hooked,
        up.old_search_state matches Some(search) ==> !search.hooked,
        bits(down.search_matches) == bits(s.search_matches),
        bits(up.search_matches) == bits(s.search_matches),
        same_searches(s, down) && same_searches(s, up),
        untouched(s, down) && untouched(s, up),
{
}

/// A search begins with no term, is followed, and forgets the last one. It marks and
/// selects nothing yet.
pub proof fn a_search_begins(s: State, res: State)
    requires
        call_ensures(Transition::transition, (Transition::StartSearch, s), res),
        s.mode is Normal,
    ensures
        res.mode matches Mode::Search(search) && search.term@.len() == 0 && search.idx == 0
            && search.hooked,
        res.old_search_state is None,
        res.process_table_state == s.process_table_state,
        bits(res.search_matches) == bits(s.search_matches),
        untouched(s, res),
{
}

/// A search that is completed is the last one, and followed. What it marked and selected
/// stays.
pub proof fn a_search_ends(s: State, search: SearchState, res: State)
    requires
        call_ensures(Transition::transition, (Transition::CompleteSearch, s), res),
        s.mode == Mode::Search(search),
    ensures
        res.mode is Normal,
        res.old_search_state matches Some(kept) && kept.term@ == search.term@ && kept.idx
            == search.idx && kept.hooked,
        res.process_table_state == s.process_table_state,
        bits(res.search_matches) == bits(s.search_matches),
        untouched(s, res),
{
}

/// Killing a process notes its number and starts the wipe from its beginning, the other
/// animations going on as they are. The last search is made again and unhooked.
pub proof fn killing_notes_the_process(s: State, pid: Pid, res: State)
    requires
        call_ensures(Transition::transition, (Transition::KillProcess(pid), s), res),
    ensures
        res.last_killed_pid == Some(pid),
        res.effects@.kill_effect.started,
        res.effects@.kill_effect.finished == s.effects@.kill_effect.finished,
        res.effects@.kill_effect.state == s.effects@.kill_effect.state.rewound(),
        res.effects@.table_slide_in == s.effects@.table_slide_in,
        res.effects@.modeline_slide_in_left == s.effects@.modeline_slide_in_left,
        res.effects@.modeline_slide_in_right == s.effects@.modeline_slide_in_right,
        res.old_search_state matches Some(search) ==> !search.hooked,
        s.old_search_state is None ==> {
            &&& res.process_table_state == s.process_table_state
            &&& bits(res.search_matches) == bits(s.search_matches)
        },
        res.sysinfo@ == s.sysinfo@ && res@.process_rows == s@.process_rows,
        res.exit == s.exit && res.dt == s.dt && res.process_view == s.process_view,
{
}

/// Nothing, the end and the time of the animations are steps that change no more than
/// their own part.
pub proof fn small_steps_change_one_part(s: State, dt: u32, stay: State, exit: State, later: State)
    requires
        call_ensures(Transition::transition, (Transition::Stay, s), stay),
        call_ensures(Transition::transition, (Transition::Exit, s), exit),
        call_ensures(Transition::transition, (Transition::UpdateDt(dt), s), later),
    ensures
        stay@ == s@,
        exit.exit && exit@ == (StateModel { exit: true, ..s@ }),
        later.dt == dt && later@ == (StateModel { dt, ..s@ }),
{
}

/// A step is refused where it does not fit the mode, where the character to delete is
/// longer than a byte, and where the count of results is at its end. No other is.
pub proof fn what_is_refused(s: State, t: Transition, res: bool)
    requires
        call_ensures(State::accepts, (&s, &t), res),
        s@.effects.wf(),
        t matches Transition::UpdateSysInfo(info) ==> info@.wf(),
    ensures
        t is Stay || t is Exit || t is UpdateDt || t is UpdateSysInfo || t is ScrollUp
            || t is ScrollDown || t is KillProcess ==> res,
        t is SearchType || t is CompleteSearch ==> s.mode is Normal ==> !res,
        t is CompleteSearch && s.mode is Search ==> res,
        t is StartSearch ==> res == s.mode is Normal,
        t matches Transition::SearchType(change) ==> (s.mode matches Mode::Search(search) ==> res
            == !(change is Delete && search.term@.len() > 0
            && search.term@[search.term@.len() - 1] as u32 >= 128)),
        t is NextSearchResult ==> res == !(s.old_search_state matches Some(search) && search.idx
            == isize::MAX),
        t is PrevSearchResult ==> res == !(s.old_search_state matches Some(search) && search.idx
            == isize::MIN),
{
    if let Some(search) = s.old_search_state {
        assert(s@.old_search_state == Some(search@));
        assert(isize::MIN <= search.idx <= isize::MAX);
    }
    if let Mode::Search(search) = s.mode {
        assert(s@.mode == crate::search::ModeModel::Search(search@));
    }
}

/// Whether the children of each node of a tree stand in the order of what they use, the
/// busiest first.
pub open spec fn busiest_children_first(tree: TreeModel, data: Map<Pid, ProcessData>) -> bool {
    forall|p: NodeId, i: int, j: int|
        #![trigger tree.children[p][i], tree.children[p][j]]
        tree.has(p) && 0 <= i < j < tree.children[p].len() ==> match (
            tree.values[tree.children[p][i]],
            tree.values[tree.children[p][j]],
        ) {
            (ProcessNode::Process(x), ProcessNode::Process(y)) => no_less(
                data[x].cpu_usage,
                data[y].cpu_usage,
            ),
            _ => false,
        }
}

pub(crate) proof fn lemma_busiest_children_first(m: StateModel)
    requires
        m.sysinfo.wf(),
        m.sysinfo.filed(),
        m.process_view is Tree,
    ensures
        busiest_children_first(m.prepare().sysinfo.tree, m.sysinfo.data),
        m.prepare().process_rows == Some(m.prepare().sysinfo.tree.rows()),
{
    lemma_rows_of(m);
    let calm = StateModel { effects: EffectsModel::resting(), ..m };
    assert(calm.prepare().sysinfo == m.prepare().sysinfo);
    let tree = m.prepare().sysinfo.tree;
    assert forall|p: NodeId, i: int, j: int|
        #![trigger tree.children[p][i], tree.children[p][j]]
        tree.has(p) && 0 <= i < j < tree.children[p].len() implies match (
        tree.values[tree.children[p][i]],
        tree.values[tree.children[p][j]],
    ) {
        (ProcessNode::Process(x), ProcessNode::Process(y)) => no_less(
            m.sysinfo.data[x].cpu_usage,
            m.sysinfo.data[y].cpu_usage,
        ),
        _ => false,
    } by {
        let (a, b) = (tree.children[p][i], tree.children[p][j]);
        crate::laws::siblings_are_sorted(calm, p, i, j);
        assert(tree.children[p].contains(a) && tree.children[p].contains(b));
        siblings_are_processes(tree, p, a, b);
    }
}

/// After fresh measurements the tree, where it is shown, has the busiest children first,
/// and the lines are those of the tree.
pub proof fn fresh_trees_are_sorted(s: State, info: SystemInformation, res: State)
    requires
        call_ensures(Transition::transition, (Transition::UpdateSysInfo(info), s), res),
        info@.wf(),
        filed(info.process_data@),
        s.process_view is Tree,
    ensures
        busiest_children_first(res.sysinfo.process_tree@, info.process_data@),
        res.process_rows matches Some(rows) && rows@ == res.sysinfo.process_tree@.rows(),
{
    lemma_busiest_children_first(StateModel { sysinfo: info@, ..s@ });
}

/// Killing makes the last search again on the lines that there are: it marks what its term
/// means and selects one of those lines.
pub proof fn killing_searches_again(
    s: State,
    pid: Pid,
    res: State,
    rows: Vec<ProcessRow>,
    search: SearchState,
)
    requires
        call_ensures(Transition::transition, (Transition::KillProcess(pid), s), res),
        s.process_rows == Some(rows),
        s.old_search_state == Some(search),
    ensures
        marks_of(bits(res.search_matches), rows@, s.sysinfo.process_data@, search.term@),
        selects_a_mark(res.process_table_state.selected, bits(res.search_matches)),
        search.idx == 0 ==> selects_the_first(
            res.process_table_state.selected,
            bits(res.search_matches),
        ),
        res.process_table_state.offset == s.process_table_state.offset,
        res.old_search_state matches Some(kept) && kept.term@ == search.term@ && kept.idx
            == search.idx && !kept.hooked,
        s.mode is Normal ==> res.mode is Normal,
        s.mode is Search ==> (res.mode matches Mode::Search(edited) && same_search(
            Some(edited),
            search,
        )),
{
    lemma_finds(rows, s.sysinfo.process_data@, search.term@, search.idx as int);
}

/// A result that is asked for while a search is edited takes the place of that search, and
/// the last one is followed.
pub proof fn results_while_a_search_is_edited(
    s: State,
    next: State,
    prev: State,
    rows: Vec<ProcessRow>,
    search: SearchState,
)
    requires
        call_ensures(Transition::transition, (Transition::NextSearchResult, s), next),
        call_ensures(Transition::transition, (Transition::PrevSearchResult, s), prev),
        s.mode is Search,
        s.process_rows == Some(rows),
        s.old_search_state == Some(search),
    ensures
        next.mode matches Mode::Search(edited) && edited.term@ == search.term@ && edited.idx
            == search.idx + 1,
        prev.mode matches Mode::Search(edited) && edited.term@ == search.term@ && edited.idx
            == search.idx - 1,
        next.old_search_state matches Some(kept) && kept.term@ == search.term@ && kept.idx
            == search.idx && kept.hooked,
        prev.old_search_state matches Some(kept) && kept.term@ == search.term@ && kept.idx
            == search.idx && kept.hooked,
        marks_of(bits(next.search_matches), rows@, s.sysinfo.process_data@, search.term@),
        marks_of(bits(prev.search_matches), rows@, s.sysinfo.process_data@, search.term@),
        selects_a_mark(next.process_table_state.selected, bits(next.search_matches)),
        selects_a_mark(prev.process_table_state.selected, bits(prev.search_matches)),
        untouched(s, next) && untouched(s, prev),
{
    lemma_finds(rows, s.sysinfo.process_data@, search.term@, search.idx + 1);
    lemma_finds(rows, s.sysinfo.process_data@, search.term@, search.idx - 1);
}

/// Before there are lines the results are only counted, and typing only changes the term:
/// nothing is marked or selected.
pub proof fn searching_before_there_are_lines(
    s: State,
    change: SearchTypeTransition,
    search: SearchState,
    last: SearchState,
    typed: State,
    next: State,
    prev: State,
)
    requires
        call_ensures(Transition::transition, (Transition::SearchType(change), s), typed),
        call_ensures(Transition::transition, (Transition::NextSearchResult, s), next),
        call_ensures(Transition::transition, (Transition::PrevSearchResult, s), prev),
        s.process_rows is None,
        s.mode == Mode::Search(search),
        s.old_search_state == Some(last),
    ensures
        typed.mode matches Mode::Search(now) && {
            &&& change matches SearchTypeTransition::Type(ch) ==> now.term@ == search.term@.push(ch)
            &&& change is Delete && search.term@.len() > 0 ==> now.term@.push(
                search.term@[search.term@.len() - 1],
            ) == search.term@
            &&& now.hooked && now.idx == search.idx
            &&& same_search(typed.old_search_state, now)
        },
        next.old_search_state matches Some(kept) && kept.term@ == last.term@ && kept.idx
            == last.idx + 1 && kept.hooked,
        prev.old_search_state matches Some(kept) && kept.term@ == last.term@ && kept.idx
            == last.idx - 1 && kept.hooked,
        typed.process_table_state == s.process_table_state,
        next.process_table_state == s.process_table_state,
        prev.process_table_state == s.process_table_state,
        bits(typed.search_matches) == bits(s.search_matches),
        bits(next.search_matches) == bits(s.search_matches),
        bits(prev.search_matches) == bits(s.search_matches),
        untouched(s, typed) && untouched(s, next) && untouched(s, prev),
{
    if search.term@.len() > 0 {
        assert(search.term@.drop_last().push(search.term@[search.term@.len() - 1])
            =~= search.term@);
    }
}

} // verus!
