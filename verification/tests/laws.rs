use jo::number::Single;
use jo::process::ProcessSample;
use jo::search::{Mode, SearchState};
use jo::state::{ProcessView, State};
use jo::system::{Measured, SystemInformation};
use jo::table::TableState;
use jo::text::decimal;
use jo::transition::{SearchTypeTransition, Transition};

fn measured(pid: u32, parent: Option<u32>, name: &str, cpu: f32) -> Measured {
    Measured {
        parent,
        process: ProcessSample {
            pid,
            exe: None,
            name: name.to_string(),
            user: "alice".to_string(),
            cpu_usage: Single::from_bits(cpu.to_bits()),
            memory_usage: 1,
            memory_percent: Single::default(),
        },
    }
}

fn family() -> SystemInformation {
    let measured = vec![
        measured(1, None, "init", 0.0),
        measured(2, Some(1), "shell", 5.0),
        measured(3, Some(2), "editor", 9.0),
        measured(4, Some(1), "server", 7.0),
        measured(8, Some(9), "orphan", 1.0),
        measured(5, Some(6), "ring", 1.0),
        measured(6, Some(5), "ring", 1.0),
    ];
    match SystemInformation::gather(measured, Single::default(), vec![]) {
        Ok(info) => info,
        Err(err) => panic!("{:?}", err),
    }
}

fn pids(state: &State) -> Vec<u32> {
    state.process_rows.as_ref().expect("rows").iter().map(|row| row.2).collect()
}

#[test]
fn the_table_lists_each_rooted_process_once() {
    let st = Transition::UpdateSysInfo(family()).transition(State::default());
    let mut listed = pids(&st);
    assert_eq!(listed, vec![3, 4, 2, 1]);
    listed.sort();
    assert_eq!(listed, vec![1, 2, 3, 4]);
}

#[test]
fn children_stand_below_their_parent() {
    let mut st = State::default();
    st.process_view = ProcessView::Tree;
    let st = Transition::UpdateSysInfo(family()).transition(st);
    assert_eq!(pids(&st), vec![1, 4, 2, 3]);
}

#[test]
fn only_fresh_measurements_change_the_lines() {
    let mut st = Transition::UpdateSysInfo(family()).transition(State::default());
    let lines = pids(&st);
    for transition in [
        Transition::Stay,
        Transition::UpdateDt(3),
        Transition::ScrollDown,
        Transition::ScrollUp,
        Transition::StartSearch,
        Transition::SearchType(SearchTypeTransition::Type('e')),
        Transition::CompleteSearch,
        Transition::NextSearchResult,
        Transition::PrevSearchResult,
        Transition::KillProcess(4),
        Transition::Exit,
    ] {
        assert!(st.accepts(&transition));
        st = st.advance(transition);
        assert_eq!(pids(&st), lines);
    }
    assert!(st.exit);
    assert_eq!(st.dt, 3);
}

#[test]
fn searching_twice_is_searching_once() {
    let st = Transition::UpdateSysInfo(family()).transition(State::default());
    let search = SearchState { term: "e".to_string(), idx: 4, hooked: true };
    let st = st.update_search(search.clone());
    let marks: Vec<bool> = st.search_matches.iter().collect();
    let selected = st.process_table_state.selected();
    assert_eq!(marks, vec![true, true, true, false]);
    assert_eq!(selected, Some(1));
    let st = st.update_search(search);
    assert_eq!(st.search_matches.iter().collect::<Vec<bool>>(), marks);
    assert_eq!(st.process_table_state.selected(), selected);
}

#[test]
fn without_lines_a_search_is_only_kept() {
    let st = Transition::StartSearch.transition(State::default());
    let st = Transition::SearchType(SearchTypeTransition::Type('e')).transition(st);
    assert_eq!(st.old_search_state.as_ref().expect("search").term, "e");
    let st = Transition::NextSearchResult.transition(st);
    match &st.mode {
        Mode::Search(search) => assert_eq!(search.idx, 1),
        Mode::Normal => panic!("no search"),
    }
    let st = Transition::PrevSearchResult.transition(st);
    assert_eq!(st.old_search_state.expect("search").idx, 0);
}

#[test]
fn the_selected_line_is_drawn() {
    let mut st = Transition::UpdateSysInfo(family()).transition(State::default());
    for selected in 0..4 {
        st.process_table_state = st.process_table_state.with_selected(Some(selected));
        let table = st.table_view(1);
        assert_eq!(table.lines[selected].2, pids(&st)[selected]);
        assert!(!table.rows[selected].cells.is_empty());
    }
}

#[test]
fn down_and_up_leads_back() {
    let mut table = TableState { offset: 1, selected: Some(3) };
    table.select_next();
    table.select_previous();
    assert_eq!(table, TableState { offset: 1, selected: Some(3) });
    table.select_previous();
    table.select_next();
    assert_eq!(table, TableState { offset: 1, selected: Some(3) });
}

#[test]
fn numbers_that_read_alike_are_the_same() {
    assert_ne!(decimal(10), decimal(100));
    assert_ne!(decimal(12), decimal(21));
    assert_eq!(decimal(12), decimal(12));
}

#[test]
fn steps_that_do_not_fit() {
    let st = State::default();
    assert!(!st.accepts(&Transition::SearchType(SearchTypeTransition::Delete)));
    assert!(!st.accepts(&Transition::CompleteSearch));
    assert!(st.accepts(&Transition::StartSearch));
    let mut st = Transition::StartSearch.transition(st);
    assert!(!st.accepts(&Transition::StartSearch));
    assert!(st.accepts(&Transition::SearchType(SearchTypeTransition::Delete)));
    st = Transition::SearchType(SearchTypeTransition::Type('é')).transition(st);
    assert!(!st.accepts(&Transition::SearchType(SearchTypeTransition::Delete)));
    st.old_search_state = Some(SearchState { term: "".to_string(), idx: isize::MAX, hooked: true });
    assert!(!st.accepts(&Transition::NextSearchResult));
    assert!(st.accepts(&Transition::PrevSearchResult));
    st.old_search_state = Some(SearchState { term: "".to_string(), idx: isize::MIN, hooked: true });
    assert!(!st.accepts(&Transition::PrevSearchResult));
}

#[test]
fn the_later_of_two_with_one_number_counts() {
    let twice = vec![measured(1, Some(1), "first", 0.0), measured(1, None, "second", 0.0)];
    match SystemInformation::gather(twice, Single::default(), vec![]) {
        Ok(info) => {
            assert_eq!(info.process_data[&1].name, "second");
            assert_eq!(info.process_tree.rows().len(), 1);
        }
        Err(err) => panic!("{:?}", err),
    }
}
