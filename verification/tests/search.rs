use jo::number::Single;
use jo::process::ProcessData;
use jo::search::{around, find_rows, list_places, matches_term, select, Mode, SearchState};
use jo::state::{SortMode, State};
use jo::system::{Measured, SystemInformation};
use jo::text::chars_of;
use jo::transition::{SearchTypeTransition, Transition};
use jo::tree::TreePrefix;

fn number(value: f32) -> Single {
    Single::from_bits(value.to_bits())
}

fn process(pid: u32, name: &str, cpu: f32) -> ProcessData {
    ProcessData {
        pid,
        name: name.to_string(),
        user: "alice".to_string(),
        cpu_usage: number(cpu),
        memory_usage: 0,
        memory_percent: number(0.0),
    }
}

fn measured(pid: u32, parent: Option<u32>, name: &str, cpu: f32) -> Measured {
    Measured {
        parent,
        process: jo::process::ProcessSample {
            pid,
            exe: None,
            name: name.to_string(),
            user: "alice".to_string(),
            cpu_usage: number(cpu),
            memory_usage: 0,
            memory_percent: number(0.0),
        },
    }
}

fn system(processes: Vec<Measured>) -> SystemInformation {
    match SystemInformation::gather(processes, number(0.5), vec![]) {
        Ok(info) => info,
        Err(err) => panic!("{:?}", err),
    }
}

fn filled() -> State {
    let info = system(vec![
        measured(1, None, "Init", 3.0),
        measured(20, Some(1), "shell", 2.0),
        measured(300, Some(20), "Finder", 1.0),
        measured(4, Some(1), "bash", 4.0),
    ]);
    Transition::UpdateSysInfo(info).transition(State::default())
}

#[test]
fn start_search_sets_mode_and_resets_old() {
    let st = State::default();
    assert!(matches!(st.mode, Mode::Normal));
    let st2 = Transition::StartSearch.transition(st);
    if let Mode::Search(ss) = st2.mode {
        assert_eq!(&*ss.term, "");
        assert_eq!(ss.idx, 0);
        assert!(ss.hooked);
    } else {
        panic!("Expected Search mode");
    }
    assert!(st2.old_search_state.is_none());
}

#[test]
fn typing_search_builds_term_and_hooks() {
    let st = Transition::StartSearch.transition(State::default());
    let st = Transition::SearchType(SearchTypeTransition::Type('f')).transition(st);
    if let Mode::Search(ss) = &st.mode {
        assert_eq!(&*ss.term, "f");
        assert!(ss.hooked, "should be hooked after typing");
    } else {
        panic!("Expected Search mode after typing");
    }
    let st = Transition::SearchType(SearchTypeTransition::Type('o')).transition(st);
    if let Mode::Search(ss) = &st.mode {
        assert_eq!(&*ss.term, "fo");
    } else {
        panic!("Expected Search mode after typing");
    }
}

#[test]
fn next_and_prev_search_result_adjust_idx_and_hook() {
    let base_ss = SearchState { term: "x".to_string(), idx: 0, hooked: false };
    let mut st = State::default();
    st.old_search_state = Some(base_ss.clone());
    let st2 = Transition::NextSearchResult.transition(st);
    let ss2 = st2.old_search_state.as_ref().expect("should have old_search_state");
    assert_eq!(ss2.idx, 1);
    assert!(ss2.hooked);
    let st3 = Transition::PrevSearchResult.transition(st2);
    let ss3 = st3.old_search_state.expect("should have old_search_state");
    assert_eq!(ss3.idx, 0);
    assert!(ss3.hooked);
}

#[test]
fn complete_search_returns_to_normal_and_keeps_old_search_state() {
    let st = Transition::StartSearch.transition(State::default());
    let st = Transition::SearchType(SearchTypeTransition::Type('z')).transition(st);
    let st2 = Transition::CompleteSearch.transition(st);
    assert!(matches!(st2.mode, Mode::Normal));
    let ss = st2.old_search_state.expect("should have old_search_state");
    assert_eq!(&*ss.term, "z");
    assert!(ss.hooked, "search should remain hooked after completion");
}

#[test]
fn scroll_up_down_unhook_search() {
    let mut st = State::default();
    st.old_search_state = Some(SearchState { term: "y".to_string(), idx: 0, hooked: true });
    let st2 = Transition::ScrollUp.transition(st);
    let ss2 = st2.old_search_state.as_ref().expect("old_search_state still there");
    assert!(!ss2.hooked, "scroll up should unhook search");
    let st3 = Transition::ScrollDown.transition(st2);
    let ss3 = st3.old_search_state.expect("old_search_state still there");
    assert!(!ss3.hooked, "scroll down should unhook search");
}

#[test]
fn sortmode_cpu_cmp_ordering() {
    let a = ProcessData {
        pid: 1,
        name: Default::default(),
        user: Default::default(),
        cpu_usage: number(1.0),
        memory_usage: 0,
        memory_percent: number(0.0),
    };
    let b = ProcessData {
        pid: 2,
        name: Default::default(),
        user: Default::default(),
        cpu_usage: number(2.0),
        memory_usage: 0,
        memory_percent: number(0.0),
    };
    assert_eq!(SortMode::Cpu.call((&a, &b)), std::cmp::Ordering::Greater);
    assert_eq!(SortMode::Cpu.call((&b, &a)), std::cmp::Ordering::Less);
}

#[test]
fn a_name_is_found_by_a_part_of_it() {
    let finder = process(300, "Finder", 0.0);
    assert!(matches_term(&finder, &chars_of("find")));
    assert!(matches_term(&finder, &chars_of("nde")));
    assert!(!matches_term(&finder, &chars_of("Find")));
    assert!(!matches_term(&finder, &chars_of("finders")));
}

#[test]
fn a_number_is_found_only_whole() {
    let finder = process(300, "Finder", 0.0);
    assert!(matches_term(&finder, &chars_of("300")));
    assert!(!matches_term(&finder, &chars_of("30")));
    assert!(!matches_term(&finder, &chars_of("0300")));
}

#[test]
fn no_term_finds_nothing() {
    assert!(!matches_term(&process(300, "Finder", 0.0), &chars_of("")));
    assert!(!matches_term(&process(0, "", 0.0), &chars_of("")));
}

#[test]
fn lines_without_data_are_never_found() {
    let info = system(vec![measured(1, None, "one", 0.0)]);
    let rows = vec![
        (2usize, TreePrefix::FirstChild, 1u32),
        (2usize, TreePrefix::FirstChild, 7u32),
    ];
    assert_eq!(find_rows(&rows, &info.process_data, "one"), vec![true, false]);
    assert_eq!(find_rows(&rows, &info.process_data, "7"), vec![false, false]);
}

#[test]
fn the_count_of_finds_goes_round() {
    let found = vec![false, true, true, false, true];
    assert_eq!(list_places(&found), vec![1, 2, 4]);
    assert_eq!(select(&found, 0), Some(1));
    assert_eq!(select(&found, 2), Some(4));
    assert_eq!(select(&found, 3), Some(1));
    assert_eq!(select(&found, -1), Some(4));
    assert_eq!(select(&found, -4), Some(4));
    assert_eq!(select(&found, isize::MIN), Some(found_at_min()));
    assert_eq!(select(&vec![false], 5), None);
}

fn found_at_min() -> usize {
    [1, 2, 4][isize::MIN.rem_euclid(3) as usize]
}

#[test]
fn going_round_is_the_euclidean_remainder() {
    for idx in -9..9 {
        for len in 1..5 {
            assert_eq!(around(idx, len), idx.rem_euclid(len as isize) as usize);
        }
    }
}

#[test]
fn a_search_marks_and_selects_its_finds() {
    let st = Transition::StartSearch.transition(filled());
    let st = Transition::SearchType(SearchTypeTransition::Type('s')).transition(st);
    let st = Transition::SearchType(SearchTypeTransition::Type('h')).transition(st);
    let rows = st.process_rows.as_ref().expect("rows");
    let pids: Vec<u32> = rows.iter().map(|row| row.2).collect();
    assert_eq!(pids, vec![4, 1, 20, 300]);
    let marks: Vec<bool> = st.search_matches.iter().collect();
    assert_eq!(marks, vec![true, false, true, false]);
    assert_eq!(st.process_table_state.selected(), Some(0));
    let st = Transition::CompleteSearch.transition(st);
    let st = Transition::NextSearchResult.transition(st);
    assert_eq!(st.process_table_state.selected(), Some(2));
    let st = Transition::NextSearchResult.transition(st);
    assert_eq!(st.process_table_state.selected(), Some(0));
    let st = Transition::PrevSearchResult.transition(st);
    assert_eq!(st.process_table_state.selected(), Some(2));
}

#[test]
fn a_search_without_finds_selects_nothing() {
    let st = Transition::StartSearch.transition(filled());
    let st = Transition::SearchType(SearchTypeTransition::Type('!')).transition(st);
    assert_eq!(st.process_table_state.selected(), None);
    assert!(st.search_matches.iter().all(|mark| !mark));
}

#[test]
fn deleting_undoes_typing() {
    let st = Transition::StartSearch.transition(filled());
    let st = Transition::SearchType(SearchTypeTransition::Type('b')).transition(st);
    let st = Transition::SearchType(SearchTypeTransition::Type('x')).transition(st);
    assert_eq!(st.process_table_state.selected(), None);
    let st = Transition::SearchType(SearchTypeTransition::Delete).transition(st);
    if let Mode::Search(ss) = &st.mode {
        assert_eq!(ss.term, "b");
    } else {
        panic!("Expected Search mode");
    }
    assert_eq!(st.process_table_state.selected(), Some(0));
    let st = Transition::SearchType(SearchTypeTransition::Delete).transition(st);
    let st = Transition::SearchType(SearchTypeTransition::Delete).transition(st);
    if let Mode::Search(ss) = &st.mode {
        assert_eq!(ss.term, "");
    } else {
        panic!("Expected Search mode");
    }
}

#[test]
fn inside_a_search_over_lines_the_last_search_stays() {
    let mut st = Transition::StartSearch.transition(filled());
    st.old_search_state = Some(SearchState { term: "s".to_string(), idx: 0, hooked: false });
    let st = Transition::NextSearchResult.transition(st);
    let old = st.old_search_state.as_ref().expect("old search");
    assert_eq!(old.idx, 0);
    assert!(old.hooked);
    if let Mode::Search(ss) = &st.mode {
        assert_eq!(ss.idx, 1);
        assert_eq!(ss.term, "s");
        assert!(!ss.hooked);
    } else {
        panic!("Expected Search mode");
    }
}

#[test]
fn next_without_a_search_changes_nothing() {
    let st = Transition::NextSearchResult.transition(filled());
    assert!(st.old_search_state.is_none());
    assert_eq!(st.process_table_state.selected(), None);
    let st = Transition::PrevSearchResult.transition(st);
    assert!(st.old_search_state.is_none());
}

#[test]
fn a_followed_search_is_made_again_on_fresh_measurements() {
    let st = Transition::StartSearch.transition(filled());
    let st = Transition::SearchType(SearchTypeTransition::Type('b')).transition(st);
    assert_eq!(st.process_table_state.selected(), Some(0));
    let info = system(vec![
        measured(1, None, "Init", 3.0),
        measured(4, Some(1), "bash", 1.0),
    ]);
    let st = Transition::UpdateSysInfo(info).transition(st);
    assert_eq!(st.process_table_state.selected(), Some(1));
    let marks: Vec<bool> = st.search_matches.iter().collect();
    assert_eq!(marks, vec![false, true]);
}

#[test]
fn an_unfollowed_selection_stays_on_fresh_measurements() {
    let mut st = filled();
    st.old_search_state = Some(SearchState { term: "bash".to_string(), idx: 0, hooked: false });
    st.process_table_state = st.process_table_state.with_selected(Some(3));
    let info = system(vec![measured(4, None, "bash", 1.0)]);
    let st = Transition::UpdateSysInfo(info).transition(st);
    assert_eq!(st.process_table_state.selected(), Some(3));
    let st = st.refresh_search();
    assert_eq!(st.process_table_state.selected(), Some(0));
}

#[test]
fn hooking_and_unhooking() {
    let mut st = State::default();
    assert!(!st.search_hooked());
    st.old_search_state = Some(SearchState { term: "y".to_string(), idx: 0, hooked: false });
    let st = st.hook_search().hook_search();
    assert!(st.search_hooked());
    let st = st.unhook_search();
    assert!(!st.search_hooked());
    let st = st.refresh_search_if_hooked();
    assert!(st.search_matches.is_empty());
}

#[test]
fn the_words_for_the_modes() {
    assert_eq!(Mode::Normal.text(), "NORM");
    assert_eq!(Mode::Search(SearchState::default()).text(), "SEARCH");
}
