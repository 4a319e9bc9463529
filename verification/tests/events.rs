use jo::app::{
    frame_pause, is_theme_file, App, Config, FileChange, Theme, FRAME_MILLIS, FRAME_NANOS,
};
use jo::event::{AppEvent, InputEvent, KeyCode, KeyEvent, NO_MODIFIERS, SHIFT};
use jo::number::Single;
use jo::process::ProcessSample;
use jo::search::{Mode, SearchState};
use jo::state::State;
use jo::style::Color;
use jo::system::{Measured, SystemInformation};
use jo::transition::{SearchTypeTransition, Transition};

fn key(code: KeyCode, modifiers: u8) -> AppEvent {
    AppEvent::Input(InputEvent::Key(KeyEvent { code, modifiers }))
}

fn pressed(ch: char) -> AppEvent {
    key(KeyCode::Char(ch), NO_MODIFIERS)
}

fn one_process() -> State {
    let zero = Single::default();
    let measured = Measured {
        parent: None,
        process: ProcessSample {
            pid: 42,
            exe: None,
            name: "answer".to_string(),
            user: "alice".to_string(),
            cpu_usage: zero,
            memory_usage: 1,
            memory_percent: zero,
        },
    };
    let info = match SystemInformation::gather(vec![measured], zero, vec![]) {
        Ok(info) => info,
        Err(err) => panic!("{:?}", err),
    };
    Transition::UpdateSysInfo(info).transition(State::default())
}

#[test]
fn keys_outside_a_search() {
    let st = State::default();
    assert!(matches!(pressed('q').into_transition(&st), Transition::Exit));
    assert!(matches!(pressed('j').into_transition(&st), Transition::ScrollDown));
    assert!(matches!(pressed('k').into_transition(&st), Transition::ScrollUp));
    assert!(matches!(pressed('/').into_transition(&st), Transition::StartSearch));
    assert!(matches!(pressed('n').into_transition(&st), Transition::NextSearchResult));
    assert!(matches!(pressed('p').into_transition(&st), Transition::PrevSearchResult));
    assert!(matches!(pressed('d').into_transition(&st), Transition::Stay));
    assert!(matches!(pressed('x').into_transition(&st), Transition::Stay));
    assert!(matches!(key(KeyCode::Char('q'), 7).into_transition(&st), Transition::Exit));
    assert!(matches!(key(KeyCode::Enter, 0).into_transition(&st), Transition::Stay));
    assert!(matches!(AppEvent::Input(InputEvent::Other).into_transition(&st), Transition::Stay));
}

#[test]
fn the_selected_process_is_killed() {
    let mut st = one_process();
    assert!(matches!(pressed('d').into_transition(&st), Transition::Stay));
    st.process_table_state = st.process_table_state.with_selected(Some(0));
    let transition = pressed('d').into_transition(&st);
    assert_eq!(transition.killed(), Some(42));
    assert_eq!(Transition::Exit.killed(), None);
    let st = st.advance(transition);
    assert_eq!(st.last_killed_pid, Some(42));
}

#[test]
fn keys_inside_a_search() {
    let mut st = State::default();
    st.mode = Mode::Search(SearchState::default());
    let typed = |event: AppEvent| match event.into_transition(&st) {
        Transition::SearchType(change) => Some(change),
        _ => None,
    };
    assert_eq!(typed(pressed('q')), Some(SearchTypeTransition::Type('q')));
    assert_eq!(typed(key(KeyCode::Char('q'), SHIFT)), Some(SearchTypeTransition::Type('Q')));
    assert_eq!(typed(key(KeyCode::Char('Q'), SHIFT)), Some(SearchTypeTransition::Type('Q')));
    assert_eq!(typed(key(KeyCode::Char('é'), SHIFT)), Some(SearchTypeTransition::Type('é')));
    assert_eq!(typed(key(KeyCode::Char('q'), 2)), None);
    assert_eq!(typed(key(KeyCode::Delete, 0)), Some(SearchTypeTransition::Delete));
    assert_eq!(typed(key(KeyCode::Backspace, 5)), Some(SearchTypeTransition::Delete));
    assert!(matches!(key(KeyCode::Esc, 0).into_transition(&st), Transition::CompleteSearch));
    assert!(matches!(key(KeyCode::Enter, 0).into_transition(&st), Transition::CompleteSearch));
    assert!(matches!(key(KeyCode::Other, 0).into_transition(&st), Transition::Stay));
    assert!(matches!(AppEvent::Input(InputEvent::Other).into_transition(&st), Transition::Stay));
}

#[test]
fn the_other_events() {
    let st = State::default();
    assert!(matches!(AppEvent::ReloadConfig.into_transition(&st), Transition::Stay));
    assert!(matches!(AppEvent::ProcessEffects(16).into_transition(&st), Transition::UpdateDt(16)));
    assert!(matches!(
        AppEvent::UpdateProcess(SystemInformation::default()).into_transition(&st),
        Transition::UpdateSysInfo(_)
    ));
    assert!(AppEvent::ProcessEffects(16).processes_effects());
    assert!(!AppEvent::ReloadConfig.processes_effects());
}

#[test]
fn names_of_events_and_steps() {
    assert_eq!(AppEvent::ReloadConfig.text("x"), "ReloadConfig");
    assert_eq!(AppEvent::UpdateProcess(jo::app::default()).text("x"), "UpdateProcess");
    assert_eq!(AppEvent::ProcessEffects(16).text("16ms"), "ProcessEffects(16ms)");
    assert_eq!(AppEvent::Input(InputEvent::Other).text("Paste"), "Input(Paste)");
    assert_eq!(Transition::Stay.text(), "None");
    assert_eq!(Transition::UpdateSysInfo(jo::app::default()).text(), "UpdateProcess");
    assert_eq!(Transition::UpdateDt(1).text(), "UpdateDt");
    assert_eq!(Transition::Exit.text(), "Exit");
    assert_eq!(Transition::ScrollUp.text(), "ScrollUp");
    assert_eq!(Transition::ScrollDown.text(), "ScrollDown");
    assert_eq!(Transition::SearchType(SearchTypeTransition::Delete).text(), "SearchType");
    assert_eq!(Transition::StartSearch.text(), "StartSearch");
    assert_eq!(Transition::CompleteSearch.text(), "CompleteSearch");
    assert_eq!(Transition::NextSearchResult.text(), "NextSearchResult");
    assert_eq!(Transition::PrevSearchResult.text(), "PrevSearchResult");
    assert_eq!(Transition::KillProcess(1).text(), "KillProcess");
}

#[test]
fn only_exit_exits() {
    let st = State::default().advance(Transition::Exit);
    assert!(st.exit);
    let st = State::default().advance(Transition::UpdateDt(5));
    assert!(!st.exit);
    assert_eq!(st.dt, 5);
    assert_eq!(st.process_rows, Some(vec![]));
    let st = State::default().advance(Transition::Stay);
    assert!(!st.exit);
}

#[test]
fn a_round() {
    let mut st = one_process();
    st.process_table_state = st.process_table_state.with_selected(Some(0));
    assert!(st.can_answer(&pressed('d')));
    let round = st.answer(pressed('d'));
    assert_eq!(round.killed, Some(42));
    assert_eq!(round.step, "KillProcess");
    assert!(round.draws && !round.animates);
    assert_eq!(round.state.last_killed_pid, Some(42));
    let round = round.state.answer(AppEvent::ProcessEffects(16));
    assert!(round.draws && round.animates);
    assert_eq!((round.killed, round.state.dt, round.step), (None, 16, "UpdateDt"));
    let round = round.state.answer(AppEvent::UpdateProcess(SystemInformation::default()));
    assert_eq!(round.state.process_rows, Some(vec![]));
    let mut st = round.state;
    assert!(!st.can_answer(&AppEvent::ReloadConfig));
    st.process_table_state = st.process_table_state.with_selected(None);
    assert!(st.can_answer(&AppEvent::ReloadConfig));
    let round = st.answer(pressed('q'));
    assert!(!round.draws && round.state.exit);
    let mut st = State::default();
    st.old_search_state = Some(SearchState { term: "".to_string(), idx: isize::MAX, hooked: true });
    assert!(!st.can_answer(&pressed('n')));
    assert!(st.can_answer(&pressed('p')));
}

fn theme(name: &str, header_color: Color) -> Theme {
    Theme { name: name.to_string(), header_color, highlight_color: Color::Indexed(9) }
}

#[test]
fn the_theme_that_the_settings_name() {
    let app = App::default();
    assert_eq!(app.poll_rate, 1500);
    assert!(app.chosen_theme().is_none());
    let first = app.first_theme();
    assert_eq!(first.name, "default");
    assert_eq!(first.header_color, Color::Green);
    assert_eq!(first.highlight_color, Color::White);
    let app = app.with_themes(vec![
        theme("dark", Color::Blue),
        theme("light", Color::Red),
        theme("dark", Color::Rgb(1, 2, 3)),
    ]);
    let app = app.with_config(Config { theme: "dark".to_string(), animations: true });
    assert_eq!(app.first_theme().header_color, Color::Rgb(1, 2, 3));
    assert_eq!(app.next_theme(first.clone()).name, "dark");
    let app = app.with_config(Config { theme: "gone".to_string(), animations: false });
    assert_eq!(app.next_theme(theme("old", Color::Cyan)).name, "old");
    assert_eq!(app.first_theme().name, "default");
}

#[test]
fn settings_where_there_are_none() {
    let config = Config::default();
    assert_eq!(config.theme, "");
    assert!(!config.animations);
    assert_eq!(config.clone().theme, "");
}

#[test]
fn files_that_hold_themes() {
    assert!(is_theme_file(false, "dark.ron"));
    assert!(is_theme_file(false, ".ron"));
    assert!(!is_theme_file(true, "dark.ron"));
    assert!(!is_theme_file(false, "dark.RON"));
    assert!(!is_theme_file(false, "ron"));
    assert!(!is_theme_file(false, ""));
    assert!(!is_theme_file(false, "dark.ron.bak"));
}

#[test]
fn changed_files_are_read_again() {
    assert!(matches!(FileChange::Create.event(), Some(AppEvent::ReloadConfig)));
    assert!(matches!(FileChange::Modify.event(), Some(AppEvent::ReloadConfig)));
    assert!(FileChange::Other.event().is_none());
}

#[test]
fn a_frame_is_a_sixtieth_of_a_second() {
    let frame = std::time::Duration::from_secs_f64(1.0 / 60.0);
    assert_eq!(frame.as_nanos(), FRAME_NANOS as u128);
    assert_eq!(frame.as_millis(), FRAME_MILLIS as u128);
    assert_eq!(frame_pause(0), Some(FRAME_NANOS));
    assert_eq!(frame_pause(FRAME_NANOS - 1), Some(1));
    assert_eq!(frame_pause(FRAME_NANOS), None);
    assert_eq!(frame_pause(u64::MAX), None);
}

#[test]
fn values_where_none_is_named() {
    let n: u32 = jo::app::default();
    assert_eq!(n, 0);
    let text: String = jo::app::default();
    assert_eq!(text, "");
    let single: Single = jo::app::default();
    assert_eq!(single.bits, 0);
}
