//! What comes in from outside, and the step that it asks for.

use vstd::prelude::*;
use vstd::string::StringExecFns;

use crate::search::{Mode, ModeModel};
use crate::state::{State, StateModel};
use crate::system::SystemInformation;
use crate::text::{capital, to_capital};
use crate::transition::{SearchTypeTransition, Transition};
use crate::tree::{Pid, ProcessRow};

verus! {

/// A key, as far as it means anything here.
#[derive(Debug, Clone, Copy, PartialEq, Eq, Structural)]
pub enum KeyCode {
    Char(char),
    Delete,
    Backspace,
    Esc,
    Enter,
    Other,
}

/// No key is held down with another.
pub const NO_MODIFIERS: u8 = 0;

/// The shift key, and no other, is held down.
pub const SHIFT: u8 = 1;

/// A key that was pressed, and a bit for each key that was held down with it.
#[derive(Debug, Clone, Copy, PartialEq, Eq, Structural)]
pub struct KeyEvent {
    pub code: KeyCode,
    pub modifiers: u8,
}

/// What the terminal reports.
#[derive(Debug, Clone, Copy, PartialEq, Eq, Structural)]
pub enum InputEvent {
    Key(KeyEvent),
    Other,
}

/// What comes in from outside.
#[derive(Debug)]
pub enum AppEvent {
    ReloadConfig,
    UpdateProcess(SystemInformation),
    Input(InputEvent),
    /// It is time to draw the animations; so many milliseconds have passed.
    ProcessEffects(u32),
}

impl StateModel {
    /// The selected line, where there is one, is a line of the table.
    pub open spec fn in_view(self) -> bool {
        self.process_rows matches Some(rows) ==> self.process_table_state.selected matches Some(i)
            ==> i < rows.len()
    }

    /// The process of the selected line.
    pub open spec fn selected_pid(self) -> Option<Pid> {
        match (self.process_rows, self.process_table_state.selected) {
            (Some(rows), Some(i)) => Some(rows[i as int].2),
            _ => None,
        }
    }
}

impl KeyEvent {
    /// What the key asks for outside a search.
    pub open spec fn moves(self, selected: Option<Pid>) -> Transition {
        match self.code {
            KeyCode::Char('q') => Transition::Exit,
            KeyCode::Char('j') => Transition::ScrollDown,
            KeyCode::Char('k') => Transition::ScrollUp,
            KeyCode::Char('/') => Transition::StartSearch,
            KeyCode::Char('n') => Transition::NextSearchResult,
            KeyCode::Char('p') => Transition::PrevSearchResult,
            KeyCode::Char('d') => match selected {
                Some(pid) => Transition::KillProcess(pid),
                None => Transition::Stay,
            },
            _ => Transition::Stay,
        }
    }

    /// What the key asks for inside a search.
    pub open spec fn edits(self) -> Transition {
        match self.code {
            KeyCode::Char(ch) => if self.modifiers == NO_MODIFIERS {
                Transition::SearchType(SearchTypeTransition::Type(ch))
            } else if self.modifiers == SHIFT {
                Transition::SearchType(SearchTypeTransition::Type(capital(ch)))
            } else {
                Transition::Stay
            },
            KeyCode::Delete | KeyCode::Backspace => Transition::SearchType(
                SearchTypeTransition::Delete,
            ),
            KeyCode::Esc | KeyCode::Enter => Transition::CompleteSearch,
            KeyCode::Other => Transition::Stay,
        }
    }

    /// What the key asks for outside a search.
    pub fn normal_transition(self, selected_pid: Option<Pid>) -> (res: Transition)
        ensures
            res == self.moves(selected_pid),
    {
        match self.code {
            KeyCode::Char('q') => Transition::Exit,
            KeyCode::Char('j') => Transition::ScrollDown,
            KeyCode::Char('k') => Transition::ScrollUp,
            KeyCode::Char('/') => Transition::StartSearch,
            KeyCode::Char('n') => Transition::NextSearchResult,
            KeyCode::Char('p') => Transition::PrevSearchResult,
            KeyCode::Char('d') => match selected_pid {
                Some(pid) => Transition::KillProcess(pid),
                None => Transition::Stay,
            },
            _ => Transition::Stay,
        }
    }

    /// What the key asks for inside a search.
    pub fn search_transition(self) -> (res: Transition)
        ensures
            res == self.edits(),
    {
        match self.code {
            KeyCode::Char(ch) => if self.modifiers == NO_MODIFIERS {
                Transition::SearchType(SearchTypeTransition::Type(ch))
            } else if self.modifiers == SHIFT {
                Transition::SearchType(SearchTypeTransition::Type(to_capital(ch)))
            } else {
                Transition::Stay
            },
            KeyCode::Delete | KeyCode::Backspace => Transition::SearchType(
                SearchTypeTransition::Delete,
            ),
            KeyCode::Esc | KeyCode::Enter => Transition::CompleteSearch,
            KeyCode::Other => Transition::Stay,
        }
    }
}

impl AppEvent {
    /// The step that the event asks for.
    pub open spec fn asks(self, m: StateModel) -> Transition {
        match self {
            AppEvent::ProcessEffects(dt) => Transition::UpdateDt(dt),
            AppEvent::ReloadConfig => Transition::Stay,
            AppEvent::UpdateProcess(info) => Transition::UpdateSysInfo(info),
            AppEvent::Input(InputEvent::Key(key)) => match m.mode {
                ModeModel::Normal => key.moves(m.selected_pid()),
                ModeModel::Search(_) => key.edits(),
            },
            AppEvent::Input(InputEvent::Other) => Transition::Stay,
        }
    }

    /// The step that the event asks for.
    pub fn into_transition(self, state: &State) -> (res: Transition)
        requires
            state@.in_view(),
        ensures
            res == self.asks(state@),
    {
        let selected_pid: Option<Pid> = match (
            &state.process_rows,
            state.process_table_state.selected(),
        ) {
            (Some(process_rows), Some(idx)) => Some(process_rows[idx].2),
            _ => None,
        };
        match self {
            AppEvent::ProcessEffects(dt) => Transition::UpdateDt(dt),
            AppEvent::ReloadConfig => Transition::Stay,
            AppEvent::UpdateProcess(info) => Transition::UpdateSysInfo(info),
            AppEvent::Input(InputEvent::Key(key)) => match &state.mode {
                Mode::Normal => key.normal_transition(selected_pid),
                Mode::Search(_) => key.search_transition(),
            },
            AppEvent::Input(InputEvent::Other) => Transition::Stay,
        }
    }

    /// Whether the animations are to be drawn.
    pub fn processes_effects(&self) -> (res: bool)
        ensures
            res == (*self is ProcessEffects),
    {
        matches!(self, AppEvent::ProcessEffects(_))
    }

    /// The name of the event; `detail` stands for what it carries.
    pub fn text(&self, detail: &str) -> (res: String)
        ensures
            res@ == match self {
                AppEvent::ReloadConfig => "ReloadConfig"@,
                AppEvent::UpdateProcess(_) => "UpdateProcess"@,
                AppEvent::Input(_) => "Input("@ + detail@ + ")"@,
                AppEvent::ProcessEffects(_) => "ProcessEffects("@ + detail@ + ")"@,
            },
    {
        match self {
            AppEvent::ReloadConfig => "ReloadConfig".to_owned(),
            AppEvent::UpdateProcess(_) => "UpdateProcess".to_owned(),
            AppEvent::Input(_) => {
                let mut res = "Input(".to_owned();
                res.append(detail);
                res.append(")");
                res
            },
            AppEvent::ProcessEffects(_) => {
                let mut res = "ProcessEffects(".to_owned();
                res.append(detail);
                res.append(")");
                res
            },
        }
    }
}

impl Transition {
    /// The process that the step kills.
    pub fn killed(&self) -> (res: Option<Pid>)
        ensures
            res == match self {
                Transition::KillProcess(pid) => Some(*pid),
                _ => None,
            },
    {
        match self {
            Transition::KillProcess(pid) => Some(*pid),
            _ => None,
        }
    }
}

/// No event asks for a step that does not fit the mode: a term is only edited and
/// a search only completed inside a search, and one is only started outside.
pub proof fn events_ask_for_fitting_steps(event: AppEvent, m: StateModel)
    requires
        m.wf(),
        event matches AppEvent::UpdateProcess(info) ==> info@.wf(),
        m.old_search_state matches Some(search) ==> isize::MIN < search.idx < isize::MAX,
        m.mode matches ModeModel::Search(search) ==> search.term.len() > 0 ==> (
        search.term.last() as u32) < 128,
    ensures
        m.allows(event.asks(m)),
{
}

/// A key kills only the process of the selected line, and only outside a search.
pub proof fn only_the_selected_process_is_killed(event: AppEvent, m: StateModel)
    ensures
        event.asks(m) matches Transition::KillProcess(pid) ==> m.mode is Normal && m.selected_pid()
            == Some(pid),
{
}

/// Inside a search a small letter typed with shift is a capital.
pub proof fn a_small_letter_and_shift_make_a_capital(ch: char, m: StateModel)
    requires
        m.mode is Search,
        'a' <= ch && ch <= 'z',
    ensures
        AppEvent::Input(
            InputEvent::Key(KeyEvent { code: KeyCode::Char(ch), modifiers: SHIFT }),
        ).asks(m) == Transition::SearchType(
            SearchTypeTransition::Type(((ch as u32) - 32) as char),
        ),
{
}

/// Outside a search, the key d asks to kill the process of the line that is selected,
/// whichever line that is, and for nothing where no line is.
pub proof fn the_kill_key_kills_the_selected_line(
    state: State,
    modifiers: u8,
    rows: Vec<ProcessRow>,
    i: usize,
    res: Transition,
)
    requires
        call_ensures(
            AppEvent::into_transition,
            (
                AppEvent::Input(InputEvent::Key(KeyEvent { code: KeyCode::Char('d'), modifiers })),
                &state,
            ),
            res,
        ),
        state.mode is Normal,
    ensures
        state.process_rows == Some(rows) && state.process_table_state.selected == Some(i) && i
            < rows@.len() ==> res == Transition::KillProcess(rows@[i as int].2),
        state.process_rows is None || state.process_table_state.selected is None ==> res is Stay,
{
}

/// Outside a search each of seven keys has its step, whatever is held down with it, and
/// no other key has one.
pub proof fn the_keys_outside_a_search(state: State, key: KeyEvent, res: Transition)
    requires
        call_ensures(
            AppEvent::into_transition,
            (AppEvent::Input(InputEvent::Key(key)), &state),
            res,
        ),
        state.mode is Normal,
    ensures
        (res is Exit) == (key.code == KeyCode::Char('q')),
        (res is ScrollDown) == (key.code == KeyCode::Char('j')),
        (res is ScrollUp) == (key.code == KeyCode::Char('k')),
        (res is StartSearch) == (key.code == KeyCode::Char('/')),
        (res is NextSearchResult) == (key.code == KeyCode::Char('n')),
        (res is PrevSearchResult) == (key.code == KeyCode::Char('p')),
        res is KillProcess ==> key.code == KeyCode::Char('d'),
        res is Exit || res is ScrollDown || res is ScrollUp || res is StartSearch
            || res is NextSearchResult || res is PrevSearchResult || res is KillProcess
            || res is Stay,
{
}

/// Inside a search a character that is typed alone goes into the term as it is, one
/// typed with shift as a capital, and one typed with another key not at all. Two keys
/// delete, two complete, and the others do nothing. No key ends the program there.
pub proof fn the_keys_inside_a_search(state: State, key: KeyEvent, res: Transition)
    requires
        call_ensures(
            AppEvent::into_transition,
            (AppEvent::Input(InputEvent::Key(key)), &state),
            res,
        ),
        state.mode is Search,
    ensures
        key.code matches KeyCode::Char(ch) ==> key.modifiers == 0 ==> res == Transition::SearchType(
            SearchTypeTransition::Type(ch),
        ),
        key.code matches KeyCode::Char(ch) ==> key.modifiers == 1 ==> (
        res matches Transition::SearchType(SearchTypeTransition::Type(typed)) && {
            &&& 'a' <= ch && ch <= 'z' ==> typed as int == ch as int - 32
            &&& !('a' <= ch && ch <= 'z') ==> typed == ch
        }),
        key.code is Char && key.modifiers > 1 ==> res is Stay,
        key.code is Delete || key.code is Backspace ==> res == Transition::SearchType(
            SearchTypeTransition::Delete,
        ),
        (res is CompleteSearch) == (key.code is Esc || key.code is Enter),
        key.code is Other ==> res is Stay,
{
}

/// What comes in but no key is: measurements are taken over as they are, the time of the
/// animations is passed on, and anything else changes nothing. The mode does not matter.
pub proof fn events_that_are_no_keys(state: State, event: AppEvent, res: Transition)
    requires
        call_ensures(AppEvent::into_transition, (event, &state), res),
    ensures
        event matches AppEvent::UpdateProcess(info) ==> res == Transition::UpdateSysInfo(info),
        event matches AppEvent::ProcessEffects(dt) ==> res == Transition::UpdateDt(dt),
        event is ReloadConfig ==> res is Stay,
        event == AppEvent::Input(InputEvent::Other) ==> res is Stay,
{
}

} // verus!
