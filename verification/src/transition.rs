//! The steps that the state takes.

use vstd::prelude::*;

use crate::search::{Mode, ModeModel, SearchModel, SearchState};
use crate::state::{State, StateModel};
use crate::system::SystemInformation;
use crate::table::TableState;
use crate::text::{chars_of, without_last};
use crate::tree::Pid;

verus! {

/// A step of the state.
#[derive(Debug)]
pub enum Transition {
    Stay,
    UpdateDt(u32),
    UpdateSysInfo(SystemInformation),
    Exit,
    ScrollUp,
    ScrollDown,
    SearchType(SearchTypeTransition),
    StartSearch,
    CompleteSearch,
    NextSearchResult,
    PrevSearchResult,
    KillProcess(Pid),
}

/// A change of the term that is looked for.
#[derive(Debug, Clone, Copy, PartialEq, Eq, Structural)]
pub enum SearchTypeTransition {
    Type(char),
    Delete,
}

impl SearchTypeTransition {
    /// The term after the change: one character more, or the last one less.
    pub open spec fn applied(self, term: Seq<char>) -> Seq<char> {
        match self {
            SearchTypeTransition::Type(ch) => term.push(ch),
            SearchTypeTransition::Delete => if term.len() == 0 {
                term
            } else {
                term.drop_last()
            },
        }
    }

    /// Whether the change can be made: the last character goes as one byte.
    pub open spec fn fits(self, term: Seq<char>) -> bool {
        self is Delete && term.len() > 0 ==> (term.last() as u32) < 128
    }
}

impl Transition {
    /// The name of the step.
    pub open spec fn name(self) -> Seq<char> {
        match self {
            Transition::Stay => "None"@,
            Transition::UpdateDt(_) => "UpdateDt"@,
            Transition::UpdateSysInfo(_) => "UpdateProcess"@,
            Transition::Exit => "Exit"@,
            Transition::ScrollUp => "ScrollUp"@,
            Transition::ScrollDown => "ScrollDown"@,
            Transition::SearchType(_) => "SearchType"@,
            Transition::StartSearch => "StartSearch"@,
            Transition::CompleteSearch => "CompleteSearch"@,
            Transition::NextSearchResult => "NextSearchResult"@,
            Transition::PrevSearchResult => "PrevSearchResult"@,
            Transition::KillProcess(_) => "KillProcess"@,
        }
    }

    /// The name of the step.
    pub fn text(&self) -> (res: &'static str)
        ensures
            res@ == self.name(),
    {
        match self {
            Transition::Stay => "None",
            Transition::UpdateDt(_) => "UpdateDt",
            Transition::UpdateSysInfo(_) => "UpdateProcess",
            Transition::Exit => "Exit",
            Transition::ScrollUp => "ScrollUp",
            Transition::ScrollDown => "ScrollDown",
            Transition::SearchType(_) => "SearchType",
            Transition::StartSearch => "StartSearch",
            Transition::CompleteSearch => "CompleteSearch",
            Transition::NextSearchResult => "NextSearchResult",
            Transition::PrevSearchResult => "PrevSearchResult",
            Transition::KillProcess(_) => "KillProcess",
        }
    }
}

impl StateModel {
    /// The next or previous find is wanted, where there was a search.
    pub open spec fn step_search(self, by: int) -> StateModel {
        match self.old_search_state {
            Some(search) => self.update_search(
                SearchModel { idx: search.idx + by, ..search },
            ).set_hooked(true),
            None => self,
        }
    }

    /// Whether the step can be taken: a term is only edited, and a search only
    /// completed, while there is one, and none is started inside another; the
    /// count of finds has room; what is measured belongs together; and what wipes
    /// the line of a killed process can be rewound.
    pub open spec fn allows(self, t: Transition) -> bool {
        match (self.mode, t) {
            (_, Transition::UpdateSysInfo(info)) => info@.wf(),
            (_, Transition::KillProcess(_)) => self.effects.kill_effect.state.known(),
            (ModeModel::Normal, Transition::SearchType(_)) => false,
            (ModeModel::Normal, Transition::CompleteSearch) => false,
            (ModeModel::Search(_), Transition::StartSearch) => false,
            (ModeModel::Search(search), Transition::SearchType(change)) => change.fits(search.term),
            (_, Transition::NextSearchResult) => self.old_search_state matches Some(search)
                ==> search.idx < isize::MAX,
            (_, Transition::PrevSearchResult) => self.old_search_state matches Some(search)
                ==> search.idx > isize::MIN,
            _ => true,
        }
    }

    /// The state after a step.
    pub open spec fn after(self, t: Transition) -> StateModel {
        match (self.mode, t) {
            (_, Transition::Stay) => self,
            (_, Transition::Exit) => StateModel { exit: true, ..self },
            (_, Transition::UpdateDt(dt)) => StateModel { dt, ..self },
            (_, Transition::UpdateSysInfo(info)) => StateModel {
                sysinfo: info@,
                ..self
            }.prepare().refresh_search_if_hooked(),
            (_, Transition::ScrollUp) => StateModel {
                process_table_state: self.process_table_state.previous(),
                ..self
            }.set_hooked(false),
            (_, Transition::ScrollDown) => StateModel {
                process_table_state: self.process_table_state.next(),
                ..self
            }.set_hooked(false),
            (_, Transition::KillProcess(pid)) => {
                let refreshed = self.refresh_search();
                StateModel {
                    last_killed_pid: Some(pid),
                    effects: crate::effect::EffectsModel {
                        kill_effect: refreshed.effects.kill_effect.start(),
                        ..refreshed.effects
                    },
                    ..refreshed
                }.set_hooked(false)
            },
            (_, Transition::NextSearchResult) => self.step_search(1),
            (_, Transition::PrevSearchResult) => self.step_search(-1),
            (ModeModel::Search(search), Transition::SearchType(change)) => self.update_search(
                SearchModel { term: change.applied(search.term), hooked: true, ..search },
            ).set_hooked(true),
            (ModeModel::Normal, Transition::StartSearch) => StateModel {
                mode: ModeModel::Search(SearchModel::fresh()),
                old_search_state: None,
                ..self
            },
            (ModeModel::Search(search), Transition::CompleteSearch) => StateModel {
                mode: ModeModel::Normal,
                old_search_state: Some(search),
                ..self
            }.set_hooked(true),
            _ => self,
        }
    }
}

/// The search with its count moved by `by`.
fn moved(search: &SearchState, by: isize) -> (res: SearchState)
    requires
        isize::MIN <= search.idx + by <= isize::MAX,
    ensures
        res@ == (SearchModel { idx: search@.idx + by, ..search@ }),
{
    SearchState { term: search.term.clone(), idx: search.idx + by, hooked: search.hooked }
}

/// The search with its term changed, and followed.
fn edited(search: &SearchState, change: SearchTypeTransition) -> (res: SearchState)
    requires
        change.fits(search@.term),
    ensures
        res@ == (SearchModel { term: change.applied(search@.term), hooked: true, ..search@ }),
{
    let term = match change {
        SearchTypeTransition::Type(ch) => {
            let mut term = search.term.clone();
            term.push(ch);
            term
        },
        SearchTypeTransition::Delete => without_last(search.term.as_str()),
    };
    SearchState { term, idx: search.idx, hooked: true }
}

impl State {
    /// Whether the step can be taken.
    pub fn accepts(&self, transition: &Transition) -> (res: bool)
        requires
            self@.effects.wf(),
            *transition matches Transition::UpdateSysInfo(info) ==> info@.wf(),
        ensures
            res == self@.allows(*transition),
    {
        match (&self.mode, transition) {
            (Mode::Normal, Transition::SearchType(_)) => false,
            (Mode::Normal, Transition::CompleteSearch) => false,
            (Mode::Search(_), Transition::StartSearch) => false,
            (Mode::Search(search), Transition::SearchType(SearchTypeTransition::Delete)) => {
                let term = chars_of(search.term.as_str());
                term.len() == 0 || (term[term.len() - 1] as u32) < 128
            },
            (_, Transition::NextSearchResult) => match &self.old_search_state {
                Some(search) => search.idx < isize::MAX,
                None => true,
            },
            (_, Transition::PrevSearchResult) => match &self.old_search_state {
                Some(search) => search.idx > isize::MIN,
                None => true,
            },
            _ => true,
        }
    }
}

impl Transition {
    /// Takes the step.
    #[verifier::rlimit(50)]
    pub fn transition(self, state: State) -> (res: State)
        requires
            state@.allows(self),
        ensures
            res@ == state@.after(self),
            state@.wf() ==> res@.wf(),
    {
        match self {
            Transition::Stay => state,
            Transition::Exit => State { exit: true, ..state },
            Transition::UpdateDt(dt) => State { dt, ..state },
            Transition::UpdateSysInfo(sysinfo) => {
                let new_state = State { sysinfo, ..state };
                new_state.prepare().refresh_search_if_hooked()
            },
            Transition::ScrollUp => {
                let mut table_state: TableState = state.process_table_state;
                table_state.select_previous();
                State { process_table_state: table_state, ..state }.unhook_search()
            },
            Transition::ScrollDown => {
                let mut table_state: TableState = state.process_table_state;
                table_state.select_next();
                State { process_table_state: table_state, ..state }.unhook_search()
            },
            Transition::KillProcess(pid) => {
                let mut state = state.refresh_search();
                state.last_killed_pid = Some(pid);
                state.effects.kill_effect.0.start();
                state.unhook_search()
            },
            Transition::SearchType(change) => {
                let search = match &state.mode {
                    Mode::Search(search) => edited(search, change),
                    Mode::Normal => {
                        return state;
                    },
                };
                state.update_search(search).hook_search()
            },
            Transition::NextSearchResult => {
                let search = match &state.old_search_state {
                    Some(search) => moved(search, 1),
                    None => {
                        return state;
                    },
                };
                state.update_search(search).hook_search()
            },
            Transition::PrevSearchResult => {
                let search = match &state.old_search_state {
                    Some(search) => moved(search, -1),
                    None => {
                        return state;
                    },
                };
                state.update_search(search).hook_search()
            },
            Transition::StartSearch => State {
                mode: Mode::Search(SearchState::default()),
                old_search_state: None,
                ..state
            },
            Transition::CompleteSearch => {
                let search = match &state.mode {
                    Mode::Search(search) => search.clone(),
                    Mode::Normal => {
                        return state;
                    },
                };
                State { mode: Mode::Normal, old_search_state: Some(search), ..state }.hook_search()
            },
        }
    }
}

} // verus!
