//! The program around the state: its settings, its themes, and the round that it
//! makes for each event.

use vstd::prelude::*;

use crate::effect::EffectsModel;
use crate::event::{AppEvent, InputEvent, KeyCode, KeyEvent};
use crate::outcomes::{
    busiest_children_first, busiest_first, filed, lemma_busiest_children_first, lemma_busiest_first,
};
use crate::state::{State, StateModel};
use crate::style::Color;
use crate::table::TableState;
use crate::text::{chars_of, ends_with, same_chars};
use crate::transition::Transition;
use crate::tree::{Pid, ProcessRow};

verus! {

/// The milliseconds between two rounds of measurements.
pub const POLL_RATE_MILLIS: u64 = 1500;

/// The nanoseconds of a sixtieth of a second.
pub const FRAME_NANOS: u64 = 16_666_667;

/// The whole milliseconds of a sixtieth of a second.
pub const FRAME_MILLIS: u32 = 16;

/// The settings.
#[derive(Debug)]
pub struct Config {
    pub theme: String,
    pub animations: bool,
}

/// The settings.
pub struct ConfigModel {
    pub theme: Seq<char>,
    pub animations: bool,
}

impl View for Config {
    type V = ConfigModel;

    open spec fn view(&self) -> ConfigModel {
        ConfigModel { theme: self.theme@, animations: self.animations }
    }
}

impl Default for Config {
    /// No theme is named, and nothing moves.
    fn default() -> (res: Config)
        ensures
            res@ == (ConfigModel { theme: Seq::empty(), animations: false }),
    {
        Config { theme: String::new(), animations: false }
    }
}

impl Clone for Config {
    fn clone(&self) -> (res: Config)
        ensures
            res == *self,
    {
        Config { theme: self.theme.clone(), animations: self.animations }
    }
}

/// A set of colours with a name.
#[derive(Debug)]
pub struct Theme {
    pub name: String,
    pub header_color: Color,
    pub highlight_color: Color,
}

/// A set of colours with a name.
pub struct ThemeModel {
    pub name: Seq<char>,
    pub header_color: Color,
    pub highlight_color: Color,
}

impl View for Theme {
    type V = ThemeModel;

    open spec fn view(&self) -> ThemeModel {
        ThemeModel {
            name: self.name@,
            header_color: self.header_color,
            highlight_color: self.highlight_color,
        }
    }
}

impl ThemeModel {
    /// The colours where no theme is chosen.
    pub open spec fn standard() -> ThemeModel {
        ThemeModel {
            name: "default"@,
            header_color: Color::Green,
            highlight_color: Color::White,
        }
    }
}

impl Default for Theme {
    fn default() -> (res: Theme)
        ensures
            res@ == ThemeModel::standard(),
    {
        Theme {
            name: "default".to_owned(),
            header_color: Color::Green,
            highlight_color: Color::White,
        }
    }
}

impl Clone for Theme {
    fn clone(&self) -> (res: Theme)
        ensures
            res == *self,
    {
        Theme {
            name: self.name.clone(),
            header_color: self.header_color,
            highlight_color: self.highlight_color,
        }
    }
}

/// The themes by name. Of two with one name the later counts.
pub open spec fn by_name(themes: Seq<Theme>) -> Map<Seq<char>, ThemeModel>
    decreases themes.len(),
{
    if themes.len() == 0 {
        Map::empty()
    } else {
        by_name(themes.drop_last()).insert(themes.last()@.name, themes.last()@)
    }
}

/// The settings and the themes of the program.
#[derive(Debug)]
pub struct App {
    pub poll_rate: u64,
    pub themes: Vec<Theme>,
    pub config: Config,
}

/// The settings and the themes of the program.
pub struct AppModel {
    pub poll_rate: u64,
    pub themes: Map<Seq<char>, ThemeModel>,
    pub config: ConfigModel,
}

impl View for App {
    type V = AppModel;

    open spec fn view(&self) -> AppModel {
        AppModel {
            poll_rate: self.poll_rate,
            themes: by_name(self.themes@),
            config: self.config@,
        }
    }
}

impl AppModel {
    /// The theme that the settings name.
    pub open spec fn chosen(self) -> Option<ThemeModel> {
        if self.themes.contains_key(self.config.theme) {
            Some(self.themes[self.config.theme])
        } else {
            None
        }
    }

    /// The theme that the settings name, or else another.
    pub open spec fn chosen_or(self, other: ThemeModel) -> ThemeModel {
        match self.chosen() {
            Some(theme) => theme,
            None => other,
        }
    }
}

impl Default for App {
    fn default() -> (res: App)
        ensures
            res@.poll_rate == POLL_RATE_MILLIS,
            res@.themes == Map::<Seq<char>, ThemeModel>::empty(),
            res@.config == (ConfigModel { theme: Seq::empty(), animations: false }),
    {
        App { poll_rate: POLL_RATE_MILLIS, themes: Vec::new(), config: Config::default() }
    }
}

impl App {
    /// With these settings.
    pub fn with_config(self, config: Config) -> (res: App)
        ensures
            res@ == (AppModel { config: config@, ..self@ }),
    {
        App { config, ..self }
    }

    /// With these themes, in place of those that were there.
    pub fn with_themes(self, themes: Vec<Theme>) -> (res: App)
        ensures
            res@ == (AppModel { themes: by_name(themes@), ..self@ }),
    {
        App { themes, ..self }
    }

    /// The theme that the settings name.
    pub fn chosen_theme(&self) -> (res: Option<Theme>)
        ensures
            res is Some == self@.chosen() is Some,
            res matches Some(theme) ==> Some(theme@) == self@.chosen(),
    {
        let wanted = chars_of(self.config.theme.as_str());
        let mut i: usize = self.themes.len();
        assert(self.themes@.take(i as int) =~= self.themes@);
        while i > 0
            invariant
                wanted@ == self.config.theme@,
                i <= self.themes@.len(),
                by_name(self.themes@).contains_key(wanted@) == by_name(
                    self.themes@.take(i as int),
                ).contains_key(wanted@),
                by_name(self.themes@).contains_key(wanted@) ==> by_name(self.themes@)[wanted@]
                    == by_name(self.themes@.take(i as int))[wanted@],
            decreases i,
        {
            i = i - 1;
            proof {
                assert(self.themes@.take(i + 1).drop_last() =~= self.themes@.take(i as int));
            }
            let name = chars_of(self.themes[i].name.as_str());
            if same_chars(&name, &wanted) {
                return Some(self.themes[i].clone());
            }
        }
        None
    }

    /// The theme to begin with: the one that the settings name, or the standard.
    pub fn first_theme(&self) -> (res: Theme)
        ensures
            res@ == self@.chosen_or(ThemeModel::standard()),
    {
        match self.chosen_theme() {
            Some(theme) => theme,
            None => Theme::default(),
        }
    }

    /// The theme after a change of the settings: the one that they name, or else
    /// the one that was there.
    pub fn next_theme(&self, current: Theme) -> (res: Theme)
        ensures
            res@ == self@.chosen_or(current@),
    {
        match self.chosen_theme() {
            Some(theme) => theme,
            None => current,
        }
    }

    /// Whether another frame of the animations is wanted.
    pub fn wants_frame(&self, state: &State) -> (res: bool)
        ensures
            res == (state@.effects.running() && self@.config.animations),
    {
        state.effects.running() && self.config.animations
    }
}

/// Whether a file holds a theme: no directory, and named like one.
pub fn is_theme_file(is_dir: bool, file_name: &str) -> (res: bool)
    ensures
        res == (!is_dir && ".ron"@.len() <= file_name@.len() && file_name@.skip(
            file_name@.len() - ".ron"@.len(),
        ) == ".ron"@),
{
    !is_dir && ends_with(file_name, ".ron")
}

/// What happened to a file of the settings.
#[derive(Debug, Clone, Copy, PartialEq, Eq, Structural)]
pub enum FileChange {
    Create,
    Modify,
    Other,
}

impl FileChange {
    /// The event that the change brings: settings that are new or changed are read
    /// again.
    pub fn event(self) -> (res: Option<AppEvent>)
        ensures
            res == match self {
                FileChange::Create | FileChange::Modify => Some(AppEvent::ReloadConfig),
                FileChange::Other => None,
            },
    {
        match self {
            FileChange::Create | FileChange::Modify => Some(AppEvent::ReloadConfig),
            FileChange::Other => None,
        }
    }
}

/// The nanoseconds to wait for the end of a frame of which `elapsed` have passed.
pub fn frame_pause(elapsed: u64) -> (res: Option<u64>)
    ensures
        res == if elapsed < FRAME_NANOS {
            Some((FRAME_NANOS - elapsed) as u64)
        } else {
            None
        },
{
    if elapsed < FRAME_NANOS {
        Some(FRAME_NANOS - elapsed)
    } else {
        None
    }
}

impl StateModel {
    /// The state when the screen first shows: the animations that open it run, and
    /// the first line is selected.
    pub open spec fn opened(self) -> StateModel {
        StateModel {
            effects: self.effects.opened(),
            process_table_state: TableState { selected: Some(0), ..self.process_table_state },
            ..self
        }
    }
}

impl State {
    /// Opens the screen.
    pub fn open(&mut self)
        requires
            old(self)@.effects.wf(),
        ensures
            final(self)@ == old(self)@.opened(),
            final(self)@.effects.wf(),
    {
        self.effects.open();
        self.process_table_state.select_first();
    }

    /// Takes a step and brings the table up to date.
    pub fn advance(self, transition: Transition) -> (res: State)
        requires
            self@.wf(),
            self@.allows(transition),
        ensures
            res@ == self@.after(transition).prepare(),
            res@.wf(),
    {
        transition.transition(self).prepare()
    }
}

/// What comes of an event: the next state, the name of the step that led to it, the
/// process to kill, whether the screen is drawn, and whether its animations are.
#[derive(Debug)]
pub struct Round {
    pub state: State,
    pub step: &'static str,
    pub killed: Option<Pid>,
    pub draws: bool,
    pub animates: bool,
}

/// The process that a step kills.
pub open spec fn victim(step: Transition) -> Option<Pid> {
    match step {
        Transition::KillProcess(pid) => Some(pid),
        _ => None,
    }
}

impl State {
    /// Whether the event can be answered.
    pub fn can_answer(&self, event: &AppEvent) -> (res: bool)
        requires
            self@.wf(),
            *event matches AppEvent::UpdateProcess(info) ==> info@.wf(),
        ensures
            res == (self@.in_view() && self@.allows(event.asks(self@))),
    {
        if let (Some(rows), Some(idx)) = (&self.process_rows, self.process_table_state.selected()) {
            if idx >= rows.len() {
                return false;
            }
        }
        match event {
            AppEvent::Input(input) => {
                let step = AppEvent::Input(*input).into_transition(self);
                self.accepts(&step)
            },
            _ => true,
        }
    }

    /// Answers an event: takes the step that it asks for and brings the table up to
    /// date. The screen is drawn unless the program ends.
    pub fn answer(self, event: AppEvent) -> (res: Round)
        requires
            self@.wf(),
            self@.in_view(),
            self@.allows(event.asks(self@)),
        ensures
            res.state@ == self@.after(event.asks(self@)).prepare(),
            res.state@.wf(),
            res.step@ == event.asks(self@).name(),
            res.killed == victim(event.asks(self@)),
            res.draws == !res.state@.exit,
            res.animates == (event is ProcessEffects),
    {
        let animates = event.processes_effects();
        let transition = event.into_transition(&self);
        let step = transition.text();
        let killed = transition.killed();
        let state = self.advance(transition);
        let draws = !state.exit;
        Round { state, step, killed, draws, animates }
    }
}

/// A round that is answered ends the program if and only if the step says so.
pub proof fn a_round_ends_by_exit_alone(m: StateModel, event: AppEvent)
    ensures
        m.after(event.asks(m)).prepare().exit == (m.exit || event.asks(m) is Exit),
{
}

/// The opened screen moves until its animations have come to their end.
pub proof fn an_opened_screen_moves(m: EffectsModel)
    requires
        m == EffectsModel::resting(),
    ensures
        !m.running(),
        m.opened().running(),
{
}

/// The value that a type gives where none is named.
pub fn default<T: Default>() -> (res: T)
    ensures
        call_ensures(T::default, (), res),
{
    T::default()
}

proof fn lemma_by_name(themes: Seq<Theme>, name: Seq<char>, k: int)
    ensures
        0 <= k < themes.len() && themes[k].name@ == name && (forall|j: int|
            k < j < themes.len() ==> (#[trigger] themes[j]).name@ != name) ==> by_name(
            themes,
        ).contains_key(name) && by_name(themes)[name] == themes[k]@,
        (forall|j: int| 0 <= j < themes.len() ==> (#[trigger] themes[j]).name@ != name)
            ==> !by_name(themes).contains_key(name),
    decreases themes.len(),
{
    if themes.len() > 0 {
        let rest = themes.drop_last();
        lemma_by_name(rest, name, k);
        if forall|j: int| 0 <= j < themes.len() ==> (#[trigger] themes[j]).name@ != name {
            assert forall|j: int| 0 <= j < rest.len() implies (#[trigger] rest[j]).name@
                != name by {
                assert(rest[j] == themes[j]);
            }
            assert(themes[themes.len() - 1].name@ != name);
        }
        if 0 <= k < themes.len() - 1 && themes[k].name@ == name && (forall|j: int|
            k < j < themes.len() ==> (#[trigger] themes[j]).name@ != name) {
            assert forall|j: int| k < j < rest.len() implies (#[trigger] rest[j]).name@ != name by {
                assert(rest[j] == themes[j]);
            }
            assert(themes[themes.len() - 1].name@ != name);
        }
    }
}

/// The theme that the settings name is chosen, of several with one name the last, and none
/// where no theme has that name. Without one the program begins with the standard theme,
/// and keeps the theme that it has.
pub proof fn the_named_theme_is_chosen(
    app: App,
    current: Theme,
    chosen: Option<Theme>,
    first: Theme,
    next: Theme,
    k: int,
)
    requires
        call_ensures(App::chosen_theme, (&app,), chosen),
        call_ensures(App::first_theme, (&app,), first),
        call_ensures(App::next_theme, (&app, current), next),
    ensures
        0 <= k < app.themes@.len() && app.themes@[k].name@ == app.config.theme@ && (forall|j: int|
            k < j < app.themes@.len() ==> (#[trigger] app.themes@[j]).name@ != app.config.theme@)
            ==> {
            let named = app.themes@[k];
            &&& chosen matches Some(theme) && same_theme(theme, named)
            &&& same_theme(first, named) && same_theme(next, named)
        },
        (forall|j: int|
            0 <= j < app.themes@.len() ==> (#[trigger] app.themes@[j]).name@ != app.config.theme@)
            ==> {
            &&& chosen is None
            &&& first.header_color == Color::Green && first.highlight_color == Color::White
            &&& same_theme(next, current)
        },
{
    lemma_by_name(app.themes@, app.config.theme@, k);
}

/// Whether two themes have one name and the same colours.
pub open spec fn same_theme(a: Theme, b: Theme) -> bool {
    a.name@ == b.name@ && a.header_color == b.header_color && a.highlight_color
        == b.highlight_color
}

/// A frame of the animations is wanted where they are wanted at all and one of them runs.
pub proof fn frames_are_wanted_where_something_runs(app: App, s: State, res: bool)
    requires
        call_ensures(App::wants_frame, (&app, &s), res),
    ensures
        res ==> app.config.animations,
        app.config.animations ==> res == ({
            ||| s.effects.table_slide_in.0.started && !s.effects.table_slide_in.0.finished
            ||| s.effects.modeline_slide_in_left.0.started
                && !s.effects.modeline_slide_in_left.0.finished
            ||| s.effects.modeline_slide_in_right.0.started
                && !s.effects.modeline_slide_in_right.0.finished
            ||| s.effects.kill_effect.0.started && !s.effects.kill_effect.0.finished
        }),
{
}

/// A file whose name ends in `.ron` holds a theme, and a directory never does.
pub proof fn files_of_themes_end_alike(is_dir: bool, file_name: &str, stem: Seq<char>, res: bool)
    requires
        call_ensures(is_theme_file, (is_dir, file_name), res),
    ensures
        is_dir ==> !res,
        !is_dir && file_name@ == stem + ".ron"@ ==> res,
        res ==> file_name@ == file_name@.take(file_name@.len() - 4) + ".ron"@,
{
    reveal_strlit(".ron");
    if file_name@ == stem + ".ron"@ {
        assert(file_name@.skip(file_name@.len() - 4) =~= ".ron"@);
    }
    if res {
        assert(file_name@ =~= file_name@.take(file_name@.len() - 4) + file_name@.skip(
            file_name@.len() - 4,
        ));
    }
}

/// What has passed of a frame and the pause together are a sixtieth of a second; a frame
/// that is over has no pause.
pub proof fn a_pause_completes_the_frame(elapsed: u64, res: Option<u64>)
    requires
        call_ensures(frame_pause, (elapsed,), res),
    ensures
        res is Some == (elapsed < 16_666_667),
        res matches Some(pause) ==> elapsed + pause == 16_666_667,
{
}

/// When the screen first shows, the first line is selected, and only the animations change
/// besides.
pub proof fn the_first_line_is_selected_at_first(m: StateModel)
    ensures
        m.opened().process_table_state.selected == Some(0usize),
        m.opened().process_table_state.offset == m.process_table_state.offset,
        m.opened().effects.kill_effect == m.effects.kill_effect,
        m.opened().effects.table_slide_in.started,
        m.opened().effects.modeline_slide_in_left.started,
        m.opened().effects.modeline_slide_in_right.started,
        m.opened().process_rows == m.process_rows && m.opened().sysinfo == m.sysinfo,
        m.opened().mode == m.mode && m.opened().exit == m.exit,
{
}

/// The round of the key d outside a search kills the process of the selected line and
/// notes it.
pub proof fn a_round_kills_the_selected_process(
    s: State,
    modifiers: u8,
    rows: Vec<ProcessRow>,
    i: usize,
    res: Round,
)
    requires
        call_ensures(
            State::answer,
            (
                s,
                AppEvent::Input(
                    InputEvent::Key(KeyEvent { code: KeyCode::Char('d'), modifiers }),
                ),
            ),
            res,
        ),
        s.mode is Normal,
        s.process_rows == Some(rows),
        s.process_table_state.selected == Some(i),
        i < rows@.len(),
    ensures
        res.killed == Some(rows@[i as int].2),
        res.state.last_killed_pid == Some(rows@[i as int].2),
        res.state.exit == s.exit,
{
}

/// No round kills a process but by the key d outside a search, and no round ends the
/// program but by the key q outside a search. The screen is drawn unless the program
/// ends, and its animations are drawn for their own event alone.
pub proof fn what_a_round_comes_to(s: State, event: AppEvent, res: Round)
    requires
        call_ensures(State::answer, (s, event), res),
    ensures
        res.killed is Some ==> s.mode is Normal && (
        event matches AppEvent::Input(InputEvent::Key(key)) && key.code == KeyCode::Char('d')),
        !s.exit ==> res.state.exit == (s.mode is Normal && (
        event matches AppEvent::Input(InputEvent::Key(key)) && key.code == KeyCode::Char('q'))),
        res.draws == !res.state.exit,
        res.animates == event is ProcessEffects,
        res.state.process_rows is Some,
        event matches AppEvent::ProcessEffects(dt) ==> res.state.dt == dt,
        event matches AppEvent::UpdateProcess(info) ==> res.state.sysinfo.process_data@
            == info.process_data@ && res.state.sysinfo.cpu_usage@ == info.cpu_usage@
            && res.state.sysinfo.mem_usage == info.mem_usage,
{
}

/// After any round the table of the processes one below the other has the busiest first.
pub proof fn every_round_leaves_the_table_sorted(s: State, event: AppEvent, res: Round)
    requires
        call_ensures(State::answer, (s, event), res),
        s@.wf(),
        s@.allows(event.asks(s@)),
        filed(s.sysinfo.process_data@),
        event matches AppEvent::UpdateProcess(info) ==> filed(info.process_data@),
        s.process_view is Flat,
    ensures
        res.state.process_rows matches Some(rows) && busiest_first(
            rows@,
            res.state.sysinfo.process_data@,
        ),
{
    let m = s@.after(event.asks(s@));
    crate::laws::steps_keep_validity(s@, event.asks(s@));
    lemma_busiest_first(m);
}

/// An event can be answered only where the selected line is a line of the table, and
/// anything but a key can where it is.
pub proof fn what_can_be_answered(s: State, event: AppEvent, rows: Vec<ProcessRow>, res: bool)
    requires
        call_ensures(State::can_answer, (&s, &event), res),
        s@.wf(),
        event matches AppEvent::UpdateProcess(info) ==> info@.wf(),
        s.process_rows == Some(rows),
    ensures
        s.process_table_state.selected matches Some(i) ==> i >= rows@.len() ==> !res,
        (s.process_table_state.selected matches Some(i) ==> i < rows@.len()) && !(
        event is Input) ==> res,
{
}

/// After any round the tree, where it is shown, has the busiest children first, and the
/// lines are those of the tree.
pub proof fn every_round_leaves_the_tree_sorted(s: State, event: AppEvent, res: Round)
    requires
        call_ensures(State::answer, (s, event), res),
        s@.wf(),
        s@.allows(event.asks(s@)),
        filed(s.sysinfo.process_data@),
        event matches AppEvent::UpdateProcess(info) ==> filed(info.process_data@),
        s.process_view is Tree,
    ensures
        busiest_children_first(
            res.state.sysinfo.process_tree@,
            res.state.sysinfo.process_data@,
        ),
        res.state.process_rows matches Some(rows) && rows@
            == res.state.sysinfo.process_tree@.rows(),
{
    let m = s@.after(event.asks(s@));
    crate::laws::steps_keep_validity(s@, event.asks(s@));
    lemma_busiest_children_first(m);
}

/// Settings that are new or changed are read again, and nothing else brings an event.
pub proof fn changed_settings_are_read_again(change: FileChange, res: Option<AppEvent>)
    requires
        call_ensures(FileChange::event, (change,), res),
    ensures
        res is Some == !(change is Other),
        res matches Some(event) ==> event is ReloadConfig,
{
}

/// New settings and new themes take the place of the old ones, each without the other.
pub proof fn settings_and_themes_are_replaced(
    app: App,
    config: Config,
    themes: Vec<Theme>,
    a: App,
    b: App,
)
    requires
        call_ensures(App::with_config, (app, config), a),
        call_ensures(App::with_themes, (app, themes), b),
    ensures
        a.config.theme@ == config.theme@ && a.config.animations == config.animations,
        a@.themes == app@.themes && a.poll_rate == app.poll_rate,
        b.config.theme@ == app.config.theme@ && b.config.animations == app.config.animations,
        b@.themes == by_name(themes@) && b.poll_rate == app.poll_rate,
{
}

/// Opening the screen selects the first line, switches three animations on from their
/// beginnings, and changes nothing else.
pub proof fn opening_the_screen(s: &mut State)
    requires
        call_ensures(State::open, (s,), ()),
    ensures
        final(s).process_table_state.selected == Some(0usize),
        final(s).process_table_state.offset == old(s).process_table_state.offset,
        final(s).effects.table_slide_in.0@.started,
        final(s).effects.modeline_slide_in_left.0@.started,
        final(s).effects.modeline_slide_in_right.0@.started,
        final(s).effects.table_slide_in.0@.state
            == old(s).effects.table_slide_in.0@.state.rewound(),
        final(s).effects.kill_effect.0@ == old(s).effects.kill_effect.0@,
        final(s).exit == old(s).exit && final(s).dt == old(s).dt,
        final(s).last_killed_pid == old(s).last_killed_pid,
        final(s).mode@ == old(s).mode@ && final(s).sysinfo@ == old(s).sysinfo@,
        final(s)@.process_rows == old(s)@.process_rows,
{
}

} // verus!
