//! What is drawn of a state.

use ratatui::buffer::Buffer;
use std::collections::HashMap;
use vstd::prelude::*;
use vstd::string::StringExecFns;

use crate::app::Theme;
use crate::effect::{screen_cells, EffectModel, EffectState, EffectsModel, Slide};
use crate::layout::{Area, Screen};
use crate::process::ProcessData;
use crate::search::Mode;
use crate::state::{State, StateModel};
use crate::style::{Color, Style};
use crate::table::{bits, TableState};
use crate::text::{chars_of, decimal, decimal_digits, digits_write_their_number, writes};
use crate::tree::{Pid, ProcessRow};
use crate::view::{lemma_shows, looks, shows, size_text, Row, RowModel};

verus! {

/// Having been measured.
pub open spec fn measured(data: Map<Pid, ProcessData>) -> spec_fn(ProcessRow) -> bool {
    |row: ProcessRow| data.contains_key(row.2)
}

/// The lines among the first `limit` whose processes were measured.
pub open spec fn lines_within(
    rows: Seq<ProcessRow>,
    data: Map<Pid, ProcessData>,
    limit: int,
) -> Seq<ProcessRow> {
    rows.take(
        if limit < rows.len() {
            limit
        } else {
            rows.len() as int
        },
    ).filter(measured(data))
}

proof fn lemma_filter_step<A>(s: Seq<A>, pred: spec_fn(A) -> bool, i: int)
    requires
        0 <= i < s.len(),
    ensures
        s.take(i + 1).filter(pred) == if pred(s[i]) {
            s.take(i).filter(pred).push(s[i])
        } else {
            s.take(i).filter(pred)
        },
{
    reveal(Seq::filter);
    assert(s.take(i + 1).drop_last() =~= s.take(i));
}

/// The lines among the first `limit` whose processes were measured.
pub fn select_lines(
    rows: &Vec<ProcessRow>,
    data: &HashMap<Pid, ProcessData>,
    limit: usize,
) -> (res: Vec<ProcessRow>)
    ensures
        res@ == lines_within(rows@, data@, limit as int),
{
    broadcast use vstd::std_specs::hash::group_hash_axioms;

    let mut res: Vec<ProcessRow> = Vec::new();
    let end: usize = if limit < rows.len() {
        limit
    } else {
        rows.len()
    };
    proof {
        reveal(Seq::filter);
        assert(rows@.take(0).filter(measured(data@)) =~= Seq::<ProcessRow>::empty());
    }
    for i in 0..end
        invariant
            end <= rows@.len(),
            res@ == rows@.take(i as int).filter(measured(data@)),
    {
        proof {
            lemma_filter_step(rows@, measured(data@), i as int);
        }
        if data.contains_key(&rows[i].2) {
            res.push(rows[i]);
        }
    }
    res
}

impl StateModel {
    /// The number of the selected line, or of the first.
    pub open spec fn selected_idx(self) -> usize {
        match self.process_table_state.selected {
            Some(i) => i,
            None => 0,
        }
    }

    /// The lines to draw on a screen of `height` lines: up to a screen below the
    /// selected line.
    pub open spec fn lines(self, height: int) -> Seq<ProcessRow> {
        match self.process_rows {
            Some(rows) => lines_within(rows, self.sysinfo.data, height + self.selected_idx()),
            None => Seq::empty(),
        }
    }

    /// Whether a line is so far above the selected one that it stays blank.
    pub open spec fn far_above(self, idx: int, height: int) -> bool {
        idx + self.process_table_state.offset + height < self.selected_idx()
    }

    /// Whether a line is that of the process that was killed last.
    pub open spec fn was_killed(self, line: ProcessRow) -> bool {
        self.last_killed_pid == Some(self.sysinfo.data[line.2].pid)
    }

    /// A line as it is drawn: the killed process is greyed out.
    pub open spec fn drawn_line(self, line: ProcessRow, idx: int, height: int) -> RowModel {
        if self.far_above(idx, height) {
            RowModel::blank()
        } else {
            let proc = self.sysinfo.data[line.2];
            RowModel {
                cells: self.process_view.cells(
                    idx as usize,
                    line.0,
                    line.1,
                    proc,
                    size_text(proc.memory_usage),
                    self.search_matches,
                ),
                style: if self.was_killed(line) {
                    Style::colored(Color::DarkGray)
                } else {
                    Style::plain()
                },
            }
        }
    }

    /// The last of the first `n` lines that shows the killed process.
    pub open spec fn killed_line(self, lines: Seq<ProcessRow>, height: int, n: nat) -> Option<usize>
        decreases n,
    {
        if n == 0 {
            None
        } else if !self.far_above(n - 1, height) && self.was_killed(lines[n - 1]) {
            Some((n - 1) as usize)
        } else {
            self.killed_line(lines, height, (n - 1) as nat)
        }
    }
}

/// The table as it is drawn: which lines, how they look, and which of them is that
/// of the killed process.
#[derive(Debug)]
pub struct TableView {
    pub lines: Vec<ProcessRow>,
    pub rows: Vec<Row>,
    pub killed_idx: Option<usize>,
}

/// The titles of the columns.
pub fn header() -> (res: Vec<&'static str>)
    ensures
        res@.len() == 6,
        res@[0]@ == " PID"@,
        res@[1]@ == "USER"@,
        res@[2]@ == "CPU%"@,
        res@[3]@ == "MEM(B)"@,
        res@[4]@ == "MEM%"@,
        res@[5]@ == "Command"@,
{
    let mut res: Vec<&'static str> = Vec::new();
    res.push(" PID");
    res.push("USER");
    res.push("CPU%");
    res.push("MEM(B)");
    res.push("MEM%");
    res.push("Command");
    res
}

/// The style of the titles.
pub fn header_style(theme: &Theme) -> (res: Style)
    ensures
        res == Style::on(Color::Indexed(0), theme.header_color),
{
    Style::new().bg(theme.header_color).fg(Color::Indexed(0))
}

/// The style of the selected line: yellow where it follows a search, grey where it
/// is that of the killed process, and else that of the theme.
pub open spec fn highlight(hooked: bool, killed: bool, theme: Theme) -> Style {
    if killed {
        Style::on(Color::DarkGray, Color::Black)
    } else if hooked {
        Style::on(Color::Black, Color::Yellow)
    } else {
        Style::on(Color::Black, theme.highlight_color)
    }
}

/// The style of the selected line.
pub fn highlight_style(hooked: bool, killed: bool, theme: &Theme) -> (res: Style)
    ensures
        res == highlight(hooked, killed, *theme),
{
    match (hooked, killed) {
        (true, false) => Style::new().bg(Color::Yellow).fg(Color::Black),
        (_, true) => Style::new().bg(Color::Black).fg(Color::DarkGray),
        (false, false) => Style::new().bg(theme.highlight_color).fg(Color::Black),
    }
}

impl State {
    /// The number of the selected line, or of the first.
    pub fn selected_idx(&self) -> (res: usize)
        ensures
            res == self@.selected_idx(),
    {
        match self.process_table_state.selected() {
            Some(i) => i,
            None => 0,
        }
    }

    /// The style of the selected line, over what the table shows.
    pub fn highlight_of(&self, view: &TableView, selected_idx: usize, theme: &Theme) -> (res: Style)
        ensures
            res == highlight(self@.hooked(), view.killed_idx == Some(selected_idx), *theme),
    {
        let killed = match view.killed_idx {
            Some(idx) => idx == selected_idx,
            None => false,
        };
        highlight_style(self.search_hooked(), killed, theme)
    }

    /// Whether the selection follows the search that counts.
    pub fn search_hooked(&self) -> (res: bool)
        ensures
            res == self@.hooked(),
    {
        match (&self.mode, &self.old_search_state) {
            (Mode::Search(search), _) => search.hooked,
            (Mode::Normal, Some(search)) => search.hooked,
            (Mode::Normal, None) => false,
        }
    }

    /// The table as it is drawn on a screen of `height` lines.
    pub fn table_view(&self, height: usize) -> (res: TableView)
        requires
            height + self@.selected_idx() <= usize::MAX,
            self@.process_rows matches Some(rows) ==> rows.len() + self@.process_table_state.offset
                + height <= usize::MAX,
        ensures
            res.lines@ == self@.lines(height as int),
            res.rows@.len() == res.lines@.len(),
            forall|i: int|
                0 <= i < res.rows@.len() ==> (#[trigger] res.rows@[i])@ == self@.drawn_line(
                    res.lines@[i],
                    i,
                    height as int,
                ),
            res.killed_idx == self@.killed_line(res.lines@, height as int, res.lines@.len()),
    {
        broadcast use vstd::std_specs::hash::group_hash_axioms;

        let selected_idx = self.selected_idx();
        let offset: usize = self.process_table_state.offset;
        let data = &self.sysinfo.process_data;
        let lines: Vec<ProcessRow> = match &self.process_rows {
            Some(rows) => select_lines(rows, data, height + selected_idx),
            None => Vec::new(),
        };
        let mut rows: Vec<Row> = Vec::new();
        let mut killed_idx: Option<usize> = None;
        proof {
            lemma_lines(self@, height as int);
        }
        for i in 0..lines.len()
            invariant
                data@ == self@.sysinfo.data,
                offset == self@.process_table_state.offset,
                selected_idx == self@.selected_idx(),
                lines@.len() > 0 ==> lines@.len() + offset + height <= usize::MAX,
                forall|k: int|
                    0 <= k < lines@.len() ==> data@.contains_key((#[trigger] lines@[k]).2),
                rows@.len() == i,
                forall|k: int|
                    0 <= k < i ==> (#[trigger] rows@[k])@ == self@.drawn_line(
                        lines@[k],
                        k,
                        height as int,
                    ),
                killed_idx == self@.killed_line(lines@, height as int, i as nat),
        {
            assert(data@.contains_key(lines@[i as int].2));
            let (depth, prefix, pid) = lines[i];
            let mut row = Row::default();
            if i + offset + height >= selected_idx {
                if let Some(process) = data.get(&pid) {
                    row = self.process_view.make_row(
                        i,
                        depth,
                        &prefix,
                        process,
                        &self.search_matches,
                    );
                    if let Some(killed) = self.last_killed_pid {
                        if killed == process.pid {
                            killed_idx = Some(i);
                            row.style = Style::new().fg(Color::DarkGray);
                        }
                    }
                }
            }
            rows.push(row);
        }
        TableView { lines, rows, killed_idx }
    }
}

/// The lines to draw were measured, and there are no more of them than lines.
proof fn lemma_lines(m: StateModel, height: int)
    requires
        height >= 0,
    ensures
        forall|k: int|
            0 <= k < m.lines(height).len() ==> m.sysinfo.data.contains_key(
                (#[trigger] m.lines(height)[k]).2,
            ),
        m.process_rows matches Some(rows) ==> m.lines(height).len() <= rows.len(),
        m.process_rows is None ==> m.lines(height).len() == 0,
{
    if let Some(rows) = m.process_rows {
        let limit = height + m.selected_idx();
        let head = rows.take(
            if limit < rows.len() {
                limit
            } else {
                rows.len() as int
            },
        );
        head.lemma_filter_len(measured(m.sysinfo.data));
        assert forall|k: int| 0 <= k < m.lines(height).len() implies m.sysinfo.data.contains_key(
            (#[trigger] m.lines(height)[k]).2,
        ) by {
            head.lemma_filter_pred(measured(m.sysinfo.data), k);
        }
    }
}

/// A text and its style.
#[derive(Debug)]
pub struct Span {
    pub text: String,
    pub style: Style,
}

/// A text and its style.
pub struct SpanModel {
    pub text: Seq<char>,
    pub style: Style,
}

impl View for Span {
    type V = SpanModel;

    open spec fn view(&self) -> SpanModel {
        SpanModel { text: self.text@, style: self.style }
    }
}

/// The left part of the line below the table: the mode and the selected process,
/// or the search being typed.
#[derive(Debug)]
pub enum Modeline {
    Normal { mode: Span, at: Span, pid: Span },
    Search { prompt: Span, term: Span },
}

/// The number and the name of the selected process.
#[derive(Debug)]
pub struct Selected {
    pub pid: String,
    pub name: String,
}

impl StateModel {
    /// The selected line is one of these, and its process was measured.
    pub open spec fn selects_one_of(self, lines: Seq<ProcessRow>) -> bool {
        self.process_table_state.selected matches Some(i) ==> i < lines.len()
            && self.sysinfo.data.contains_key(lines[i as int].2)
    }

    /// The selected process.
    pub open spec fn selected_process(self, lines: Seq<ProcessRow>) -> Option<ProcessData> {
        match self.process_table_state.selected {
            Some(i) => Some(self.sysinfo.data[lines[i as int].2]),
            None => None,
        }
    }

    /// The animations after a drawing.
    pub open spec fn animated(self) -> EffectsModel {
        EffectsModel {
            table_slide_in: self.effects.table_slide_in.update(self.dt),
            modeline_slide_in_left: self.effects.modeline_slide_in_left.update(self.dt),
            modeline_slide_in_right: self.effects.modeline_slide_in_right.update(self.dt),
            kill_effect: self.effects.kill_effect.update(self.dt),
        }
    }
}

/// The lines of the table below its titles.
pub open spec fn lines_area(table: Area) -> Area {
    table.moved_down(1)
}

/// The selected line of a table, so many lines below the first one shown.
pub open spec fn line_area(table: Area, below: i32) -> Area {
    Area { height: 1, ..lines_area(table).moved_down(below as int) }
}

/// The lines of the table below its titles.
pub fn inner_table_area(table: Area) -> (res: Area)
    ensures
        res == lines_area(table),
{
    table.move_down(1)
}

/// The selected line of a table that is scrolled to `offset`.
pub fn selected_line_area(table: Area, selected_idx: usize, offset: usize) -> (res: Area)
    requires
        offset <= selected_idx,
    ensures
        res == line_area(table, (selected_idx - offset) as i32),
{
    let line = inner_table_area(table).move_down((selected_idx - offset) as i32);
    Area { height: 1, ..line }
}

/// Where the cursor stands while a search is typed: behind the term.
pub fn cursor_position(prompt: Area, term: &str) -> (res: (u16, u16))
    requires
        prompt.x + term@.len() % 65536 + 8 <= u16::MAX,
        prompt.y < u16::MAX,
    ensures
        res.0 == prompt.x + term@.len() % 65536 + 8,
        res.1 == prompt.y + 1,
{
    let typed: usize = chars_of(term).len() % 65536;
    (prompt.x + typed as u16 + 8, prompt.y + 1)
}

impl State {
    /// The number and the name of the selected process; nothing where none is
    /// selected.
    pub fn selected_text(&self, lines: &Vec<ProcessRow>) -> (res: Selected)
        requires
            self@.selects_one_of(lines@),
        ensures
            match self@.selected_process(lines@) {
                Some(process) => res.pid@ == decimal_digits(process.pid as nat) && res.name@
                    == process.name@,
                None => res.pid@ == ""@ && res.name@ == ""@,
            },
    {
        broadcast use vstd::std_specs::hash::group_hash_axioms;

        if let Some(idx) = self.process_table_state.selected() {
            if let Some(process) = self.sysinfo.process_data.get(&lines[idx].2) {
                return Selected {
                    pid: decimal(process.pid as u64),
                    name: process.name.clone(),
                };
            }
        }
        Selected { pid: "".to_owned(), name: "".to_owned() }
    }

    /// The left part of the line below the table.
    pub fn modeline(&self, selected_pid: String) -> (res: Modeline)
        ensures
            match self.mode {
                Mode::Normal => {
                    &&& res matches Modeline::Normal { mode, at, pid }
                    &&& mode@ == (SpanModel { text: " "@ + "NORM"@, style: Style::plain() })
                    &&& at@ == (SpanModel { text: " @ "@, style: Style::plain() })
                    &&& pid@ == (SpanModel {
                        text: selected_pid@,
                        style: Style { bold: self@.hooked(), ..Style::plain() },
                    })
                },
                Mode::Search(search) => {
                    &&& res matches Modeline::Search { prompt, term }
                    &&& prompt@ == (SpanModel {
                        text: "SEARCH: "@,
                        style: Style { bg: Some(Color::Black), ..Style::plain() },
                    })
                    &&& term@ == (SpanModel {
                        text: search.term@,
                        style: Style { rapid_blink: true, ..Style::plain() },
                    })
                },
            },
    {
        match &self.mode {
            Mode::Normal => {
                let mut word = " ".to_owned();
                word.append(self.mode.text());
                let pid_style = if self.search_hooked() {
                    Style::new().bold()
                } else {
                    Style::new()
                };
                Modeline::Normal {
                    mode: Span { text: word, style: Style::new() },
                    at: Span { text: " @ ".to_owned(), style: Style::new() },
                    pid: Span { text: selected_pid, style: pid_style },
                }
            },
            Mode::Search(search) => Modeline::Search {
                prompt: Span {
                    text: "SEARCH: ".to_owned(),
                    style: Style::new().bg(Color::Black),
                },
                term: Span { text: search.term.clone(), style: Style::new().rapid_blink() },
            },
        }
    }

    /// Draws the animations over the screen; the wipe goes over the line that was
    /// selected.
    pub fn draw_effects(&mut self, buf: &mut Buffer, screen: &Screen, selected_idx: usize)
        requires
            old(self)@.effects.wf(),
            old(self)@.process_table_state.offset <= selected_idx,
        ensures
            final(self)@ == (StateModel { effects: old(self)@.animated(), ..old(self)@ }),
            final(self)@.effects.wf(),
            old(self)@.effects.paint(
                screen_cells(*old(buf)),
                lines_area(screen.table),
                screen.modeline_left,
                screen.modeline_right,
                line_area(
                    screen.table,
                    (selected_idx - old(self)@.process_table_state.offset) as i32,
                ),
                old(self)@.dt,
                screen_cells(*final(buf)),
            ),
    {
        let dt: u32 = self.dt;
        let offset: usize = self.process_table_state.offset;
        let kill_area = selected_line_area(screen.table, selected_idx, offset);
        let lines = inner_table_area(screen.table);
        let ghost first = *buf;
        self.effects.table_slide_in.0.update(buf, lines, dt);
        let ghost second = *buf;
        self.effects.modeline_slide_in_left.0.update(buf, screen.modeline_left, dt);
        let ghost third = *buf;
        self.effects.modeline_slide_in_right.0.update(buf, screen.modeline_right, dt);
        let ghost fourth = *buf;
        self.effects.kill_effect.0.update(buf, kill_area, dt);
        proof {
            assert(old(self)@.effects.paint_through(
                screen_cells(first),
                lines,
                screen.modeline_left,
                screen.modeline_right,
                kill_area,
                dt,
                screen_cells(*buf),
                screen_cells(second),
                screen_cells(third),
                screen_cells(fourth),
            ));
        }
    }
}

/// The table draws no more lines than there are, and only of measured processes.
pub proof fn drawn_lines_are_lines_of_the_table(m: StateModel, height: int, k: int)
    requires
        height >= 0,
        0 <= k < m.lines(height).len(),
    ensures
        m.process_rows matches Some(rows) && rows.contains(m.lines(height)[k]),
        m.sysinfo.data.contains_key(m.lines(height)[k].2),
{
    lemma_lines(m, height);
    let rows = m.process_rows->Some_0;
    let limit = height + m.selected_idx();
    let n = if limit < rows.len() {
        limit
    } else {
        rows.len() as int
    };
    lemma_filter_keeps(rows.take(n), measured(m.sysinfo.data), k);
    let j = choose|j: int| 0 <= j < n && rows.take(n)[j] == m.lines(height)[k];
    assert(rows[j] == m.lines(height)[k]);
}

proof fn lemma_filter_keeps<A>(s: Seq<A>, pred: spec_fn(A) -> bool, k: int)
    requires
        0 <= k < s.filter(pred).len(),
    ensures
        s.contains(s.filter(pred)[k]),
    decreases s.len(),
{
    reveal(Seq::filter);
    let rest = s.drop_last();
    if k < rest.filter(pred).len() {
        lemma_filter_keeps(rest, pred, k);
        let j = choose|j: int| 0 <= j < rest.len() && rest[j] == s.filter(pred)[k];
        assert(s[j] == s.filter(pred)[k]);
    } else {
        assert(s[s.len() - 1] == s.filter(pred)[k]);
    }
}

/// A selection that is one of the drawn lines is a line of the table.
pub proof fn a_drawn_selection_is_in_view(m: StateModel, height: int, table: TableState)
    requires
        height >= 0,
        table.selected matches Some(i) ==> i < m.lines(height).len(),
    ensures
        (StateModel { process_table_state: table, ..m }).in_view(),
{
    lemma_lines(m, height);
}

/// While every line was measured, the selected line is drawn, on any screen.
pub proof fn the_selected_line_is_drawn(m: StateModel, height: int)
    requires
        height > 0,
        m.process_rows matches Some(rows) && m.selected_idx() < rows.len() && (forall|i: int|
            0 <= i < rows.len() ==> m.sysinfo.data.contains_key((#[trigger] rows[i]).2)),
    ensures
        m.selected_idx() < m.lines(height).len(),
        m.lines(height)[m.selected_idx() as int] == m.process_rows->Some_0[m.selected_idx() as int],
        !m.far_above(m.selected_idx() as int, height),
{
    let rows = m.process_rows->Some_0;
    let limit = height + m.selected_idx();
    let n = if limit < rows.len() {
        limit
    } else {
        rows.len() as int
    };
    lemma_filter_all(rows.take(n), measured(m.sysinfo.data));
}

proof fn lemma_filter_all<A>(s: Seq<A>, pred: spec_fn(A) -> bool)
    requires
        forall|i: int| 0 <= i < s.len() ==> pred(#[trigger] s[i]),
    ensures
        s.filter(pred) == s,
    decreases s.len(),
{
    reveal(Seq::filter);
    if s.len() > 0 {
        let rest = s.drop_last();
        assert forall|i: int| 0 <= i < rest.len() implies pred(#[trigger] rest[i]) by {
            assert(pred(s[i]));
        }
        lemma_filter_all(rest, pred);
        assert(pred(s[s.len() - 1]));
        assert(rest.push(s.last()) =~= s);
    }
}

/// One line more to draw adds the next line of the table at the end, where its process was
/// measured, and nothing else. Of no lines none is drawn.
pub proof fn one_line_more(
    rows: Vec<ProcessRow>,
    data: HashMap<Pid, ProcessData>,
    limit: usize,
    few: Vec<ProcessRow>,
    more: Vec<ProcessRow>,
)
    requires
        limit < usize::MAX,
        call_ensures(select_lines, (&rows, &data, limit), few),
        call_ensures(select_lines, (&rows, &data, (limit + 1) as usize), more),
    ensures
        limit == 0 ==> few@.len() == 0,
        limit >= rows@.len() ==> more@ == few@,
        limit < rows@.len() ==> more@ == if data@.contains_key(rows@[limit as int].2) {
            few@.push(rows@[limit as int])
        } else {
            few@
        },
{
    reveal(Seq::filter);
    if limit == 0 {
        assert(rows@.take(0) =~= Seq::<ProcessRow>::empty());
    }
    if limit < rows@.len() {
        lemma_filter_step(rows@, measured(data@), limit as int);
    }
}

/// The table draws a screen of lines below the selected one, or below the first where
/// none is selected.
pub proof fn a_screen_of_lines_is_drawn(
    s: State,
    height: usize,
    view: TableView,
    rows: Vec<ProcessRow>,
    lines: Vec<ProcessRow>,
    selected: usize,
)
    requires
        call_ensures(State::table_view, (&s, height), view),
        s.process_table_state.selected == Some(selected) || (s.process_table_state.selected is None
            && selected == 0),
        height + selected <= usize::MAX,
        s.process_rows == Some(rows),
        call_ensures(
            select_lines,
            (&rows, &s.sysinfo.process_data, (height + selected) as usize),
            lines,
        ),
    ensures
        view.lines@ == lines@,
        view.rows@.len() == lines@.len(),
{
}

/// A line that is drawn shows the process of that line of the table, green where that
/// line is marked and dark grey all over where its process is the one that was killed
/// last. Only lines that are more than a screen above the selected one stay blank.
pub proof fn each_line_shows_its_own_process(
    s: State,
    height: usize,
    view: TableView,
    selected: usize,
    i: int,
)
    requires
        call_ensures(State::table_view, (&s, height), view),
        s.process_table_state.selected == Some(selected) || (s.process_table_state.selected is None
            && selected == 0),
        0 <= i < view.rows@.len(),
        view.lines@.len() <= usize::MAX,
    ensures
        ({
            let line = view.lines@[i];
            let proc = s.sysinfo.process_data@[line.2];
            let row = view.rows@[i];
            let marks = bits(s.search_matches);
            &&& i + s.process_table_state.offset + height < selected ==> row.cells@.len() == 0
            &&& i + s.process_table_state.offset + height >= selected ==> {
                &&& shows(
                    row.cells@,
                    s.process_view,
                    line.0,
                    line.1,
                    proc,
                    size_text(proc.memory_usage),
                )
                &&& looks(row.cells@, s.process_view, proc, i < marks.len() && marks[i])
                &&& row.style.fg == if s.last_killed_pid == Some(proc.pid) {
                    Some(Color::DarkGray)
                } else {
                    None
                }
            }
        }),
{
    let line = view.lines@[i];
    let proc = s.sysinfo.process_data@[line.2];
    let row = view.rows@[i];
    assert(row@ == s@.drawn_line(line, i, height as int));
    if i + s.process_table_state.offset + height >= selected {
        lemma_shows(
            row,
            s.process_view,
            i as usize,
            line.0,
            line.1,
            proc,
            size_text(proc.memory_usage),
            bits(s.search_matches),
        );
    } else {
        assert(row@.cells.len() == row.cells@.len());
    }
}

proof fn lemma_killed_line(m: StateModel, lines: Seq<ProcessRow>, height: int, n: nat)
    requires
        n <= lines.len() <= usize::MAX,
    ensures
        m.killed_line(lines, height, n) matches Some(k) ==> {
            &&& k < n && !m.far_above(k as int, height) && m.was_killed(lines[k as int])
            &&& forall|j: int|
                k < j < n ==> m.far_above(j, height) || !m.was_killed(#[trigger] lines[j])
        },
        m.killed_line(lines, height, n) is None ==> forall|j: int|
            0 <= j < n ==> m.far_above(j, height) || !m.was_killed(#[trigger] lines[j]),
    decreases n,
{
    if n > 0 && (m.far_above(n - 1, height) || !m.was_killed(lines[n - 1])) {
        lemma_killed_line(m, lines, height, (n - 1) as nat);
    }
}

/// The line of the killed process is the last one that is drawn of a process of that
/// number, and there is none where no such line is drawn.
pub proof fn the_line_of_the_killed_process(
    s: State,
    height: usize,
    view: TableView,
    selected: usize,
    j: int,
)
    requires
        call_ensures(State::table_view, (&s, height), view),
        s.process_table_state.selected == Some(selected) || (s.process_table_state.selected is None
            && selected == 0),
        view.lines@.len() <= usize::MAX,
    ensures
        ({
            let data = s.sysinfo.process_data@;
            let drawn = j + s.process_table_state.offset + height >= selected;
            let killed = s.last_killed_pid == Some(data[view.lines@[j].2].pid);
            &&& view.killed_idx matches Some(k) ==> {
                &&& k < view.lines@.len()
                &&& s.last_killed_pid == Some(data[view.lines@[k as int].2].pid)
                &&& k < j < view.lines@.len() ==> !(drawn && killed)
            }
            &&& view.killed_idx is None && 0 <= j < view.lines@.len() ==> !(drawn && killed)
        }),
{
    lemma_killed_line(s@, view.lines@, height as int, view.lines@.len());
}

/// The selected line is grey on black where it is that of the killed process, else black
/// on yellow where a search is followed, and else black on the colour of the theme.
pub proof fn how_the_selected_line_looks(
    s: State,
    view: TableView,
    selected_idx: usize,
    theme: Theme,
    res: Style,
)
    requires
        call_ensures(State::highlight_of, (&s, &view, selected_idx, &theme), res),
    ensures
        ({
            let killed = view.killed_idx == Some(selected_idx);
            let followed = match s.mode {
                Mode::Search(search) => search.hooked,
                Mode::Normal => s.old_search_state matches Some(search) && search.hooked,
            };
            &&& !res.bold && !res.rapid_blink
            &&& killed ==> res.fg == Some(Color::DarkGray) && res.bg == Some(Color::Black)
            &&& !killed && followed ==> res.fg == Some(Color::Black) && res.bg == Some(
                Color::Yellow,
            )
            &&& !killed && !followed ==> res.fg == Some(Color::Black) && res.bg == Some(
                theme.highlight_color,
            )
        }),
{
}

/// The line below the table names the selected process by number and name, and no other.
pub proof fn the_selected_process_is_named(
    s: State,
    lines: Vec<ProcessRow>,
    res: Selected,
    i: usize,
)
    requires
        call_ensures(State::selected_text, (&s, &lines), res),
    ensures
        s.process_table_state.selected is None ==> res.pid@.len() == 0 && res.name@.len() == 0,
        s.process_table_state.selected == Some(i) ==> {
            let proc = s.sysinfo.process_data@[lines@[i as int].2];
            writes(res.pid@, proc.pid as int) && res.name@ == proc.name@
        },
{
    reveal_strlit("");
    if s.process_table_state.selected == Some(i) {
        let proc = s.sysinfo.process_data@[lines@[i as int].2];
        digits_write_their_number(res.pid@, proc.pid as nat);
    }
}

/// Outside a search the line below the table shows the number of the selected process,
/// bold where the last search is followed. Inside a search it shows the term.
pub proof fn the_line_below_follows_the_mode(s: State, selected_pid: String, res: Modeline)
    requires
        call_ensures(State::modeline, (&s, selected_pid), res),
    ensures
        s.mode is Normal ==> (res matches Modeline::Normal { mode, at, pid } && pid.text@
            == selected_pid@ && pid.style.bold == (s.old_search_state matches Some(search)
            && search.hooked)),
        s.mode matches Mode::Search(search) ==> (res matches Modeline::Search { prompt, term }
            && term.text@ == search.term@ && term.style.rapid_blink),
{
}

/// With each character that is typed the cursor goes one place to the right; it stands
/// eight places behind the prompt to begin with, on the line below it.
pub proof fn the_cursor_follows_the_term(
    prompt: Area,
    term: &str,
    longer: &str,
    ch: char,
    a: (u16, u16),
    b: (u16, u16),
)
    requires
        call_ensures(cursor_position, (prompt, term), a),
        longer@ == term@.push(ch),
        longer@.len() < 65536,
        call_ensures(cursor_position, (prompt, longer), b),
    ensures
        b.0 == a.0 + 1 && b.1 == a.1,
        a.1 == prompt.y + 1,
        term@.len() == 0 ==> a.0 == prompt.x + 8,
{
}

/// The lines of the table begin below its titles, and the selected one is as far below
/// the first as the table is not scrolled. It is one line high and as wide as the table.
pub proof fn where_the_selected_line_stands(
    table: Area,
    selected_idx: usize,
    offset: usize,
    lines: Area,
    res: Area,
)
    requires
        call_ensures(inner_table_area, (table,), lines),
        call_ensures(selected_line_area, (table, selected_idx, offset), res),
        offset <= selected_idx,
        table.x + table.width <= 0xFFFF,
        table.y + 1 + (selected_idx - offset) + table.height <= 0xFFFF,
    ensures
        lines.y == table.y + 1 && lines.x == table.x && lines.width == table.width,
        res.y == table.y + 1 + (selected_idx - offset),
        res.x == table.x && res.width == table.width && res.height == 1,
{
}

/// Drawing the animations takes the time since the last drawing from each slide that
/// runs, and leaves alone what is switched off.
pub proof fn each_animation_takes_the_time(m: StateModel)
    ensures
        moves_on(m.effects.table_slide_in, m.dt, m.animated().table_slide_in),
        moves_on(m.effects.modeline_slide_in_left, m.dt, m.animated().modeline_slide_in_left),
        moves_on(m.effects.modeline_slide_in_right, m.dt, m.animated().modeline_slide_in_right),
        moves_on(m.effects.kill_effect, m.dt, m.animated().kill_effect),
{
}

/// Whether an animation moves on by so many milliseconds: what is switched off stays, what
/// is at its end is switched off, and a running slide loses that time and is at its end
/// when none is left.
pub open spec fn moves_on(before: EffectModel, millis: u32, after: EffectModel) -> bool {
    &&& !before.started ==> after == before
    &&& before.started && before.finished ==> !after.started && after.finished && after.state
        == before.state
    &&& before.started && !before.finished ==> {
        &&& after.started
        &&& before.state matches EffectState::Slide(slide) ==> (
        after.state matches EffectState::Slide(left) && {
            &&& slide.remaining > millis ==> left.remaining == slide.remaining - millis
            &&& slide.remaining <= millis ==> left.remaining == 0
            &&& after.finished == (slide.remaining <= millis)
            &&& left == (Slide { remaining: left.remaining, ..slide })
        })
    }
}

/// Before there are lines none is drawn.
pub proof fn without_lines_nothing_is_drawn(s: State, height: usize, view: TableView)
    requires
        call_ensures(State::table_view, (&s, height), view),
        s.process_rows is None,
    ensures
        view.lines@.len() == 0 && view.rows@.len() == 0 && view.killed_idx is None,
{
}

/// The titles have the colour of the theme behind them and the darkest one before it.
pub proof fn how_the_titles_look(theme: Theme, res: Style)
    requires
        call_ensures(header_style, (&theme,), res),
    ensures
        res.bg == Some(theme.header_color) && res.fg == Some(Color::Indexed(0)),
        !res.bold && !res.rapid_blink,
{
}

/// Whether a place lies in the part of the screen with these ends.
pub open spec fn lies_in(place: (u16, u16), x: int, y: int, width: int, height: int) -> bool {
    x <= place.0 < x + width && y <= place.1 < y + height
}

/// Each animation draws in its own part of the screen: the slide of the table over the
/// lines below its titles, the other two slides over the left and the right part of the
/// line below, and the wipe over the selected line. A place that lies in no part whose
/// animation runs keeps its cell.
pub proof fn each_animation_has_its_part(
    s: &mut State,
    buf: &mut Buffer,
    screen: Screen,
    selected_idx: usize,
    place: (u16, u16),
)
    requires
        call_ensures(State::draw_effects, (s, buf, &screen, selected_idx), ()),
        old(s).process_table_state.offset <= selected_idx,
        screen.table.x + screen.table.width <= 0xFFFF,
        screen.table.y + 1 + (selected_idx - old(s).process_table_state.offset)
            + screen.table.height <= 0xFFFF,
        screen_cells(*old(buf)).contains_key(place),
        ({
            let (table, effects) = (screen.table, old(s).effects);
            let (left, right) = (screen.modeline_left, screen.modeline_right);
            let line = table.y + 1 + (selected_idx - old(s).process_table_state.offset);
            &&& effects.table_slide_in.0.started && !effects.table_slide_in.0.finished ==> !lies_in(
                place,
                table.x as int,
                table.y + 1,
                table.width as int,
                table.height as int,
            )
            &&& effects.modeline_slide_in_left.0.started
                && !effects.modeline_slide_in_left.0.finished ==> !lies_in(
                place,
                left.x as int,
                left.y as int,
                left.width as int,
                left.height as int,
            )
            &&& effects.modeline_slide_in_right.0.started
                && !effects.modeline_slide_in_right.0.finished ==> !lies_in(
                place,
                right.x as int,
                right.y as int,
                right.width as int,
                right.height as int,
            )
            &&& effects.kill_effect.0.started && !effects.kill_effect.0.finished ==> !lies_in(
                place,
                table.x as int,
                line,
                table.width as int,
                1,
            )
        }),
    ensures
        screen_cells(*final(buf)).contains_key(place),
        screen_cells(*final(buf))[place] == screen_cells(*old(buf))[place],
{
    assert(screen_cells(*old(buf)).dom().contains(place));
}

/// Drawing the animations moves each of them on by the time since the last drawing, and
/// changes nothing else of the state.
pub proof fn drawing_moves_each_animation_on(
    s: &mut State,
    buf: &mut Buffer,
    screen: Screen,
    selected_idx: usize,
)
    requires
        call_ensures(State::draw_effects, (s, buf, &screen, selected_idx), ()),
    ensures
        moves_on(
            old(s).effects.table_slide_in.0@,
            old(s).dt,
            final(s).effects.table_slide_in.0@,
        ),
        moves_on(
            old(s).effects.modeline_slide_in_left.0@,
            old(s).dt,
            final(s).effects.modeline_slide_in_left.0@,
        ),
        moves_on(
            old(s).effects.modeline_slide_in_right.0@,
            old(s).dt,
            final(s).effects.modeline_slide_in_right.0@,
        ),
        moves_on(old(s).effects.kill_effect.0@, old(s).dt, final(s).effects.kill_effect.0@),
        final(s).exit == old(s).exit && final(s).dt == old(s).dt,
        final(s).process_table_state == old(s).process_table_state,
        final(s).last_killed_pid == old(s).last_killed_pid,
        final(s).mode@ == old(s).mode@ && final(s).sysinfo@ == old(s).sysinfo@,
        final(s)@.process_rows == old(s)@.process_rows,
{
}

} // verus!
