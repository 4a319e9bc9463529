use jo::app::Theme;
use jo::cpu::{bar_width, cpu_label, cpu_line, cpu_range, usage_color};
use jo::drawing::{
    cursor_position, header, header_style, highlight_style, inner_table_area, selected_line_area,
    Modeline,
};
use jo::layout::{
    below_wanted, columns_wanted, cpu_columns, cpu_per_column, halves_wanted, modeline_wanted,
    search_wanted, table_wanted, Area, Constraint, Halves, Screen,
};
use jo::number::Single;
use jo::process::{ProcessData, ProcessSample};
use jo::search::{Mode, SearchState};
use jo::state::{ProcessView, State};
use jo::style::{grey_out, Color, Style};
use jo::system::{Measured, SystemInformation};
use jo::transition::{SearchTypeTransition, Transition};
use jo::tree::TreePrefix;
use jo::view::{TableCell, Content, Row};

fn number(value: f32) -> Single {
    Single::from_bits(value.to_bits())
}

fn process(name: &str, user: &str, cpu: f32, bytes: u64, percent: f32) -> ProcessData {
    ProcessData {
        pid: 123,
        name: name.to_string(),
        user: user.to_string(),
        cpu_usage: number(cpu),
        memory_usage: bytes,
        memory_percent: number(percent),
    }
}

fn text(cell: &TableCell) -> &str {
    match &cell.content {
        Content::Text(text) => text.as_str(),
        Content::Percent(_) => panic!("a number"),
    }
}

fn percent(cell: &TableCell) -> f32 {
    match &cell.content {
        Content::Text(text) => panic!("{}", text),
        Content::Percent(number) => f32::from_bits(number.bits),
    }
}

fn texts(row: &Row) -> Vec<&str> {
    [0, 1, 3, 5].iter().map(|i| text(&row.cells[*i])).collect()
}

#[test]
fn a_line_of_the_tree() {
    let proc = process("init", "root", 0.0, 1536, 12.5);
    let bits = jo::state::State::default().search_matches;
    let row = ProcessView::Tree.make_row(0, 4, &TreePrefix::LastChild, &proc, &bits);
    assert_eq!(texts(&row), vec!["123", "root", "1.5 KiB", " │  │  └─ init"]);
    assert_eq!(percent(&row.cells[2]), 0.0);
    assert_eq!(percent(&row.cells[4]), 12.5);
    assert!(row.cells.iter().all(|cell| cell.style == Style::new()));
    assert_eq!(row.style, Style::new());
    let row = ProcessView::Tree.make_row(0, 2, &TreePrefix::FirstChild, &proc, &bits);
    assert_eq!(text(&row.cells[5]), " init");
    let row = ProcessView::Tree.make_row(0, 3, &TreePrefix::MiddleChild, &proc, &bits);
    assert_eq!(text(&row.cells[5]), " │  ├─ init");
}

#[test]
fn a_flat_line() {
    let proc = process("Shell", "alice", 0.01, 1023, 0.5);
    let bits: bit_vec::BitVec = [false, true].iter().copied().collect();
    let row = ProcessView::Flat.make_row(1, 9, &TreePrefix::LastChild, &proc, &bits);
    assert_eq!(texts(&row), vec!["123", "alice", "1023 B", "Shell"]);
    let green = Style::new().fg(Color::Green);
    assert_eq!(row.cells[5].style, green);
    assert!(row.cells[..5].iter().all(|cell| cell.style == Style::new()));
    let row = ProcessView::Flat.make_row(0, 9, &TreePrefix::LastChild, &proc, &bits);
    assert_eq!(row.cells[5].style, Style::new());
    let row = ProcessView::Flat.make_row(2, 9, &TreePrefix::LastChild, &proc, &bits);
    assert_eq!(row.cells[5].style, Style::new());
}

#[test]
fn what_counts_for_little_is_grey() {
    let proc = process("idle", "root", 0.0099, 0, f32::NAN);
    let bits = bit_vec::BitVec::new();
    let row = ProcessView::Flat.make_row(0, 2, &TreePrefix::FirstChild, &proc, &bits);
    let grey = grey_out(true);
    assert_eq!(grey, Style::new().fg(Color::DarkGray));
    assert_eq!(row.cells[0].style, grey_out(false));
    assert_eq!(row.cells[1].style, grey);
    assert_eq!(row.cells[2].style, grey);
    assert_eq!(row.cells[3].style, grey);
    assert_eq!(row.cells[4].style, Style::new());
    assert_eq!(text(&row.cells[3]), "0 B");
}

#[test]
fn sizes_in_binary_units() {
    let bits = bit_vec::BitVec::new();
    for (bytes, shown) in [
        (1024u64, "1.0 KiB"),
        (1_048_576, "1.0 MiB"),
        (1_000_000_000, "953.7 MiB"),
        (518_000_000_000, "482.4 GiB"),
    ] {
        let proc = process("p", "u", 1.0, bytes, 1.0);
        let row = ProcessView::Flat.make_row(0, 2, &TreePrefix::FirstChild, &proc, &bits);
        assert_eq!(text(&row.cells[3]), shown);
    }
    let proc = process("p", "u", 1.0, 5, 1.0);
    let row = ProcessView::Flat.make_row_with(
        0,
        2,
        &TreePrefix::FirstChild,
        &proc,
        "many".to_string(),
        &bits,
    );
    assert_eq!(text(&row.cells[3]), "many");
}

#[test]
fn marks_of_the_tree() {
    assert_eq!(TreePrefix::FirstChild.text(), "");
    assert_eq!(TreePrefix::MiddleChild.text(), " ├─");
    assert_eq!(TreePrefix::LastChild.text(), " └─");
}

fn filled(count: u32) -> State {
    let mut measured = vec![];
    for pid in 1..count + 1 {
        measured.push(Measured {
            parent: None,
            process: ProcessSample {
                pid,
                exe: None,
                name: format!("p{}", pid),
                user: "alice".to_string(),
                cpu_usage: number(1000.0 - pid as f32),
                memory_usage: 1,
                memory_percent: number(1.0),
            },
        });
    }
    let info = match SystemInformation::gather(measured, number(0.0), vec![]) {
        Ok(info) => info,
        Err(err) => panic!("{:?}", err),
    };
    Transition::UpdateSysInfo(info).transition(State::default())
}

#[test]
fn the_lines_that_are_drawn() {
    let mut st = filled(10);
    let table = st.table_view(3);
    let pids: Vec<u32> = table.lines.iter().map(|line| line.2).collect();
    assert_eq!(pids, vec![1, 2, 3]);
    assert_eq!(table.rows.len(), 3);
    assert_eq!(table.killed_idx, None);
    st.process_table_state = st.process_table_state.with_selected(Some(5));
    let table = st.table_view(3);
    assert_eq!(table.lines.len(), 8);
    let blank: Vec<bool> = table.rows.iter().map(|row| row.cells.is_empty()).collect();
    assert_eq!(blank, vec![true, true, false, false, false, false, false, false]);
    st.sysinfo.process_data.remove(&7);
    let table = st.table_view(30);
    let pids: Vec<u32> = table.lines.iter().map(|line| line.2).collect();
    assert_eq!(pids, vec![1, 2, 3, 4, 5, 6, 8, 9, 10]);
    assert!(State::default().table_view(30).lines.is_empty());
}

#[test]
fn the_killed_line_is_grey() {
    let mut st = filled(4);
    st.last_killed_pid = Some(3);
    let table = st.table_view(10);
    assert_eq!(table.killed_idx, Some(2));
    assert_eq!(table.rows[2].style, Style::new().fg(Color::DarkGray));
    assert_eq!(table.rows[1].style, Style::new());
    st.process_table_state = st.process_table_state.with_selected(Some(3));
    let table = st.table_view(0);
    assert_eq!(table.killed_idx, None);
}

#[test]
fn the_titles_and_the_highlight() {
    assert_eq!(header(), vec![" PID", "USER", "CPU%", "MEM(B)", "MEM%", "Command"]);
    let theme = Theme::default();
    assert_eq!(header_style(&theme), Style::new().bg(Color::Green).fg(Color::Indexed(0)));
    let yellow = Style::new().bg(Color::Yellow).fg(Color::Black);
    let grey = Style::new().bg(Color::Black).fg(Color::DarkGray);
    let white = Style::new().bg(Color::White).fg(Color::Black);
    assert_eq!(highlight_style(true, false, &theme), yellow);
    assert_eq!(highlight_style(true, true, &theme), grey);
    assert_eq!(highlight_style(false, true, &theme), grey);
    assert_eq!(highlight_style(false, false, &theme), white);

    let mut st = filled(4);
    let table = st.table_view(10);
    assert_eq!(table.killed_idx, None);
    assert_eq!(st.highlight_of(&table, 0, &theme), white);
    let pid = st.process_rows.as_ref().map(|rows| rows[2].2);
    st.last_killed_pid = pid;
    let table = st.table_view(10);
    assert_eq!(table.killed_idx, Some(2));
    assert_eq!(st.highlight_of(&table, 2, &theme), grey);
    assert_eq!(st.highlight_of(&table, 1, &theme), white);
    st.mode = Mode::Search(SearchState { hooked: true, ..SearchState::default() });
    assert_eq!(st.highlight_of(&table, 1, &theme), yellow);
    assert_eq!(st.highlight_of(&table, 2, &theme), grey);
}

#[test]
fn the_line_below_the_table() {
    let mut st = filled(4);
    let table = st.table_view(10);
    let nothing = st.selected_text(&table.lines);
    assert_eq!((nothing.pid.as_str(), nothing.name.as_str()), ("", ""));
    st.process_table_state = st.process_table_state.with_selected(Some(1));
    let selected = st.selected_text(&table.lines);
    assert_eq!((selected.pid.as_str(), selected.name.as_str()), ("2", "p2"));
    match st.modeline(selected.pid) {
        Modeline::Normal { mode, at, pid } => {
            assert_eq!(mode.text, " NORM");
            assert_eq!(at.text, " @ ");
            assert_eq!(pid.text, "2");
            assert_eq!(pid.style, Style::new());
        }
        Modeline::Search { .. } => panic!("no search"),
    }
    st.old_search_state = Some(SearchState::default());
    match st.modeline("2".to_string()) {
        Modeline::Normal { pid, .. } => assert_eq!(pid.style, Style::new().bold()),
        Modeline::Search { .. } => panic!("no search"),
    }
    let st = Transition::StartSearch.transition(st);
    let st = Transition::SearchType(SearchTypeTransition::Type('é')).transition(st);
    match st.modeline("2".to_string()) {
        Modeline::Normal { .. } => panic!("a search"),
        Modeline::Search { prompt, term } => {
            assert_eq!(prompt.text, "SEARCH: ");
            assert_eq!(prompt.style, Style::new().bg(Color::Black));
            assert_eq!(term.text, "é");
            assert_eq!(term.style, Style::new().rapid_blink());
        }
    }
    assert!(matches!(st.mode, Mode::Search(_)));
}

#[test]
fn the_cursor_stands_behind_the_term() {
    let prompt = Area { x: 3, y: 20, width: 8, height: 1 };
    assert_eq!(cursor_position(prompt, ""), (11, 21));
    assert_eq!(cursor_position(prompt, "héé"), (14, 21));
}

#[test]
fn areas_of_the_table() {
    let table = Area { x: 0, y: 10, width: 80, height: 20 };
    assert_eq!(inner_table_area(table), Area { y: 11, ..table });
    assert_eq!(
        selected_line_area(table, 9, 4),
        Area { x: 0, y: 16, width: 80, height: 1 }
    );
    let low = Area { x: 0, y: 65530, width: 1, height: 10 };
    assert_eq!(low.move_down(3).y, 65525);
    assert_eq!(low.move_down(-3).y, 65525);
    assert_eq!(table.move_down(-11).y, 0);
}

#[test]
fn what_is_asked_of_the_parts() {
    assert_eq!(halves_wanted(), vec![Constraint::Max(10), Constraint::Fill(6)]);
    assert_eq!(below_wanted(), vec![Constraint::Min(10), Constraint::Length(1)]);
    assert_eq!(modeline_wanted(), vec![Constraint::Min(8), Constraint::Min(8)]);
    assert_eq!(search_wanted(), vec![Constraint::Max(8), Constraint::Min(1)]);
    assert_eq!(columns_wanted(3), vec![Constraint::Max(32); 3]);
    assert_eq!(
        table_wanted(),
        vec![
            Constraint::Length(8),
            Constraint::Max(10),
            Constraint::Length(8),
            Constraint::Length(8),
            Constraint::Length(8),
            Constraint::Min(20),
        ]
    );
}

#[test]
fn the_parts_of_the_screen() {
    let halves = Halves::of(Area { x: 0, y: 0, width: 100, height: 40 });
    assert_eq!(halves.top, Area { x: 0, y: 0, width: 100, height: 10 });
    assert_eq!(halves.bottom, Area { x: 0, y: 10, width: 100, height: 30 });
    let screen = halves.arrange(12);
    assert_eq!(screen.cpus.len(), 2);
    assert_eq!(screen.cpus[0], Area { x: 1, y: 1, width: 32, height: 8 });
    assert_eq!(screen.cpus[1].x, 35);
    assert_eq!(screen.table, Area { x: 0, y: 10, width: 100, height: 28 });
    assert_eq!(screen.modeline_left, Area { x: 0, y: 39, width: 50, height: 1 });
    assert_eq!(screen.modeline_right, Area { x: 50, y: 39, width: 50, height: 1 });
    assert_eq!(screen.search_prompt, Area { x: 0, y: 39, width: 8, height: 1 });
    assert_eq!(screen.search_term, Area { x: 8, y: 39, width: 42, height: 1 });
    assert!(halves.arrange(0).cpus.is_empty());
}

fn within(part: Area, outer: Area) -> bool {
    outer.x <= part.x
        && part.x as u32 + part.width as u32 <= outer.x as u32 + outer.width as u32
        && outer.y <= part.y
        && part.y as u32 + part.height as u32 <= outer.y as u32 + outer.height as u32
}

#[test]
fn parts_stay_in_the_screen() {
    for (width, height) in [(80u16, 24u16), (10, 9), (1, 8), (200, 60), (33, 13), (7, 40)] {
        for (x, y) in [(0u16, 0u16), (5, 3)] {
            let area = Area { x, y, width, height };
            let halves = Halves::of(area);
            assert!(within(halves.top, area) && within(halves.bottom, area));
            if cpu_per_column(halves.top.height) == 0 {
                continue;
            }
            for count in [0, 1, 7, 64] {
                let screen = halves.arrange(count);
                assert!(within(screen.table, halves.bottom));
                assert!(within(screen.modeline_left, halves.bottom));
                assert!(within(screen.modeline_right, halves.bottom));
                assert!(within(screen.search_prompt, screen.modeline_left));
                assert!(within(screen.search_term, screen.modeline_left));
                assert!(screen.cpus.iter().all(|part| part.width <= halves.top.width));
            }
        }
    }
}

#[test]
fn the_sizes_of_the_parts() {
    for height in 0..90u16 {
        let halves = Halves::of(Area { x: 2, y: 3, width: 50, height });
        let above = height.min(10);
        assert_eq!(halves.top, Area { x: 2, y: 3, width: 50, height: above });
        assert_eq!(
            halves.bottom,
            Area { x: 2, y: 3 + above, width: 50, height: height - above }
        );
    }
    let top = Area { x: 0, y: 0, width: 100, height: 10 };
    for height in 0..60u16 {
        for width in [0u16, 1, 2, 7, 8, 9, 15, 16, 17, 18, 19, 33, 80, 81] {
            let bottom = Area { x: 4, y: 10, width, height };
            let screen = Halves { top, bottom }.arrange(4);
            let gap = height.min(1);
            let room = height - gap;
            let table = if room >= 11 { room - 1 } else { room.min(10) };
            assert_eq!(screen.table, Area { height: table, ..bottom });
            let y = 10 + table + gap;
            let left = (width + 1) / 2;
            let line = Area { x: 4, y, width: left, height: room - table };
            assert_eq!(screen.modeline_left, line);
            assert_eq!(screen.modeline_right, Area { x: 4 + left, width: width - left, ..line });
            let prompt = left.saturating_sub(1).min(8);
            assert_eq!(screen.search_prompt, Area { width: prompt, ..line });
            assert_eq!(
                screen.search_term,
                Area { x: 4 + prompt, width: left - prompt, ..line }
            );
        }
    }
}

fn share(i: usize, count: usize, length: usize) -> usize {
    (2 * i * length + count) / (2 * count)
}

fn check_columns(width: u16, columns: usize) {
    let bottom = Area { x: 0, y: 12, width: 80, height: 20 };
    let top = Area { x: 1, y: 2, width, height: 10 };
    let screen = Halves { top, bottom }.arrange(columns * 8);
    assert_eq!(screen.cpus.len(), columns);
    let inner = if width < 2 { 0 } else { width as usize - 2 };
    let start = if width < 2 { 0 } else { 2 };
    assert!(screen.cpus.iter().all(|part| part.width <= 32));
    let spaces = (columns - 1) * 2;
    for (i, part) in screen.cpus.iter().enumerate() {
        let found = (part.x as usize, part.width as usize);
        if columns * 32 + spaces <= inner {
            assert_eq!(found, (start + i * 34, 32));
        } else if spaces <= inner {
            let from = share(i, columns, inner - spaces);
            let to = share(i + 1, columns, inner - spaces);
            assert_eq!(found, (start + i * 2 + from, to - from));
        }
    }
}

#[test]
fn the_sizes_of_the_columns() {
    for width in 0..300 {
        for columns in [1, 2, 3, 5, 6, 7] {
            check_columns(width, columns);
        }
    }
}

#[test]
fn the_sizes_of_more_columns() {
    for width in (0..600).step_by(7) {
        for columns in [8, 11, 16] {
            check_columns(width, columns);
        }
    }
}

#[test]
fn the_sizes_of_many_columns() {
    for width in [100, 143, 200, 333, 1000] {
        check_columns(width, 31);
    }
    check_columns(201, 51);
    check_columns(500, 51);
}

#[test]
fn the_sizes_of_sixty_four_columns() {
    check_columns(249, 64);
    check_columns(1001, 64);
}

#[test]
fn the_sizes_of_ninety_nine_columns() {
    check_columns(247, 99);
}

#[test]
fn the_sizes_of_a_hundred_columns() {
    check_columns(333, 100);
}

#[test]
fn columns_of_a_narrow_screen() {
    let bottom = Area { x: 0, y: 12, width: 80, height: 20 };
    let top = Area { x: 0, y: 0, width: 81, height: 10 };
    let screen = Halves { top, bottom }.arrange(24);
    let found: Vec<(u16, u16)> = screen.cpus.iter().map(|part| (part.x, part.width)).collect();
    assert_eq!(found, vec![(1, 25), (28, 25), (55, 25)]);
    let top = Area { width: 80, ..top };
    let screen = Halves { top, bottom }.arrange(24);
    let found: Vec<(u16, u16)> = screen.cpus.iter().map(|part| (part.x, part.width)).collect();
    assert_eq!(found, vec![(1, 25), (28, 24), (54, 25)]);
}

#[test]
fn sizes_at_the_end_of_the_count() {
    let area = Area { x: 65530, y: 65500, width: 20, height: 60 };
    let halves = Halves::of(area);
    assert_eq!(halves.top, Area { height: 10, ..area });
    assert_eq!(halves.bottom, Area { y: 65510, height: 25, ..area });
    assert_eq!(area.move_down(1), Area { x: 65515, y: 65475, ..area });
}

#[test]
fn parts_take_their_places() {
    let part = |x: u16| Area { x, y: 0, width: 1, height: 1 };
    let halves = Halves::from_parts(&vec![part(1), part(2)]);
    assert_eq!((halves.top, halves.bottom), (part(1), part(2)));
    let screen = Screen::from_parts(
        vec![part(3), part(4)],
        &vec![part(5), part(6)],
        &vec![part(7), part(8)],
        &vec![part(9), part(10)],
    );
    assert_eq!(screen.cpus, vec![part(3), part(4)]);
    assert_eq!(screen.table, part(5));
    assert_eq!((screen.modeline_left, screen.modeline_right), (part(7), part(8)));
    assert_eq!((screen.search_prompt, screen.search_term), (part(9), part(10)));
}

#[test]
fn columns_of_bars() {
    assert_eq!(cpu_per_column(10), 8);
    assert_eq!(cpu_per_column(12), 8);
    assert_eq!(cpu_per_column(5), 3);
    assert_eq!(cpu_per_column(2), 0);
    assert_eq!(cpu_per_column(0), 0);
    assert_eq!(cpu_columns(0, 8), 0);
    assert_eq!(cpu_columns(8, 8), 1);
    assert_eq!(cpu_columns(9, 8), 2);
    assert_eq!(cpu_range(0, 8, 9), (0, 8));
    assert_eq!(cpu_range(1, 8, 9), (8, 9));
    assert_eq!(cpu_range(1, 8, 16), (8, 16));
}

#[test]
fn a_bar() {
    assert_eq!(bar_width(32), 27);
    let line = cpu_line(3, 20, 4, "25.00%".to_string(), number(0.25));
    assert_eq!(line.label, " 3 ");
    assert_eq!(line.bar, "||||     ");
    assert_eq!(line.percentage, "25.00%");
    assert_eq!(line.color, Color::Green);
    let full = cpu_line(12, 20, 15, "100.00%".to_string(), number(1.0));
    assert_eq!(full.label, "12 ");
    assert_eq!(full.bar, "||||||||");
    let tight = cpu_line(123, 11, 9, "25.00%".to_string(), number(0.25));
    assert_eq!(tight.label, "123 ");
    assert_eq!(tight.bar, "");
    assert_eq!(cpu_label(0), " 0 ");
}

#[test]
fn colours_of_usage() {
    for (usage, color) in [
        (-1.0f32, Color::DarkGray),
        (0.0, Color::DarkGray),
        (0.2499, Color::DarkGray),
        (0.25, Color::Green),
        (0.4999, Color::Green),
        (0.5, Color::Red),
        (0.75, Color::White),
        (2.0, Color::White),
        (f32::INFINITY, Color::White),
        (f32::NAN, Color::DarkGray),
    ] {
        assert_eq!(usage_color(number(usage)), color);
    }
}

#[test]
fn animations_are_drawn_over_the_screen() {
    let mut st = filled(4);
    st.open();
    st.dt = 500;
    let halves = Halves::of(Area { x: 0, y: 0, width: 60, height: 30 });
    let screen = halves.arrange(0);
    let area = ratatui::layout::Rect { x: 0, y: 0, width: 60, height: 30 };
    let blank = ratatui::buffer::Buffer::filled(area, ratatui::buffer::Cell::new("x"));
    let mut buf = blank.clone();
    st.draw_effects(&mut buf, &screen, 0);
    assert_ne!(buf, blank);
    assert!(st.effects.table_slide_in.0.finished());
    assert!(st.effects.modeline_slide_in_left.0.running());
    assert!(st.effects.modeline_slide_in_right.0.running());
    assert!(!st.effects.kill_effect.0.started());
    st.draw_effects(&mut buf, &screen, 0);
    assert!(!st.effects.table_slide_in.0.started());
    assert!(!st.effects.running());
}
