//! Where things stand on the screen.

use ratatui::layout::{Constraint as Size, Direction as Axis, Layout, Rect};
use vstd::prelude::*;

verus! {

/// A part of the screen.
#[derive(Debug, Clone, Copy, PartialEq, Eq, Structural)]
pub struct Area {
    pub x: u16,
    pub y: u16,
    pub width: u16,
    pub height: u16,
}

/// The way along which an area is split.
#[derive(Debug, Clone, Copy, PartialEq, Eq, Structural)]
pub enum Direction {
    Horizontal,
    Vertical,
}

/// What is asked of the size of a part.
#[derive(Debug, Clone, Copy, PartialEq, Eq, Structural)]
pub enum Constraint {
    Min(u16),
    Max(u16),
    Length(u16),
    Fill(u16),
}

/// An integer brought between two others.
pub open spec fn between(n: int, low: int, high: int) -> int {
    if n < low {
        low
    } else if n > high {
        high
    } else {
        n
    }
}

impl Area {
    /// The area without a margin on each side; nothing where there is no room.
    pub open spec fn inner(self, margin: u16) -> Area {
        let both = between(2 * margin, 0, u16::MAX as int);
        if self.width < both || self.height < both {
            Area { x: 0, y: 0, width: 0, height: 0 }
        } else {
            Area {
                x: between(self.x + margin, 0, u16::MAX as int) as u16,
                y: between(self.y + margin, 0, u16::MAX as int) as u16,
                width: (self.width - both) as u16,
                height: (self.height - both) as u16,
            }
        }
    }

    /// Whether the area lies in another.
    pub open spec fn within(self, outer: Area) -> bool {
        &&& outer.x <= self.x && self.x + self.width <= outer.x + outer.width
        &&& outer.y <= self.y && self.y + self.height <= outer.y + outer.height
    }

    /// Whether a place on the screen is in the area.
    pub open spec fn covers(self, place: (u16, u16)) -> bool {
        self.x <= place.0 < self.x + self.width && self.y <= place.1 < self.y + self.height
    }

    /// The area moved down by so many lines, as far as its ends can be counted.
    pub open spec fn moved_down(self, lines: int) -> Area {
        Area {
            x: between(self.x as int, 0, u16::MAX - self.width) as u16,
            y: between(self.y + lines, 0, u16::MAX - self.height) as u16,
            ..self
        }
    }

    /// Moves the area down by so many lines, as far as its ends can be counted.
    pub fn move_down(self, lines: i32) -> (res: Area)
        ensures
            res == self.moved_down(lines as int),
    {
        let rightmost: u16 = u16::MAX - self.width;
        let x: u16 = if self.x > rightmost {
            rightmost
        } else {
            self.x
        };
        let highest: i64 = (u16::MAX - self.height) as i64;
        let wanted: i64 = self.y as i64 + lines as i64;
        let y: u16 = if wanted < 0 {
            0
        } else if wanted > highest {
            highest as u16
        } else {
            wanted as u16
        };
        Area { x, y, ..self }
    }

    /// Where the area begins along a way.
    pub open spec fn start(self, direction: Direction) -> int {
        match direction {
            Direction::Horizontal => self.x as int,
            Direction::Vertical => self.y as int,
        }
    }

    /// How long the area is along a way.
    pub open spec fn length(self, direction: Direction) -> int {
        match direction {
            Direction::Horizontal => self.width as int,
            Direction::Vertical => self.height as int,
        }
    }

    /// How much of the length of the area can be counted.
    pub open spec fn counted(self, direction: Direction) -> int {
        between(self.length(direction), 0, u16::MAX - self.start(direction))
    }

    /// The part of the area from `start` on along a way, and all across it.
    pub open spec fn cut(self, direction: Direction, start: int, length: int) -> Area {
        match direction {
            Direction::Horizontal => Area { x: start as u16, width: length as u16, ..self },
            Direction::Vertical => Area { y: start as u16, height: length as u16, ..self },
        }
    }
}

/// The space between two parts, where there is so much length in all.
pub open spec fn gap(length: int, spacing: u16) -> int {
    between(spacing as int, 0, length)
}

/// The length of the first of two parts that have `room` together, for those wishes
/// of which one alone grows, or both alike. A minimum goes before a fixed length, and
/// both before growing; a part with a maximum takes it before the other one grows.
pub open spec fn first_length(first: Constraint, second: Constraint, room: int) -> Option<int> {
    match (first, second) {
        (Constraint::Max(n), Constraint::Fill(_)) => Some(between(n as int, 0, room)),
        (Constraint::Max(n), Constraint::Min(m)) if m <= i16::MAX => Some(
            between(n as int, 0, between(room - m, 0, room)),
        ),
        (Constraint::Min(n), Constraint::Length(m)) if n <= i16::MAX => Some(
            if room >= n + m {
                room - m
            } else {
                between(n as int, 0, room)
            },
        ),
        (Constraint::Min(n), Constraint::Min(m)) if n == m && n <= i16::MAX => Some((room + 1) / 2),
        _ => None,
    }
}

/// The most that is asked of each of a row of equal columns.
pub open spec fn column_wish(wishes: Seq<Constraint>) -> Option<u16> {
    if wishes.len() > 0 && wishes[0] is Max && forall|i: int|
        0 <= i < wishes.len() ==> #[trigger] wishes[i] == wishes[0] {
        Some(wishes[0]->Max_0)
    } else {
        None
    }
}

/// The length of `count` columns with the space between them.
pub open spec fn columns_length(count: nat, wish: u16, spacing: u16) -> int {
    count * wish + (count - 1) * spacing
}

/// Whether two parts fill an area along a way: the first takes `n`, then comes the
/// space between them, and the second takes the rest.
pub open spec fn two_of(
    area: Area,
    direction: Direction,
    spacing: u16,
    n: int,
    parts: Seq<Area>,
) -> bool {
    let (start, length) = (area.start(direction), area.counted(direction));
    let space = gap(length, spacing);
    &&& parts.len() == 2
    &&& parts[0] == area.cut(direction, start, n)
    &&& parts[1] == area.cut(direction, start + n + space, length - space - n)
}

/// Whether parts stand one behind the other along a way.
pub open spec fn in_order(parts: Seq<Area>, direction: Direction) -> bool {
    forall|i: int, j: int|
        0 <= i < j < parts.len() ==> (#[trigger] parts[i]).start(direction) + parts[i].length(
            direction,
        ) <= (#[trigger] parts[j]).start(direction)
}

/// Where the part of number `i` of `count` equal parts of a length begins, to the
/// nearest cell.
pub open spec fn share(i: int, count: int, length: int) -> int {
    (2 * i * length + count) / (2 * count)
}

/// Whether an area is cut into columns. None is longer than wished. With room for the
/// space between them they stand in order and reach from end to end, unless there is
/// room for all wishes: then each has what it wished. Where there is not, they share
/// alike what the space between them leaves. Of more than a hundred columns the ends
/// inside are left unsaid: they are rounded to hundredths of a cell before they are
/// rounded to cells.
pub open spec fn columns_of(
    area: Area,
    direction: Direction,
    spacing: u16,
    wish: u16,
    parts: Seq<Area>,
) -> bool {
    let (start, length) = (area.start(direction), area.counted(direction));
    let all = columns_length(parts.len(), wish, spacing);
    &&& forall|i: int| 0 <= i < parts.len() ==> (#[trigger] parts[i]).length(direction) <= wish
    &&& (parts.len() - 1) * spacing <= length ==> in_order(parts, direction)
    &&& all <= length ==> forall|i: int|
        0 <= i < parts.len() ==> #[trigger] parts[i] == area.cut(
            direction,
            start + i * (wish + spacing),
            wish as int,
        )
    &&& parts.len() > 0 && (parts.len() - 1) * spacing <= length < all ==> {
        &&& parts[0].start(direction) == start
        &&& parts.last().start(direction) + parts.last().length(direction) == start + length
    }
    &&& parts.len() <= 100 && (parts.len() - 1) * spacing <= length < all ==> {
        let count = parts.len() as int;
        let rest = length - (count - 1) * spacing;
        forall|i: int|
            0 <= i < count ==> #[trigger] parts[i] == area.cut(
                direction,
                start + i * spacing + share(i, count, rest),
                share(i + 1, count, rest) - share(i, count, rest),
            )
    }
}

/// `ratatui::layout::Layout::split` with a margin around and space between the
/// parts: one part for each constraint, inside the inner area and all across it. Two
/// parts of which one alone grows, or both alike, fill the area, and a row of equal
/// columns with room for the space between them stands in order and shares the area
/// alike. For other wishes the lengths are left unsaid: the solver
/// walks hash maps, and where the wishes leave a choice the outcome is not fixed.
#[verifier::external_body]
fn split(
    area: Area,
    direction: Direction,
    constraints: Vec<Constraint>,
    spacing: u16,
    margin: u16,
) -> (parts: Vec<Area>)
    ensures
        parts@.len() == constraints@.len(),
        forall|i: int| 0 <= i < parts@.len() ==> (#[trigger] parts@[i]).within(area.inner(margin)),
        direction is Horizontal ==> forall|i: int|
            0 <= i < parts@.len() ==> (#[trigger] parts@[i]).y == area.inner(margin).y
                && parts@[i].height == area.inner(margin).height,
        direction is Vertical ==> forall|i: int|
            0 <= i < parts@.len() ==> (#[trigger] parts@[i]).x == area.inner(margin).x
                && parts@[i].width == area.inner(margin).width,
        spacing <= i16::MAX && constraints@.len() == 2 ==> (first_length(
            constraints@[0],
            constraints@[1],
            area.inner(margin).counted(direction) - gap(
                area.inner(margin).counted(direction),
                spacing,
            ),
        ) matches Some(n) ==> two_of(area.inner(margin), direction, spacing, n, parts@)),
        1 <= spacing <= i16::MAX ==> (column_wish(constraints@) matches Some(wish) ==> columns_of(
            area.inner(margin),
            direction,
            spacing,
            wish,
            parts@,
        )),
{
    let axis = match direction {
        Direction::Horizontal => Axis::Horizontal,
        Direction::Vertical => Axis::Vertical,
    };
    let sizes = constraints.into_iter().map(|part| match part {
        Constraint::Min(n) => Size::Min(n),
        Constraint::Max(n) => Size::Max(n),
        Constraint::Length(n) => Size::Length(n),
        Constraint::Fill(n) => Size::Fill(n),
    });
    let Area { x, y, width, height } = area;
    let layout = Layout::new(axis, sizes).spacing(spacing).margin(margin);
    let rects = layout.split(Rect { x, y, width, height });
    rects.iter().map(|&Rect { x, y, width, height }| Area { x, y, width, height }).collect()
}

/// The lines between the border of the bars and the bars.
pub const CPU_MARGIN: u16 = 1;

/// The widest that a column of bars gets.
pub const CPU_COLUMN_WIDTH: u16 = 32;

/// The space between two columns of bars.
pub const CPU_SPACING: u16 = 2;

/// The bars in a column: as many as fit between the margins, at most eight.
pub open spec fn bars_per_column(height: u16) -> int {
    between(height - 2 * CPU_MARGIN, 0, 8)
}

/// The bars in a column.
pub fn cpu_per_column(height: u16) -> (res: usize)
    ensures
        res == bars_per_column(height),
{
    if height <= 2 * CPU_MARGIN {
        0
    } else if height - 2 * CPU_MARGIN > 8 {
        8
    } else {
        (height - 2 * CPU_MARGIN) as usize
    }
}

/// The columns for so many bars, the last one perhaps not full.
pub open spec fn columns_for(count: nat, per_column: nat) -> nat {
    if count % per_column != 0 {
        count / per_column + 1
    } else {
        count / per_column
    }
}

/// The columns for so many bars.
pub fn cpu_columns(cpu_count: usize, per_column: usize) -> (res: usize)
    requires
        per_column > 0,
    ensures
        res == columns_for(cpu_count as nat, per_column as nat),
{
    if cpu_count % per_column != 0 {
        proof {
            vstd::arithmetic::div_mod::lemma_div_is_ordered_by_denominator(
                cpu_count as int,
                1,
                per_column as int,
            );
            vstd::arithmetic::div_mod::lemma_fundamental_div_mod(
                cpu_count as int,
                per_column as int,
            );
            if cpu_count as int / per_column as int == usize::MAX {
                vstd::arithmetic::mul::lemma_mul_inequality(
                    1,
                    per_column as int,
                    cpu_count as int / per_column as int,
                );
                vstd::arithmetic::mul::lemma_mul_is_commutative(
                    per_column as int,
                    cpu_count as int / per_column as int,
                );
            }
        }
        cpu_count / per_column + 1
    } else {
        cpu_count / per_column
    }
}

/// Asks for two parts.
fn two_parts(first: Constraint, second: Constraint) -> (res: Vec<Constraint>)
    ensures
        res@ == seq![first, second],
{
    let mut res: Vec<Constraint> = Vec::new();
    res.push(first);
    res.push(second);
    assert(res@ =~= seq![first, second]);
    res
}

/// What is asked of the halves of the screen: at most ten lines for the bars.
pub fn halves_wanted() -> (res: Vec<Constraint>)
    ensures
        res@ == seq![Constraint::Max(10), Constraint::Fill(6)],
{
    two_parts(Constraint::Max(10), Constraint::Fill(6))
}

/// What is asked of the lower half: the table, and a line below it.
pub fn below_wanted() -> (res: Vec<Constraint>)
    ensures
        res@ == seq![Constraint::Min(10), Constraint::Length(1)],
{
    two_parts(Constraint::Min(10), Constraint::Length(1))
}

/// What is asked of the line below the table.
pub fn modeline_wanted() -> (res: Vec<Constraint>)
    ensures
        res@ == seq![Constraint::Min(8), Constraint::Min(8)],
{
    two_parts(Constraint::Min(8), Constraint::Min(8))
}

/// What is asked of the line in which a search is typed: the prompt, and the term.
pub fn search_wanted() -> (res: Vec<Constraint>)
    ensures
        res@ == seq![Constraint::Max(8), Constraint::Min(1)],
{
    two_parts(Constraint::Max(8), Constraint::Min(1))
}

/// What is asked of the columns of bars.
pub fn columns_wanted(columns: usize) -> (res: Vec<Constraint>)
    ensures
        res@ == Seq::new(columns as nat, |i: int| Constraint::Max(CPU_COLUMN_WIDTH)),
{
    let mut res: Vec<Constraint> = Vec::new();
    for i in 0..columns
        invariant
            res@.len() == i,
            forall|k: int| 0 <= k < i ==> #[trigger] res@[k] == Constraint::Max(CPU_COLUMN_WIDTH),
    {
        res.push(Constraint::Max(CPU_COLUMN_WIDTH));
    }
    assert(res@ =~= Seq::new(columns as nat, |i: int| Constraint::Max(CPU_COLUMN_WIDTH)));
    res
}

/// What is asked of the columns of the table.
pub fn table_wanted() -> (res: Vec<Constraint>)
    ensures
        res@ == seq![
            Constraint::Length(8),
            Constraint::Max(10),
            Constraint::Length(8),
            Constraint::Length(8),
            Constraint::Length(8),
            Constraint::Min(20),
        ],
{
    let mut res: Vec<Constraint> = Vec::new();
    res.push(Constraint::Length(8));
    res.push(Constraint::Max(10));
    res.push(Constraint::Length(8));
    res.push(Constraint::Length(8));
    res.push(Constraint::Length(8));
    res.push(Constraint::Min(20));
    res
}

/// The two halves of the screen: the bars above, the table below.
#[derive(Debug, Clone, Copy, PartialEq, Eq, Structural)]
pub struct Halves {
    pub top: Area,
    pub bottom: Area,
}

/// The parts of the screen.
#[derive(Debug)]
pub struct Screen {
    pub cpus: Vec<Area>,
    pub table: Area,
    pub modeline_left: Area,
    pub modeline_right: Area,
    pub search_prompt: Area,
    pub search_term: Area,
}

/// The wishes of two parts are met along a way.
pub open spec fn pair_of(
    area: Area,
    direction: Direction,
    first: Constraint,
    second: Constraint,
    spacing: u16,
) -> (Area, Area) {
    let (start, length) = (area.start(direction), area.counted(direction));
    let space = gap(length, spacing);
    let n = first_length(first, second, length - space)->Some_0;
    (
        area.cut(direction, start, n),
        area.cut(direction, start + n + space, length - space - n),
    )
}

/// The halves of a screen: up to ten lines above, and the rest below.
pub open spec fn halves_of(area: Area) -> (Area, Area) {
    pair_of(area, Direction::Vertical, Constraint::Max(10), Constraint::Fill(6), 0)
}

/// The table, and a line below it.
pub open spec fn below_of(bottom: Area) -> (Area, Area) {
    pair_of(bottom, Direction::Vertical, Constraint::Min(10), Constraint::Length(1), 1)
}

/// The two halves of the line below the table.
pub open spec fn modeline_of(line: Area) -> (Area, Area) {
    pair_of(line, Direction::Horizontal, Constraint::Min(8), Constraint::Min(8), 0)
}

/// The prompt of a search, and the term behind it.
pub open spec fn search_of(left: Area) -> (Area, Area) {
    pair_of(left, Direction::Horizontal, Constraint::Max(8), Constraint::Min(1), 0)
}

impl Halves {
    /// The halves, from the parts of the screen.
    pub fn from_parts(parts: &Vec<Area>) -> (res: Halves)
        requires
            parts@.len() == 2,
        ensures
            res.top == parts@[0],
            res.bottom == parts@[1],
    {
        Halves { top: parts[0], bottom: parts[1] }
    }

    /// Splits the screen: up to ten lines for the bars and the rest below.
    pub fn of(area: Area) -> (res: Halves)
        ensures
            res.top == halves_of(area).0,
            res.bottom == halves_of(area).1,
            res.top.within(area) && res.bottom.within(area),
            res.top.y + res.top.height <= res.bottom.y,
            res.top.height <= 10,
    {
        let parts = split(area, Direction::Vertical, halves_wanted(), 0, 0);
        assert(area.inner(0) == area);
        Halves::from_parts(&parts)
    }

    /// Splits the halves: the upper into columns for the bars, the lower into the
    /// table and the line below it, which has a left part, where a search is typed
    /// behind its prompt, and a right part.
    pub fn arrange(self, cpu_count: usize) -> (res: Screen)
        requires
            bars_per_column(self.top.height) > 0,
        ensures
            res.cpus@.len() == columns_for(
                cpu_count as nat,
                bars_per_column(self.top.height) as nat,
            ),
            forall|i: int|
                0 <= i < res.cpus@.len() ==> (#[trigger] res.cpus@[i]).within(
                    self.top.inner(CPU_MARGIN),
                ) && res.cpus@[i].y == self.top.inner(CPU_MARGIN).y && res.cpus@[i].height
                    == self.top.inner(CPU_MARGIN).height,
            columns_of(
                self.top.inner(CPU_MARGIN),
                Direction::Horizontal,
                CPU_SPACING,
                CPU_COLUMN_WIDTH,
                res.cpus@,
            ),
            res.table == below_of(self.bottom).0,
            res.modeline_left == modeline_of(below_of(self.bottom).1).0,
            res.modeline_right == modeline_of(below_of(self.bottom).1).1,
            res.search_prompt == search_of(res.modeline_left).0,
            res.search_term == search_of(res.modeline_left).1,
            res.table.within(self.bottom),
            res.modeline_left.within(self.bottom) && res.modeline_right.within(self.bottom),
            res.search_prompt.within(res.modeline_left),
            res.search_term.within(res.modeline_left),
            res.table.y + res.table.height <= res.modeline_left.y,
            res.modeline_left.x + res.modeline_left.width <= res.modeline_right.x,
            res.search_prompt.x + res.search_prompt.width <= res.search_term.x,
    {
        let below = split(self.bottom, Direction::Vertical, below_wanted(), 1, 0);
        assert(self.bottom.inner(0) == self.bottom);
        let line = split(below[1], Direction::Horizontal, modeline_wanted(), 0, 0);
        let search = split(line[0], Direction::Horizontal, search_wanted(), 0, 0);
        assert(below@[1].inner(0) == below@[1]);
        assert(line@[0].inner(0) == line@[0]);
        let columns = cpu_columns(cpu_count, cpu_per_column(self.top.height));
        let wanted = columns_wanted(columns);
        let ghost wishes = wanted@;
        let cpus = split(self.top, Direction::Horizontal, wanted, CPU_SPACING, CPU_MARGIN);
        proof {
            if wishes.len() > 0 {
                assert(wishes[0] == Constraint::Max(CPU_COLUMN_WIDTH));
                assert(column_wish(wishes) == Some(CPU_COLUMN_WIDTH));
            }
        }
        Screen::from_parts(cpus, &below, &line, &search)
    }
}

impl Screen {
    /// The screen, from the columns of bars, the parts of the lower half, those of the
    /// line below the table, and those of its left part.
    pub fn from_parts(
        cpus: Vec<Area>,
        below: &Vec<Area>,
        line: &Vec<Area>,
        search: &Vec<Area>,
    ) -> (res: Screen)
        requires
            below@.len() == 2,
            line@.len() == 2,
            search@.len() == 2,
        ensures
            res.cpus@ == cpus@,
            res.table == below@[0],
            res.modeline_left == line@[0],
            res.modeline_right == line@[1],
            res.search_prompt == search@[0],
            res.search_term == search@[1],
    {
        Screen {
            cpus,
            table: below[0],
            modeline_left: line[0],
            modeline_right: line[1],
            search_prompt: search[0],
            search_term: search[1],
        }
    }
}

/// An area moves down by so many lines, stopping where it would leave the count at either
/// end, and stays as large as it is. One that reaches beyond the count to the right moves
/// back to it; else it stays where it is.
pub proof fn an_area_moves_down(area: Area, lines: i32, res: Area)
    requires
        call_ensures(Area::move_down, (area, lines), res),
    ensures
        res.width == area.width && res.height == area.height,
        area.y + lines < 0 ==> res.y == 0,
        0 <= area.y + lines && area.y + lines + area.height <= 0xFFFF ==> res.y == area.y + lines,
        0 <= area.y + lines && area.y + lines + area.height > 0xFFFF ==> res.y + res.height
            == 0xFFFF,
        area.x + area.width <= 0xFFFF ==> res.x == area.x,
        area.x + area.width > 0xFFFF ==> res.x + res.width == 0xFFFF,
{
}

/// A column has room for the lines between the borders, and never for more than eight.
pub proof fn a_column_has_at_most_eight_bars(height: u16, res: usize)
    requires
        call_ensures(cpu_per_column, (height,), res),
    ensures
        height <= 2 ==> res == 0,
        2 < height <= 10 ==> res == height - 2,
        height > 10 ==> res == 8,
{
}

/// There are as many columns as the bars need, and no more: all of them hold the bars,
/// and one less does not.
pub proof fn no_column_is_without_bars(cpu_count: usize, per_column: usize, res: usize)
    requires
        call_ensures(cpu_columns, (cpu_count, per_column), res),
        per_column > 0,
    ensures
        res * per_column >= cpu_count,
        res > 0 ==> (res - 1) * per_column < cpu_count,
{
    let (n, d) = (cpu_count as int, per_column as int);
    vstd::arithmetic::div_mod::lemma_fundamental_div_mod(n, d);
    let q = n / d;
    assert(q * d == d * q) by (nonlinear_arith);
    assert((q + 1) * d == d * q + d) by (nonlinear_arith);
    assert((q - 1) * d == d * q - d) by (nonlinear_arith);
}

/// The screen is split below its tenth line, or at its end where it has fewer. Both
/// halves are as wide as the screen, and together they are the screen.
pub proof fn the_halves_are_the_screen(area: Area, res: Halves)
    requires
        call_ensures(Halves::of, (area,), res),
        area.y + area.height <= 0xFFFF,
    ensures
        res.top.height == if area.height < 10 {
            area.height
        } else {
            10
        },
        res.top.y == area.y,
        res.bottom.y == area.y + res.top.height,
        res.top.height + res.bottom.height == area.height,
        res.top.x == area.x && res.top.width == area.width,
        res.bottom.x == area.x && res.bottom.width == area.width,
{
}

/// In a lower half of at least twelve lines, the last line is for the mode and the
/// search, the line above it stays empty, and the table has the rest. The left part of
/// the last line has half of it, and one place more where it is uneven; in it eight
/// places are for the prompt and the rest for the term, where there are nine.
pub proof fn the_table_has_the_lower_half(halves: Halves, cpu_count: usize, res: Screen)
    requires
        call_ensures(Halves::arrange, (halves, cpu_count), res),
        halves.bottom.y + halves.bottom.height <= 0xFFFF,
        halves.bottom.x + halves.bottom.width <= 0xFFFF,
        halves.bottom.height >= 12,
    ensures
        ({
            let (bottom, table) = (halves.bottom, res.table);
            let (left, right) = (res.modeline_left, res.modeline_right);
            &&& table.x == bottom.x && table.width == bottom.width
            &&& table.y == bottom.y && table.height == bottom.height - 2
            &&& left.y == bottom.y + bottom.height - 1 && left.height == 1
            &&& right.y == left.y && right.height == 1
            &&& left.x == bottom.x && right.x == left.x + left.width
            &&& left.width + right.width == bottom.width
            &&& right.width <= left.width <= right.width + 1
            &&& left.width >= 9 ==> {
                &&& res.search_prompt.x == left.x && res.search_prompt.width == 8
                &&& res.search_term.x == left.x + 8 && res.search_term.width == left.width - 8
            }
            &&& res.search_prompt.y == left.y && res.search_term.y == left.y
        }),
{
    let line = below_of(halves.bottom).1;
    assert(line.y == halves.bottom.y + halves.bottom.height - 1);
    assert(line.width == halves.bottom.width);
}

/// In an upper half with room for all of them, the columns of bars are 32 places wide and
/// two apart, one place inside the border. There are as many as the bars need.
pub proof fn columns_with_room_have_their_width(
    halves: Halves,
    cpu_count: usize,
    res: Screen,
    i: int,
)
    requires
        call_ensures(Halves::arrange, (halves, cpu_count), res),
        halves.top.height >= 3,
        halves.top.x + halves.top.width <= 0xFFFF,
        halves.top.y + halves.top.height <= 0xFFFF,
        halves.top.width >= 34 * res.cpus@.len(),
        0 <= i < res.cpus@.len(),
    ensures
        res.cpus@[i].x == halves.top.x + 1 + 34 * i,
        res.cpus@[i].width == 32,
        res.cpus@[i].y == halves.top.y + 1,
        res.cpus@[i].height == halves.top.height - 2,
        ({
            let bars: int = if halves.top.height > 10 {
                8
            } else {
                halves.top.height - 2
            };
            (res.cpus@.len() - 1) * bars < cpu_count <= res.cpus@.len() * bars
        }),
{
    let inner = halves.top.inner(CPU_MARGIN);
    let n = res.cpus@.len() as int;
    assert(inner.x == halves.top.x + 1 && inner.width == halves.top.width - 2);
    assert(n * 32 + (n - 1) * 2 == 34 * n - 2) by (nonlinear_arith);
    assert(columns_length(n as nat, 32, 2) == n * 32 + (n - 1) * 2);
    assert(columns_length(n as nat, 32, 2) <= inner.counted(Direction::Horizontal));
    assert(i * (CPU_COLUMN_WIDTH + CPU_SPACING) == 34 * i) by (nonlinear_arith)
        requires
            CPU_COLUMN_WIDTH == 32,
            CPU_SPACING == 2,
    ;
    assert(res.cpus@[i] == inner.cut(Direction::Horizontal, inner.x + 34 * i, 32));
    let (c, d) = (cpu_count as int, bars_per_column(halves.top.height));
    vstd::arithmetic::div_mod::lemma_fundamental_div_mod(c, d);
    let q = c / d;
    assert(q * d == d * q) by (nonlinear_arith);
    assert((q + 1) * d == d * q + d) by (nonlinear_arith);
    assert((q - 1) * d == d * q - d) by (nonlinear_arith);
}

/// In a lower half of less than twelve lines the table has all of them but one, and no
/// line is left for the mode and the search.
pub proof fn the_table_goes_before_the_line_below(
    halves: Halves,
    cpu_count: usize,
    res: Screen,
)
    requires
        call_ensures(Halves::arrange, (halves, cpu_count), res),
        halves.bottom.y + halves.bottom.height <= 0xFFFF,
        0 < halves.bottom.height < 12,
    ensures
        res.table.y == halves.bottom.y,
        res.table.height == halves.bottom.height - 1,
        res.modeline_left.height == 0 && res.modeline_right.height == 0,
        res.modeline_left.y == halves.bottom.y + halves.bottom.height,
{
}

/// Where the left part of the line has less than nine places, one is for the term and the
/// rest for the prompt.
pub proof fn the_term_goes_before_the_prompt(halves: Halves, cpu_count: usize, res: Screen)
    requires
        call_ensures(Halves::arrange, (halves, cpu_count), res),
        halves.bottom.x + halves.bottom.width <= 0xFFFF,
        0 < res.modeline_left.width < 9,
    ensures
        res.search_prompt.width == res.modeline_left.width - 1,
        res.search_term.width == 1,
        res.search_term.x == res.search_prompt.x + res.search_prompt.width,
{
}

} // verus!
