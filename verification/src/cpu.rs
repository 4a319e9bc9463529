//! The bars that show what each processor does.

use vstd::prelude::*;
use vstd::string::StringExecFns;

use crate::layout::columns_for;
use crate::number::Single;
use crate::style::Color;
use crate::text::{
    chars_of, decimal, decimal_digits, digits_write_their_number, lemma_decimal_length,
    lemma_repeated_at, repeat, repeated, writes,
};

verus! {

/// A quarter.
pub const QUARTER_BITS: u32 = 0x3E80_0000;

/// A half.
pub const HALF_BITS: u32 = 0x3F00_0000;

/// Three quarters.
pub const THREE_QUARTERS_BITS: u32 = 0x3F40_0000;

/// The columns beside the bar: number, brackets and spaces.
pub const FRAME_WIDTH: u16 = 5;

impl Single {
    /// Whether the number is not below the limit.
    pub open spec fn reaches(self, limit: u32) -> bool {
        !self.nan() && !self.lt(Single { bits: limit })
    }

    /// Whether the number is not below the limit.
    pub fn is_at_least(self, limit: u32) -> (res: bool)
        ensures
            res == self.reaches(limit),
    {
        !self.is_nan() && !self.less_than(Single { bits: limit })
    }
}

/// The colour for a share of a processor: the more it does, the louder.
pub open spec fn usage_tone(usage: Single) -> Color {
    if usage.reaches(THREE_QUARTERS_BITS) {
        Color::White
    } else if usage.reaches(HALF_BITS) {
        Color::Red
    } else if usage.reaches(QUARTER_BITS) {
        Color::Green
    } else {
        Color::DarkGray
    }
}

/// The colour for a share of a processor.
pub fn usage_color(usage: Single) -> (res: Color)
    ensures
        res == usage_tone(usage),
{
    if usage.is_at_least(THREE_QUARTERS_BITS) {
        Color::White
    } else if usage.is_at_least(HALF_BITS) {
        Color::Red
    } else if usage.is_at_least(QUARTER_BITS) {
        Color::Green
    } else {
        Color::DarkGray
    }
}

/// The line of one processor.
#[derive(Debug)]
pub struct CpuLine {
    pub label: String,
    pub bar: String,
    pub percentage: String,
    pub color: Color,
}

/// The number of a processor, on the right of two places, and a space.
pub open spec fn label_of(n: nat) -> Seq<char> {
    let digits = decimal_digits(n);
    if digits.len() < 2 {
        " "@ + digits + " "@
    } else {
        digits + " "@
    }
}

/// The marks of a bar: as many as are wanted and fit beside the percentage.
pub open spec fn marks(width: u16, wanted: nat, taken: nat) -> int {
    let room = width - FRAME_WIDTH - taken;
    if wanted <= room {
        wanted as int
    } else {
        room
    }
}

/// A bar: marks, and space up to the percentage.
pub open spec fn bar_of(width: u16, wanted: nat, taken: nat) -> Seq<char> {
    let filled = marks(width, wanted, taken);
    repeated("|"@, filled as nat) + repeated(
        " "@,
        (width - FRAME_WIDTH - taken - filled) as nat,
    )
}

/// The number of a processor, on the right of two places, and a space.
pub fn cpu_label(n: usize) -> (res: String)
    ensures
        res@ == label_of(n as nat),
{
    let digits = decimal(n as u64);
    let mut res = if chars_of(digits.as_str()).len() < 2 {
        " ".to_owned()
    } else {
        String::new()
    };
    res.append(digits.as_str());
    res.append(" ");
    proof {
        assert(res@ =~= label_of(n as nat));
    }
    res
}

/// The places for the bar and the percentage in a column of the given width.
pub fn bar_width(width: u16) -> (res: usize)
    requires
        width >= FRAME_WIDTH,
    ensures
        res == width - FRAME_WIDTH,
{
    (width - FRAME_WIDTH) as usize
}

/// The line of processor number `cpu_idx` in a column of the given width, with so
/// many marks wanted and the percentage behind them.
pub fn cpu_line(
    cpu_idx: usize,
    width: u16,
    wanted: usize,
    percentage: String,
    usage: Single,
) -> (res: CpuLine)
    requires
        width >= FRAME_WIDTH,
        percentage@.len() <= width - FRAME_WIDTH,
    ensures
        res.label@ == label_of(cpu_idx as nat),
        res.bar@ == bar_of(width, wanted as nat, percentage@.len()),
        res.percentage@ == percentage@,
        res.color == usage_tone(usage),
{
    let room: usize = bar_width(width) - chars_of(percentage.as_str()).len();
    let filled: usize = if wanted <= room {
        wanted
    } else {
        room
    };
    let mut bar = repeat("|", filled);
    let space = repeat(" ", room - filled);
    bar.append(space.as_str());
    CpuLine { label: cpu_label(cpu_idx), bar, percentage, color: usage_color(usage) }
}

/// The processors of a column: the first of them, and the first behind them.
pub open spec fn column_range(column: nat, per_column: nat, count: nat) -> (nat, nat) {
    let start = column * per_column;
    (
        start,
        if start + per_column < count {
            start + per_column
        } else {
            count
        },
    )
}

/// The processors of a column.
pub fn cpu_range(column: usize, per_column: usize, count: usize) -> (res: (usize, usize))
    requires
        per_column > 0,
        column < columns_for(count as nat, per_column as nat),
    ensures
        res.0 == column_range(column as nat, per_column as nat, count as nat).0,
        res.1 == column_range(column as nat, per_column as nat, count as nat).1,
        res.0 < res.1 <= count,
{
    proof {
        lemma_column_starts(column as nat, per_column as nat, count as nat);
    }
    let start: usize = column * per_column;
    if count - start > per_column {
        (start, start + per_column)
    } else {
        (start, count)
    }
}

proof fn lemma_column_starts(column: nat, per_column: nat, count: nat)
    requires
        per_column > 0,
        column < columns_for(count, per_column),
    ensures
        column * per_column < count,
{
    let q = count / per_column;
    let r = count % per_column;
    vstd::arithmetic::div_mod::lemma_fundamental_div_mod(count as int, per_column as int);
    if r != 0 {
        assert(column * per_column <= q * per_column) by (nonlinear_arith)
            requires
                column <= q,
        ;
        assert(q * per_column == per_column * q) by (nonlinear_arith);
    } else {
        assert(column * per_column <= (q - 1) * per_column) by (nonlinear_arith)
            requires
                column <= q - 1,
        ;
        assert((q - 1) * per_column == per_column * q - per_column) by (nonlinear_arith);
    }
}

/// The bar and the percentage fill their places.
pub proof fn a_bar_fills_its_line(width: u16, wanted: nat, taken: nat)
    requires
        width >= FRAME_WIDTH,
        taken <= width - FRAME_WIDTH,
    ensures
        bar_of(width, wanted, taken).len() + taken == width - FRAME_WIDTH,
        0 <= marks(width, wanted, taken) <= wanted,
{
    let filled = marks(width, wanted, taken);
    reveal_strlit("|");
    reveal_strlit(" ");
    crate::text::repeating_multiplies("|"@, filled as nat);
    crate::text::repeating_multiplies(" "@, (width - FRAME_WIDTH - taken - filled) as nat);
}

/// Every processor stands in one column, and in no other.
pub proof fn every_processor_has_one_column(cpu: nat, column: nat, per_column: nat, count: nat)
    requires
        per_column > 0,
        cpu < count,
        column < columns_for(count, per_column),
    ensures
        cpu / per_column < columns_for(count, per_column),
        (column_range(column, per_column, count).0 <= cpu < column_range(
            column,
            per_column,
            count,
        ).1) == (column == cpu / per_column),
{
    let c = cpu / per_column;
    let r = cpu % per_column;
    vstd::arithmetic::div_mod::lemma_fundamental_div_mod(cpu as int, per_column as int);
    vstd::arithmetic::div_mod::lemma_fundamental_div_mod(count as int, per_column as int);
    vstd::arithmetic::div_mod::lemma_div_is_ordered(cpu as int, count as int, per_column as int);
    assert(c * per_column == per_column * c) by (nonlinear_arith);
    if count % per_column == 0 && c == count / per_column {
        assert(cpu >= count);
    }
    if column < c {
        assert((column + 1) * per_column <= c * per_column) by (nonlinear_arith)
            requires
                column + 1 <= c,
        ;
        assert((column + 1) * per_column == column * per_column + per_column) by (nonlinear_arith);
    } else if column > c {
        assert((c + 1) * per_column <= column * per_column) by (nonlinear_arith)
            requires
                c + 1 <= column,
        ;
        assert((c + 1) * per_column == c * per_column + per_column) by (nonlinear_arith);
    }
}

/// A share below a quarter, and what is no share, are shown alike.
pub proof fn little_use_is_dark(usage: Single)
    requires
        usage.nan() || usage.lt(Single { bits: QUARTER_BITS }),
    ensures
        usage_tone(usage) == Color::DarkGray,
{
}

/// The colour goes by the pattern of the share: below a quarter, and for what is negative
/// or no number, it is dark grey, below a half green, below three quarters red, and from
/// there on white.
pub proof fn the_louder_the_more_is_used(usage: Single, res: Color)
    requires
        call_ensures(usage_color, (usage,), res),
    ensures
        usage.bits < 0x3E80_0000 ==> res == Color::DarkGray,
        0x3E80_0000 <= usage.bits < 0x3F00_0000 ==> res == Color::Green,
        0x3F00_0000 <= usage.bits < 0x3F40_0000 ==> res == Color::Red,
        0x3F40_0000 <= usage.bits <= 0x7F80_0000 ==> res == Color::White,
        0x7F80_0000 < usage.bits ==> res == Color::DarkGray,
{
}

/// The label of a processor writes its number on the right of two places, with a space
/// behind.
pub proof fn a_label_writes_its_number(n: usize, res: String)
    requires
        call_ensures(cpu_label, (n,), res),
    ensures
        res@.len() >= 3 && res@[res@.len() - 1] == ' ',
        n < 10 ==> res@.len() == 3 && res@[0] == ' ' && writes(res@.subrange(1, 2), n as int),
        n >= 10 ==> writes(res@.drop_last(), n as int),
{
    reveal_strlit(" ");
    let digits = decimal_digits(n as nat);
    digits_write_their_number(digits, n as nat);
    lemma_decimal_length(n as nat);
    if n < 10 {
        assert(res@.subrange(1, 2) =~= digits);
    } else {
        assert(res@.drop_last() =~= digits);
    }
}

proof fn lemma_bar(width: u16, wanted: nat, taken: nat)
    requires
        width >= 5,
        taken <= width - 5,
    ensures
        ({
            let bar = bar_of(width, wanted, taken);
            &&& bar.len() + taken == width - 5
            &&& forall|i: int|
                0 <= i < bar.len() ==> #[trigger] bar[i] == if i < wanted {
                    '|'
                } else {
                    ' '
                }
        }),
{
    a_bar_fills_its_line(width, wanted, taken);
    let bar = bar_of(width, wanted, taken);
    let filled = marks(width, wanted, taken);
    reveal_strlit("|");
    reveal_strlit(" ");
    crate::text::repeating_multiplies("|"@, filled as nat);
    crate::text::repeating_multiplies(" "@, (width - FRAME_WIDTH - taken - filled) as nat);
    assert forall|i: int| 0 <= i < bar.len() implies #[trigger] bar[i] == if i < wanted {
        '|'
    } else {
        ' '
    } by {
        if i < filled {
            lemma_repeated_at("|"@, filled as nat, i, 0);
        } else {
            lemma_repeated_at(
                " "@,
                (width - FRAME_WIDTH - taken - filled) as nat,
                i - filled,
                0,
            );
        }
    }
}

/// The bar of a processor begins with as many marks as are wanted and fit, and has space
/// behind them. With the percentage it fills what five places of the column leave.
pub proof fn marks_come_first(
    cpu_idx: usize,
    width: u16,
    wanted: usize,
    percentage: String,
    usage: Single,
    res: CpuLine,
    i: int,
)
    requires
        call_ensures(cpu_line, (cpu_idx, width, wanted, percentage, usage), res),
        width >= 5,
        percentage@.len() <= width - 5,
    ensures
        res.bar@.len() + percentage@.len() == width - 5,
        0 <= i < res.bar@.len() ==> res.bar@[i] == if i < wanted {
            '|'
        } else {
            ' '
        },
        res.percentage@ == percentage@,
        res.label@.len() >= 3,
        cpu_idx >= 10 ==> writes(res.label@.drop_last(), cpu_idx as int),
        cpu_idx < 10 ==> writes(res.label@.subrange(1, 2), cpu_idx as int),
        0x3F40_0000 <= usage.bits <= 0x7F80_0000 ==> res.color == Color::White,
        0x3F00_0000 <= usage.bits < 0x3F40_0000 ==> res.color == Color::Red,
        0x3E80_0000 <= usage.bits < 0x3F00_0000 ==> res.color == Color::Green,
        usage.bits < 0x3E80_0000 || 0x7F80_0000 < usage.bits ==> res.color == Color::DarkGray,
{
    lemma_bar(width, wanted as nat, percentage@.len());
    reveal_strlit(" ");
    let digits = decimal_digits(cpu_idx as nat);
    digits_write_their_number(digits, cpu_idx as nat);
    lemma_decimal_length(cpu_idx as nat);
    if cpu_idx < 10 {
        assert(res.label@.subrange(1, 2) =~= digits);
    } else {
        assert(res.label@.drop_last() =~= digits);
    }
}

/// The first column begins with the first processor. A column has as many as fit, and one
/// that is not full ends with the last processor.
pub proof fn columns_are_filled(
    column: usize,
    per_column: usize,
    count: usize,
    here: (usize, usize),
)
    requires
        call_ensures(cpu_range, (column, per_column, count), here),
        per_column > 0,
        column * per_column < count,
    ensures
        column == 0 ==> here.0 == 0,
        here.0 < here.1 <= count,
        here.1 - here.0 <= per_column,
        here.1 < count ==> here.1 - here.0 == per_column,
{
    if column == 0 {
        assert(0 * per_column == 0) by (nonlinear_arith);
    }
}

/// Each column goes on where the one before it ends.
pub proof fn columns_go_on_where_others_end(
    column: usize,
    per_column: usize,
    count: usize,
    here: (usize, usize),
    next: (usize, usize),
)
    requires
        per_column > 0,
        (column + 1) * per_column < count,
        call_ensures(cpu_range, (column, per_column, count), here),
        call_ensures(cpu_range, ((column + 1) as usize, per_column, count), next),
        column < usize::MAX,
    ensures
        next.0 == here.1,
{
    assert((column + 1) * per_column == column * per_column + per_column) by (nonlinear_arith);
}

} // verus!
