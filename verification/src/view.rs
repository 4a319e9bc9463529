//! What the table and the line below it show.

use bit_vec::BitVec;
use vstd::prelude::*;
use vstd::string::StringExecFns;

use crate::number::Single;
use crate::process::ProcessData;
use crate::state::ProcessView;
use crate::style::{grey_out, greyed, Color, Style};
use crate::table::{bit_at, bits};
use crate::text::{
    chars_of, decimal, decimal_digits, digits_write_their_number, lemma_repeated_at, repeat,
    repeated, repeating_multiplies, same_chars, writes,
};
use crate::tree::TreePrefix;

verus! {

/// A hundredth: what is below it counts as nothing.
pub const HUNDREDTH_BITS: u32 = 0x3C23_D70A;

/// The text of a number of bytes.
pub uninterp spec fn size_text(bytes: u64) -> Seq<char>;

/// `bytesize::ByteSize` shown in IEC units. Below a kibibyte it is the number and
/// the letter B; above, the number goes through floating point and has only a name.
#[verifier::external_body]
fn iec_text(bytes: u64) -> (res: String)
    ensures
        res@ == size_text(bytes),
        bytes < 1024 ==> res@ == decimal_digits(bytes as nat) + " B"@,
{
    bytesize::ByteSize::b(bytes).display().iec().to_string()
}

impl TreePrefix {
    /// The mark before the name of a process in the tree.
    pub open spec fn mark(self) -> Seq<char> {
        match self {
            TreePrefix::FirstChild => ""@,
            TreePrefix::MiddleChild => " ├─"@,
            TreePrefix::LastChild => " └─"@,
        }
    }

    /// The mark before the name of a process in the tree.
    pub fn text(&self) -> (res: &'static str)
        ensures
            res@ == self.mark(),
    {
        match self {
            TreePrefix::FirstChild => "",
            TreePrefix::MiddleChild => " ├─",
            TreePrefix::LastChild => " └─",
        }
    }
}

/// What a cell shows: a text, or a number to be printed as a percentage with two
/// places.
#[derive(Debug)]
pub enum Content {
    Text(String),
    Percent(Single),
}

/// What a cell shows.
pub enum ContentModel {
    Text(Seq<char>),
    Percent(Single),
}

impl View for Content {
    type V = ContentModel;

    open spec fn view(&self) -> ContentModel {
        match self {
            Content::Text(text) => ContentModel::Text(text@),
            Content::Percent(number) => ContentModel::Percent(*number),
        }
    }
}

/// A cell of the table.
#[derive(Debug)]
pub struct TableCell {
    pub content: Content,
    pub style: Style,
}

/// A cell of the table.
pub struct CellModel {
    pub content: ContentModel,
    pub style: Style,
}

impl View for TableCell {
    type V = CellModel;

    open spec fn view(&self) -> CellModel {
        CellModel { content: self.content@, style: self.style }
    }
}

/// A line of the table.
#[derive(Debug)]
pub struct Row {
    pub cells: Vec<TableCell>,
    pub style: Style,
}

/// A line of the table.
#[verifier::ext_equal]
pub struct RowModel {
    pub cells: Seq<CellModel>,
    pub style: Style,
}

impl View for Row {
    type V = RowModel;

    open spec fn view(&self) -> RowModel {
        RowModel { cells: self.cells@.map_values(|cell: TableCell| cell@), style: self.style }
    }
}

impl Default for Row {
    /// A line with nothing in it.
    fn default() -> (res: Row)
        ensures
            res@ == RowModel::blank(),
    {
        let res = Row { cells: Vec::new(), style: Style::new() };
        assert(res@ =~= RowModel::blank());
        res
    }
}

impl RowModel {
    /// A line with nothing in it.
    pub open spec fn blank() -> RowModel {
        RowModel { cells: Seq::empty(), style: Style::plain() }
    }
}

/// A text in a cell.
pub open spec fn text_cell(text: Seq<char>, style: Style) -> CellModel {
    CellModel { content: ContentModel::Text(text), style }
}

/// A percentage in a cell.
pub open spec fn percent_cell(number: Single, style: Style) -> CellModel {
    CellModel { content: ContentModel::Percent(number), style }
}

/// The name of a process behind the branches that lead to it.
pub open spec fn branch_text(depth: usize, prefix: TreePrefix, name: Seq<char>) -> Seq<char> {
    repeated(
        " │ "@,
        if depth > 2 {
            (depth - 2) as nat
        } else {
            0
        },
    ) + prefix.mark() + " "@ + name
}

/// The style of a name: green for a find.
pub open spec fn name_style(found: Seq<bool>, idx: usize) -> Style {
    if idx < found.len() && found[idx as int] {
        Style::colored(Color::Green)
    } else {
        Style::plain()
    }
}

impl ProcessView {
    /// The cells of the line of a process whose memory is written as `size`. In the
    /// tree they are plain; else what counts for little is greyed out and the name
    /// of a find is green.
    pub open spec fn cells(
        self,
        idx: usize,
        depth: usize,
        prefix: TreePrefix,
        proc: ProcessData,
        size: Seq<char>,
        found: Seq<bool>,
    ) -> Seq<CellModel> {
        let plain = Style::plain();
        let limit = Single { bits: HUNDREDTH_BITS };
        match self {
            ProcessView::Tree => seq![
                text_cell(decimal_digits(proc.pid as nat), plain),
                text_cell(proc.user@, plain),
                percent_cell(proc.cpu_usage, plain),
                text_cell(size, plain),
                percent_cell(proc.memory_percent, plain),
                text_cell(branch_text(depth, prefix, proc.name@), plain),
            ],
            ProcessView::Flat => seq![
                text_cell(decimal_digits(proc.pid as nat), plain),
                text_cell(proc.user@, greyed(proc.user@ == "root"@)),
                percent_cell(proc.cpu_usage, greyed(proc.cpu_usage.lt(limit))),
                text_cell(size, greyed(proc.memory_usage == 0)),
                percent_cell(proc.memory_percent, greyed(proc.memory_percent.lt(limit))),
                text_cell(proc.name@, name_style(found, idx)),
            ],
        }
    }

    /// The line of a process.
    pub fn make_row(
        &self,
        idx: usize,
        depth: usize,
        prefix: &TreePrefix,
        proc: &ProcessData,
        search_matches: &BitVec<u32>,
    ) -> (res: Row)
        ensures
            res@ == (RowModel {
                cells: self.cells(
                    idx,
                    depth,
                    *prefix,
                    *proc,
                    size_text(proc.memory_usage),
                    bits(*search_matches),
                ),
                style: Style::plain(),
            }),
    {
        let size = iec_text(proc.memory_usage);
        self.make_row_with(idx, depth, prefix, proc, size, search_matches)
    }

    /// The line of a process whose memory is written as `size`.
    pub fn make_row_with(
        &self,
        idx: usize,
        depth: usize,
        prefix: &TreePrefix,
        proc: &ProcessData,
        size: String,
        search_matches: &BitVec<u32>,
    ) -> (res: Row)
        ensures
            res@ == (RowModel {
                cells: self.cells(idx, depth, *prefix, *proc, size@, bits(*search_matches)),
                style: Style::plain(),
            }),
    {
        let ghost wanted = self.cells(idx, depth, *prefix, *proc, size@, bits(*search_matches));
        let mut cells: Vec<TableCell> = Vec::new();
        let limit = Single { bits: HUNDREDTH_BITS };
        match self {
            ProcessView::Tree => {
                cells.push(text(decimal(proc.pid as u64), Style::new()));
                cells.push(text(proc.user.clone(), Style::new()));
                cells.push(percent(proc.cpu_usage, Style::new()));
                cells.push(text(size, Style::new()));
                cells.push(percent(proc.memory_percent, Style::new()));
                cells.push(text(branch(depth, prefix, proc.name.as_str()), Style::new()));
            },
            ProcessView::Flat => {
                let root = same_chars(&chars_of(proc.user.as_str()), &chars_of("root"));
                let name_style = match bit_at(search_matches, idx) {
                    Some(true) => Style::new().fg(Color::Green),
                    _ => Style::new(),
                };
                cells.push(text(decimal(proc.pid as u64), Style::new()));
                cells.push(text(proc.user.clone(), grey_out(root)));
                cells.push(percent(proc.cpu_usage, grey_out(proc.cpu_usage.less_than(limit))));
                cells.push(text(size, grey_out(proc.memory_usage == 0)));
                cells.push(
                    percent(proc.memory_percent, grey_out(proc.memory_percent.less_than(limit))),
                );
                cells.push(text(proc.name.clone(), name_style));
            },
        }
        let res = Row { cells, style: Style::new() };
        assert(res@.cells =~= wanted);
        res
    }
}

/// A text in a cell.
fn text(content: String, style: Style) -> (res: TableCell)
    ensures
        res@ == text_cell(content@, style),
{
    TableCell { content: Content::Text(content), style }
}

/// A percentage in a cell.
fn percent(number: Single, style: Style) -> (res: TableCell)
    ensures
        res@ == percent_cell(number, style),
{
    TableCell { content: Content::Percent(number), style }
}

/// The name of a process behind the branches that lead to it.
pub fn branch(depth: usize, prefix: &TreePrefix, name: &str) -> (res: String)
    ensures
        res@ == branch_text(depth, *prefix, name@),
{
    let above: usize = if depth > 2 {
        depth - 2
    } else {
        0
    };
    let mut res = repeat(" │ ", above);
    res.append(prefix.text());
    res.append(" ");
    res.append(name);
    res
}

/// Whether a line shows a process: its number, its user, what it uses of the processors,
/// its memory as it is written, what that is of the whole, and its name, alone where the
/// processes are shown one below the other, and else behind its branches.
pub open spec fn shows(
    cells: Seq<TableCell>,
    view: ProcessView,
    depth: usize,
    prefix: TreePrefix,
    proc: ProcessData,
    size: Seq<char>,
) -> bool {
    &&& cells.len() == 6
    &&& cells[0].content matches Content::Text(text) && writes(text@, proc.pid as int)
    &&& cells[1].content matches Content::Text(text) && text@ == proc.user@
    &&& cells[2].content == Content::Percent(proc.cpu_usage)
    &&& cells[3].content matches Content::Text(text) && text@ == size
    &&& cells[4].content == Content::Percent(proc.memory_percent)
    &&& cells[5].content matches Content::Text(text) && match view {
        ProcessView::Flat => text@ == proc.name@,
        ProcessView::Tree => leads_to(text@, depth, prefix, proc.name@),
    }
}

/// Whether the cells of a line look as they should. In the tree every cell is plain. One
/// below the other, the user is grey where it is root, a share is grey where it is below
/// a hundredth, memory is grey where there is none, and the name is green where the line
/// is marked; all else is plain.
pub open spec fn looks(
    cells: Seq<TableCell>,
    view: ProcessView,
    proc: ProcessData,
    marked: bool,
) -> bool {
    let plain = Style { fg: None, bg: None, bold: false, rapid_blink: false };
    let grey = Style { fg: Some(Color::DarkGray), ..plain };
    let green = Style { fg: Some(Color::Green), ..plain };
    &&& cells[0].style == plain
    &&& view is Tree ==> {
        &&& cells[1].style == plain && cells[2].style == plain && cells[3].style == plain
        &&& cells[4].style == plain && cells[5].style == plain
    }
    &&& view is Flat ==> {
        &&& cells[1].style == if proc.user@ == "root"@ { grey } else { plain }
        &&& cells[2].style == if below_a_hundredth(proc.cpu_usage.bits) { grey } else { plain }
        &&& cells[3].style == if proc.memory_usage == 0 { grey } else { plain }
        &&& cells[4].style == if below_a_hundredth(proc.memory_percent.bits) { grey } else { plain }
        &&& cells[5].style == if marked { green } else { plain }
    }
}

/// Cells that are as wanted show their process and look as they should.
pub(crate) proof fn lemma_shows(
    row: Row,
    view: ProcessView,
    idx: usize,
    depth: usize,
    prefix: TreePrefix,
    proc: ProcessData,
    size: Seq<char>,
    found: Seq<bool>,
)
    requires
        row@.cells == view.cells(idx, depth, prefix, proc, size, found),
    ensures
        shows(row.cells@, view, depth, prefix, proc, size),
        looks(row.cells@, view, proc, idx < found.len() && found[idx as int]),
{
    let cells = row@.cells;
    assert(cells.len() == 6);
    assert(cells[0] == row.cells@[0]@ && cells[1] == row.cells@[1]@ && cells[2] == row.cells@[2]@
        && cells[3] == row.cells@[3]@ && cells[4] == row.cells@[4]@ && cells[5]
        == row.cells@[5]@);
    digits_write_their_number(Seq::empty(), proc.pid as nat);
    lemma_leads_to(depth, prefix, proc.name@);
}

/// In both views the line of a process shows that process, each thing in its own cell,
/// and what counts for little is grey.
pub proof fn a_line_shows_its_process(
    view: ProcessView,
    idx: usize,
    depth: usize,
    prefix: TreePrefix,
    proc: ProcessData,
    size: String,
    marks: BitVec<u32>,
    res: Row,
)
    requires
        call_ensures(
            ProcessView::make_row_with,
            (&view, idx, depth, &prefix, &proc, size, &marks),
            res,
        ),
    ensures
        shows(res.cells@, view, depth, prefix, proc, size@),
        looks(res.cells@, view, proc, idx < bits(marks).len() && bits(marks)[idx as int]),
        res.style == (Style { fg: None, bg: None, bold: false, rapid_blink: false }),
{
    lemma_shows(res, view, idx, depth, prefix, proc, size@, bits(marks));
}

/// A line that is made from what was measured alone shows the same, with the memory in
/// the words for that many bytes.
pub proof fn a_made_line_shows_its_process(
    view: ProcessView,
    idx: usize,
    depth: usize,
    prefix: TreePrefix,
    proc: ProcessData,
    marks: BitVec<u32>,
    res: Row,
)
    requires
        call_ensures(ProcessView::make_row, (&view, idx, depth, &prefix, &proc, &marks), res),
    ensures
        shows(res.cells@, view, depth, prefix, proc, size_text(proc.memory_usage)),
        looks(res.cells@, view, proc, idx < bits(marks).len() && bits(marks)[idx as int]),
        res.style == (Style { fg: None, bg: None, bold: false, rapid_blink: false }),
{
    lemma_shows(res, view, idx, depth, prefix, proc, size_text(proc.memory_usage), bits(marks));
}

/// The lines of both views agree in what their first five cells hold.
pub proof fn both_views_show_the_same(
    idx: usize,
    depth: usize,
    prefix: TreePrefix,
    proc: ProcessData,
    size: Seq<char>,
    found: Seq<bool>,
    k: int,
)
    requires
        0 <= k < 5,
    ensures
        ProcessView::Flat.cells(idx, depth, prefix, proc, size, found)[k].content
            == ProcessView::Tree.cells(idx, depth, prefix, proc, size, found)[k].content,
{
}

/// Whether a pattern stands for a number below a hundredth: a smaller pattern, or a
/// negative number.
pub open spec fn below_a_hundredth(bits: u32) -> bool {
    bits < 0x3C23_D70A || 0x8000_0000 <= bits <= 0xFF80_0000
}

/// Whether a text leads to a name in the tree: a bar of three characters for each level
/// from the third on, the mark for the place among the siblings, a space, and the name.
/// A top process has no mark, a last child an angle, any other a fork.
pub open spec fn leads_to(
    text: Seq<char>,
    depth: usize,
    prefix: TreePrefix,
    name: Seq<char>,
) -> bool {
    let bars: int = if depth > 2 {
        3 * (depth - 2)
    } else {
        0
    };
    let mark = match prefix {
        TreePrefix::FirstChild => ""@,
        TreePrefix::MiddleChild => " ├─"@,
        TreePrefix::LastChild => " └─"@,
    };
    &&& text.len() == bars + mark.len() + 1 + name.len()
    &&& text.skip(bars) == mark + " "@ + name
    &&& forall|j: int| 0 <= j < bars ==> #[trigger] text[j] == " │ "@[j % 3]
}

proof fn lemma_leads_to(depth: usize, prefix: TreePrefix, name: Seq<char>)
    ensures
        leads_to(branch_text(depth, prefix, name), depth, prefix, name),
{
    let levels: int = if depth > 2 {
        depth - 2
    } else {
        0
    };
    let text = branch_text(depth, prefix, name);
    let bar = " │ "@;
    reveal_strlit(" │ ");
    reveal_strlit(" ");
    repeating_multiplies(bar, levels as nat);
    let lead = repeated(bar, levels as nat);
    assert(lead.len() == 3 * levels);
    assert(text.skip(3 * levels) =~= prefix.mark() + " "@ + name);
    assert forall|j: int| 0 <= j < 3 * levels implies #[trigger] text[j] == bar[j % 3] by {
        lemma_repeated_at(bar, levels as nat, j / 3, j % 3);
        assert(text[j] == lead[j]);
    }
}

/// The branches before the name of a process show its level and its place among its
/// siblings.
pub proof fn branches_lead_to_the_name(depth: usize, prefix: TreePrefix, name: &str, res: String)
    requires
        call_ensures(branch, (depth, &prefix, name), res),
    ensures
        leads_to(res@, depth, prefix, name@),
{
    lemma_leads_to(depth, prefix, name@);
}

/// The mark before the name of a process.
pub proof fn the_marks_of_the_tree(prefix: TreePrefix, res: &'static str)
    requires
        call_ensures(TreePrefix::text, (&prefix,), res),
    ensures
        prefix is FirstChild ==> res@ == ""@,
        prefix is MiddleChild ==> res@ == " ├─"@,
        prefix is LastChild ==> res@ == " └─"@,
{
}

} // verus!
