//! What the process table remembers between two drawings: where it is scrolled
//! to, which line is selected, and which lines the search has found.

use bit_vec::BitVec;
use vstd::prelude::*;

verus! {

/// `bit_vec::BitVec`, a vector of bits.
#[verifier::external_type_specification]
#[verifier::external_body]
#[verifier::reject_recursive_types(B)]
pub struct ExBitVec<B>(bit_vec::BitVec<B>);

/// The bits of a vector, first to last.
pub uninterp spec fn bits(v: BitVec<u32>) -> Seq<bool>;

/// `bit_vec::BitVec::default`: no bits.
#[verifier::external_body]
pub(crate) fn no_bits() -> (res: BitVec<u32>)
    ensures
        bits(res) == Seq::<bool>::empty(),
{
    BitVec::default()
}

/// `bit_vec::BitVec::from_iter`: the given bits.
#[verifier::external_body]
pub(crate) fn collect_bits(flags: Vec<bool>) -> (res: BitVec<u32>)
    ensures
        bits(res) == flags@,
{
    flags.into_iter().collect()
}

/// `bit_vec::BitVec::get`: the bit at `i`, where there is one.
#[verifier::external_body]
pub(crate) fn bit_at(v: &BitVec<u32>, i: usize) -> (res: Option<bool>)
    ensures
        res == if i < bits(*v).len() {
            Some(bits(*v)[i as int])
        } else {
            None
        },
{
    v.get(i)
}

/// How far the table is scrolled and which of its lines is selected.
#[derive(Debug, Clone, Copy, PartialEq, Eq, Structural)]
pub struct TableState {
    pub offset: usize,
    pub selected: Option<usize>,
}

impl Default for TableState {
    /// Not scrolled, nothing selected.
    fn default() -> (res: TableState)
        ensures
            res == (TableState { offset: 0, selected: None }),
    {
        TableState { offset: 0, selected: None }
    }
}

impl TableState {
    /// The line below the selected one; the first line where none was selected.
    /// There is no line below the largest number.
    pub open spec fn next(self) -> TableState {
        TableState {
            selected: match self.selected {
                None => Some(0),
                Some(i) => Some(
                    if i < usize::MAX {
                        (i + 1) as usize
                    } else {
                        i
                    },
                ),
            },
            ..self
        }
    }

    /// The line above the selected one, or the first; the largest number where none
    /// was selected.
    pub open spec fn previous(self) -> TableState {
        TableState {
            selected: match self.selected {
                None => Some(usize::MAX),
                Some(i) => Some(
                    if i > 0 {
                        (i - 1) as usize
                    } else {
                        i
                    },
                ),
            },
            ..self
        }
    }

    /// `ratatui::widgets::TableState::select_next`: one line down, or to the first.
    #[verifier::external_body]
    fn after_next(self) -> (res: TableState)
        ensures
            res == self.next(),
    {
        let mut table = ratatui::widgets::TableState::new().with_offset(
            self.offset,
        ).with_selected(self.selected);
        table.select_next();
        TableState { offset: table.offset(), selected: table.selected() }
    }

    /// `ratatui::widgets::TableState::select_previous`: one line up, or to the
    /// largest number.
    #[verifier::external_body]
    fn after_previous(self) -> (res: TableState)
        ensures
            res == self.previous(),
    {
        let mut table = ratatui::widgets::TableState::new().with_offset(
            self.offset,
        ).with_selected(self.selected);
        table.select_previous();
        TableState { offset: table.offset(), selected: table.selected() }
    }

    /// `ratatui::widgets::TableState::select_first`: to the first line.
    #[verifier::external_body]
    fn after_first(self) -> (res: TableState)
        ensures
            res == (TableState { selected: Some(0), ..self }),
    {
        let mut table = ratatui::widgets::TableState::new().with_offset(
            self.offset,
        ).with_selected(self.selected);
        table.select_first();
        TableState { offset: table.offset(), selected: table.selected() }
    }

    /// The selected line.
    pub fn selected(&self) -> (res: Option<usize>)
        ensures
            res == self.selected,
    {
        self.selected
    }

    /// Another line selected, or none; the table stays where it is scrolled to.
    pub fn with_selected(self, selected: Option<usize>) -> (res: TableState)
        ensures
            res == (TableState { selected, ..self }),
    {
        TableState { selected, ..self }
    }

    /// Selects the line below.
    pub fn select_next(&mut self)
        ensures
            *final(self) == old(self).next(),
    {
        *self = self.after_next();
    }

    /// Selects the line above.
    pub fn select_previous(&mut self)
        ensures
            *final(self) == old(self).previous(),
    {
        *self = self.after_previous();
    }

    /// Selects the first line.
    pub fn select_first(&mut self)
        ensures
            *final(self) == (TableState { selected: Some(0), ..*old(self) }),
    {
        *self = self.after_first();
    }
}

/// One line down and one line up leads back, below the largest number.
pub proof fn down_and_up_leads_back(table: TableState)
    requires
        table.selected matches Some(i) && i < usize::MAX,
    ensures
        table.next().previous() == table,
{
}

/// One line up and one line down leads back, except at the first line.
pub proof fn up_and_down_leads_back(table: TableState)
    requires
        table.selected matches Some(i) && i > 0,
    ensures
        table.previous().next() == table,
{
}

/// Selecting leaves the table where it is scrolled to.
pub proof fn selecting_does_not_scroll(
    table: TableState,
    selected: Option<usize>,
    res: TableState,
    shown: Option<usize>,
)
    requires
        call_ensures(TableState::with_selected, (table, selected), res),
        call_ensures(TableState::selected, (&res,), shown),
    ensures
        shown == selected && res.offset == table.offset,
{
}

/// Selecting the next line, the one before or the first changes the selected line alone.
pub proof fn the_selected_line_moves(
    down: &mut TableState,
    up: &mut TableState,
    first: &mut TableState,
)
    requires
        call_ensures(TableState::select_next, (down,), ()),
        call_ensures(TableState::select_previous, (up,), ()),
        call_ensures(TableState::select_first, (first,), ()),
    ensures
        old(down).selected matches Some(i) ==> i < usize::MAX ==> final(down).selected == Some(
            (i + 1) as usize,
        ),
        old(up).selected matches Some(i) ==> i > 0 ==> final(up).selected == Some((i - 1) as usize),
        old(up).selected == Some(0usize) ==> final(up).selected == Some(0usize),
        old(down).selected is None ==> final(down).selected == Some(0usize),
        old(up).selected is None ==> final(up).selected == Some(usize::MAX),
        final(first).selected == Some(0usize),
        final(down).offset == old(down).offset,
        final(up).offset == old(up).offset,
        final(first).offset == old(first).offset,
{
}

} // verus!
