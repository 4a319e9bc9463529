//! The search: what is looked for, which lines it finds, and which of those it
//! selects.

use std::collections::HashMap;
use vstd::prelude::*;

use crate::process::ProcessData;
use crate::text::{
    answers, chars_of, contains_chars, decimal, decimal_digits, digits_write_their_number, lowered,
    lowered_chars, occurs, same_chars, stands_at, writes,
};
use crate::tree::{Pid, ProcessRow};

verus! {

/// What is looked for, which of the finds is wanted, and whether the selection
/// follows the search.
#[derive(Debug)]
pub struct SearchState {
    pub term: String,
    pub idx: isize,
    pub hooked: bool,
}

/// A search.
pub struct SearchModel {
    pub term: Seq<char>,
    pub idx: int,
    pub hooked: bool,
}

impl View for SearchState {
    type V = SearchModel;

    open spec fn view(&self) -> SearchModel {
        SearchModel { term: self.term@, idx: self.idx as int, hooked: self.hooked }
    }
}

impl SearchModel {
    /// A search for nothing yet, which the selection follows.
    pub open spec fn fresh() -> SearchModel {
        SearchModel { term: Seq::empty(), idx: 0, hooked: true }
    }
}

impl Default for SearchState {
    fn default() -> (res: SearchState)
        ensures
            res@ == SearchModel::fresh(),
    {
        SearchState { term: String::new(), idx: 0, hooked: true }
    }
}

impl Clone for SearchState {
    fn clone(&self) -> (res: SearchState)
        ensures
            res == *self,
    {
        SearchState { term: self.term.clone(), idx: self.idx, hooked: self.hooked }
    }
}

/// What the keys do: move about, or edit a search.
#[derive(Debug)]
pub enum Mode {
    Normal,
    Search(SearchState),
}

/// What the keys do.
pub enum ModeModel {
    Normal,
    Search(SearchModel),
}

impl View for Mode {
    type V = ModeModel;

    open spec fn view(&self) -> ModeModel {
        match self {
            Mode::Normal => ModeModel::Normal,
            Mode::Search(search) => ModeModel::Search(search@),
        }
    }
}

impl Default for Mode {
    fn default() -> (res: Mode)
        ensures
            res@ == ModeModel::Normal,
    {
        Mode::Normal
    }
}

impl Clone for Mode {
    fn clone(&self) -> (res: Mode)
        ensures
            res == *self,
    {
        match self {
            Mode::Normal => Mode::Normal,
            Mode::Search(search) => Mode::Search(search.clone()),
        }
    }
}

impl Mode {
    /// The word for the mode.
    pub fn text(&self) -> (res: &'static str)
        ensures
            res@ == match self {
                Mode::Normal => "NORM"@,
                Mode::Search(_) => "SEARCH"@,
            },
    {
        match self {
            Mode::Normal => "NORM",
            Mode::Search(_) => "SEARCH",
        }
    }
}

/// Whether a process is a find: the term is its number, or stands in its name,
/// the capitals of which count as small letters. No term finds nothing.
pub open spec fn is_find(process: ProcessData, term: Seq<char>) -> bool {
    decimal_digits(process.pid as nat) == term || (term.len() > 0 && occurs(
        term,
        lowered(process.name@),
    ))
}

/// Whether a process of the given number was measured and is a find.
pub open spec fn finds_pid(data: Map<Pid, ProcessData>, pid: Pid, term: Seq<char>) -> bool {
    data.contains_key(pid) && is_find(data[pid], term)
}

/// For each line, whether its process is a find.
pub open spec fn finds(
    rows: Seq<ProcessRow>,
    data: Map<Pid, ProcessData>,
    term: Seq<char>,
) -> Seq<bool> {
    rows.map_values(|row: ProcessRow| finds_pid(data, row.2, term))
}

/// The places of the finds, first to last.
pub open spec fn places(found: Seq<bool>) -> Seq<usize>
    decreases found.len(),
{
    if found.len() == 0 {
        Seq::empty()
    } else if found.last() {
        places(found.drop_last()).push((found.len() - 1) as usize)
    } else {
        places(found.drop_last())
    }
}

/// The find that number `idx` selects. The count goes round: past the last find
/// comes the first, and before the first the last.
pub open spec fn selection(found: Seq<bool>, idx: int) -> Option<usize> {
    if places(found).len() == 0 {
        None
    } else {
        Some(places(found)[idx % places(found).len() as int])
    }
}

/// Whether a process is a find.
pub fn matches_term(process: &ProcessData, term: &Vec<char>) -> (res: bool)
    ensures
        res == is_find(*process, term@),
{
    let number = chars_of(decimal(process.pid as u64).as_str());
    if same_chars(&number, term) {
        return true;
    }
    let name = lowered_chars(process.name.as_str());
    contains_chars(&name, term) && term.len() > 0
}

/// For each line, whether its process is a find.
pub fn find_rows(
    rows: &Vec<ProcessRow>,
    data: &HashMap<Pid, ProcessData>,
    term: &str,
) -> (res: Vec<bool>)
    ensures
        res@ == finds(rows@, data@, term@),
{
    broadcast use vstd::std_specs::hash::group_hash_axioms;

    let term_chars = chars_of(term);
    let mut res: Vec<bool> = Vec::new();
    for i in 0..rows.len()
        invariant
            term_chars@ == term@,
            res@.len() == i,
            forall|k: int|
                0 <= k < i ==> #[trigger] res@[k] == finds_pid(data@, rows@[k].2, term@),
    {
        let found = match data.get(&rows[i].2) {
            Some(process) => matches_term(process, &term_chars),
            None => false,
        };
        res.push(found);
    }
    proof {
        assert(res@ =~= finds(rows@, data@, term@));
    }
    res
}

/// The places of the finds.
pub fn list_places(found: &Vec<bool>) -> (res: Vec<usize>)
    ensures
        res@ == places(found@),
{
    let mut res: Vec<usize> = Vec::new();
    for i in 0..found.len()
        invariant
            res@ == places(found@.take(i as int)),
    {
        proof {
            assert(found@.take(i + 1).drop_last() =~= found@.take(i as int));
        }
        if found[i] {
            res.push(i);
        }
    }
    proof {
        assert(found@.take(found@.len() as int) =~= found@);
    }
    res
}

/// `idx` modulo `len`, never negative.
pub fn around(idx: isize, len: usize) -> (res: usize)
    requires
        len > 0,
    ensures
        res == idx as int % len as int,
{
    if idx >= 0 {
        (idx as usize) % len
    } else {
        let short: usize = (-(idx + 1)) as usize;
        let steps: usize = short % len;
        proof {
            let d = len as int;
            let q = short as int / d;
            vstd::arithmetic::div_mod::lemma_fundamental_div_mod(short as int, d);
            assert(idx == (-(q + 1)) * d + (d - 1 - steps)) by (nonlinear_arith)
                requires
                    idx == -1 - short,
                    short == d * q + steps,
            ;
            vstd::arithmetic::div_mod::lemma_fundamental_div_mod_converse(
                idx as int,
                d,
                -(q + 1),
                d - 1 - steps,
            );
        }
        len - 1 - steps
    }
}

/// The find that number `idx` selects.
pub fn select(found: &Vec<bool>, idx: isize) -> (res: Option<usize>)
    ensures
        res == selection(found@, idx as int),
{
    let list = list_places(found);
    if list.len() == 0 {
        None
    } else {
        Some(list[around(idx, list.len())])
    }
}

/// The places of the finds are those of the finds, all of them, each once and in
/// rising order.
pub proof fn finds_come_once_and_in_order(found: Seq<bool>)
    requires
        found.len() <= usize::MAX,
    ensures
        forall|k: int|
            0 <= k < places(found).len() ==> (#[trigger] places(found)[k]) < found.len()
                && found[places(found)[k] as int],
        forall|i: int|
            0 <= i < found.len() && #[trigger] found[i] ==> places(found).contains(i as usize),
        forall|j: int, k: int|
            0 <= j < k < places(found).len() ==> (#[trigger] places(found)[j]) < (#[trigger] places(
                found,
            )[k]),
    decreases found.len(),
{
    if found.len() > 0 {
        let rest = found.drop_last();
        finds_come_once_and_in_order(rest);
        let before = places(rest);
        let all = places(found);
        assert forall|i: int| 0 <= i < found.len() && #[trigger] found[i] implies all.contains(
            i as usize,
        ) by {
            if i < rest.len() {
                assert(rest[i]);
                let k = choose|k: int| 0 <= k < before.len() && before[k] == i as usize;
                assert(all[k] == i as usize);
            } else {
                assert(all[before.len() as int] == i as usize);
            }
        }
        assert forall|k: int| 0 <= k < all.len() implies (#[trigger] all[k]) < found.len()
            && found[all[k] as int] by {
            if k < before.len() {
                assert(all[k] == before[k]);
                assert(rest[before[k] as int]);
            }
        }
        assert forall|j: int, k: int| 0 <= j < k < all.len() implies (#[trigger] all[j]) < (
        #[trigger] all[k]) by {
            assert(all[j] == before[j]);
            if k < before.len() {
                assert(all[k] == before[k]);
            }
        }
    }
}

/// A search selects a find, wherever there is one.
pub proof fn selection_is_a_find(found: Seq<bool>, idx: int)
    requires
        found.len() <= usize::MAX,
    ensures
        selection(found, idx) is Some == exists|i: int| 0 <= i < found.len() && #[trigger] found[i],
        selection(found, idx) matches Some(i) ==> i < found.len() && found[i as int],
{
    finds_come_once_and_in_order(found);
    let list = places(found);
    if list.len() > 0 {
        let k = idx % list.len() as int;
        assert(0 <= k < list.len());
        assert(list[k] < found.len());
        assert(found[list[k] as int]);
    }
    if exists|i: int| 0 <= i < found.len() && #[trigger] found[i] {
        let i = choose|i: int| 0 <= i < found.len() && #[trigger] found[i];
        assert(list.contains(i as usize));
    }
}

/// Counting on selects every find in turn and then the same ones again.
pub proof fn selection_goes_round(found: Seq<bool>, idx: int)
    requires
        places(found).len() > 0,
    ensures
        selection(found, idx + places(found).len()) == selection(found, idx),
        places(found).len() > 1 && found.len() <= usize::MAX ==> selection(found, idx + 1)
            != selection(found, idx),
{
    let n = places(found).len() as int;
    vstd::arithmetic::div_mod::lemma_mod_add_multiples_vanish(idx, n);
    if n > 1 && found.len() <= usize::MAX {
        finds_come_once_and_in_order(found);
        vstd::arithmetic::div_mod::lemma_fundamental_div_mod(idx, n);
        let k = idx % n;
        let q = idx / n;
        if k + 1 < n {
            vstd::arithmetic::div_mod::lemma_fundamental_div_mod_converse(idx + 1, n, q, k + 1);
            assert(places(found)[k] < places(found)[k + 1]);
        } else {
            assert(idx + 1 == (q + 1) * n) by (nonlinear_arith)
                requires
                    idx == n * q + k,
                    k + 1 == n,
            ;
            vstd::arithmetic::div_mod::lemma_fundamental_div_mod_converse(idx + 1, n, q + 1, 0);
            assert(places(found)[0] < places(found)[k]);
        }
    }
}

/// Without a term nothing is found.
pub proof fn no_term_finds_nothing(process: ProcessData)
    ensures
        !is_find(process, Seq::empty()),
{
    crate::text::decimal_is_not_empty(process.pid as nat);
}

/// The number of a process finds it.
pub proof fn a_number_finds_its_process(process: ProcessData)
    ensures
        is_find(process, decimal_digits(process.pid as nat)),
{
}

/// Whether a term reads as the part of a name that begins at `at`, the capitals of the
/// name read as small letters.
pub open spec fn reads_at(name: Seq<char>, at: int, term: Seq<char>) -> bool {
    &&& 0 <= at && at + term.len() <= name.len()
    &&& forall|k: int| 0 <= k < term.len() ==> answers(name[at + k], #[trigger] term[k])
}

/// Whether a process is meant by a term: the term writes its number, or reads as a part
/// of its name.
pub open spec fn meant_by(process: ProcessData, term: Seq<char>) -> bool {
    ||| writes(term, process.pid as int)
    ||| term.len() > 0 && exists|at: int| #[trigger] reads_at(process.name@, at, term)
}

proof fn lemma_reads_at(name: Seq<char>, at: int, term: Seq<char>)
    ensures
        reads_at(name, at, term) == stands_at(term, lowered(name), at),
{
    let low = lowered(name);
    if reads_at(name, at, term) {
        let part = low.subrange(at, at + term.len());
        assert forall|k: int| 0 <= k < term.len() implies part[k] == term[k] by {
            assert(answers(name[at + k], term[k]));
        }
        assert(part =~= term);
    }
    if stands_at(term, low, at) {
        assert forall|k: int| 0 <= k < term.len() implies answers(
            name[at + k],
            #[trigger] term[k],
        ) by {
            assert(low.subrange(at, at + term.len())[k] == term[k]);
            assert(low[at + k] == term[k]);
        }
    }
}

/// A process is a find if and only if the term means it.
pub proof fn the_finds_are_what_is_meant(process: ProcessData, term: Seq<char>)
    ensures
        is_find(process, term) == meant_by(process, term),
{
    digits_write_their_number(term, process.pid as nat);
    let (name, low) = (process.name@, lowered(process.name@));
    if occurs(term, low) {
        let at = choose|at: int| #[trigger] stands_at(term, low, at);
        lemma_reads_at(name, at, term);
    }
    if exists|at: int| #[trigger] reads_at(name, at, term) {
        let at = choose|at: int| #[trigger] reads_at(name, at, term);
        lemma_reads_at(name, at, term);
    }
}

/// A process is found by any part of its name, capitals typed as small letters, wherever
/// the part stands.
pub proof fn a_part_of_the_name_finds_its_process(
    process: ProcessData,
    term: Vec<char>,
    at: int,
    res: bool,
)
    requires
        call_ensures(matches_term, (&process, &term), res),
        0 < term@.len(),
        0 <= at && at + term@.len() <= process.name@.len(),
        forall|k: int|
            0 <= k < term@.len() ==> answers(process.name@[at + k], #[trigger] term@[k]),
    ensures
        res,
{
    the_finds_are_what_is_meant(process, term@);
    assert(reads_at(process.name@, at, term@));
}

/// A process is found by the text of its number, and by nothing that is neither that nor
/// a part of its name.
pub proof fn nothing_else_finds_a_process(process: ProcessData, term: Vec<char>, res: bool)
    requires
        call_ensures(matches_term, (&process, &term), res),
    ensures
        writes(term@, process.pid as int) ==> res,
        res && !writes(term@, process.pid as int) ==> term@.len() > 0 && exists|at: int| #[trigger]
            reads_at(process.name@, at, term@),
{
    the_finds_are_what_is_meant(process, term@);
}

/// Each line is marked for itself: where its process was measured and is meant.
pub proof fn lines_are_marked_one_by_one(
    rows: Vec<ProcessRow>,
    data: HashMap<Pid, ProcessData>,
    term: &str,
    res: Vec<bool>,
    i: int,
)
    requires
        call_ensures(find_rows, (&rows, &data, term), res),
    ensures
        res@.len() == rows@.len(),
        0 <= i < rows@.len() ==> res@[i] == (data@.contains_key(rows@[i].2) && meant_by(
            data@[rows@[i].2],
            term@,
        )),
{
    if 0 <= i < rows@.len() {
        the_finds_are_what_is_meant(data@[rows@[i].2], term@);
    }
}

/// Number zero selects the first find. The next number selects the next find below, or
/// the first one behind the last.
pub proof fn the_count_walks_down_the_finds(
    found: Vec<bool>,
    idx: isize,
    here: Option<usize>,
    next: Option<usize>,
)
    requires
        call_ensures(select, (&found, idx), here),
        idx < isize::MAX,
        call_ensures(select, (&found, (idx + 1) as isize), next),
        found@.len() <= usize::MAX,
    ensures
        here is None == forall|i: int| 0 <= i < found@.len() ==> !#[trigger] found@[i],
        here is None == next is None,
        here matches Some(i) ==> i < found@.len() && found@[i as int],
        idx == 0 ==> (here matches Some(i) ==> forall|k: int| 0 <= k < i ==> !#[trigger] found@[k]),
        here matches Some(i) ==> (next matches Some(j) ==> {
            ||| i < j && forall|k: int| i < k < j ==> !#[trigger] found@[k]
            ||| {
                &&& j <= i
                &&& forall|k: int| i < k < found@.len() ==> !#[trigger] found@[k]
                &&& forall|k: int| 0 <= k < j ==> !#[trigger] found@[k]
            }
        }),
{
    lemma_count_walks(found@, idx as int);
}

pub(crate) proof fn lemma_count_walks(found: Seq<bool>, idx: int)
    requires
        found.len() <= usize::MAX,
    ensures
        selection(found, idx) is None == forall|i: int|
            0 <= i < found.len() ==> !#[trigger] found[i],
        selection(found, idx) is None == selection(found, idx + 1) is None,
        selection(found, idx) matches Some(i) ==> i < found.len() && found[i as int],
        selection(found, 0) matches Some(i) ==> forall|k: int| 0 <= k < i ==> !#[trigger] found[k],
        selection(found, idx) matches Some(i) ==> (selection(found, idx + 1) matches Some(j) ==> {
            ||| i < j && forall|k: int| i < k < j ==> !#[trigger] found[k]
            ||| {
                &&& j <= i
                &&& forall|k: int| i < k < found.len() ==> !#[trigger] found[k]
                &&& forall|k: int| 0 <= k < j ==> !#[trigger] found[k]
            }
        }),
{
    finds_come_once_and_in_order(found);
    selection_is_a_find(found, idx);
    let list = places(found);
    let n = list.len() as int;
    if n > 0 {
        let a = idx % n;
        vstd::arithmetic::div_mod::lemma_fundamental_div_mod(idx, n);
        let q = idx / n;
        assert forall|k: int| 0 <= k < found.len() && #[trigger] found[k] implies exists|t: int|
            0 <= t < n && list[t] == k by {
            assert(list.contains(k as usize));
        }
        assert(0int % n == 0) by {
            vstd::arithmetic::div_mod::lemma_small_mod(0, n as nat);
        }
        if a + 1 < n {
            vstd::arithmetic::div_mod::lemma_fundamental_div_mod_converse(idx + 1, n, q, a + 1);
            assert(list[a] < list[a + 1]);
        } else {
            assert(idx + 1 == (q + 1) * n) by (nonlinear_arith)
                requires
                    idx == n * q + a,
                    a + 1 == n,
            ;
            vstd::arithmetic::div_mod::lemma_fundamental_div_mod_converse(idx + 1, n, q + 1, 0);
        }
        let b = (idx + 1) % n;
        assert forall|k: int| 0 <= k < list[0] implies !#[trigger] found[k] by {
            if found[k] {
                let t = choose|t: int| 0 <= t < n && list[t] == k;
                if t > 0 {
                    assert(list[0] < list[t]);
                }
            }
        }
        assert forall|k: int| list[a] < k < found.len() && (b == 0 || k < list[b]) implies
            !#[trigger] found[k] by {
            if found[k] {
                let t = choose|t: int| 0 <= t < n && list[t] == k;
                if t < a {
                    assert(list[t] < list[a]);
                }
                if b > 0 && t > b {
                    assert(list[b] < list[t]);
                }
            }
        }
        if b == 0 && a > 0 {
            assert(list[0] < list[a]);
        }
    }
}

} // verus!
