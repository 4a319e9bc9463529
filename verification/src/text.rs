//! The little text handling that the table and the search need.

use vstd::prelude::*;
use vstd::string::StringExecFns;

verus! {

/// `String::push` puts one character at the end.
pub assume_specification[ String::push ](s: &mut String, c: char)
    ensures
        final(s)@ == old(s)@.push(c),
;

/// A decimal digit.
pub open spec fn digit(n: nat) -> char {
    (48 + n) as char
}

/// A number in decimal, without leading zeros.
pub open spec fn decimal_digits(n: nat) -> Seq<char>
    decreases n,
{
    if n < 10 {
        seq![digit(n)]
    } else {
        decimal_digits(n / 10).push(digit(n % 10))
    }
}

/// A number in decimal.
pub fn decimal(n: u64) -> (res: String)
    ensures
        res@ == decimal_digits(n as nat),
    decreases n,
{
    let mut res = if n < 10 {
        String::new()
    } else {
        decimal(n / 10)
    };
    let last: u8 = 48 + (n % 10) as u8;
    res.push(last as char);
    proof {
        assert(res@ =~= decimal_digits(n as nat));
    }
    res
}

/// Two numbers that read alike are the same.
pub proof fn decimal_tells_numbers_apart(a: nat, b: nat)
    ensures
        (decimal_digits(a) == decimal_digits(b)) == (a == b),
    decreases a,
{
    if decimal_digits(a) == decimal_digits(b) {
        lemma_decimal_length(a);
        lemma_decimal_length(b);
        assert(decimal_digits(a).last() == digit(a % 10));
        assert(decimal_digits(b).last() == digit(b % 10));
        if a >= 10 && b >= 10 {
            assert(decimal_digits(a).drop_last() =~= decimal_digits(a / 10));
            assert(decimal_digits(b).drop_last() =~= decimal_digits(b / 10));
            decimal_tells_numbers_apart(a / 10, b / 10);
        }
    }
}

pub(crate) proof fn lemma_decimal_length(n: nat)
    ensures
        decimal_digits(n).len() >= 1,
        decimal_digits(n).len() == 1 <==> n < 10,
    decreases n,
{
    if n >= 10 {
        lemma_decimal_length(n / 10);
    }
}

/// A number is never written as nothing.
pub proof fn decimal_is_not_empty(n: nat)
    ensures
        decimal_digits(n).len() > 0,
{
    lemma_decimal_length(n);
}

/// A character with an ASCII capital made small.
pub open spec fn small(c: char) -> char {
    if 'A' <= c && c <= 'Z' {
        ((c as u32) + 32) as char
    } else {
        c
    }
}

/// A character with an ASCII small letter made capital.
pub open spec fn capital(c: char) -> char {
    if 'a' <= c && c <= 'z' {
        ((c as u32) - 32) as char
    } else {
        c
    }
}

/// A text with its ASCII capitals made small.
pub open spec fn lowered(s: Seq<char>) -> Seq<char> {
    s.map_values(|c: char| small(c))
}

/// Whether `part` stands somewhere in `s`.
pub open spec fn occurs(part: Seq<char>, s: Seq<char>) -> bool {
    exists|i: int| #[trigger] stands_at(part, s, i)
}

/// Whether `part` stands in `s` at `i`.
pub open spec fn stands_at(part: Seq<char>, s: Seq<char>, i: int) -> bool {
    0 <= i && i + part.len() <= s.len() && s.subrange(i, i + part.len()) == part
}

/// A character with an ASCII capital made small.
pub fn to_small(c: char) -> (res: char)
    ensures
        res == small(c),
{
    if 'A' <= c && c <= 'Z' {
        ((c as u8) + 32) as char
    } else {
        c
    }
}

/// A character with an ASCII small letter made capital.
pub fn to_capital(c: char) -> (res: char)
    ensures
        res == capital(c),
{
    if 'a' <= c && c <= 'z' {
        ((c as u8) - 32) as char
    } else {
        c
    }
}

/// The characters of a text.
pub fn chars_of(s: &str) -> (res: Vec<char>)
    ensures
        res@ == s@,
{
    let mut res: Vec<char> = Vec::new();
    for c in it: s.chars()
        invariant
            it.seq() == s@,
            res@ == it.seq().take(it.index()),
    {
        res.push(c);
        assert(it.seq().take(it.index() + 1) =~= it.seq().take(it.index()).push(c));
    }
    assert(s@.take(s@.len() as int) =~= s@);
    res
}

/// A text with its ASCII capitals made small, as characters.
pub fn lowered_chars(s: &str) -> (res: Vec<char>)
    ensures
        res@ == lowered(s@),
{
    let chars = chars_of(s);
    let mut res: Vec<char> = Vec::new();
    for i in 0..chars.len()
        invariant
            chars@ == s@,
            res@.len() == i,
            forall|k: int| 0 <= k < i ==> #[trigger] res@[k] == small(chars@[k]),
    {
        res.push(to_small(chars[i]));
    }
    assert(res@ =~= lowered(s@));
    res
}

/// Whether two texts are the same.
pub fn same_chars(a: &Vec<char>, b: &Vec<char>) -> (res: bool)
    ensures
        res == (a@ == b@),
{
    if a.len() != b.len() {
        return false;
    }
    for i in 0..a.len()
        invariant
            a@.len() == b@.len(),
            forall|k: int| 0 <= k < i ==> a@[k] == b@[k],
    {
        if a[i] != b[i] {
            return false;
        }
    }
    assert(a@ =~= b@);
    true
}

/// Whether `part` stands somewhere in `s`.
pub fn contains_chars(s: &Vec<char>, part: &Vec<char>) -> (res: bool)
    ensures
        res == occurs(part@, s@),
{
    if part.len() > s.len() {
        assert forall|i: int| !(#[trigger] stands_at(part@, s@, i)) by {}
        return false;
    }
    let last: usize = s.len() - part.len();
    let mut i: usize = 0;
    while i <= last
        invariant
            part@.len() <= s@.len(),
            last == s@.len() - part@.len(),
            0 <= i <= last + 1,
            forall|k: int| 0 <= k < i ==> !(#[trigger] stands_at(part@, s@, k)),
        decreases last + 1 - i,
    {
        let mut n: usize = 0;
        while n < part.len() && s[i + n] == part[n]
            invariant
                i + part.len() <= s.len(),
                0 <= n <= part@.len(),
                forall|k: int| 0 <= k < n ==> s@[i + k] == #[trigger] part@[k],
            decreases part.len() - n,
        {
            n = n + 1;
        }
        if n == part.len() {
            assert(s@.subrange(i as int, i + part@.len()) =~= part@);
            assert(stands_at(part@, s@, i as int));
            return true;
        }
        assert(!stands_at(part@, s@, i as int)) by {
            if stands_at(part@, s@, i as int) {
                assert(s@.subrange(i as int, i + part@.len())[n as int] == s@[i + n]);
            }
        }
        if i == last {
            assert forall|k: int| !(#[trigger] stands_at(part@, s@, k)) by {}
            return false;
        }
        i = i + 1;
    }
    false
}

/// A text without its last character, where it has one.
pub fn without_last(s: &str) -> (res: String)
    ensures
        res@ == if s@.len() == 0 {
            s@
        } else {
            s@.drop_last()
        },
{
    let chars = chars_of(s);
    let mut res = String::new();
    if chars.len() > 0 {
        for i in 0..chars.len() - 1
            invariant
                chars@ == s@,
                chars@.len() > 0,
                res@ == chars@.take(i as int),
        {
            res.push(chars[i]);
            assert(chars@.take(i + 1) =~= chars@.take(i as int).push(chars@[i as int]));
        }
        assert(s@.take(s@.len() - 1) =~= s@.drop_last());
    } else {
        assert(s@ =~= Seq::<char>::empty());
    }
    res
}

/// Whether a text ends with `tail`.
pub fn ends_with(s: &str, tail: &str) -> (res: bool)
    ensures
        res == (tail@.len() <= s@.len() && s@.skip(s@.len() - tail@.len()) == tail@),
{
    let whole = chars_of(s);
    let part = chars_of(tail);
    if part.len() > whole.len() {
        return false;
    }
    let start: usize = whole.len() - part.len();
    for i in 0..part.len()
        invariant
            whole@ == s@,
            part@ == tail@,
            start == whole.len() - part.len(),
            forall|k: int| 0 <= k < i ==> whole@[start + k] == #[trigger] part@[k],
    {
        if whole[start + i] != part[i] {
            assert(s@.skip(start as int)[i as int] == whole@[start + i]);
            return false;
        }
    }
    assert(s@.skip(start as int) =~= tail@);
    true
}

/// A text written `n` times.
pub open spec fn repeated(s: Seq<char>, n: nat) -> Seq<char>
    decreases n,
{
    if n == 0 {
        Seq::empty()
    } else {
        repeated(s, (n - 1) as nat) + s
    }
}

/// A text written `n` times is `n` times as long.
pub proof fn repeating_multiplies(s: Seq<char>, n: nat)
    ensures
        repeated(s, n).len() == n * s.len(),
    decreases n,
{
    if n > 0 {
        let m = (n - 1) as nat;
        repeating_multiplies(s, m);
        assert(n * s.len() == m * s.len() + s.len()) by (nonlinear_arith)
            requires
                n == m + 1,
        ;
    } else {
        assert(n * s.len() == 0) by (nonlinear_arith)
            requires
                n == 0,
        ;
    }
}

/// A text written `n` times.
pub fn repeat(s: &str, n: usize) -> (res: String)
    ensures
        res@ == repeated(s@, n as nat),
{
    let mut res = String::new();
    for i in 0..n
        invariant
            res@ == repeated(s@, i as nat),
    {
        res.append(s);
    }
    res
}

/// The number that decimal digits read as.
pub open spec fn read_number(s: Seq<char>) -> int
    decreases s.len(),
{
    if s.len() == 0 {
        0
    } else {
        10 * read_number(s.drop_last()) + (s.last() as int - 48)
    }
}

/// Whether a text is a number in decimal: digits that read as the number, the first of
/// them no zero unless it is the only one.
pub open spec fn writes(s: Seq<char>, n: int) -> bool {
    &&& s.len() > 0
    &&& forall|i: int| 0 <= i < s.len() ==> '0' <= #[trigger] s[i] && s[i] <= '9'
    &&& s.len() > 1 ==> s[0] != '0'
    &&& read_number(s) == n
}

/// The digits of a number write it, and nothing else does.
pub proof fn digits_write_their_number(s: Seq<char>, n: nat)
    ensures
        writes(decimal_digits(n), n as int),
        writes(s, n as int) == (s == decimal_digits(n)),
    decreases n,
{
    lemma_digits_write(n);
    if writes(s, n as int) {
        lemma_written_once(s, n);
    }
}

proof fn lemma_digits_write(n: nat)
    ensures
        writes(decimal_digits(n), n as int),
        n > 0 ==> decimal_digits(n)[0] != '0',
    decreases n,
{
    let s = decimal_digits(n);
    reveal_with_fuel(read_number, 2);
    if n >= 10 {
        lemma_digits_write(n / 10);
        assert(s.drop_last() =~= decimal_digits(n / 10));
        assert(s[0] == decimal_digits(n / 10)[0]);
        assert forall|i: int| 0 <= i < s.len() implies '0' <= #[trigger] s[i] && s[i] <= '9' by {
            if i < s.len() - 1 {
                assert(s[i] == decimal_digits(n / 10)[i]);
            }
        }
    } else {
        assert(s.drop_last() =~= Seq::<char>::empty());
    }
}

proof fn lemma_read_not_negative(s: Seq<char>)
    requires
        forall|i: int| 0 <= i < s.len() ==> '0' <= #[trigger] s[i] && s[i] <= '9',
    ensures
        read_number(s) >= 0,
        s.len() > 0 && s[0] != '0' ==> read_number(s) > 0,
    decreases s.len(),
{
    if s.len() > 0 {
        let rest = s.drop_last();
        assert forall|i: int| 0 <= i < rest.len() implies '0' <= #[trigger] rest[i] && rest[i]
            <= '9' by {
            assert(rest[i] == s[i]);
        }
        lemma_read_not_negative(rest);
        let last = s[s.len() - 1];
        assert('0' <= last && last <= '9');
        if rest.len() > 0 {
            assert(rest[0] == s[0]);
        }
    }
}

proof fn lemma_written_once(s: Seq<char>, n: nat)
    requires
        writes(s, n as int),
    ensures
        s == decimal_digits(n),
    decreases n,
{
    let rest = s.drop_last();
    let last = s[s.len() - 1];
    assert('0' <= last && last <= '9');
    assert forall|i: int| 0 <= i < rest.len() implies '0' <= #[trigger] rest[i] && rest[i]
        <= '9' by {
        assert(rest[i] == s[i]);
    }
    lemma_read_not_negative(rest);
    if rest.len() == 0 {
        assert(read_number(rest) == 0);
        assert(digit(n) == last);
        assert(s =~= seq![digit(n)]);
    } else {
        assert(rest[0] == s[0]);
        let m = read_number(rest);
        assert(m > 0);
        assert(n / 10 == m && n % 10 == last as int - 48);
        lemma_written_once(rest, (n / 10) as nat);
        assert(digit(n % 10) == last);
        assert(s =~= decimal_digits(n / 10).push(digit(n % 10)));
    }
}

/// A number is written with its digits.
pub proof fn decimal_writes_the_number(n: u64, res: String)
    requires
        call_ensures(decimal, (n,), res),
    ensures
        writes(res@, n as int),
{
    digits_write_their_number(res@, n as nat);
}

/// Whether a character that is shown answers one that is typed: a capital answers its
/// small letter, and anything else itself.
pub open spec fn answers(shown: char, typed: char) -> bool {
    if 'A' <= shown && shown <= 'Z' {
        typed as int == shown as int + 32
    } else {
        typed == shown
    }
}

/// Made small, a text has the same length, each capital is its small letter, and nothing
/// else changes.
pub proof fn only_capitals_are_made_small(s: &str, res: Vec<char>, i: int)
    requires
        call_ensures(lowered_chars, (s,), res),
    ensures
        res@.len() == s@.len(),
        0 <= i < s@.len() ==> answers(s@[i], res@[i]),
{
}

/// A small letter and its capital belong together, and no other character changes.
pub proof fn letters_change_their_case_alone(c: char, low: char, high: char)
    requires
        call_ensures(to_small, (c,), low),
        call_ensures(to_capital, (c,), high),
    ensures
        'A' <= c && c <= 'Z' ==> low as int == c as int + 32 && high == c,
        'a' <= c && c <= 'z' ==> high as int == c as int - 32 && low == c,
        !('A' <= c && c <= 'Z') && !('a' <= c && c <= 'z') ==> low == c && high == c,
{
}

/// A text contains whatever stands between its beginning and its end.
pub proof fn a_text_contains_its_parts(
    s: Vec<char>,
    part: Vec<char>,
    before: Seq<char>,
    after: Seq<char>,
    res: bool,
)
    requires
        call_ensures(contains_chars, (&s, &part), res),
        s@ == before + part@ + after,
    ensures
        res,
{
    let at = before.len() as int;
    assert(s@.subrange(at, at + part@.len()) =~= part@);
    assert(stands_at(part@, s@, at));
}

/// What a text contains stands between a beginning and an end of it.
pub proof fn what_is_contained_is_a_part(s: Vec<char>, part: Vec<char>) -> (around: (
    Seq<char>,
    Seq<char>,
))
    requires
        call_ensures(contains_chars, (&s, &part), true),
    ensures
        s@ == around.0 + part@ + around.1,
{
    let i = choose|i: int| #[trigger] stands_at(part@, s@, i);
    let around = (s@.take(i), s@.skip(i + part@.len()));
    assert(s@.subrange(i, i + part@.len()) =~= part@);
    assert(s@ =~= around.0 + s@.subrange(i, i + part@.len()) + around.1);
    around
}

/// Two texts are the same where they are equally long and agree in each place.
pub proof fn texts_are_compared_place_by_place(a: Vec<char>, b: Vec<char>, res: bool)
    requires
        call_ensures(same_chars, (&a, &b), res),
    ensures
        res == (a@.len() == b@.len() && forall|i: int|
            0 <= i < a@.len() ==> #[trigger] a@[i] == b@[i]),
{
    if a@.len() == b@.len() && forall|i: int| 0 <= i < a@.len() ==> #[trigger] a@[i] == b@[i] {
        assert(a@ =~= b@);
    }
}

/// With its last character put back a text is what it was.
pub proof fn the_last_character_can_be_put_back(s: &str, res: String)
    requires
        call_ensures(without_last, (s,), res),
    ensures
        s@.len() > 0 ==> res@.push(s@[s@.len() - 1]) == s@,
        s@.len() == 0 ==> res@.len() == 0,
{
    if s@.len() > 0 {
        assert(res@.push(s@[s@.len() - 1]) =~= s@);
    }
}

/// A text ends with what was put behind something, and with nothing else.
pub proof fn what_is_put_behind_is_the_end(s: &str, tail: &str, before: Seq<char>, res: bool)
    requires
        call_ensures(ends_with, (s, tail), res),
    ensures
        s@ == before + tail@ ==> res,
        res ==> s@ == s@.take(s@.len() - tail@.len()) + tail@,
{
    if s@ == before + tail@ {
        assert(s@.skip(s@.len() - tail@.len()) =~= tail@);
    }
    if res {
        assert(s@ =~= s@.take(s@.len() - tail@.len()) + s@.skip(s@.len() - tail@.len()));
    }
}

pub(crate) proof fn lemma_repeated_at(s: Seq<char>, n: nat, k: int, i: int)
    requires
        0 <= k < n,
        0 <= i < s.len(),
    ensures
        repeated(s, n).len() == n * s.len(),
        0 <= k * s.len() + i < n * s.len(),
        repeated(s, n)[k * s.len() + i] == s[i],
    decreases n,
{
    let m = (n - 1) as nat;
    repeating_multiplies(s, n);
    repeating_multiplies(s, m);
    assert(n * s.len() == m * s.len() + s.len()) by (nonlinear_arith)
        requires
            n == m + 1,
    ;
    if k < m {
        lemma_repeated_at(s, m, k, i);
    } else {
        assert(k * s.len() == m * s.len());
        assert(0 <= m * s.len()) by (nonlinear_arith);
    }
}

/// A text written `n` times is `n` times as long, and each time it is the text.
pub proof fn each_time_it_is_the_text(s: &str, n: usize, res: String, k: int, i: int)
    requires
        call_ensures(repeat, (s, n), res),
    ensures
        res@.len() == n * s@.len(),
        0 <= k < n && 0 <= i < s@.len() ==> res@[k * s@.len() + i] == s@[i],
{
    repeating_multiplies(s@, n as nat);
    if 0 <= k < n && 0 <= i < s@.len() {
        lemma_repeated_at(s@, n as nat, k, i);
    }
}

} // verus!
