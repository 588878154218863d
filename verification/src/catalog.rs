//! The catalog of display names: a mapping from numeric code to name, read
//! once from a text resource of newline-separated lines with tab-separated
//! fields.
//!
//! A line counts when its first field is a number: an optional `+` and then
//! decimal digits whose value fits in 64 bits. Its second field is the name;
//! a line without a second field gives the empty name. Every other line
//! (a header, a blank line) is passed over. Of two lines with one code the
//! later one holds.
//!
//! Asking for a code that the resource does not list is answered with a
//! placeholder, `unknown(` code `)`, by [`Catalog::lookup`], and with
//! `None` by [`Catalog::name`].

use std::collections::HashMap;
use vstd::prelude::*;
use vstd::slice::slice_subrange;
use vstd::string::{StrSliceExecFns, StringExecFns};
use crate::text::{decimal, push_decimal};

verus! {

broadcast use vstd::std_specs::hash::group_hash_axioms;

/// The position of the first `mark` in `text` at or after `from`, or the
/// length of `text` when there is none.
pub open spec fn next_mark(text: Seq<char>, mark: char, from: int) -> int
    decreases text.len() - from,
{
    if from >= text.len() {
        text.len() as int
    } else if text[from] == mark {
        from
    } else {
        next_mark(text, mark, from + 1)
    }
}

/// The pieces of `text` from `from` on that lie between occurrences of
/// `mark`.
pub open spec fn pieces_from(text: Seq<char>, mark: char, from: int) -> Seq<Seq<char>>
    decreases text.len() - from,
{
    let end = next_mark(text, mark, from);
    if from < 0 || from > text.len() {
        Seq::empty()
    } else if end >= text.len() {
        seq![text.subrange(from, text.len() as int)]
    } else {
        proof {
            lemma_next_mark_bounds(text, mark, from);
        }
        seq![text.subrange(from, end)] + pieces_from(text, mark, end + 1)
    }
}

/// The pieces of `text` that lie between occurrences of `mark`: one more
/// than there are marks, empty pieces included.
pub open spec fn pieces(text: Seq<char>, mark: char) -> Seq<Seq<char>> {
    pieces_from(text, mark, 0)
}

/// Whether `c` is a decimal digit.
pub open spec fn is_digit(c: char) -> bool {
    '0' <= c && c <= '9'
}

/// The value of the digit `c`; zero for any other character.
pub open spec fn digit_value(c: char) -> nat {
    if is_digit(c) {
        (c as u32 - '0' as u32) as nat
    } else {
        0
    }
}

/// The number that the decimal digits `digits` spell.
pub open spec fn number(digits: Seq<char>) -> nat
    decreases digits.len(),
{
    if digits.len() == 0 {
        0
    } else {
        number(digits.drop_last()) * 10 + digit_value(digits.last())
    }
}

/// Whether `text` is one or more decimal digits.
pub open spec fn is_number(text: Seq<char>) -> bool {
    text.len() > 0 && forall|i: int| 0 <= i < text.len() ==> is_digit(#[trigger] text[i])
}

/// `field` without its leading `+`, if it has one.
pub open spec fn unsigned_part(field: Seq<char>) -> Seq<char> {
    if field.len() > 0 && field[0] == '+' {
        field.drop_first()
    } else {
        field
    }
}

/// The code that `field` spells, if it spells one.
pub open spec fn code_of(field: Seq<char>) -> Option<u64> {
    let digits = unsigned_part(field);
    if is_number(digits) && number(digits) <= u64::MAX {
        Some(number(digits) as u64)
    } else {
        None
    }
}

/// The entry that `line` gives, if its first field is a code.
pub open spec fn entry_of(line: Seq<char>) -> Option<(u64, Seq<char>)> {
    let fields = pieces(line, '\t');
    match code_of(fields[0]) {
        Some(code) => Some(
            (
                code,
                if fields.len() > 1 {
                    fields[1]
                } else {
                    Seq::empty()
                },
            ),
        ),
        None => None,
    }
}

/// The mapping that `lines` give when entered in order.
pub open spec fn listed(lines: Seq<Seq<char>>) -> Map<u64, Seq<char>>
    decreases lines.len(),
{
    if lines.len() == 0 {
        Map::empty()
    } else {
        let earlier = listed(lines.drop_last());
        match entry_of(lines.last()) {
            Some((code, name)) => earlier.insert(code, name),
            None => earlier,
        }
    }
}

/// The mapping that the resource `text` gives.
pub open spec fn catalog_of(text: Seq<char>) -> Map<u64, Seq<char>> {
    listed(pieces(text, '\n'))
}

/// What is shown for `code`: its name, or a placeholder when `names` does
/// not list it.
pub open spec fn shown(names: Map<u64, Seq<char>>, code: u64) -> Seq<char> {
    if names.contains_key(code) {
        names[code]
    } else {
        "unknown("@ + decimal(code as nat) + ")"@
    }
}

/// The number spelled by the first digits of a number is no larger than the
/// number itself.
pub proof fn lemma_number_grows(digits: Seq<char>, count: int)
    requires
        0 <= count <= digits.len(),
    ensures
        number(digits.take(count)) <= number(digits),
    decreases digits.len(),
{
    if count == digits.len() {
        assert(digits.take(count) =~= digits);
    } else {
        lemma_number_grows(digits.drop_last(), count);
        assert(digits.drop_last().take(count) =~= digits.take(count));
    }
}

/// The first piece from `from` ends at the next mark; the other pieces are
/// those that follow the mark.
pub proof fn lemma_first_piece(text: Seq<char>, mark: char, from: int)
    requires
        0 <= from <= text.len(),
    ensures
        from <= next_mark(text, mark, from) <= text.len(),
        pieces_from(text, mark, from).len() >= 1,
        pieces_from(text, mark, from)[0] == text.subrange(from, next_mark(text, mark, from)),
        next_mark(text, mark, from) >= text.len() ==> pieces_from(text, mark, from).len() == 1,
        next_mark(text, mark, from) < text.len() ==> pieces_from(text, mark, from) == seq![
            text.subrange(from, next_mark(text, mark, from)),
        ] + pieces_from(text, mark, next_mark(text, mark, from) + 1),
{
    lemma_next_mark_bounds(text, mark, from);
}

/// A mark found lies at or after the start and within the text.
pub proof fn lemma_next_mark_bounds(text: Seq<char>, mark: char, from: int)
    requires
        0 <= from <= text.len(),
    ensures
        from <= next_mark(text, mark, from) <= text.len(),
        next_mark(text, mark, from) < text.len() ==> text[next_mark(text, mark, from)] == mark,
        forall|i: int| from <= i < next_mark(text, mark, from) ==> text[i] != mark,
    decreases text.len() - from,
{
    if from < text.len() && text[from] != mark {
        lemma_next_mark_bounds(text, mark, from + 1);
    }
}

/// A line whose first field is no code changes nothing, wherever it stands
/// among the lines.
pub proof fn lemma_line_without_code_is_passed_over(
    before: Seq<Seq<char>>,
    line: Seq<char>,
    after: Seq<Seq<char>>,
)
    requires
        code_of(pieces(line, '\t')[0]) is None,
    ensures
        listed(before + seq![line] + after) == listed(before + after),
    decreases after.len(),
{
    let with = before + seq![line] + after;
    let without = before + after;
    if after.len() == 0 {
        assert(with.drop_last() =~= before);
        assert(without =~= before);
    } else {
        let shorter = after.drop_last();
        assert(with.drop_last() =~= before + seq![line] + shorter);
        assert(without.drop_last() =~= before + shorter);
        assert(with.last() == after.last());
        assert(without.last() == after.last());
        lemma_line_without_code_is_passed_over(before, line, shorter);
    }
}

/// The last line of a code holds: its name is the one listed, whatever the
/// lines before it say.
pub proof fn lemma_later_line_holds(earlier: Seq<Seq<char>>, line: Seq<char>)
    requires
        entry_of(line) is Some,
    ensures
        listed(earlier.push(line)).contains_key(entry_of(line).unwrap().0),
        listed(earlier.push(line))[entry_of(line).unwrap().0] == entry_of(line).unwrap().1,
        forall|code: u64|
            code != entry_of(line).unwrap().0 ==> (listed(earlier.push(line)).contains_key(code)
                <==> listed(earlier).contains_key(code)),
{
    assert(earlier.push(line).drop_last() =~= earlier);
}

/// The characters of `text`, one by one.
pub fn characters(text: &str) -> (chars: Vec<char>)
    ensures
        chars@ == text@,
{
    let mut chars: Vec<char> = Vec::new();
    for c in it: text.chars()
        invariant
            it.seq() == text@,
            chars@ == it.seq().take(it.index()),
    {
        chars.push(c);
        assert(chars@ =~= it.seq().take(it.index() + 1));
    }
    assert(chars@ =~= text@);
    chars
}

/// Finds the first `mark` at or after `from`.
pub fn find_mark(text: &[char], mark: char, from: usize) -> (at: usize)
    requires
        from <= text.len(),
    ensures
        at == next_mark(text@, mark, from as int),
        from <= at <= text.len(),
{
    let mut at: usize = from;
    while at < text.len() && text[at] != mark
        invariant
            from <= at <= text.len(),
            next_mark(text@, mark, from as int) == next_mark(text@, mark, at as int),
        decreases text.len() - at,
    {
        at += 1;
    }
    at
}

/// Reads the code that `field` spells, if it spells one.
pub fn parse_code(field: &[char]) -> (code: Option<u64>)
    ensures
        code == code_of(field@),
{
    let start: usize = if field.len() > 0 && field[0] == '+' {
        1
    } else {
        0
    };
    let digits = slice_subrange(field, start, field.len());
    assert(digits@ =~= unsigned_part(field@));
    if digits.len() == 0 {
        return None;
    }
    let mut value: u64 = 0;
    let mut i: usize = 0;
    while i < digits.len()
        invariant
            i <= digits.len(),
            digits@ == unsigned_part(field@),
            value == number(digits@.take(i as int)),
            forall|j: int| 0 <= j < i ==> is_digit(#[trigger] digits@[j]),
        decreases digits.len() - i,
    {
        let c = digits[i];
        if !('0' <= c && c <= '9') {
            assert(!is_digit(digits@[i as int]));
            return None;
        }
        let d: u64 = (c as u32 - '0' as u32) as u64;
        proof {
            let longer = digits@.take(i as int + 1);
            assert(longer.drop_last() =~= digits@.take(i as int));
            assert(longer.last() == c);
            assert(number(longer) == value * 10 + d);
            lemma_number_grows(digits@, i as int + 1);
        }
        if value > (u64::MAX - d) / 10 {
            return None;
        }
        value = value * 10 + d;
        i += 1;
    }
    assert(digits@.take(digits.len() as int) =~= digits@);
    Some(value)
}

/// The catalog of display names.
pub struct Catalog {
    names: HashMap<u64, String>,
}

impl View for Catalog {
    type V = Map<u64, Seq<char>>;

    closed spec fn view(&self) -> Map<u64, Seq<char>> {
        Map::new(|code: u64| self.names@.contains_key(code), |code: u64| self.names@[code]@)
    }
}

impl Catalog {
    /// The catalog without any entry.
    pub fn new() -> (catalog: Catalog)
        ensures
            catalog@ == Map::<u64, Seq<char>>::empty(),
    {
        let catalog = Catalog { names: HashMap::new() };
        assert(catalog@ =~= Map::<u64, Seq<char>>::empty());
        catalog
    }

    /// Enters `name` under `code`, in place of an earlier name if there is
    /// one.
    pub fn insert(&mut self, code: u64, name: &str)
        ensures
            final(self)@ == old(self)@.insert(code, name@),
    {
        self.names.insert(code, name.to_owned());
        assert(self@ =~= old(self)@.insert(code, name@));
    }

    /// Reads the resource `text`.
    pub fn load(text: &str) -> (catalog: Catalog)
        ensures
            catalog@ == catalog_of(text@),
    {
        let chars = characters(text);
        let mut catalog = Catalog::new();
        let mut from: usize = 0;
        let ghost mut done: Seq<Seq<char>> = Seq::empty();
        loop
            invariant_except_break
                from <= chars.len(),
                chars@ == text@,
                pieces(text@, '\n') == done + pieces_from(text@, '\n', from as int),
                catalog@ == listed(done),
            ensures
                catalog@ == catalog_of(text@),
            decreases chars.len() - from,
        {
            let end = find_mark(chars.as_slice(), '\n', from);
            let line = slice_subrange(chars.as_slice(), from, end);
            let ghost earlier = done;
            proof {
                lemma_first_piece(text@, '\n', from as int);
                done = done.push(line@);
                assert(done.drop_last() =~= earlier);
            }
            catalog.enter_line(text, from, line);
            if end >= chars.len() {
                assert(done =~= pieces(text@, '\n'));
                break ;
            }
            assert(earlier + pieces_from(text@, '\n', from as int) =~= done + pieces_from(
                text@,
                '\n',
                end as int + 1,
            ));
            from = end + 1;
        }
        catalog
    }

    /// Enters what the line `line`, which starts at character `from` of
    /// `text`, gives.
    fn enter_line(&mut self, text: &str, from: usize, line: &[char])
        requires
            text@.len() <= usize::MAX,
            from + line.len() <= text@.len(),
            line@ == text@.subrange(from as int, from + line.len()),
        ensures
            final(self)@ == match entry_of(line@) {
                Some((code, name)) => old(self)@.insert(code, name),
                None => old(self)@,
            },
    {
        let first_end = find_mark(line, '\t', 0);
        let first = slice_subrange(line, 0, first_end);
        proof {
            lemma_first_piece(line@, '\t', 0);
        }
        match parse_code(first) {
            Some(code) => {
                if first_end < line.len() {
                    let second_end = find_mark(line, '\t', first_end + 1);
                    let name = text.substring_char(from + first_end + 1, from + second_end);
                    proof {
                        lemma_first_piece(line@, '\t', first_end as int + 1);
                        assert(name@ =~= line@.subrange(first_end as int + 1, second_end as int));
                    }
                    self.insert(code, name);
                } else {
                    proof {
                        reveal_strlit("");
                    }
                    self.insert(code, "");
                    assert(""@ =~= Seq::<char>::empty());
                }
            },
            None => {},
        }
    }

    /// Whether the catalog lists `code`.
    pub fn contains(&self, code: u64) -> (found: bool)
        ensures
            found == self@.contains_key(code),
    {
        self.names.contains_key(&code)
    }

    /// The number of codes listed.
    pub fn len(&self) -> (count: usize)
        ensures
            count == self@.len(),
    {
        proof {
            assert(self@.dom() =~= self.names@.dom());
        }
        self.names.len()
    }

    /// The name of `code`, if the catalog lists it.
    pub fn name(&self, code: u64) -> (name: Option<String>)
        ensures
            self@.contains_key(code) ==> name is Some && name.unwrap()@ == self@[code],
            !self@.contains_key(code) ==> name is None,
    {
        match self.names.get(&code) {
            Some(name) => Some(name.clone()),
            None => None,
        }
    }

    /// What is shown for `code`: its name, or the placeholder `unknown(`
    /// code `)` when the catalog does not list it.
    pub fn lookup(&self, code: u64) -> (text: String)
        ensures
            text@ == shown(self@, code),
    {
        match self.names.get(&code) {
            Some(name) => name.clone(),
            None => {
                let mut out = String::from_str("unknown(");
                push_decimal(&mut out, code as u128);
                out.append(")");
                out
            },
        }
    }
}

} // verus!
