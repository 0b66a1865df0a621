//! Reading a dictionary: one word per line, kept if it has the length of a
//! puzzle word once the white space around it is gone, and held in upper case.

use crate::facts::WORD_LENGTH;
use crate::text::{chars_of, is_white_space, is_whitespace, string_of, to_uppercase, uppercase};
use vstd::prelude::*;

verus! {

/// `text` without the white space it starts with.
pub open spec fn trim_start(text: Seq<char>) -> Seq<char>
    decreases text.len(),
{
    if text.len() > 0 && is_white_space(text.first()) {
        trim_start(text.drop_first())
    } else {
        text
    }
}

/// `text` without the white space it ends with.
pub open spec fn trim_end(text: Seq<char>) -> Seq<char>
    decreases text.len(),
{
    if text.len() > 0 && is_white_space(text.last()) {
        trim_end(text.drop_last())
    } else {
        text
    }
}

/// `text` without the white space around it.
pub open spec fn trimmed(text: Seq<char>) -> Seq<char> {
    trim_end(trim_start(text))
}

/// The length of the first line of `text`: the index of its first line feed,
/// or its length if it has none.
pub open spec fn first_line_len(text: Seq<char>) -> int
    decreases text.len(),
{
    if text.len() == 0 || text.first() == '\n' {
        0
    } else {
        1 + first_line_len(text.drop_first())
    }
}

/// The lines of `text`: the pieces between its line feeds. A text with `n`
/// line feeds has `n + 1` lines, some of which may be empty.
pub open spec fn lines_of(text: Seq<char>) -> Seq<Seq<char>>
    decreases text.len(),
{
    let end = first_line_len(text);
    if 0 <= end < text.len() {
        seq![text.take(end)] + lines_of(text.skip(end + 1))
    } else {
        seq![text]
    }
}

/// The dictionary entry that a line yields, if any: the line without the
/// white space around it, in upper case, where that has the length of a
/// puzzle word.
pub open spec fn entry_of(line: Seq<char>) -> Option<Seq<char>> {
    let word = trimmed(line);
    if word.len() == WORD_LENGTH {
        Some(uppercase(word))
    } else {
        None
    }
}

/// The entries that `lines` yield, in order.
pub open spec fn entries_of(lines: Seq<Seq<char>>) -> Seq<Seq<char>>
    decreases lines.len(),
{
    if lines.len() == 0 {
        Seq::empty()
    } else {
        match entry_of(lines.last()) {
            Some(word) => entries_of(lines.drop_last()).push(word),
            None => entries_of(lines.drop_last()),
        }
    }
}

/// The dictionary that a text with one word per line holds.
pub open spec fn dictionary_of(text: Seq<char>) -> Seq<Seq<char>> {
    entries_of(lines_of(text))
}

/// The first line ends at the first line feed, or with the text.
pub proof fn lemma_first_line_len(text: Seq<char>, end: int)
    requires
        0 <= end <= text.len(),
        forall|i: int| 0 <= i < end ==> text[i] != '\n',
        end == text.len() || text[end] == '\n',
    ensures
        first_line_len(text) == end,
    decreases end,
{
    if end > 0 {
        lemma_first_line_len(text.drop_first(), end - 1);
    }
}

/// Where `chars[from..to]`, without the white space around it, begins and ends.
fn trim_bounds(chars: &Vec<char>, from: usize, to: usize) -> (bounds: (usize, usize))
    requires
        from <= to <= chars.len(),
    ensures
        from <= bounds.0 <= bounds.1 <= to,
        chars@.subrange(bounds.0 as int, bounds.1 as int) == trimmed(
            chars@.subrange(from as int, to as int),
        ),
{
    let ghost all = chars@;
    let mut start: usize = from;
    let mut found = false;
    while !found && start < to
        invariant
            from <= start <= to <= chars.len(),
            all == chars@,
            trim_start(all.subrange(from as int, to as int)) == trim_start(
                all.subrange(start as int, to as int),
            ),
            found ==> start < to && !is_white_space(all[start as int]),
        decreases to - start + if found { 0int } else { 1int },
    {
        if is_whitespace(chars[start]) {
            assert(all.subrange(start as int, to as int).drop_first() == all.subrange(
                start + 1,
                to as int,
            ));
            start += 1;
        } else {
            found = true;
        }
    }
    assert(trim_start(all.subrange(start as int, to as int)) == all.subrange(
        start as int,
        to as int,
    ));
    let mut end: usize = to;
    let mut found = false;
    while !found && start < end
        invariant
            start <= end <= to <= chars.len(),
            all == chars@,
            trim_end(all.subrange(start as int, to as int)) == trim_end(
                all.subrange(start as int, end as int),
            ),
            found ==> start < end && !is_white_space(all[end - 1]),
        decreases end - start + if found { 0int } else { 1int },
    {
        if is_whitespace(chars[end - 1]) {
            assert(all.subrange(start as int, end as int).drop_last() == all.subrange(
                start as int,
                end - 1,
            ));
            end -= 1;
        } else {
            found = true;
        }
    }
    assert(trim_end(all.subrange(start as int, end as int)) == all.subrange(
        start as int,
        end as int,
    ));
    (start, end)
}

/// The dictionary entry that the line `chars[from..to]` yields, if any.
fn entry(chars: &Vec<char>, from: usize, to: usize) -> (word: Option<String>)
    requires
        from <= to <= chars.len(),
    ensures
        match word {
            Some(text) => entry_of(chars@.subrange(from as int, to as int)) == Some(text@),
            None => entry_of(chars@.subrange(from as int, to as int)) is None,
        },
{
    let (start, end) = trim_bounds(chars, from, to);
    if end - start == WORD_LENGTH {
        let word = string_of(chars, start, end);
        Some(to_uppercase(word.as_str()))
    } else {
        None
    }
}

/// Reads a dictionary from a text with one word per line.
pub fn read_dictionary(input: &str) -> (words: Vec<String>)
    ensures
        words.deep_view() == dictionary_of(input@),
{
    let chars = chars_of(input);
    let ghost all = chars@;
    let mut words: Vec<String> = Vec::new();
    let ghost mut lines: Seq<Seq<char>> = Seq::empty();
    let mut start: usize = 0;
    let mut i: usize = 0;
    proof {
        assert(all.skip(0) == all);
        assert(lines + lines_of(all) == lines_of(all));
    }
    while i < chars.len()
        invariant
            start <= i <= chars.len(),
            all == chars@,
            forall|j: int| start <= j < i ==> all[j] != '\n',
            lines_of(all) == lines + lines_of(all.skip(start as int)),
            words.deep_view() == entries_of(lines),
        decreases chars.len() - i,
    {
        if chars[i] == '\n' {
            let ghost rest = all.skip(start as int);
            let ghost line = all.subrange(start as int, i as int);
            proof {
                lemma_first_line_len(rest, i - start);
                assert(rest.take(i - start) == line);
                assert(rest.skip(i - start + 1) == all.skip(i + 1));
                assert(lines + (seq![line] + lines_of(all.skip(i + 1))) == lines.push(line)
                    + lines_of(all.skip(i + 1)));
                assert(lines.push(line).drop_last() == lines);
            }
            let ghost before = words.deep_view();
            match entry(&chars, start, i) {
                Some(word) => {
                    words.push(word);
                    assert(words.deep_view() == before.push(word@));
                },
                None => {},
            }
            proof {
                lines = lines.push(line);
            }
            start = i + 1;
        }
        i += 1;
    }
    let ghost rest = all.skip(start as int);
    proof {
        lemma_first_line_len(rest, rest.len() as int);
        assert(rest == all.subrange(start as int, i as int));
        assert(lines + seq![rest] == lines.push(rest));
        assert(lines.push(rest).drop_last() == lines);
    }
    let ghost before = words.deep_view();
    match entry(&chars, start, i) {
        Some(word) => {
            words.push(word);
            assert(words.deep_view() == before.push(word@));
        },
        None => {},
    }
    words
}

} // verus!
