//! Per-letter feedback and the facts derived from it.

use crate::text::push_char;
use vstd::prelude::*;
use vstd::string::StrSliceExecFns;

verus! {

/// What the puzzle reports about one letter of a guess.
#[derive(Clone, Copy, Debug, PartialEq, Eq, Structural)]
pub enum LetterStatus {
    /// The letter stands at this position in the solution.
    Correct,
    /// The letter occurs in the solution, but not at this position.
    WrongSpot,
    /// The letter does not occur in the solution.
    NotInWord,
}

/// One fact about the solution: `letter`, guessed at `position`, was reported as `status`.
#[derive(Clone, Copy, Debug, PartialEq, Eq, Structural)]
pub struct Assignment {
    pub letter: char,
    pub position: usize,
    pub status: LetterStatus,
}

/// `word` has `letter` at index `position`.
pub open spec fn has_letter_at(word: Seq<char>, position: int, letter: char) -> bool {
    0 <= position < word.len() && word[position] == letter
}

impl Assignment {
    /// Whether `word` agrees with this fact.
    pub open spec fn holds_for(self, word: Seq<char>) -> bool {
        match self.status {
            LetterStatus::Correct => has_letter_at(word, self.position as int, self.letter),
            LetterStatus::WrongSpot => word.contains(self.letter) && !has_letter_at(
                word,
                self.position as int,
                self.letter,
            ),
            LetterStatus::NotInWord => !word.contains(self.letter),
        }
    }
}

/// What went wrong with a guess or with the facts.
#[derive(Clone, Copy, Debug, PartialEq, Eq, Structural)]
pub enum PuzzleError {
    /// The guess does not have one feedback symbol per letter.
    LengthMismatch,
    /// The feedback text holds something other than the three feedback
    /// symbols; `position` is the index of the first such grapheme.
    MalformedFeedbackSymbol { position: usize },
    /// More letters are confirmed than a puzzle word has positions: the
    /// feedback recorded cannot be that of one puzzle.
    InvariantViolation,
}

/// The status that a feedback symbol stands for: `X` for a letter in its
/// place, `.` for a letter in the wrong spot, `-` for a letter not in the word.
pub open spec fn status_of_symbol(symbol: Seq<char>) -> Option<LetterStatus> {
    if symbol == seq!['X'] {
        Some(LetterStatus::Correct)
    } else if symbol == seq!['.'] {
        Some(LetterStatus::WrongSpot)
    } else if symbol == seq!['-'] {
        Some(LetterStatus::NotInWord)
    } else {
        None
    }
}

/// The index of the first of `symbols` that is no feedback symbol, or their
/// number if each of them is one.
pub open spec fn first_malformed(symbols: Seq<Seq<char>>) -> int
    decreases symbols.len(),
{
    if symbols.len() == 0 || status_of_symbol(symbols.first()) is None {
        0
    } else {
        1 + first_malformed(symbols.drop_first())
    }
}

/// What a feedback text, given as its graphemes, says: one status per
/// symbol, or the place of the first grapheme that is no feedback symbol.
pub open spec fn parse_feedback(symbols: Seq<Seq<char>>) -> Result<Seq<LetterStatus>, PuzzleError> {
    let bad = first_malformed(symbols);
    if 0 <= bad < symbols.len() {
        Err(PuzzleError::MalformedFeedbackSymbol { position: bad as usize })
    } else {
        Ok(Seq::new(symbols.len(), |i: int| status_of_symbol(symbols[i]).unwrap()))
    }
}

/// One row of a display: the coloured squares of `statuses`, then a line feed.
pub open spec fn row_of(statuses: Seq<LetterStatus>) -> Seq<char> {
    Seq::new(statuses.len(), |i: int| statuses[i].square_of()).push('\n')
}

/// The first malformed symbol is the one that no feedback symbol precedes.
pub proof fn lemma_first_malformed(symbols: Seq<Seq<char>>, bad: int)
    requires
        0 <= bad <= symbols.len(),
        forall|i: int| 0 <= i < bad ==> status_of_symbol(#[trigger] symbols[i]) is Some,
        bad == symbols.len() || status_of_symbol(symbols[bad]) is None,
    ensures
        first_malformed(symbols) == bad,
    decreases bad,
{
    if bad > 0 {
        assert(status_of_symbol(symbols[0]) is Some);
        assert forall|i: int| 0 <= i < bad - 1 implies status_of_symbol(
            #[trigger] symbols.drop_first()[i],
        ) is Some by {
            assert(symbols.drop_first()[i] == symbols[i + 1]);
        }
        lemma_first_malformed(symbols.drop_first(), bad - 1);
    }
}

impl LetterStatus {
    /// The coloured square that shows this status: green for a letter in its
    /// place, yellow for a letter in the wrong spot, white for a letter not
    /// in the word.
    pub open spec fn square_of(self) -> char {
        match self {
            LetterStatus::Correct => '\u{1F7E9}',
            LetterStatus::WrongSpot => '\u{1F7E8}',
            LetterStatus::NotInWord => '\u{2B1C}',
        }
    }

    /// The coloured square that shows this status.
    pub fn square(&self) -> (square: char)
        ensures
            square == self.square_of(),
    {
        match self {
            LetterStatus::Correct => '\u{1F7E9}',
            LetterStatus::WrongSpot => '\u{1F7E8}',
            LetterStatus::NotInWord => '\u{2B1C}',
        }
    }

    /// This status as display text: its coloured square.
    pub fn render(&self) -> (text: String)
        ensures
            text@ == seq![self.square_of()],
    {
        let mut text = String::new();
        push_char(&mut text, self.square());
        text
    }

    /// The status that the feedback symbol `symbol` stands for, if it is one.
    pub fn from_symbol(symbol: &String) -> (status: Option<LetterStatus>)
        ensures
            status == status_of_symbol(symbol@),
    {
        let text = symbol.as_str();
        if text.unicode_len() != 1 {
            return None;
        }
        let c = text.get_char(0);
        assert(symbol@ == seq![c]);
        if c == 'X' {
            Some(LetterStatus::Correct)
        } else if c == '.' {
            Some(LetterStatus::WrongSpot)
        } else if c == '-' {
            Some(LetterStatus::NotInWord)
        } else {
            None
        }
    }
}

/// Reads the statuses out of a feedback text given as its graphemes.
pub fn statuses_of_symbols(symbols: &Vec<String>) -> (statuses: Result<
    Vec<LetterStatus>,
    PuzzleError,
>)
    ensures
        match statuses {
            Ok(list) => parse_feedback(symbols.deep_view()) == Ok::<
                Seq<LetterStatus>,
                PuzzleError,
            >(list@),
            Err(error) => parse_feedback(symbols.deep_view()) == Err::<
                Seq<LetterStatus>,
                PuzzleError,
            >(error),
        },
{
    let ghost all = symbols.deep_view();
    let mut statuses: Vec<LetterStatus> = Vec::new();
    let mut i: usize = 0;
    while i < symbols.len()
        invariant
            i <= symbols.len(),
            all == symbols.deep_view(),
            statuses.len() == i,
            forall|j: int|
                0 <= j < i ==> status_of_symbol(#[trigger] all[j]) == Some(statuses@[j]),
        decreases symbols.len() - i,
    {
        match LetterStatus::from_symbol(&symbols[i]) {
            Some(status) => {
                statuses.push(status);
            },
            None => {
                proof {
                    lemma_first_malformed(all, i as int);
                }
                return Err(PuzzleError::MalformedFeedbackSymbol { position: i });
            },
        }
        i += 1;
    }
    proof {
        lemma_first_malformed(all, i as int);
        assert(statuses@ == Seq::new(all.len(), |i: int| status_of_symbol(all[i]).unwrap()));
    }
    Ok(statuses)
}

} // verus!
