//! The solve loop as decisions: what to do after a proposal and after
//! feedback, and the next guess for a host that hands over its whole history.

use crate::dictionary::dictionary_of;
use crate::feedback::{Assignment, PuzzleError};
use crate::puzzle::{checked_solution_of, opening_word, suggestion, Puzzle, PuzzleView};
use crate::text::{
    extended_grapheme_clusters, lowercase, text_of, to_lowercase, to_uppercase, uppercase,
};
use vstd::prelude::*;

verus! {

/// Where a solve loop stands.
#[derive(Debug, PartialEq, Eq)]
pub enum SolveState {
    /// A guess is to be proposed.
    AwaitingGuess,
    /// This guess was proposed, and its feedback is to come.
    AwaitingFeedback(String),
    /// The puzzle is solved, with this word.
    Solved(String),
    /// No word of the dictionary agrees with what is known.
    Stuck,
}

/// A [`SolveState`] with its words as sequences of characters.
pub enum SolveStateView {
    AwaitingGuess,
    AwaitingFeedback(Seq<char>),
    Solved(Seq<char>),
    Stuck,
}

impl View for SolveState {
    type V = SolveStateView;

    open spec fn view(&self) -> SolveStateView {
        match self {
            SolveState::AwaitingGuess => SolveStateView::AwaitingGuess,
            SolveState::AwaitingFeedback(word) => SolveStateView::AwaitingFeedback(word@),
            SolveState::Solved(word) => SolveStateView::Solved(word@),
            SolveState::Stuck => SolveStateView::Stuck,
        }
    }
}

/// The state that follows a proposal: its feedback is awaited, or the loop
/// is stuck where there was none.
pub open spec fn after_proposal(proposal: Option<Seq<char>>) -> SolveStateView {
    match proposal {
        Some(word) => SolveStateView::AwaitingFeedback(word),
        None => SolveStateView::Stuck,
    }
}

/// The state that follows feedback that left `facts`: an error where too
/// many letters are confirmed, the solution where the facts spell one, and
/// another guess otherwise.
pub open spec fn after_feedback(facts: Seq<Assignment>) -> Result<SolveStateView, PuzzleError> {
    match checked_solution_of(facts) {
        Ok(Some(word)) => Ok(SolveStateView::Solved(word)),
        Ok(None) => Ok(SolveStateView::AwaitingGuess),
        Err(error) => Err(error),
    }
}

/// A step's outcome with its words as sequences of characters.
pub open spec fn outcome_of(state: Result<SolveState, PuzzleError>) -> Result<
    SolveStateView,
    PuzzleError,
> {
    match state {
        Ok(next) => Ok(next@),
        Err(error) => Err(error),
    }
}

/// Proposes a guess: the step out of [`SolveState::AwaitingGuess`].
pub fn propose(puzzle: &Puzzle) -> (state: SolveState)
    ensures
        state@ == after_proposal(suggestion(puzzle@.facts, puzzle@.dictionary)),
{
    match puzzle.suggest_word() {
        Some(word) => SolveState::AwaitingFeedback(word),
        None => SolveState::Stuck,
    }
}

/// Takes in the feedback on the guess `word`: the step out of
/// [`SolveState::AwaitingFeedback`].
///
/// Feedback that is refused changes nothing, and the error says why. Once
/// recorded, the facts decide how the loop goes on.
pub fn accept_feedback(puzzle: &mut Puzzle, word: String, input: &str) -> (state: Result<
    SolveState,
    PuzzleError,
>)
    ensures
        match old(puzzle)@.reported(word@, extended_grapheme_clusters(input@)) {
            Ok(after) => final(puzzle)@ == after && outcome_of(state) == after_feedback(
                after.facts,
            ),
            Err(error) => state == Err::<SolveState, PuzzleError>(error) && final(puzzle)@ == old(
                puzzle,
            )@,
        },
{
    match puzzle.assign_guess_from_cli(word, input) {
        Ok(()) => {},
        Err(error) => {
            return Err(error);
        },
    }
    match puzzle.checked_solution() {
        Ok(Some(word)) => Ok(SolveState::Solved(word)),
        Ok(None) => Ok(SolveState::AwaitingGuess),
        Err(error) => Err(error),
    }
}

/// One guess as a host reports it: the word, and its feedback as text.
#[derive(Debug, PartialEq, Eq)]
pub struct PuzzleGuess {
    pub word: String,
    pub results: String,
}

/// The history that a host hands over: its guesses, oldest first.
#[derive(Debug, PartialEq, Eq)]
pub struct PuzzleState {
    pub guesses: Vec<PuzzleGuess>,
}

/// The session after the first `k` of `guesses` are replayed on `view`, each
/// word taken in upper case. A guess whose feedback holds a malformed symbol
/// is passed over; one whose feedback does not match its length ends the
/// replay with that error.
pub open spec fn replayed(view: PuzzleView, guesses: Seq<PuzzleGuess>, k: int) -> Result<
    PuzzleView,
    PuzzleError,
>
    decreases k,
{
    if k <= 0 {
        Ok(view)
    } else {
        match replayed(view, guesses, k - 1) {
            Ok(before) => match before.reported(
                uppercase(guesses[k - 1].word@),
                extended_grapheme_clusters(guesses[k - 1].results@),
            ) {
                Ok(after) => Ok(after),
                Err(PuzzleError::MalformedFeedbackSymbol { .. }) => Ok(before),
                Err(error) => Err(error),
            },
            Err(error) => Err(error),
        }
    }
}

/// What to hand a host as its next guess: the proposal in lower case.
pub open spec fn next_guess(view: PuzzleView) -> Option<Seq<char>> {
    match suggestion(view.facts, view.dictionary) {
        Some(word) => Some(lowercase(word)),
        None => None,
    }
}

/// The next guess for a host that hands over its whole history: a session
/// on `dictionary`, the guesses of `state` replayed on it, and the proposal
/// that follows, in lower case; `None` where no word is left to propose.
pub fn perform_next_guess(dictionary: &str, state: &PuzzleState) -> (guess: Result<
    Option<String>,
    PuzzleError,
>)
    ensures
        match replayed(
            PuzzleView::fresh(dictionary_of(dictionary@)),
            state.guesses@,
            state.guesses@.len() as int,
        ) {
            Ok(view) => guess matches Ok(word) && text_of(word) == next_guess(view),
            Err(error) => guess == Err::<Option<String>, PuzzleError>(error),
        },
{
    let mut puzzle = Puzzle::setup(dictionary);
    let ghost fresh = puzzle@;
    let mut i: usize = 0;
    while i < state.guesses.len()
        invariant
            i <= state.guesses.len(),
            fresh == PuzzleView::fresh(dictionary_of(dictionary@)),
            replayed(fresh, state.guesses@, i as int) == Ok::<PuzzleView, PuzzleError>(puzzle@),
        decreases state.guesses.len() - i,
    {
        let guess = &state.guesses[i];
        let word = to_uppercase(guess.word.as_str());
        let ghost before = puzzle@;
        let ghost outcome = before.reported(
            uppercase(guess.word@),
            extended_grapheme_clusters(guess.results@),
        );
        match puzzle.assign_guess_from_cli(word, guess.results.as_str()) {
            Ok(()) => {},
            Err(PuzzleError::MalformedFeedbackSymbol { .. }) => {},
            Err(error) => {
                proof {
                    assert(outcome == Err::<PuzzleView, PuzzleError>(error));
                    lemma_replay_fails(fresh, state.guesses@, i + 1, state.guesses@.len() as int);
                }
                return Err(error);
            },
        }
        i += 1;
    }
    match puzzle.suggest_word() {
        Some(word) => Ok(Some(to_lowercase(word.as_str()))),
        None => Ok(None),
    }
}

/// A replay that has failed stays failed.
proof fn lemma_replay_fails(view: PuzzleView, guesses: Seq<PuzzleGuess>, j: int, k: int)
    requires
        j <= k,
        replayed(view, guesses, j) is Err,
    ensures
        replayed(view, guesses, k) == replayed(view, guesses, j),
    decreases k - j,
{
    if j < k {
        lemma_replay_fails(view, guesses, j, k - 1);
    }
}

/// The first guess for a host: the proposal of a session that has just
/// begun on `dictionary`, which is the opening word whatever the dictionary holds.
pub fn run(dictionary: &str) -> (guess: Option<String>)
    ensures
        text_of(guess) == Some(opening_word()),
{
    let puzzle = Puzzle::setup(dictionary);
    puzzle.suggest_word()
}

} // verus!
