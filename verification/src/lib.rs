//! A solver for five-letter word-guessing puzzles.
//!
//! Every guess draws one status per letter: in its place, in the wrong spot,
//! or not in the word. A [`Puzzle`] keeps what the guesses taught as facts,
//! tells which words of its dictionary still agree with every fact, and
//! proposes the one that promises to teach the most.
//!
//! - [`puzzle`] holds the session: recording guesses, filtering words,
//!   proposing the next guess, reading off the solution.
//! - [`facts`] says, over sequences of facts, what recording and solving
//!   mean, and proves the laws that recording obeys.
//! - [`feedback`] has the statuses, the facts, the errors, and the symbols
//!   that stand for statuses in text and on display.
//! - [`score`] is the heuristic that ranks candidate words.
//! - [`dictionary`] reads a word list, one word per line.
//! - [`solver`] steps a solve loop, and answers a host that hands over its
//!   whole history at once.
//! - [`text`] has strings as sequences of characters, and the few calls
//!   into Unicode tables that the rest relies on.

pub mod dictionary;
pub mod facts;
pub mod feedback;
pub mod puzzle;
pub mod score;
pub mod solver;
pub mod text;

pub use feedback::{Assignment, LetterStatus, PuzzleError};
pub use puzzle::Puzzle;
pub use score::{checked_score, score_for_potential_guess};
pub use solver::{perform_next_guess, run, PuzzleGuess, PuzzleState, SolveState};
