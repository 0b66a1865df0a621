//! The constraint store: facts learned from guesses, and the dictionary they filter.

use crate::dictionary::{dictionary_of, read_dictionary};
use crate::facts::{
    confirmed_before, confirmed_count, confirmed_elsewhere, confirmed_positions_distinct,
    consistent, known_at, learn, lemma_confirmed_before_step, lemma_confirmed_rank,
    lemma_record_idempotent, lemma_spelling_unique, record, record_upto, solution_of, solved,
    spells, unambiguous, WORD_LENGTH,
};
use crate::feedback::{
    parse_feedback, row_of, statuses_of_symbols, Assignment, LetterStatus, PuzzleError,
};
use crate::score::{best_suggestion, checked_score, rank_of, ranks_of, word_rank, Suggestion};
use crate::text::{
    chars_of, contains_letter, extended_grapheme_clusters, graphemes, push_char, string_of,
    text_of, to_uppercase, uppercase,
};
use vstd::prelude::*;

verus! {

/// The word proposed while nothing is known.
pub open spec fn opening_word() -> Seq<char> {
    seq!['R', 'U', 'S', 'T', 'Y']
}

/// Whether `dictionary[i]` is the best candidate: it agrees with `facts`, no
/// word that agrees with them ranks higher, and those after it rank lower.
pub open spec fn is_best_candidate(
    facts: Seq<Assignment>,
    dictionary: Seq<Seq<char>>,
    i: int,
) -> bool {
    &&& 0 <= i < dictionary.len()
    &&& consistent(facts, dictionary[i])
    &&& forall|j: int|
        0 <= j < dictionary.len() && consistent(facts, #[trigger] dictionary[j]) ==> word_rank(
            dictionary[j],
        ) < word_rank(dictionary[i]) || (word_rank(dictionary[j]) == word_rank(dictionary[i])
            && j <= i)
}

/// The next guess: the opening word while nothing is known, then the best
/// candidate of the dictionary in upper case, if any word is a candidate.
pub open spec fn suggestion(facts: Seq<Assignment>, dictionary: Seq<Seq<char>>) -> Option<
    Seq<char>,
> {
    if facts.len() == 0 {
        Some(opening_word())
    } else if exists|i: int| is_best_candidate(facts, dictionary, i) {
        Some(uppercase(dictionary[choose|i: int| is_best_candidate(facts, dictionary, i)]))
    } else {
        None
    }
}

/// At most one word of a dictionary is the best candidate.
pub proof fn lemma_best_candidate_unique(
    facts: Seq<Assignment>,
    dictionary: Seq<Seq<char>>,
    i: int,
    j: int,
)
    requires
        is_best_candidate(facts, dictionary, i),
        is_best_candidate(facts, dictionary, j),
    ensures
        i == j,
{
    assert(consistent(facts, dictionary[i]));
    assert(consistent(facts, dictionary[j]));
}

/// The solution that `facts` spell, if any, unless they confirm more letters
/// than a puzzle word has positions.
pub open spec fn checked_solution_of(facts: Seq<Assignment>) -> Result<
    Option<Seq<char>>,
    PuzzleError,
> {
    if confirmed_count(facts) > WORD_LENGTH {
        Err(PuzzleError::InvariantViolation)
    } else {
        Ok(solution_of(facts))
    }
}

/// The mathematical content of a [`Puzzle`].
pub struct PuzzleView {
    /// The guesses submitted so far with their feedback, oldest first.
    pub guesses: Seq<(Seq<char>, Seq<LetterStatus>)>,
    /// The facts learned so far, in the order they were learned.
    pub facts: Seq<Assignment>,
    /// The candidate words, in dictionary order.
    pub dictionary: Seq<Seq<char>>,
}

impl PuzzleView {
    /// A session that has just begun: the dictionary, and nothing learned.
    pub open spec fn fresh(dictionary: Seq<Seq<char>>) -> PuzzleView {
        PuzzleView { guesses: Seq::empty(), facts: Seq::empty(), dictionary }
    }

    /// The session after the guess `word` drew `statuses`, or why the guess
    /// is refused: it must have one status per letter.
    pub open spec fn recorded(self, word: Seq<char>, statuses: Seq<LetterStatus>) -> Result<
        PuzzleView,
        PuzzleError,
    > {
        if word.len() == statuses.len() {
            Ok(
                PuzzleView {
                    guesses: self.guesses.push((word, statuses)),
                    facts: record(self.facts, word, statuses),
                    dictionary: self.dictionary,
                },
            )
        } else {
            Err(PuzzleError::LengthMismatch)
        }
    }

    /// The session after the guess `word` drew the feedback text whose
    /// graphemes are `symbols`, or why the guess is refused.
    pub open spec fn reported(self, word: Seq<char>, symbols: Seq<Seq<char>>) -> Result<
        PuzzleView,
        PuzzleError,
    > {
        match parse_feedback(symbols) {
            Ok(statuses) => self.recorded(word, statuses),
            Err(error) => Err(error),
        }
    }

    /// The display of the guesses made: one row of squares for each.
    pub open spec fn display(self) -> Seq<char> {
        display_of(self.guesses)
    }
}

/// The rows of `guesses`, one after the other.
pub open spec fn display_of(guesses: Seq<(Seq<char>, Seq<LetterStatus>)>) -> Seq<char>
    decreases guesses.len(),
{
    if guesses.len() == 0 {
        Seq::empty()
    } else {
        display_of(guesses.drop_last()) + row_of(guesses.last().1)
    }
}

/// Idempotent recording: a guess recorded a second time with the same
/// feedback lengthens the history and leaves the facts as the first
/// recording left them.
pub proof fn lemma_recorded_twice(view: PuzzleView, word: Seq<char>, statuses: Seq<LetterStatus>)
    requires
        word.len() == statuses.len(),
    ensures
        view.recorded(word, statuses) matches Ok(once) && once.recorded(word, statuses) matches Ok(
            twice,
        ) && twice.facts == once.facts && twice.guesses == once.guesses.push((word, statuses))
            && twice.dictionary == once.dictionary,
{
    lemma_record_idempotent(view.facts, word, statuses);
}

/// One puzzle session: a dictionary and everything learned about the solution.
pub struct Puzzle {
    guesses: Vec<(String, Vec<LetterStatus>)>,
    assignments: Vec<Assignment>,
    dictionary: Vec<String>,
}

impl View for Puzzle {
    type V = PuzzleView;

    closed spec fn view(&self) -> PuzzleView {
        PuzzleView {
            guesses: Seq::new(
                self.guesses@.len(),
                |i: int| (self.guesses@[i].0@, self.guesses@[i].1@),
            ),
            facts: self.assignments@,
            dictionary: self.dictionary.deep_view(),
        }
    }
}

/// Whether `letters` agrees with the fact `fact`.
pub fn fact_holds(fact: &Assignment, letters: &Vec<char>) -> (pass: bool)
    ensures
        pass == fact.holds_for(letters@),
{
    let at_position = fact.position < letters.len() && letters[fact.position] == fact.letter;
    match fact.status {
        LetterStatus::Correct => at_position,
        LetterStatus::WrongSpot => contains_letter(letters, fact.letter) && !at_position,
        LetterStatus::NotInWord => !contains_letter(letters, fact.letter),
    }
}

impl Puzzle {
    /// The first feedback on a letter at a position stands, and no other joins it.
    #[verifier::type_invariant]
    spec fn first_feedback_stands(self) -> bool {
        unambiguous(self.assignments@)
    }

    /// Begins a session on the dictionary that `input` holds, one word per line.
    pub fn setup(input: &str) -> (puzzle: Puzzle)
        ensures
            puzzle@ == PuzzleView::fresh(dictionary_of(input@)),
    {
        let puzzle = Puzzle {
            guesses: Vec::new(),
            assignments: Vec::new(),
            dictionary: read_dictionary(input),
        };
        assert(puzzle@.guesses == Seq::<(Seq<char>, Seq<LetterStatus>)>::empty());
        puzzle
    }

    /// The guesses recorded so far with their feedback, oldest first.
    pub fn guesses(&self) -> (guesses: &Vec<(String, Vec<LetterStatus>)>)
        ensures
            guesses@.len() == self@.guesses.len(),
            forall|i: int|
                0 <= i < guesses@.len() ==> (#[trigger] guesses@[i]).0@ == self@.guesses[i].0
                    && guesses@[i].1@ == self@.guesses[i].1,
    {
        &self.guesses
    }

    /// The facts learned so far, in the order learned. They hold at most one
    /// feedback on any letter at any position.
    pub fn assignments(&self) -> (facts: &Vec<Assignment>)
        ensures
            facts@ == self@.facts,
            unambiguous(facts@),
    {
        proof {
            use_type_invariant(self);
        }
        &self.assignments
    }

    /// The candidate words, in dictionary order.
    pub fn dictionary(&self) -> (words: &Vec<String>)
        ensures
            words.deep_view() == self@.dictionary,
    {
        &self.dictionary
    }

    /// Whether `word` agrees with every fact learned so far.
    pub fn is_permitted_word(&self, word: &String) -> (permitted: bool)
        ensures
            permitted == consistent(self@.facts, word@),
    {
        let letters = chars_of(word.as_str());
        let mut i: usize = 0;
        while i < self.assignments.len()
            invariant
                i <= self.assignments.len(),
                letters@ == word@,
                forall|j: int| 0 <= j < i ==> (#[trigger] self.assignments@[j]).holds_for(word@),
            decreases self.assignments.len() - i,
        {
            if !fact_holds(&self.assignments[i], &letters) {
                return false;
            }
            i += 1;
        }
        true
    }

    /// Learns one fact, unless some feedback on the letter at the position is
    /// known already: the first feedback stands.
    pub fn assign_letter(&mut self, letter: char, position: usize, status: LetterStatus)
        ensures
            final(self)@.facts == learn(old(self)@.facts, Assignment { letter, position, status }),
            final(self)@.guesses == old(self)@.guesses,
            final(self)@.dictionary == old(self)@.dictionary,
    {
        proof {
            use_type_invariant(&*self);
        }
        let fact = Assignment { letter, position, status };
        if !self.knows(letter, position) {
            let mut assignments: Vec<Assignment> = Vec::new();
            std::mem::swap(&mut assignments, &mut self.assignments);
            assignments.push(fact);
            self.assignments = assignments;
        }
    }

    /// Records a guess and the feedback it drew, one status per letter.
    ///
    /// Each letter yields a fact, taken in from left to right as
    /// [`record_letter`](crate::facts::record_letter) says; the guess joins
    /// the history whatever it taught. A guess whose feedback does not have
    /// one status per letter is refused and changes nothing.
    pub fn assign_guess_results(&mut self, word: String, letter_statuses: Vec<LetterStatus>) -> (done:
        Result<(), PuzzleError>)
        ensures
            match old(self)@.recorded(word@, letter_statuses@) {
                Ok(after) => done is Ok && final(self)@ == after,
                Err(error) => done == Err::<(), PuzzleError>(error) && final(self)@ == old(self)@,
            },
    {
        let letters = chars_of(word.as_str());
        if letters.len() != letter_statuses.len() {
            return Err(PuzzleError::LengthMismatch);
        }
        let ghost before = self@;
        let mut i: usize = 0;
        while i < letters.len()
            invariant
                i <= letters.len() == letter_statuses.len(),
                letters@ == word@,
                self@.facts == record_upto(before.facts, word@, letter_statuses@, i as int),
                self@.guesses == before.guesses,
                self@.dictionary == before.dictionary,
            decreases letters.len() - i,
        {
            let letter = letters[i];
            let status = letter_statuses[i];
            let surplus = match status {
                LetterStatus::NotInWord => self.confirms_elsewhere(letter, i),
                _ => false,
            };
            if !surplus {
                self.assign_letter(letter, i, status);
            }
            i += 1;
        }
        proof {
            use_type_invariant(&*self);
        }
        let mut guesses: Vec<(String, Vec<LetterStatus>)> = Vec::new();
        std::mem::swap(&mut guesses, &mut self.guesses);
        guesses.push((word, letter_statuses));
        self.guesses = guesses;
        assert(self@.guesses =~= before.guesses.push((word@, letter_statuses@)));
        Ok(())
    }

    /// Records a guess and the feedback it drew, given as text: `X` for a
    /// letter in its place, `.` for a letter in the wrong spot, `-` for a
    /// letter not in the word.
    ///
    /// A text that holds anything else is refused, and so is one that does
    /// not have one symbol per letter; a refused guess changes nothing.
    pub fn assign_guess_from_cli(&mut self, word: String, input: &str) -> (done: Result<
        (),
        PuzzleError,
    >)
        ensures
            match old(self)@.reported(word@, extended_grapheme_clusters(input@)) {
                Ok(after) => done is Ok && final(self)@ == after,
                Err(error) => done == Err::<(), PuzzleError>(error) && final(self)@ == old(self)@,
            },
    {
        let symbols = graphemes(input);
        match statuses_of_symbols(&symbols) {
            Ok(letter_statuses) => self.assign_guess_results(word, letter_statuses),
            Err(error) => Err(error),
        }
    }

    /// How many letters are confirmed.
    pub fn confirmed_letters(&self) -> (count: usize)
        ensures
            count == confirmed_count(self@.facts),
    {
        let mut count: usize = 0;
        let mut i: usize = 0;
        while i < self.assignments.len()
            invariant
                i <= self.assignments.len(),
                count <= i,
                count == confirmed_count(self.assignments@.take(i as int)),
            decreases self.assignments.len() - i,
        {
            proof {
                lemma_confirmed_before_step(self.assignments@, usize::MAX + 1, i as int);
            }
            match self.assignments[i].status {
                LetterStatus::Correct => {
                    count += 1;
                },
                _ => {},
            }
            i += 1;
        }
        assert(self.assignments@.take(i as int) == self.assignments@);
        count
    }

    /// The solution, once letters are confirmed at five positions: those
    /// letters in the order of their positions.
    ///
    /// More confirmed letters than a word has positions mean that the
    /// feedback recorded was not that of one puzzle: callers rule it out,
    /// or ask [`checked_solution`](Puzzle::checked_solution).
    pub fn solution(&self) -> (word: Option<String>)
        requires
            confirmed_count(self@.facts) <= WORD_LENGTH,
        ensures
            text_of(word) == solution_of(self@.facts),
            word is Some <==> solved(self@.facts),
            word matches Some(text) ==> spells(self@.facts, text@),
    {
        if self.confirmed_letters() != WORD_LENGTH || !self.confirmed_positions_differ() {
            return None;
        }
        let ghost facts = self.assignments@;
        let mut letters: Vec<char> = vec![' ', ' ', ' ', ' ', ' '];
        let mut i: usize = 0;
        while i < self.assignments.len()
            invariant
                i <= self.assignments.len(),
                facts == self.assignments@,
                solved(facts),
                letters.len() == WORD_LENGTH,
                forall|j: int|
                    0 <= j < i && (#[trigger] facts[j]).status == LetterStatus::Correct
                        ==> letters@[confirmed_before(facts, facts[j].position as int) as int]
                        == facts[j].letter,
            decreases self.assignments.len() - i,
        {
            let fact = &self.assignments[i];
            if fact.status == LetterStatus::Correct {
                let rank = self.confirmed_left_of(fact.position);
                proof {
                    let here = facts[i as int];
                    lemma_confirmed_rank(facts, i as int);
                    assert forall|j: int|
                        0 <= j < i && (#[trigger] facts[j]).status
                            == LetterStatus::Correct implies confirmed_before(
                        facts,
                        facts[j].position as int,
                    ) != rank && confirmed_before(facts, facts[j].position as int)
                        < WORD_LENGTH by {
                        lemma_confirmed_rank(facts, j);
                        assert(facts[j].position != here.position);
                    }
                }
                letters.set(rank, fact.letter);
            }
            i += 1;
        }
        proof {
            assert forall|j: int|
                0 <= j < facts.len() && (#[trigger] facts[j]).status
                    == LetterStatus::Correct implies confirmed_before(
                facts,
                facts[j].position as int,
            ) < WORD_LENGTH by {
                lemma_confirmed_rank(facts, j);
            }
        }
        let word = string_of(&letters, 0, WORD_LENGTH);
        proof {
            assert(word@ == letters@);
            assert(spells(facts, word@));
            lemma_spelling_unique(facts, word@, choose|other: Seq<char>| spells(facts, other));
        }
        Some(word)
    }

    /// The solution as [`solution`](Puzzle::solution) gives it, unless more
    /// letters are confirmed than a puzzle word has positions.
    pub fn checked_solution(&self) -> (word: Result<Option<String>, PuzzleError>)
        ensures
            match word {
                Ok(found) => checked_solution_of(self@.facts) == Ok::<
                    Option<Seq<char>>,
                    PuzzleError,
                >(text_of(found)),
                Err(error) => checked_solution_of(self@.facts) == Err::<
                    Option<Seq<char>>,
                    PuzzleError,
                >(error),
            },
    {
        if self.confirmed_letters() > WORD_LENGTH {
            Err(PuzzleError::InvariantViolation)
        } else {
            Ok(self.solution())
        }
    }

    /// Proposes the next guess.
    ///
    /// While nothing is known this is the opening word, whatever the
    /// dictionary holds. After that it is the dictionary word that agrees
    /// with every fact and ranks highest, the last of them in dictionary
    /// order where several do, in upper case; or `None` where no word of the
    /// dictionary agrees with the facts. A word that solved the puzzle still
    /// agrees with every fact, and is proposed again.
    pub fn suggest_word(&self) -> (word: Option<String>)
        ensures
            text_of(word) == suggestion(self@.facts, self@.dictionary),
            self@.facts.len() == 0 ==> text_of(word) == Some(opening_word()),
            self@.facts.len() > 0 ==> (word is None <==> forall|j: int|
                0 <= j < self@.dictionary.len() ==> !consistent(
                    self@.facts,
                    #[trigger] self@.dictionary[j],
                )),
            self@.facts.len() > 0 ==> (word matches Some(text) ==> exists|i: int|
                is_best_candidate(self@.facts, self@.dictionary, i) && text@ == uppercase(
                    self@.dictionary[i],
                )),
    {
        if self.assignments.len() == 0 {
            let opening = "RUSTY".to_string();
            proof {
                reveal_strlit("RUSTY");
                assert(opening@ =~= opening_word());
            }
            return Some(opening);
        }
        let ghost facts = self@.facts;
        let ghost words = self@.dictionary;
        let mut permitted: Vec<Suggestion> = Vec::new();
        let ghost mut origin: Seq<int> = Seq::empty();
        let mut i: usize = 0;
        while i < self.dictionary.len()
            invariant
                i <= self.dictionary.len(),
                facts == self@.facts,
                words == self@.dictionary,
                words.len() == self.dictionary.len(),
                permitted.len() == origin.len(),
                forall|k: int|
                    0 <= k < origin.len() ==> 0 <= (#[trigger] origin[k]) < i && consistent(
                        facts,
                        words[origin[k]],
                    ) && permitted@[k].word@ == words[origin[k]] && rank_of(permitted@[k].score)
                        == word_rank(words[origin[k]]),
                forall|k: int, l: int|
                    0 <= k < l < origin.len() ==> (#[trigger] origin[k]) < (#[trigger] origin[l]),
                forall|j: int|
                    0 <= j < i && consistent(facts, #[trigger] words[j]) ==> exists|k: int|
                        0 <= k < origin.len() && (#[trigger] origin[k]) == j,
            decreases self.dictionary.len() - i,
        {
            let word = &self.dictionary[i];
            assert(word@ == words[i as int]);
            if self.is_permitted_word(word) {
                let ghost earlier = origin;
                let suggestion = Suggestion { score: checked_score(word), word: word.clone() };
                permitted.push(suggestion);
                proof {
                    origin = origin.push(i as int);
                    assert forall|j: int|
                        0 <= j < i + 1 && consistent(facts, #[trigger] words[j]) implies exists|
                        k: int,
                    |
                        0 <= k < origin.len() && (#[trigger] origin[k]) == j by {
                        if j < i {
                            let k = choose|k: int|
                                0 <= k < earlier.len() && (#[trigger] earlier[k]) == j;
                            assert(origin[k] == j);
                        } else {
                            assert(origin[earlier.len() as int] == j);
                        }
                    }
                }
            }
            i += 1;
        }
        match best_suggestion(&permitted) {
            Some(best) => {
                let text = to_uppercase(permitted[best].word.as_str());
                proof {
                    let ranks = ranks_of(permitted@);
                    let b = best as int;
                    let chosen = origin[b];
                    assert forall|j: int|
                        0 <= j < words.len() && consistent(
                            facts,
                            #[trigger] words[j],
                        ) implies word_rank(words[j]) < word_rank(words[chosen]) || (word_rank(
                        words[j],
                    ) == word_rank(words[chosen]) && j <= chosen) by {
                        let k = choose|k: int| 0 <= k < origin.len() && (#[trigger] origin[k]) == j;
                        assert(ranks[k] == word_rank(words[j]));
                        assert(ranks[b] == word_rank(words[chosen]));
                        if k > b {
                            assert(origin[b] < origin[k]);
                        }
                    }
                    assert(is_best_candidate(facts, words, chosen));
                    let picked = choose|i: int| is_best_candidate(facts, words, i);
                    lemma_best_candidate_unique(facts, words, chosen, picked);
                }
                Some(text)
            },
            None => {
                proof {
                    assert forall|j: int| 0 <= j < words.len() implies !consistent(
                        facts,
                        #[trigger] words[j],
                    ) by {
                        if consistent(facts, words[j]) {
                            let k = choose|k: int|
                                0 <= k < origin.len() && (#[trigger] origin[k]) == j;
                        }
                    }
                }
                None
            },
        }
    }

    /// The display of the guesses made: for each guess, oldest first, one
    /// coloured square per letter and a line feed.
    pub fn render(&self) -> (text: String)
        ensures
            text@ == self@.display(),
    {
        let ghost guesses = self@.guesses;
        let mut text = String::new();
        let mut i: usize = 0;
        while i < self.guesses.len()
            invariant
                i <= self.guesses.len(),
                guesses == self@.guesses,
                guesses.len() == self.guesses.len(),
                text@ == display_of(guesses.take(i as int)),
            decreases self.guesses.len() - i,
        {
            let statuses = &self.guesses[i].1;
            let ghost row = Seq::new(statuses@.len(), |k: int| statuses@[k].square_of());
            let ghost before = text@;
            let mut k: usize = 0;
            while k < statuses.len()
                invariant
                    k <= statuses.len(),
                    row == Seq::new(statuses@.len(), |k: int| statuses@[k].square_of()),
                    text@ == before + row.take(k as int),
                decreases statuses.len() - k,
            {
                push_char(&mut text, statuses[k].square());
                assert(row.take(k + 1) == row.take(k as int).push(row[k as int]));
                k += 1;
            }
            push_char(&mut text, '\n');
            proof {
                assert(row.take(k as int) == row);
                assert(guesses.take(i + 1).drop_last() == guesses.take(i as int));
                assert(guesses.take(i + 1).last().1 == statuses@);
                assert(text@ == before + row_of(statuses@));
            }
            i += 1;
        }
        assert(guesses.take(i as int) == guesses);
        text
    }

    /// Whether some feedback on `letter` at `position` is known already.
    fn knows(&self, letter: char, position: usize) -> (known: bool)
        ensures
            known == known_at(self@.facts, letter, position),
    {
        let mut i: usize = 0;
        while i < self.assignments.len()
            invariant
                i <= self.assignments.len(),
                forall|j: int|
                    0 <= j < i ==> !((#[trigger] self.assignments@[j]).letter == letter
                        && self.assignments@[j].position == position),
            decreases self.assignments.len() - i,
        {
            let fact = &self.assignments[i];
            if fact.letter == letter && fact.position == position {
                return true;
            }
            i += 1;
        }
        false
    }

    /// Whether `letter` is confirmed at some position other than `position`.
    fn confirms_elsewhere(&self, letter: char, position: usize) -> (confirmed: bool)
        ensures
            confirmed == confirmed_elsewhere(self@.facts, letter, position),
    {
        let mut i: usize = 0;
        while i < self.assignments.len()
            invariant
                i <= self.assignments.len(),
                forall|j: int|
                    0 <= j < i ==> !((#[trigger] self.assignments@[j]).status
                        == LetterStatus::Correct && self.assignments@[j].letter == letter
                        && self.assignments@[j].position != position),
            decreases self.assignments.len() - i,
        {
            let known = &self.assignments[i];
            if known.status == LetterStatus::Correct && known.letter == letter && known.position
                != position {
                return true;
            }
            i += 1;
        }
        false
    }

    /// How many letters are confirmed at positions to the left of `bound`.
    fn confirmed_left_of(&self, bound: usize) -> (count: usize)
        ensures
            count == confirmed_before(self@.facts, bound as int),
    {
        let mut count: usize = 0;
        let mut i: usize = 0;
        while i < self.assignments.len()
            invariant
                i <= self.assignments.len(),
                count <= i,
                count == confirmed_before(self.assignments@.take(i as int), bound as int),
            decreases self.assignments.len() - i,
        {
            proof {
                lemma_confirmed_before_step(self.assignments@, bound as int, i as int);
            }
            let fact = &self.assignments[i];
            if fact.status == LetterStatus::Correct && fact.position < bound {
                count += 1;
            }
            i += 1;
        }
        assert(self.assignments@.take(i as int) == self.assignments@);
        count
    }

    /// Whether no position has two confirmed letters.
    fn confirmed_positions_differ(&self) -> (distinct: bool)
        ensures
            distinct == confirmed_positions_distinct(self@.facts),
    {
        let n = self.assignments.len();
        let mut j: usize = 0;
        while j < n
            invariant
                j <= n == self.assignments.len(),
                confirmed_positions_distinct(self.assignments@.take(j as int)),
            decreases n - j,
        {
            let later = &self.assignments[j];
            if later.status == LetterStatus::Correct {
                let mut i: usize = 0;
                while i < j
                    invariant
                        i <= j < n == self.assignments.len(),
                        *later == self.assignments@[j as int],
                        later.status == LetterStatus::Correct,
                        forall|k: int|
                            0 <= k < i && (#[trigger] self.assignments@[k]).status
                                == LetterStatus::Correct ==> self.assignments@[k].position
                                != later.position,
                    decreases j - i,
                {
                    let earlier = &self.assignments[i];
                    if earlier.status == LetterStatus::Correct && earlier.position
                        == later.position {
                        return false;
                    }
                    i += 1;
                }
            }
            j += 1;
        }
        assert(self.assignments@.take(j as int) == self.assignments@);
        true
    }
}

} // verus!
