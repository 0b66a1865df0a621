//! Facts as a mathematical sequence: how a guess extends them, which words
//! agree with them, and when they spell out the solution.

use crate::feedback::{has_letter_at, Assignment, LetterStatus};
use vstd::prelude::*;

verus! {

/// Whether `word` agrees with every fact in `facts`.
pub open spec fn consistent(facts: Seq<Assignment>, word: Seq<char>) -> bool {
    forall|i: int| 0 <= i < facts.len() ==> (#[trigger] facts[i]).holds_for(word)
}

/// Whether `facts` confirm `letter` at some position other than `position`.
pub open spec fn confirmed_elsewhere(facts: Seq<Assignment>, letter: char, position: usize) -> bool {
    exists|i: int|
        0 <= i < facts.len() && (#[trigger] facts[i]).status == LetterStatus::Correct
            && facts[i].letter == letter && facts[i].position != position
}

/// Whether `facts` hold some feedback on `letter` at `position`.
pub open spec fn known_at(facts: Seq<Assignment>, letter: char, position: usize) -> bool {
    exists|i: int|
        0 <= i < facts.len() && (#[trigger] facts[i]).letter == letter && facts[i].position
            == position
}

/// Whether `facts` hold at most one feedback on any letter at any position.
pub open spec fn unambiguous(facts: Seq<Assignment>) -> bool {
    forall|i: int, j: int|
        0 <= i < j < facts.len() ==> !((#[trigger] facts[i]).letter == (#[trigger] facts[j]).letter
            && facts[i].position == facts[j].position)
}

/// The facts after learning `fact`. The first feedback on a letter at a
/// position stands: where the facts hold one already, whether the same or
/// another, they stay as they are; otherwise `fact` joins them at the end.
pub open spec fn learn(facts: Seq<Assignment>, fact: Assignment) -> Seq<Assignment> {
    if known_at(facts, fact.letter, fact.position) {
        facts
    } else {
        facts.push(fact)
    }
}

/// The facts after one letter of a guess is reported. A letter reported as
/// not in the word while it is confirmed at another position teaches nothing:
/// the puzzle says so of a surplus copy of a letter. Anything else is learned
/// as [`learn`] says.
pub open spec fn record_letter(facts: Seq<Assignment>, fact: Assignment) -> Seq<Assignment> {
    if fact.status == LetterStatus::NotInWord && confirmed_elsewhere(
        facts,
        fact.letter,
        fact.position,
    ) {
        facts
    } else {
        learn(facts, fact)
    }
}

/// The fact that letter `i` of a guess yields.
pub open spec fn fact_at(word: Seq<char>, statuses: Seq<LetterStatus>, i: int) -> Assignment {
    Assignment { letter: word[i], position: i as usize, status: statuses[i] }
}

/// The facts after the first `k` letters of a guess are reported, left to right.
pub open spec fn record_upto(
    facts: Seq<Assignment>,
    word: Seq<char>,
    statuses: Seq<LetterStatus>,
    k: int,
) -> Seq<Assignment>
    decreases k,
{
    if k <= 0 {
        facts
    } else {
        record_letter(record_upto(facts, word, statuses, k - 1), fact_at(word, statuses, k - 1))
    }
}

/// The facts after a whole guess is reported.
pub open spec fn record(
    facts: Seq<Assignment>,
    word: Seq<char>,
    statuses: Seq<LetterStatus>,
) -> Seq<Assignment> {
    record_upto(facts, word, statuses, word.len() as int)
}

/// The number of letters in a puzzle word.
pub const WORD_LENGTH: usize = 5;

/// Whether `fact` confirms a letter at a position below `bound`.
pub open spec fn confirms_before(fact: Assignment, bound: int) -> bool {
    fact.status == LetterStatus::Correct && fact.position < bound
}

/// How many of `facts` confirm a letter at a position below `bound`.
pub open spec fn confirmed_before(facts: Seq<Assignment>, bound: int) -> nat
    decreases facts.len(),
{
    if facts.len() == 0 {
        0
    } else {
        confirmed_before(facts.drop_last(), bound) + if confirms_before(facts.last(), bound) {
            1nat
        } else {
            0nat
        }
    }
}

/// How many of `facts` confirm a letter.
pub open spec fn confirmed_count(facts: Seq<Assignment>) -> nat {
    confirmed_before(facts, usize::MAX + 1)
}

/// Whether no two of `facts` confirm a letter at the same position.
pub open spec fn confirmed_positions_distinct(facts: Seq<Assignment>) -> bool {
    forall|i: int, j: int|
        0 <= i < j < facts.len() && (#[trigger] facts[i]).status == LetterStatus::Correct && (
        #[trigger] facts[j]).status == LetterStatus::Correct ==> facts[i].position
            != facts[j].position
}

/// Whether `facts` confirm a letter at each of exactly [`WORD_LENGTH`] positions.
pub open spec fn solved(facts: Seq<Assignment>) -> bool {
    confirmed_count(facts) == WORD_LENGTH && confirmed_positions_distinct(facts)
}

/// Whether `word` is the confirmed letters of `facts` in the order of their
/// positions: each confirmed letter stands at the index that counts the
/// confirmed positions to its left.
pub open spec fn spells(facts: Seq<Assignment>, word: Seq<char>) -> bool {
    &&& word.len() == WORD_LENGTH
    &&& forall|i: int|
        0 <= i < facts.len() && (#[trigger] facts[i]).status == LetterStatus::Correct
            ==> has_letter_at(
            word,
            confirmed_before(facts, facts[i].position as int) as int,
            facts[i].letter,
        )
}

/// The word that `facts` spell once they confirm a letter at each of
/// [`WORD_LENGTH`] positions. It is the only one: see [`lemma_spelling_unique`].
pub open spec fn solution_of(facts: Seq<Assignment>) -> Option<Seq<char>> {
    if solved(facts) {
        Some(choose|word: Seq<char>| spells(facts, word))
    } else {
        None
    }
}

/// Facts are never dropped nor replaced: what was known before one letter is
/// reported stands unchanged at the front of what is known after it.
pub proof fn lemma_record_letter_extends(facts: Seq<Assignment>, fact: Assignment)
    ensures
        facts.is_prefix_of(record_letter(facts, fact)),
{
}

/// Facts are never dropped nor replaced while a guess is reported.
pub proof fn lemma_record_upto_extends(
    facts: Seq<Assignment>,
    word: Seq<char>,
    statuses: Seq<LetterStatus>,
    j: int,
    k: int,
)
    requires
        j <= k,
    ensures
        record_upto(facts, word, statuses, j).is_prefix_of(record_upto(facts, word, statuses, k)),
    decreases k - j,
{
    if j < k {
        lemma_record_upto_extends(facts, word, statuses, j, k - 1);
        lemma_record_letter_extends(
            record_upto(facts, word, statuses, k - 1),
            fact_at(word, statuses, k - 1),
        );
    }
}

/// Recording a guess only appends: the facts known before stand unchanged at
/// the front of the facts known after.
pub proof fn lemma_record_extends(
    facts: Seq<Assignment>,
    word: Seq<char>,
    statuses: Seq<LetterStatus>,
)
    ensures
        facts.is_prefix_of(record(facts, word, statuses)),
{
    lemma_record_upto_extends(facts, word, statuses, 0, word.len() as int);
}

/// Learning narrows: a word that agrees with the facts after a guess agreed
/// with the facts before it.
pub proof fn lemma_record_narrows(
    facts: Seq<Assignment>,
    word: Seq<char>,
    statuses: Seq<LetterStatus>,
    candidate: Seq<char>,
)
    requires
        consistent(record(facts, word, statuses), candidate),
    ensures
        consistent(facts, candidate),
{
    lemma_record_extends(facts, word, statuses);
    let after = record(facts, word, statuses);
    assert forall|i: int| 0 <= i < facts.len() implies (#[trigger] facts[i]).holds_for(
        candidate,
    ) by {
        assert(after[i] == facts[i]);
    }
}

/// The first feedback stands: if the facts held at most one feedback on any
/// letter at any position before a letter is reported, they do so after it.
pub proof fn lemma_record_letter_keeps_unambiguous(facts: Seq<Assignment>, fact: Assignment)
    requires
        unambiguous(facts),
    ensures
        unambiguous(record_letter(facts, fact)),
{
}

/// The same, after any number of letters of a guess.
proof fn lemma_record_upto_keeps_unambiguous(
    facts: Seq<Assignment>,
    word: Seq<char>,
    statuses: Seq<LetterStatus>,
    k: int,
)
    requires
        unambiguous(facts),
    ensures
        unambiguous(record_upto(facts, word, statuses, k)),
    decreases k,
{
    if k > 0 {
        lemma_record_upto_keeps_unambiguous(facts, word, statuses, k - 1);
        lemma_record_letter_keeps_unambiguous(
            record_upto(facts, word, statuses, k - 1),
            fact_at(word, statuses, k - 1),
        );
    }
}

/// The first feedback stands: if the facts held at most one feedback on any
/// letter at any position before a guess is recorded, they do so after it.
pub proof fn lemma_record_keeps_unambiguous(
    facts: Seq<Assignment>,
    word: Seq<char>,
    statuses: Seq<LetterStatus>,
)
    requires
        unambiguous(facts),
    ensures
        unambiguous(record(facts, word, statuses)),
{
    lemma_record_upto_keeps_unambiguous(facts, word, statuses, word.len() as int);
}

/// Facts that hold at most one feedback on any letter at any position hold no fact twice.
pub proof fn lemma_unambiguous_facts_are_distinct(facts: Seq<Assignment>)
    requires
        unambiguous(facts),
    ensures
        facts.no_duplicates(),
{
}

/// Once a letter has been reported, reporting it again to anyone who knows
/// at least as much teaches nothing.
proof fn lemma_record_letter_settled(
    facts: Seq<Assignment>,
    later: Seq<Assignment>,
    fact: Assignment,
)
    requires
        record_letter(facts, fact).is_prefix_of(later),
    ensures
        record_letter(later, fact) == later,
{
    let after = record_letter(facts, fact);
    lemma_record_letter_extends(facts, fact);
    if fact.status == LetterStatus::NotInWord && confirmed_elsewhere(
        facts,
        fact.letter,
        fact.position,
    ) {
        let i = choose|i: int|
            0 <= i < facts.len() && (#[trigger] facts[i]).status == LetterStatus::Correct
                && facts[i].letter == fact.letter && facts[i].position != fact.position;
        assert(later[i] == facts[i]);
    } else {
        assert(known_at(after, fact.letter, fact.position)) by {
            if known_at(facts, fact.letter, fact.position) {
                let i = choose|i: int|
                    0 <= i < facts.len() && (#[trigger] facts[i]).letter == fact.letter
                        && facts[i].position == fact.position;
                assert(after[i] == facts[i]);
            } else {
                assert(after[facts.len() as int] == fact);
            }
        }
        let i = choose|i: int|
            0 <= i < after.len() && (#[trigger] after[i]).letter == fact.letter
                && after[i].position == fact.position;
        assert(later[i] == after[i]);
    }
}

/// After a guess is recorded, reporting its letters again changes nothing.
proof fn lemma_record_again_upto(
    facts: Seq<Assignment>,
    word: Seq<char>,
    statuses: Seq<LetterStatus>,
    k: int,
)
    requires
        k <= word.len(),
    ensures
        record_upto(record(facts, word, statuses), word, statuses, k) == record(
            facts,
            word,
            statuses,
        ),
    decreases k,
{
    if k > 0 {
        lemma_record_again_upto(facts, word, statuses, k - 1);
        lemma_record_upto_extends(facts, word, statuses, k, word.len() as int);
        lemma_record_letter_settled(
            record_upto(facts, word, statuses, k - 1),
            record(facts, word, statuses),
            fact_at(word, statuses, k - 1),
        );
    }
}

/// Idempotent insertion: recording the same guess with the same feedback a
/// second time leaves the facts as the first recording left them.
pub proof fn lemma_record_idempotent(
    facts: Seq<Assignment>,
    word: Seq<char>,
    statuses: Seq<LetterStatus>,
)
    ensures
        record(record(facts, word, statuses), word, statuses) == record(facts, word, statuses),
{
    lemma_record_again_upto(facts, word, statuses, word.len() as int);
}

/// Repeated-letter suppression, letter by letter: where `letter` is
/// confirmed at `confirmed_at`, a report that it is not in the word, made at
/// another position, changes no fact, and so rules out no word.
pub proof fn lemma_surplus_letter_teaches_nothing(
    facts: Seq<Assignment>,
    letter: char,
    confirmed_at: usize,
    position: usize,
)
    requires
        facts.contains(
            Assignment { letter, position: confirmed_at, status: LetterStatus::Correct },
        ),
        position != confirmed_at,
    ensures
        record_letter(facts, Assignment { letter, position, status: LetterStatus::NotInWord })
            == facts,
        forall|word: Seq<char>|
            consistent(facts, word) ==> #[trigger] consistent(
                record_letter(
                    facts,
                    Assignment { letter, position, status: LetterStatus::NotInWord },
                ),
                word,
            ),
{
    let known = Assignment { letter, position: confirmed_at, status: LetterStatus::Correct };
    let i = choose|i: int| 0 <= i < facts.len() && facts[i] == known;
    assert(facts[i].status == LetterStatus::Correct);
}

/// Where `letter` is confirmed at `confirmed_at`, no letter of a guess makes
/// the facts hold that it is not in the word because of another position.
proof fn lemma_record_upto_spares_confirmed_letter(
    facts: Seq<Assignment>,
    word: Seq<char>,
    statuses: Seq<LetterStatus>,
    letter: char,
    confirmed_at: usize,
    position: usize,
    k: int,
)
    requires
        facts.contains(
            Assignment { letter, position: confirmed_at, status: LetterStatus::Correct },
        ),
        position != confirmed_at,
        !facts.contains(Assignment { letter, position, status: LetterStatus::NotInWord }),
    ensures
        !record_upto(facts, word, statuses, k).contains(
            Assignment { letter, position, status: LetterStatus::NotInWord },
        ),
    decreases k,
{
    if k > 0 {
        let known = Assignment { letter, position: confirmed_at, status: LetterStatus::Correct };
        let surplus = Assignment { letter, position, status: LetterStatus::NotInWord };
        let before = record_upto(facts, word, statuses, k - 1);
        let fact = fact_at(word, statuses, k - 1);
        lemma_record_upto_spares_confirmed_letter(
            facts,
            word,
            statuses,
            letter,
            confirmed_at,
            position,
            k - 1,
        );
        lemma_record_upto_extends(facts, word, statuses, 0, k - 1);
        let i = choose|i: int| 0 <= i < facts.len() && facts[i] == known;
        assert(before[i] == known);
        if fact == surplus {
            assert(before[i].status == LetterStatus::Correct);
            assert(confirmed_elsewhere(before, letter, position));
        } else {
            let after = record_letter(before, fact);
            if after.contains(surplus) {
                let j = choose|j: int| 0 <= j < after.len() && after[j] == surplus;
                if j < before.len() {
                    assert(before[j] == surplus);
                }
            }
        }
    }
}

/// Repeated-letter suppression, guess by guess: where `letter` is confirmed
/// at `confirmed_at`, no guess makes the store hold that the letter is not in
/// the word on the strength of a report at another position. If the store
/// holds such a fact after a guess, it held it before.
pub proof fn lemma_record_spares_confirmed_letter(
    facts: Seq<Assignment>,
    word: Seq<char>,
    statuses: Seq<LetterStatus>,
    letter: char,
    confirmed_at: usize,
    position: usize,
)
    requires
        facts.contains(
            Assignment { letter, position: confirmed_at, status: LetterStatus::Correct },
        ),
        position != confirmed_at,
    ensures
        record(facts, word, statuses).contains(
            Assignment { letter, position, status: LetterStatus::NotInWord },
        ) ==> facts.contains(Assignment { letter, position, status: LetterStatus::NotInWord }),
{
    if !facts.contains(Assignment { letter, position, status: LetterStatus::NotInWord }) {
        lemma_record_upto_spares_confirmed_letter(
            facts,
            word,
            statuses,
            letter,
            confirmed_at,
            position,
            word.len() as int,
        );
    }
}

/// One more fact adds one to the count if it confirms a letter below `bound`.
pub proof fn lemma_confirmed_before_step(facts: Seq<Assignment>, bound: int, k: int)
    requires
        0 <= k < facts.len(),
    ensures
        confirmed_before(facts.take(k + 1), bound) == confirmed_before(facts.take(k), bound)
            + if confirms_before(facts[k], bound) {
            1nat
        } else {
            0nat
        },
{
    assert(facts.take(k + 1).drop_last() == facts.take(k));
}

/// Among the first `k` facts, those that confirm a letter to the left of
/// `low`, and the fact at index `i` if it is among them, all confirm a letter
/// to the left of `high`, where the fact at `i` confirms a letter at a
/// position from `low` on and to the left of `high`.
pub proof fn lemma_confirmed_before_grows(
    facts: Seq<Assignment>,
    low: int,
    high: int,
    i: int,
    k: int,
)
    requires
        0 <= i < facts.len(),
        0 <= k <= facts.len(),
        low <= facts[i].position < high,
        facts[i].status == LetterStatus::Correct,
    ensures
        confirmed_before(facts.take(k), low) + if i < k {
            1nat
        } else {
            0nat
        } <= confirmed_before(facts.take(k), high),
    decreases k,
{
    if k > 0 {
        lemma_confirmed_before_grows(facts, low, high, i, k - 1);
        lemma_confirmed_before_step(facts, low, k - 1);
        lemma_confirmed_before_step(facts, high, k - 1);
    }
}

/// A confirmed letter has fewer confirmed positions to its left than there
/// are confirmed letters, and fewer than a confirmed letter to its right has.
pub proof fn lemma_confirmed_rank(facts: Seq<Assignment>, i: int)
    requires
        0 <= i < facts.len(),
        facts[i].status == LetterStatus::Correct,
    ensures
        confirmed_before(facts, facts[i].position as int) < confirmed_count(facts),
        forall|j: int|
            0 <= j < facts.len() && (#[trigger] facts[j]).status == LetterStatus::Correct
                && facts[i].position < facts[j].position ==> confirmed_before(
                facts,
                facts[i].position as int,
            ) < confirmed_before(facts, facts[j].position as int),
{
    let n = facts.len() as int;
    let p = facts[i].position as int;
    assert(facts.take(n) == facts);
    lemma_confirmed_before_grows(facts, p, usize::MAX + 1, i, n);
    assert forall|j: int|
        0 <= j < facts.len() && (#[trigger] facts[j]).status == LetterStatus::Correct
            && facts[i].position < facts[j].position implies confirmed_before(facts, p)
        < confirmed_before(facts, facts[j].position as int) by {
        lemma_confirmed_before_grows(facts, p, facts[j].position as int, i, n);
    }
}

/// Whether one of the first `k` of `facts` confirms a letter at `position`.
spec fn confirmed_at(facts: Seq<Assignment>, position: int, k: int) -> bool {
    exists|i: int|
        0 <= i < k && i < facts.len() && (#[trigger] facts[i]).status == LetterStatus::Correct
            && facts[i].position == position
}

/// Where no position has two confirmed letters, the count of confirmed
/// letters grows by one from a position to the next if a letter is confirmed
/// at that position, and not at all otherwise.
proof fn lemma_confirmed_before_next(facts: Seq<Assignment>, position: int, k: int)
    requires
        confirmed_positions_distinct(facts),
        0 <= k <= facts.len(),
    ensures
        confirmed_before(facts.take(k), position + 1) == confirmed_before(facts.take(k), position)
            + if confirmed_at(facts, position, k) {
            1nat
        } else {
            0nat
        },
    decreases k,
{
    if k > 0 {
        lemma_confirmed_before_next(facts, position, k - 1);
        lemma_confirmed_before_step(facts, position, k - 1);
        lemma_confirmed_before_step(facts, position + 1, k - 1);
        let last = facts[k - 1];
        if last.status == LetterStatus::Correct && last.position == position {
            assert(confirmed_at(facts, position, k));
            if confirmed_at(facts, position, k - 1) {
                let i = choose|i: int|
                    0 <= i < k - 1 && i < facts.len() && (#[trigger] facts[i]).status
                        == LetterStatus::Correct && facts[i].position == position;
                assert(facts[i].position != facts[k - 1].position);
            }
        } else {
            if confirmed_at(facts, position, k) {
                let i = choose|i: int|
                    0 <= i < k && i < facts.len() && (#[trigger] facts[i]).status
                        == LetterStatus::Correct && facts[i].position == position;
                assert(confirmed_at(facts, position, k - 1));
            }
        }
    } else {
        assert(!confirmed_at(facts, position, 0));
    }
}

/// No letter is confirmed to the left of the first position.
proof fn lemma_none_confirmed_before_zero(facts: Seq<Assignment>)
    ensures
        confirmed_before(facts, 0) == 0,
    decreases facts.len(),
{
    if facts.len() > 0 {
        lemma_none_confirmed_before_zero(facts.drop_last());
    }
}

/// Where no position has two confirmed letters, every count below the
/// number of letters confirmed to the left of `bound` is the count of the
/// confirmed letters to the left of some confirmed letter.
proof fn lemma_rank_attained(facts: Seq<Assignment>, rank: int, bound: int)
    requires
        confirmed_positions_distinct(facts),
        0 <= rank < confirmed_before(facts, bound),
        0 <= bound,
    ensures
        exists|i: int|
            0 <= i < facts.len() && (#[trigger] facts[i]).status == LetterStatus::Correct
                && confirmed_before(facts, facts[i].position as int) == rank,
    decreases bound,
{
    lemma_none_confirmed_before_zero(facts);
    assert(facts.take(facts.len() as int) == facts);
    lemma_confirmed_before_next(facts, bound - 1, facts.len() as int);
    if rank < confirmed_before(facts, bound - 1) {
        lemma_rank_attained(facts, rank, bound - 1);
    } else {
        let i = choose|i: int|
            0 <= i < facts.len() && i < facts.len() && (#[trigger] facts[i]).status
                == LetterStatus::Correct && facts[i].position == bound - 1;
        assert(confirmed_before(facts, facts[i].position as int) == rank);
    }
}

/// Facts that confirm a letter at every position spell one word only.
pub proof fn lemma_spelling_unique(facts: Seq<Assignment>, first: Seq<char>, second: Seq<char>)
    requires
        solved(facts),
        spells(facts, first),
        spells(facts, second),
    ensures
        first == second,
{
    assert forall|k: int| 0 <= k < WORD_LENGTH implies first[k] == second[k] by {
        lemma_rank_attained(facts, k, usize::MAX + 1);
        let i = choose|i: int|
            0 <= i < facts.len() && (#[trigger] facts[i]).status == LetterStatus::Correct
                && confirmed_before(facts, facts[i].position as int) == k;
        assert(has_letter_at(first, k, facts[i].letter));
        assert(has_letter_at(second, k, facts[i].letter));
    }
    assert(first =~= second);
}

} // verus!
