//! The guess-scoring heuristic: words that repeat letters score lower, words
//! rich in vowels score higher.

use crate::text::{extended_grapheme_clusters, graphemes};
use vstd::prelude::*;
use vstd::string::StrSliceExecFns;

verus! {

/// The score every word starts from.
pub const BASE_SCORE: usize = 100;

/// How often `grapheme` occurs among `graphemes`.
pub open spec fn occurrences(graphemes: Seq<Seq<char>>, grapheme: Seq<char>) -> nat
    decreases graphemes.len(),
{
    if graphemes.len() == 0 {
        0
    } else {
        occurrences(graphemes.drop_last(), grapheme) + if graphemes.last() == grapheme {
            1nat
        } else {
            0nat
        }
    }
}

/// Whether `grapheme` is one of the vowel-class letters A, E, I, O, U, Y.
pub open spec fn is_vowel(grapheme: Seq<char>) -> bool {
    grapheme.len() == 1 && (grapheme[0] == 'A' || grapheme[0] == 'E' || grapheme[0] == 'I'
        || grapheme[0] == 'O' || grapheme[0] == 'U' || grapheme[0] == 'Y')
}

/// What the grapheme at index `i` costs: twice its number of occurrences in
/// the word if it occurs more than once, nothing otherwise.
pub open spec fn penalty_at(graphemes: Seq<Seq<char>>, i: int) -> int {
    let n = occurrences(graphemes, graphemes[i]) as int;
    if n > 1 {
        2 * n
    } else {
        0
    }
}

/// What the grapheme at index `i` earns: one point if it is a vowel.
pub open spec fn bonus_at(graphemes: Seq<Seq<char>>, i: int) -> int {
    if is_vowel(graphemes[i]) {
        1
    } else {
        0
    }
}

/// The penalties of the first `k` graphemes, added up.
pub open spec fn penalty_upto(graphemes: Seq<Seq<char>>, k: int) -> int
    decreases k,
{
    if k <= 0 {
        0
    } else {
        penalty_upto(graphemes, k - 1) + penalty_at(graphemes, k - 1)
    }
}

/// The bonuses of the first `k` graphemes, added up.
pub open spec fn bonus_upto(graphemes: Seq<Seq<char>>, k: int) -> int
    decreases k,
{
    if k <= 0 {
        0
    } else {
        bonus_upto(graphemes, k - 1) + bonus_at(graphemes, k - 1)
    }
}

/// The heuristic score of a word given as its graphemes: the base score,
/// minus the penalty of every grapheme, plus the bonus of every grapheme.
pub open spec fn score_of(graphemes: Seq<Seq<char>>) -> int {
    BASE_SCORE + bonus_upto(graphemes, graphemes.len() as int) - penalty_upto(
        graphemes,
        graphemes.len() as int,
    )
}

/// The score as a machine integer, where it is not negative.
pub open spec fn checked(score: int) -> Option<usize> {
    if 0 <= score <= usize::MAX {
        Some(score as usize)
    } else {
        None
    }
}

/// One more grapheme adds one occurrence to the count of that grapheme, and none to any other.
pub proof fn lemma_occurrences_step(graphemes: Seq<Seq<char>>, grapheme: Seq<char>, k: int)
    requires
        0 <= k < graphemes.len(),
    ensures
        occurrences(graphemes.take(k + 1), grapheme) == occurrences(graphemes.take(k), grapheme)
            + if graphemes[k] == grapheme {
            1nat
        } else {
            0nat
        },
{
    assert(graphemes.take(k + 1).drop_last() == graphemes.take(k));
}

/// A prefix holds no more occurrences of a grapheme than the whole word.
pub proof fn lemma_occurrences_prefix(graphemes: Seq<Seq<char>>, grapheme: Seq<char>, k: int)
    requires
        0 <= k <= graphemes.len(),
    ensures
        occurrences(graphemes.take(k), grapheme) <= occurrences(graphemes, grapheme),
    decreases graphemes.len() - k,
{
    if k == graphemes.len() {
        assert(graphemes.take(k) == graphemes);
    } else {
        lemma_occurrences_step(graphemes, grapheme, k);
        lemma_occurrences_prefix(graphemes, grapheme, k + 1);
    }
}

/// Penalties and bonuses only add up: no grapheme has a negative penalty or
/// bonus, and no grapheme earns more than one point.
pub proof fn lemma_totals_monotone(graphemes: Seq<Seq<char>>, j: int, k: int)
    requires
        0 <= j <= k,
    ensures
        0 <= penalty_upto(graphemes, j) <= penalty_upto(graphemes, k),
        0 <= bonus_upto(graphemes, j) <= bonus_upto(graphemes, k),
        bonus_upto(graphemes, k) - bonus_upto(graphemes, j) <= k - j,
    decreases k,
{
    if j < k {
        lemma_totals_monotone(graphemes, j, k - 1);
    } else if k > 0 {
        lemma_totals_monotone(graphemes, j - 1, k - 1);
    }
}

/// 1 if the single-letter grapheme `letter` occurs among the first `k` graphemes, else 0.
spec fn seen(graphemes: Seq<Seq<char>>, k: int, letter: char) -> int {
    if occurrences(graphemes.take(k), seq![letter]) > 0 {
        1
    } else {
        0
    }
}

/// How many of the six vowel-class letters occur among the first `k` graphemes.
spec fn vowels_seen(graphemes: Seq<Seq<char>>, k: int) -> int {
    seen(graphemes, k, 'A') + seen(graphemes, k, 'E') + seen(graphemes, k, 'I') + seen(
        graphemes,
        k,
        'O',
    ) + seen(graphemes, k, 'U') + seen(graphemes, k, 'Y')
}

/// What the first `k` graphemes earn exceeds what they cost by no more than
/// the number of vowel-class letters among them.
proof fn lemma_gain_bounded_by_vowels_seen(graphemes: Seq<Seq<char>>, k: int)
    requires
        0 <= k <= graphemes.len(),
    ensures
        bonus_upto(graphemes, k) - penalty_upto(graphemes, k) <= vowels_seen(graphemes, k),
    decreases k,
{
    if k > 0 {
        let i = k - 1;
        let g = graphemes[i];
        lemma_gain_bounded_by_vowels_seen(graphemes, i);
        lemma_occurrences_step(graphemes, seq!['A'], i);
        lemma_occurrences_step(graphemes, seq!['E'], i);
        lemma_occurrences_step(graphemes, seq!['I'], i);
        lemma_occurrences_step(graphemes, seq!['O'], i);
        lemma_occurrences_step(graphemes, seq!['U'], i);
        lemma_occurrences_step(graphemes, seq!['Y'], i);
        if is_vowel(g) {
            assert(g == seq![g[0]]);
            lemma_occurrences_step(graphemes, g, i);
            lemma_occurrences_prefix(graphemes, g, k);
        }
    }
}

/// No word scores more than the base score plus one point for each of the
/// six vowel-class letters: a vowel that comes back costs more than it earns.
pub proof fn lemma_score_at_most(graphemes: Seq<Seq<char>>)
    ensures
        score_of(graphemes) <= BASE_SCORE + 6,
{
    lemma_gain_bounded_by_vowels_seen(graphemes, graphemes.len() as int);
}

/// A longer prefix holds no fewer occurrences of a grapheme than a shorter one.
pub proof fn lemma_occurrences_grow(graphemes: Seq<Seq<char>>, grapheme: Seq<char>, j: int, k: int)
    requires
        0 <= j <= k <= graphemes.len(),
    ensures
        occurrences(graphemes.take(j), grapheme) <= occurrences(graphemes.take(k), grapheme),
    decreases k - j,
{
    if j < k {
        lemma_occurrences_step(graphemes, grapheme, j);
        lemma_occurrences_grow(graphemes, grapheme, j + 1, k);
    }
}

/// A grapheme that stands at two different indices occurs at least twice.
pub proof fn lemma_two_indices_two_occurrences(graphemes: Seq<Seq<char>>, i: int, j: int)
    requires
        0 <= i < j < graphemes.len(),
        graphemes[i] == graphemes[j],
    ensures
        occurrences(graphemes, graphemes[i]) >= 2,
{
    let g = graphemes[i];
    lemma_occurrences_step(graphemes, g, i);
    lemma_occurrences_grow(graphemes, g, i + 1, j);
    lemma_occurrences_step(graphemes, g, j);
    lemma_occurrences_prefix(graphemes, g, j + 1);
}

/// In a word without repeated graphemes, a grapheme occurs among the first
/// `k` graphemes once if its index is below `k`, and not at all otherwise.
proof fn lemma_distinct_occurrences(graphemes: Seq<Seq<char>>, i: int, k: int)
    requires
        graphemes.no_duplicates(),
        0 <= i < graphemes.len(),
        0 <= k <= graphemes.len(),
    ensures
        occurrences(graphemes.take(k), graphemes[i]) == if i < k {
            1nat
        } else {
            0nat
        },
    decreases k,
{
    if k > 0 {
        lemma_distinct_occurrences(graphemes, i, k - 1);
        lemma_occurrences_step(graphemes, graphemes[i], k - 1);
    }
}

/// A word without repeated graphemes pays no penalty.
pub proof fn lemma_distinct_pays_nothing(graphemes: Seq<Seq<char>>, k: int)
    requires
        graphemes.no_duplicates(),
        0 <= k <= graphemes.len(),
    ensures
        penalty_upto(graphemes, k) == 0,
    decreases k,
{
    if k > 0 {
        lemma_distinct_pays_nothing(graphemes, k - 1);
        lemma_distinct_occurrences(graphemes, k - 1, graphemes.len() as int);
        assert(graphemes.take(graphemes.len() as int) == graphemes);
    }
}

/// Two words that differ at index `i` alone differ in their bonus by what that index earns.
proof fn lemma_bonus_of_update(graphemes: Seq<Seq<char>>, i: int, grapheme: Seq<char>, k: int)
    requires
        0 <= i < graphemes.len(),
        0 <= k <= graphemes.len(),
    ensures
        bonus_upto(graphemes.update(i, grapheme), k) == bonus_upto(graphemes, k) + if i < k {
            bonus_at(graphemes.update(i, grapheme), i) - bonus_at(graphemes, i)
        } else {
            0
        },
    decreases k,
{
    if k > 0 {
        lemma_bonus_of_update(graphemes, i, grapheme, k - 1);
    }
}

/// Scoring monotonicity, first half: a word whose graphemes are all distinct
/// scores higher than the same word with the grapheme at index `i` replaced
/// by a second copy of the grapheme at index `j`.
pub proof fn lemma_repeated_letter_scores_lower(graphemes: Seq<Seq<char>>, i: int, j: int)
    requires
        graphemes.no_duplicates(),
        0 <= i < graphemes.len(),
        0 <= j < graphemes.len(),
        i != j,
    ensures
        score_of(graphemes.update(i, graphemes[j])) < score_of(graphemes),
{
    let n = graphemes.len() as int;
    let repeated = graphemes.update(i, graphemes[j]);
    let (a, b) = if i < j {
        (i, j)
    } else {
        (j, i)
    };
    lemma_distinct_pays_nothing(graphemes, n);
    lemma_bonus_of_update(graphemes, i, graphemes[j], n);
    lemma_two_indices_two_occurrences(repeated, a, b);
    assert(penalty_at(repeated, a) >= 4);
    assert(penalty_at(repeated, b) >= 4);
    lemma_totals_monotone(repeated, 0, a);
    lemma_totals_monotone(repeated, a + 1, b);
    lemma_totals_monotone(repeated, b + 1, n);
}

/// Two words in which each index holds a grapheme that occurs as often as
/// its counterpart pay the same penalty.
proof fn lemma_same_repetition_same_penalty(a: Seq<Seq<char>>, b: Seq<Seq<char>>, k: int)
    requires
        a.len() == b.len(),
        0 <= k <= a.len(),
        forall|i: int| 0 <= i < a.len() ==> occurrences(a, a[i]) == occurrences(b, b[i]),
    ensures
        penalty_upto(a, k) == penalty_upto(b, k),
    decreases k,
{
    if k > 0 {
        lemma_same_repetition_same_penalty(a, b, k - 1);
    }
}

/// Scoring monotonicity, second half: of two words of one length that repeat
/// their graphemes alike, index by index, the one with at least as many
/// vowel-class graphemes scores at least as high.
pub proof fn lemma_more_vowels_scores_no_lower(more: Seq<Seq<char>>, fewer: Seq<Seq<char>>)
    requires
        more.len() == fewer.len(),
        forall|i: int|
            0 <= i < more.len() ==> occurrences(more, more[i]) == occurrences(fewer, fewer[i]),
        bonus_upto(more, more.len() as int) >= bonus_upto(fewer, fewer.len() as int),
    ensures
        score_of(more) >= score_of(fewer),
{
    lemma_same_repetition_same_penalty(more, fewer, more.len() as int);
}

/// Whether the exec form of `grapheme` is a vowel-class letter.
pub fn is_vowel_grapheme(grapheme: &String) -> (vowel: bool)
    ensures
        vowel == is_vowel(grapheme@),
{
    let text = grapheme.as_str();
    if text.unicode_len() != 1 {
        return false;
    }
    let c = text.get_char(0);
    c == 'A' || c == 'E' || c == 'I' || c == 'O' || c == 'U' || c == 'Y'
}

/// How often `graphemes[i]` occurs among `graphemes`.
pub fn count_occurrences(graphemes: &Vec<String>, i: usize) -> (count: usize)
    requires
        i < graphemes.len(),
    ensures
        count == occurrences(graphemes.deep_view(), graphemes.deep_view()[i as int]),
        count <= graphemes.len(),
{
    let ghost all = graphemes.deep_view();
    let mut count: usize = 0;
    let mut j: usize = 0;
    while j < graphemes.len()
        invariant
            j <= graphemes.len(),
            i < graphemes.len(),
            all == graphemes.deep_view(),
            count <= j,
            count == occurrences(all.take(j as int), all[i as int]),
        decreases graphemes.len() - j,
    {
        assert(all.take(j + 1).drop_last() == all.take(j as int));
        if graphemes[j] == graphemes[i] {
            count += 1;
        }
        j += 1;
    }
    assert(all.take(j as int) == all);
    count
}

/// The score of a word given as its graphemes, or `None` where the penalties
/// outweigh the base score and the bonuses.
pub fn checked_score_of_graphemes(graphemes: &Vec<String>) -> (score: Option<usize>)
    ensures
        score == checked(score_of(graphemes.deep_view())),
{
    let ghost all = graphemes.deep_view();
    let n = graphemes.len();
    let limit: u128 = BASE_SCORE as u128 + n as u128;
    let mut bonus: usize = 0;
    let mut penalty: u128 = 0;
    let mut i: usize = 0;
    while i < n
        invariant
            i <= n == graphemes.len(),
            all == graphemes.deep_view(),
            limit == BASE_SCORE + n,
            bonus == bonus_upto(all, i as int),
            bonus <= i,
            penalty == penalty_upto(all, i as int),
            penalty <= limit,
        decreases n - i,
    {
        let count = count_occurrences(graphemes, i);
        if count > 1 {
            penalty = penalty + 2 * (count as u128);
        }
        if is_vowel_grapheme(&graphemes[i]) {
            bonus += 1;
        }
        i += 1;
        if penalty > limit {
            proof {
                lemma_totals_monotone(all, i as int, n as int);
                lemma_totals_monotone(all, 0, n as int);
            }
            return None;
        }
    }
    proof {
        lemma_score_at_most(all);
    }
    let total: u128 = BASE_SCORE as u128 + bonus as u128;
    if penalty > total {
        None
    } else {
        Some((total - penalty) as usize)
    }
}

/// The score of a word given as its graphemes.
pub fn score_of_graphemes(graphemes: &Vec<String>) -> (score: usize)
    requires
        score_of(graphemes.deep_view()) >= 0,
    ensures
        score == score_of(graphemes.deep_view()),
{
    proof {
        lemma_score_at_most(graphemes.deep_view());
    }
    checked_score_of_graphemes(graphemes).unwrap()
}

/// The heuristic score of `word` as a next guess: 100, minus twice its
/// number of occurrences for every grapheme that the word repeats, plus one
/// for every vowel-class grapheme.
pub fn score_for_potential_guess(word: &String) -> (score: usize)
    requires
        score_of(extended_grapheme_clusters(word@)) >= 0,
    ensures
        score == score_of(extended_grapheme_clusters(word@)),
{
    let clusters = graphemes(word.as_str());
    score_of_graphemes(&clusters)
}

/// Whether `word` has a score, that is, whether its penalties leave the score at zero or above.
pub fn has_score(word: &String) -> (scorable: bool)
    ensures
        scorable == (score_of(extended_grapheme_clusters(word@)) >= 0),
{
    let clusters = graphemes(word.as_str());
    proof {
        lemma_score_at_most(clusters.deep_view());
    }
    checked_score_of_graphemes(&clusters).is_some()
}

/// The score of `word`, or `None` where it has none.
pub fn checked_score(word: &String) -> (score: Option<usize>)
    ensures
        score == checked(score_of(extended_grapheme_clusters(word@))),
{
    proof {
        lemma_score_at_most(extended_grapheme_clusters(word@));
    }
    if has_score(word) {
        Some(score_for_potential_guess(word))
    } else {
        None
    }
}

/// A candidate for the next guess. A word without a score has `None`.
#[derive(Debug, PartialEq, Eq)]
pub struct Suggestion {
    pub score: Option<usize>,
    pub word: String,
}

/// How a score ranks: by its value, and below every value where there is none.
pub open spec fn rank_of(score: Option<usize>) -> int {
    match score {
        Some(value) => value as int,
        None => -1,
    }
}

/// How a word ranks as a next guess.
pub open spec fn word_rank(word: Seq<char>) -> int {
    rank_of(checked(score_of(extended_grapheme_clusters(word))))
}

/// The ranks of a list of suggestions, index by index.
pub open spec fn ranks_of(suggestions: Seq<Suggestion>) -> Seq<int> {
    Seq::new(suggestions.len(), |i: int| rank_of(suggestions[i].score))
}

/// Whether index `i` holds the best of `ranks`: no rank is higher, and the
/// ranks after it are lower.
pub open spec fn is_best(ranks: Seq<int>, i: int) -> bool {
    &&& 0 <= i < ranks.len()
    &&& forall|j: int|
        0 <= j < ranks.len() ==> (#[trigger] ranks[j]) < ranks[i] || (ranks[j] == ranks[i] && j
            <= i)
}

/// Whether `candidate` ranks at least as high as `best`.
pub fn reaches(candidate: Option<usize>, best: Option<usize>) -> (at_least: bool)
    ensures
        at_least == (rank_of(candidate) >= rank_of(best)),
{
    match (candidate, best) {
        (Some(c), Some(b)) => c >= b,
        (None, Some(_)) => false,
        (_, None) => true,
    }
}

/// The index of the best of `suggestions`, if there is any suggestion: the
/// last of those that rank highest.
pub fn best_suggestion(suggestions: &Vec<Suggestion>) -> (best: Option<usize>)
    ensures
        match best {
            Some(i) => is_best(ranks_of(suggestions@), i as int),
            None => suggestions.len() == 0,
        },
{
    if suggestions.len() == 0 {
        return None;
    }
    let ghost ranks = ranks_of(suggestions@);
    let mut best: usize = 0;
    let mut i: usize = 1;
    while i < suggestions.len()
        invariant
            best < i <= suggestions.len(),
            ranks == ranks_of(suggestions@),
            is_best(ranks.take(i as int), best as int),
        decreases suggestions.len() - i,
    {
        if reaches(suggestions[i].score, suggestions[best].score) {
            best = i;
        }
        i += 1;
        assert forall|j: int| 0 <= j < i implies (#[trigger] ranks.take(i as int)[j])
            < ranks.take(i as int)[best as int] || (ranks.take(i as int)[j] == ranks.take(
            i as int,
        )[best as int] && j <= best) by {
            if j < i - 1 {
                assert(ranks.take(i - 1)[j] == ranks[j]);
            }
        }
    }
    assert(ranks.take(i as int) == ranks);
    Some(best)
}

} // verus!
