use wordle_solver::score::{
    best_suggestion, checked_score_of_graphemes, count_occurrences, has_score, is_vowel_grapheme,
    reaches, score_of_graphemes, Suggestion,
};
use wordle_solver::{checked_score, score_for_potential_guess};

fn score(word: &str) -> usize {
    score_for_potential_guess(&word.to_string())
}

fn graphemes(items: &[&str]) -> Vec<String> {
    items.iter().map(|item| item.to_string()).collect()
}

fn suggestion(score: Option<usize>, word: &str) -> Suggestion {
    Suggestion { score, word: word.to_string() }
}

#[test]
fn a_word_of_distinct_consonants_scores_the_base() {
    assert_eq!(score("BCDFG"), 100);
    assert_eq!(score(""), 100);
}

#[test]
fn each_vowel_adds_one() {
    assert_eq!(score("RUSTY"), 102);
    assert_eq!(score("AUDIO"), 104);
    assert_eq!(score("AEIOU"), 105);
    assert_eq!(score("AEIOUY"), 106);
}

#[test]
fn only_upper_case_vowels_count() {
    assert_eq!(score("rusty"), 100);
}

#[test]
fn a_repeated_letter_costs_twice_its_count_at_each_occurrence() {
    // E occurs twice: 4 at each of two occurrences, and two vowels.
    assert_eq!(score("GREEN"), 94);
    // L occurs twice: 8 in all, and one vowel.
    assert_eq!(score("KNOLL"), 93);
    // B occurs twice: 8 in all, and three vowels.
    assert_eq!(score("ABBEY"), 95);
    // E occurs three times: 6 at each of three occurrences, and four vowels.
    assert_eq!(score("EERIE"), 86);
    // Y and M occur twice each: 16 in all, and three vowels.
    assert_eq!(score("YUMMY"), 87);
    // A occurs five times: 10 at each of five occurrences, and five vowels.
    assert_eq!(score("AAAAA"), 55);
}

#[test]
fn a_grapheme_of_several_characters_counts_as_one_letter() {
    // Two equal clusters of E and a combining accent, then A and B: the
    // cluster repeats, and is no vowel.
    assert_eq!(score("E\u{301}E\u{301}AB"), 93);
    // One such cluster beside a plain E: nothing repeats.
    assert_eq!(score("E\u{301}EAB"), 102);
}

#[test]
fn score_of_given_graphemes() {
    assert_eq!(score_of_graphemes(&graphemes(&["R", "U", "S", "T", "Y"])), 102);
    assert_eq!(score_of_graphemes(&graphemes(&["G", "R", "E", "E", "N"])), 94);
    assert_eq!(score_of_graphemes(&graphemes(&[])), 100);
    // Graphemes are compared whole: "AB" is neither "A" nor a vowel.
    assert_eq!(score_of_graphemes(&graphemes(&["AB", "A", "AB"])), 93);
}

#[test]
fn a_word_whose_penalties_outweigh_the_rest_has_no_score() {
    assert_eq!(checked_score(&"SSSSSSS".to_string()), Some(2));
    assert_eq!(checked_score(&"SSSSSSSS".to_string()), None);
    assert_eq!(checked_score(&"SSSSSSSSSS".to_string()), None);
    assert!(has_score(&"SSSSSSS".to_string()));
    assert!(!has_score(&"SSSSSSSS".to_string()));
    assert_eq!(checked_score_of_graphemes(&graphemes(&["S"; 8])), None);
    assert_eq!(checked_score_of_graphemes(&graphemes(&["S"; 7])), Some(2));
}

#[test]
fn checked_score_agrees_with_the_score() {
    for word in ["RUSTY", "GREEN", "AEIOU", "KNOLL", "AAAAA", ""] {
        assert_eq!(checked_score(&word.to_string()), Some(score(word)));
    }
}

#[test]
fn a_word_that_just_reaches_zero_has_a_score() {
    // Seven A and seven E: 14 occurrences at 14 each, 196 in all, against
    // the base and fourteen vowels: 114. Five A and five E: 100 against 110.
    assert_eq!(checked_score(&"AAAAAAAEEEEEEE".to_string()), None);
    assert_eq!(checked_score(&"AAAAAEEEEE".to_string()), Some(10));
    // Five A, five E and an I: 100 against 111.
    assert_eq!(checked_score(&"AAAAAEEEEEI".to_string()), Some(11));
}

#[test]
fn distinct_letters_score_higher_than_a_duplicate() {
    assert!(score("CRANE") > score("CRANC"));
    assert!(score("CRANE") > score("CRANA"));
    assert!(score("BCDFG") > score("BCDFB"));
    assert!(score("AEIOU") > score("AEIOA"));
    assert_eq!(score("CRANC"), 93);
}

#[test]
fn more_vowels_score_at_least_as_high() {
    assert!(score("AUDIO") >= score("BUILT"));
    assert!(score("BUILT") >= score("BLTCH"));
    assert!(score("ABBEY") >= score("CBBDF"));
    assert_eq!(score("CBBDF"), 92);
}

#[test]
fn occurrences_are_counted_over_the_whole_word() {
    let word = graphemes(&["E", "E", "R", "I", "E"]);
    assert_eq!(count_occurrences(&word, 0), 3);
    assert_eq!(count_occurrences(&word, 2), 1);
    assert_eq!(count_occurrences(&word, 4), 3);
}

#[test]
fn vowels_are_the_six_upper_case_letters() {
    for vowel in ["A", "E", "I", "O", "U", "Y"] {
        assert!(is_vowel_grapheme(&vowel.to_string()));
    }
    for other in ["B", "a", "y", "AE", "", "E\u{301}", "Z"] {
        assert!(!is_vowel_grapheme(&other.to_string()));
    }
}

#[test]
fn a_score_reaches_another_if_it_is_no_lower() {
    assert!(reaches(Some(3), Some(3)));
    assert!(reaches(Some(4), Some(3)));
    assert!(!reaches(Some(2), Some(3)));
    assert!(reaches(Some(0), None));
    assert!(!reaches(None, Some(0)));
    assert!(reaches(None, None));
}

#[test]
fn the_best_suggestion_is_the_last_of_the_highest() {
    assert_eq!(best_suggestion(&vec![]), None);
    assert_eq!(best_suggestion(&vec![suggestion(Some(7), "A")]), Some(0));
    let several = vec![
        suggestion(Some(90), "A"),
        suggestion(Some(102), "B"),
        suggestion(Some(95), "C"),
        suggestion(Some(102), "D"),
        suggestion(Some(101), "E"),
    ];
    assert_eq!(best_suggestion(&several), Some(3));
}

#[test]
fn a_suggestion_without_a_score_ranks_below_the_rest() {
    let mixed = vec![suggestion(Some(0), "A"), suggestion(None, "B")];
    assert_eq!(best_suggestion(&mixed), Some(0));
    let none = vec![suggestion(None, "A"), suggestion(None, "B")];
    assert_eq!(best_suggestion(&none), Some(1));
}
