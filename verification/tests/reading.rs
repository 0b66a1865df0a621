use wordle_solver::dictionary::read_dictionary;
use wordle_solver::feedback::statuses_of_symbols;
use wordle_solver::text::{chars_of, contains_letter, string_of};
use wordle_solver::{LetterStatus, Puzzle, PuzzleError};

fn chars(text: &str) -> Vec<char> {
    text.chars().collect()
}

fn symbols(items: &[&str]) -> Vec<String> {
    items.iter().map(|item| item.to_string()).collect()
}

#[test]
fn a_dictionary_has_one_word_per_line() {
    assert_eq!(read_dictionary("tangy\nrusty\nknoll"), vec!["TANGY", "RUSTY", "KNOLL"]);
    assert_eq!(read_dictionary("tangy\nrusty\nknoll\n"), vec!["TANGY", "RUSTY", "KNOLL"]);
    assert_eq!(read_dictionary(""), Vec::<String>::new());
    assert_eq!(read_dictionary("\n\n\n"), Vec::<String>::new());
}

#[test]
fn words_of_another_length_are_left_out() {
    assert_eq!(read_dictionary("tang\ntangy\ntangys\n\ny\nrusty"), vec!["TANGY", "RUSTY"]);
}

#[test]
fn white_space_around_a_word_is_dropped() {
    assert_eq!(
        read_dictionary("  tangy\nrusty \r\n\tknoll\t\n\u{a0}crane\u{2003}\n"),
        vec!["TANGY", "RUSTY", "KNOLL", "CRANE"]
    );
    // White space inside a word stays, and counts.
    assert_eq!(read_dictionary("ta gy\nt a n g y\n"), vec!["TA GY"]);
}

#[test]
fn only_a_line_feed_ends_a_line() {
    assert_eq!(read_dictionary("tangy\rrusty\n"), Vec::<String>::new());
    assert_eq!(read_dictionary("tangy\r\nrusty\r\n"), vec!["TANGY", "RUSTY"]);
}

#[test]
fn words_are_held_in_upper_case() {
    assert_eq!(read_dictionary("Tangy\nRUSTY\nknoll\n"), vec!["TANGY", "RUSTY", "KNOLL"]);
}

#[test]
fn length_is_counted_in_characters_before_the_case_changes() {
    assert_eq!(read_dictionary("\u{e9}cole\n"), vec!["\u{c9}COLE"]);
    assert_eq!(read_dictionary("stra\u{df}\n"), vec!["STRASS"]);
}

#[test]
fn a_session_starts_on_the_dictionary_with_nothing_learned() {
    let puzzle = Puzzle::setup(" tangy\nno\nrusty\n");
    assert_eq!(puzzle.dictionary(), &vec!["TANGY".to_string(), "RUSTY".to_string()]);
    assert!(puzzle.assignments().is_empty());
    assert!(puzzle.guesses().is_empty());
    assert_eq!(puzzle.render(), "");
}

#[test]
fn text_and_characters_convert_both_ways() {
    assert_eq!(chars_of("tangy"), chars("tangy"));
    assert_eq!(chars_of(""), chars(""));
    assert_eq!(chars_of("\u{e9}t\u{1F7E9}"), vec!['\u{e9}', 't', '\u{1F7E9}']);
    let line = chars("a tangy b");
    assert_eq!(string_of(&line, 2, 7), "tangy");
    assert_eq!(string_of(&line, 0, 9), "a tangy b");
    assert_eq!(string_of(&line, 4, 4), "");
}

#[test]
fn a_letter_is_found_wherever_it_stands() {
    let word = chars("KNOLL");
    assert!(contains_letter(&word, 'K'));
    assert!(contains_letter(&word, 'O'));
    assert!(contains_letter(&word, 'L'));
    assert!(!contains_letter(&word, 'A'));
    assert!(!contains_letter(&word, 'k'));
    assert!(!contains_letter(&chars(""), 'K'));
}

#[test]
fn each_feedback_symbol_has_its_status() {
    assert_eq!(LetterStatus::from_symbol(&"X".to_string()), Some(LetterStatus::Correct));
    assert_eq!(LetterStatus::from_symbol(&".".to_string()), Some(LetterStatus::WrongSpot));
    assert_eq!(LetterStatus::from_symbol(&"-".to_string()), Some(LetterStatus::NotInWord));
    for other in ["x", "", "XX", " ", "?", "X\u{301}", "\u{2014}"] {
        assert_eq!(LetterStatus::from_symbol(&other.to_string()), None);
    }
}

#[test]
fn symbols_are_read_up_to_the_first_malformed_one() {
    assert_eq!(
        statuses_of_symbols(&symbols(&["X", ".", "-", "X"])),
        Ok(vec![
            LetterStatus::Correct,
            LetterStatus::WrongSpot,
            LetterStatus::NotInWord,
            LetterStatus::Correct
        ])
    );
    assert_eq!(statuses_of_symbols(&symbols(&[])), Ok(vec![]));
    assert_eq!(
        statuses_of_symbols(&symbols(&["X", "?", "!", "-"])),
        Err(PuzzleError::MalformedFeedbackSymbol { position: 1 })
    );
    assert_eq!(
        statuses_of_symbols(&symbols(&["X.", "-"])),
        Err(PuzzleError::MalformedFeedbackSymbol { position: 0 })
    );
    assert_eq!(
        statuses_of_symbols(&symbols(&["X", ".", ""])),
        Err(PuzzleError::MalformedFeedbackSymbol { position: 2 })
    );
}

#[test]
fn each_status_has_its_square() {
    assert_eq!(LetterStatus::Correct.square(), '\u{1F7E9}');
    assert_eq!(LetterStatus::WrongSpot.square(), '\u{1F7E8}');
    assert_eq!(LetterStatus::NotInWord.square(), '\u{2B1C}');
    assert_eq!(LetterStatus::Correct.render(), "\u{1F7E9}");
    assert_eq!(LetterStatus::WrongSpot.render(), "\u{1F7E8}");
    assert_eq!(LetterStatus::NotInWord.render(), "\u{2B1C}");
}
