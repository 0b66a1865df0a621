use wordle_solver::{score_for_potential_guess, LetterStatus, Puzzle};

const DICTIONARY: &str = "about\nabbey\natoll\naudio\nbuilt\ncloud\ncrane\ndroll\nembay\ngreen\nidols\nknoll\novoli\nrusty\nslate\nsoare\ntangy\ntanky\ntoney\ntroll\nzaidy\nvealy\n";

fn assert_score_better_than(better: &str, lesser: &str) {
    let better_score = score_for_potential_guess(&better.to_string());
    let lesser_score = score_for_potential_guess(&lesser.to_string());

    assert!(
        better_score > lesser_score,
        "Score of {} ({}) expected to be higher than {} ({})",
        better,
        better_score,
        lesser,
        lesser_score
    );
}

#[test]
fn scores() {
    assert_eq!(102, score_for_potential_guess(&"RUSTY".to_string()));
    assert_score_better_than("RUSTY", "GREEN");
    assert_score_better_than("AEIOU", "RUSTY");
}

#[test]
fn solution() {
    let mut puzzle = Puzzle::setup(DICTIONARY);

    assert_eq!(None, puzzle.solution());

    puzzle.assign_letter('R', 0, LetterStatus::NotInWord);
    puzzle.assign_letter('U', 1, LetterStatus::NotInWord);
    puzzle.assign_letter('S', 2, LetterStatus::NotInWord);
    puzzle.assign_letter('T', 3, LetterStatus::NotInWord);
    puzzle.assign_letter('Y', 4, LetterStatus::Correct);

    assert_eq!(None, puzzle.solution());

    puzzle.assign_letter('Z', 0, LetterStatus::NotInWord);
    puzzle.assign_letter('A', 1, LetterStatus::WrongSpot);
    puzzle.assign_letter('I', 2, LetterStatus::NotInWord);
    puzzle.assign_letter('D', 3, LetterStatus::NotInWord);
    puzzle.assign_letter('Y', 4, LetterStatus::Correct);

    assert_eq!(None, puzzle.solution());

    puzzle.assign_letter('V', 0, LetterStatus::NotInWord);
    puzzle.assign_letter('E', 1, LetterStatus::WrongSpot);
    puzzle.assign_letter('A', 2, LetterStatus::WrongSpot);
    puzzle.assign_letter('L', 3, LetterStatus::NotInWord);
    puzzle.assign_letter('Y', 4, LetterStatus::Correct);

    assert_eq!(None, puzzle.solution());

    puzzle.assign_letter('E', 0, LetterStatus::WrongSpot);
    puzzle.assign_letter('M', 1, LetterStatus::NotInWord);
    puzzle.assign_letter('B', 2, LetterStatus::Correct);
    puzzle.assign_letter('A', 3, LetterStatus::WrongSpot);
    puzzle.assign_letter('Y', 4, LetterStatus::Correct);

    assert_eq!(None, puzzle.solution());

    puzzle.assign_letter('A', 0, LetterStatus::Correct);
    puzzle.assign_letter('B', 1, LetterStatus::Correct);
    puzzle.assign_letter('B', 2, LetterStatus::Correct);
    puzzle.assign_letter('E', 3, LetterStatus::Correct);
    puzzle.assign_letter('Y', 4, LetterStatus::Correct);

    assert_eq!(Some("ABBEY".to_string()), puzzle.solution());
}

#[test]
#[allow(unused_assignments)]
fn jan_14() {
    let mut puzzle = Puzzle::setup(DICTIONARY);

    puzzle
        .assign_guess_results(
            "RUSTY".to_string(),
            vec![
                LetterStatus::NotInWord,
                LetterStatus::NotInWord,
                LetterStatus::NotInWord,
                LetterStatus::WrongSpot,
                LetterStatus::Correct,
            ],
        )
        .unwrap();

    let mut suggestion = puzzle.suggest_word();

    puzzle
        .assign_guess_results(
            "TONEY".to_string(),
            vec![
                LetterStatus::Correct,
                LetterStatus::NotInWord,
                LetterStatus::Correct,
                LetterStatus::NotInWord,
                LetterStatus::Correct,
            ],
        )
        .unwrap();

    suggestion = puzzle.suggest_word();

    puzzle
        .assign_guess_results(
            "TANKY".to_string(),
            vec![
                LetterStatus::Correct,
                LetterStatus::Correct,
                LetterStatus::Correct,
                LetterStatus::NotInWord,
                LetterStatus::Correct,
            ],
        )
        .unwrap();

    suggestion = puzzle.suggest_word();

    puzzle
        .assign_guess_results(
            "TANGY".to_string(),
            vec![
                LetterStatus::Correct,
                LetterStatus::Correct,
                LetterStatus::Correct,
                LetterStatus::Correct,
                LetterStatus::Correct,
            ],
        )
        .unwrap();

    suggestion = puzzle.suggest_word();

    assert_eq!(Some("TANGY".to_string()), suggestion);
    assert_eq!(puzzle.solution(), Some("TANGY".to_string()));
}

#[test]
fn quirky_not_in_word() {
    let mut puzzle = Puzzle::setup(DICTIONARY);

    puzzle
        .assign_guess_results(
            "SOARE".to_string(),
            vec![
                LetterStatus::NotInWord,
                LetterStatus::WrongSpot,
                LetterStatus::NotInWord,
                LetterStatus::NotInWord,
                LetterStatus::NotInWord,
            ],
        )
        .unwrap();
    puzzle
        .assign_guess_results(
            "CLOUD".to_string(),
            vec![
                LetterStatus::NotInWord,
                LetterStatus::WrongSpot,
                LetterStatus::Correct,
                LetterStatus::NotInWord,
                LetterStatus::NotInWord,
            ],
        )
        .unwrap();
    puzzle
        .assign_guess_results(
            "YMOLT".to_string(),
            vec![
                LetterStatus::NotInWord,
                LetterStatus::NotInWord,
                LetterStatus::Correct,
                LetterStatus::Correct,
                LetterStatus::NotInWord,
            ],
        )
        .unwrap();

    // The puzzle says NotInWord for the leading `O` even though the answer is KNOLL.
    puzzle
        .assign_guess_results(
            "OVOLI".to_string(),
            vec![
                LetterStatus::NotInWord,
                LetterStatus::NotInWord,
                LetterStatus::Correct,
                LetterStatus::Correct,
                LetterStatus::NotInWord,
            ],
        )
        .unwrap();

    let suggestion = puzzle.suggest_word();
    assert_eq!(Some("KNOLL".to_string()), suggestion);
}
