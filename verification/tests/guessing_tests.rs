use worker_pool::guessing::{parse_guess, Game, GuessOutcome};

#[test]
fn parses_plain_and_padded_numbers() {
    assert_eq!(parse_guess("42"), Some(42));
    assert_eq!(parse_guess("  42\n"), Some(42));
    assert_eq!(parse_guess("\t7\r\n"), Some(7));
    assert_eq!(parse_guess("0042"), Some(42));
    assert_eq!(parse_guess("0"), Some(0));
}

#[test]
fn rejects_lines_that_are_not_numbers() {
    assert_eq!(parse_guess(""), None);
    assert_eq!(parse_guess("   \n"), None);
    assert_eq!(parse_guess("12a"), None);
    assert_eq!(parse_guess("four"), None);
    assert_eq!(parse_guess("4 2"), None);
    assert_eq!(parse_guess("-3"), None);
}

#[test]
fn rejects_values_that_do_not_fit() {
    assert_eq!(parse_guess("4294967295"), Some(u32::MAX));
    assert_eq!(parse_guess("4294967296"), None);
    assert_eq!(parse_guess("99999999999999999999"), None);
}

#[test]
fn guesses_compare_to_the_secret() {
    let g = Game { secret: 50 };
    assert_eq!(g.evaluate(49), GuessOutcome::TooSmall);
    assert_eq!(g.evaluate(51), GuessOutcome::TooBig);
    assert_eq!(g.evaluate(50), GuessOutcome::Win);
    assert_eq!(g.guess_line(" 50 "), Some(GuessOutcome::Win));
    assert_eq!(g.guess_line("fifty"), None);
}

#[test]
fn drawn_secret_stays_in_range_and_wins_against_itself() {
    for _ in 0..100 {
        let g = Game::new();
        assert!(1 <= g.secret && g.secret <= 100);
        assert_eq!(g.evaluate(g.secret), GuessOutcome::Win);
    }
}
