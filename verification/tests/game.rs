use combbreaker::{Combination, Game, GameError, GuessResult, RuleSet};

fn rules(combination_size: usize, nb_pieces: usize, max_tries: u8, allow_repeat: bool) -> RuleSet {
    RuleSet {
        combination_size,
        nb_pieces,
        max_tries,
        allow_repeat,
    }
}

#[test]
fn test_new_game() {
    assert_eq!(*Game::new().ruleset(), RuleSet::default());
}

#[test]
fn test_game() -> Result<(), GameError> {
    let mut game = Game::new();

    assert!(!game.ended());

    let combination_to_guess = Combination::from_slice(&[1, 2, 3, 4]);
    game.set_combination(combination_to_guess.clone())?;

    assert!(!game.ended());

    let result = game.guess(&Combination::from_slice(&[1, 1, 1, 1]))?;
    assert_eq!(
        result,
        GuessResult {
            ok: 1,
            misplaced: 0,
            ko: 3
        }
    );

    assert!(!game.ended());

    let result = game.guess(&Combination::from_slice(&[1, 2, 3, 4]))?;
    assert_eq!(
        result,
        GuessResult {
            ok: 4,
            misplaced: 0,
            ko: 0
        }
    );

    assert!(game.ended());
    assert!(game.won());
    assert!(!game.lost());
    assert_eq!(game.combination().as_ref().unwrap(), &combination_to_guess);
    assert_eq!(game.score(), 2);

    Ok(())
}

#[test]
fn test_lib() -> Result<(), GameError> {
    let mut game = Game::new();

    game.set_combination(Combination::from_slice(&[1, 2, 3, 4]))?;

    let _ = game.guess(&Combination::from_slice(&[1, 2, 3, 4]));
    assert!(game.ended());

    Ok(())
}

#[test]
fn test_fresh_game() {
    let game = Game::with_ruleset(rules(3, 5, 7, true));

    assert_eq!(*game.ruleset(), rules(3, 5, 7, true));
    assert!(game.combination().is_none());
    assert_eq!(game.remaining_guesses(), 7);
    assert_eq!(game.score(), 0);
    assert!(!game.won());
    assert!(!game.lost());
    assert!(!game.ended());

    let game = Game::default();
    assert_eq!(*game.ruleset(), RuleSet::default());
    assert_eq!(game.remaining_guesses(), 10);
}

#[test]
fn test_set_combination_twice_is_a_duplicate_assignment() {
    let mut game = Game::new();

    assert_eq!(game.set_combination(Combination::from_slice(&[1, 2, 3, 4])), Ok(()));
    assert_eq!(
        game.set_combination(Combination::from_slice(&[4, 3, 2, 1])),
        Err(GameError::DuplicateAssignment)
    );
    assert_eq!(
        game.set_combination(Combination::from_slice(&[1])),
        Err(GameError::DuplicateAssignment)
    );
    assert_eq!(
        game.combination().as_ref().unwrap(),
        &Combination::from_slice(&[1, 2, 3, 4])
    );
}

#[test]
fn test_set_combination_of_another_length_is_a_length_mismatch() {
    let mut game = Game::new();

    assert_eq!(
        game.set_combination(Combination::from_slice(&[1, 2, 3])),
        Err(GameError::LengthMismatch)
    );
    assert_eq!(
        game.set_combination(Combination::from_slice(&[1, 2, 3, 4, 5])),
        Err(GameError::LengthMismatch)
    );
    assert_eq!(
        game.set_combination(Combination::from_slice(&[1, 1, 1, 1, 1])),
        Err(GameError::LengthMismatch)
    );
    assert!(game.combination().is_none());
    assert_eq!(game.set_combination(Combination::from_slice(&[1, 2, 3, 4])), Ok(()));
}

#[test]
fn test_set_combination_with_too_many_symbols() {
    let mut game = Game::with_ruleset(rules(4, 3, 10, true));

    assert_eq!(
        game.set_combination(Combination::from_slice(&[1, 2, 3, 4])),
        Err(GameError::TooManySymbols)
    );
    assert!(game.combination().is_none());
    assert_eq!(game.set_combination(Combination::from_slice(&[1, 2, 3, 1])), Ok(()));

    let mut game = Game::with_ruleset(rules(4, 3, 10, false));
    assert_eq!(
        game.set_combination(Combination::from_slice(&[1, 2, 3, 4])),
        Err(GameError::TooManySymbols)
    );
}

#[test]
fn test_set_combination_with_a_repeat_that_the_rules_forbid() {
    let mut game = Game::new();

    assert_eq!(
        game.set_combination(Combination::from_slice(&[1, 2, 3, 1])),
        Err(GameError::DuplicateNotAllowed)
    );
    assert!(game.combination().is_none());

    let mut game = Game::with_ruleset(rules(4, 6, 10, true));
    assert_eq!(game.set_combination(Combination::from_slice(&[1, 2, 3, 1])), Ok(()));
}

#[test]
fn test_guess_without_reference() {
    let mut game = Game::new();

    assert_eq!(
        game.guess(&Combination::from_slice(&[1, 2, 3, 4])),
        Err(GameError::NoReferenceSet)
    );
    assert_eq!(game.score(), 0);
    assert_eq!(game.remaining_guesses(), 10);
    assert!(!game.ended());
}

#[test]
fn test_guess_after_the_game_is_won() {
    let mut game = Game::new();
    game.set_combination(Combination::from_slice(&[1, 2, 3, 4])).unwrap();

    let result = game.guess(&Combination::from_slice(&[1, 2, 3, 4])).unwrap();
    assert_eq!(result.ok, 4);
    assert!(game.won());

    assert_eq!(
        game.guess(&Combination::from_slice(&[1, 2, 3, 4])),
        Err(GameError::SessionEnded)
    );
    assert_eq!(
        game.guess(&Combination::from_slice(&[4, 3, 2, 1])),
        Err(GameError::SessionEnded)
    );
    assert_eq!(game.score(), 1);
    assert_eq!(game.remaining_guesses(), 9);
    assert!(game.won());
    assert!(!game.lost());
}

#[test]
fn test_game_is_lost_after_the_last_try() {
    let mut game = Game::with_ruleset(rules(4, 6, 3, false));
    game.set_combination(Combination::from_slice(&[1, 2, 3, 4])).unwrap();

    for tries in 1..=3u8 {
        assert!(!game.ended());
        let result = game.guess(&Combination::from_slice(&[4, 3, 2, 1])).unwrap();
        assert_eq!(
            result,
            GuessResult {
                ok: 0,
                misplaced: 4,
                ko: 0
            }
        );
        assert_eq!(game.score(), tries);
        assert_eq!(game.remaining_guesses(), 3 - tries);
    }

    assert!(game.lost());
    assert!(!game.won());
    assert!(game.ended());
    assert_eq!(game.remaining_guesses(), 0);
    assert_eq!(
        game.guess(&Combination::from_slice(&[1, 2, 3, 4])),
        Err(GameError::SessionEnded)
    );
    assert_eq!(game.score(), 3);
}

#[test]
fn test_game_is_lost_after_ten_tries_under_the_classic_rules() {
    let mut game = Game::new();
    game.set_combination(Combination::from_slice(&[0, 1, 2, 3])).unwrap();

    for _ in 0..10 {
        assert!(!game.lost());
        game.guess(&Combination::from_slice(&[5, 5, 5, 5])).unwrap();
    }

    assert!(game.lost());
    assert_eq!(game.remaining_guesses(), 0);
    assert_eq!(game.score(), 10);
}

#[test]
fn test_game_won_at_the_last_try_is_not_lost() {
    let mut game = Game::with_ruleset(rules(2, 4, 2, true));
    game.set_combination(Combination::from_slice(&[3, 3])).unwrap();

    game.guess(&Combination::from_slice(&[3, 0])).unwrap();
    let result = game.guess(&Combination::from_slice(&[3, 3])).unwrap();

    assert_eq!(result.ok, 2);
    assert!(game.won());
    assert!(!game.lost());
    assert!(game.ended());
    assert_eq!(game.remaining_guesses(), 0);
    assert_eq!(game.score(), 2);
}

#[test]
fn test_classic_game_from_the_first_guess_to_the_win() {
    let mut game = Game::with_ruleset(rules(4, 6, 10, false));
    assert_eq!(game.set_combination(Combination::from_slice(&[1, 2, 3, 4])), Ok(()));

    assert_eq!(
        game.guess(&Combination::from_slice(&[1, 1, 1, 1])),
        Ok(GuessResult {
            ok: 1,
            misplaced: 0,
            ko: 3
        })
    );
    assert!(!game.won());
    assert_eq!(game.remaining_guesses(), 9);

    assert_eq!(
        game.guess(&Combination::from_slice(&[1, 2, 3, 4])),
        Ok(GuessResult {
            ok: 4,
            misplaced: 0,
            ko: 0
        })
    );
    assert!(game.won());
    assert!(game.ended());
    assert_eq!(game.score(), 2);
    assert_eq!(game.remaining_guesses(), 8);
}
