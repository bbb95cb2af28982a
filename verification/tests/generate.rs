use combbreaker::{accept_piece, gen_combination, Game, RuleSet};

fn rules(combination_size: usize, nb_pieces: usize, allow_repeat: bool) -> RuleSet {
    RuleSet {
        combination_size,
        nb_pieces,
        max_tries: 10,
        allow_repeat,
    }
}

#[test]
fn test_accept_piece_adds_a_new_piece() {
    let mut pieces = vec![1, 2];

    assert!(accept_piece(&mut pieces, 3, false));
    assert_eq!(pieces, vec![1, 2, 3]);
    assert!(accept_piece(&mut pieces, 0, true));
    assert_eq!(pieces, vec![1, 2, 3, 0]);
}

#[test]
fn test_accept_piece_refuses_a_forbidden_repeat() {
    let mut pieces = vec![1, 2];

    assert!(!accept_piece(&mut pieces, 2, false));
    assert_eq!(pieces, vec![1, 2]);
    assert!(!accept_piece(&mut pieces, 1, false));
    assert_eq!(pieces, vec![1, 2]);
}

#[test]
fn test_accept_piece_takes_a_repeat_that_the_rules_allow() {
    let mut pieces = vec![1, 2];

    assert!(accept_piece(&mut pieces, 2, true));
    assert_eq!(pieces, vec![1, 2, 2]);
}

#[test]
fn test_gen_combination_with_repeats_takes_every_draw() {
    let ruleset = rules(4, 6, true);

    for _ in 0..50 {
        let combination = gen_combination(&ruleset, 4).unwrap();
        assert_eq!(combination.len(), 4);
        assert!(combination.values().iter().all(|piece| *piece < 6));
    }
    assert!(gen_combination(&ruleset, 3).is_none());
}

#[test]
fn test_gen_combination_without_repeats() {
    let ruleset = rules(4, 6, false);

    for _ in 0..50 {
        let combination = gen_combination(&ruleset, 10_000).unwrap();
        assert_eq!(combination.len(), 4);
        assert!(!combination.has_duplicate());
        assert!(combination.values().iter().all(|piece| *piece < 6));

        let mut game = Game::with_ruleset(ruleset);
        assert_eq!(game.set_combination(combination), Ok(()));
    }
}

#[test]
fn test_gen_combination_with_a_single_piece() {
    let combination = gen_combination(&rules(5, 1, true), 5).unwrap();
    assert_eq!(combination.values(), &vec![0, 0, 0, 0, 0]);

    let combination = gen_combination(&rules(1, 1, false), 1).unwrap();
    assert_eq!(combination.values(), &vec![0]);
}

#[test]
fn test_gen_combination_that_cannot_be() {
    assert!(gen_combination(&rules(4, 3, false), 1_000).is_none());
    assert!(gen_combination(&rules(4, 6, false), 3).is_none());
    assert!(gen_combination(&rules(1, 6, true), 0).is_none());
}

#[test]
fn test_gen_combination_of_no_piece() {
    let combination = gen_combination(&rules(0, 6, false), 0).unwrap();
    assert_eq!(combination.len(), 0);
}

#[test]
fn test_gen_combination_uses_every_piece_of_the_byte() {
    let combination = gen_combination(&rules(256, 256, false), 1_000_000).unwrap();
    assert_eq!(combination.distinct_len(), 256);
}
