use combbreaker::RuleSet;

#[test]
fn test_ruleset() {
    let ruleset = RuleSet::default();

    assert_eq!(ruleset.nb_pieces, 6);
    assert_eq!(ruleset.combination_size, 4);
    assert_eq!(ruleset.max_tries, 10);
    assert_eq!(ruleset.allow_repeat, false);
}
