use vstd::prelude::*;

verus! {

/// The four parameters of a game.
#[derive(Debug, Clone, Copy, PartialEq, Eq, Structural)]
pub struct RuleSet {
    /// How many pieces there are in a combination.
    pub combination_size: usize,
    /// How many different pieces are available.
    pub nb_pieces: usize,
    /// How many guesses can be sent.
    pub max_tries: u8,
    /// Whether the same piece can be used several times in the reference
    /// combination.
    pub allow_repeat: bool,
}

impl RuleSet {
    /// The rules of the classic game: four pieces out of six, ten tries, no
    /// repeated piece.
    pub open spec fn classic() -> RuleSet {
        RuleSet { combination_size: 4, nb_pieces: 6, max_tries: 10, allow_repeat: false }
    }
}

impl Default for RuleSet {
    fn default() -> (ruleset: RuleSet)
        ensures
            ruleset == RuleSet::classic(),
    {
        RuleSet { combination_size: 4, nb_pieces: 6, max_tries: 10, allow_repeat: false }
    }
}

} // verus!
