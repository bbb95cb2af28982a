use vstd::prelude::*;

use crate::check::{check, GuessResult};
use crate::combination::Combination;
use crate::error::GameError;
use crate::ruleset::RuleSet;
use crate::scoring::{lemma_matched_all, lemma_score_adds_up, matched, score};

verus! {

/// What a game holds, as plain values: its rules, the reference combination
/// once it is set, the number of guesses answered, and whether one of them
/// was the reference.
pub struct GameState {
    pub ruleset: RuleSet,
    pub combination: Option<Seq<u8>>,
    pub guess_count: nat,
    pub success: bool,
}

impl GameState {
    /// A game under `ruleset` that has no reference combination yet.
    pub open spec fn fresh(ruleset: RuleSet) -> GameState {
        GameState { ruleset, combination: None, guess_count: 0, success: false }
    }

    /// What holds of every game: no more guesses were answered than the rules
    /// allow, the reference combination obeys the rules, and a game is won
    /// only by a guess against a reference.
    pub open spec fn valid(self) -> bool {
        &&& self.guess_count <= self.ruleset.max_tries
        &&& self.combination matches Some(reference) ==> {
            &&& reference.len() == self.ruleset.combination_size
            &&& reference.to_set().len() <= self.ruleset.nb_pieces
            &&& self.ruleset.allow_repeat || reference.no_duplicates()
        }
        &&& self.success ==> self.combination is Some && self.guess_count >= 1
    }

    /// Whether a guess was the reference combination.
    pub open spec fn won(self) -> bool {
        self.success
    }

    /// Whether the guesses ran out before one was the reference combination.
    pub open spec fn lost(self) -> bool {
        !self.success && self.guess_count >= self.ruleset.max_tries
    }

    /// Whether the game is over.
    pub open spec fn ended(self) -> bool {
        self.won() || self.lost()
    }

    /// Whether the game has a reference combination and is not over: the
    /// state in which a guess is answered.
    pub open spec fn in_progress(self) -> bool {
        self.combination is Some && !self.ended()
    }

    /// How many guesses can still be sent.
    pub open spec fn remaining_guesses(self) -> int {
        self.ruleset.max_tries - self.guess_count
    }

    /// The answer to setting `combination` as the reference.
    pub open spec fn set_outcome(self, combination: Seq<u8>) -> Result<(), GameError> {
        if self.combination is Some {
            Err(GameError::DuplicateAssignment)
        } else if combination.len() != self.ruleset.combination_size {
            Err(GameError::LengthMismatch)
        } else if self.ruleset.nb_pieces < combination.to_set().len() {
            Err(GameError::TooManySymbols)
        } else if !self.ruleset.allow_repeat && !combination.no_duplicates() {
            Err(GameError::DuplicateNotAllowed)
        } else {
            Ok(())
        }
    }

    /// The game after setting `combination` as the reference: it holds the
    /// combination if that was accepted, and is unchanged if not.
    pub open spec fn after_set(self, combination: Seq<u8>) -> GameState {
        if self.set_outcome(combination) is Ok {
            GameState { combination: Some(combination), ..self }
        } else {
            self
        }
    }

    /// The answer to `guess`.
    pub open spec fn guess_outcome(self, guess: Seq<u8>) -> Result<GuessResult, GameError> {
        if self.ended() {
            Err(GameError::SessionEnded)
        } else {
            match self.combination {
                None => Err(GameError::NoReferenceSet),
                Some(reference) => Ok(score(guess, reference)),
            }
        }
    }

    /// The game after `guess`: a guess that is answered counts, and wins the
    /// game if all its pieces are in place; one that is refused changes
    /// nothing.
    pub open spec fn after_guess(self, guess: Seq<u8>) -> GameState {
        if self.ended() {
            self
        } else {
            match self.combination {
                None => self,
                Some(reference) => GameState {
                    guess_count: self.guess_count + 1,
                    success: matched(guess, reference) == self.ruleset.combination_size,
                    ..self
                },
            }
        }
    }

    /// The game after each of `guesses` in turn.
    pub open spec fn after_guesses(self, guesses: Seq<Seq<u8>>) -> GameState
        decreases guesses.len(),
    {
        if guesses.len() == 0 {
            self
        } else {
            self.after_guesses(guesses.drop_last()).after_guess(guesses.last())
        }
    }
}

/// Setting a combination and answering a guess keep a game valid. Neither
/// changes the rules, the count of guesses never goes down, and a reference
/// combination that is set stays.
pub proof fn lemma_valid_kept(state: GameState, pieces: Seq<u8>)
    requires
        state.valid(),
    ensures
        state.after_set(pieces).valid(),
        state.after_guess(pieces).valid(),
        state.after_set(pieces).ruleset == state.ruleset,
        state.after_guess(pieces).ruleset == state.ruleset,
        state.after_set(pieces).guess_count == state.guess_count,
        state.after_guess(pieces).guess_count >= state.guess_count,
        state.combination is Some ==> state.after_set(pieces).combination == state.combination,
        state.after_guess(pieces).combination == state.combination,
        state.won() ==> state.after_guess(pieces).won() && state.after_set(pieces).won(),
{
}

/// Once a reference combination is set, setting another is refused as a
/// duplicate assignment, and changes nothing.
pub proof fn lemma_second_assignment_refused(state: GameState, first: Seq<u8>, second: Seq<u8>)
    requires
        state.set_outcome(first) is Ok,
    ensures
        state.after_set(first).combination == Some(first),
        state.after_set(first).set_outcome(second) == Err::<(), GameError>(
            GameError::DuplicateAssignment,
        ),
        state.after_set(first).after_set(second) == state.after_set(first),
{
}

/// A game in progress is won by a guess exactly when the guess is the
/// reference combination.
pub proof fn lemma_won_by_reference(state: GameState, guess: Seq<u8>)
    requires
        state.valid(),
        state.in_progress(),
        guess.len() == state.ruleset.combination_size,
    ensures
        state.after_guess(guess).won() <==> state.combination == Some(guess),
{
    lemma_matched_all(guess, state.combination->0);
}

/// Once a guess has had all its pieces in place, the game is won, and every
/// further guess is refused because the session has ended.
pub proof fn lemma_guess_after_win_refused(state: GameState, winning: Seq<u8>, next: Seq<u8>)
    requires
        state.in_progress(),
        matched(winning, state.combination->0) == state.ruleset.combination_size,
    ensures
        state.guess_outcome(winning) is Ok,
        state.after_guess(winning).won(),
        !state.after_guess(winning).lost(),
        state.after_guess(winning).ended(),
        state.after_guess(winning).guess_outcome(next) == Err::<GuessResult, GameError>(
            GameError::SessionEnded,
        ),
        state.after_guess(winning).after_guess(next) == state.after_guess(winning),
{
}

/// After as many guesses as were left, none of which had all its pieces in
/// place, the game is lost and no guess remains.
pub proof fn lemma_lost_after_last_try(state: GameState, guesses: Seq<Seq<u8>>)
    requires
        state.valid(),
        state.combination is Some,
        !state.won(),
        guesses.len() == state.remaining_guesses(),
        forall|turn: int|
            0 <= turn < guesses.len() ==> matched(#[trigger] guesses[turn], state.combination->0)
                != state.ruleset.combination_size,
    ensures
        state.after_guesses(guesses).lost(),
        !state.after_guesses(guesses).won(),
        state.after_guesses(guesses).remaining_guesses() == 0,
        state.after_guesses(guesses).guess_count == state.ruleset.max_tries,
{
    lemma_losing_guesses_count(state, guesses);
}

/// Guesses that are answered without winning only add to the count.
proof fn lemma_losing_guesses_count(state: GameState, guesses: Seq<Seq<u8>>)
    requires
        state.valid(),
        state.combination is Some,
        !state.won(),
        guesses.len() <= state.remaining_guesses(),
        forall|turn: int|
            0 <= turn < guesses.len() ==> matched(#[trigger] guesses[turn], state.combination->0)
                != state.ruleset.combination_size,
    ensures
        state.after_guesses(guesses) == (GameState {
            guess_count: state.guess_count + guesses.len(),
            ..state
        }),
    decreases guesses.len(),
{
    if guesses.len() > 0 {
        let earlier = guesses.drop_last();
        assert forall|turn: int| 0 <= turn < earlier.len() implies matched(
            #[trigger] earlier[turn],
            state.combination->0,
        ) != state.ruleset.combination_size by {
            assert(earlier[turn] == guesses[turn]);
        }
        lemma_losing_guesses_count(state, earlier);
        assert(guesses.last() == guesses[guesses.len() - 1]);
    }
}

/// One play-through: the reference combination is set once, then guesses are
/// answered until one is the reference or the tries run out.
pub struct Game {
    ruleset: RuleSet,
    combination: Option<Combination>,
    guess_count: u8,
    success: bool,
}

impl View for Game {
    type V = GameState;

    closed spec fn view(&self) -> GameState {
        GameState {
            ruleset: self.ruleset,
            combination: match self.combination {
                Some(reference) => Some(reference@),
                None => None,
            },
            guess_count: self.guess_count as nat,
            success: self.success,
        }
    }
}

impl Game {
    #[verifier::type_invariant]
    spec fn well_formed(self) -> bool {
        self@.valid()
    }

    /// A game under the classic rules.
    pub fn new() -> (game: Game)
        ensures
            game@ == GameState::fresh(RuleSet::classic()),
    {
        Game::with_ruleset(RuleSet::default())
    }

    /// A game under `ruleset`.
    pub fn with_ruleset(ruleset: RuleSet) -> (game: Game)
        ensures
            game@ == GameState::fresh(ruleset),
    {
        Game { ruleset, combination: None, guess_count: 0, success: false }
    }

    /// The rules of the game.
    pub fn ruleset(&self) -> (ruleset: &RuleSet)
        ensures
            *ruleset == self@.ruleset,
    {
        &self.ruleset
    }

    /// How many guesses can still be sent.
    pub fn remaining_guesses(&self) -> (remaining: u8)
        ensures
            remaining == self@.remaining_guesses(),
    {
        proof {
            use_type_invariant(self);
        }
        self.ruleset.max_tries - self.guess_count
    }

    /// The reference combination, once it is set.
    pub fn combination(&self) -> (combination: &Option<Combination>)
        ensures
            match *combination {
                Some(reference) => self@.combination == Some(reference@),
                None => self@.combination is None,
            },
    {
        &self.combination
    }

    /// Sets the reference combination. This succeeds once, with a combination
    /// that obeys the rules.
    pub fn set_combination(&mut self, combination: Combination) -> (result: Result<(), GameError>)
        ensures
            result == old(self)@.set_outcome(combination@),
            final(self)@ == old(self)@.after_set(combination@),
            final(self)@.valid(),
    {
        proof {
            use_type_invariant(&*self);
        }
        if self.combination.is_some() {
            return Err(GameError::DuplicateAssignment);
        }
        if combination.len() != self.ruleset.combination_size {
            return Err(GameError::LengthMismatch);
        }
        if self.ruleset.nb_pieces < combination.distinct_len() {
            return Err(GameError::TooManySymbols);
        }
        if !self.ruleset.allow_repeat && combination.has_duplicate() {
            return Err(GameError::DuplicateNotAllowed);
        }
        self.combination = Some(combination);

        Ok(())
    }

    /// Answers `guess` and counts it. The game is over once a guess has all
    /// its pieces in place, or once the tries have run out.
    pub fn guess(&mut self, guess: &Combination) -> (result: Result<GuessResult, GameError>)
        requires
            old(self)@.in_progress() ==> guess@.len() == old(self)@.ruleset.combination_size
                && guess@.len() <= u8::MAX,
        ensures
            result == old(self)@.guess_outcome(guess@),
            final(self)@ == old(self)@.after_guess(guess@),
            final(self)@.valid(),
    {
        proof {
            use_type_invariant(&*self);
        }
        if self.ended() {
            return Err(GameError::SessionEnded);
        }
        match &self.combination {
            None => Err(GameError::NoReferenceSet),
            Some(reference) => {
                let guess_result = check(guess, reference);
                proof {
                    lemma_score_adds_up(guess@, reference@);
                }
                let success = guess_result.ok as usize == self.ruleset.combination_size;
                self.guess_count += 1;
                if success {
                    self.success = true;
                }
                Ok(guess_result)
            },
        }
    }

    /// Whether a guess was the reference combination.
    pub fn won(&self) -> (won: bool)
        ensures
            won == self@.won(),
    {
        self.success
    }

    /// Whether the tries ran out before a guess was the reference
    /// combination.
    pub fn lost(&self) -> (lost: bool)
        ensures
            lost == self@.lost(),
    {
        !self.success && self.guess_count >= self.ruleset.max_tries
    }

    /// Whether the game is over.
    pub fn ended(&self) -> (ended: bool)
        ensures
            ended == self@.ended(),
    {
        self.won() || self.lost()
    }

    /// How many guesses were answered: once the game is over, the tries that
    /// winning took, or all of them.
    pub fn score(&self) -> (score: u8)
        ensures
            score == self@.guess_count,
    {
        self.guess_count
    }
}

impl Default for Game {
    fn default() -> (game: Game)
        ensures
            game@ == GameState::fresh(RuleSet::classic()),
    {
        Game::new()
    }
}

} // verus!
