//! Drawing a reference combination at random.

use rand::distributions::{Distribution, Uniform};
use rand::rngs::ThreadRng;
use vstd::prelude::*;

use crate::combination::Combination;
use crate::game::GameState;
use crate::ruleset::RuleSet;

verus! {

/// The random number generator of the current thread, from the crate `rand`.
/// Nothing is known of what it holds.
#[verifier::external_type_specification]
#[verifier::external_body]
pub struct ExThreadRng(ThreadRng);

/// `rand::thread_rng` hands out the generator of the current thread, which
/// the system seeds; it gives up only where the system cannot seed it.
/// Nothing is promised of the generator.
pub assume_specification[ rand::thread_rng ]() -> (rng: ThreadRng)
;

/// Draws one value from `Uniform::from(0..bound)` with `Distribution::sample`.
/// The distribution cannot be built for an empty range, which `requires`
/// leaves out, and every value that it gives is in the range. Which value
/// comes is left open: two draws may differ.
#[verifier::external_body]
fn sample_below(rng: &mut ThreadRng, bound: usize) -> (piece: usize)
    requires
        bound > 0,
    ensures
        piece < bound,
{
    Uniform::from(0..bound).sample(rng)
}

/// Whether `pieces` can be the reference combination of a game under
/// `ruleset` whose pieces are the numbers below `ruleset.nb_pieces`.
pub open spec fn obeys(ruleset: RuleSet, pieces: Seq<u8>) -> bool {
    &&& pieces.len() == ruleset.combination_size
    &&& forall|pos: int| 0 <= pos < pieces.len() ==> #[trigger] pieces[pos] < ruleset.nb_pieces
    &&& ruleset.allow_repeat || pieces.no_duplicates()
}

/// A set of pieces that are all below `bound` has at most `bound` elements.
proof fn lemma_pieces_below(pieces: Set<u8>, bound: nat)
    requires
        pieces.finite(),
        forall|piece: u8| pieces.contains(piece) ==> piece < bound,
    ensures
        pieces.len() <= bound,
    decreases bound,
{
    if bound == 0 {
        assert(pieces =~= Set::empty());
    } else if bound <= 256 {
        let last = (bound - 1) as u8;
        lemma_pieces_below(pieces.remove(last), (bound - 1) as nat);
    } else {
        lemma_pieces_below(pieces, (bound - 1) as nat);
    }
}

/// A combination that obeys the rules is accepted as the reference of a game
/// that has none yet.
pub proof fn lemma_obeys_is_accepted(ruleset: RuleSet, pieces: Seq<u8>)
    requires
        obeys(ruleset, pieces),
    ensures
        GameState::fresh(ruleset).set_outcome(pieces) is Ok,
{
    vstd::seq_lib::seq_to_set_is_finite(pieces);
    assert forall|piece: u8| pieces.to_set().contains(piece) implies piece
        < ruleset.nb_pieces by {
        let pos = choose|pos: int| 0 <= pos < pieces.len() && pieces[pos] == piece;
        assert(pieces[pos] < ruleset.nb_pieces);
    }
    lemma_pieces_below(pieces.to_set(), ruleset.nb_pieces as nat);
}

/// Whether `pieces` holds `piece`.
fn holds(pieces: &Vec<u8>, piece: u8) -> (found: bool)
    ensures
        found == pieces@.contains(piece),
{
    let mut pos: usize = 0;
    while pos < pieces.len()
        invariant
            pos <= pieces.len(),
            forall|before: int| 0 <= before < pos ==> pieces@[before] != piece,
        decreases pieces.len() - pos,
    {
        if pieces[pos] == piece {
            return true;
        }
        pos += 1;
    }
    false
}

/// Adds `piece` to `pieces`, unless the rules forbid repeats and `pieces`
/// holds it already. Says whether it was added.
pub fn accept_piece(pieces: &mut Vec<u8>, piece: u8, allow_repeat: bool) -> (accepted: bool)
    ensures
        accepted == (allow_repeat || !old(pieces)@.contains(piece)),
        final(pieces)@ == if accepted {
            old(pieces)@.push(piece)
        } else {
            old(pieces)@
        },
{
    if allow_repeat || !holds(pieces, piece) {
        pieces.push(piece);
        true
    } else {
        false
    }
}

/// Draws pieces below `ruleset.nb_pieces` until they make a combination that
/// obeys `ruleset`, or until `max_draws` pieces were drawn. A piece that
/// would be a forbidden repeat is drawn again.
///
/// Where repeats are allowed every draw counts, so the combination is owed
/// once `max_draws` reaches its size. Where they are not, it depends on the
/// draws whether `max_draws` is enough.
pub fn gen_combination(ruleset: &RuleSet, max_draws: usize) -> (combination: Option<Combination>)
    requires
        0 < ruleset.nb_pieces <= 256,
    ensures
        combination matches Some(reference) ==> obeys(*ruleset, reference@) && GameState::fresh(
            *ruleset,
        ).set_outcome(reference@) is Ok,
        max_draws < ruleset.combination_size ==> combination is None,
        ruleset.allow_repeat && max_draws >= ruleset.combination_size ==> combination is Some,
        !ruleset.allow_repeat && ruleset.nb_pieces < ruleset.combination_size
            ==> combination is None,
{
    let mut pieces: Vec<u8> = Vec::new();
    let mut rng = rand::thread_rng();
    let mut draws: usize = 0;

    while pieces.len() < ruleset.combination_size && draws < max_draws
        invariant
            0 < ruleset.nb_pieces <= 256,
            draws <= max_draws,
            pieces@.len() <= draws,
            pieces@.len() <= ruleset.combination_size,
            ruleset.allow_repeat ==> pieces@.len() == draws,
            ruleset.allow_repeat || pieces@.no_duplicates(),
            forall|pos: int| 0 <= pos < pieces@.len() ==> #[trigger] pieces@[pos] < ruleset.nb_pieces,
        decreases max_draws - draws,
    {
        let piece = sample_below(&mut rng, ruleset.nb_pieces) as u8;
        draws += 1;
        accept_piece(&mut pieces, piece, ruleset.allow_repeat);
    }

    if pieces.len() == ruleset.combination_size {
        proof {
            lemma_obeys_is_accepted(*ruleset, pieces@);
            if !ruleset.allow_repeat {
                pieces@.unique_seq_to_set();
            }
        }
        Some(Combination::from_vec(pieces))
    } else {
        None
    }
}

} // verus!
