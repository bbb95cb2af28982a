//! What a guess is worth against a reference combination, stated over
//! sequences of pieces.

use vstd::math::min;
use vstd::prelude::*;

use crate::check::GuessResult;
use crate::counting::{
    count_below, count_holding, holding, lemma_count_by_piece, lemma_count_full, lemma_count_le,
    lemma_count_remove, lemma_count_same, lemma_count_zero, lemma_sum_le, lemma_sum_same,
    lemma_sum_single, sum_over_pieces,
};

verus! {

/// The predicate that every position satisfies.
pub open spec fn anywhere() -> spec_fn(int) -> bool {
    |pos: int| true
}

/// The positions at which `guess` and `reference` hold the same piece.
pub open spec fn agreeing(guess: Seq<u8>, reference: Seq<u8>) -> spec_fn(int) -> bool {
    |pos: int| guess[pos] == reference[pos]
}

/// How many times `piece` occurs in `pieces`.
pub open spec fn occurrences(pieces: Seq<u8>, piece: u8) -> nat {
    count_below(holding(anywhere(), pieces, piece), pieces.len())
}

/// How many pieces of `guess` are in place: the positions at which it holds
/// the piece that `reference` holds there.
pub open spec fn matched(guess: Seq<u8>, reference: Seq<u8>) -> nat {
    count_below(agreeing(guess, reference), guess.len())
}

/// For each piece, how many of its occurrences `guess` and `reference` have in
/// common: the smaller of its two numbers of occurrences.
pub open spec fn shared_of(guess: Seq<u8>, reference: Seq<u8>) -> spec_fn(u8) -> int {
    |piece: u8| min(occurrences(guess, piece) as int, occurrences(reference, piece) as int)
}

/// How many pieces `guess` and `reference` have in common, whatever their
/// positions.
pub open spec fn shared(guess: Seq<u8>, reference: Seq<u8>) -> int {
    sum_over_pieces(shared_of(guess, reference))
}

/// How many pieces of `guess` are in `reference`, but not in place.
pub open spec fn misplaced(guess: Seq<u8>, reference: Seq<u8>) -> int {
    shared(guess, reference) - matched(guess, reference)
}

/// How many pieces of `guess` have no counterpart in `reference`.
pub open spec fn absent(guess: Seq<u8>, reference: Seq<u8>) -> int {
    guess.len() - shared(guess, reference)
}

/// The answer to `guess` against `reference`, for combinations of one length
/// that a `u8` can hold.
pub open spec fn score(guess: Seq<u8>, reference: Seq<u8>) -> GuessResult {
    GuessResult {
        ok: matched(guess, reference) as u8,
        misplaced: misplaced(guess, reference) as u8,
        ko: absent(guess, reference) as u8,
    }
}

/// Adding up, over every piece, its occurrences in `pieces` gives the length
/// of `pieces`.
proof fn lemma_occurrences_add_up(pieces: Seq<u8>)
    ensures
        sum_over_pieces(count_holding(anywhere(), pieces, pieces.len())) == pieces.len(),
{
    lemma_count_by_piece(anywhere(), pieces, pieces.len());
    lemma_count_full(anywhere(), pieces.len());
}

/// In a sequence that holds no piece twice, a piece occurs once or not at
/// all.
proof fn lemma_occurrences_distinct(pieces: Seq<u8>, piece: u8)
    requires
        pieces.no_duplicates(),
    ensures
        occurrences(pieces, piece) == if pieces.contains(piece) {
            1nat
        } else {
            0nat
        },
{
    let here = holding(anywhere(), pieces, piece);
    if pieces.contains(piece) {
        let at = choose|at: int| 0 <= at < pieces.len() && pieces[at] == piece;
        let elsewhere = |pos: int| pos != at && here(pos);
        assert forall|pos: int| 0 <= pos < pieces.len() implies !#[trigger] elsewhere(pos) by {
            if pos != at && pieces[pos] == piece {
                assert(pieces[pos] == pieces[at]);
            }
        }
        lemma_count_zero(elsewhere, pieces.len());
        lemma_count_remove(here, elsewhere, at, pieces.len());
    } else {
        assert forall|pos: int| 0 <= pos < pieces.len() implies !#[trigger] here(pos) by {
            if pieces[pos] == piece {
                assert(pieces.contains(piece));
            }
        }
        lemma_count_zero(here, pieces.len());
    }
}

/// The three counts of a score are not negative and add up to the length of
/// the guess.
pub proof fn lemma_score_adds_up(guess: Seq<u8>, reference: Seq<u8>)
    requires
        guess.len() == reference.len(),
    ensures
        0 <= matched(guess, reference) <= guess.len(),
        0 <= misplaced(guess, reference) <= guess.len(),
        0 <= absent(guess, reference) <= guess.len(),
        matched(guess, reference) + misplaced(guess, reference) + absent(guess, reference)
            == guess.len(),
        guess.len() <= u8::MAX ==> {
            let result = score(guess, reference);
            &&& result.ok == matched(guess, reference)
            &&& result.misplaced == misplaced(guess, reference)
            &&& result.ko == absent(guess, reference)
            &&& result.ok + result.misplaced + result.ko == guess.len()
        },
{
    let size = guess.len();
    let both = agreeing(guess, reference);
    assert forall|piece: u8| #[trigger]
        count_holding(both, guess, size)(piece) <= shared_of(guess, reference)(piece) by {
        lemma_count_le(holding(both, guess, piece), holding(anywhere(), guess, piece), size);
        lemma_count_le(holding(both, guess, piece), holding(anywhere(), reference, piece), size);
    }
    lemma_sum_le(count_holding(both, guess, size), shared_of(guess, reference), 256);
    lemma_count_by_piece(both, guess, size);
    lemma_sum_le(shared_of(guess, reference), count_holding(anywhere(), guess, size), 256);
    lemma_occurrences_add_up(guess);
}

/// Swapping the guess and the reference changes none of the three counts.
pub proof fn lemma_score_symmetric(guess: Seq<u8>, reference: Seq<u8>)
    requires
        guess.len() == reference.len(),
    ensures
        matched(reference, guess) == matched(guess, reference),
        misplaced(reference, guess) == misplaced(guess, reference),
        absent(reference, guess) == absent(guess, reference),
        score(reference, guess) == score(guess, reference),
{
    lemma_count_same(agreeing(reference, guess), agreeing(guess, reference), guess.len());
    lemma_sum_same(shared_of(reference, guess), shared_of(guess, reference), 256);
}

/// A guess that is the reference has every piece in place.
pub proof fn lemma_score_identical(reference: Seq<u8>)
    ensures
        matched(reference, reference) == reference.len(),
        misplaced(reference, reference) == 0,
        absent(reference, reference) == 0,
{
    let size = reference.len();
    lemma_count_full(agreeing(reference, reference), size);
    lemma_sum_same(
        shared_of(reference, reference),
        count_holding(anywhere(), reference, size),
        256,
    );
    lemma_occurrences_add_up(reference);
}

/// Every piece of a guess is in place exactly when the guess is the
/// reference.
pub proof fn lemma_matched_all(guess: Seq<u8>, reference: Seq<u8>)
    requires
        guess.len() == reference.len(),
    ensures
        matched(guess, reference) == guess.len() <==> guess == reference,
{
    lemma_count_full(agreeing(guess, reference), guess.len());
    if matched(guess, reference) == guess.len() {
        assert forall|pos: int| 0 <= pos < guess.len() implies guess[pos] == reference[pos] by {
            assert(agreeing(guess, reference)(pos));
        }
        assert(guess =~= reference);
    }
}

/// A guess that holds no piece of the reference has every piece absent.
pub proof fn lemma_score_disjoint(guess: Seq<u8>, reference: Seq<u8>)
    requires
        guess.len() == reference.len(),
        forall|piece: u8| !(guess.contains(piece) && reference.contains(piece)),
    ensures
        matched(guess, reference) == 0,
        misplaced(guess, reference) == 0,
        absent(guess, reference) == guess.len(),
{
    let size = guess.len();
    assert forall|pos: int| 0 <= pos < size implies !#[trigger] agreeing(guess, reference)(
        pos,
    ) by {
        if guess[pos] == reference[pos] {
            assert(guess.contains(guess[pos]));
            assert(reference.contains(guess[pos]));
        }
    }
    lemma_count_zero(agreeing(guess, reference), size);
    assert forall|piece: u8| #[trigger] shared_of(guess, reference)(piece) == 0 by {
        lemma_count_zero(holding(anywhere(), guess, piece), size);
        lemma_count_zero(holding(anywhere(), reference, piece), size);
        if occurrences(guess, piece) > 0 && occurrences(reference, piece) > 0 {
            let in_guess = choose|pos: int|
                0 <= pos < size && #[trigger] holding(anywhere(), guess, piece)(pos);
            let in_reference = choose|pos: int|
                0 <= pos < size && #[trigger] holding(anywhere(), reference, piece)(pos);
            assert(guess.contains(guess[in_guess]));
            assert(reference.contains(reference[in_reference]));
        }
    }
    lemma_sum_single(shared_of(guess, reference), 0, 0, 256);
}

/// Against a reference that holds no piece twice, the reference read
/// backwards has no piece absent, and only the piece in the middle of an odd
/// length in place.
pub proof fn lemma_score_reversed(reference: Seq<u8>)
    requires
        reference.no_duplicates(),
    ensures
        matched(reference.reverse(), reference) == reference.len() % 2,
        misplaced(reference.reverse(), reference) == reference.len() - reference.len() % 2,
        absent(reference.reverse(), reference) == 0,
{
    let size = reference.len();
    let guess = reference.reverse();
    let both = agreeing(guess, reference);
    assert forall|first: int, second: int|
        0 <= first < size && 0 <= second < size && first != second implies guess[first]
        != guess[second] by {
        assert(guess[first] == reference[size - 1 - first]);
        assert(guess[second] == reference[size - 1 - second]);
    }
    assert forall|piece: u8| #[trigger]
        shared_of(guess, reference)(piece) == count_holding(anywhere(), reference, size)(
            piece,
        ) by {
        lemma_occurrences_distinct(guess, piece);
        lemma_occurrences_distinct(reference, piece);
        if reference.contains(piece) {
            let at = choose|at: int| 0 <= at < size && reference[at] == piece;
            assert(guess[size - 1 - at] == piece);
        }
        if guess.contains(piece) {
            let at = choose|at: int| 0 <= at < size && guess[at] == piece;
            assert(reference[size - 1 - at] == piece);
        }
    }
    lemma_sum_same(shared_of(guess, reference), count_holding(anywhere(), reference, size), 256);
    lemma_occurrences_add_up(reference);
    if size % 2 == 0 {
        assert forall|pos: int| 0 <= pos < size implies !#[trigger] both(pos) by {
            assert(guess[pos] == reference[size - 1 - pos]);
        }
        lemma_count_zero(both, size);
    } else {
        let middle = (size - 1) / 2;
        let never = |pos: int| false;
        assert(guess[middle] == reference[size - 1 - middle]);
        assert forall|pos: int| 0 <= pos < size && pos != middle implies #[trigger] both(pos)
            == never(pos) by {
            assert(guess[pos] == reference[size - 1 - pos]);
        }
        lemma_count_zero(never, size);
        lemma_count_remove(both, never, middle, size);
    }
}

} // verus!
