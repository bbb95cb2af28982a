use std::collections::HashSet;
use vstd::math::min;
use vstd::prelude::*;

use crate::combination::{is_free_at, Combination};
use crate::counting::{
    count_below, count_holding, holding, lemma_count_bounds, lemma_count_by_piece, lemma_count_full,
    lemma_count_remove, lemma_count_same, lemma_count_split, lemma_count_zero, lemma_sum_add,
    lemma_sum_same, lemma_sum_single, sum_over_pieces,
};
use crate::scoring::{
    absent, agreeing, anywhere, matched, misplaced, score, shared, shared_of,
};

verus! {

/// The answer to a guess: how many of its pieces are in place, misplaced and
/// absent.
#[derive(Debug, Clone, Copy, PartialEq, Eq, Structural)]
pub struct GuessResult {
    /// Pieces that are in the reference combination at the same position.
    pub ok: u8,
    /// Pieces that are in the reference combination at another position.
    pub misplaced: u8,
    /// Pieces that have no counterpart in the reference combination.
    pub ko: u8,
}

impl Default for GuessResult {
    fn default() -> (result: GuessResult)
        ensures
            result == (GuessResult { ok: 0, misplaced: 0, ko: 0 }),
    {
        GuessResult { ok: 0, misplaced: 0, ko: 0 }
    }
}

/// The positions below `end` at which `guess` and `reference` agree.
spec fn in_place(guess: Seq<u8>, reference: Seq<u8>, end: nat) -> Set<usize> {
    Set::new(|pos: usize| pos < end && guess[pos as int] == reference[pos as int])
}

/// The positions that are not in `used`.
spec fn unused(used: Set<usize>) -> spec_fn(int) -> bool {
    |pos: int| !used.contains(pos as usize)
}

/// The positions that hold `piece` and are not in `used`.
spec fn free(pieces: Seq<u8>, used: Set<usize>, piece: u8) -> spec_fn(int) -> bool {
    |pos: int| pieces[pos] == piece && !used.contains(pos as usize)
}

/// How many positions of `pieces` hold `piece` and are not in `used`.
spec fn left_free(pieces: Seq<u8>, used: Set<usize>, piece: u8) -> nat {
    count_below(free(pieces, used, piece), pieces.len())
}

/// How many positions of `reference` hold `piece` without being in place.
spec fn pending(guess: Seq<u8>, reference: Seq<u8>, piece: u8) -> nat {
    left_free(reference, in_place(guess, reference, guess.len()), piece)
}

/// How many positions of `guess` below `end` hold `piece` without being in
/// place.
spec fn seen(guess: Seq<u8>, reference: Seq<u8>, piece: u8, end: nat) -> nat {
    count_below(free(guess, in_place(guess, reference, guess.len()), piece), end)
}

/// How many occurrences of `piece` in `reference` the positions of `guess`
/// below `end` have claimed.
spec fn claimed_at(guess: Seq<u8>, reference: Seq<u8>, end: nat, piece: u8) -> int {
    min(seen(guess, reference, piece, end) as int, pending(guess, reference, piece) as int)
}

spec fn claimed(guess: Seq<u8>, reference: Seq<u8>, end: nat) -> spec_fn(u8) -> int {
    |piece: u8| claimed_at(guess, reference, end, piece)
}

/// What the second pass keeps true of the reference positions in `used`,
/// once it has gone through the positions of `guess` below `end`.
spec fn claims_hold(guess: Seq<u8>, reference: Seq<u8>, used: Set<usize>, end: nat) -> bool {
    forall|piece: u8|
        #[trigger] left_free(reference, used, piece) + claimed_at(guess, reference, end, piece)
            == pending(guess, reference, piece)
}

proof fn lemma_claims_start(guess: Seq<u8>, reference: Seq<u8>)
    requires
        guess.len() == reference.len(),
    ensures
        claims_hold(guess, reference, in_place(guess, reference, guess.len()), 0),
        sum_over_pieces(claimed(guess, reference, 0)) == 0,
{
    lemma_sum_single(claimed(guess, reference, 0), 0, 0, 256);
}

/// The second pass at a position that is in place: nothing changes.
proof fn lemma_claims_skip(guess: Seq<u8>, reference: Seq<u8>, used: Set<usize>, at: nat)
    requires
        guess.len() == reference.len() <= usize::MAX,
        at < guess.len(),
        guess[at as int] == reference[at as int],
        claims_hold(guess, reference, used, at),
    ensures
        claims_hold(guess, reference, used, at + 1),
        sum_over_pieces(claimed(guess, reference, at + 1)) == sum_over_pieces(
            claimed(guess, reference, at),
        ),
{
    assert(in_place(guess, reference, guess.len()).contains(at as usize));
    assert forall|piece: u8|
        claimed_at(guess, reference, at + 1, piece) == claimed_at(guess, reference, at, piece) by {
        assert(seen(guess, reference, piece, at + 1) == seen(guess, reference, piece, at));
    }
    assert forall|piece: u8|
        #[trigger] left_free(reference, used, piece) + claimed_at(guess, reference, at + 1, piece)
            == pending(guess, reference, piece) by {
        assert(claimed_at(guess, reference, at + 1, piece) == claimed_at(
            guess,
            reference,
            at,
            piece,
        ));
    }
    lemma_sum_same(claimed(guess, reference, at + 1), claimed(guess, reference, at), 256);
}

/// The second pass at a position that is not in place: it claims the first
/// free position of the reference that holds the same piece, if there is one.
proof fn lemma_claims_step(
    guess: Seq<u8>,
    reference: Seq<u8>,
    used: Set<usize>,
    at: nat,
    found: Option<usize>,
)
    requires
        guess.len() == reference.len() <= usize::MAX,
        at < guess.len(),
        guess[at as int] != reference[at as int],
        claims_hold(guess, reference, used, at),
        match found {
            Some(pos) => is_free_at(reference, guess[at as int], used, pos as int),
            None => forall|pos: int| !is_free_at(reference, guess[at as int], used, pos),
        },
    ensures
        claims_hold(
            guess,
            reference,
            match found {
                Some(pos) => used.insert(pos),
                None => used,
            },
            at + 1,
        ),
        sum_over_pieces(claimed(guess, reference, at + 1)) == sum_over_pieces(
            claimed(guess, reference, at),
        ) + if found is Some {
            1int
        } else {
            0int
        },
{
    let wanted = guess[at as int];
    let size = guess.len();
    let after = match found {
        Some(pos) => used.insert(pos),
        None => used,
    };
    let gain: int = if found is Some {
        1
    } else {
        0
    };
    assert(!in_place(guess, reference, size).contains(at as usize));
    assert(left_free(reference, used, wanted) + claimed_at(guess, reference, at, wanted)
        == pending(guess, reference, wanted));
    lemma_count_zero(free(reference, used, wanted), size);
    match found {
        Some(pos) => {
            assert(free(reference, used, wanted)(pos as int));
            assert forall|piece: u8|
                left_free(reference, after, piece) + (if piece == wanted {
                    1int
                } else {
                    0int
                }) == left_free(reference, used, piece) by {
                if piece == wanted {
                    lemma_count_remove(
                        free(reference, used, piece),
                        free(reference, after, piece),
                        pos as int,
                        size,
                    );
                } else {
                    lemma_count_same(
                        free(reference, used, piece),
                        free(reference, after, piece),
                        size,
                    );
                }
            }
        },
        None => {
            assert forall|pos: int| 0 <= pos < size implies !#[trigger] free(
                reference,
                used,
                wanted,
            )(pos) by {
                assert(!is_free_at(reference, wanted, used, pos));
            }
        },
    }
    let step = |piece: u8|
        if piece == wanted {
            gain
        } else {
            0
        };
    assert forall|piece: u8|
        #[trigger] claimed(guess, reference, at + 1)(piece) == claimed(guess, reference, at)(piece)
            + step(piece) by {
        assert(seen(guess, reference, piece, at + 1) == seen(guess, reference, piece, at) + if piece
            == wanted {
            1nat
        } else {
            0nat
        });
        assert(left_free(reference, used, piece) + claimed_at(guess, reference, at, piece)
            == pending(guess, reference, piece));
    }
    assert forall|piece: u8|
        #[trigger] left_free(reference, after, piece) + claimed_at(guess, reference, at + 1, piece)
            == pending(guess, reference, piece) by {
        assert(claimed(guess, reference, at + 1)(piece) == claimed(guess, reference, at)(piece)
            + step(piece));
        assert(left_free(reference, used, piece) + claimed_at(guess, reference, at, piece)
            == pending(guess, reference, piece));
    }
    lemma_sum_single(step, wanted, gain, 256);
    lemma_sum_add(claimed(guess, reference, at + 1), claimed(guess, reference, at), step, 256);
}

/// The pieces in common are those in place and those that the positions out
/// of place can claim from one another.
proof fn lemma_shared_splits(guess: Seq<u8>, reference: Seq<u8>)
    requires
        guess.len() == reference.len() <= usize::MAX,
    ensures
        shared(guess, reference) == matched(guess, reference) + sum_over_pieces(
            claimed(guess, reference, guess.len()),
        ),
{
    let size = guess.len();
    let fixed = in_place(guess, reference, size);
    let both = agreeing(guess, reference);
    assert forall|piece: u8|
        #[trigger] shared_of(guess, reference)(piece) == count_holding(both, guess, size)(piece)
            + claimed(guess, reference, size)(piece) by {
        lemma_count_split(
            holding(anywhere(), guess, piece),
            free(guess, fixed, piece),
            holding(both, guess, piece),
            size,
        );
        lemma_count_split(
            holding(anywhere(), reference, piece),
            free(reference, fixed, piece),
            holding(both, guess, piece),
            size,
        );
    }
    lemma_sum_add(
        shared_of(guess, reference),
        count_holding(both, guess, size),
        claimed(guess, reference, size),
        256,
    );
    lemma_count_by_piece(both, guess, size);
}

/// Compares `guess` with `reference` in three passes. The first counts the
/// pieces in place. The second lets each other piece of the guess, from left
/// to right, claim the first position of the reference that holds the same
/// piece and that no piece has claimed yet. The third counts the pieces that
/// found none.
pub fn check(guess: &Combination, reference: &Combination) -> (result: GuessResult)
    requires
        guess@.len() == reference@.len(),
        guess@.len() <= u8::MAX,
    ensures
        result == score(guess@, reference@),
        result.ok == matched(guess@, reference@),
        result.misplaced == misplaced(guess@, reference@),
        result.ko == absent(guess@, reference@),
        result.ok + result.misplaced + result.ko == guess@.len(),
{
    let size = guess.len();
    let mut result = GuessResult::default();

    let mut used_guess_pieces: HashSet<usize> = HashSet::new();
    let mut used_reference_pieces: HashSet<usize> = HashSet::new();

    proof {
        lemma_count_full(unused(used_guess_pieces@), size as nat);
    }

    let mut pos: usize = 0;
    while pos < size
        invariant
            pos <= size,
            size == guess@.len(),
            size == reference@.len(),
            size <= u8::MAX,
            used_guess_pieces@ == in_place(guess@, reference@, pos as nat),
            used_reference_pieces@ == in_place(guess@, reference@, pos as nat),
            result.ok == count_below(agreeing(guess@, reference@), pos as nat),
            result.misplaced == 0,
            result.ko == 0,
            result.ok + count_below(unused(used_guess_pieces@), size as nat) == size,
        decreases size - pos,
    {
        let ghost used_before = used_guess_pieces@;
        if guess.at(pos) == reference.at(pos) {
            used_guess_pieces.insert(pos);
            used_reference_pieces.insert(pos);
            proof {
                lemma_count_remove(
                    unused(used_before),
                    unused(used_guess_pieces@),
                    pos as int,
                    size as nat,
                );
                lemma_count_bounds(unused(used_guess_pieces@), size as nat);
            }
            result.ok += 1;
        }
        pos += 1;
        assert(used_guess_pieces@ == in_place(guess@, reference@, pos as nat));
        assert(used_reference_pieces@ == in_place(guess@, reference@, pos as nat));
    }

    proof {
        lemma_claims_start(guess@, reference@);
    }

    let mut pos: usize = 0;
    while pos < size
        invariant
            pos <= size,
            size == guess@.len(),
            size == reference@.len(),
            size <= u8::MAX,
            forall|later: usize|
                pos <= later ==> (used_guess_pieces@.contains(later) <==> in_place(
                    guess@,
                    reference@,
                    size as nat,
                ).contains(later)),
            claims_hold(guess@, reference@, used_reference_pieces@, pos as nat),
            result.ok == matched(guess@, reference@),
            result.misplaced == sum_over_pieces(claimed(guess@, reference@, pos as nat)),
            result.ko == 0,
            result.ok + result.misplaced + count_below(unused(used_guess_pieces@), size as nat)
                == size,
        decreases size - pos,
    {
        let ghost used_before = used_guess_pieces@;
        let ghost claimed_before = used_reference_pieces@;
        if used_guess_pieces.contains(&pos) {
            proof {
                lemma_claims_skip(guess@, reference@, claimed_before, pos as nat);
            }
        } else {
            let piece = guess.at(pos);
            let found = reference.position(&piece, &used_reference_pieces);
            proof {
                lemma_claims_step(guess@, reference@, claimed_before, pos as nat, found);
            }
            match found {
                None => {},
                Some(ref_pos) => {
                    used_guess_pieces.insert(pos);
                    used_reference_pieces.insert(ref_pos);
                    proof {
                        lemma_count_remove(
                            unused(used_before),
                            unused(used_guess_pieces@),
                            pos as int,
                            size as nat,
                        );
                        lemma_count_bounds(unused(used_guess_pieces@), size as nat);
                    }
                    result.misplaced += 1;
                },
            }
        }
        pos += 1;
    }

    let mut pos: usize = 0;
    while pos < size
        invariant
            pos <= size,
            size == guess@.len(),
            size <= u8::MAX,
            result.ok == matched(guess@, reference@),
            result.misplaced == sum_over_pieces(claimed(guess@, reference@, size as nat)),
            result.ko == count_below(unused(used_guess_pieces@), pos as nat),
            result.ok + result.misplaced + count_below(unused(used_guess_pieces@), size as nat)
                == size,
        decreases size - pos,
    {
        if !used_guess_pieces.contains(&pos) {
            proof {
                lemma_count_bounds(unused(used_guess_pieces@), pos as nat);
            }
            result.ko += 1;
        }
        pos += 1;
    }

    proof {
        lemma_shared_splits(guess@, reference@);
    }
    result
}

} // verus!
