//! Counting the positions of a sequence that satisfy a predicate, and summing
//! a term over every piece. The scoring rules are stated with these two.

use vstd::prelude::*;

verus! {

/// The number of positions below `end` that satisfy `pred`.
pub open spec fn count_below(pred: spec_fn(int) -> bool, end: nat) -> nat
    decreases end,
{
    if end == 0 {
        0
    } else {
        count_below(pred, (end - 1) as nat) + if pred(end - 1) {
            1nat
        } else {
            0nat
        }
    }
}

/// The sum of `term` over the pieces below `end`.
pub open spec fn sum_below(term: spec_fn(u8) -> int, end: nat) -> int
    decreases end,
{
    if end == 0 {
        0
    } else {
        sum_below(term, (end - 1) as nat) + term((end - 1) as u8)
    }
}

/// The sum of `term` over every piece that a `u8` can hold.
pub open spec fn sum_over_pieces(term: spec_fn(u8) -> int) -> int {
    sum_below(term, 256)
}

/// A count never exceeds the number of positions looked at.
pub proof fn lemma_count_bounds(pred: spec_fn(int) -> bool, end: nat)
    ensures
        count_below(pred, end) <= end,
    decreases end,
{
    if end > 0 {
        lemma_count_bounds(pred, (end - 1) as nat);
    }
}

/// A count is zero exactly when no position satisfies the predicate.
pub proof fn lemma_count_zero(pred: spec_fn(int) -> bool, end: nat)
    ensures
        count_below(pred, end) == 0 <==> forall|pos: int| 0 <= pos < end ==> !#[trigger] pred(pos),
    decreases end,
{
    if end > 0 {
        lemma_count_zero(pred, (end - 1) as nat);
        if count_below(pred, end) == 0 {
            assert forall|pos: int| 0 <= pos < end implies !#[trigger] pred(pos) by {
                if pos < end - 1 {
                }
            }
        } else if count_below(pred, (end - 1) as nat) == 0 {
            assert(pred(end - 1));
        }
    }
}

/// A count is full exactly when every position satisfies the predicate.
pub proof fn lemma_count_full(pred: spec_fn(int) -> bool, end: nat)
    ensures
        count_below(pred, end) == end <==> forall|pos: int|
            0 <= pos < end ==> #[trigger] pred(pos),
    decreases end,
{
    if end > 0 {
        lemma_count_full(pred, (end - 1) as nat);
        lemma_count_bounds(pred, (end - 1) as nat);
        if count_below(pred, end) == end {
            assert forall|pos: int| 0 <= pos < end implies #[trigger] pred(pos) by {
                if pos < end - 1 {
                }
            }
        } else if count_below(pred, (end - 1) as nat) == end - 1 {
            assert(!pred(end - 1));
        }
    }
}

/// Where every position satisfies `whole` exactly when it satisfies one of
/// `left` and `right`, and never both, the count of `whole` is the sum of
/// the other two.
pub proof fn lemma_count_split(
    whole: spec_fn(int) -> bool,
    left: spec_fn(int) -> bool,
    right: spec_fn(int) -> bool,
    end: nat,
)
    requires
        forall|pos: int|
            0 <= pos < end ==> (#[trigger] whole(pos) <==> left(pos) || right(pos)),
        forall|pos: int| 0 <= pos < end ==> !(#[trigger] left(pos) && right(pos)),
    ensures
        count_below(whole, end) == count_below(left, end) + count_below(right, end),
    decreases end,
{
    if end > 0 {
        lemma_count_split(whole, left, right, (end - 1) as nat);
        assert(whole(end - 1) <==> left(end - 1) || right(end - 1));
        assert(!(left(end - 1) && right(end - 1)));
    }
}

/// A predicate that holds only where another does has a count that is not
/// above the other's.
pub proof fn lemma_count_le(inner: spec_fn(int) -> bool, outer: spec_fn(int) -> bool, end: nat)
    requires
        forall|pos: int| 0 <= pos < end && #[trigger] inner(pos) ==> outer(pos),
    ensures
        count_below(inner, end) <= count_below(outer, end),
    decreases end,
{
    if end > 0 {
        lemma_count_le(inner, outer, (end - 1) as nat);
        assert(inner(end - 1) ==> outer(end - 1));
    }
}

/// Two predicates that agree below `end` have the same count.
pub proof fn lemma_count_same(first: spec_fn(int) -> bool, second: spec_fn(int) -> bool, end: nat)
    requires
        forall|pos: int| 0 <= pos < end ==> #[trigger] first(pos) == second(pos),
    ensures
        count_below(first, end) == count_below(second, end),
    decreases end,
{
    if end > 0 {
        lemma_count_same(first, second, (end - 1) as nat);
        assert(first(end - 1) == second(end - 1));
    }
}

/// Where `after` differs from `before` only at `at`, which satisfies `before`
/// and no longer `after`, the count goes down by one.
pub proof fn lemma_count_remove(
    before: spec_fn(int) -> bool,
    after: spec_fn(int) -> bool,
    at: int,
    end: nat,
)
    requires
        0 <= at < end,
        before(at),
        !after(at),
        forall|pos: int| 0 <= pos < end && pos != at ==> #[trigger] before(pos) == after(pos),
    ensures
        count_below(after, end) + 1 == count_below(before, end),
    decreases end,
{
    if at == end - 1 {
        lemma_count_same(before, after, (end - 1) as nat);
    } else {
        lemma_count_remove(before, after, at, (end - 1) as nat);
        assert(before(end - 1) == after(end - 1));
    }
}

/// The sum of a term that is the sum of two others is the sum of their sums.
pub proof fn lemma_sum_add(
    whole: spec_fn(u8) -> int,
    left: spec_fn(u8) -> int,
    right: spec_fn(u8) -> int,
    end: nat,
)
    requires
        end <= 256,
        forall|piece: u8| piece < end ==> #[trigger] whole(piece) == left(piece) + right(piece),
    ensures
        sum_below(whole, end) == sum_below(left, end) + sum_below(right, end),
    decreases end,
{
    if end > 0 {
        lemma_sum_add(whole, left, right, (end - 1) as nat);
        let piece = (end - 1) as u8;
        assert(whole(piece) == left(piece) + right(piece));
    }
}

/// The sum of a term that is `amount` at `at` and zero elsewhere.
pub proof fn lemma_sum_single(term: spec_fn(u8) -> int, at: u8, amount: int, end: nat)
    requires
        end <= 256,
        forall|piece: u8|
            piece < end ==> #[trigger] term(piece) == if piece == at {
                amount
            } else {
                0
            },
    ensures
        sum_below(term, end) == if at < end {
            amount
        } else {
            0
        },
    decreases end,
{
    if end > 0 {
        lemma_sum_single(term, at, amount, (end - 1) as nat);
        let piece = (end - 1) as u8;
        assert(term(piece) == if piece == at {
            amount
        } else {
            0
        });
    }
}

/// Two terms that agree on every piece below `end` have the same sum.
pub proof fn lemma_sum_same(first: spec_fn(u8) -> int, second: spec_fn(u8) -> int, end: nat)
    requires
        end <= 256,
        forall|piece: u8| piece < end ==> #[trigger] first(piece) == second(piece),
    ensures
        sum_below(first, end) == sum_below(second, end),
    decreases end,
{
    if end > 0 {
        lemma_sum_same(first, second, (end - 1) as nat);
        let piece = (end - 1) as u8;
        assert(first(piece) == second(piece));
    }
}

/// A term that is nowhere above another has a sum that is not above the
/// other's.
pub proof fn lemma_sum_le(lower: spec_fn(u8) -> int, upper: spec_fn(u8) -> int, end: nat)
    requires
        end <= 256,
        forall|piece: u8| piece < end ==> #[trigger] lower(piece) <= upper(piece),
    ensures
        sum_below(lower, end) <= sum_below(upper, end),
    decreases end,
{
    if end > 0 {
        lemma_sum_le(lower, upper, (end - 1) as nat);
        let piece = (end - 1) as u8;
        assert(lower(piece) <= upper(piece));
    }
}

/// The positions below `end` that satisfy `pred` and hold `piece`.
pub open spec fn holding(pred: spec_fn(int) -> bool, pieces: Seq<u8>, piece: u8) -> spec_fn(
    int,
) -> bool {
    |pos: int| pred(pos) && pieces[pos] == piece
}

/// For each piece, the number of positions below `end` that satisfy `pred`
/// and hold it.
pub open spec fn count_holding(pred: spec_fn(int) -> bool, pieces: Seq<u8>, end: nat) -> spec_fn(
    u8,
) -> int {
    |piece: u8| count_below(holding(pred, pieces, piece), end) as int
}

/// Counting the positions that satisfy a predicate piece by piece, and adding
/// up, gives the count of the predicate.
pub proof fn lemma_count_by_piece(pred: spec_fn(int) -> bool, pieces: Seq<u8>, end: nat)
    requires
        end <= pieces.len(),
    ensures
        sum_over_pieces(count_holding(pred, pieces, end)) == count_below(pred, end),
    decreases end,
{
    let now = count_holding(pred, pieces, end);
    if end == 0 {
        lemma_sum_single(now, 0, 0, 256);
    } else {
        let before = count_holding(pred, pieces, (end - 1) as nat);
        let last = pieces[end - 1];
        let amount: int = if pred(end - 1) {
            1
        } else {
            0
        };
        let step = |piece: u8|
            if piece == last {
                amount
            } else {
                0
            };
        lemma_count_by_piece(pred, pieces, (end - 1) as nat);
        lemma_sum_single(step, last, amount, 256);
        lemma_sum_add(now, before, step, 256);
    }
}

} // verus!
