use std::collections::HashSet;
use vstd::prelude::*;
use vstd::std_specs::cmp::PartialEqSpecImpl;

use crate::error::GameError;

verus! {

/// An ordered sequence of pieces. Its length is fixed when it is built.
#[derive(Debug)]
pub struct Combination {
    values: Vec<u8>,
}

impl View for Combination {
    type V = Seq<u8>;

    closed spec fn view(&self) -> Seq<u8> {
        self.values@
    }
}

impl Clone for Combination {
    fn clone(&self) -> (copy: Combination)
        ensures
            copy@ == self@,
    {
        let copy = Combination { values: self.values.clone() };
        assert(copy.values@ =~= self.values@);
        copy
    }
}

impl PartialEq for Combination {
    /// Two combinations are equal when they hold the same pieces at the same
    /// positions.
    fn eq(&self, other: &Combination) -> (equal: bool) {
        if self.values.len() != other.values.len() {
            return false;
        }
        let mut pos: usize = 0;
        while pos < self.values.len()
            invariant
                pos <= self.values.len(),
                self.values.len() == other.values.len(),
                forall|before: int| 0 <= before < pos ==> self.values@[before] == other.values@[before],
            decreases self.values.len() - pos,
        {
            if self.values[pos] != other.values[pos] {
                return false;
            }
            pos += 1;
        }
        assert(self.values@ =~= other.values@);
        true
    }
}

impl PartialEqSpecImpl for Combination {
    open spec fn obeys_eq_spec() -> bool {
        true
    }

    open spec fn eq_spec(&self, other: &Combination) -> bool {
        self@ == other@
    }
}

impl Eq for Combination {

}

impl std::iter::FromIterator<u8> for Combination {
    /// Collects the pieces that `iter` gives, in its order, with
    /// `Vec::from_iter`. Nothing is stated of the result, since nothing is
    /// known of what an iterator gives.
    #[verifier::external_body]
    fn from_iter<I: IntoIterator<Item = u8>>(iter: I) -> (combination: Combination) {
        Combination { values: Vec::from_iter(iter) }
    }
}

/// Whether position `pos` of `pieces` holds `piece` and is not in `ignored`.
pub open spec fn is_free_at(pieces: Seq<u8>, piece: u8, ignored: Set<usize>, pos: int) -> bool {
    &&& 0 <= pos < pieces.len()
    &&& pieces[pos] == piece
    &&& !ignored.contains(pos as usize)
}

impl Combination {
    /// Builds the combination that holds `pieces`, in their order.
    pub fn from_slice(pieces: &[u8]) -> (combination: Combination)
        ensures
            combination@ == pieces@,
    {
        Combination::from_vec(vstd::slice::slice_to_vec(pieces))
    }

    /// Builds the combination that holds `pieces`, in their order.
    pub fn from_vec(pieces: Vec<u8>) -> (combination: Combination)
        ensures
            combination@ == pieces@,
    {
        Combination { values: pieces }
    }

    /// The pieces, in their order.
    pub fn values(&self) -> (values: &Vec<u8>)
        ensures
            values@ == self@,
    {
        &self.values
    }

    /// The number of pieces.
    pub fn len(&self) -> (len: usize)
        ensures
            len == self@.len(),
    {
        self.values.len()
    }

    /// The number of different pieces.
    pub fn distinct_len(&self) -> (count: usize)
        ensures
            count == self@.to_set().len(),
            count <= self@.len(),
    {
        let mut pieces_set: HashSet<u8> = HashSet::new();
        let mut count: usize = 0;
        let mut pos: usize = 0;
        while pos < self.values.len()
            invariant
                pos <= self.values.len(),
                pieces_set@ == self.values@.take(pos as int).to_set(),
                count == pieces_set@.len(),
                count <= pos,
            decreases self.values.len() - pos,
        {
            let piece = self.values[pos];
            proof {
                let seen = self.values@.take(pos as int);
                assert(self.values@.take(pos + 1) == seen.push(piece));
                seen.lemma_push_to_set_commute(piece);
                vstd::seq_lib::seq_to_set_is_finite(seen);
            }
            if !pieces_set.contains(&piece) {
                count += 1;
                pieces_set.insert(piece);
            }
            pos += 1;
        }
        assert(self.values@.take(pos as int) == self.values@);
        count
    }

    /// The pieces, each with its position, in ascending order of position.
    pub fn pieces(&self) -> (pieces: Vec<(usize, u8)>)
        ensures
            pieces@.len() == self@.len(),
            forall|pos: int| 0 <= pos < self@.len() ==> pieces@[pos] == (pos as usize, self@[pos]),
    {
        let mut pieces: Vec<(usize, u8)> = Vec::new();
        let mut pos: usize = 0;
        while pos < self.values.len()
            invariant
                pos <= self.values.len(),
                pieces@.len() == pos,
                forall|seen: int|
                    0 <= seen < pos ==> pieces@[seen] == (seen as usize, self.values@[seen]),
            decreases self.values.len() - pos,
        {
            pieces.push((pos, self.values[pos]));
            pos += 1;
        }
        pieces
    }

    /// The piece at `pos`, counted from 0.
    pub fn piece(&self, pos: usize) -> (piece: Result<u8, GameError>)
        ensures
            pos < self@.len() ==> piece == Ok::<u8, GameError>(self@[pos as int]),
            pos >= self@.len() ==> piece == Err::<u8, GameError>(GameError::OutOfRange),
    {
        if pos < self.values.len() {
            Ok(self.values[pos])
        } else {
            Err(GameError::OutOfRange)
        }
    }

    /// The piece at `pos`, which is a position of the combination.
    pub(crate) fn at(&self, pos: usize) -> (piece: u8)
        requires
            pos < self@.len(),
        ensures
            piece == self@[pos as int],
    {
        self.values[pos]
    }

    /// The first position that holds `searched_piece` and is not in
    /// `ignored_pos`, if there is one.
    pub fn position(&self, searched_piece: &u8, ignored_pos: &HashSet<usize>) -> (found: Option<
        usize,
    >)
        ensures
            match found {
                Some(pos) => {
                    &&& is_free_at(self@, *searched_piece, ignored_pos@, pos as int)
                    &&& forall|before: int|
                        0 <= before < pos ==> !is_free_at(
                            self@,
                            *searched_piece,
                            ignored_pos@,
                            before,
                        )
                },
                None => forall|pos: int| !is_free_at(self@, *searched_piece, ignored_pos@, pos),
            },
    {
        let mut pos: usize = 0;
        while pos < self.values.len()
            invariant
                pos <= self.values.len(),
                forall|before: int|
                    0 <= before < pos ==> !is_free_at(
                        self.values@,
                        *searched_piece,
                        ignored_pos@,
                        before,
                    ),
            decreases self.values.len() - pos,
        {
            if self.values[pos] == *searched_piece && !ignored_pos.contains(&pos) {
                return Some(pos);
            }
            pos += 1;
        }
        None
    }

    /// Whether some piece occurs more than once.
    pub fn has_duplicate(&self) -> (repeated: bool)
        ensures
            repeated == !self@.no_duplicates(),
            repeated == (self@.to_set().len() < self@.len()),
    {
        proof {
            if self@.no_duplicates() {
                self@.unique_seq_to_set();
            }
            if self@.to_set().len() == self@.len() {
                self@.lemma_no_dup_set_cardinality();
            }
        }
        self.len() > self.distinct_len()
    }
}

} // verus!
