//! Reading a line that a player typed: a guess, the wish to quit, or
//! anything else.

use vstd::prelude::*;
use vstd::string::StrSliceExecFns;

use crate::combination::Combination;

verus! {

/// What a player typed.
#[derive(Debug, PartialEq, Eq)]
pub enum GuessInput {
    /// A guess of the right length, one digit for each piece.
    Guess(Combination),
    /// The wish to stop playing.
    Quit,
    /// Nothing that the game understands.
    AnythingElse,
}

/// What a player typed, as plain values.
pub enum Reading {
    Guess(Seq<u8>),
    Quit,
    AnythingElse,
}

impl View for GuessInput {
    type V = Reading;

    open spec fn view(&self) -> Reading {
        match *self {
            GuessInput::Guess(guess) => Reading::Guess(guess@),
            GuessInput::Quit => Reading::Quit,
            GuessInput::AnythingElse => Reading::AnythingElse,
        }
    }
}

/// Whether `letter` is one of the ten decimal digits.
pub open spec fn is_digit(letter: char) -> bool {
    '0' <= letter <= '9'
}

/// The piece that the digit `letter` stands for.
pub open spec fn digit_value(letter: char) -> u8 {
    (letter as int - '0' as int) as u8
}

/// Whether `text` is one of the two words that ask to quit.
pub open spec fn asks_to_quit(text: Seq<char>) -> bool {
    text == seq!['q'] || text == seq!['q', 'u', 'i', 't']
}

/// Whether `text` is a guess of `size` pieces: `size` digits and nothing
/// else.
pub open spec fn is_guess(text: Seq<char>, size: usize) -> bool {
    text.len() == size && forall|pos: int| 0 <= pos < text.len() ==> is_digit(#[trigger] text[pos])
}

/// What `text` means in a game whose combinations have `size` pieces. The
/// words that ask to quit come first, so `q` is no guess even where it has
/// the right length.
pub open spec fn reading(text: Seq<char>, size: usize) -> Reading {
    if asks_to_quit(text) {
        Reading::Quit
    } else if is_guess(text, size) {
        Reading::Guess(Seq::new(text.len(), |pos: int| digit_value(text[pos])))
    } else {
        Reading::AnythingElse
    }
}

/// What `str::trim` returns for a string slice, as a function of its
/// characters.
pub uninterp spec fn trimmed(line: Seq<char>) -> Seq<char>;

/// Calls `str::trim`, which returns the slice without its leading and
/// trailing whitespace, as Unicode defines whitespace. The contract only
/// names the result.
#[verifier::external_body]
fn trim(line: &str) -> (text: &str)
    ensures
        text@ == trimmed(line@),
{
    line.trim()
}

/// Whether `text`, which holds ASCII only, is `word`.
fn is_word(text: &str, word: &str) -> (same: bool)
    requires
        text.is_ascii(),
        word.is_ascii(),
    ensures
        same == (text@ == word@),
{
    let len = text.unicode_len();
    if len != word.unicode_len() {
        return false;
    }
    let mut pos: usize = 0;
    while pos < len
        invariant
            pos <= len,
            len == text@.len(),
            len == word@.len(),
            text.is_ascii(),
            word.is_ascii(),
            forall|before: int| 0 <= before < pos ==> text@[before] == word@[before],
        decreases len - pos,
    {
        if text.get_ascii(pos) != word.get_ascii(pos) {
            return false;
        }
        pos += 1;
    }
    assert(text@ =~= word@);
    true
}

/// Reads `text`, which has no whitespace around it, in a game whose
/// combinations have `size` pieces.
pub fn parse_text(text: &str, size: usize) -> (input: GuessInput)
    ensures
        input@ == reading(text@, size),
{
    proof {
        reveal_strlit("q");
        reveal_strlit("quit");
        assert("q"@ =~= seq!['q']);
        assert("quit"@ =~= seq!['q', 'u', 'i', 't']);
    }
    if !text.is_ascii() {
        proof {
            let odd = choose|pos: int|
                0 <= pos < text@.len() && !('\0' <= #[trigger] text@[pos] <= '\u{7f}');
            assert(!is_digit(text@[odd]));
        }
        return GuessInput::AnythingElse;
    }
    if is_word(text, "q") || is_word(text, "quit") {
        return GuessInput::Quit;
    }
    let len = text.unicode_len();
    if len != size {
        return GuessInput::AnythingElse;
    }
    let mut pieces: Vec<u8> = Vec::new();
    let mut pos: usize = 0;
    while pos < len
        invariant
            pos <= len,
            len == text@.len(),
            text.is_ascii(),
            !asks_to_quit(text@),
            pieces@.len() == pos,
            forall|before: int| 0 <= before < pos ==> is_digit(#[trigger] text@[before]),
            forall|before: int| 0 <= before < pos ==> pieces@[before] == digit_value(text@[before]),
        decreases len - pos,
    {
        let letter = text.get_ascii(pos);
        if 48 <= letter && letter <= 57 {
            pieces.push(letter - 48);
        } else {
            assert(!is_digit(text@[pos as int]));
            return GuessInput::AnythingElse;
        }
        pos += 1;
    }
    assert(pieces@ =~= Seq::new(text@.len(), |pos: int| digit_value(text@[pos])));
    GuessInput::Guess(Combination::from_vec(pieces))
}

/// Reads a line as it was typed: the whitespace around it does not count.
pub fn parse_guess(line: &str, size: usize) -> (input: GuessInput)
    ensures
        input@ == reading(trimmed(line@), size),
{
    parse_text(trim(line), size)
}

} // verus!
