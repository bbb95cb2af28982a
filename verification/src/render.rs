//! Writing a combination out for the player.

use vstd::prelude::*;
use vstd::string::StringExecFns;

use crate::combination::Combination;

verus! {

/// The letter that stands for `digit`, a number below ten.
pub open spec fn digit_letter(digit: int) -> char {
    ('0' as int + digit) as char
}

/// `number` in decimal digits, without leading zeros.
pub open spec fn decimal(number: nat) -> Seq<char>
    decreases number,
{
    if number < 10 {
        seq![digit_letter(number as int)]
    } else {
        decimal(number / 10).push(digit_letter((number % 10) as int))
    }
}

/// The pieces in decimal digits, one after the other with nothing between.
pub open spec fn spelled(pieces: Seq<u8>) -> Seq<char>
    decreases pieces.len(),
{
    if pieces.len() == 0 {
        Seq::empty()
    } else {
        spelled(pieces.drop_last()) + decimal(pieces.last() as nat)
    }
}

/// The text for the digit `digit`.
fn digit_text(digit: u8) -> (text: &'static str)
    requires
        digit < 10,
    ensures
        text@ == seq![digit_letter(digit as int)],
{
    proof {
        reveal_strlit("0");
        reveal_strlit("1");
        reveal_strlit("2");
        reveal_strlit("3");
        reveal_strlit("4");
        reveal_strlit("5");
        reveal_strlit("6");
        reveal_strlit("7");
        reveal_strlit("8");
        reveal_strlit("9");
    }
    let text = match digit {
        0 => "0",
        1 => "1",
        2 => "2",
        3 => "3",
        4 => "4",
        5 => "5",
        6 => "6",
        7 => "7",
        8 => "8",
        _ => "9",
    };
    assert(text@ =~= seq![digit_letter(digit as int)]);
    text
}

/// Adds `piece` in decimal digits to the end of `text`.
fn append_decimal(text: &mut String, piece: u8)
    ensures
        final(text)@ == old(text)@ + decimal(piece as nat),
{
    let ghost start = text@;
    if piece >= 100 {
        text.append(digit_text(piece / 100));
    }
    if piece >= 10 {
        text.append(digit_text((piece / 10) % 10));
    }
    text.append(digit_text(piece % 10));
    proof {
        let number = piece as nat;
        if number >= 100 {
            assert(decimal(number / 100) == seq![digit_letter((number / 100) as int)]);
            assert(decimal(number / 10) == decimal(number / 100).push(
                digit_letter(((number / 10) % 10) as int),
            ));
            assert(number / 10 / 10 == number / 100);
        } else if number >= 10 {
            assert(decimal(number / 10) == seq![digit_letter((number / 10) as int)]);
        }
        assert(text@ =~= start + decimal(number));
    }
}

/// Writes the combination out: its pieces in decimal digits, one after the
/// other, or the word `undefined` where there is none.
pub fn fmt_combination(combination: &Option<Combination>) -> (text: String)
    ensures
        text@ == match *combination {
            None => "undefined"@,
            Some(reference) => spelled(reference@),
        },
{
    match combination {
        None => String::from_str("undefined"),
        Some(reference) => {
            let mut text = String::new();
            let size = reference.len();
            let mut pos: usize = 0;
            while pos < size
                invariant
                    pos <= size,
                    size == reference@.len(),
                    text@ == spelled(reference@.take(pos as int)),
                decreases size - pos,
            {
                append_decimal(&mut text, reference.at(pos));
                pos += 1;
                assert(reference@.take(pos as int).drop_last() == reference@.take(pos - 1));
            }
            assert(reference@.take(size as int) == reference@);
            text
        },
    }
}

} // verus!
