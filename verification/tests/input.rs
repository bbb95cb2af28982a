use combbreaker::{parse_guess, parse_text, Combination, GuessInput};

fn guess(pieces: &[u8]) -> GuessInput {
    GuessInput::Guess(Combination::from_slice(pieces))
}

#[test]
fn test_parse_text_reads_digits_as_pieces() {
    assert_eq!(parse_text("1234", 4), guess(&[1, 2, 3, 4]));
    assert_eq!(parse_text("0099", 4), guess(&[0, 0, 9, 9]));
    assert_eq!(parse_text("7", 1), guess(&[7]));
    assert_eq!(parse_text("", 0), guess(&[]));
}

#[test]
fn test_parse_text_reads_the_words_that_quit() {
    assert_eq!(parse_text("q", 4), GuessInput::Quit);
    assert_eq!(parse_text("quit", 4), GuessInput::Quit);
    assert_eq!(parse_text("q", 1), GuessInput::Quit);
}

#[test]
fn test_parse_text_refuses_anything_else() {
    assert_eq!(parse_text("123", 4), GuessInput::AnythingElse);
    assert_eq!(parse_text("12345", 4), GuessInput::AnythingElse);
    assert_eq!(parse_text("12a4", 4), GuessInput::AnythingElse);
    assert_eq!(parse_text("+123", 4), GuessInput::AnythingElse);
    assert_eq!(parse_text("12 4", 4), GuessInput::AnythingElse);
    assert_eq!(parse_text(" 1234", 4), GuessInput::AnythingElse);
    assert_eq!(parse_text("Q", 4), GuessInput::AnythingElse);
    assert_eq!(parse_text("quit!", 4), GuessInput::AnythingElse);
    assert_eq!(parse_text("qu", 2), GuessInput::AnythingElse);
    assert_eq!(parse_text("", 4), GuessInput::AnythingElse);
    assert_eq!(parse_text("12é", 4), GuessInput::AnythingElse);
    assert_eq!(parse_text("١٢٣٤", 4), GuessInput::AnythingElse);
    assert_eq!(parse_text("/:", 2), GuessInput::AnythingElse);
}

#[test]
fn test_parse_guess_leaves_out_the_whitespace_around() {
    assert_eq!(parse_guess("1234\n", 4), guess(&[1, 2, 3, 4]));
    assert_eq!(parse_guess("  \t5012 \r\n", 4), guess(&[5, 0, 1, 2]));
    assert_eq!(parse_guess("quit\n", 4), GuessInput::Quit);
    assert_eq!(parse_guess(" q ", 4), GuessInput::Quit);
    assert_eq!(parse_guess("12 34\n", 4), GuessInput::AnythingElse);
    assert_eq!(parse_guess("\n", 4), GuessInput::AnythingElse);
    assert_eq!(parse_guess("\n", 0), guess(&[]));
}
