use cobolrs::lexer::{take_string, take_until, Tail};
use cobolrs::parser::{get_words, walk_line};
use cobolrs::TranslateError;

#[test]
fn take_until_splits_at_first_space() {
    let r = take_until("move 1 to n", ' ');
    let (word, rest) = r.expect("space present");
    assert_eq!(word, "move");
    assert_eq!(rest, "1 to n");
}

#[test]
fn take_until_none_without_separator() {
    assert!(take_until("move", ' ').is_none());
}

#[test]
fn take_string_takes_through_second_quote() {
    let r = take_string("\"hello world\" rest");
    let (word, rest) = r.expect("two quotes present");
    assert_eq!(word, "\"hello world\"");
    assert_eq!(rest, " rest");
}

#[test]
fn take_string_none_when_unclosed() {
    assert!(take_string("\"hello").is_none());
}

#[test]
fn get_words_splits_on_single_spaces() {
    let ws = get_words("move 1 to n").expect("well-formed line");
    assert_eq!(ws, vec!["move", "1", "to", "n"]);
}

#[test]
fn get_words_keeps_quoted_literal_whole() {
    let ws = get_words("display \"hello world\" n").expect("well-formed line");
    assert_eq!(ws, vec!["display", "\"hello world\"", "n"]);
}

#[test]
fn get_words_skips_extra_spaces() {
    let ws = get_words("  move   1  ").expect("well-formed line");
    assert_eq!(ws, vec!["move", "1"]);
}

#[test]
fn get_words_unterminated_literal_is_lexical_error() {
    let r = get_words("display \"oops");
    assert_eq!(r.unwrap_err(), TranslateError::UnterminatedLiteral);
}

#[test]
fn walk_line_trims_leading_space() {
    let ws = walk_line("   add 1 to n").expect("well-formed line");
    assert_eq!(ws, vec!["add", "1", "to", "n"]);
}

#[test]
fn tail_drops_the_first_element() {
    let words = [10u32, 20, 30];
    assert_eq!(words.tail(), &[20, 30]);
}
