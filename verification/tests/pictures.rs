use cobolrs::parser::{DataType, IdentifierType, Parser};
use cobolrs::TranslateError;

#[test]
fn numeric_with_parenthesized_width() {
    assert_eq!(
        IdentifierType::parse_type("9(2)."),
        Ok(IdentifierType::Numeric(2))
    );
}

#[test]
fn alphanumeric_with_parenthesized_width() {
    assert_eq!(
        IdentifierType::parse_type("x(10)."),
        Ok(IdentifierType::Alphanumeric(10))
    );
}

#[test]
fn width_from_character_count_minus_terminator() {
    assert_eq!(
        IdentifierType::parse_type("999."),
        Ok(IdentifierType::Numeric(3))
    );
}

#[test]
fn single_character_picture_has_width_one() {
    assert_eq!(
        IdentifierType::parse_type("9"),
        Ok(IdentifierType::Numeric(1))
    );
    assert_eq!(
        IdentifierType::parse_type("x"),
        Ok(IdentifierType::Alphanumeric(1))
    );
}

#[test]
fn unknown_picture_code_is_unsupported() {
    assert_eq!(
        IdentifierType::parse_type("z(3)."),
        Err(TranslateError::UnsupportedConstruct)
    );
}

#[test]
fn missing_closing_parenthesis_is_malformed() {
    assert_eq!(
        IdentifierType::parse_type("9(2"),
        Err(TranslateError::MalformedPicture)
    );
}

#[test]
fn empty_width_is_malformed() {
    assert_eq!(
        IdentifierType::parse_type("9()."),
        Err(TranslateError::MalformedPicture)
    );
}

#[test]
fn zero_width_is_malformed() {
    assert_eq!(
        IdentifierType::parse_type("9(0)."),
        Err(TranslateError::MalformedPicture)
    );
}

#[test]
fn non_digit_width_is_malformed() {
    assert_eq!(
        IdentifierType::parse_type("9(x)."),
        Err(TranslateError::MalformedPicture)
    );
}

#[test]
fn declarations_build_the_symbol_table() {
    let src = "data division.\nworking-storage section.\n01 n pic 9(2).\n01 s pic x(4).\nprocedure division.\n";
    let (data, insts) = Parser::new(src).parse().expect("parses");
    assert_eq!(data.len(), 2);
    assert_eq!(data[0].level, 1);
    assert_eq!(data[0].name, "n");
    assert_eq!(
        data[0].data_type,
        DataType::Picture(IdentifierType::Numeric(2))
    );
    assert_eq!(data[1].name, "s");
    assert_eq!(
        data[1].data_type,
        DataType::Picture(IdentifierType::Alphanumeric(4))
    );
    assert_eq!(insts.len(), 0);
}

#[test]
fn level_must_be_an_integer() {
    let src = "data division.\nworking-storage section.\nxx n pic 9(2).\nprocedure division.\n";
    assert_eq!(
        Parser::new(src).parse().unwrap_err(),
        TranslateError::MalformedLevel
    );
}

#[test]
fn third_word_must_be_pic() {
    let src = "data division.\nworking-storage section.\n01 n foo 9(2).\nprocedure division.\n";
    assert_eq!(
        Parser::new(src).parse().unwrap_err(),
        TranslateError::UnsupportedConstruct
    );
}

#[test]
fn short_declaration_is_unsupported() {
    let src = "data division.\nworking-storage section.\n01 n pic\nprocedure division.\n";
    assert_eq!(
        Parser::new(src).parse().unwrap_err(),
        TranslateError::UnsupportedConstruct
    );
}
