use cobolrs::parser::{Condition, Instruction, Parser, Value, MAX_NESTING};
use cobolrs::TranslateError;

fn program(procedure: &str) -> String {
    let mut src = String::from(
        "data division.\nworking-storage section.\n01 n pic 9(2).\n01 m pic 9(2).\n01 s pic x(4).\nprocedure division.\n",
    );
    src.push_str(procedure);
    src
}

#[test]
fn move_statement_builds_an_infix() {
    let (_, insts) = Parser::new(&program("move 7 to n.\n")).parse().expect("parses");
    assert_eq!(insts.len(), 1);
    match &insts[0] {
        Instruction::Move(infix) => {
            assert!(matches!(infix.left, Value::Number(7)));
            assert_eq!(infix.right.name, "n");
        },
        other => panic!("expected a move, got {:?}", other),
    }
}

#[test]
fn add_and_multiply_build_infixes() {
    let (_, insts) = Parser::new(&program("add 1 to n.\nmultiply m by n.\n"))
        .parse()
        .expect("parses");
    assert!(matches!(insts[0], Instruction::Add(_)));
    match &insts[1] {
        Instruction::Multiply(infix) => {
            assert!(matches!(&infix.left, Value::Identifier(id) if id.name == "m"));
            assert_eq!(infix.right.name, "n");
        },
        other => panic!("expected a multiply, got {:?}", other),
    }
}

#[test]
fn display_classifies_every_operand() {
    let (_, insts) = Parser::new(&program("display \"x =\" n 5.\n"))
        .parse()
        .expect("parses");
    match &insts[0] {
        Instruction::Print(values) => {
            assert_eq!(values.len(), 3);
            assert!(matches!(&values[0], Value::StringLiteral(s) if s == "x ="));
            assert!(matches!(&values[1], Value::Identifier(id) if id.name == "n"));
            assert!(matches!(values[2], Value::Number(5)));
        },
        other => panic!("expected a print, got {:?}", other),
    }
}

#[test]
fn perform_until_nests_its_body() {
    let (_, insts) = Parser::new(&program(
        "perform until n greater 4\nadd 1 to n\nend-perform.\ndisplay n.\n",
    ))
    .parse()
    .expect("parses");
    assert_eq!(insts.len(), 2);
    match &insts[0] {
        Instruction::Repeat { condition, insts: body, .. } => {
            assert_eq!(*condition, Condition::GreaterThan);
            assert_eq!(body.len(), 1);
            assert!(matches!(body[0], Instruction::Add(_)));
        },
        other => panic!("expected a repeat, got {:?}", other),
    }
    assert!(matches!(insts[1], Instruction::Print(_)));
}

#[test]
fn unknown_verb_is_fatal() {
    assert_eq!(
        Parser::new(&program("jump 1 to n.\n")).parse().unwrap_err(),
        TranslateError::UnknownVerb
    );
}

#[test]
fn undeclared_destination_is_fatal() {
    assert_eq!(
        Parser::new(&program("move 1 to zz.\n")).parse().unwrap_err(),
        TranslateError::UndeclaredIdentifier
    );
}

#[test]
fn undeclared_source_identifier_is_fatal() {
    assert_eq!(
        Parser::new(&program("move zz to n.\n")).parse().unwrap_err(),
        TranslateError::UndeclaredIdentifier
    );
}

#[test]
fn unknown_condition_word_is_fatal() {
    assert_eq!(
        Parser::new(&program("perform until n above 4\nadd 1 to n\nend-perform.\n"))
            .parse()
            .unwrap_err(),
        TranslateError::UnknownCondition
    );
}

#[test]
fn missing_end_perform_is_fatal() {
    assert_eq!(
        Parser::new(&program("perform until n greater 4\nadd 1 to n\n"))
            .parse()
            .unwrap_err(),
        TranslateError::UnterminatedBlock
    );
}

#[test]
fn nesting_beyond_the_cap_is_fatal() {
    let mut procedure = String::new();
    let mut i: usize = 0;
    while i <= MAX_NESTING {
        procedure.push_str("perform until 1 equal 2\n");
        i += 1;
    }
    assert_eq!(
        Parser::new(&program(&procedure)).parse().unwrap_err(),
        TranslateError::NestingTooDeep
    );
}

#[test]
fn perform_needs_exactly_the_until_pattern() {
    assert_eq!(
        Parser::new(&program("perform until n greater than 4\nend-perform.\n"))
            .parse()
            .unwrap_err(),
        TranslateError::UnsupportedConstruct
    );
    assert_eq!(
        Parser::new(&program("perform forever\nend-perform.\n"))
            .parse()
            .unwrap_err(),
        TranslateError::UnsupportedConstruct
    );
}

#[test]
fn condition_words_map_to_operators() {
    assert_eq!(Condition::derive("greater"), Ok(Condition::GreaterThan));
    assert_eq!(Condition::derive("less"), Ok(Condition::LessThan));
    assert_eq!(Condition::derive("equal"), Ok(Condition::EqualTo));
    assert_eq!(
        Condition::derive("between"),
        Err(TranslateError::UnknownCondition)
    );
    assert_eq!(Condition::GreaterThan.to_string(), ">");
    assert_eq!(Condition::LessThan.to_string(), "<");
    assert_eq!(Condition::EqualTo.to_string(), "==");
}

#[test]
fn classification_prefers_numbers_then_strings() {
    let table = Vec::new();
    assert!(matches!(Value::derive("-12", &table), Ok(Value::Number(-12))));
    assert!(matches!(
        Value::derive("\"ab\"", &table),
        Ok(Value::StringLiteral(s)) if s == "ab"
    ));
    assert_eq!(
        Value::derive("zz", &table).unwrap_err(),
        TranslateError::UndeclaredIdentifier
    );
}
