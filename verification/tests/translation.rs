use cobolrs::compile;
use cobolrs::TranslateError;

fn program(declarations: &str, procedure: &str) -> String {
    let mut src = String::from("data division.\nworking-storage section.\n");
    src.push_str(declarations);
    src.push_str("procedure division.\n");
    src.push_str(procedure);
    src
}

#[test]
fn move_to_numeric_converts_the_value() {
    let out = compile(&program("01 n pic 9(2).\n", "move 7 to n.\n")).expect("compiles");
    assert!(out.contains("n = 7.into();\n"));
}

#[test]
fn move_to_alphanumeric_uses_zeroed_string() {
    let out = compile(&program(
        "01 n pic 9(2).\n01 s pic x(4).\n",
        "move 1 to n.\nmove n to s.\n",
    ))
    .expect("compiles");
    assert!(out.contains("s = n.to_zeroed_string();\n"));
}

#[test]
fn add_of_literal_is_direct_and_of_identifier_borrowed() {
    let out = compile(&program(
        "01 n pic 9(2).\n01 m pic 9(2).\n",
        "add 1 to n.\nadd m to n.\n",
    ))
    .expect("compiles");
    assert!(out.contains("n += 1;\n"));
    assert!(out.contains("n += &m;\n"));
}

#[test]
fn multiply_converts_the_source_width() {
    let out = compile(&program(
        "01 n pic 9(2).\n01 fact pic 9(15).\n",
        "move 1 to fact.\nmultiply n by fact.\n",
    ))
    .expect("compiles");
    assert!(out.contains("fact *= fact.convert(&n);\n"));
}

#[test]
fn display_concatenates_formatted_arguments() {
    let out = compile(&program(
        "01 n pic 9(2).\n",
        "display \"n is \" n.\n",
    ))
    .expect("compiles");
    assert!(out.contains(
        "println!(\"{}{}\", format!(\"{}\", \"n is \"), format!(\"{}\", n.to_zeroed_string()));\n"
    ));
}

#[test]
fn guard_literals_convert_to_the_fixed_width_type() {
    let out = compile(&program(
        "01 n pic 9(2).\n",
        "perform until n equal 4\nadd 1 to n\nend-perform.\n",
    ))
    .expect("compiles");
    assert!(out.contains("loop {\nif n == Num::from(4){\nbreak;}"));
}

#[test]
fn numeric_declaration_is_sized_and_zeroed() {
    let out = compile(&program("01 q pic 9(3).\n", "")).expect("compiles");
    assert!(out.contains("let q: Num<3> = Num::zero();\n"));
}

#[test]
fn alphanumeric_declaration_is_filled_with_zero_characters() {
    let out = compile(&program("01 s pic x(5).\n", "")).expect("compiles");
    assert!(out.contains("let s= String::from(\"00000\");\n"));
}

#[test]
fn unassigned_variables_stay_immutable() {
    let out = compile(&program(
        "01 n pic 9(2).\n01 q pic 9(3).\n",
        "move 1 to n.\n",
    ))
    .expect("compiles");
    assert!(out.contains("let mut n: Num<2> = Num::zero();\n"));
    assert!(out.contains("let q: Num<3> = Num::zero();\n"));
    assert_eq!(out.matches("let mut q").count(), 0);
}

#[test]
fn nested_assignment_is_declared_once_at_top_and_mutable() {
    let out = compile(&program(
        "01 n pic 9(2).\n01 acc pic 9(6).\n",
        "move 0 to n.\nperform until n greater 3\nadd 1 to n\nmove n to acc\nend-perform.\n",
    ))
    .expect("compiles");
    assert_eq!(out.matches("let mut acc: Num<6> = Num::zero();\n").count(), 1);
    assert_eq!(out.matches("let mut acc").count(), 1);
    assert_eq!(out.matches("let acc").count(), 0);
    let body_start = out.find("loop {").expect("loop emitted");
    let decl_at = out.find("let mut acc").expect("declaration emitted");
    assert!(decl_at < body_start);
}

#[test]
fn display_without_operands_prints_an_empty_line() {
    let out = compile(&program("01 n pic 9(2).\n", "display.\n")).expect("compiles");
    assert!(out.contains("println!(\"\");\n"));
}

#[test]
fn prelude_and_entry_point_wrap_the_program() {
    let out = compile(&program("01 n pic 9(2).\n", "move 1 to n.\n")).expect("compiles");
    assert!(out.starts_with("#![allow(unused)]\n\nuse conum::{Num, NumFrom};\nfn main() {\n"));
    assert!(out.ends_with("}"));
}

#[test]
fn alphabetic_pictures_have_no_generated_form() {
    let (data, insts) = cobolrs::parser::Parser::new(&program("01 n pic 9(2).\n", ""))
        .parse()
        .expect("parses");
    let mut data = data;
    data[0].data_type =
        cobolrs::parser::DataType::Picture(cobolrs::parser::IdentifierType::Alphabetic);
    assert_eq!(
        cobolrs::translate::translate(data, insts).unwrap_err(),
        TranslateError::UnsupportedConstruct
    );
}
