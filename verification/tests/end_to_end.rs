use cobolrs::compile;
use cobolrs::TranslateError;
use conum::{Num, NumFrom};

const FACTORIAL_SOURCE: &str = "data division.\nworking-storage section.\n01 n pic 9(2).\n01 fact pic 9(15).\nprocedure division.\nmove 0 to n.\nmove 1 to fact.\nperform until n equal 4\nadd 1 to n\nmultiply n by fact\nend-perform.\ndisplay fact.\n";

#[test]
fn factorial_source_translates_exactly() {
    let out = compile(FACTORIAL_SOURCE).expect("compiles");
    let expected = "#![allow(unused)]\n\nuse conum::{Num, NumFrom};\nfn main() {\nlet mut n: Num<2> = Num::zero();\nlet mut fact: Num<15> = Num::zero();\n\nn = 0.into();\nfact = 1.into();\nloop {\nif n == Num::from(4){\nbreak;}n += 1;\nfact *= fact.convert(&n);\n}\nprintln!(\"{}\", format!(\"{}\", fact.to_zeroed_string()));\n}";
    assert_eq!(out, expected);
}

#[test]
fn factorial_program_computes_and_pads_four_factorial() {
    // The statements of the generated program, executed against the same
    // runtime library it targets.
    let mut n: Num<2> = Num::zero();
    let mut fact: Num<15> = Num::zero();

    n = 0.into();
    fact = 1.into();
    loop {
        if n == Num::from(4) {
            break;
        }
        n += 1;
        fact *= fact.convert(&n);
    }
    assert_eq!(format!("{}", fact.to_zeroed_string()), "000000000000024");
}

#[test]
fn missing_procedure_division_fails_before_any_output() {
    let src = "data division.\nworking-storage section.\n01 n pic 9(2).\n";
    assert_eq!(compile(src).unwrap_err(), TranslateError::MissingSection);
}

#[test]
fn missing_data_division_fails() {
    let src = "working-storage section.\n01 n pic 9(2).\nprocedure division.\n";
    assert_eq!(compile(src).unwrap_err(), TranslateError::MissingSection);
}

#[test]
fn missing_working_storage_section_fails() {
    let src = "data division.\n01 n pic 9(2).\nprocedure division.\n";
    assert_eq!(compile(src).unwrap_err(), TranslateError::MissingSection);
}

#[test]
fn numeric_initial_value_renders_to_declared_width() {
    // One width per line of the declared range's ends and middle.
    assert_eq!(Num::<1>::zero().to_zeroed_string(), "0");
    assert_eq!(Num::<7>::zero().to_zeroed_string(), "0000000");
    assert_eq!(Num::<20>::zero().to_zeroed_string(), "0".repeat(20));
    for c in Num::<20>::zero().to_zeroed_string().chars() {
        assert!(c.is_ascii_digit());
    }
}

#[test]
fn alphanumeric_initial_value_is_fill_characters() {
    let out = compile(
        "data division.\nworking-storage section.\n01 s pic x(6).\nprocedure division.\n",
    )
    .expect("compiles");
    assert!(out.contains("String::from(\"000000\")"));
    let generated_initial = String::from("000000");
    assert_eq!(generated_initial.len(), 6);
    assert!(generated_initial.chars().all(|c| c == '0'));
}

#[test]
fn moved_literal_displays_zero_padded() {
    // `move 16 to n.` then `display n.` for a width-three destination.
    let mut n: Num<3> = Num::zero();
    n = 16.into();
    assert_eq!(format!("{}", n.to_zeroed_string()), "016");
}

#[test]
fn satisfied_guard_runs_body_zero_times() {
    // A loop whose guard already holds before the first pass.
    let mut i: Num<2> = Num::from(5);
    let limit: Num<2> = Num::from(3);
    let mut body_runs: u32 = 0;
    loop {
        if i > limit {
            break;
        }
        body_runs += 1;
        i += 1;
    }
    assert_eq!(body_runs, 0);
}
