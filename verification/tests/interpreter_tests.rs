use isic::ast::BinaryOp;
use isic::interpreter::{IsiInterpreter, RuntimeError};
use isic::parser::program;
use isic::typeck::TypeCk;

const FUEL: u64 = 1_000_000;

fn run_with(src: &str, input: Vec<Vec<u8>>) -> (Vec<u8>, Result<(), RuntimeError>) {
    let ast = program(src.as_bytes()).expect("program should parse");
    let mut tc = TypeCk::new();
    tc.check(&ast).expect("program should type-check");
    let mut interp = IsiInterpreter::new(input, FUEL);
    let r = interp.exec(&ast);
    (interp.output().clone(), r)
}

fn run(src: &str) -> (Vec<u8>, Result<(), RuntimeError>) {
    run_with(src, Vec::new())
}

#[test]
fn empty_program_prints_nothing() {
    let (out, r) = run("programa fimprog.");
    assert!(r.is_ok());
    assert_eq!(out, b"".to_vec());
}

#[test]
fn scalar_program_prints_the_value() {
    let (out, r) = run("programa declare x: int. x := 42. escreva(x). fimprog.");
    assert!(r.is_ok());
    assert_eq!(out, b"42\n".to_vec());
}

#[test]
fn while_loop_prints_each_iteration() {
    let (out, r) = run(
        "programa declare i: int. i := 0. enquanto (i < 3) { escreva(i). i := i + 1. } fimprog.",
    );
    assert!(r.is_ok());
    assert_eq!(out, b"0\n1\n2\n".to_vec());
}

#[test]
fn arithmetic_follows_precedence() {
    let (out, r) = run("programa declare x: int. x := 1 + 2 * 3. escreva(x). fimprog.");
    assert!(r.is_ok());
    assert_eq!(out, b"7\n".to_vec());
}

#[test]
fn boolean_expression_prints_true() {
    let (out, r) = run("programa escreva(1 < 2 && 3 > 2). fimprog.");
    assert!(r.is_ok());
    assert_eq!(out, b"true\n".to_vec());
}

#[test]
fn string_concatenation_joins_the_parts() {
    let (out, r) = run("programa declare s: string. s := \"ab\" + \"cd\". escreva(s). fimprog.");
    assert!(r.is_ok());
    assert_eq!(out, b"abcd\n".to_vec());
}

#[test]
fn conditional_takes_the_true_branch() {
    let (out, r) = run(
        "programa declare x: int. se (1 < 2) entao { x := 1. } senao { x := 2. } escreva(x). fimprog.",
    );
    assert!(r.is_ok());
    assert_eq!(out, b"1\n".to_vec());
}

#[test]
fn conditional_takes_the_false_branch() {
    let (out, r) = run(
        "programa declare x: int. se (2 < 1) entao { x := 1. } senao { x := 2. } escreva(x). fimprog.",
    );
    assert!(r.is_ok());
    assert_eq!(out, b"2\n".to_vec());
}

#[test]
fn do_while_runs_its_body_at_least_once() {
    let (out, r) = run(
        "programa declare i: int. i := 9. faca { escreva(i). i := i + 1. } enquanto (i < 3). fimprog.",
    );
    assert!(r.is_ok());
    assert_eq!(out, b"9\n".to_vec());
}

#[test]
fn leia_reads_one_line_into_the_variable() {
    let (out, r) = run_with(
        "programa declare x: int. leia(x). escreva(x + 1). fimprog.",
        vec![b"5".to_vec()],
    );
    assert!(r.is_ok());
    assert_eq!(out, b"6\n".to_vec());
}

#[test]
fn leia_trims_surrounding_whitespace() {
    let (out, r) = run_with(
        "programa declare s: string. leia(s). escreva(s). fimprog.",
        vec![b"  hi \t".to_vec()],
    );
    assert!(r.is_ok());
    assert_eq!(out, b"hi\n".to_vec());
}

#[test]
fn leia_with_no_input_left_is_a_runtime_error() {
    let (_, r) = run("programa declare x: int. leia(x). fimprog.");
    assert_eq!(r.unwrap_err(), RuntimeError::NoInput);
}

#[test]
fn leia_of_a_malformed_int_is_a_runtime_error() {
    let (_, r) = run_with(
        "programa declare x: int. leia(x). fimprog.",
        vec![b"five".to_vec()],
    );
    assert_eq!(r.unwrap_err(), RuntimeError::BadInput);
}

#[test]
fn reading_a_variable_without_a_value_is_a_runtime_error() {
    let (_, r) = run("programa declare x: int. escreva(x). fimprog.");
    assert_eq!(r.unwrap_err(), RuntimeError::NoValue { name: b"x".to_vec() });
}

#[test]
fn division_by_zero_is_a_runtime_error() {
    let (_, r) = run("programa declare x: int. x := 1 / 0. fimprog.");
    assert_eq!(r.unwrap_err(), RuntimeError::DivisionByZero);
}

#[test]
fn integer_overflow_is_a_runtime_error() {
    let (_, r) = run(
        "programa declare x: int. x := 18446744073709551615 + 1. fimprog.",
    );
    assert_eq!(r.unwrap_err(), RuntimeError::ArithOverflow);
}

#[test]
fn a_loop_that_never_ends_exhausts_the_budget() {
    let ast = program(b"programa declare i: int. i := 0. enquanto (i < 1) { i := 0. } fimprog.")
        .unwrap();
    let mut tc = TypeCk::new();
    tc.check(&ast).expect("program should type-check");
    let mut interp = IsiInterpreter::new(Vec::new(), 100);
    let r = interp.exec(&ast);
    assert_eq!(r.unwrap_err(), RuntimeError::OutOfFuel);
}

#[test]
fn float_values_pass_through_assignment_and_print() {
    let (out, r) = run("programa declare y: float. y := 1,5. escreva(y). fimprog.");
    assert!(r.is_ok());
    assert_eq!(out, b"1.5\n".to_vec());
}

#[test]
fn two_runs_over_the_same_input_print_the_same_bytes() {
    let src = "programa declare x: int. leia(x). escreva(x * 2). fimprog.";
    let (out1, r1) = run_with(src, vec![b"21".to_vec()]);
    let (out2, r2) = run_with(src, vec![b"21".to_vec()]);
    assert!(r1.is_ok() && r2.is_ok());
    assert_eq!(out1, out2);
    assert_eq!(out1, b"42\n".to_vec());
}

#[test]
fn calling_an_unknown_function_is_a_runtime_error() {
    let (_, r) = run("programa foo(1). fimprog.");
    assert_eq!(r.unwrap_err(), RuntimeError::UnknownFunction { name: b"foo".to_vec() });
}

#[test]
fn escreva_without_arguments_is_a_runtime_error() {
    let (_, r) = run("programa escreva(). fimprog.");
    assert_eq!(r.unwrap_err(), RuntimeError::MissingArgument);
}

#[test]
fn float_arithmetic_is_reported_as_unsupported() {
    let (_, r) = run("programa declare y: float. y := 1,5 + 2,5. fimprog.");
    assert_eq!(r.unwrap_err(), RuntimeError::FloatUnsupported);
}

#[test]
fn leia_reads_a_float_in_dot_form() {
    let (out, r) = run_with(
        "programa declare y: float. leia(y). escreva(y). fimprog.",
        vec![b"2.5".to_vec()],
    );
    assert!(r.is_ok());
    assert_eq!(out, b"2.5\n".to_vec());
}

#[test]
fn leia_reads_a_whole_number_float_as_point_zero() {
    let (out, r) = run_with(
        "programa declare y: float. leia(y). escreva(y). fimprog.",
        vec![b"15".to_vec()],
    );
    assert!(r.is_ok());
    assert_eq!(out, b"15.0\n".to_vec());
}

// The interpreter is defined for every syntax tree, also ones that never saw
// the type checker: bad operand shapes surface as runtime errors.
fn run_unchecked(src: &str) -> (Vec<u8>, Result<(), RuntimeError>) {
    let ast = program(src.as_bytes()).expect("program should parse");
    let mut interp = IsiInterpreter::new(Vec::new(), FUEL);
    let r = interp.exec(&ast);
    (interp.output().clone(), r)
}

#[test]
fn negating_a_non_bool_is_a_runtime_error() {
    let (_, r) = run_unchecked("programa declare x: int. x := !1. fimprog.");
    assert_eq!(r.unwrap_err(), RuntimeError::NonBoolNegation);
}

#[test]
fn mixing_operand_kinds_is_a_runtime_error() {
    let (_, r) = run_unchecked("programa declare x: int. x := 1 + \"a\". fimprog.");
    assert_eq!(r.unwrap_err(), RuntimeError::InvalidOperands { op: BinaryOp::Add });
}

#[test]
fn declaring_an_unknown_type_is_a_runtime_error_when_unchecked() {
    let (_, r) = run_unchecked("programa declare x: widget. fimprog.");
    assert_eq!(r.unwrap_err(), RuntimeError::UnknownType { name: b"widget".to_vec() });
}

#[test]
fn a_bool_declaration_lets_leia_read_true_and_false() {
    let ast = program(b"programa declare b: bool. leia(b). escreva(b). fimprog.").unwrap();
    let mut interp = IsiInterpreter::new(vec![b"true".to_vec()], FUEL);
    let r = interp.exec(&ast);
    assert!(r.is_ok());
    assert_eq!(interp.output().clone(), b"true\n".to_vec());
}
