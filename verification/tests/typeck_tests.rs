use isic::ast::BinaryOp;
use isic::parser::program;
use isic::typeck::TypeCk;
use isic::types::{CheckErrorKind, IsiType};

fn check(src: &str) -> (TypeCk, Result<(), Vec<isic::types::CheckError>>) {
    let ast = program(src.as_bytes()).expect("program should parse");
    let mut tc = TypeCk::new();
    let r = tc.check(&ast);
    (tc, r)
}

#[test]
fn empty_program_checks_with_empty_table() {
    let (tc, r) = check("programa fimprog.");
    assert!(r.is_ok());
    assert_eq!(tc.sym_table.len(), 0);
}

#[test]
fn declaration_enters_the_table_with_its_type() {
    let (tc, r) = check("programa declare x: int. declare y: float. declare s: string. fimprog.");
    assert!(r.is_ok());
    assert_eq!(tc.sym_table.get(b"x").unwrap().ty, IsiType::Int);
    assert_eq!(tc.sym_table.get(b"y").unwrap().ty, IsiType::Float);
    assert_eq!(tc.sym_table.get(b"s").unwrap().ty, IsiType::String);
    assert!(tc.sym_table.get(b"z").is_none());
}

#[test]
fn assignment_type_mismatch_is_reported_with_its_span() {
    let src = "programa declare x: int. x := \"hi\". fimprog.";
    let (_, r) = check(src);
    let errs = r.unwrap_err();
    assert_eq!(errs.len(), 1);
    assert_eq!(
        errs[0].kind,
        CheckErrorKind::MismatchedAssignment { expected: IsiType::Int, found: IsiType::String }
    );
    let start = src.find("x :=").unwrap();
    let end = src.find("\"hi\"").unwrap() + "\"hi\"".len();
    assert_eq!(errs[0].span.start, start);
    assert_eq!(errs[0].span.end, end);
}

#[test]
fn unknown_declared_type_is_reported() {
    let (_, r) = check("programa declare x: widget. fimprog.");
    let errs = r.unwrap_err();
    assert_eq!(errs.len(), 1);
    assert_eq!(errs[0].kind, CheckErrorKind::UnknownType { name: b"widget".to_vec() });
}

#[test]
fn bool_is_not_a_declarable_type() {
    let (_, r) = check("programa declare x: bool. fimprog.");
    let errs = r.unwrap_err();
    assert_eq!(errs.len(), 1);
    assert_eq!(errs[0].kind, CheckErrorKind::UnknownType { name: b"bool".to_vec() });
}

#[test]
fn redeclaration_is_reported_exactly_once() {
    let (_, r) = check("programa declare x: int. declare x: int. fimprog.");
    let errs = r.unwrap_err();
    assert_eq!(errs.len(), 1);
    assert_eq!(errs[0].kind, CheckErrorKind::Redeclaration { name: b"x".to_vec() });
}

#[test]
fn undefined_variable_in_assignment_is_reported() {
    let (_, r) = check("programa x := 1. fimprog.");
    let errs = r.unwrap_err();
    assert_eq!(errs.len(), 1);
    assert_eq!(errs[0].kind, CheckErrorKind::UndefinedVariable { name: b"x".to_vec() });
}

#[test]
fn check_continues_past_a_bad_statement() {
    let (_, r) = check("programa x := 1. y := 2. fimprog.");
    let errs = r.unwrap_err();
    assert_eq!(errs.len(), 2);
    assert_eq!(errs[0].kind, CheckErrorKind::UndefinedVariable { name: b"x".to_vec() });
    assert_eq!(errs[1].kind, CheckErrorKind::UndefinedVariable { name: b"y".to_vec() });
}

#[test]
fn table_stays_populated_when_a_later_statement_fails() {
    let (tc, r) = check("programa declare x: int. x := \"hi\". fimprog.");
    assert!(r.is_err());
    assert_eq!(tc.sym_table.get(b"x").unwrap().ty, IsiType::Int);
}

#[test]
fn subtraction_of_strings_is_rejected() {
    let (_, r) = check("programa declare s: string. s := \"a\" - \"b\". fimprog.");
    let errs = r.unwrap_err();
    assert_eq!(errs.len(), 1);
    assert_eq!(
        errs[0].kind,
        CheckErrorKind::InvalidOperands { op: BinaryOp::Sub, ty: IsiType::String }
    );
}

#[test]
fn addition_of_strings_is_allowed() {
    let (_, r) = check("programa declare s: string. s := \"a\" + \"b\". fimprog.");
    assert!(r.is_ok());
}

#[test]
fn modulo_requires_ints() {
    let (_, r) = check("programa declare x: float. declare y: float. x := x % y. fimprog.");
    let errs = r.unwrap_err();
    assert!(errs.iter().any(|e| matches!(
        &e.kind,
        CheckErrorKind::InvalidOperands { op: BinaryOp::Mod, ty: IsiType::Float }
    )));
}

#[test]
fn mismatched_operand_types_are_rejected() {
    let (_, r) = check("programa declare x: int. x := 1 + 1,5. fimprog.");
    let errs = r.unwrap_err();
    assert_eq!(errs.len(), 1);
    assert!(matches!(
        &errs[0].kind,
        CheckErrorKind::MismatchedBinOperands { left: IsiType::Int, right: IsiType::Float, .. }
    ));
}

#[test]
fn condition_must_be_bool() {
    let (_, r) = check("programa se (1) entao { } fimprog.");
    let errs = r.unwrap_err();
    assert_eq!(errs.len(), 1);
    assert_eq!(errs[0].kind, CheckErrorKind::NonBoolCondition { found: IsiType::Int });
}

#[test]
fn comparison_condition_is_bool() {
    let (_, r) = check("programa declare i: int. i := 0. enquanto (i < 3) { i := i + 1. } fimprog.");
    assert!(r.is_ok());
}

#[test]
fn negation_requires_bool() {
    let (_, r) = check("programa declare x: int. x := !1. fimprog.");
    let errs = r.unwrap_err();
    assert_eq!(errs.len(), 1);
    assert_eq!(errs[0].kind, CheckErrorKind::NonBoolNegation { found: IsiType::Int });
}

#[test]
fn call_statements_check_as_unit() {
    let (_, r) = check("programa declare x: int. x := 1. escreva(x). fimprog.");
    assert!(r.is_ok());
}

#[test]
fn declarations_inside_blocks_enter_the_table() {
    let (tc, r) = check("programa se (1 < 2) entao { declare y: int. y := 1. } fimprog.");
    assert!(r.is_ok());
    assert_eq!(tc.sym_table.get(b"y").unwrap().ty, IsiType::Int);
}

#[test]
fn visit_program_returns_one_result_per_statement() {
    let ast = program(b"programa declare x: int. x := 1. escreva(x). fimprog.").unwrap();
    let mut tc = TypeCk::new();
    let results = tc.visit_program(&ast);
    assert_eq!(results.len(), ast.statements.len());
    assert!(results.iter().all(|r| r.is_ok()));
}
