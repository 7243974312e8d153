use isic::parser::program;
use isic::types::CheckErrorKind;
use isic::usageck::UsageCk;

fn warnings(src: &str) -> Vec<isic::types::CheckError> {
    let ast = program(src.as_bytes()).expect("program should parse");
    let mut uc = UsageCk::new();
    uc.check(&ast)
}

#[test]
fn used_and_assigned_variable_draws_no_warning() {
    let w = warnings("programa declare x: int. x := 1. escreva(x). fimprog.");
    assert_eq!(w.len(), 0);
}

#[test]
fn unused_variable_is_named_in_exactly_one_warning() {
    let src = "programa declare x: int. declare y: int. x := 1. escreva(x). fimprog.";
    let w = warnings(src);
    assert_eq!(w.len(), 1);
    assert_eq!(w[0].kind, CheckErrorKind::DeclaredNotUsed { name: b"y".to_vec() });
    let start = src.find("y: int").unwrap();
    assert_eq!(w[0].span.start, start);
}

#[test]
fn read_but_never_written_variable_is_reported() {
    let w = warnings("programa declare x: int. escreva(x). fimprog.");
    assert_eq!(w.len(), 1);
    assert_eq!(w[0].kind, CheckErrorKind::UsedNotAssigned { name: b"x".to_vec() });
}

#[test]
fn leia_counts_as_a_write() {
    let w = warnings("programa declare x: int. leia(x). escreva(x). fimprog.");
    assert_eq!(w.len(), 0);
}

#[test]
fn a_use_in_an_expression_counts_as_a_read() {
    let w = warnings("programa declare x: int. declare y: int. x := 1. y := x + 1. escreva(y). fimprog.");
    assert_eq!(w.len(), 0);
}

#[test]
fn a_use_in_a_condition_counts_as_a_read() {
    let w = warnings("programa declare i: int. i := 0. enquanto (i < 3) { i := i + 1. } fimprog.");
    assert_eq!(w.len(), 0);
}

#[test]
fn warnings_come_sorted_by_declaration_start() {
    let src = "programa declare a: int. declare b: int. fimprog.";
    let w = warnings(src);
    assert_eq!(w.len(), 2);
    assert!(w[0].span.start < w[1].span.start);
    assert_eq!(w[0].kind, CheckErrorKind::DeclaredNotUsed { name: b"a".to_vec() });
    assert_eq!(w[1].kind, CheckErrorKind::DeclaredNotUsed { name: b"b".to_vec() });
}

#[test]
fn assigned_but_never_read_is_reported_as_unused() {
    let w = warnings("programa declare x: int. x := 1. fimprog.");
    assert_eq!(w.len(), 1);
    assert_eq!(w[0].kind, CheckErrorKind::DeclaredNotUsed { name: b"x".to_vec() });
}

#[test]
fn uses_inside_negations_count_as_reads() {
    // the checker walks negations, so `b` inside `!(b ...)` is a read
    let w = warnings(
        "programa declare b: int. b := 1. se (!(b < 2)) entao { escreva(b). } fimprog.",
    );
    assert_eq!(w.len(), 0);
}
