use isic::ast::{BinaryOp, Expr, Statement};
use isic::parser::program;

fn parse(src: &str) -> isic::ast::IsiProgram {
    program(src.as_bytes()).expect("program should parse")
}

#[test]
fn empty_program_parses_to_no_statements() {
    let ast = parse("programa fimprog.");
    assert_eq!(ast.statements.len(), 0);
}

#[test]
fn whitespace_around_markers_is_accepted() {
    let ast = parse("  \n\tprograma\n fimprog. \n");
    assert_eq!(ast.statements.len(), 0);
}

#[test]
fn missing_end_marker_is_a_parse_error() {
    let r = program(b"programa declare x: int.");
    assert!(r.is_err());
}

#[test]
fn missing_start_marker_is_a_parse_error() {
    let r = program(b"declare x: int. fimprog.");
    let e = r.unwrap_err();
    assert_eq!(e.expected, "'programa'");
}

#[test]
fn trailing_garbage_is_a_parse_error() {
    let r = program(b"programa fimprog. extra");
    assert!(r.is_err());
}

#[test]
fn declaration_carries_names_and_span() {
    let src = "programa declare x: int. fimprog.";
    let ast = parse(src);
    assert_eq!(ast.statements.len(), 1);
    match &ast.statements[0] {
        Statement::Decl(m) => {
            assert_eq!(m.0.len(), 1);
            assert_eq!(m.0[0].var_name.name, b"x".to_vec());
            assert_eq!(m.0[0].var_type.name, b"int".to_vec());
            let start = src.find("x: int").unwrap();
            assert_eq!(m.0[0].span.start, start);
            assert_eq!(m.0[0].span.end, start + "x: int".len());
        }
        other => panic!("expected a declaration, got {:?}", other),
    }
}

#[test]
fn multi_declaration_splits_into_decls() {
    let ast = parse("programa declare a: int, b: int, c: int. fimprog.");
    match &ast.statements[0] {
        Statement::Decl(m) => {
            assert_eq!(m.0.len(), 3);
            assert_eq!(m.0[0].var_name.name, b"a".to_vec());
            assert_eq!(m.0[1].var_name.name, b"b".to_vec());
            assert_eq!(m.0[2].var_name.name, b"c".to_vec());
            for d in &m.0 {
                assert_eq!(d.var_type.name, b"int".to_vec());
            }
        }
        other => panic!("expected a declaration, got {:?}", other),
    }
}

#[test]
fn precedence_add_binds_looser_than_mul() {
    let ast = parse("programa x := 1 + 2 * 3. fimprog.");
    match &ast.statements[0] {
        Statement::Assignment(a) => match &a.val {
            Expr::BinExpr(top) => {
                assert_eq!(top.0, BinaryOp::Add);
                assert!(matches!(&*top.1, Expr::ImmInt(l) if l.0 == 1));
                match &*top.2 {
                    Expr::BinExpr(rhs) => {
                        assert_eq!(rhs.0, BinaryOp::Mul);
                        assert!(matches!(&*rhs.1, Expr::ImmInt(l) if l.0 == 2));
                        assert!(matches!(&*rhs.2, Expr::ImmInt(l) if l.0 == 3));
                    }
                    other => panic!("expected a product on the right, got {:?}", other),
                }
            }
            other => panic!("expected a sum, got {:?}", other),
        },
        other => panic!("expected an assignment, got {:?}", other),
    }
}

#[test]
fn precedence_comparisons_bind_tighter_than_and() {
    let ast = parse("programa x := 1 < 2 && 3 > 2. fimprog.");
    match &ast.statements[0] {
        Statement::Assignment(a) => match &a.val {
            Expr::BinExpr(top) => {
                assert_eq!(top.0, BinaryOp::And);
                assert!(matches!(&*top.1, Expr::BinExpr(l) if l.0 == BinaryOp::Lt));
                assert!(matches!(&*top.2, Expr::BinExpr(r) if r.0 == BinaryOp::Gt));
            }
            other => panic!("expected a conjunction, got {:?}", other),
        },
        other => panic!("expected an assignment, got {:?}", other),
    }
}

#[test]
fn bin_expr_span_covers_both_operands() {
    let src = "programa x := 1 + 2 * 3. fimprog.";
    let ast = parse(src);
    match &ast.statements[0] {
        Statement::Assignment(a) => match &a.val {
            Expr::BinExpr(top) => {
                let span = top.get_span();
                let left = top.1.get_span();
                let right = top.2.get_span();
                assert!(left.start <= right.start);
                assert!(span.start <= left.start);
                assert!(span.end >= right.end);
                assert!(span.end <= src.len());
            }
            other => panic!("expected a sum, got {:?}", other),
        },
        other => panic!("expected an assignment, got {:?}", other),
    }
}

#[test]
fn every_span_lies_within_the_source() {
    let src = "programa declare i: int. i := 0. enquanto (i < 3) { escreva(i). i := i + 1. } fimprog.";
    let ast = parse(src);
    for stmt in &ast.statements {
        match stmt {
            Statement::Decl(m) => {
                for d in &m.0 {
                    assert!(d.span.start <= d.span.end && d.span.end <= src.len());
                }
            }
            Statement::Assignment(a) => {
                let sp = a.get_span();
                assert!(sp.start <= sp.end && sp.end <= src.len());
            }
            Statement::WhileLoop(l) => {
                let sp = l.cond.get_span();
                assert!(sp.start <= sp.end && sp.end <= src.len());
            }
            _ => {}
        }
    }
}

#[test]
fn int_literal_overflow_is_a_parse_error() {
    let r = program(b"programa x := 99999999999999999999. fimprog.");
    let e = r.unwrap_err();
    assert_eq!(e.expected, "u64");
}

#[test]
fn largest_int_literal_still_parses() {
    let ast = parse("programa x := 18446744073709551615. fimprog.");
    match &ast.statements[0] {
        Statement::Assignment(a) => {
            assert!(matches!(&a.val, Expr::ImmInt(l) if l.0 == u64::MAX));
        }
        other => panic!("expected an assignment, got {:?}", other),
    }
}

#[test]
fn float_literal_keeps_its_digits() {
    let ast = parse("programa x := 1,5. fimprog.");
    match &ast.statements[0] {
        Statement::Assignment(a) => match &a.val {
            Expr::ImmFloat(f) => {
                assert_eq!(f.int_part, b"1".to_vec());
                assert_eq!(f.frac_part, b"5".to_vec());
            }
            other => panic!("expected a float literal, got {:?}", other),
        },
        other => panic!("expected an assignment, got {:?}", other),
    }
}

#[test]
fn string_literal_keeps_its_text() {
    let ast = parse("programa x := \"hello world 1\". fimprog.");
    match &ast.statements[0] {
        Statement::Assignment(a) => match &a.val {
            Expr::ImmString(s) => assert_eq!(s.0, b"hello world 1".to_vec()),
            other => panic!("expected a string literal, got {:?}", other),
        },
        other => panic!("expected an assignment, got {:?}", other),
    }
}

#[test]
fn empty_string_literal_is_rejected() {
    let r = program(b"programa x := \"\". fimprog.");
    assert!(r.is_err());
}

#[test]
fn conditional_with_else_parses_both_blocks() {
    let ast = parse(
        "programa se (1 < 2) entao { x := 1. } senao { x := 2. y := 3. } fimprog.",
    );
    match &ast.statements[0] {
        Statement::Conditional(c) => {
            assert_eq!(c.taken.len(), 1);
            assert_eq!(c.not_taken.len(), 2);
        }
        other => panic!("expected a conditional, got {:?}", other),
    }
}

#[test]
fn conditional_without_else_has_empty_not_taken() {
    let ast = parse("programa se (1 < 2) entao { x := 1. } fimprog.");
    match &ast.statements[0] {
        Statement::Conditional(c) => {
            assert_eq!(c.taken.len(), 1);
            assert_eq!(c.not_taken.len(), 0);
        }
        other => panic!("expected a conditional, got {:?}", other),
    }
}

#[test]
fn do_while_parses_body_and_condition() {
    let ast = parse("programa faca { x := 1. } enquanto (1 < 2). fimprog.");
    match &ast.statements[0] {
        Statement::DoWhileLoop(l) => {
            assert_eq!(l.body.len(), 1);
            assert!(matches!(&l.cond, Expr::BinExpr(b) if b.0 == BinaryOp::Lt));
        }
        other => panic!("expected a do-while loop, got {:?}", other),
    }
}

#[test]
fn call_statement_parses_arguments() {
    let ast = parse("programa escreva(1, 2). fimprog.");
    match &ast.statements[0] {
        Statement::FnCall(c) => {
            assert_eq!(c.fname.name, b"escreva".to_vec());
            assert_eq!(c.args.len(), 2);
        }
        other => panic!("expected a call, got {:?}", other),
    }
}

#[test]
fn negation_wraps_the_whole_rest() {
    let ast = parse("programa x := !(1 < 2). fimprog.");
    match &ast.statements[0] {
        Statement::Assignment(a) => {
            assert!(matches!(&a.val, Expr::Negation(_)));
        }
        other => panic!("expected an assignment, got {:?}", other),
    }
}

#[test]
fn parse_error_reports_an_offset_inside_the_source() {
    let src = b"programa x := . fimprog.";
    let e = program(src).unwrap_err();
    assert!(e.offset <= src.len());
}
