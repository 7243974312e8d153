use isic::ast::{Assignment, Expr, FnCall, Ident, IntLiteral, IsiProgram, Negation, VarDecl};
use isic::span::Span;

#[test]
fn merge_takes_the_smallest_start_and_largest_end() {
    let a = Span { start: 3, end: 7 };
    let b = Span { start: 5, end: 12 };
    assert_eq!(a.merge(&b), Span { start: 3, end: 12 });
    assert_eq!(b.merge(&a), Span { start: 3, end: 12 });
    assert_eq!(a.merge(&a), a);
}

#[test]
fn ident_new_copies_the_name_and_keeps_the_span() {
    let id = Ident::new(b"total", Span { start: 4, end: 9 });
    assert_eq!(id.name, b"total".to_vec());
    assert_eq!(id.span, Span { start: 4, end: 9 });
}

#[test]
fn idents_compare_by_name_and_ignore_spans() {
    let a = Ident::new(b"x", Span { start: 0, end: 1 });
    let b = Ident::new(b"x", Span { start: 10, end: 11 });
    let c = Ident::new(b"y", Span { start: 0, end: 1 });
    assert_eq!(a, b);
    assert_ne!(a, c);
}

#[test]
fn var_decl_new_keeps_its_parts() {
    let d = VarDecl::new(
        Ident::new(b"x", Span { start: 0, end: 1 }),
        Ident::new(b"int", Span { start: 3, end: 6 }),
        Span { start: 0, end: 6 },
    );
    assert_eq!(d.var_name.name, b"x".to_vec());
    assert_eq!(d.var_type.name, b"int".to_vec());
    assert_eq!(d.span, Span { start: 0, end: 6 });
}

#[test]
fn fn_call_span_covers_the_name_and_every_argument() {
    let call = FnCall::new(
        Ident::new(b"escreva", Span { start: 0, end: 7 }),
        vec![Expr::ImmInt(IntLiteral(1, Span { start: 8, end: 9 }))],
    );
    assert_eq!(call.get_span(), Span { start: 0, end: 9 });
}

#[test]
fn assignment_span_covers_target_and_value() {
    let a = Assignment::new(
        Ident::new(b"x", Span { start: 0, end: 1 }),
        Expr::ImmInt(IntLiteral(42, Span { start: 5, end: 7 })),
    );
    assert_eq!(a.get_span(), Span { start: 0, end: 7 });
}

#[test]
fn negation_span_merges_the_bang_with_its_operand() {
    let n = Negation::new(
        Box::new(Expr::ImmInt(IntLiteral(1, Span { start: 2, end: 3 }))),
        Span { start: 0, end: 1 },
    );
    assert_eq!(n.get_span(), Span { start: 0, end: 3 });
}

#[test]
fn program_new_keeps_its_statements() {
    let p = IsiProgram::new(Vec::new());
    assert_eq!(p.statements.len(), 0);
}
