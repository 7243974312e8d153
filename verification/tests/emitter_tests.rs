use isic::cemitter::CEmitter;
use isic::parser::program;
use isic::typeck::TypeCk;

const HEADER: &str = "/* !!! auto-gerado por isic-back !!! */\n#include <stdio.h>\n#include <stdlib.h>\n\nint main() {\n";

fn emit(src: &str) -> String {
    let ast = program(src.as_bytes()).expect("program should parse");
    let mut tc = TypeCk::new();
    tc.check(&ast).expect("program should type-check");
    let out = CEmitter::new().emit(&ast, &tc.sym_table);
    String::from_utf8(out).expect("emitted C should be text")
}

#[test]
fn empty_program_emits_header_and_closing_brace() {
    let c = emit("programa fimprog.");
    assert_eq!(c, format!("{}}}\n", HEADER));
}

#[test]
fn scalar_program_emits_decl_assignment_and_printf() {
    let c = emit("programa declare x: int. x := 42. escreva(x). fimprog.");
    let body = "    int x;\n    x = 42;\n    printf(\"%d\\n\", x);\n";
    assert_eq!(c, format!("{}{}}}\n", HEADER, body));
}

#[test]
fn declared_types_map_to_c_types() {
    let c = emit("programa declare x: int. declare y: float. declare s: string. x := 1. y := 1,5. s := \"a\". escreva(x). escreva(y). escreva(s). fimprog.");
    assert!(c.contains("    int x;\n"));
    assert!(c.contains("    float y;\n"));
    assert!(c.contains("    char* s;\n"));
    assert!(c.contains("    printf(\"%d\\n\", x);\n"));
    assert!(c.contains("    printf(\"%f\\n\", y);\n"));
    assert!(c.contains("    printf(\"%s\\n\", s);\n"));
}

#[test]
fn float_literal_emits_with_dot_and_suffix() {
    let c = emit("programa declare y: float. y := 1,5. escreva(y). fimprog.");
    assert!(c.contains("    y = 1.5f;\n"));
}

#[test]
fn string_literal_print_embeds_the_text() {
    let c = emit("programa escreva(\"hello\"). fimprog.");
    assert!(c.contains("    printf(\"hello\\n\");\n"));
}

#[test]
fn int_literal_print_uses_decimal_format() {
    let c = emit("programa escreva(7). fimprog.");
    assert!(c.contains("    printf(\"%d\\n\", 7);\n"));
}

#[test]
fn leia_emits_scanf_with_the_right_format() {
    let c = emit("programa declare x: int. leia(x). escreva(x). fimprog.");
    assert!(c.contains("    scanf(\"%d\", &x);\n"));
}

#[test]
fn binary_expressions_emit_parenthesized() {
    let c = emit("programa declare x: int. x := 1 + 2 * 3. fimprog.");
    assert!(c.contains("    x = (1 + (2 * 3));\n"));
}

#[test]
fn conditional_emits_if_and_else_blocks_indented() {
    let c = emit(
        "programa declare x: int. se (1 < 2) entao { x := 1. } senao { x := 2. } fimprog.",
    );
    let expected = "    if ((1 < 2)) {\n        x = 1;\n    }\n    else {\n        x = 2;\n    }\n";
    assert!(c.contains(expected), "emitted:\n{}", c);
}

#[test]
fn conditional_without_else_elides_the_else_block() {
    let c = emit("programa declare x: int. se (1 < 2) entao { x := 1. } fimprog.");
    assert!(!c.contains("else"));
}

#[test]
fn while_loop_emits_with_indented_body() {
    let c = emit(
        "programa declare i: int. i := 0. enquanto (i < 3) { escreva(i). i := i + 1. } fimprog.",
    );
    let expected =
        "    while ((i < 3)) {\n        printf(\"%d\\n\", i);\n        i = (i + 1);\n    }\n";
    assert!(c.contains(expected), "emitted:\n{}", c);
}

#[test]
fn do_while_emits_body_then_condition() {
    let c = emit("programa declare i: int. i := 0. faca { i := i + 1. } enquanto (i < 3). fimprog.");
    let expected = "    do {\n        i = (i + 1);\n    } while ((i < 3));\n";
    assert!(c.contains(expected), "emitted:\n{}", c);
}

#[test]
fn negation_emits_bang_and_parens() {
    let c = emit("programa declare x: int. se (!(1 < 2)) entao { x := 1. } fimprog.");
    assert!(c.contains("if (!((1 < 2)))"));
}

#[test]
fn print_of_a_compound_expression_emits_the_stub() {
    let c = emit("programa escreva(1 + 2). fimprog.");
    assert!(c.contains("    /* not yet supported */\n"));
}
