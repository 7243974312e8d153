use isic::pipeline::{CliArgs, compile_to_c, run_interpreter};
use isic::types::CheckErrorKind;

const HEADER: &str = "/* !!! auto-gerado por isic-back !!! */\n#include <stdio.h>\n#include <stdlib.h>\n\nint main() {\n";

#[test]
fn compiling_the_empty_program_yields_header_and_brace() {
    let r = compile_to_c(b"programa fimprog.");
    assert!(r.parse_error.is_none());
    assert!(r.errors.is_empty());
    assert!(r.warns.is_empty());
    let code = String::from_utf8(r.output_code.unwrap()).unwrap();
    assert_eq!(code, format!("{}}}\n", HEADER));
}

#[test]
fn compiling_a_scalar_program_yields_the_expected_body() {
    let r = compile_to_c(b"programa declare x: int. x := 42. escreva(x). fimprog.");
    let code = String::from_utf8(r.output_code.unwrap()).unwrap();
    let body = "    int x;\n    x = 42;\n    printf(\"%d\\n\", x);\n";
    assert_eq!(code, format!("{}{}}}\n", HEADER, body));
}

#[test]
fn a_syntax_error_stops_the_pipeline_at_the_parser() {
    let r = compile_to_c(b"programa x := . fimprog.");
    assert!(r.output_code.is_none());
    assert!(r.errors.is_empty());
    let pe = r.parse_error.unwrap();
    assert!(pe.offset <= "programa x := . fimprog.".len());
}

#[test]
fn a_type_error_stops_the_pipeline_before_the_emitter() {
    let r = compile_to_c(b"programa declare x: int. x := \"hi\". fimprog.");
    assert!(r.output_code.is_none());
    assert!(r.parse_error.is_none());
    assert_eq!(r.errors.len(), 1);
    assert!(r.warns.is_empty());
}

#[test]
fn usage_warnings_flow_through_on_success() {
    let r = compile_to_c(b"programa declare x: int. declare y: int. x := 1. escreva(x). fimprog.");
    assert!(r.output_code.is_some());
    assert_eq!(r.warns.len(), 1);
    assert_eq!(r.warns[0].kind, CheckErrorKind::DeclaredNotUsed { name: b"y".to_vec() });
}

#[test]
fn interpreting_a_program_collects_its_output() {
    let r = run_interpreter(
        b"programa declare i: int. i := 0. enquanto (i < 3) { escreva(i). i := i + 1. } fimprog.",
        Vec::new(),
        1_000_000,
    );
    assert!(r.parse_error.is_none());
    assert!(r.errors.is_empty());
    assert!(r.runtime_error.is_none());
    assert_eq!(r.output, b"0\n1\n2\n".to_vec());
}

#[test]
fn interpreting_feeds_input_lines_to_leia() {
    let r = run_interpreter(
        b"programa declare x: int. leia(x). escreva(x + 1). fimprog.",
        vec![b"41".to_vec()],
        1_000_000,
    );
    assert!(r.runtime_error.is_none());
    assert_eq!(r.output, b"42\n".to_vec());
}

#[test]
fn interpreting_an_ill_typed_program_reports_and_stops() {
    let r = run_interpreter(b"programa x := 1. fimprog.", Vec::new(), 1_000_000);
    assert_eq!(r.errors.len(), 1);
    assert!(r.output.is_empty());
    assert!(r.runtime_error.is_none());
}

#[test]
fn interpreting_keeps_output_written_before_a_runtime_error() {
    let r = run_interpreter(
        b"programa declare x: int. x := 1. escreva(x). x := x / 0. fimprog.",
        Vec::new(),
        1_000_000,
    );
    assert_eq!(r.output, b"1\n".to_vec());
    assert!(r.runtime_error.is_some());
}

#[test]
fn output_file_defaults_to_the_input_with_c_extension() {
    let args = CliArgs::new(b"dir/prog.isi".to_vec(), None, false);
    assert_eq!(args.get_output_file(), b"dir/prog.c".to_vec());
}

#[test]
fn output_file_without_extension_gains_one() {
    let args = CliArgs::new(b"prog".to_vec(), None, false);
    assert_eq!(args.get_output_file(), b"prog.c".to_vec());
}

#[test]
fn a_dot_file_name_gains_an_extension_instead_of_losing_its_name() {
    let args = CliArgs::new(b"dir/.hidden".to_vec(), None, false);
    assert_eq!(args.get_output_file(), b"dir/.hidden.c".to_vec());
}

#[test]
fn a_dot_in_a_directory_name_is_not_an_extension() {
    let args = CliArgs::new(b"my.dir/prog".to_vec(), None, false);
    assert_eq!(args.get_output_file(), b"my.dir/prog.c".to_vec());
}

#[test]
fn an_explicit_output_file_wins() {
    let args = CliArgs::new(b"prog.isi".to_vec(), Some(b"out.c".to_vec()), false);
    assert_eq!(args.get_output_file(), b"out.c".to_vec());
}
