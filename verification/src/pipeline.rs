//! The whole pipeline behind one call: parse, type check, usage check, then
//! either emit C or interpret. Also the command line's output-path rule, so
//! the driver around the library stays free of logic.

use vstd::prelude::*;

use crate::ast::IsiProgramV;
use crate::cemitter::{CEmitter, emit_program};
use crate::interpreter::{IsiInterpreter, RuntimeError, RtErrV, ev_program, lines_view};
use crate::parser::{ParseError, p_program, program};
use crate::typeck::{TypeCk, tc_program};
use crate::types::{CheckError, CheckErrorV, errors_view};
use crate::usageck::{UsageCk, usage_warnings};

verus! {

/// What compiling a source text yields: the C translation on success, and
/// the structured diagnostics either way.
pub struct CompileResult {
    pub output_code: Option<Vec<u8>>,
    pub errors: Vec<CheckError>,
    pub warns: Vec<CheckError>,
    pub parse_error: Option<ParseError>,
}

/// What interpreting a source text yields: whatever was printed before the
/// run ended, and the structured diagnostics.
pub struct InterpretResult {
    pub output: Vec<u8>,
    pub errors: Vec<CheckError>,
    pub warns: Vec<CheckError>,
    pub parse_error: Option<ParseError>,
    pub runtime_error: Option<RuntimeError>,
}

/// Runs the front half of the pipeline — parse, type check, usage check —
/// and the C emitter when the program is well typed.
pub fn compile_to_c(input_text: &[u8]) -> (r: CompileResult)
    ensures
        match p_program(input_text@) {
            None => {
                &&& r.output_code is None
                &&& r.errors@.len() == 0
                &&& r.warns@.len() == 0
                &&& r.parse_error matches Some(pe) && pe.offset <= input_text@.len()
            },
            Some(p) => {
                &&& r.parse_error is None
                &&& if tc_program(p).1 == Seq::<CheckErrorV>::empty() {
                    &&& r.errors@.len() == 0
                    &&& errors_view(r.warns@) == usage_warnings(p)
                    &&& r.output_code matches Some(code) && code@ == emit_program(
                        p,
                        tc_program(p).0,
                    )
                } else {
                    &&& errors_view(r.errors@) == tc_program(p).1
                    &&& r.warns@.len() == 0
                    &&& r.output_code is None
                }
            },
        },
{
    let ast = match program(input_text) {
        Err(pe) => {
            return CompileResult {
                output_code: None,
                errors: Vec::new(),
                warns: Vec::new(),
                parse_error: Some(pe),
            };
        },
        Ok(ast) => ast,
    };
    let mut typeck = TypeCk::new();
    match typeck.check(&ast) {
        Err(errors) => {
            return CompileResult {
                output_code: None,
                errors,
                warns: Vec::new(),
                parse_error: None,
            };
        },
        Ok(()) => {},
    }
    let mut usageck = UsageCk::new();
    let warns = usageck.check(&ast);
    let emitter = CEmitter::new();
    let code = emitter.emit(&ast, &typeck.sym_table);
    CompileResult { output_code: Some(code), errors: Vec::new(), warns, parse_error: None }
}

/// Runs the front half of the pipeline and then the interpreter over the
/// given input lines, with a step budget for loops.
pub fn run_interpreter(code: &[u8], input: Vec<Vec<u8>>, fuel: u64) -> (r: InterpretResult)
    ensures
        match p_program(code@) {
            None => {
                &&& r.output@.len() == 0
                &&& r.errors@.len() == 0
                &&& r.warns@.len() == 0
                &&& r.parse_error matches Some(pe) && pe.offset <= code@.len()
                &&& r.runtime_error is None
            },
            Some(p) => {
                &&& r.parse_error is None
                &&& if tc_program(p).1 == Seq::<CheckErrorV>::empty() {
                    &&& r.errors@.len() == 0
                    &&& errors_view(r.warns@) == usage_warnings(p)
                    &&& r.output@ == ev_program(p, lines_view(input@), fuel as nat).0.output
                    &&& (match r.runtime_error {
                        None => ev_program(p, lines_view(input@), fuel as nat).1 == Ok::<
                            (),
                            RtErrV,
                        >(()),
                        Some(e) => ev_program(p, lines_view(input@), fuel as nat).1 == Err::<
                            (),
                            RtErrV,
                        >(e@),
                    })
                } else {
                    &&& errors_view(r.errors@) == tc_program(p).1
                    &&& r.warns@.len() == 0
                    &&& r.output@.len() == 0
                    &&& r.runtime_error is None
                }
            },
        },
{
    let ast = match program(code) {
        Err(pe) => {
            return InterpretResult {
                output: Vec::new(),
                errors: Vec::new(),
                warns: Vec::new(),
                parse_error: Some(pe),
                runtime_error: None,
            };
        },
        Ok(ast) => ast,
    };
    let mut typeck = TypeCk::new();
    match typeck.check(&ast) {
        Err(errors) => {
            return InterpretResult {
                output: Vec::new(),
                errors,
                warns: Vec::new(),
                parse_error: None,
                runtime_error: None,
            };
        },
        Ok(()) => {},
    }
    let mut usageck = UsageCk::new();
    let warns = usageck.check(&ast);
    let mut interpreter = IsiInterpreter::new(input, fuel);
    let runtime_error = match interpreter.exec(&ast) {
        Ok(()) => None,
        Err(e) => Some(e),
    };
    let output = crate::ast::copy_bytes(interpreter.output().as_slice());
    InterpretResult { output, errors: Vec::new(), warns, parse_error: None, runtime_error }
}

/// Interpreter output is deterministic: it is a function of the program, the
/// input lines and the step budget alone, so two runs over equal inputs
/// print the same bytes and end the same way.
pub proof fn lemma_interpreter_deterministic(
    p1: IsiProgramV,
    p2: IsiProgramV,
    input1: Seq<Seq<u8>>,
    input2: Seq<Seq<u8>>,
    fuel1: nat,
    fuel2: nat,
)
    requires
        p1 == p2,
        input1 == input2,
        fuel1 == fuel2,
    ensures
        ev_program(p1, input1, fuel1).0.output == ev_program(p2, input2, fuel2).0.output,
        ev_program(p1, input1, fuel1).1 == ev_program(p2, input2, fuel2).1,
{
}

// ---------------------------------------------------------------------------
// The command line's output-path rule, kept here so the driver stays thin.
// ---------------------------------------------------------------------------

/// The dot and `c` of the default output extension.
pub open spec fn dot_c() -> Seq<u8> {
    seq![46u8, 99u8]
}

/// The index where the final path component starts: right after the last
/// slash, or zero.
pub open spec fn comp_start(p: Seq<u8>, j: int) -> int
    decreases j,
{
    if 0 < j <= p.len() && p[j - 1] != 47 {
        comp_start(p, j - 1)
    } else {
        j
    }
}

/// Where the final component's extension dot sits, or -1: the last `.`
/// strictly after the component's first byte.
pub open spec fn ext_dot(p: Seq<u8>, j: int, cs: int) -> int
    decreases j,
{
    if 0 < j <= p.len() && j > cs + 1 {
        if p[j - 1] == 46 {
            j - 1
        } else {
            ext_dot(p, j - 1, cs)
        }
    } else {
        -1
    }
}

/// The input path with its extension replaced by `c`: the stem of the final
/// component, a dot, and `c`; a path without an extension just gains `.c`.
pub open spec fn with_c_ext(p: Seq<u8>) -> Seq<u8> {
    let cs = comp_start(p, p.len() as int);
    let d = ext_dot(p, p.len() as int, cs);
    if 0 <= d <= p.len() {
        p.subrange(0, d) + dot_c()
    } else {
        p + dot_c()
    }
}

/// The command line arguments the driver hands over: the input path, the
/// output path if one was given, and whether to interpret instead of
/// emitting C.
pub struct CliArgs {
    pub input_file: Vec<u8>,
    pub output_file: Option<Vec<u8>>,
    pub execute: bool,
}

impl CliArgs {
    pub fn new(input_file: Vec<u8>, output_file: Option<Vec<u8>>, execute: bool) -> (r: CliArgs)
        ensures
            r.input_file@ == input_file@,
            r.out_file_opt() == (match output_file {
                Some(f) => Some(f@),
                None => None::<Seq<u8>>,
            }),
            r.execute == execute,
    {
        CliArgs { input_file, output_file, execute }
    }

    /// The output path that was given, if any.
    pub open spec fn out_file_opt(&self) -> Option<Seq<u8>> {
        match self.output_file {
            Some(f) => Some(f@),
            None => None,
        }
    }

    /// The path to write to: the one given, or the input path with its
    /// extension replaced by `c`.
    pub fn get_output_file(&self) -> (r: Vec<u8>)
        ensures
            r@ == (match self.out_file_opt() {
                Some(f) => f,
                None => with_c_ext(self.input_file@),
            }),
    {
        match &self.output_file {
            Some(f) => crate::ast::copy_bytes(f.as_slice()),
            None => {
                let p = self.input_file.as_slice();
                // the final component starts after the last slash
                let mut cs: usize = p.len();
                while cs > 0 && p[cs - 1] != 47
                    invariant
                        0 <= cs <= p@.len(),
                        comp_start(p@, p@.len() as int) == comp_start(p@, cs as int),
                    decreases cs,
                {
                    cs = cs - 1;
                }
                // the extension dot is the last dot strictly inside it
                let ghost csv = cs as int;
                let mut j: usize = p.len();
                let mut dot: usize = 0;
                let mut found = false;
                while j >= 1 && j - 1 > cs && !found
                    invariant
                        j <= p@.len(),
                        csv == cs as int,
                        cs <= p@.len(),
                        found ==> 0 <= ext_dot(p@, p@.len() as int, csv) < p@.len() && ext_dot(
                            p@,
                            p@.len() as int,
                            csv,
                        ) == dot as int,
                        !found ==> ext_dot(p@, p@.len() as int, csv) == ext_dot(
                            p@,
                            j as int,
                            csv,
                        ),
                    decreases j, (if found { 0int } else { 1int }),
                {
                    if p[j - 1] == 46 {
                        dot = j - 1;
                        found = true;
                    } else {
                        j = j - 1;
                    }
                }
                let mut out: Vec<u8> = Vec::new();
                if found {
                    crate::cemitter::push_bytes(
                        &mut out,
                        crate::parser::slice_range(p, 0, dot),
                    );
                } else {
                    proof {
                        assert(ext_dot(p@, j as int, csv) == -1);
                        assert(ext_dot(p@, p@.len() as int, csv) == -1);
                    }
                    crate::cemitter::push_bytes(&mut out, p);
                }
                out.push(46);
                out.push(99);
                proof {
                    if 0 <= ext_dot(p@, p@.len() as int, csv) <= p@.len() {
                        assert(out@ =~= p@.subrange(0, ext_dot(p@, p@.len() as int, csv))
                            + dot_c());
                    } else {
                        assert(out@ =~= p@ + dot_c());
                    }
                }
                out
            },
        }
    }
}

} // verus!
