//! The interpreter: runs a validated program against injected input lines,
//! collecting output bytes. Its semantics is a specification function over a
//! state of variable values and types, the remaining input, the output so
//! far, and a step budget that bounds loop iterations; the executable
//! interpreter is proved to compute exactly that function, which also makes
//! every run deterministic in its inputs.

use vstd::prelude::*;

use crate::ast::{
    Assignment, BinExpr, BinaryOp, Conditional, DoWhileLoop, Expr, ExprV, FnCall, FnCallV, Ident,
    IsiProgram, IsiProgramV, MultiVarDecl, Negation, Statement, StatementV, VarDecl, VarDeclV,
    WhileLoop, expr_view, lemma_exprs_view_len, lemma_stmts_view_len, stmts_view, var_decls_view,
};
use crate::cemitter::dec_digits;
use crate::parser::{digits_end, digits_val, is_digit};
use crate::typeck::{ty_name_bool, ty_name_float, ty_name_int, ty_name_string};
use crate::types::{IsiType, NameMap, bytes_eq};
use crate::usageck::leia_name;

verus! {

/// A float value, kept as the decimal text it was written or read as. The
/// verified interpreter carries floats through declarations, assignments,
/// reading and printing; float arithmetic has no binary float type here and
/// surfaces a runtime error instead.
#[derive(Debug, PartialEq, Eq)]
pub struct FloatVal {
    pub int_part: Vec<u8>,
    pub frac_part: Vec<u8>,
}

/// A run-time value.
#[derive(Debug, PartialEq, Eq)]
pub enum IsiValue {
    Int(u64),
    Float(FloatVal),
    String(Vec<u8>),
    Bool(bool),
    Unit,
}

pub enum IsiValueV {
    Int(u64),
    Float(Seq<u8>, Seq<u8>),
    String(Seq<u8>),
    Bool(bool),
    Unit,
}

impl View for IsiValue {
    type V = IsiValueV;

    open spec fn view(&self) -> IsiValueV {
        match self {
            IsiValue::Int(n) => IsiValueV::Int(*n),
            IsiValue::Float(f) => IsiValueV::Float(f.int_part@, f.frac_part@),
            IsiValue::String(s) => IsiValueV::String(s@),
            IsiValue::Bool(b) => IsiValueV::Bool(*b),
            IsiValue::Unit => IsiValueV::Unit,
        }
    }
}

/// Why a run failed.
#[derive(Debug, PartialEq, Eq)]
pub enum RuntimeError {
    NoValue { name: Vec<u8> },
    InvalidOperands { op: BinaryOp },
    NonBoolNegation,
    UnknownFunction { name: Vec<u8> },
    UnknownType { name: Vec<u8> },
    MissingArgument,
    NoInput,
    BadInput,
    DivisionByZero,
    ArithOverflow,
    FloatUnsupported,
    OutOfFuel,
}

pub enum RtErrV {
    NoValue { name: Seq<u8> },
    InvalidOperands { op: BinaryOp },
    NonBoolNegation,
    UnknownFunction { name: Seq<u8> },
    UnknownType { name: Seq<u8> },
    MissingArgument,
    NoInput,
    BadInput,
    DivisionByZero,
    ArithOverflow,
    FloatUnsupported,
    OutOfFuel,
}

impl View for RuntimeError {
    type V = RtErrV;

    open spec fn view(&self) -> RtErrV {
        match self {
            RuntimeError::NoValue { name } => RtErrV::NoValue { name: name@ },
            RuntimeError::InvalidOperands { op } => RtErrV::InvalidOperands { op: *op },
            RuntimeError::NonBoolNegation => RtErrV::NonBoolNegation,
            RuntimeError::UnknownFunction { name } => RtErrV::UnknownFunction { name: name@ },
            RuntimeError::UnknownType { name } => RtErrV::UnknownType { name: name@ },
            RuntimeError::MissingArgument => RtErrV::MissingArgument,
            RuntimeError::NoInput => RtErrV::NoInput,
            RuntimeError::BadInput => RtErrV::BadInput,
            RuntimeError::DivisionByZero => RtErrV::DivisionByZero,
            RuntimeError::ArithOverflow => RtErrV::ArithOverflow,
            RuntimeError::FloatUnsupported => RtErrV::FloatUnsupported,
            RuntimeError::OutOfFuel => RtErrV::OutOfFuel,
        }
    }
}

/// The interpreter's whole state: variable values, variable types (needed to
/// parse what `leia` reads), the input lines not yet consumed, the output
/// written so far, and the loop-step budget left.
pub struct InterpState {
    pub values: Map<Seq<u8>, IsiValueV>,
    pub types: Map<Seq<u8>, IsiType>,
    pub input: Seq<Seq<u8>>,
    pub output: Seq<u8>,
    pub fuel: nat,
}

pub open spec fn init_state(input: Seq<Seq<u8>>, fuel: nat) -> InterpState {
    InterpState {
        values: Map::empty(),
        types: Map::empty(),
        input: input,
        output: Seq::empty(),
        fuel: fuel,
    }
}

pub open spec fn true_bytes() -> Seq<u8> {
    seq![116u8, 114u8, 117u8, 101u8]
}

pub open spec fn false_bytes() -> Seq<u8> {
    seq![102u8, 97u8, 108u8, 115u8, 101u8]
}

/// How a value prints: integers in decimal, floats as their decimal text,
/// strings raw, booleans as `true`/`false`, unit as nothing.
pub open spec fn fmt_value(v: IsiValueV) -> Seq<u8> {
    match v {
        IsiValueV::Int(n) => dec_digits(n as nat),
        IsiValueV::Float(ip, fp) => ip + seq![46u8] + fp,
        IsiValueV::String(s) => s,
        IsiValueV::Bool(b) => if b {
            true_bytes()
        } else {
            false_bytes()
        },
        IsiValueV::Unit => Seq::empty(),
    }
}

/// Bytes the built-in `escreva` treats as the name of itself.
pub open spec fn escreva_name() -> Seq<u8> {
    seq![101u8, 115u8, 99u8, 114u8, 101u8, 118u8, 97u8]
}

/// Whitespace trimmed from a read line, as `str::trim` would.
pub open spec fn is_trim_ws(c: u8) -> bool {
    c == 32 || (9 <= c <= 13)
}

pub open spec fn ltrim_end(s: Seq<u8>, i: int) -> int
    decreases s.len() - i,
{
    if 0 <= i < s.len() && is_trim_ws(s[i]) {
        ltrim_end(s, i + 1)
    } else {
        i
    }
}

pub open spec fn rtrim_start(s: Seq<u8>, j: int) -> int
    decreases j,
{
    if 0 < j <= s.len() && is_trim_ws(s[j - 1]) {
        rtrim_start(s, j - 1)
    } else {
        j
    }
}

/// The line with leading and trailing whitespace removed.
pub open spec fn trim(s: Seq<u8>) -> Seq<u8> {
    let a = ltrim_end(s, 0);
    let b = rtrim_start(s, s.len() as int);
    if 0 <= a <= b <= s.len() {
        s.subrange(a, b)
    } else {
        Seq::empty()
    }
}

/// An unsigned decimal with an optional leading `+`, as `u64` parsing
/// accepts it, if its value fits.
pub open spec fn parse_u64(t: Seq<u8>) -> Option<u64> {
    let s0: int = if t.len() > 0 && t[0] == 43 {
        1
    } else {
        0
    };
    if t.len() > s0 && digits_end(t, s0) == t.len() && digits_val(t, s0, t.len() as int)
        <= u64::MAX {
        Some(digits_val(t, s0, t.len() as int) as u64)
    } else {
        None
    }
}

/// A decimal float: digits, optionally a dot and more digits. A missing
/// fraction reads as zero.
pub open spec fn parse_float(t: Seq<u8>) -> Option<(Seq<u8>, Seq<u8>)> {
    let j = digits_end(t, 0);
    if t.len() > 0 && j > 0 {
        if j == t.len() {
            Some((t, seq![48u8]))
        } else if t[j] == 46 && t.len() > j + 1 && digits_end(t, j + 1) == t.len() {
            Some((t.subrange(0, j), t.subrange(j + 1, t.len() as int)))
        } else {
            None
        }
    } else {
        None
    }
}

/// One binary operation over two values. Matching `Int` operands compute;
/// matching `String` operands concatenate under `Add`; matching `Bool`
/// operands take `And`/`Or`; `Float` operands have no arithmetic here and
/// report `FloatUnsupported`; anything else is an invalid combination.
pub open spec fn ev_binop(op: BinaryOp, lv: IsiValueV, rv: IsiValueV) -> Result<
    IsiValueV,
    RtErrV,
> {
    match op {
        BinaryOp::Add => match (lv, rv) {
            (IsiValueV::Int(l), IsiValueV::Int(r)) => if l + r <= u64::MAX {
                Ok(IsiValueV::Int((l + r) as u64))
            } else {
                Err(RtErrV::ArithOverflow)
            },
            (IsiValueV::String(l), IsiValueV::String(r)) => Ok(IsiValueV::String(l + r)),
            (IsiValueV::Float(_, _), IsiValueV::Float(_, _)) => Err(RtErrV::FloatUnsupported),
            _ => Err(RtErrV::InvalidOperands { op }),
        },
        BinaryOp::Sub => match (lv, rv) {
            (IsiValueV::Int(l), IsiValueV::Int(r)) => if r <= l {
                Ok(IsiValueV::Int((l - r) as u64))
            } else {
                Err(RtErrV::ArithOverflow)
            },
            (IsiValueV::Float(_, _), IsiValueV::Float(_, _)) => Err(RtErrV::FloatUnsupported),
            _ => Err(RtErrV::InvalidOperands { op }),
        },
        BinaryOp::Mul => match (lv, rv) {
            (IsiValueV::Int(l), IsiValueV::Int(r)) => if l * r <= u64::MAX {
                Ok(IsiValueV::Int((l * r) as u64))
            } else {
                Err(RtErrV::ArithOverflow)
            },
            (IsiValueV::Float(_, _), IsiValueV::Float(_, _)) => Err(RtErrV::FloatUnsupported),
            _ => Err(RtErrV::InvalidOperands { op }),
        },
        BinaryOp::Div => match (lv, rv) {
            (IsiValueV::Int(l), IsiValueV::Int(r)) => if r != 0 {
                Ok(IsiValueV::Int(l / r))
            } else {
                Err(RtErrV::DivisionByZero)
            },
            (IsiValueV::Float(_, _), IsiValueV::Float(_, _)) => Err(RtErrV::FloatUnsupported),
            _ => Err(RtErrV::InvalidOperands { op }),
        },
        BinaryOp::Mod => match (lv, rv) {
            (IsiValueV::Int(l), IsiValueV::Int(r)) => if r != 0 {
                Ok(IsiValueV::Int(l % r))
            } else {
                Err(RtErrV::DivisionByZero)
            },
            _ => Err(RtErrV::InvalidOperands { op }),
        },
        BinaryOp::Gt => match (lv, rv) {
            (IsiValueV::Int(l), IsiValueV::Int(r)) => Ok(IsiValueV::Bool(l > r)),
            (IsiValueV::Float(_, _), IsiValueV::Float(_, _)) => Err(RtErrV::FloatUnsupported),
            _ => Err(RtErrV::InvalidOperands { op }),
        },
        BinaryOp::Lt => match (lv, rv) {
            (IsiValueV::Int(l), IsiValueV::Int(r)) => Ok(IsiValueV::Bool(l < r)),
            (IsiValueV::Float(_, _), IsiValueV::Float(_, _)) => Err(RtErrV::FloatUnsupported),
            _ => Err(RtErrV::InvalidOperands { op }),
        },
        BinaryOp::Geq => match (lv, rv) {
            (IsiValueV::Int(l), IsiValueV::Int(r)) => Ok(IsiValueV::Bool(l >= r)),
            (IsiValueV::Float(_, _), IsiValueV::Float(_, _)) => Err(RtErrV::FloatUnsupported),
            _ => Err(RtErrV::InvalidOperands { op }),
        },
        BinaryOp::Leq => match (lv, rv) {
            (IsiValueV::Int(l), IsiValueV::Int(r)) => Ok(IsiValueV::Bool(l <= r)),
            (IsiValueV::Float(_, _), IsiValueV::Float(_, _)) => Err(RtErrV::FloatUnsupported),
            _ => Err(RtErrV::InvalidOperands { op }),
        },
        BinaryOp::Eq => match (lv, rv) {
            (IsiValueV::Int(l), IsiValueV::Int(r)) => Ok(IsiValueV::Bool(l == r)),
            (IsiValueV::Float(_, _), IsiValueV::Float(_, _)) => Err(RtErrV::FloatUnsupported),
            _ => Err(RtErrV::InvalidOperands { op }),
        },
        BinaryOp::Neq => match (lv, rv) {
            (IsiValueV::Int(l), IsiValueV::Int(r)) => Ok(IsiValueV::Bool(l != r)),
            (IsiValueV::Float(_, _), IsiValueV::Float(_, _)) => Err(RtErrV::FloatUnsupported),
            _ => Err(RtErrV::InvalidOperands { op }),
        },
        BinaryOp::And => match (lv, rv) {
            (IsiValueV::Bool(l), IsiValueV::Bool(r)) => Ok(IsiValueV::Bool(l && r)),
            _ => Err(RtErrV::InvalidOperands { op }),
        },
        BinaryOp::Or => match (lv, rv) {
            (IsiValueV::Bool(l), IsiValueV::Bool(r)) => Ok(IsiValueV::Bool(l || r)),
            _ => Err(RtErrV::InvalidOperands { op }),
        },
    }
}

/// Evaluates an expression. Calls inside expressions read and write the
/// streams, so the state threads through.
pub open spec fn ev_expr(st: InterpState, e: ExprV) -> (InterpState, Result<IsiValueV, RtErrV>)
    decreases e, 1int,
{
    match e {
        ExprV::Ident(id) => {
            if st.values.dom().contains(id.name) {
                (st, Ok(st.values[id.name]))
            } else {
                (st, Err(RtErrV::NoValue { name: id.name }))
            }
        },
        ExprV::ImmInt(n, _) => (st, Ok(IsiValueV::Int(n))),
        ExprV::ImmFloat(f) => (st, Ok(IsiValueV::Float(f.int_part, f.frac_part))),
        ExprV::ImmString(t, _) => (st, Ok(IsiValueV::String(t))),
        ExprV::BinExpr(op, l, r) => {
            let (st1, rl) = ev_expr(st, *l);
            match rl {
                Err(e1) => (st1, Err(e1)),
                Ok(lv) => {
                    let (st2, rr) = ev_expr(st1, *r);
                    match rr {
                        Err(e2) => (st2, Err(e2)),
                        Ok(rv) => (st2, ev_binop(op, lv, rv)),
                    }
                },
            }
        },
        ExprV::FnCall(c) => ev_call(st, c),
        ExprV::Negation(n) => {
            let (st1, rv) = ev_expr(st, *n.expr);
            match rv {
                Err(e1) => (st1, Err(e1)),
                Ok(IsiValueV::Bool(b)) => (st1, Ok(IsiValueV::Bool(!b))),
                Ok(_) => (st1, Err(RtErrV::NonBoolNegation)),
            }
        },
    }
}

/// What one line of input means for a variable of the given type.
pub open spec fn read_value(ty: IsiType, line: Seq<u8>) -> Result<IsiValueV, RtErrV> {
    let t = trim(line);
    match ty {
        IsiType::Int => match parse_u64(t) {
            Some(n) => Ok(IsiValueV::Int(n)),
            None => Err(RtErrV::BadInput),
        },
        IsiType::Float => match parse_float(t) {
            Some((ip, fp)) => Ok(IsiValueV::Float(ip, fp)),
            None => Err(RtErrV::BadInput),
        },
        IsiType::String => Ok(IsiValueV::String(t)),
        IsiType::Bool => if t == true_bytes() {
            Ok(IsiValueV::Bool(true))
        } else if t == false_bytes() {
            Ok(IsiValueV::Bool(false))
        } else {
            Err(RtErrV::BadInput)
        },
        IsiType::Unit => Ok(IsiValueV::Unit),
    }
}

/// Runs a built-in call. `escreva` prints its first argument and a newline;
/// `leia` consumes one input line and stores it, parsed by the variable's
/// declared type, into its first argument. Any other name is an error.
pub open spec fn ev_call(st: InterpState, c: FnCallV) -> (InterpState, Result<IsiValueV, RtErrV>)
    decreases c, 0int,
{
    if c.fname.name == escreva_name() {
        if c.args.len() == 0 {
            (st, Err(RtErrV::MissingArgument))
        } else {
            let (st1, rv) = ev_expr(st, c.args[0]);
            match rv {
                Err(e1) => (st1, Err(e1)),
                Ok(v) => (
                    InterpState { output: st1.output + fmt_value(v) + seq![10u8], ..st1 },
                    Ok(IsiValueV::Unit),
                ),
            }
        }
    } else if c.fname.name == leia_name() {
        if c.args.len() == 0 {
            (st, Err(RtErrV::MissingArgument))
        } else if st.input.len() == 0 {
            (st, Err(RtErrV::NoInput))
        } else {
            let line = st.input[0];
            let st1 = InterpState { input: st.input.drop_first(), ..st };
            match c.args[0] {
                ExprV::Ident(id) => {
                    if st1.types.dom().contains(id.name) {
                        match read_value(st1.types[id.name], line) {
                            Ok(v) => (
                                InterpState { values: st1.values.insert(id.name, v), ..st1 },
                                Ok(IsiValueV::Unit),
                            ),
                            Err(e1) => (st1, Err(e1)),
                        }
                    } else {
                        (st1, Err(RtErrV::NoValue { name: id.name }))
                    }
                },
                _ => (st1, Ok(IsiValueV::Unit)),
            }
        }
    } else {
        (st, Err(RtErrV::UnknownFunction { name: c.fname.name }))
    }
}

/// A declaration records the variable's type, for `leia` to parse by.
pub open spec fn ev_decl(st: InterpState, d: VarDeclV) -> (InterpState, Result<(), RtErrV>) {
    let tn = d.var_type.name;
    let ty = if tn == ty_name_int() {
        Some(IsiType::Int)
    } else if tn == ty_name_float() {
        Some(IsiType::Float)
    } else if tn == ty_name_string() {
        Some(IsiType::String)
    } else if tn == ty_name_bool() {
        Some(IsiType::Bool)
    } else {
        None
    };
    match ty {
        Some(t) => (
            InterpState { types: st.types.insert(d.var_name.name, t), ..st },
            Ok(()),
        ),
        None => (st, Err(RtErrV::UnknownType { name: tn })),
    }
}

pub open spec fn ev_decls(st: InterpState, ds: Seq<VarDeclV>, i: int) -> (InterpState, Result<
    (),
    RtErrV,
>)
    decreases ds.len() - i,
{
    if 0 <= i < ds.len() {
        let (st1, r) = ev_decl(st, ds[i]);
        match r {
            Err(e) => (st1, Err(e)),
            Ok(_) => ev_decls(st1, ds, i + 1),
        }
    } else {
        (st, Ok(()))
    }
}

/// Executes one statement. Each new pass over a loop body consumes one unit
/// of the step budget; an exhausted budget stops the run.
pub open spec fn ev_stmt(st: InterpState, s: StatementV) -> (InterpState, Result<(), RtErrV>)
    decreases st.fuel, s, 1int,
{
    match s {
        StatementV::Decl(ds) => ev_decls(st, ds, 0),
        StatementV::FnCall(c) => {
            let (st1, r) = ev_call(st, c);
            match r {
                Err(e) => (st1, Err(e)),
                Ok(_) => (st1, Ok(())),
            }
        },
        StatementV::Assignment(a) => {
            let (st1, rv) = ev_expr(st, a.val);
            match rv {
                Err(e) => (st1, Err(e)),
                Ok(v) => (
                    InterpState { values: st1.values.insert(a.ident.name, v), ..st1 },
                    Ok(()),
                ),
            }
        },
        StatementV::Conditional(c) => {
            let (st1, rv) = ev_expr(st, c.cond);
            match rv {
                Err(e) => (st1, Err(e)),
                Ok(IsiValueV::Bool(true)) => {
                    if st1.fuel <= st.fuel {
                        ev_stmts(st1, c.taken, 0)
                    } else {
                        (st1, Ok(()))
                    }
                },
                Ok(_) => {
                    if st1.fuel <= st.fuel {
                        ev_stmts(st1, c.not_taken, 0)
                    } else {
                        (st1, Ok(()))
                    }
                },
            }
        },
        StatementV::WhileLoop(l) => {
            let (st1, rv) = ev_expr(st, l.cond);
            match rv {
                Err(e) => (st1, Err(e)),
                Ok(IsiValueV::Bool(true)) => {
                    if st1.fuel <= st.fuel {
                        let (st2, r2) = ev_stmts(st1, l.body, 0);
                        match r2 {
                            Err(e) => (st2, Err(e)),
                            Ok(_) => {
                                if st2.fuel == 0 || st2.fuel > st.fuel {
                                    (st2, Err(RtErrV::OutOfFuel))
                                } else {
                                    ev_stmt(
                                        InterpState { fuel: (st2.fuel - 1) as nat, ..st2 },
                                        s,
                                    )
                                }
                            },
                        }
                    } else {
                        (st1, Ok(()))
                    }
                },
                Ok(_) => (st1, Ok(())),
            }
        },
        StatementV::DoWhileLoop(l) => {
            if st.fuel <= st.fuel {
                let (st1, r1) = ev_stmts(st, l.body, 0);
                match r1 {
                    Err(e) => (st1, Err(e)),
                    Ok(_) => {
                        let (st2, rv) = ev_expr(st1, l.cond);
                        match rv {
                            Err(e) => (st2, Err(e)),
                            Ok(IsiValueV::Bool(true)) => {
                                if st2.fuel == 0 || st2.fuel > st.fuel {
                                    (st2, Err(RtErrV::OutOfFuel))
                                } else {
                                    ev_stmt(
                                        InterpState { fuel: (st2.fuel - 1) as nat, ..st2 },
                                        s,
                                    )
                                }
                            },
                            Ok(_) => (st2, Ok(())),
                        }
                    },
                }
            } else {
                (st, Ok(()))
            }
        },
    }
}

/// Executes the statements of a list in order, stopping at the first error.
pub open spec fn ev_stmts(st: InterpState, ss: Seq<StatementV>, i: int) -> (InterpState, Result<
    (),
    RtErrV,
>)
    decreases st.fuel, ss, ss.len() - i,
{
    if 0 <= i < ss.len() {
        let (st1, r) = ev_stmt(st, ss[i]);
        match r {
            Err(e) => (st1, Err(e)),
            Ok(_) => {
                if st1.fuel <= st.fuel {
                    ev_stmts(st1, ss, i + 1)
                } else {
                    (st1, Ok(()))
                }
            },
        }
    } else {
        (st, Ok(()))
    }
}

/// A whole run: the final state and its outcome, from the given input lines
/// and step budget. The run is a mathematical function of the program, the
/// input and the budget — equal inputs give equal outputs.
pub open spec fn ev_program(p: IsiProgramV, input: Seq<Seq<u8>>, fuel: nat) -> (
    InterpState,
    Result<(), RtErrV>,
) {
    ev_stmts(init_state(input, fuel), p.statements, 0)
}

/// The step budget never grows while statements run.
pub proof fn lemma_ev_fuel(st: InterpState, s: StatementV)
    ensures
        ev_stmt(st, s).0.fuel <= st.fuel,
    decreases st.fuel, s, 1int,
{
    match s {
        StatementV::Decl(ds) => {
            lemma_ev_decls_fuel(st, ds, 0);
        },
        StatementV::FnCall(c) => {
            lemma_ev_call_fuel(st, c);
        },
        StatementV::Assignment(a) => {
            lemma_ev_expr_fuel(st, a.val);
        },
        StatementV::Conditional(c) => {
            lemma_ev_expr_fuel(st, c.cond);
            let (st1, rv) = ev_expr(st, c.cond);
            match rv {
                Err(_) => {},
                Ok(IsiValueV::Bool(true)) => {
                    if st1.fuel <= st.fuel {
                        lemma_ev_stmts_fuel(st1, c.taken, 0);
                    }
                },
                Ok(_) => {
                    if st1.fuel <= st.fuel {
                        lemma_ev_stmts_fuel(st1, c.not_taken, 0);
                    }
                },
            }
        },
        StatementV::WhileLoop(l) => {
            lemma_ev_expr_fuel(st, l.cond);
            let (st1, rv) = ev_expr(st, l.cond);
            match rv {
                Err(_) => {},
                Ok(IsiValueV::Bool(true)) => {
                    if st1.fuel <= st.fuel {
                        lemma_ev_stmts_fuel(st1, l.body, 0);
                        let (st2, r2) = ev_stmts(st1, l.body, 0);
                        match r2 {
                            Err(_) => {},
                            Ok(_) => {
                                if !(st2.fuel == 0 || st2.fuel > st.fuel) {
                                    lemma_ev_fuel(
                                        InterpState { fuel: (st2.fuel - 1) as nat, ..st2 },
                                        s,
                                    );
                                }
                            },
                        }
                    }
                },
                Ok(_) => {},
            }
        },
        StatementV::DoWhileLoop(l) => {
            lemma_ev_stmts_fuel(st, l.body, 0);
            let (st1, r1) = ev_stmts(st, l.body, 0);
            match r1 {
                Err(_) => {},
                Ok(_) => {
                    lemma_ev_expr_fuel(st1, l.cond);
                    let (st2, rv) = ev_expr(st1, l.cond);
                    match rv {
                        Err(_) => {},
                        Ok(IsiValueV::Bool(true)) => {
                            if !(st2.fuel == 0 || st2.fuel > st.fuel) {
                                lemma_ev_fuel(
                                    InterpState { fuel: (st2.fuel - 1) as nat, ..st2 },
                                    s,
                                );
                            }
                        },
                        Ok(_) => {},
                    }
                },
            }
        },
    }
}

pub proof fn lemma_ev_stmts_fuel(st: InterpState, ss: Seq<StatementV>, i: int)
    ensures
        ev_stmts(st, ss, i).0.fuel <= st.fuel,
    decreases st.fuel, ss, ss.len() - i,
{
    if 0 <= i < ss.len() {
        lemma_ev_fuel(st, ss[i]);
        let (st1, r) = ev_stmt(st, ss[i]);
        match r {
            Err(_) => {},
            Ok(_) => {
                if st1.fuel <= st.fuel {
                    lemma_ev_stmts_fuel(st1, ss, i + 1);
                }
            },
        }
    }
}

pub proof fn lemma_ev_expr_fuel(st: InterpState, e: ExprV)
    ensures
        ev_expr(st, e).0.fuel == st.fuel,
    decreases e, 1int,
{
    match e {
        ExprV::BinExpr(_, l, r) => {
            lemma_ev_expr_fuel(st, *l);
            let (st1, rl) = ev_expr(st, *l);
            if rl is Ok {
                lemma_ev_expr_fuel(st1, *r);
            }
        },
        ExprV::FnCall(c) => {
            lemma_ev_call_fuel(st, c);
        },
        ExprV::Negation(n) => {
            lemma_ev_expr_fuel(st, *n.expr);
        },
        _ => {},
    }
}

pub proof fn lemma_ev_call_fuel(st: InterpState, c: FnCallV)
    ensures
        ev_call(st, c).0.fuel == st.fuel,
    decreases c, 0int,
{
    if c.fname.name == escreva_name() {
        if c.args.len() > 0 {
            lemma_ev_expr_fuel(st, c.args[0]);
        }
    }
}

pub proof fn lemma_ev_decls_fuel(st: InterpState, ds: Seq<VarDeclV>, i: int)
    ensures
        ev_decls(st, ds, i).0.fuel == st.fuel,
    decreases ds.len() - i,
{
    if 0 <= i < ds.len() {
        let (st1, r) = ev_decl(st, ds[i]);
        if r is Ok {
            lemma_ev_decls_fuel(st1, ds, i + 1);
        }
    }
}

pub open spec fn lines_view(s: Seq<Vec<u8>>) -> Seq<Seq<u8>> {
    s.map_values(|l: Vec<u8>| l@)
}

pub open spec fn rt_res_view(r: Result<IsiValue, RuntimeError>) -> Result<IsiValueV, RtErrV> {
    match r {
        Ok(v) => Ok(v@),
        Err(e) => Err(e@),
    }
}

pub open spec fn rt_unit_view(r: Result<(), RuntimeError>) -> Result<(), RtErrV> {
    match r {
        Ok(()) => Ok(()),
        Err(e) => Err(e@),
    }
}

/// A copy of a run-time value.
fn dup_value(v: &IsiValue) -> (r: IsiValue)
    ensures
        r@ == v@,
{
    match v {
        IsiValue::Int(n) => IsiValue::Int(*n),
        IsiValue::Float(f) => IsiValue::Float(
            FloatVal {
                int_part: crate::ast::copy_bytes(f.int_part.as_slice()),
                frac_part: crate::ast::copy_bytes(f.frac_part.as_slice()),
            },
        ),
        IsiValue::String(s) => IsiValue::String(crate::ast::copy_bytes(s.as_slice())),
        IsiValue::Bool(b) => IsiValue::Bool(*b),
        IsiValue::Unit => IsiValue::Unit,
    }
}

/// One binary operation over two evaluated operands.
fn exec_binop(op: BinaryOp, lv: IsiValue, rv: IsiValue) -> (r: Result<IsiValue, RuntimeError>)
    ensures
        rt_res_view(r) == ev_binop(op, lv@, rv@),
{
    match op {
        BinaryOp::Add => match (lv, rv) {
            (IsiValue::Int(l), IsiValue::Int(r)) => match l.checked_add(r) {
                Some(x) => Ok(IsiValue::Int(x)),
                None => Err(RuntimeError::ArithOverflow),
            },
            (IsiValue::String(l), IsiValue::String(r)) => {
                let mut out = l;
                crate::cemitter::push_bytes(&mut out, r.as_slice());
                Ok(IsiValue::String(out))
            },
            (IsiValue::Float(_), IsiValue::Float(_)) => Err(RuntimeError::FloatUnsupported),
            _ => Err(RuntimeError::InvalidOperands { op }),
        },
        BinaryOp::Sub => match (lv, rv) {
            (IsiValue::Int(l), IsiValue::Int(r)) => if r <= l {
                Ok(IsiValue::Int(l - r))
            } else {
                Err(RuntimeError::ArithOverflow)
            },
            (IsiValue::Float(_), IsiValue::Float(_)) => Err(RuntimeError::FloatUnsupported),
            _ => Err(RuntimeError::InvalidOperands { op }),
        },
        BinaryOp::Mul => match (lv, rv) {
            (IsiValue::Int(l), IsiValue::Int(r)) => match l.checked_mul(r) {
                Some(x) => Ok(IsiValue::Int(x)),
                None => Err(RuntimeError::ArithOverflow),
            },
            (IsiValue::Float(_), IsiValue::Float(_)) => Err(RuntimeError::FloatUnsupported),
            _ => Err(RuntimeError::InvalidOperands { op }),
        },
        BinaryOp::Div => match (lv, rv) {
            (IsiValue::Int(l), IsiValue::Int(r)) => if r != 0 {
                Ok(IsiValue::Int(l / r))
            } else {
                Err(RuntimeError::DivisionByZero)
            },
            (IsiValue::Float(_), IsiValue::Float(_)) => Err(RuntimeError::FloatUnsupported),
            _ => Err(RuntimeError::InvalidOperands { op }),
        },
        BinaryOp::Mod => match (lv, rv) {
            (IsiValue::Int(l), IsiValue::Int(r)) => if r != 0 {
                Ok(IsiValue::Int(l % r))
            } else {
                Err(RuntimeError::DivisionByZero)
            },
            _ => Err(RuntimeError::InvalidOperands { op }),
        },
        BinaryOp::Gt => match (lv, rv) {
            (IsiValue::Int(l), IsiValue::Int(r)) => Ok(IsiValue::Bool(l > r)),
            (IsiValue::Float(_), IsiValue::Float(_)) => Err(RuntimeError::FloatUnsupported),
            _ => Err(RuntimeError::InvalidOperands { op }),
        },
        BinaryOp::Lt => match (lv, rv) {
            (IsiValue::Int(l), IsiValue::Int(r)) => Ok(IsiValue::Bool(l < r)),
            (IsiValue::Float(_), IsiValue::Float(_)) => Err(RuntimeError::FloatUnsupported),
            _ => Err(RuntimeError::InvalidOperands { op }),
        },
        BinaryOp::Geq => match (lv, rv) {
            (IsiValue::Int(l), IsiValue::Int(r)) => Ok(IsiValue::Bool(l >= r)),
            (IsiValue::Float(_), IsiValue::Float(_)) => Err(RuntimeError::FloatUnsupported),
            _ => Err(RuntimeError::InvalidOperands { op }),
        },
        BinaryOp::Leq => match (lv, rv) {
            (IsiValue::Int(l), IsiValue::Int(r)) => Ok(IsiValue::Bool(l <= r)),
            (IsiValue::Float(_), IsiValue::Float(_)) => Err(RuntimeError::FloatUnsupported),
            _ => Err(RuntimeError::InvalidOperands { op }),
        },
        BinaryOp::Eq => match (lv, rv) {
            (IsiValue::Int(l), IsiValue::Int(r)) => Ok(IsiValue::Bool(l == r)),
            (IsiValue::Float(_), IsiValue::Float(_)) => Err(RuntimeError::FloatUnsupported),
            _ => Err(RuntimeError::InvalidOperands { op }),
        },
        BinaryOp::Neq => match (lv, rv) {
            (IsiValue::Int(l), IsiValue::Int(r)) => Ok(IsiValue::Bool(l != r)),
            (IsiValue::Float(_), IsiValue::Float(_)) => Err(RuntimeError::FloatUnsupported),
            _ => Err(RuntimeError::InvalidOperands { op }),
        },
        BinaryOp::And => match (lv, rv) {
            (IsiValue::Bool(l), IsiValue::Bool(r)) => Ok(IsiValue::Bool(l && r)),
            _ => Err(RuntimeError::InvalidOperands { op }),
        },
        BinaryOp::Or => match (lv, rv) {
            (IsiValue::Bool(l), IsiValue::Bool(r)) => Ok(IsiValue::Bool(l || r)),
            _ => Err(RuntimeError::InvalidOperands { op }),
        },
    }
}

/// Parses an unsigned decimal, optionally `+`-signed, spanning the whole
/// slice.
fn exec_parse_u64(t: &[u8]) -> (r: Option<u64>)
    ensures
        r == parse_u64(t@),
{
    let s0: usize = if t.len() > 0 && t[0] == 43 {
        1
    } else {
        0
    };
    let j = crate::parser::scan_digits(t, s0);
    if t.len() == s0 || j != t.len() {
        return None;
    }
    proof {
        crate::parser::lemma_digits_end_chars(t@, s0 as int);
    }
    let mut k: usize = s0;
    let mut acc: u64 = 0;
    while k < t.len()
        invariant
            s0 <= k <= t@.len(),
            s0 as int == (if t@.len() > 0 && t@[0] == 43 { 1int } else { 0int }),
            digits_end(t@, s0 as int) == t@.len(),
            acc == digits_val(t@, s0 as int, k as int),
            forall|m: int| s0 <= m < t@.len() ==> is_digit(#[trigger] t@[m]),
        decreases t@.len() - k,
    {
        let d: u64 = (t[k] - 48) as u64;
        let acc10 = match acc.checked_mul(10) {
            Some(x) => x,
            None => {
                proof {
                    assert(digits_val(t@, s0 as int, k + 1) == acc * 10 + (t@[k as int] - 48));
                    crate::parser::lemma_digits_val_mono(t@, s0 as int, k + 1, t@.len() as int);
                }
                return None;
            },
        };
        let acc2 = match acc10.checked_add(d) {
            Some(x) => x,
            None => {
                proof {
                    assert(digits_val(t@, s0 as int, k + 1) == acc * 10 + (t@[k as int] - 48));
                    crate::parser::lemma_digits_val_mono(t@, s0 as int, k + 1, t@.len() as int);
                }
                return None;
            },
        };
        proof {
            assert(digits_val(t@, s0 as int, k + 1) == acc * 10 + (t@[k as int] - 48));
        }
        acc = acc2;
        k = k + 1;
    }
    Some(acc)
}

/// Parses a decimal float, `digits` or `digits.digits`, spanning the whole
/// slice.
fn exec_parse_float(t: &[u8]) -> (r: Option<FloatVal>)
    ensures
        match r {
            Some(f) => parse_float(t@) == Some((f.int_part@, f.frac_part@)),
            None => parse_float(t@) is None,
        },
{
    let j = crate::parser::scan_digits(t, 0);
    if t.len() == 0 || j == 0 {
        return None;
    }
    if j == t.len() {
        let mut zero: Vec<u8> = Vec::new();
        zero.push(48);
        proof {
            assert(zero@ =~= seq![48u8]);
        }
        return Some(
            FloatVal { int_part: crate::ast::copy_bytes(t), frac_part: zero },
        );
    }
    if t[j] == 46 && t.len() > j + 1 {
        let k = crate::parser::scan_digits(t, j + 1);
        if k == t.len() {
            let ip = crate::ast::copy_bytes(slice_part(t, 0, j));
            let fp = crate::ast::copy_bytes(slice_part(t, j + 1, t.len()));
            return Some(FloatVal { int_part: ip, frac_part: fp });
        }
    }
    None
}

fn slice_part(s: &[u8], i: usize, j: usize) -> (r: &[u8])
    requires
        i <= j <= s@.len(),
    ensures
        r@ == s@.subrange(i as int, j as int),
{
    &s[i..j]
}

/// Trims the whitespace a read line carries at both ends.
fn exec_trim(line: &[u8]) -> (r: &[u8])
    ensures
        r@ == trim(line@),
{
    let mut a: usize = 0;
    while a < line.len() && (line[a] == 32 || (9 <= line[a] && line[a] <= 13))
        invariant
            0 <= a <= line@.len(),
            ltrim_end(line@, 0) == ltrim_end(line@, a as int),
        decreases line@.len() - a,
    {
        a = a + 1;
    }
    let mut b: usize = line.len();
    while b > 0 && (line[b - 1] == 32 || (9 <= line[b - 1] && line[b - 1] <= 13))
        invariant
            0 <= b <= line@.len(),
            rtrim_start(line@, line@.len() as int) == rtrim_start(line@, b as int),
        decreases b,
    {
        b = b - 1;
    }
    if a <= b {
        slice_part(line, a, b)
    } else {
        let r = slice_part(line, 0, 0);
        proof {
            assert(r@ =~= trim(line@));
        }
        r
    }
}

/// What one line means for a variable of the given type.
fn exec_read_value(ty: IsiType, line: &[u8]) -> (r: Result<IsiValue, RuntimeError>)
    ensures
        rt_res_view(r) == read_value(ty, line@),
{
    let t = exec_trim(line);
    match ty {
        IsiType::Int => match exec_parse_u64(t) {
            Some(n) => Ok(IsiValue::Int(n)),
            None => Err(RuntimeError::BadInput),
        },
        IsiType::Float => match exec_parse_float(t) {
            Some(f) => Ok(IsiValue::Float(f)),
            None => Err(RuntimeError::BadInput),
        },
        IsiType::String => Ok(IsiValue::String(crate::ast::copy_bytes(t))),
        IsiType::Bool => {
            let tr: [u8; 4] = [116, 114, 117, 101];
            let fa: [u8; 5] = [102, 97, 108, 115, 101];
            proof {
                assert(tr@ =~= true_bytes());
                assert(fa@ =~= false_bytes());
            }
            if bytes_eq(t, tr.as_slice()) {
                Ok(IsiValue::Bool(true))
            } else if bytes_eq(t, fa.as_slice()) {
                Ok(IsiValue::Bool(false))
            } else {
                Err(RuntimeError::BadInput)
            }
        },
        IsiType::Unit => Ok(IsiValue::Unit),
    }
}

/// The interpreter: variable values and types, the input lines, the output
/// bytes, and the step budget for loops.
pub struct IsiInterpreter {
    sym_table: NameMap<IsiValue>,
    sym_types: NameMap<IsiType>,
    input: Vec<Vec<u8>>,
    in_pos: usize,
    output: Vec<u8>,
    fuel: u64,
}

impl IsiInterpreter {
    /// The tables are sound and the input cursor is in range.
    pub closed spec fn wf(&self) -> bool {
        self.sym_table.wf() && self.sym_types.wf() && self.in_pos <= self.input@.len()
    }

    /// The whole state as its mathematical model.
    pub closed spec fn state(&self) -> InterpState {
        InterpState {
            values: self.sym_table@,
            types: self.sym_types@,
            input: lines_view(self.input@).skip(self.in_pos as int),
            output: self.output@,
            fuel: self.fuel as nat,
        }
    }

    /// A fresh interpreter over the given input lines, with a step budget
    /// for loops.
    pub fn new(input: Vec<Vec<u8>>, fuel: u64) -> (r: IsiInterpreter)
        ensures
            r.wf(),
            r.state() == init_state(lines_view(input@), fuel as nat),
    {
        let r = IsiInterpreter {
            sym_table: NameMap::new(),
            sym_types: NameMap::new(),
            input,
            in_pos: 0,
            output: Vec::new(),
            fuel,
        };
        proof {
            assert(lines_view(r.input@).skip(0) =~= lines_view(r.input@));
            assert(r.state() == init_state(lines_view(r.input@), fuel as nat));
        }
        r
    }

    /// Everything written so far.
    pub fn output(&self) -> (r: &Vec<u8>)
        ensures
            r@ == self.state().output,
    {
        &self.output
    }

    pub fn visit_ident(&mut self, id: &Ident) -> (r: Result<IsiValue, RuntimeError>)
        requires
            old(self).wf(),
        ensures
            final(self).wf(),
            (final(self).state(), rt_res_view(r)) == ev_expr(
                old(self).state(),
                ExprV::Ident(id@),
            ),
    {
        match self.sym_table.get(id.name.as_slice()) {
            Some(v) => Ok(dup_value(v)),
            None => Err(
                RuntimeError::NoValue { name: crate::ast::copy_bytes(id.name.as_slice()) },
            ),
        }
    }

    pub fn visit_bin_expr(&mut self, bexpr: &BinExpr) -> (r: Result<IsiValue, RuntimeError>)
        requires
            old(self).wf(),
        ensures
            final(self).wf(),
            (final(self).state(), rt_res_view(r)) == ev_expr(
                old(self).state(),
                expr_view(Expr::BinExpr(*bexpr)),
            ),
        decreases *bexpr, 0int,
    {
        let lv = match self.visit_expr(&bexpr.1) {
            Ok(v) => v,
            Err(e) => {
                return Err(e);
            },
        };
        let rv = match self.visit_expr(&bexpr.2) {
            Ok(v) => v,
            Err(e) => {
                return Err(e);
            },
        };
        exec_binop(bexpr.0, lv, rv)
    }

    pub fn visit_negation(&mut self, neg: &Negation) -> (r: Result<IsiValue, RuntimeError>)
        requires
            old(self).wf(),
        ensures
            final(self).wf(),
            (final(self).state(), rt_res_view(r)) == ev_expr(
                old(self).state(),
                expr_view(Expr::Negation(*neg)),
            ),
        decreases *neg, 0int,
    {
        match self.visit_expr(&neg.expr) {
            Err(e) => Err(e),
            Ok(IsiValue::Bool(b)) => Ok(IsiValue::Bool(!b)),
            Ok(_) => Err(RuntimeError::NonBoolNegation),
        }
    }

    pub fn visit_expr(&mut self, expr: &Expr) -> (r: Result<IsiValue, RuntimeError>)
        requires
            old(self).wf(),
        ensures
            final(self).wf(),
            (final(self).state(), rt_res_view(r)) == ev_expr(old(self).state(), expr_view(*expr)),
        decreases *expr, 1int,
    {
        match expr {
            Expr::Ident(id) => self.visit_ident(id),
            Expr::ImmInt(imm) => Ok(IsiValue::Int(imm.0)),
            Expr::ImmFloat(imm) => Ok(
                IsiValue::Float(
                    FloatVal {
                        int_part: crate::ast::copy_bytes(imm.int_part.as_slice()),
                        frac_part: crate::ast::copy_bytes(imm.frac_part.as_slice()),
                    },
                ),
            ),
            Expr::ImmString(imm) => Ok(IsiValue::String(crate::ast::copy_bytes(imm.0.as_slice()))),
            Expr::BinExpr(bexp) => self.visit_bin_expr(bexp),
            Expr::FnCall(call) => self.visit_fn_call(call),
            Expr::Negation(neg) => self.visit_negation(neg),
        }
    }

    /// Appends a printed value and a newline to the output.
    fn write_value(&mut self, v: &IsiValue)
        ensures
            final(self).state() == (InterpState {
                output: old(self).state().output + fmt_value(v@) + seq![10u8],
                ..old(self).state()
            }),
            final(self).wf() == old(self).wf(),
    {
        let ghost o0 = self.output@;
        match v {
            IsiValue::Int(n) => {
                crate::cemitter::push_dec(&mut self.output, *n);
            },
            IsiValue::Float(f) => {
                crate::cemitter::push_bytes(&mut self.output, f.int_part.as_slice());
                self.output.push(46);
                crate::cemitter::push_bytes(&mut self.output, f.frac_part.as_slice());
            },
            IsiValue::String(s) => {
                crate::cemitter::push_bytes(&mut self.output, s.as_slice());
            },
            IsiValue::Bool(b) => {
                if *b {
                    let tr: [u8; 4] = [116, 114, 117, 101];
                    proof {
                        assert(tr@ =~= true_bytes());
                    }
                    crate::cemitter::push_bytes(&mut self.output, tr.as_slice());
                } else {
                    let fa: [u8; 5] = [102, 97, 108, 115, 101];
                    proof {
                        assert(fa@ =~= false_bytes());
                    }
                    crate::cemitter::push_bytes(&mut self.output, fa.as_slice());
                }
            },
            IsiValue::Unit => {},
        }
        self.output.push(10);
        proof {
            assert(self.output@ =~= o0 + fmt_value(v@) + seq![10u8]);
            assert(final(self).state() == InterpState {
                output: old(self).state().output + fmt_value(v@) + seq![10u8],
                ..old(self).state()
            });
        }
    }

    pub fn visit_fn_call(&mut self, call: &FnCall) -> (r: Result<IsiValue, RuntimeError>)
        requires
            old(self).wf(),
        ensures
            final(self).wf(),
            (final(self).state(), rt_res_view(r)) == ev_call(
                old(self).state(),
                crate::ast::fn_call_view(*call),
            ),
        decreases *call, 2int,
    {
        let ghost cv = crate::ast::fn_call_view(*call);
        proof {
            lemma_exprs_view_len(call.args@);
        }
        let escreva: [u8; 7] = [101, 115, 99, 114, 101, 118, 97];
        let leia: [u8; 4] = [108, 101, 105, 97];
        proof {
            assert(escreva@ =~= escreva_name());
            assert(leia@ =~= leia_name());
        }
        if bytes_eq(call.fname.name.as_slice(), escreva.as_slice()) {
            if call.args.len() == 0 {
                return Err(RuntimeError::MissingArgument);
            }
            proof {
                assert(cv.args[0] == expr_view(call.args@[0]));
            }
            let v = match self.visit_expr(&call.args[0]) {
                Ok(v) => v,
                Err(e) => {
                    return Err(e);
                },
            };
            self.write_value(&v);
            Ok(IsiValue::Unit)
        } else if bytes_eq(call.fname.name.as_slice(), leia.as_slice()) {
            if call.args.len() == 0 {
                return Err(RuntimeError::MissingArgument);
            }
            if self.in_pos >= self.input.len() {
                proof {
                    assert(old(self).state().input.len() == 0);
                }
                return Err(RuntimeError::NoInput);
            }
            let ghost st0 = self.state();
            let line_idx = self.in_pos;
            self.in_pos = self.in_pos + 1;
            proof {
                assert(self.state().input =~= st0.input.drop_first());
                assert(st0.input[0] == self.input@[line_idx as int]@);
                assert(cv.args[0] == expr_view(call.args@[0]));
            }
            match &call.args[0] {
                Expr::Ident(id) => {
                    let ty = match self.sym_types.get(id.name.as_slice()) {
                        Some(t) => *t,
                        None => {
                            return Err(
                                RuntimeError::NoValue {
                                    name: crate::ast::copy_bytes(id.name.as_slice()),
                                },
                            );
                        },
                    };
                    match exec_read_value(ty, self.input[line_idx].as_slice()) {
                        Ok(v) => {
                            self.sym_table.insert(
                                crate::ast::copy_bytes(id.name.as_slice()),
                                v,
                            );
                            Ok(IsiValue::Unit)
                        },
                        Err(e) => Err(e),
                    }
                },
                _ => Ok(IsiValue::Unit),
            }
        } else {
            Err(
                RuntimeError::UnknownFunction {
                    name: crate::ast::copy_bytes(call.fname.name.as_slice()),
                },
            )
        }
    }

    pub fn visit_decl(&mut self, decl: &VarDecl) -> (r: Result<(), RuntimeError>)
        requires
            old(self).wf(),
        ensures
            final(self).wf(),
            (final(self).state(), rt_unit_view(r)) == ev_decl(old(self).state(), decl@),
    {
        let tyname = decl.var_type.name.as_slice();
        let int_name: [u8; 3] = [105, 110, 116];
        let float_name: [u8; 5] = [102, 108, 111, 97, 116];
        let string_name: [u8; 6] = [115, 116, 114, 105, 110, 103];
        let bool_name: [u8; 4] = [98, 111, 111, 108];
        proof {
            assert(int_name@ =~= ty_name_int());
            assert(float_name@ =~= ty_name_float());
            assert(string_name@ =~= ty_name_string());
            assert(bool_name@ =~= ty_name_bool());
        }
        let ty = if bytes_eq(tyname, int_name.as_slice()) {
            IsiType::Int
        } else if bytes_eq(tyname, float_name.as_slice()) {
            IsiType::Float
        } else if bytes_eq(tyname, string_name.as_slice()) {
            IsiType::String
        } else if bytes_eq(tyname, bool_name.as_slice()) {
            IsiType::Bool
        } else {
            return Err(
                RuntimeError::UnknownType {
                    name: crate::ast::copy_bytes(decl.var_type.name.as_slice()),
                },
            );
        };
        self.sym_types.insert(crate::ast::copy_bytes(decl.var_name.name.as_slice()), ty);
        Ok(())
    }

    pub fn visit_multi_decl(&mut self, decls: &MultiVarDecl) -> (r: Result<(), RuntimeError>)
        requires
            old(self).wf(),
        ensures
            final(self).wf(),
            (final(self).state(), rt_unit_view(r)) == ev_decls(
                old(self).state(),
                var_decls_view(decls.0@),
                0,
            ),
    {
        let ghost st0 = self.state();
        let ghost dsv = var_decls_view(decls.0@);
        let mut i: usize = 0;
        while i < decls.0.len()
            invariant
                0 <= i <= decls.0@.len(),
                self.wf(),
                st0 == old(self).state(),
                dsv == var_decls_view(decls.0@),
                dsv.len() == decls.0@.len(),
                ev_decls(st0, dsv, 0) == ev_decls(self.state(), dsv, i as int),
            decreases decls.0@.len() - i,
        {
            proof {
                assert(dsv[i as int] == crate::ast::var_decl_view(decls.0@[i as int]));
            }
            let ghost st_pre = self.state();
            match self.visit_decl(&decls.0[i]) {
                Err(e) => {
                    proof {
                        assert(ev_decls(st_pre, dsv, i as int) == (
                            self.state(),
                            Err::<(), RtErrV>(e@),
                        ));
                    }
                    return Err(e);
                },
                Ok(_) => {},
            }
            i = i + 1;
        }
        Ok(())
    }

    pub fn visit_assignment(&mut self, assignment: &Assignment) -> (r: Result<(), RuntimeError>)
        requires
            old(self).wf(),
        ensures
            final(self).wf(),
            (final(self).state(), rt_unit_view(r)) == ev_stmt(
                old(self).state(),
                crate::ast::stmt_view(Statement::Assignment(*assignment)),
            ),
        decreases *assignment,
    {
        let v = match self.visit_expr(&assignment.val) {
            Ok(v) => v,
            Err(e) => {
                return Err(e);
            },
        };
        self.sym_table.insert(crate::ast::copy_bytes(assignment.ident.name.as_slice()), v);
        Ok(())
    }

    /// Runs the statements of a block in order, stopping at the first error.
    fn run_block(&mut self, body: &Vec<Statement>) -> (r: Result<(), RuntimeError>)
        requires
            old(self).wf(),
        ensures
            final(self).wf(),
            (final(self).state(), rt_unit_view(r)) == ev_stmts(
                old(self).state(),
                stmts_view(body@),
                0,
            ),
        decreases old(self).state().fuel, *body, 0int,
    {
        let ghost st0 = self.state();
        let ghost bv = stmts_view(body@);
        proof {
            lemma_stmts_view_len(body@);
        }
        let mut i: usize = 0;
        while i < body.len()
            invariant
                0 <= i <= body@.len(),
                self.wf(),
                bv == stmts_view(body@),
                bv.len() == body@.len(),
                forall|m: int| 0 <= m < body@.len() ==> bv[m] == crate::ast::stmt_view(body@[m]),
                st0 == old(self).state(),
                self.state().fuel <= st0.fuel,
                ev_stmts(st0, bv, 0) == ev_stmts(self.state(), bv, i as int),
            decreases body@.len() - i,
        {
            let ghost st_pre = self.state();
            match self.visit_statement(&body[i]) {
                Err(e) => {
                    proof {
                        assert(ev_stmts(st_pre, bv, i as int) == (
                            self.state(),
                            Err::<(), RtErrV>(e@),
                        ));
                    }
                    return Err(e);
                },
                Ok(_) => {
                    proof {
                        lemma_ev_fuel(st_pre, bv[i as int]);
                        assert(self.state().fuel <= st_pre.fuel);
                    }
                },
            }
            i = i + 1;
        }
        Ok(())
    }

    pub fn visit_conditional(&mut self, conditional: &Conditional) -> (r: Result<
        (),
        RuntimeError,
    >)
        requires
            old(self).wf(),
        ensures
            final(self).wf(),
            (final(self).state(), rt_unit_view(r)) == ev_stmt(
                old(self).state(),
                crate::ast::stmt_view(Statement::Conditional(*conditional)),
            ),
        decreases old(self).state().fuel, *conditional, 3int,
    {
        let ghost st0 = self.state();
        let v = match self.visit_expr(&conditional.cond) {
            Ok(v) => v,
            Err(e) => {
                return Err(e);
            },
        };
        proof {
            lemma_ev_expr_fuel(st0, expr_view(conditional.cond));
        }
        let take_it = match &v {
            IsiValue::Bool(b) => *b,
            _ => false,
        };
        if take_it {
            self.run_block(&conditional.taken)
        } else {
            self.run_block(&conditional.not_taken)
        }
    }

    pub fn visit_while_loop(&mut self, while_loop: &WhileLoop) -> (r: Result<(), RuntimeError>)
        requires
            old(self).wf(),
        ensures
            final(self).wf(),
            (final(self).state(), rt_unit_view(r)) == ev_stmt(
                old(self).state(),
                crate::ast::stmt_view(Statement::WhileLoop(*while_loop)),
            ),
        decreases old(self).state().fuel, *while_loop, 3int,
    {
        let ghost sv = crate::ast::stmt_view(Statement::WhileLoop(*while_loop));
        let ghost st0 = self.state();
        loop
            invariant
                self.wf(),
                sv == crate::ast::stmt_view(Statement::WhileLoop(*while_loop)),
                sv is WhileLoop,
                sv->WhileLoop_0.cond == expr_view(while_loop.cond),
                sv->WhileLoop_0.body == stmts_view(while_loop.body@),
                self.state().fuel <= old(self).fuel,
                ev_stmt(st0, sv) == ev_stmt(self.state(), sv),
                st0 == old(self).state(),
            decreases self.fuel,
        {
            let ghost st_iter = self.state();
            let v = match self.visit_expr(&while_loop.cond) {
                Ok(v) => v,
                Err(e) => {
                    return Err(e);
                },
            };
            proof {
                lemma_ev_expr_fuel(st_iter, expr_view(while_loop.cond));
            }
            let go = match &v {
                IsiValue::Bool(b) => *b,
                _ => false,
            };
            if !go {
                return Ok(());
            }
            let ghost st_cond = self.state();
            match self.run_block(&while_loop.body) {
                Err(e) => {
                    return Err(e);
                },
                Ok(_) => {},
            }
            proof {
                lemma_ev_stmts_fuel(st_cond, stmts_view(while_loop.body@), 0);
            }
            if self.fuel == 0 {
                return Err(RuntimeError::OutOfFuel);
            }
            self.fuel = self.fuel - 1;
            proof {
                assert(self.state() == InterpState {
                    fuel: (ev_stmts(st_cond, sv->WhileLoop_0.body, 0).0.fuel - 1) as nat,
                    ..ev_stmts(st_cond, sv->WhileLoop_0.body, 0).0
                });
            }
        }
    }

    pub fn visit_do_while_loop(&mut self, do_while_loop: &DoWhileLoop) -> (r: Result<
        (),
        RuntimeError,
    >)
        requires
            old(self).wf(),
        ensures
            final(self).wf(),
            (final(self).state(), rt_unit_view(r)) == ev_stmt(
                old(self).state(),
                crate::ast::stmt_view(Statement::DoWhileLoop(*do_while_loop)),
            ),
        decreases old(self).state().fuel, *do_while_loop, 3int,
    {
        let ghost sv = crate::ast::stmt_view(Statement::DoWhileLoop(*do_while_loop));
        let ghost st0 = self.state();
        loop
            invariant
                self.wf(),
                sv == crate::ast::stmt_view(Statement::DoWhileLoop(*do_while_loop)),
                sv is DoWhileLoop,
                sv->DoWhileLoop_0.cond == expr_view(do_while_loop.cond),
                sv->DoWhileLoop_0.body == stmts_view(do_while_loop.body@),
                self.state().fuel <= old(self).fuel,
                ev_stmt(st0, sv) == ev_stmt(self.state(), sv),
                st0 == old(self).state(),
            decreases self.fuel,
        {
            let ghost st_iter = self.state();
            match self.run_block(&do_while_loop.body) {
                Err(e) => {
                    return Err(e);
                },
                Ok(_) => {},
            }
            proof {
                lemma_ev_stmts_fuel(st_iter, stmts_view(do_while_loop.body@), 0);
            }
            let ghost st_body = self.state();
            let v = match self.visit_expr(&do_while_loop.cond) {
                Ok(v) => v,
                Err(e) => {
                    return Err(e);
                },
            };
            proof {
                lemma_ev_expr_fuel(st_body, expr_view(do_while_loop.cond));
            }
            let go = match &v {
                IsiValue::Bool(b) => *b,
                _ => false,
            };
            if !go {
                return Ok(());
            }
            if self.fuel == 0 {
                return Err(RuntimeError::OutOfFuel);
            }
            self.fuel = self.fuel - 1;
        }
    }

    pub fn visit_statement(&mut self, stmt: &Statement) -> (r: Result<(), RuntimeError>)
        requires
            old(self).wf(),
        ensures
            final(self).wf(),
            (final(self).state(), rt_unit_view(r)) == ev_stmt(
                old(self).state(),
                crate::ast::stmt_view(*stmt),
            ),
        decreases old(self).state().fuel, *stmt, 4int,
    {
        match stmt {
            Statement::Decl(mdecl) => {
                let r = self.visit_multi_decl(mdecl);
                r
            },
            Statement::FnCall(call) => {
                match self.visit_fn_call(call) {
                    Ok(_) => Ok(()),
                    Err(e) => Err(e),
                }
            },
            Statement::Assignment(ass) => self.visit_assignment(ass),
            Statement::Conditional(cond) => self.visit_conditional(cond),
            Statement::WhileLoop(l) => self.visit_while_loop(l),
            Statement::DoWhileLoop(l) => self.visit_do_while_loop(l),
        }
    }

    /// Runs the whole program against the interpreter's input, stopping at
    /// the first runtime error or when the step budget runs out.
    pub fn exec(&mut self, program: &IsiProgram) -> (r: Result<(), RuntimeError>)
        requires
            old(self).wf(),
        ensures
            final(self).wf(),
            (final(self).state(), rt_unit_view(r)) == ev_stmts(
                old(self).state(),
                stmts_view(program.statements@),
                0,
            ),
    {
        self.run_block(&program.statements)
    }
}

} // verus!
