//! The C emitter: from a validated syntax tree and the type checker's symbol
//! table to a self-contained C translation unit. The translation is a
//! specification function down to the exact bytes, and the emitter is proved
//! to produce them.

use vstd::prelude::*;

use crate::ast::{
    Assignment, BinExpr, BinaryOp, Conditional, DoWhileLoop, Expr, ExprV, FloatLiteral, FnCall,
    FnCallV, Ident, IntLiteral, IsiProgram, IsiProgramV, MultiVarDecl, Negation, Statement,
    StatementV, StringLiteral, VarDecl, VarDeclV, WhileLoop, expr_view, lemma_exprs_view_len,
    lemma_stmts_view_len, stmts_view, var_decls_view,
};
use crate::typeck::TcMap;
use crate::types::{IsiType, NameMap, SymbolInfo, bytes_eq};
use crate::usageck::leia_name;

verus! {

// ---------------------------------------------------------------------------
// The exact bytes of every fixed fragment of the emitted C.
// ---------------------------------------------------------------------------

pub open spec fn header_bytes() -> Seq<u8> {
    seq![47u8, 42u8, 32u8, 33u8, 33u8, 33u8, 32u8, 97u8, 117u8, 116u8, 111u8, 45u8, 103u8, 101u8, 114u8, 97u8, 100u8, 111u8, 32u8, 112u8, 111u8, 114u8, 32u8, 105u8, 115u8, 105u8, 99u8, 45u8, 98u8, 97u8, 99u8, 107u8, 32u8, 33u8, 33u8, 33u8, 32u8, 42u8, 47u8, 10u8, 35u8, 105u8, 110u8, 99u8, 108u8, 117u8, 100u8, 101u8, 32u8, 60u8, 115u8, 116u8, 100u8, 105u8, 111u8, 46u8, 104u8, 62u8, 10u8, 35u8, 105u8, 110u8, 99u8, 108u8, 117u8, 100u8, 101u8, 32u8, 60u8, 115u8, 116u8, 100u8, 108u8, 105u8, 98u8, 46u8, 104u8, 62u8, 10u8, 10u8, 105u8, 110u8, 116u8, 32u8, 109u8, 97u8, 105u8, 110u8, 40u8, 41u8, 32u8, 123u8, 10u8]
}

pub open spec fn footer_bytes() -> Seq<u8> {
    seq![125u8, 10u8]
}

pub open spec fn kw_int_ty_bytes() -> Seq<u8> {
    seq![105u8, 110u8, 116u8, 32u8]
}

pub open spec fn kw_float_ty_bytes() -> Seq<u8> {
    seq![102u8, 108u8, 111u8, 97u8, 116u8, 32u8]
}

pub open spec fn kw_string_ty_bytes() -> Seq<u8> {
    seq![99u8, 104u8, 97u8, 114u8, 42u8, 32u8]
}

pub open spec fn semi_nl_bytes() -> Seq<u8> {
    seq![59u8, 10u8]
}

pub open spec fn eq_sign_bytes() -> Seq<u8> {
    seq![32u8, 61u8, 32u8]
}

pub open spec fn printf_d_bytes() -> Seq<u8> {
    seq![112u8, 114u8, 105u8, 110u8, 116u8, 102u8, 40u8, 34u8, 37u8, 100u8, 92u8, 110u8, 34u8, 44u8, 32u8]
}

pub open spec fn printf_f_bytes() -> Seq<u8> {
    seq![112u8, 114u8, 105u8, 110u8, 116u8, 102u8, 40u8, 34u8, 37u8, 102u8, 92u8, 110u8, 34u8, 44u8, 32u8]
}

pub open spec fn printf_s_bytes() -> Seq<u8> {
    seq![112u8, 114u8, 105u8, 110u8, 116u8, 102u8, 40u8, 34u8, 37u8, 115u8, 92u8, 110u8, 34u8, 44u8, 32u8]
}

pub open spec fn printf_open_bytes() -> Seq<u8> {
    seq![112u8, 114u8, 105u8, 110u8, 116u8, 102u8, 40u8, 34u8]
}

pub open spec fn printf_str_close_bytes() -> Seq<u8> {
    seq![92u8, 110u8, 34u8, 41u8, 59u8, 10u8]
}

pub open spec fn close_call_bytes() -> Seq<u8> {
    seq![41u8, 59u8, 10u8]
}

pub open spec fn scanf_d_bytes() -> Seq<u8> {
    seq![115u8, 99u8, 97u8, 110u8, 102u8, 40u8, 34u8, 37u8, 100u8, 34u8, 44u8, 32u8, 38u8]
}

pub open spec fn scanf_f_bytes() -> Seq<u8> {
    seq![115u8, 99u8, 97u8, 110u8, 102u8, 40u8, 34u8, 37u8, 102u8, 34u8, 44u8, 32u8, 38u8]
}

pub open spec fn scanf_s_bytes() -> Seq<u8> {
    seq![115u8, 99u8, 97u8, 110u8, 102u8, 40u8, 34u8, 37u8, 115u8, 34u8, 44u8, 32u8, 38u8]
}

pub open spec fn if_open_bytes() -> Seq<u8> {
    seq![105u8, 102u8, 32u8, 40u8]
}

pub open spec fn block_open_bytes() -> Seq<u8> {
    seq![41u8, 32u8, 123u8, 10u8]
}

pub open spec fn close_brace_bytes() -> Seq<u8> {
    seq![125u8, 10u8]
}

pub open spec fn else_open_bytes() -> Seq<u8> {
    seq![101u8, 108u8, 115u8, 101u8, 32u8, 123u8, 10u8]
}

pub open spec fn while_open_bytes() -> Seq<u8> {
    seq![119u8, 104u8, 105u8, 108u8, 101u8, 32u8, 40u8]
}

pub open spec fn do_open_bytes() -> Seq<u8> {
    seq![100u8, 111u8, 32u8, 123u8, 10u8]
}

pub open spec fn do_close_bytes() -> Seq<u8> {
    seq![125u8, 32u8, 119u8, 104u8, 105u8, 108u8, 101u8, 32u8, 40u8]
}

pub open spec fn neg_open_bytes() -> Seq<u8> {
    seq![33u8, 40u8]
}

pub open spec fn stub_line_bytes() -> Seq<u8> {
    seq![47u8, 42u8, 32u8, 110u8, 111u8, 116u8, 32u8, 121u8, 101u8, 116u8, 32u8, 115u8, 117u8, 112u8, 112u8, 111u8, 114u8, 116u8, 101u8, 100u8, 32u8, 42u8, 47u8, 10u8]
}

pub open spec fn escreva_bytes() -> Seq<u8> {
    seq![101u8, 115u8, 99u8, 114u8, 101u8, 118u8, 97u8]
}

/// The C spelling of a binary operator, with its surrounding spaces.
pub open spec fn op_bytes(op: BinaryOp) -> Seq<u8> {
    match op {
        BinaryOp::Add => seq![32u8, 43u8, 32u8],
        BinaryOp::Sub => seq![32u8, 45u8, 32u8],
        BinaryOp::Mul => seq![32u8, 42u8, 32u8],
        BinaryOp::Div => seq![32u8, 47u8, 32u8],
        BinaryOp::Mod => seq![32u8, 37u8, 32u8],
        BinaryOp::Gt => seq![32u8, 62u8, 32u8],
        BinaryOp::Lt => seq![32u8, 60u8, 32u8],
        BinaryOp::Geq => seq![32u8, 62u8, 61u8, 32u8],
        BinaryOp::Leq => seq![32u8, 60u8, 61u8, 32u8],
        BinaryOp::Eq => seq![32u8, 61u8, 61u8, 32u8],
        BinaryOp::Neq => seq![32u8, 33u8, 61u8, 32u8],
        BinaryOp::And => seq![32u8, 38u8, 38u8, 32u8],
        BinaryOp::Or => seq![32u8, 124u8, 124u8, 32u8],
    }
}
// ---------------------------------------------------------------------------
// The translation, as a function from a validated syntax tree and symbol
// table to the bytes of a C translation unit. Forms with no C lowering (a
// call as an expression, a call argument that is not a scalar, a name the
// table does not know) come out as a fixed stub rather than tearing the
// emitter down.
// ---------------------------------------------------------------------------

/// `n` spaces.
pub open spec fn spaces(n: nat) -> Seq<u8>
    decreases n,
{
    if n == 0 {
        Seq::empty()
    } else {
        spaces((n - 1) as nat).push(32u8)
    }
}

/// The decimal digits of `n`.
pub open spec fn dec_digits(n: nat) -> Seq<u8>
    decreases n,
{
    if n < 10 {
        seq![(48 + n) as u8]
    } else {
        dec_digits(n / 10).push((48 + n % 10) as u8)
    }
}

/// One indentation step deeper; the counter saturates at the machine limit.
pub open spec fn bump_pad(pad: nat) -> nat {
    if pad + 4 <= usize::MAX {
        (pad + 4) as nat
    } else {
        pad
    }
}

/// The C text of an expression. Every binary expression is parenthesized; a
/// call in expression position has no C translation and becomes `0`.
pub open spec fn emit_expr(e: ExprV) -> Seq<u8>
    decreases e,
{
    match e {
        ExprV::Ident(id) => id.name,
        ExprV::ImmInt(n, _) => dec_digits(n as nat),
        ExprV::ImmFloat(f) => f.int_part + seq![46u8] + f.frac_part + seq![102u8],
        ExprV::ImmString(t, _) => t,
        ExprV::BinExpr(op, l, r) => seq![40u8] + emit_expr(*l) + op_bytes(op) + emit_expr(*r)
            + seq![41u8],
        ExprV::FnCall(_) => seq![48u8],
        ExprV::Negation(n) => neg_open_bytes() + emit_expr(*n.expr) + seq![41u8],
    }
}

/// The `printf` line for one `escreva` argument.
pub open spec fn emit_print(c: FnCallV, st: TcMap, pad: nat) -> Seq<u8> {
    if c.args.len() == 0 {
        spaces(pad) + stub_line_bytes()
    } else {
        match c.args[0] {
            ExprV::Ident(id) => {
                if st.dom().contains(id.name) && st[id.name].ty == IsiType::Int {
                    spaces(pad) + printf_d_bytes() + id.name + close_call_bytes()
                } else if st.dom().contains(id.name) && st[id.name].ty == IsiType::Float {
                    spaces(pad) + printf_f_bytes() + id.name + close_call_bytes()
                } else if st.dom().contains(id.name) && st[id.name].ty == IsiType::String {
                    spaces(pad) + printf_s_bytes() + id.name + close_call_bytes()
                } else {
                    spaces(pad) + stub_line_bytes()
                }
            },
            ExprV::ImmInt(n, _) => spaces(pad) + printf_d_bytes() + dec_digits(n as nat)
                + close_call_bytes(),
            ExprV::ImmFloat(f) => spaces(pad) + printf_f_bytes() + f.int_part + seq![46u8]
                + f.frac_part + close_call_bytes(),
            ExprV::ImmString(t, _) => spaces(pad) + printf_open_bytes() + t
                + printf_str_close_bytes(),
            _ => spaces(pad) + stub_line_bytes(),
        }
    }
}

/// The `scanf` line for one `leia` argument.
pub open spec fn emit_scan(c: FnCallV, st: TcMap, pad: nat) -> Seq<u8> {
    if c.args.len() > 0 && c.args[0] is Ident {
        let id = c.args[0]->Ident_0;
        if st.dom().contains(id.name) && st[id.name].ty == IsiType::Int {
            spaces(pad) + scanf_d_bytes() + id.name + close_call_bytes()
        } else if st.dom().contains(id.name) && st[id.name].ty == IsiType::Float {
            spaces(pad) + scanf_f_bytes() + id.name + close_call_bytes()
        } else if st.dom().contains(id.name) && st[id.name].ty == IsiType::String {
            spaces(pad) + scanf_s_bytes() + id.name + close_call_bytes()
        } else {
            spaces(pad) + stub_line_bytes()
        }
    } else {
        spaces(pad) + stub_line_bytes()
    }
}

/// The C line for one declaration, typed from the symbol table.
pub open spec fn emit_decl(d: VarDeclV, st: TcMap, pad: nat) -> Seq<u8> {
    if st.dom().contains(d.var_name.name) && st[d.var_name.name].ty == IsiType::Int {
        spaces(pad) + kw_int_ty_bytes() + d.var_name.name + semi_nl_bytes()
    } else if st.dom().contains(d.var_name.name) && st[d.var_name.name].ty == IsiType::Float {
        spaces(pad) + kw_float_ty_bytes() + d.var_name.name + semi_nl_bytes()
    } else if st.dom().contains(d.var_name.name) && st[d.var_name.name].ty == IsiType::String {
        spaces(pad) + kw_string_ty_bytes() + d.var_name.name + semi_nl_bytes()
    } else {
        spaces(pad) + stub_line_bytes()
    }
}

pub open spec fn emit_decls(ds: Seq<VarDeclV>, st: TcMap, pad: nat, i: int) -> Seq<u8>
    decreases ds.len() - i,
{
    if 0 <= i < ds.len() {
        emit_decl(ds[i], st, pad) + emit_decls(ds, st, pad, i + 1)
    } else {
        Seq::empty()
    }
}

/// The C text of one statement, indented by `pad`.
pub open spec fn emit_stmt(s: StatementV, st: TcMap, pad: nat) -> Seq<u8>
    decreases s, 1int,
{
    match s {
        StatementV::Decl(ds) => emit_decls(ds, st, pad, 0),
        StatementV::FnCall(c) => {
            if c.fname.name == escreva_bytes() {
                emit_print(c, st, pad)
            } else if c.fname.name == leia_name() {
                emit_scan(c, st, pad)
            } else {
                spaces(pad) + stub_line_bytes()
            }
        },
        StatementV::Assignment(a) => spaces(pad) + a.ident.name + eq_sign_bytes() + emit_expr(
            a.val,
        ) + semi_nl_bytes(),
        StatementV::Conditional(c) => {
            let head = spaces(pad) + if_open_bytes() + emit_expr(c.cond) + block_open_bytes()
                + emit_stmts(c.taken, st, bump_pad(pad), 0) + spaces(pad) + close_brace_bytes();
            if c.not_taken.len() > 0 {
                head + spaces(pad) + else_open_bytes() + emit_stmts(
                    c.not_taken,
                    st,
                    bump_pad(pad),
                    0,
                ) + spaces(pad) + close_brace_bytes()
            } else {
                head
            }
        },
        StatementV::WhileLoop(l) => spaces(pad) + while_open_bytes() + emit_expr(l.cond)
            + block_open_bytes() + emit_stmts(l.body, st, bump_pad(pad), 0) + spaces(pad)
            + close_brace_bytes(),
        StatementV::DoWhileLoop(l) => spaces(pad) + do_open_bytes() + emit_stmts(
            l.body,
            st,
            bump_pad(pad),
            0,
        ) + spaces(pad) + do_close_bytes() + emit_expr(l.cond) + close_call_bytes(),
    }
}

pub open spec fn emit_stmts(ss: Seq<StatementV>, st: TcMap, pad: nat, i: int) -> Seq<u8>
    decreases ss, ss.len() - i,
{
    if 0 <= i < ss.len() {
        emit_stmt(ss[i], st, pad) + emit_stmts(ss, st, pad, i + 1)
    } else {
        Seq::empty()
    }
}

/// The whole translation unit: the fixed header, the statements at one
/// indentation step, and the closing brace.
pub open spec fn emit_program(p: IsiProgramV, st: TcMap) -> Seq<u8> {
    header_bytes() + emit_stmts(p.statements, st, 4, 0) + footer_bytes()
}

// ---------------------------------------------------------------------------
// Executable emission.
// ---------------------------------------------------------------------------

/// Appends a byte slice to the output.
pub(crate) fn push_bytes(out: &mut Vec<u8>, s: &[u8])
    ensures
        final(out)@ == old(out)@ + s@,
{
    let ghost o0 = out@;
    let mut i: usize = 0;
    while i < s.len()
        invariant
            0 <= i <= s@.len(),
            out@ == o0 + s@.subrange(0, i as int),
        decreases s@.len() - i,
    {
        out.push(s[i]);
        i = i + 1;
        proof {
            assert(out@ =~= o0 + s@.subrange(0, i as int));
        }
    }
    proof {
        assert(out@ =~= o0 + s@);
    }
}

/// Appends `n` spaces.
fn push_spaces(out: &mut Vec<u8>, n: usize)
    ensures
        final(out)@ == old(out)@ + spaces(n as nat),
{
    let ghost o0 = out@;
    let mut i: usize = 0;
    while i < n
        invariant
            0 <= i <= n,
            out@ == o0 + spaces(i as nat),
        decreases n - i,
    {
        out.push(32);
        i = i + 1;
        proof {
            assert(out@ =~= o0 + spaces(i as nat));
        }
    }
}

/// Appends the decimal digits of `n`.
pub(crate) fn push_dec(out: &mut Vec<u8>, n: u64)
    ensures
        final(out)@ == old(out)@ + dec_digits(n as nat),
    decreases n,
{
    if n < 10 {
        out.push(48 + n as u8);
        proof {
            assert(out@ =~= old(out)@ + dec_digits(n as nat));
        }
    } else {
        push_dec(out, n / 10);
        out.push(48 + (n % 10) as u8);
        proof {
            assert(out@ =~= old(out)@ + dec_digits(n as nat));
        }
    }
}

fn push_header(out: &mut Vec<u8>)
    ensures
        final(out)@ == old(out)@ + header_bytes(),
{
    let a: [u8; 93] = [47, 42, 32, 33, 33, 33, 32, 97, 117, 116, 111, 45, 103, 101, 114, 97, 100, 111, 32, 112, 111, 114, 32, 105, 115, 105, 99, 45, 98, 97, 99, 107, 32, 33, 33, 33, 32, 42, 47, 10, 35, 105, 110, 99, 108, 117, 100, 101, 32, 60, 115, 116, 100, 105, 111, 46, 104, 62, 10, 35, 105, 110, 99, 108, 117, 100, 101, 32, 60, 115, 116, 100, 108, 105, 98, 46, 104, 62, 10, 10, 105, 110, 116, 32, 109, 97, 105, 110, 40, 41, 32, 123, 10];
    proof {
        assert(a@ =~= header_bytes());
    }
    push_bytes(out, a.as_slice());
}

fn push_footer(out: &mut Vec<u8>)
    ensures
        final(out)@ == old(out)@ + footer_bytes(),
{
    let a: [u8; 2] = [125, 10];
    proof {
        assert(a@ =~= footer_bytes());
    }
    push_bytes(out, a.as_slice());
}

fn push_kw_int_ty(out: &mut Vec<u8>)
    ensures
        final(out)@ == old(out)@ + kw_int_ty_bytes(),
{
    let a: [u8; 4] = [105, 110, 116, 32];
    proof {
        assert(a@ =~= kw_int_ty_bytes());
    }
    push_bytes(out, a.as_slice());
}

fn push_kw_float_ty(out: &mut Vec<u8>)
    ensures
        final(out)@ == old(out)@ + kw_float_ty_bytes(),
{
    let a: [u8; 6] = [102, 108, 111, 97, 116, 32];
    proof {
        assert(a@ =~= kw_float_ty_bytes());
    }
    push_bytes(out, a.as_slice());
}

fn push_kw_string_ty(out: &mut Vec<u8>)
    ensures
        final(out)@ == old(out)@ + kw_string_ty_bytes(),
{
    let a: [u8; 6] = [99, 104, 97, 114, 42, 32];
    proof {
        assert(a@ =~= kw_string_ty_bytes());
    }
    push_bytes(out, a.as_slice());
}

fn push_semi_nl(out: &mut Vec<u8>)
    ensures
        final(out)@ == old(out)@ + semi_nl_bytes(),
{
    let a: [u8; 2] = [59, 10];
    proof {
        assert(a@ =~= semi_nl_bytes());
    }
    push_bytes(out, a.as_slice());
}

fn push_eq_sign(out: &mut Vec<u8>)
    ensures
        final(out)@ == old(out)@ + eq_sign_bytes(),
{
    let a: [u8; 3] = [32, 61, 32];
    proof {
        assert(a@ =~= eq_sign_bytes());
    }
    push_bytes(out, a.as_slice());
}

fn push_printf_d(out: &mut Vec<u8>)
    ensures
        final(out)@ == old(out)@ + printf_d_bytes(),
{
    let a: [u8; 15] = [112, 114, 105, 110, 116, 102, 40, 34, 37, 100, 92, 110, 34, 44, 32];
    proof {
        assert(a@ =~= printf_d_bytes());
    }
    push_bytes(out, a.as_slice());
}

fn push_printf_f(out: &mut Vec<u8>)
    ensures
        final(out)@ == old(out)@ + printf_f_bytes(),
{
    let a: [u8; 15] = [112, 114, 105, 110, 116, 102, 40, 34, 37, 102, 92, 110, 34, 44, 32];
    proof {
        assert(a@ =~= printf_f_bytes());
    }
    push_bytes(out, a.as_slice());
}

fn push_printf_s(out: &mut Vec<u8>)
    ensures
        final(out)@ == old(out)@ + printf_s_bytes(),
{
    let a: [u8; 15] = [112, 114, 105, 110, 116, 102, 40, 34, 37, 115, 92, 110, 34, 44, 32];
    proof {
        assert(a@ =~= printf_s_bytes());
    }
    push_bytes(out, a.as_slice());
}

fn push_printf_open(out: &mut Vec<u8>)
    ensures
        final(out)@ == old(out)@ + printf_open_bytes(),
{
    let a: [u8; 8] = [112, 114, 105, 110, 116, 102, 40, 34];
    proof {
        assert(a@ =~= printf_open_bytes());
    }
    push_bytes(out, a.as_slice());
}

fn push_printf_str_close(out: &mut Vec<u8>)
    ensures
        final(out)@ == old(out)@ + printf_str_close_bytes(),
{
    let a: [u8; 6] = [92, 110, 34, 41, 59, 10];
    proof {
        assert(a@ =~= printf_str_close_bytes());
    }
    push_bytes(out, a.as_slice());
}

fn push_close_call(out: &mut Vec<u8>)
    ensures
        final(out)@ == old(out)@ + close_call_bytes(),
{
    let a: [u8; 3] = [41, 59, 10];
    proof {
        assert(a@ =~= close_call_bytes());
    }
    push_bytes(out, a.as_slice());
}

fn push_scanf_d(out: &mut Vec<u8>)
    ensures
        final(out)@ == old(out)@ + scanf_d_bytes(),
{
    let a: [u8; 13] = [115, 99, 97, 110, 102, 40, 34, 37, 100, 34, 44, 32, 38];
    proof {
        assert(a@ =~= scanf_d_bytes());
    }
    push_bytes(out, a.as_slice());
}

fn push_scanf_f(out: &mut Vec<u8>)
    ensures
        final(out)@ == old(out)@ + scanf_f_bytes(),
{
    let a: [u8; 13] = [115, 99, 97, 110, 102, 40, 34, 37, 102, 34, 44, 32, 38];
    proof {
        assert(a@ =~= scanf_f_bytes());
    }
    push_bytes(out, a.as_slice());
}

fn push_scanf_s(out: &mut Vec<u8>)
    ensures
        final(out)@ == old(out)@ + scanf_s_bytes(),
{
    let a: [u8; 13] = [115, 99, 97, 110, 102, 40, 34, 37, 115, 34, 44, 32, 38];
    proof {
        assert(a@ =~= scanf_s_bytes());
    }
    push_bytes(out, a.as_slice());
}

fn push_if_open(out: &mut Vec<u8>)
    ensures
        final(out)@ == old(out)@ + if_open_bytes(),
{
    let a: [u8; 4] = [105, 102, 32, 40];
    proof {
        assert(a@ =~= if_open_bytes());
    }
    push_bytes(out, a.as_slice());
}

fn push_block_open(out: &mut Vec<u8>)
    ensures
        final(out)@ == old(out)@ + block_open_bytes(),
{
    let a: [u8; 4] = [41, 32, 123, 10];
    proof {
        assert(a@ =~= block_open_bytes());
    }
    push_bytes(out, a.as_slice());
}

fn push_close_brace(out: &mut Vec<u8>)
    ensures
        final(out)@ == old(out)@ + close_brace_bytes(),
{
    let a: [u8; 2] = [125, 10];
    proof {
        assert(a@ =~= close_brace_bytes());
    }
    push_bytes(out, a.as_slice());
}

fn push_else_open(out: &mut Vec<u8>)
    ensures
        final(out)@ == old(out)@ + else_open_bytes(),
{
    let a: [u8; 7] = [101, 108, 115, 101, 32, 123, 10];
    proof {
        assert(a@ =~= else_open_bytes());
    }
    push_bytes(out, a.as_slice());
}

fn push_while_open(out: &mut Vec<u8>)
    ensures
        final(out)@ == old(out)@ + while_open_bytes(),
{
    let a: [u8; 7] = [119, 104, 105, 108, 101, 32, 40];
    proof {
        assert(a@ =~= while_open_bytes());
    }
    push_bytes(out, a.as_slice());
}

fn push_do_open(out: &mut Vec<u8>)
    ensures
        final(out)@ == old(out)@ + do_open_bytes(),
{
    let a: [u8; 5] = [100, 111, 32, 123, 10];
    proof {
        assert(a@ =~= do_open_bytes());
    }
    push_bytes(out, a.as_slice());
}

fn push_do_close(out: &mut Vec<u8>)
    ensures
        final(out)@ == old(out)@ + do_close_bytes(),
{
    let a: [u8; 9] = [125, 32, 119, 104, 105, 108, 101, 32, 40];
    proof {
        assert(a@ =~= do_close_bytes());
    }
    push_bytes(out, a.as_slice());
}

fn push_neg_open(out: &mut Vec<u8>)
    ensures
        final(out)@ == old(out)@ + neg_open_bytes(),
{
    let a: [u8; 2] = [33, 40];
    proof {
        assert(a@ =~= neg_open_bytes());
    }
    push_bytes(out, a.as_slice());
}

fn push_stub_line(out: &mut Vec<u8>)
    ensures
        final(out)@ == old(out)@ + stub_line_bytes(),
{
    let a: [u8; 24] = [47, 42, 32, 110, 111, 116, 32, 121, 101, 116, 32, 115, 117, 112, 112, 111, 114, 116, 101, 100, 32, 42, 47, 10];
    proof {
        assert(a@ =~= stub_line_bytes());
    }
    push_bytes(out, a.as_slice());
}

fn push_escreva(out: &mut Vec<u8>)
    ensures
        final(out)@ == old(out)@ + escreva_bytes(),
{
    let a: [u8; 7] = [101, 115, 99, 114, 101, 118, 97];
    proof {
        assert(a@ =~= escreva_bytes());
    }
    push_bytes(out, a.as_slice());
}

fn push_op(out: &mut Vec<u8>, op: BinaryOp)
    ensures
        final(out)@ == old(out)@ + op_bytes(op),
{
    match op {
        BinaryOp::Add => {
            let a: [u8; 3] = [32, 43, 32];
            proof {
                assert(a@ =~= op_bytes(op));
            }
            push_bytes(out, a.as_slice());
        },
        BinaryOp::Sub => {
            let a: [u8; 3] = [32, 45, 32];
            proof {
                assert(a@ =~= op_bytes(op));
            }
            push_bytes(out, a.as_slice());
        },
        BinaryOp::Mul => {
            let a: [u8; 3] = [32, 42, 32];
            proof {
                assert(a@ =~= op_bytes(op));
            }
            push_bytes(out, a.as_slice());
        },
        BinaryOp::Div => {
            let a: [u8; 3] = [32, 47, 32];
            proof {
                assert(a@ =~= op_bytes(op));
            }
            push_bytes(out, a.as_slice());
        },
        BinaryOp::Mod => {
            let a: [u8; 3] = [32, 37, 32];
            proof {
                assert(a@ =~= op_bytes(op));
            }
            push_bytes(out, a.as_slice());
        },
        BinaryOp::Gt => {
            let a: [u8; 3] = [32, 62, 32];
            proof {
                assert(a@ =~= op_bytes(op));
            }
            push_bytes(out, a.as_slice());
        },
        BinaryOp::Lt => {
            let a: [u8; 3] = [32, 60, 32];
            proof {
                assert(a@ =~= op_bytes(op));
            }
            push_bytes(out, a.as_slice());
        },
        BinaryOp::Geq => {
            let a: [u8; 4] = [32, 62, 61, 32];
            proof {
                assert(a@ =~= op_bytes(op));
            }
            push_bytes(out, a.as_slice());
        },
        BinaryOp::Leq => {
            let a: [u8; 4] = [32, 60, 61, 32];
            proof {
                assert(a@ =~= op_bytes(op));
            }
            push_bytes(out, a.as_slice());
        },
        BinaryOp::Eq => {
            let a: [u8; 4] = [32, 61, 61, 32];
            proof {
                assert(a@ =~= op_bytes(op));
            }
            push_bytes(out, a.as_slice());
        },
        BinaryOp::Neq => {
            let a: [u8; 4] = [32, 33, 61, 32];
            proof {
                assert(a@ =~= op_bytes(op));
            }
            push_bytes(out, a.as_slice());
        },
        BinaryOp::And => {
            let a: [u8; 4] = [32, 38, 38, 32];
            proof {
                assert(a@ =~= op_bytes(op));
            }
            push_bytes(out, a.as_slice());
        },
        BinaryOp::Or => {
            let a: [u8; 4] = [32, 124, 124, 32];
            proof {
                assert(a@ =~= op_bytes(op));
            }
            push_bytes(out, a.as_slice());
        },
    }
}
/// The C emitter. It owns the output buffer it fills; the symbol table of
/// the type checker is borrowed for the duration of each call.
pub struct CEmitter {
    output: Vec<u8>,
    id_level: usize,
}

impl CEmitter {
    /// The bytes written so far.
    pub closed spec fn out(&self) -> Seq<u8> {
        self.output@
    }

    /// The current indentation, in spaces.
    pub closed spec fn pad(&self) -> nat {
        self.id_level as nat
    }

    pub fn new() -> (r: CEmitter)
        ensures
            r.out() == Seq::<u8>::empty(),
            r.pad() == 4,
    {
        CEmitter { output: Vec::new(), id_level: 4 }
    }

    pub fn visit_int_literal(&mut self, lit: &IntLiteral)
        ensures
            final(self).out() == old(self).out() + emit_expr(expr_view(Expr::ImmInt(
                IntLiteral(lit.0, lit.1),
            ))),
            final(self).pad() == old(self).pad(),
    {
        push_dec(&mut self.output, lit.0);
    }

    pub fn visit_float_literal(&mut self, lit: &FloatLiteral)
        ensures
            final(self).out() == old(self).out() + lit.int_part@ + seq![46u8]
                + lit.frac_part@ + seq![102u8],
            final(self).pad() == old(self).pad(),
    {
        let ghost o0 = self.output@;
        push_bytes(&mut self.output, lit.int_part.as_slice());
        self.output.push(46);
        push_bytes(&mut self.output, lit.frac_part.as_slice());
        self.output.push(102);
        proof {
            assert(self.output@ =~= o0 + lit.int_part@ + seq![46u8] + lit.frac_part@
                + seq![102u8]);
        }
    }

    pub fn visit_string_literal(&mut self, lit: &StringLiteral)
        ensures
            final(self).out() == old(self).out() + lit.0@,
            final(self).pad() == old(self).pad(),
    {
        push_bytes(&mut self.output, lit.0.as_slice());
    }

    pub fn visit_ident(&mut self, id: &Ident)
        ensures
            final(self).out() == old(self).out() + id.name@,
            final(self).pad() == old(self).pad(),
    {
        push_bytes(&mut self.output, id.name.as_slice());
    }

    pub fn visit_bin_expr(&mut self, bexpr: &BinExpr)
        ensures
            final(self).out() == old(self).out() + emit_expr(expr_view(Expr::BinExpr(
                *bexpr,
            ))),
            final(self).pad() == old(self).pad(),
        decreases *bexpr, 0int,
    {
        let ghost o0 = self.output@;
        self.output.push(40);
        self.visit_expr(&bexpr.1);
        push_op(&mut self.output, bexpr.0);
        self.visit_expr(&bexpr.2);
        self.output.push(41);
        proof {
            assert(self.output@ =~= o0 + emit_expr(expr_view(Expr::BinExpr(*bexpr))));
        }
    }

    pub fn visit_negation(&mut self, neg: &Negation)
        ensures
            final(self).out() == old(self).out() + emit_expr(expr_view(Expr::Negation(
                *neg,
            ))),
            final(self).pad() == old(self).pad(),
        decreases *neg, 0int,
    {
        let ghost o0 = self.output@;
        push_neg_open(&mut self.output);
        self.visit_expr(&neg.expr);
        self.output.push(41);
        proof {
            assert(self.output@ =~= o0 + emit_expr(expr_view(Expr::Negation(*neg))));
        }
    }

    pub fn visit_expr(&mut self, expr: &Expr)
        ensures
            final(self).out() == old(self).out() + emit_expr(expr_view(*expr)),
            final(self).pad() == old(self).pad(),
        decreases *expr, 1int,
    {
        match expr {
            Expr::Ident(id) => {
                self.visit_ident(id);
            },
            Expr::ImmInt(imm) => {
                push_dec(&mut self.output, imm.0);
            },
            Expr::ImmFloat(imm) => {
                self.visit_float_literal(imm);
                proof {
                    assert(old(self).output@ + imm.int_part@ + seq![46u8] + imm.frac_part@
                        + seq![102u8] =~= old(self).output@ + emit_expr(expr_view(*expr)));
                }
            },
            Expr::ImmString(imm) => {
                self.visit_string_literal(imm);
            },
            Expr::BinExpr(bexp) => {
                self.visit_bin_expr(bexp);
            },
            Expr::FnCall(_) => {
                self.output.push(48);
                proof {
                    assert(self.output@ =~= old(self).output@ + emit_expr(expr_view(*expr)));
                }
            },
            Expr::Negation(neg) => {
                self.visit_negation(neg);
            },
        }
    }

    /// The `printf` line for one `escreva` call.
    fn emit_print(&mut self, call: &FnCall, st: &NameMap<SymbolInfo>)
        requires
            st.wf(),
        ensures
            final(self).out() == old(self).out() + emit_print(
                crate::ast::fn_call_view(*call),
                st@,
                old(self).pad(),
            ),
            final(self).pad() == old(self).pad(),
    {
        let ghost o0 = self.output@;
        let ghost cv = crate::ast::fn_call_view(*call);
        proof {
            lemma_exprs_view_len(call.args@);
        }
        if call.args.len() == 0 {
            push_spaces(&mut self.output, self.id_level);
            push_stub_line(&mut self.output);
            proof {
                assert(self.output@ =~= o0 + emit_print(cv, st@, old(self).pad()));
            }
            return ;
        }
        proof {
            assert(cv.args[0] == expr_view(call.args@[0]));
        }
        match &call.args[0] {
            Expr::Ident(id) => {
                push_spaces(&mut self.output, self.id_level);
                match st.get(id.name.as_slice()) {
                    Some(sym) if sym.ty == IsiType::Int => {
                        push_printf_d(&mut self.output);
                        push_bytes(&mut self.output, id.name.as_slice());
                        push_close_call(&mut self.output);
                    },
                    Some(sym) if sym.ty == IsiType::Float => {
                        push_printf_f(&mut self.output);
                        push_bytes(&mut self.output, id.name.as_slice());
                        push_close_call(&mut self.output);
                    },
                    Some(sym) if sym.ty == IsiType::String => {
                        push_printf_s(&mut self.output);
                        push_bytes(&mut self.output, id.name.as_slice());
                        push_close_call(&mut self.output);
                    },
                    _ => {
                        push_stub_line(&mut self.output);
                    },
                }
                proof {
                    assert(self.output@ =~= o0 + emit_print(cv, st@, old(self).pad()));
                }
            },
            Expr::ImmInt(imm) => {
                push_spaces(&mut self.output, self.id_level);
                push_printf_d(&mut self.output);
                push_dec(&mut self.output, imm.0);
                push_close_call(&mut self.output);
                proof {
                    assert(self.output@ =~= o0 + emit_print(cv, st@, old(self).pad()));
                }
            },
            Expr::ImmFloat(imm) => {
                push_spaces(&mut self.output, self.id_level);
                push_printf_f(&mut self.output);
                push_bytes(&mut self.output, imm.int_part.as_slice());
                self.output.push(46);
                push_bytes(&mut self.output, imm.frac_part.as_slice());
                push_close_call(&mut self.output);
                proof {
                    assert(self.output@ =~= o0 + emit_print(cv, st@, old(self).pad()));
                }
            },
            Expr::ImmString(imm) => {
                push_spaces(&mut self.output, self.id_level);
                push_printf_open(&mut self.output);
                push_bytes(&mut self.output, imm.0.as_slice());
                push_printf_str_close(&mut self.output);
                proof {
                    assert(self.output@ =~= o0 + emit_print(cv, st@, old(self).pad()));
                }
            },
            _ => {
                push_spaces(&mut self.output, self.id_level);
                push_stub_line(&mut self.output);
                proof {
                    assert(self.output@ =~= o0 + emit_print(cv, st@, old(self).pad()));
                }
            },
        }
    }

    /// The `scanf` line for one `leia` call.
    fn emit_scan(&mut self, call: &FnCall, st: &NameMap<SymbolInfo>)
        requires
            st.wf(),
        ensures
            final(self).out() == old(self).out() + emit_scan(
                crate::ast::fn_call_view(*call),
                st@,
                old(self).pad(),
            ),
            final(self).pad() == old(self).pad(),
    {
        let ghost o0 = self.output@;
        let ghost cv = crate::ast::fn_call_view(*call);
        proof {
            lemma_exprs_view_len(call.args@);
        }
        push_spaces(&mut self.output, self.id_level);
        if call.args.len() == 0 {
            push_stub_line(&mut self.output);
            proof {
                assert(self.output@ =~= o0 + emit_scan(cv, st@, old(self).pad()));
            }
            return ;
        }
        proof {
            assert(cv.args[0] == expr_view(call.args@[0]));
        }
        match &call.args[0] {
            Expr::Ident(id) => {
                match st.get(id.name.as_slice()) {
                    Some(sym) if sym.ty == IsiType::Int => {
                        push_scanf_d(&mut self.output);
                        push_bytes(&mut self.output, id.name.as_slice());
                        push_close_call(&mut self.output);
                    },
                    Some(sym) if sym.ty == IsiType::Float => {
                        push_scanf_f(&mut self.output);
                        push_bytes(&mut self.output, id.name.as_slice());
                        push_close_call(&mut self.output);
                    },
                    Some(sym) if sym.ty == IsiType::String => {
                        push_scanf_s(&mut self.output);
                        push_bytes(&mut self.output, id.name.as_slice());
                        push_close_call(&mut self.output);
                    },
                    _ => {
                        push_stub_line(&mut self.output);
                    },
                }
            },
            _ => {
                push_stub_line(&mut self.output);
            },
        }
        proof {
            assert(self.output@ =~= o0 + emit_scan(cv, st@, old(self).pad()));
        }
    }

    pub fn visit_decl(&mut self, decl: &VarDecl, st: &NameMap<SymbolInfo>)
        requires
            st.wf(),
        ensures
            final(self).out() == old(self).out() + emit_decl(decl@, st@, old(self).pad()),
            final(self).pad() == old(self).pad(),
    {
        let ghost o0 = self.output@;
        push_spaces(&mut self.output, self.id_level);
        match st.get(decl.var_name.name.as_slice()) {
            Some(sym) if sym.ty == IsiType::Int => {
                push_kw_int_ty(&mut self.output);
                push_bytes(&mut self.output, decl.var_name.name.as_slice());
                push_semi_nl(&mut self.output);
            },
            Some(sym) if sym.ty == IsiType::Float => {
                push_kw_float_ty(&mut self.output);
                push_bytes(&mut self.output, decl.var_name.name.as_slice());
                push_semi_nl(&mut self.output);
            },
            Some(sym) if sym.ty == IsiType::String => {
                push_kw_string_ty(&mut self.output);
                push_bytes(&mut self.output, decl.var_name.name.as_slice());
                push_semi_nl(&mut self.output);
            },
            _ => {
                push_stub_line(&mut self.output);
            },
        }
        proof {
            assert(self.output@ =~= o0 + emit_decl(decl@, st@, old(self).pad()));
        }
    }

    pub fn visit_multi_decl(&mut self, decls: &MultiVarDecl, st: &NameMap<SymbolInfo>)
        requires
            st.wf(),
        ensures
            final(self).out() == old(self).out() + emit_decls(
                var_decls_view(decls.0@),
                st@,
                old(self).pad(),
                0,
            ),
            final(self).pad() == old(self).pad(),
    {
        let ghost o0 = self.output@;
        let ghost dsv = var_decls_view(decls.0@);
        let mut i: usize = 0;
        while i < decls.0.len()
            invariant
                0 <= i <= decls.0@.len(),
                st.wf(),
                dsv == var_decls_view(decls.0@),
                dsv.len() == decls.0@.len(),
                self.id_level == old(self).id_level,
                o0 == old(self).output@,
                self.output@ + emit_decls(dsv, st@, old(self).pad(), i as int) == o0 + emit_decls(
                    dsv,
                    st@,
                    old(self).pad(),
                    0,
                ),
            decreases decls.0@.len() - i,
        {
            proof {
                assert(dsv[i as int] == crate::ast::var_decl_view(decls.0@[i as int]));
            }
            let ghost pre = self.output@;
            self.visit_decl(&decls.0[i], st);
            proof {
                assert(self.output@ + emit_decls(dsv, st@, old(self).pad(), i + 1) =~= pre
                    + emit_decls(dsv, st@, old(self).pad(), i as int));
            }
            i = i + 1;
        }
        proof {
            assert(self.output@ + Seq::<u8>::empty() =~= self.output@);
            assert(o0 + emit_decls(dsv, st@, old(self).pad(), 0) =~= self.output@);
        }
    }

    pub fn visit_fn_call(&mut self, call: &FnCall, st: &NameMap<SymbolInfo>)
        requires
            st.wf(),
        ensures
            final(self).out() == old(self).out() + emit_stmt(
                crate::ast::stmt_view(Statement::FnCall(*call)),
                st@,
                old(self).pad(),
            ),
            final(self).pad() == old(self).pad(),
    {
        let ghost o0 = self.output@;
        let escreva: [u8; 7] = [101, 115, 99, 114, 101, 118, 97];
        let leia: [u8; 4] = [108, 101, 105, 97];
        proof {
            assert(escreva@ =~= escreva_bytes());
            assert(leia@ =~= leia_name());
        }
        if bytes_eq(call.fname.name.as_slice(), escreva.as_slice()) {
            self.emit_print(call, st);
        } else if bytes_eq(call.fname.name.as_slice(), leia.as_slice()) {
            self.emit_scan(call, st);
        } else {
            push_spaces(&mut self.output, self.id_level);
            push_stub_line(&mut self.output);
            proof {
                assert(self.output@ =~= o0 + spaces(old(self).pad()) + stub_line_bytes());
            }
        }
    }

    pub fn visit_assignment(&mut self, assignment: &Assignment, st: &NameMap<SymbolInfo>)
        requires
            st.wf(),
        ensures
            final(self).out() == old(self).out() + emit_stmt(
                crate::ast::stmt_view(Statement::Assignment(*assignment)),
                st@,
                old(self).pad(),
            ),
            final(self).pad() == old(self).pad(),
        decreases *assignment,
    {
        let ghost o0 = self.output@;
        push_spaces(&mut self.output, self.id_level);
        push_bytes(&mut self.output, assignment.ident.name.as_slice());
        push_eq_sign(&mut self.output);
        self.visit_expr(&assignment.val);
        push_semi_nl(&mut self.output);
        proof {
            assert(self.output@ =~= o0 + emit_stmt(
                crate::ast::stmt_view(Statement::Assignment(*assignment)),
                st@,
                old(self).pad(),
            ));
        }
    }

    /// One indentation step deeper, saturating at the machine limit.
    fn deepen(&mut self)
        ensures
            final(self).pad() == bump_pad(old(self).pad()),
            final(self).out() == old(self).out(),
    {
        if self.id_level <= usize::MAX - 4 {
            self.id_level = self.id_level + 4;
        }
    }

    /// Emits every statement of a block at the current indentation.
    fn emit_block(&mut self, body: &Vec<Statement>, st: &NameMap<SymbolInfo>)
        requires
            st.wf(),
        ensures
            final(self).out() == old(self).out() + emit_stmts(
                stmts_view(body@),
                st@,
                old(self).pad(),
                0,
            ),
            final(self).pad() == old(self).pad(),
        decreases *body, 0int,
    {
        let ghost o0 = self.output@;
        let ghost bv = stmts_view(body@);
        proof {
            lemma_stmts_view_len(body@);
        }
        let mut i: usize = 0;
        while i < body.len()
            invariant
                0 <= i <= body@.len(),
                st.wf(),
                bv == stmts_view(body@),
                bv.len() == body@.len(),
                forall|m: int| 0 <= m < body@.len() ==> bv[m] == crate::ast::stmt_view(body@[m]),
                self.id_level == old(self).id_level,
                o0 == old(self).output@,
                self.output@ + emit_stmts(bv, st@, old(self).pad(), i as int) == o0 + emit_stmts(
                    bv,
                    st@,
                    old(self).pad(),
                    0,
                ),
            decreases body@.len() - i,
        {
            let ghost pre = self.output@;
            self.visit_statement(&body[i], st);
            proof {
                assert(self.output@ + emit_stmts(bv, st@, old(self).pad(), i + 1) =~= pre
                    + emit_stmts(bv, st@, old(self).pad(), i as int));
            }
            i = i + 1;
        }
        proof {
            assert(self.output@ + Seq::<u8>::empty() =~= self.output@);
            assert(o0 + emit_stmts(bv, st@, old(self).pad(), 0) =~= self.output@);
        }
    }

    pub fn visit_conditional(&mut self, conditional: &Conditional, st: &NameMap<SymbolInfo>)
        requires
            st.wf(),
        ensures
            final(self).out() == old(self).out() + emit_stmt(
                crate::ast::stmt_view(Statement::Conditional(*conditional)),
                st@,
                old(self).pad(),
            ),
            final(self).pad() == old(self).pad(),
        decreases *conditional, 3int,
    {
        let ghost o0 = self.output@;
        let saved = self.id_level;
        push_spaces(&mut self.output, self.id_level);
        push_if_open(&mut self.output);
        self.visit_expr(&conditional.cond);
        push_block_open(&mut self.output);
        self.deepen();
        self.emit_block(&conditional.taken, st);
        self.id_level = saved;
        push_spaces(&mut self.output, self.id_level);
        push_close_brace(&mut self.output);
        if conditional.not_taken.len() > 0 {
            push_spaces(&mut self.output, self.id_level);
            push_else_open(&mut self.output);
            self.deepen();
            self.emit_block(&conditional.not_taken, st);
            self.id_level = saved;
            push_spaces(&mut self.output, self.id_level);
            push_close_brace(&mut self.output);
        }
        proof {
            lemma_stmts_view_len(conditional.not_taken@);
            assert(self.output@ =~= o0 + emit_stmt(
                crate::ast::stmt_view(Statement::Conditional(*conditional)),
                st@,
                old(self).pad(),
            ));
        }
    }

    pub fn visit_while_loop(&mut self, while_loop: &WhileLoop, st: &NameMap<SymbolInfo>)
        requires
            st.wf(),
        ensures
            final(self).out() == old(self).out() + emit_stmt(
                crate::ast::stmt_view(Statement::WhileLoop(*while_loop)),
                st@,
                old(self).pad(),
            ),
            final(self).pad() == old(self).pad(),
        decreases *while_loop, 3int,
    {
        let ghost o0 = self.output@;
        let saved = self.id_level;
        push_spaces(&mut self.output, self.id_level);
        push_while_open(&mut self.output);
        self.visit_expr(&while_loop.cond);
        push_block_open(&mut self.output);
        self.deepen();
        self.emit_block(&while_loop.body, st);
        self.id_level = saved;
        push_spaces(&mut self.output, self.id_level);
        push_close_brace(&mut self.output);
        proof {
            assert(self.output@ =~= o0 + emit_stmt(
                crate::ast::stmt_view(Statement::WhileLoop(*while_loop)),
                st@,
                old(self).pad(),
            ));
        }
    }

    pub fn visit_do_while_loop(&mut self, do_while_loop: &DoWhileLoop, st: &NameMap<SymbolInfo>)
        requires
            st.wf(),
        ensures
            final(self).out() == old(self).out() + emit_stmt(
                crate::ast::stmt_view(Statement::DoWhileLoop(*do_while_loop)),
                st@,
                old(self).pad(),
            ),
            final(self).pad() == old(self).pad(),
        decreases *do_while_loop, 3int,
    {
        let ghost o0 = self.output@;
        let saved = self.id_level;
        push_spaces(&mut self.output, self.id_level);
        push_do_open(&mut self.output);
        self.deepen();
        self.emit_block(&do_while_loop.body, st);
        self.id_level = saved;
        push_spaces(&mut self.output, self.id_level);
        push_do_close(&mut self.output);
        self.visit_expr(&do_while_loop.cond);
        push_close_call(&mut self.output);
        proof {
            assert(self.output@ =~= o0 + emit_stmt(
                crate::ast::stmt_view(Statement::DoWhileLoop(*do_while_loop)),
                st@,
                old(self).pad(),
            ));
        }
    }

    pub fn visit_statement(&mut self, stmt: &Statement, st: &NameMap<SymbolInfo>)
        requires
            st.wf(),
        ensures
            final(self).out() == old(self).out() + emit_stmt(
                crate::ast::stmt_view(*stmt),
                st@,
                old(self).pad(),
            ),
            final(self).pad() == old(self).pad(),
        decreases *stmt, 4int,
    {
        match stmt {
            Statement::Decl(mdecl) => self.visit_multi_decl(mdecl, st),
            Statement::FnCall(call) => self.visit_fn_call(call, st),
            Statement::Assignment(ass) => self.visit_assignment(ass, st),
            Statement::Conditional(cond) => self.visit_conditional(cond, st),
            Statement::WhileLoop(l) => self.visit_while_loop(l, st),
            Statement::DoWhileLoop(l) => self.visit_do_while_loop(l, st),
        }
    }

    /// Writes the whole translation unit for a validated program and hands
    /// back the bytes.
    pub fn emit(self, program: &IsiProgram, st: &NameMap<SymbolInfo>) -> (r: Vec<u8>)
        requires
            st.wf(),
            self.out() == Seq::<u8>::empty(),
            self.pad() == 4,
        ensures
            r@ == emit_program(program@, st@),
    {
        let mut this = self;
        push_header(&mut this.output);
        this.emit_block(&program.statements, st);
        push_footer(&mut this.output);
        proof {
            assert(this.output@ =~= emit_program(program@, st@));
        }
        this.output
    }
}

} // verus!
