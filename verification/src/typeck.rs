//! The type checker. The typing rules are specification functions from a
//! symbol table and a node to the resulting table and outcome; the checker is
//! proved to compute exactly that, collecting one error per failed top-level
//! statement without stopping, and to leave the symbol table populated for
//! the back ends.

use vstd::prelude::*;

use crate::ast::{
    Assignment, BinExpr, BinaryOp, Conditional, DoWhileLoop, Expr, ExprV, FloatLiteral, FnCall,
    Ident, IntLiteral, IsiProgram, IsiProgramV, MultiVarDecl, Negation, StatementV, Statement,
    StringLiteral, VarDecl, VarDeclV, WhileLoop, expr_v_span, expr_view, lemma_stmts_view_len,
    stmts_view, var_decls_view,
};
use crate::span::Span;
use crate::types::{CheckError, CheckErrorKind, CheckErrorKindV, CheckErrorV, IsiType, NameMap,
    SymbolInfo, bytes_eq, errors_view};

verus! {

/// The symbol table the checker builds: name to declared type and span.
pub type TcMap = Map<Seq<u8>, SymbolInfo>;

pub open spec fn ty_name_int() -> Seq<u8> {
    seq![105u8, 110u8, 116u8]
}

pub open spec fn ty_name_float() -> Seq<u8> {
    seq![102u8, 108u8, 111u8, 97u8, 116u8]
}

pub open spec fn ty_name_string() -> Seq<u8> {
    seq![115u8, 116u8, 114u8, 105u8, 110u8, 103u8]
}

pub open spec fn ty_name_bool() -> Seq<u8> {
    seq![98u8, 111u8, 111u8, 108u8]
}

// ---------------------------------------------------------------------------
// The typing rules, as functions from a symbol table and a node to the
// resulting table and outcome.
// ---------------------------------------------------------------------------

/// The type of an expression under a table, or the first error found.
/// Expressions do not change the table.
pub open spec fn tc_expr(st: TcMap, e: ExprV) -> Result<IsiType, CheckErrorV>
    decreases e,
{
    match e {
        ExprV::Ident(id) => {
            if st.dom().contains(id.name) {
                Ok(st[id.name].ty)
            } else {
                Err(
                    CheckErrorV {
                        span: id.span,
                        kind: CheckErrorKindV::UndefinedVariable { name: id.name },
                    },
                )
            }
        },
        ExprV::ImmInt(_, _) => Ok(IsiType::Int),
        ExprV::ImmFloat(_) => Ok(IsiType::Float),
        ExprV::ImmString(_, _) => Ok(IsiType::String),
        ExprV::BinExpr(op, l, r) => {
            let span = expr_v_span(e);
            match tc_expr(st, *l) {
                Err(err) => Err(err),
                Ok(tl) => match tc_expr(st, *r) {
                    Err(err) => Err(err),
                    Ok(tr) => tc_bin_op(op, tl, tr, span),
                },
            }
        },
        ExprV::FnCall(_) => Ok(IsiType::Unit),
        ExprV::Negation(n) => {
            match tc_expr(st, *n.expr) {
                Err(err) => Err(err),
                Ok(t) => {
                    if t != IsiType::Bool {
                        Err(
                            CheckErrorV {
                                span: n.span.spec_merge(expr_v_span(*n.expr)),
                                kind: CheckErrorKindV::NonBoolNegation { found: t },
                            },
                        )
                    } else {
                        Ok(IsiType::Bool)
                    }
                },
            }
        },
    }
}

/// The rule for one binary operator over matching operand types.
pub open spec fn tc_bin_op(op: BinaryOp, tl: IsiType, tr: IsiType, span: Span) -> Result<
    IsiType,
    CheckErrorV,
> {
    if tl != tr {
        Err(
            CheckErrorV {
                span,
                kind: CheckErrorKindV::MismatchedBinOperands { op, left: tl, right: tr },
            },
        )
    } else {
        match op {
            BinaryOp::Add => Ok(tl),
            BinaryOp::Sub | BinaryOp::Mul | BinaryOp::Div => {
                if tl == IsiType::String || tl == IsiType::Unit {
                    Err(CheckErrorV { span, kind: CheckErrorKindV::InvalidOperands { op, ty: tl } })
                } else {
                    Ok(tl)
                }
            },
            BinaryOp::Mod => {
                if tl == IsiType::Int {
                    Ok(IsiType::Int)
                } else {
                    Err(CheckErrorV { span, kind: CheckErrorKindV::InvalidOperands { op, ty: tl } })
                }
            },
            BinaryOp::Gt | BinaryOp::Lt | BinaryOp::Geq | BinaryOp::Leq | BinaryOp::Eq
                | BinaryOp::Neq => Ok(IsiType::Bool),
            BinaryOp::And | BinaryOp::Or => {
                if tl == IsiType::Bool {
                    Ok(IsiType::Bool)
                } else {
                    Err(CheckErrorV { span, kind: CheckErrorKindV::InvalidOperands { op, ty: tl } })
                }
            },
        }
    }
}

/// One declaration: a redeclared name or an unknown type name is an error;
/// otherwise the name enters the table.
pub open spec fn tc_decl(st: TcMap, d: VarDeclV) -> (TcMap, Result<IsiType, CheckErrorV>) {
    if st.dom().contains(d.var_name.name) {
        (
            st,
            Err(
                CheckErrorV {
                    span: d.span,
                    kind: CheckErrorKindV::Redeclaration { name: d.var_name.name },
                },
            ),
        )
    } else {
        let ty = if d.var_type.name == ty_name_int() {
            Some(IsiType::Int)
        } else if d.var_type.name == ty_name_float() {
            Some(IsiType::Float)
        } else if d.var_type.name == ty_name_string() {
            Some(IsiType::String)
        } else {
            None
        };
        match ty {
            None => (
                st,
                Err(
                    CheckErrorV {
                        span: d.span,
                        kind: CheckErrorKindV::UnknownType { name: d.var_type.name },
                    },
                ),
            ),
            Some(t) => (
                st.insert(d.var_name.name, SymbolInfo { ty: t, declaration: d.span }),
                Ok(t),
            ),
        }
    }
}

/// A multi-declaration checks its declarations in order and stops at the
/// first error; the table keeps what was entered before the error.
pub open spec fn tc_multidecl(st: TcMap, ds: Seq<VarDeclV>, i: int) -> (TcMap, Result<
    IsiType,
    CheckErrorV,
>)
    decreases ds.len() - i,
{
    if 0 <= i < ds.len() {
        let (st1, r) = tc_decl(st, ds[i]);
        match r {
            Err(e) => (st1, Err(e)),
            Ok(_) => tc_multidecl(st1, ds, i + 1),
        }
    } else {
        (st, Ok(IsiType::Unit))
    }
}

/// One statement under a table: the resulting table and outcome.
pub open spec fn tc_stmt(st: TcMap, s: StatementV) -> (TcMap, Result<IsiType, CheckErrorV>)
    decreases s, 1int,
{
    match s {
        StatementV::Decl(ds) => tc_multidecl(st, ds, 0),
        StatementV::FnCall(_) => (st, Ok(IsiType::Unit)),
        StatementV::Assignment(a) => {
            let span = a.ident.span.spec_merge(expr_v_span(a.val));
            match tc_expr(st, ExprV::Ident(a.ident)) {
                Err(e) => (st, Err(e)),
                Ok(tl) => match tc_expr(st, a.val) {
                    Err(e) => (st, Err(e)),
                    Ok(tr) => {
                        if tl != tr {
                            (
                                st,
                                Err(
                                    CheckErrorV {
                                        span,
                                        kind: CheckErrorKindV::MismatchedAssignment {
                                            expected: tl,
                                            found: tr,
                                        },
                                    },
                                ),
                            )
                        } else {
                            (st, Ok(tl))
                        }
                    },
                },
            }
        },
        StatementV::Conditional(c) => {
            match tc_cond(st, c.cond) {
                Err(e) => (st, Err(e)),
                Ok(_) => {
                    let (st1, r1) = tc_block(st, c.taken, 0);
                    match r1 {
                        Err(e) => (st1, Err(e)),
                        Ok(_) => {
                            let (st2, r2) = tc_block(st1, c.not_taken, 0);
                            match r2 {
                                Err(e) => (st2, Err(e)),
                                Ok(_) => (st2, Ok(IsiType::Unit)),
                            }
                        },
                    }
                },
            }
        },
        StatementV::WhileLoop(l) => {
            match tc_cond(st, l.cond) {
                Err(e) => (st, Err(e)),
                Ok(_) => {
                    let (st1, r1) = tc_block(st, l.body, 0);
                    match r1 {
                        Err(e) => (st1, Err(e)),
                        Ok(_) => (st1, Ok(IsiType::Unit)),
                    }
                },
            }
        },
        StatementV::DoWhileLoop(l) => {
            match tc_cond(st, l.cond) {
                Err(e) => (st, Err(e)),
                Ok(_) => {
                    let (st1, r1) = tc_block(st, l.body, 0);
                    match r1 {
                        Err(e) => (st1, Err(e)),
                        Ok(_) => (st1, Ok(IsiType::Unit)),
                    }
                },
            }
        },
    }
}

/// A control-flow condition must be `Bool`.
pub open spec fn tc_cond(st: TcMap, cond: ExprV) -> Result<IsiType, CheckErrorV> {
    match tc_expr(st, cond) {
        Err(e) => Err(e),
        Ok(t) => {
            if t != IsiType::Bool {
                Err(
                    CheckErrorV {
                        span: expr_v_span(cond),
                        kind: CheckErrorKindV::NonBoolCondition { found: t },
                    },
                )
            } else {
                Ok(t)
            }
        },
    }
}

/// A block checks its statements in order and stops at the first error.
pub open spec fn tc_block(st: TcMap, body: Seq<StatementV>, i: int) -> (TcMap, Result<
    IsiType,
    CheckErrorV,
>)
    decreases body, body.len() - i, 0int,
{
    if 0 <= i < body.len() {
        let (st1, r) = tc_stmt(st, body[i]);
        match r {
            Err(e) => (st1, Err(e)),
            Ok(_) => tc_block(st1, body, i + 1),
        }
    } else {
        (st, Ok(IsiType::Unit))
    }
}

/// The whole pass: every top-level statement is checked, each against the
/// table its predecessors left, and every result is kept in order.
pub open spec fn tc_pass(st: TcMap, stmts: Seq<StatementV>, i: int) -> (TcMap, Seq<Result<
    IsiType,
    CheckErrorV,
>>)
    decreases stmts.len() - i,
{
    if 0 <= i < stmts.len() {
        let (st1, r) = tc_stmt(st, stmts[i]);
        let (stf, rest) = tc_pass(st1, stmts, i + 1);
        (stf, seq![r] + rest)
    } else {
        (st, Seq::empty())
    }
}

/// The whole check: every top-level statement is checked against the table
/// its predecessors left, and the errors are collected in source order.
pub open spec fn tc_top(st: TcMap, stmts: Seq<StatementV>, i: int) -> (TcMap, Seq<CheckErrorV>)
    decreases stmts.len() - i,
{
    if 0 <= i < stmts.len() {
        let (st1, r) = tc_stmt(st, stmts[i]);
        let (stf, es) = tc_top(st1, stmts, i + 1);
        match r {
            Ok(_) => (stf, es),
            Err(e) => (stf, seq![e] + es),
        }
    } else {
        (st, Seq::empty())
    }
}

/// The type check of a whole program: the final symbol table and the ordered
/// error list. An empty error list means the program is well typed.
pub open spec fn tc_program(p: IsiProgramV) -> (TcMap, Seq<CheckErrorV>) {
    tc_top(Map::empty(), p.statements, 0)
}

pub open spec fn res_view(r: Result<IsiType, CheckError>) -> Result<IsiType, CheckErrorV> {
    match r {
        Ok(t) => Ok(t),
        Err(e) => Err(e@),
    }
}

pub open spec fn results_view(rs: Seq<Result<IsiType, CheckError>>) -> Seq<Result<
    IsiType,
    CheckErrorV,
>> {
    rs.map_values(|r: Result<IsiType, CheckError>| res_view(r))
}

// ---------------------------------------------------------------------------
// The executable checker.
// ---------------------------------------------------------------------------

/// The type checker. It owns the symbol table it builds; the table stays
/// available to later stages even when the check reports errors.
pub struct TypeCk {
    pub sym_table: NameMap<SymbolInfo>,
}

impl TypeCk {
    pub fn new() -> (r: TypeCk)
        ensures
            r.sym_table.wf(),
            r.sym_table@ == Map::<Seq<u8>, SymbolInfo>::empty(),
    {
        TypeCk { sym_table: NameMap::new() }
    }

    pub fn visit_int_literal(&mut self, _lit: &IntLiteral) -> (r: Result<IsiType, CheckError>)
        ensures
            *final(self) == *old(self),
            r == Ok::<IsiType, CheckError>(IsiType::Int),
    {
        Ok(IsiType::Int)
    }

    pub fn visit_float_literal(&mut self, _lit: &FloatLiteral) -> (r: Result<IsiType, CheckError>)
        ensures
            *final(self) == *old(self),
            r == Ok::<IsiType, CheckError>(IsiType::Float),
    {
        Ok(IsiType::Float)
    }

    pub fn visit_string_literal(&mut self, _lit: &StringLiteral) -> (r: Result<
        IsiType,
        CheckError,
    >)
        ensures
            *final(self) == *old(self),
            r == Ok::<IsiType, CheckError>(IsiType::String),
    {
        Ok(IsiType::String)
    }

    pub fn visit_ident(&mut self, id: &Ident) -> (r: Result<IsiType, CheckError>)
        requires
            old(self).sym_table.wf(),
        ensures
            *final(self) == *old(self),
            res_view(r) == tc_expr(old(self).sym_table@, ExprV::Ident(id@)),
    {
        match self.sym_table.get(id.name.as_slice()) {
            Some(sym) => Ok(sym.ty),
            None => Err(
                CheckError {
                    span: id.span,
                    kind: CheckErrorKind::UndefinedVariable {
                        name: crate::ast::copy_bytes(id.name.as_slice()),
                    },
                },
            ),
        }
    }

    pub fn visit_fn_call(&mut self, _call: &FnCall) -> (r: Result<IsiType, CheckError>)
        ensures
            *final(self) == *old(self),
            r == Ok::<IsiType, CheckError>(IsiType::Unit),
    {
        Ok(IsiType::Unit)
    }

    pub fn visit_decl(&mut self, decl: &VarDecl) -> (r: Result<IsiType, CheckError>)
        requires
            old(self).sym_table.wf(),
        ensures
            final(self).sym_table.wf(),
            (final(self).sym_table@, res_view(r)) == tc_decl(old(self).sym_table@, decl@),
    {
        let span = decl.span;
        if self.sym_table.contains(decl.var_name.name.as_slice()) {
            return Err(
                CheckError {
                    span,
                    kind: CheckErrorKind::Redeclaration {
                        name: crate::ast::copy_bytes(decl.var_name.name.as_slice()),
                    },
                },
            );
        }
        let tyname = decl.var_type.name.as_slice();
        let int_name: [u8; 3] = [105, 110, 116];
        let float_name: [u8; 5] = [102, 108, 111, 97, 116];
        let string_name: [u8; 6] = [115, 116, 114, 105, 110, 103];
        proof {
            assert(int_name@ =~= ty_name_int());
            assert(float_name@ =~= ty_name_float());
            assert(string_name@ =~= ty_name_string());
        }
        let ty = if bytes_eq(tyname, int_name.as_slice()) {
            IsiType::Int
        } else if bytes_eq(tyname, float_name.as_slice()) {
            IsiType::Float
        } else if bytes_eq(tyname, string_name.as_slice()) {
            IsiType::String
        } else {
            return Err(
                CheckError {
                    span,
                    kind: CheckErrorKind::UnknownType {
                        name: crate::ast::copy_bytes(decl.var_type.name.as_slice()),
                    },
                },
            );
        };
        self.sym_table.insert(
            crate::ast::copy_bytes(decl.var_name.name.as_slice()),
            SymbolInfo { ty, declaration: span },
        );
        Ok(ty)
    }

    pub fn visit_multi_decl(&mut self, decls: &MultiVarDecl) -> (r: Result<IsiType, CheckError>)
        requires
            old(self).sym_table.wf(),
        ensures
            final(self).sym_table.wf(),
            (final(self).sym_table@, res_view(r)) == tc_multidecl(
                old(self).sym_table@,
                var_decls_view(decls.0@),
                0,
            ),
    {
        let ghost st0 = self.sym_table@;
        let ghost dsv = var_decls_view(decls.0@);
        let mut i: usize = 0;
        while i < decls.0.len()
            invariant
                0 <= i <= decls.0@.len(),
                self.sym_table.wf(),
                st0 == old(self).sym_table@,
                dsv == var_decls_view(decls.0@),
                dsv.len() == decls.0@.len(),
                tc_multidecl(st0, dsv, 0) == tc_multidecl(self.sym_table@, dsv, i as int),
            decreases decls.0@.len() - i,
        {
            proof {
                assert(dsv[i as int] == crate::ast::var_decl_view(decls.0@[i as int]));
            }
            let ghost st_before = self.sym_table@;
            match self.visit_decl(&decls.0[i]) {
                Err(e) => {
                    proof {
                        let (st1, r1) = tc_decl(st_before, dsv[i as int]);
                        assert(st1 == self.sym_table@ && r1 == Err::<IsiType, CheckErrorV>(e@));
                        assert(tc_multidecl(st_before, dsv, i as int) == (
                            self.sym_table@,
                            Err::<IsiType, CheckErrorV>(e@),
                        ));
                    }
                    return Err(e);
                },
                Ok(_) => {
                    proof {
                        assert(tc_multidecl(st_before, dsv, i as int) == tc_multidecl(
                            self.sym_table@,
                            dsv,
                            i + 1,
                        ));
                    }
                },
            }
            i = i + 1;
        }
        Ok(IsiType::Unit)
    }

    pub fn visit_bin_expr(&mut self, bexpr: &BinExpr) -> (r: Result<IsiType, CheckError>)
        requires
            old(self).sym_table.wf(),
        ensures
            *final(self) == *old(self),
            final(self).sym_table.wf(),
            res_view(r) == tc_expr(old(self).sym_table@, expr_view(Expr::BinExpr(*bexpr))),
        decreases *bexpr, 0int,
    {
        let span = bexpr.get_span();
        let left = match self.visit_expr(&bexpr.1) {
            Ok(t) => t,
            Err(e) => {
                return Err(e);
            },
        };
        let right = match self.visit_expr(&bexpr.2) {
            Ok(t) => t,
            Err(e) => {
                return Err(e);
            },
        };
        if left != right {
            return Err(
                CheckError {
                    span,
                    kind: CheckErrorKind::MismatchedBinOperands { op: bexpr.0, left, right },
                },
            );
        }
        match bexpr.0 {
            BinaryOp::Add => Ok(left),
            BinaryOp::Sub | BinaryOp::Mul | BinaryOp::Div => {
                if left == IsiType::String || left == IsiType::Unit {
                    Err(
                        CheckError {
                            span,
                            kind: CheckErrorKind::InvalidOperands { op: bexpr.0, ty: left },
                        },
                    )
                } else {
                    Ok(left)
                }
            },
            BinaryOp::Mod => {
                if left == IsiType::Int {
                    Ok(IsiType::Int)
                } else {
                    Err(
                        CheckError {
                            span,
                            kind: CheckErrorKind::InvalidOperands { op: bexpr.0, ty: left },
                        },
                    )
                }
            },
            BinaryOp::Gt | BinaryOp::Lt | BinaryOp::Geq | BinaryOp::Leq | BinaryOp::Eq
                | BinaryOp::Neq => Ok(IsiType::Bool),
            BinaryOp::And | BinaryOp::Or => {
                if left == IsiType::Bool {
                    Ok(IsiType::Bool)
                } else {
                    Err(
                        CheckError {
                            span,
                            kind: CheckErrorKind::InvalidOperands { op: bexpr.0, ty: left },
                        },
                    )
                }
            },
        }
    }

    pub fn visit_negation(&mut self, neg: &Negation) -> (r: Result<IsiType, CheckError>)
        requires
            old(self).sym_table.wf(),
        ensures
            *final(self) == *old(self),
            final(self).sym_table.wf(),
            res_view(r) == tc_expr(old(self).sym_table@, expr_view(Expr::Negation(*neg))),
        decreases *neg, 0int,
    {
        let ty = match self.visit_expr(&neg.expr) {
            Ok(t) => t,
            Err(e) => {
                return Err(e);
            },
        };
        if ty != IsiType::Bool {
            Err(
                CheckError {
                    span: neg.get_span(),
                    kind: CheckErrorKind::NonBoolNegation { found: ty },
                },
            )
        } else {
            Ok(IsiType::Bool)
        }
    }

    pub fn visit_expr(&mut self, expr: &Expr) -> (r: Result<IsiType, CheckError>)
        requires
            old(self).sym_table.wf(),
        ensures
            *final(self) == *old(self),
            final(self).sym_table.wf(),
            res_view(r) == tc_expr(old(self).sym_table@, expr_view(*expr)),
        decreases *expr, 1int,
    {
        match expr {
            Expr::Ident(id) => self.visit_ident(id),
            Expr::ImmInt(imm) => self.visit_int_literal(imm),
            Expr::ImmFloat(imm) => self.visit_float_literal(imm),
            Expr::ImmString(imm) => self.visit_string_literal(imm),
            Expr::BinExpr(bexp) => self.visit_bin_expr(bexp),
            Expr::FnCall(call) => self.visit_fn_call(call),
            Expr::Negation(neg) => self.visit_negation(neg),
        }
    }

    /// The condition of a conditional or loop; reports a non-`Bool` type.
    fn check_cond(&mut self, cond: &Expr) -> (r: Result<IsiType, CheckError>)
        requires
            old(self).sym_table.wf(),
        ensures
            *final(self) == *old(self),
            final(self).sym_table.wf(),
            res_view(r) == tc_cond(old(self).sym_table@, expr_view(*cond)),
        decreases *cond, 2int,
    {
        let cond_span = cond.get_span();
        let ty = match self.visit_expr(cond) {
            Ok(t) => t,
            Err(e) => {
                return Err(e);
            },
        };
        if ty != IsiType::Bool {
            Err(CheckError { span: cond_span, kind: CheckErrorKind::NonBoolCondition { found: ty } })
        } else {
            Ok(ty)
        }
    }

    /// A statement list checked in order, stopping at the first error.
    fn check_block(&mut self, body: &Vec<Statement>) -> (r: Result<IsiType, CheckError>)
        requires
            old(self).sym_table.wf(),
        ensures
            final(self).sym_table.wf(),
            (final(self).sym_table@, res_view(r)) == tc_block(
                old(self).sym_table@,
                stmts_view(body@),
                0,
            ),
        decreases *body, 0int,
    {
        let ghost st0 = self.sym_table@;
        let ghost bv = stmts_view(body@);
        proof {
            lemma_stmts_view_len(body@);
        }
        let mut i: usize = 0;
        while i < body.len()
            invariant
                0 <= i <= body@.len(),
                self.sym_table.wf(),
                st0 == old(self).sym_table@,
                bv == stmts_view(body@),
                bv.len() == body@.len(),
                forall|t: int| 0 <= t < body@.len() ==> bv[t] == crate::ast::stmt_view(body@[t]),
                tc_block(st0, bv, 0) == tc_block(self.sym_table@, bv, i as int),
            decreases body@.len() - i,
        {
            let ghost st_before = self.sym_table@;
            match self.visit_statement(&body[i]) {
                Err(e) => {
                    proof {
                        let (st1, r1) = tc_stmt(st_before, bv[i as int]);
                        assert(st1 == self.sym_table@ && r1 == Err::<IsiType, CheckErrorV>(e@));
                        assert(tc_block(st_before, bv, i as int) == (
                            self.sym_table@,
                            Err::<IsiType, CheckErrorV>(e@),
                        ));
                    }
                    return Err(e);
                },
                Ok(_) => {
                    proof {
                        assert(tc_block(st_before, bv, i as int) == tc_block(
                            self.sym_table@,
                            bv,
                            i + 1,
                        ));
                    }
                },
            }
            i = i + 1;
        }
        Ok(IsiType::Unit)
    }

    pub fn visit_assignment(&mut self, assignment: &Assignment) -> (r: Result<IsiType, CheckError>)
        requires
            old(self).sym_table.wf(),
        ensures
            final(self).sym_table.wf(),
            (final(self).sym_table@, res_view(r)) == tc_stmt(
                old(self).sym_table@,
                crate::ast::stmt_view(Statement::Assignment(*assignment)),
            ),
        decreases *assignment,
    {
        let span = assignment.get_span();
        let left = match self.visit_ident(&assignment.ident) {
            Ok(t) => t,
            Err(e) => {
                return Err(e);
            },
        };
        let right = match self.visit_expr(&assignment.val) {
            Ok(t) => t,
            Err(e) => {
                return Err(e);
            },
        };
        if left != right {
            return Err(
                CheckError {
                    span,
                    kind: CheckErrorKind::MismatchedAssignment { expected: left, found: right },
                },
            );
        }
        Ok(left)
    }

    pub fn visit_conditional(&mut self, conditional: &Conditional) -> (r: Result<
        IsiType,
        CheckError,
    >)
        requires
            old(self).sym_table.wf(),
        ensures
            final(self).sym_table.wf(),
            (final(self).sym_table@, res_view(r)) == tc_stmt(
                old(self).sym_table@,
                crate::ast::stmt_view(Statement::Conditional(*conditional)),
            ),
        decreases *conditional, 3int,
    {
        match self.check_cond(&conditional.cond) {
            Err(e) => {
                return Err(e);
            },
            Ok(_) => {},
        }
        match self.check_block(&conditional.taken) {
            Err(e) => {
                return Err(e);
            },
            Ok(_) => {},
        }
        match self.check_block(&conditional.not_taken) {
            Err(e) => {
                return Err(e);
            },
            Ok(_) => {},
        }
        Ok(IsiType::Unit)
    }

    pub fn visit_while_loop(&mut self, while_loop: &WhileLoop) -> (r: Result<IsiType, CheckError>)
        requires
            old(self).sym_table.wf(),
        ensures
            final(self).sym_table.wf(),
            (final(self).sym_table@, res_view(r)) == tc_stmt(
                old(self).sym_table@,
                crate::ast::stmt_view(Statement::WhileLoop(*while_loop)),
            ),
        decreases *while_loop, 3int,
    {
        match self.check_cond(&while_loop.cond) {
            Err(e) => {
                return Err(e);
            },
            Ok(_) => {},
        }
        match self.check_block(&while_loop.body) {
            Err(e) => {
                return Err(e);
            },
            Ok(_) => {},
        }
        Ok(IsiType::Unit)
    }

    pub fn visit_do_while_loop(&mut self, do_while_loop: &DoWhileLoop) -> (r: Result<
        IsiType,
        CheckError,
    >)
        requires
            old(self).sym_table.wf(),
        ensures
            final(self).sym_table.wf(),
            (final(self).sym_table@, res_view(r)) == tc_stmt(
                old(self).sym_table@,
                crate::ast::stmt_view(Statement::DoWhileLoop(*do_while_loop)),
            ),
        decreases *do_while_loop, 3int,
    {
        match self.check_cond(&do_while_loop.cond) {
            Err(e) => {
                return Err(e);
            },
            Ok(_) => {},
        }
        match self.check_block(&do_while_loop.body) {
            Err(e) => {
                return Err(e);
            },
            Ok(_) => {},
        }
        Ok(IsiType::Unit)
    }

    pub fn visit_statement(&mut self, stmt: &Statement) -> (r: Result<IsiType, CheckError>)
        requires
            old(self).sym_table.wf(),
        ensures
            final(self).sym_table.wf(),
            (final(self).sym_table@, res_view(r)) == tc_stmt(
                old(self).sym_table@,
                crate::ast::stmt_view(*stmt),
            ),
        decreases *stmt, 4int,
    {
        match stmt {
            Statement::Assignment(ass) => self.visit_assignment(ass),
            Statement::Decl(mdecl) => self.visit_multi_decl(mdecl),
            Statement::FnCall(call) => self.visit_fn_call(call),
            Statement::Conditional(cond) => self.visit_conditional(cond),
            Statement::WhileLoop(l) => self.visit_while_loop(l),
            Statement::DoWhileLoop(l) => self.visit_do_while_loop(l),
        }
    }

    /// Checks every top-level statement in source order and returns one
    /// result per statement.
    pub fn visit_program(&mut self, program: &IsiProgram) -> (r: Vec<Result<IsiType, CheckError>>)
        requires
            old(self).sym_table.wf(),
        ensures
            final(self).sym_table.wf(),
            r@.len() == program.statements@.len(),
            (final(self).sym_table@, results_view(r@)) == tc_pass(
                old(self).sym_table@,
                stmts_view(program.statements@),
                0,
            ),
    {
        let ghost st0 = self.sym_table@;
        let ghost sv = stmts_view(program.statements@);
        proof {
            lemma_stmts_view_len(program.statements@);
        }
        let mut ret: Vec<Result<IsiType, CheckError>> = Vec::new();
        let mut i: usize = 0;
        while i < program.statements.len()
            invariant
                0 <= i <= program.statements@.len(),
                self.sym_table.wf(),
                st0 == old(self).sym_table@,
                sv == stmts_view(program.statements@),
                sv.len() == program.statements@.len(),
                forall|t: int|
                    0 <= t < program.statements@.len() ==> sv[t] == crate::ast::stmt_view(
                        program.statements@[t],
                    ),
                ret@.len() == i,
                tc_pass(st0, sv, 0) == {
                    let (stf, rest) = tc_pass(self.sym_table@, sv, i as int);
                    (stf, results_view(ret@) + rest)
                },
            decreases program.statements@.len() - i,
        {
            let ghost pre = ret@;
            let r = self.visit_statement(&program.statements[i]);
            ret.push(r);
            proof {
                assert(results_view(ret@) =~= results_view(pre).push(res_view(r)));
                assert(results_view(pre).push(res_view(r)) + tc_pass(self.sym_table@, sv, i + 1).1
                    =~= results_view(pre) + (seq![res_view(r)] + tc_pass(
                    self.sym_table@,
                    sv,
                    i + 1,
                ).1));
            }
            i = i + 1;
        }
        proof {
            assert(results_view(ret@) + Seq::<Result<IsiType, CheckErrorV>>::empty() =~= results_view(
                ret@,
            ));
        }
        ret
    }

    /// Runs the type check. `Ok` means no errors; `Err` carries every error
    /// found, in source order. Either way the symbol table stays populated.
    pub fn check(&mut self, program: &IsiProgram) -> (r: Result<(), Vec<CheckError>>)
        requires
            old(self).sym_table.wf(),
        ensures
            final(self).sym_table.wf(),
            (
                final(self).sym_table@,
                match r {
                    Ok(()) => Seq::<CheckErrorV>::empty(),
                    Err(es) => errors_view(es@),
                },
            ) == tc_top(old(self).sym_table@, stmts_view(program.statements@), 0),
            (r matches Err(es) ==> es@.len() > 0),
    {
        let ghost st0 = self.sym_table@;
        let ghost sv = stmts_view(program.statements@);
        proof {
            lemma_stmts_view_len(program.statements@);
        }
        let mut errs: Vec<CheckError> = Vec::new();
        let mut i: usize = 0;
        while i < program.statements.len()
            invariant
                0 <= i <= program.statements@.len(),
                self.sym_table.wf(),
                st0 == old(self).sym_table@,
                sv == stmts_view(program.statements@),
                sv.len() == program.statements@.len(),
                forall|t: int|
                    0 <= t < program.statements@.len() ==> sv[t] == crate::ast::stmt_view(
                        program.statements@[t],
                    ),
                errors_view(errs@).len() == errs@.len(),
                tc_top(st0, sv, 0) == {
                    let (stf, rest) = tc_top(self.sym_table@, sv, i as int);
                    (stf, errors_view(errs@) + rest)
                },
            decreases program.statements@.len() - i,
        {
            match self.visit_statement(&program.statements[i]) {
                Ok(_) => {},
                Err(e) => {
                    let ghost pre = errs@;
                    let ghost ev = e@;
                    errs.push(e);
                    proof {
                        assert(errors_view(errs@) =~= errors_view(pre).push(ev));
                        assert(errors_view(pre).push(ev) + tc_top(self.sym_table@, sv, i + 1).1
                            =~= errors_view(pre) + (seq![ev] + tc_top(
                            self.sym_table@,
                            sv,
                            i + 1,
                        ).1));
                    }
                },
            }
            i = i + 1;
        }
        proof {
            assert(errors_view(errs@) + Seq::<CheckErrorV>::empty() =~= errors_view(errs@));
        }
        if errs.len() == 0 {
            proof {
                assert(errors_view(errs@) =~= Seq::<CheckErrorV>::empty());
            }
            Ok(())
        } else {
            Err(errs)
        }
    }
}

// ---------------------------------------------------------------------------
// A program that type-checks has a table entry for every name the checker
// looks at: every declared name, every assignment target, and every
// identifier inside a checked expression. Arguments of calls are the one
// exception: the checker does not type call arguments (the built-ins accept
// any scalar), so nothing is promised of identifiers that appear only there.
// ---------------------------------------------------------------------------

/// Every identifier the checker types in `e` is bound in `m`. Call arguments
/// are not typed, so they are exempt.
pub open spec fn expr_names_declared(e: ExprV, m: TcMap) -> bool
    decreases e,
{
    match e {
        ExprV::Ident(id) => m.dom().contains(id.name),
        ExprV::ImmInt(_, _) => true,
        ExprV::ImmFloat(_) => true,
        ExprV::ImmString(_, _) => true,
        ExprV::BinExpr(_, l, r) => expr_names_declared(*l, m) && expr_names_declared(*r, m),
        ExprV::FnCall(_) => true,
        ExprV::Negation(n) => expr_names_declared(*n.expr, m),
    }
}

/// Every name the checker looks at in `s` is bound in `m`.
pub open spec fn stmt_names_declared(s: StatementV, m: TcMap) -> bool
    decreases s,
{
    match s {
        StatementV::Decl(ds) => forall|i: int|
            0 <= i < ds.len() ==> m.dom().contains((#[trigger] ds[i]).var_name.name),
        StatementV::FnCall(_) => true,
        StatementV::Assignment(a) => m.dom().contains(a.ident.name) && expr_names_declared(
            a.val,
            m,
        ),
        StatementV::Conditional(c) => {
            &&& expr_names_declared(c.cond, m)
            &&& stmts_names_declared(c.taken, m)
            &&& stmts_names_declared(c.not_taken, m)
        },
        StatementV::WhileLoop(l) => expr_names_declared(l.cond, m) && stmts_names_declared(
            l.body,
            m,
        ),
        StatementV::DoWhileLoop(l) => expr_names_declared(l.cond, m) && stmts_names_declared(
            l.body,
            m,
        ),
    }
}

pub open spec fn stmts_names_declared(v: Seq<StatementV>, m: TcMap) -> bool
    decreases v,
{
    if v.len() == 0 {
        true
    } else {
        stmts_names_declared(v.drop_last(), m) && stmt_names_declared(v.last(), m)
    }
}

proof fn lemma_tc_expr_names(st: TcMap, e: ExprV)
    requires
        tc_expr(st, e) is Ok,
    ensures
        expr_names_declared(e, st),
    decreases e,
{
    match e {
        ExprV::BinExpr(_, l, r) => {
            lemma_tc_expr_names(st, *l);
            lemma_tc_expr_names(st, *r);
        },
        ExprV::Negation(n) => {
            lemma_tc_expr_names(st, *n.expr);
        },
        _ => {},
    }
}

proof fn lemma_expr_names_mono(e: ExprV, m1: TcMap, m2: TcMap)
    requires
        expr_names_declared(e, m1),
        m1.dom().subset_of(m2.dom()),
    ensures
        expr_names_declared(e, m2),
    decreases e,
{
    match e {
        ExprV::BinExpr(_, l, r) => {
            lemma_expr_names_mono(*l, m1, m2);
            lemma_expr_names_mono(*r, m1, m2);
        },
        ExprV::Negation(n) => {
            lemma_expr_names_mono(*n.expr, m1, m2);
        },
        _ => {},
    }
}

proof fn lemma_stmt_names_mono(s: StatementV, m1: TcMap, m2: TcMap)
    requires
        stmt_names_declared(s, m1),
        m1.dom().subset_of(m2.dom()),
    ensures
        stmt_names_declared(s, m2),
    decreases s, 1int,
{
    match s {
        StatementV::Decl(ds) => {},
        StatementV::FnCall(_) => {},
        StatementV::Assignment(a) => {
            lemma_expr_names_mono(a.val, m1, m2);
        },
        StatementV::Conditional(c) => {
            lemma_expr_names_mono(c.cond, m1, m2);
            lemma_stmts_names_mono(c.taken, m1, m2);
            lemma_stmts_names_mono(c.not_taken, m1, m2);
        },
        StatementV::WhileLoop(l) => {
            lemma_expr_names_mono(l.cond, m1, m2);
            lemma_stmts_names_mono(l.body, m1, m2);
        },
        StatementV::DoWhileLoop(l) => {
            lemma_expr_names_mono(l.cond, m1, m2);
            lemma_stmts_names_mono(l.body, m1, m2);
        },
    }
}

proof fn lemma_stmts_names_mono(v: Seq<StatementV>, m1: TcMap, m2: TcMap)
    requires
        stmts_names_declared(v, m1),
        m1.dom().subset_of(m2.dom()),
    ensures
        stmts_names_declared(v, m2),
    decreases v, 0int,
{
    if v.len() > 0 {
        lemma_stmts_names_mono(v.drop_last(), m1, m2);
        lemma_stmt_names_mono(v.last(), m1, m2);
    }
}

proof fn lemma_tc_multidecl_names(st: TcMap, ds: Seq<VarDeclV>, i: int)
    requires
        tc_multidecl(st, ds, i).1 is Ok,
        0 <= i,
    ensures
        st.dom().subset_of(tc_multidecl(st, ds, i).0.dom()),
        forall|j: int|
            i <= j < ds.len() ==> tc_multidecl(st, ds, i).0.dom().contains(
                (#[trigger] ds[j]).var_name.name,
            ),
    decreases ds.len() - i,
{
    if i < ds.len() {
        let (st1, r) = tc_decl(st, ds[i]);
        lemma_tc_multidecl_names(st1, ds, i + 1);
        assert(st1.dom().contains(ds[i].var_name.name));
    }
}

proof fn lemma_tc_stmt_names(st: TcMap, s: StatementV)
    requires
        tc_stmt(st, s).1 is Ok,
    ensures
        st.dom().subset_of(tc_stmt(st, s).0.dom()),
        stmt_names_declared(s, tc_stmt(st, s).0),
    decreases s, 2int,
{
    let (stf, _) = tc_stmt(st, s);
    match s {
        StatementV::Decl(ds) => {
            lemma_tc_multidecl_names(st, ds, 0);
        },
        StatementV::FnCall(_) => {},
        StatementV::Assignment(a) => {
            lemma_tc_expr_names(st, a.val);
        },
        StatementV::Conditional(c) => {
            lemma_tc_expr_names(st, c.cond);
            let (st1, r1) = tc_block(st, c.taken, 0);
            lemma_tc_block_names(st, c.taken, 0);
            let (st2, r2) = tc_block(st1, c.not_taken, 0);
            lemma_tc_block_names(st1, c.not_taken, 0);
            lemma_expr_names_mono(c.cond, st, st2);
            assert forall|j: int| 0 <= j < c.taken.len() implies stmt_names_declared(
                #[trigger] c.taken[j],
                st2,
            ) by {
                lemma_stmt_names_mono(c.taken[j], st1, st2);
            }
            lemma_stmts_names_declared_from_forall(c.taken, st2);
            lemma_stmts_names_declared_from_forall(c.not_taken, st2);
        },
        StatementV::WhileLoop(l) => {
            lemma_tc_expr_names(st, l.cond);
            let (st1, r1) = tc_block(st, l.body, 0);
            lemma_tc_block_names(st, l.body, 0);
            lemma_expr_names_mono(l.cond, st, st1);
            lemma_stmts_names_declared_from_forall(l.body, st1);
        },
        StatementV::DoWhileLoop(l) => {
            lemma_tc_expr_names(st, l.cond);
            let (st1, r1) = tc_block(st, l.body, 0);
            lemma_tc_block_names(st, l.body, 0);
            lemma_expr_names_mono(l.cond, st, st1);
            lemma_stmts_names_declared_from_forall(l.body, st1);
        },
    }
}

/// Folds a per-element `stmt_names_declared` fact into the recursive
/// conjunction over the whole list.
proof fn lemma_stmts_names_declared_from_forall(v: Seq<StatementV>, m: TcMap)
    requires
        forall|j: int| 0 <= j < v.len() ==> stmt_names_declared(#[trigger] v[j], m),
    ensures
        stmts_names_declared(v, m),
    decreases v,
{
    if v.len() > 0 {
        assert forall|j: int| 0 <= j < v.drop_last().len() implies stmt_names_declared(
            #[trigger] v.drop_last()[j],
            m,
        ) by {
            assert(v.drop_last()[j] == v[j]);
        }
        lemma_stmts_names_declared_from_forall(v.drop_last(), m);
    }
}

proof fn lemma_tc_block_names(st: TcMap, body: Seq<StatementV>, i: int)
    requires
        tc_block(st, body, i).1 is Ok,
        0 <= i,
    ensures
        st.dom().subset_of(tc_block(st, body, i).0.dom()),
        forall|j: int|
            i <= j < body.len() ==> stmt_names_declared(
                #[trigger] body[j],
                tc_block(st, body, i).0,
            ),
    decreases body, body.len() - i, 3int,
{
    if 0 <= i < body.len() {
        let (st1, r) = tc_stmt(st, body[i]);
        lemma_tc_stmt_names(st, body[i]);
        lemma_tc_block_names(st1, body, i + 1);
        let (stf, _) = tc_block(st1, body, i + 1);
        lemma_stmt_names_mono(body[i], st1, stf);
    }
}

proof fn lemma_tc_top_names(st: TcMap, stmts: Seq<StatementV>, i: int)
    requires
        tc_top(st, stmts, i).1 == Seq::<CheckErrorV>::empty(),
        0 <= i,
    ensures
        st.dom().subset_of(tc_top(st, stmts, i).0.dom()),
        forall|j: int|
            i <= j < stmts.len() ==> stmt_names_declared(
                #[trigger] stmts[j],
                tc_top(st, stmts, i).0,
            ),
    decreases stmts.len() - i,
{
    if 0 <= i < stmts.len() {
        let (st1, r) = tc_stmt(st, stmts[i]);
        let (stf, es) = tc_top(st1, stmts, i + 1);
        match r {
            Ok(_) => {
                lemma_tc_stmt_names(st, stmts[i]);
                lemma_tc_top_names(st1, stmts, i + 1);
                lemma_stmt_names_mono(stmts[i], st1, stf);
            },
            Err(e) => {
                assert((seq![e] + es).len() > 0);
            },
        }
    }
}

/// A program that type-checks without errors leaves a symbol table holding
/// every declared name, every assignment target, and every identifier of a
/// checked expression. Identifiers that occur only as call arguments are not
/// covered: the checker does not type call arguments.
pub proof fn lemma_typecheck_populates_table(p: IsiProgramV)
    requires
        tc_program(p).1 == Seq::<CheckErrorV>::empty(),
    ensures
        forall|j: int|
            0 <= j < p.statements.len() ==> stmt_names_declared(
                #[trigger] p.statements[j],
                tc_program(p).0,
            ),
{
    lemma_tc_top_names(Map::empty(), p.statements, 0);
}

} // verus!
