//! The syntax tree: programs, statements and expressions, each node carrying
//! the span of the source range that produced it. Beside the executable types
//! stand their mathematical models (`ExprV`, `StatementV`, ...), which every
//! later pass's contract is stated over, together with the span and
//! well-formedness functions shared by those contracts.

use vstd::prelude::*;

use crate::span::Span;

verus! {

use vstd::std_specs::cmp::PartialEqSpec;

/// A node of type `T` together with the source range it came from.
pub struct Spanned<T: core::fmt::Debug + PartialEq + Eq> {
    pub span: Span,
    pub node: T,
}

/// An unsigned integer literal.
#[derive(Debug, PartialEq, Eq)]
pub struct IntLiteral(pub u64, pub Span);

/// A float literal, kept as its two decimal digit runs. The source form is
/// `int_part ',' frac_part`; the digit text is preserved so later stages can
/// reproduce the literal without a binary float type.
#[derive(Debug, PartialEq, Eq)]
pub struct FloatLiteral {
    pub int_part: Vec<u8>,
    pub frac_part: Vec<u8>,
    pub span: Span,
}

/// A string literal; the bytes between the quotes.
#[derive(Debug, PartialEq, Eq)]
pub struct StringLiteral(pub Vec<u8>, pub Span);

/// An identifier. Equality ignores the span: a declaration and a later use
/// of the same name are the same identifier.
#[derive(Debug, Eq, Clone)]
pub struct Ident {
    pub name: Vec<u8>,
    pub span: Span,
}

impl PartialEq for Ident {
    fn eq(&self, other: &Self) -> (r: bool) {
        let r = self.name == other.name;
        proof {
            assert(r == self.name.eq_spec(&other.name));
            if r {
                assert(self.name@ =~= other.name@);
            } else {
                if self.name@ == other.name@ {
                    assert(self.name.eq_spec(&other.name));
                }
            }
        }
        r
    }
}

impl vstd::std_specs::cmp::PartialEqSpecImpl for Ident {
    open spec fn obeys_eq_spec() -> bool {
        true
    }

    open spec fn eq_spec(&self, other: &Ident) -> bool {
        self.name@ == other.name@
    }
}

impl Ident {
    pub fn new(name: &[u8], span: Span) -> (r: Ident)
        ensures
            r.name@ == name@,
            r.span == span,
    {
        Ident { name: crate::ast::copy_bytes(name), span }
    }
}

/// Copies a byte slice into an owned vector.
pub fn copy_bytes(s: &[u8]) -> (r: Vec<u8>)
    ensures
        r@ == s@,
{
    let mut r: Vec<u8> = Vec::new();
    let mut i: usize = 0;
    while i < s.len()
        invariant
            i <= s@.len(),
            r@ == s@.subrange(0, i as int),
        decreases s@.len() - i,
    {
        r.push(s[i]);
        i = i + 1;
        proof {
            assert(r@ =~= s@.subrange(0, i as int));
        }
    }
    proof {
        assert(r@ =~= s@);
    }
    r
}

/// A single `name : type` declaration.
#[derive(Debug, PartialEq, Eq)]
pub struct VarDecl {
    pub var_name: Ident,
    pub var_type: Ident,
    pub span: Span,
}

impl VarDecl {
    pub fn new(var_name: Ident, var_type: Ident, span: Span) -> (r: VarDecl)
        ensures
            r.var_name == var_name,
            r.var_type == var_type,
            r.span == span,
    {
        VarDecl { var_name, var_type, span }
    }
}

/// The `declare a, b : int.` shorthand: one statement, several declarations.
#[derive(Debug, PartialEq, Eq)]
pub struct MultiVarDecl(pub Vec<VarDecl>);

#[derive(Debug, PartialEq, Eq, Clone, Copy, Structural)]
pub enum BinaryOp {
    Add,
    Sub,
    Mul,
    Div,
    Gt,
    Lt,
    Geq,
    Leq,
    Eq,
    Neq,
    And,
    Or,
    Mod,
}

#[derive(Debug, PartialEq, Eq)]
pub struct BinExpr(pub BinaryOp, pub Box<Expr>, pub Box<Expr>);

#[derive(Debug, PartialEq, Eq)]
pub struct Negation {
    pub expr: Box<Expr>,
    pub span: Span,
}

impl Negation {
    pub fn new(expr: Box<Expr>, span: Span) -> (r: Negation)
        ensures
            r.expr == expr,
            r.span == span,
    {
        Negation { expr, span }
    }
}

#[derive(Debug, PartialEq, Eq)]
pub enum Expr {
    Ident(Ident),
    ImmInt(IntLiteral),
    ImmFloat(FloatLiteral),
    ImmString(StringLiteral),
    BinExpr(BinExpr),
    FnCall(FnCall),
    Negation(Negation),
}

#[derive(Debug, PartialEq, Eq)]
pub struct FnCall {
    pub fname: Ident,
    pub args: Vec<Expr>,
}

impl FnCall {
    pub fn new(fname: Ident, args: Vec<Expr>) -> (r: FnCall)
        ensures
            r.fname == fname,
            r.args == args,
    {
        FnCall { fname, args }
    }
}

#[derive(Debug, PartialEq, Eq)]
pub struct Assignment {
    pub ident: Ident,
    pub val: Expr,
}

impl Assignment {
    pub fn new(ident: Ident, val: Expr) -> (r: Assignment)
        ensures
            r.ident == ident,
            r.val == val,
    {
        Assignment { ident, val }
    }
}

#[derive(Debug, PartialEq, Eq)]
pub struct Conditional {
    pub cond: Expr,
    pub taken: Vec<Statement>,
    pub not_taken: Vec<Statement>,
}

#[derive(Debug, PartialEq, Eq)]
pub struct WhileLoop {
    pub cond: Expr,
    pub body: Vec<Statement>,
}

#[derive(Debug, PartialEq, Eq)]
pub struct DoWhileLoop {
    pub cond: Expr,
    pub body: Vec<Statement>,
}

#[derive(Debug, PartialEq, Eq)]
pub enum Statement {
    Decl(MultiVarDecl),
    FnCall(FnCall),
    Assignment(Assignment),
    Conditional(Conditional),
    WhileLoop(WhileLoop),
    DoWhileLoop(DoWhileLoop),
}

#[derive(Debug, PartialEq, Eq)]
pub struct IsiProgram {
    pub statements: Vec<Statement>,
}

impl IsiProgram {
    pub fn new(statements: Vec<Statement>) -> (r: IsiProgram)
        ensures
            r.statements == statements,
    {
        IsiProgram { statements }
    }
}

// ---------------------------------------------------------------------------
// Mathematical models of the syntax tree. Contracts of every later pass are
// stated over these.
// ---------------------------------------------------------------------------

pub struct IdentV {
    pub name: Seq<u8>,
    pub span: Span,
}

pub struct FloatLitV {
    pub int_part: Seq<u8>,
    pub frac_part: Seq<u8>,
    pub span: Span,
}

pub struct VarDeclV {
    pub var_name: IdentV,
    pub var_type: IdentV,
    pub span: Span,
}

pub struct FnCallV {
    pub fname: IdentV,
    pub args: Seq<ExprV>,
}

pub struct NegationV {
    pub expr: Box<ExprV>,
    pub span: Span,
}

pub enum ExprV {
    Ident(IdentV),
    ImmInt(u64, Span),
    ImmFloat(FloatLitV),
    ImmString(Seq<u8>, Span),
    BinExpr(BinaryOp, Box<ExprV>, Box<ExprV>),
    FnCall(FnCallV),
    Negation(NegationV),
}

pub struct AssignmentV {
    pub ident: IdentV,
    pub val: ExprV,
}

pub struct ConditionalV {
    pub cond: ExprV,
    pub taken: Seq<StatementV>,
    pub not_taken: Seq<StatementV>,
}

pub struct WhileLoopV {
    pub cond: ExprV,
    pub body: Seq<StatementV>,
}

pub struct DoWhileLoopV {
    pub cond: ExprV,
    pub body: Seq<StatementV>,
}

pub enum StatementV {
    Decl(Seq<VarDeclV>),
    FnCall(FnCallV),
    Assignment(AssignmentV),
    Conditional(ConditionalV),
    WhileLoop(WhileLoopV),
    DoWhileLoop(DoWhileLoopV),
}

pub struct IsiProgramV {
    pub statements: Seq<StatementV>,
}

pub open spec fn ident_view(id: Ident) -> IdentV {
    IdentV { name: id.name@, span: id.span }
}

pub open spec fn var_decl_view(d: VarDecl) -> VarDeclV {
    VarDeclV {
        var_name: ident_view(d.var_name),
        var_type: ident_view(d.var_type),
        span: d.span,
    }
}

pub open spec fn var_decls_view(v: Seq<VarDecl>) -> Seq<VarDeclV> {
    v.map_values(|d: VarDecl| var_decl_view(d))
}

pub open spec fn expr_view(e: Expr) -> ExprV
    decreases e,
{
    match e {
        Expr::Ident(id) => ExprV::Ident(ident_view(id)),
        Expr::ImmInt(lit) => ExprV::ImmInt(lit.0, lit.1),
        Expr::ImmFloat(lit) => ExprV::ImmFloat(
            FloatLitV { int_part: lit.int_part@, frac_part: lit.frac_part@, span: lit.span },
        ),
        Expr::ImmString(lit) => ExprV::ImmString(lit.0@, lit.1),
        Expr::BinExpr(b) => ExprV::BinExpr(b.0, Box::new(expr_view(*b.1)), Box::new(expr_view(*b.2))),
        Expr::FnCall(c) => ExprV::FnCall(fn_call_view(c)),
        Expr::Negation(n) => ExprV::Negation(
            NegationV { expr: Box::new(expr_view(*n.expr)), span: n.span },
        ),
    }
}

pub open spec fn exprs_view(v: Seq<Expr>) -> Seq<ExprV>
    decreases v,
{
    if v.len() == 0 {
        Seq::empty()
    } else {
        exprs_view(v.drop_last()).push(expr_view(v.last()))
    }
}

pub open spec fn fn_call_view(c: FnCall) -> FnCallV
    decreases c,
{
    FnCallV { fname: ident_view(c.fname), args: exprs_view(c.args@) }
}

pub open spec fn stmt_view(s: Statement) -> StatementV
    decreases s,
{
    match s {
        Statement::Decl(m) => StatementV::Decl(var_decls_view(m.0@)),
        Statement::FnCall(c) => StatementV::FnCall(fn_call_view(c)),
        Statement::Assignment(a) => StatementV::Assignment(
            AssignmentV { ident: ident_view(a.ident), val: expr_view(a.val) },
        ),
        Statement::Conditional(c) => StatementV::Conditional(
            ConditionalV {
                cond: expr_view(c.cond),
                taken: stmts_view(c.taken@),
                not_taken: stmts_view(c.not_taken@),
            },
        ),
        Statement::WhileLoop(l) => StatementV::WhileLoop(
            WhileLoopV { cond: expr_view(l.cond), body: stmts_view(l.body@) },
        ),
        Statement::DoWhileLoop(l) => StatementV::DoWhileLoop(
            DoWhileLoopV { cond: expr_view(l.cond), body: stmts_view(l.body@) },
        ),
    }
}

pub open spec fn stmts_view(v: Seq<Statement>) -> Seq<StatementV>
    decreases v,
{
    if v.len() == 0 {
        Seq::empty()
    } else {
        stmts_view(v.drop_last()).push(stmt_view(v.last()))
    }
}

impl View for Ident {
    type V = IdentV;

    open spec fn view(&self) -> IdentV {
        ident_view(*self)
    }
}

impl View for VarDecl {
    type V = VarDeclV;

    open spec fn view(&self) -> VarDeclV {
        var_decl_view(*self)
    }
}

impl View for Expr {
    type V = ExprV;

    open spec fn view(&self) -> ExprV {
        expr_view(*self)
    }
}

impl View for FnCall {
    type V = FnCallV;

    open spec fn view(&self) -> FnCallV {
        fn_call_view(*self)
    }
}

impl View for Statement {
    type V = StatementV;

    open spec fn view(&self) -> StatementV {
        stmt_view(*self)
    }
}

impl View for IsiProgram {
    type V = IsiProgramV;

    open spec fn view(&self) -> IsiProgramV {
        IsiProgramV { statements: stmts_view(self.statements@) }
    }
}

pub proof fn lemma_exprs_view_len(v: Seq<Expr>)
    ensures
        exprs_view(v).len() == v.len(),
        forall|i: int| 0 <= i < v.len() ==> exprs_view(v)[i] == expr_view(v[i]),
    decreases v,
{
    if v.len() > 0 {
        lemma_exprs_view_len(v.drop_last());
    }
}

pub proof fn lemma_stmts_view_len(v: Seq<Statement>)
    ensures
        stmts_view(v).len() == v.len(),
        forall|i: int| 0 <= i < v.len() ==> stmts_view(v)[i] == stmt_view(v[i]),
    decreases v,
{
    if v.len() > 0 {
        lemma_stmts_view_len(v.drop_last());
    }
}

// ---------------------------------------------------------------------------
// Spans of expressions.
// ---------------------------------------------------------------------------

/// The source range an expression covers; a binary expression's range is the
/// merge of its operands' ranges.
pub open spec fn expr_v_span(e: ExprV) -> Span
    decreases e,
{
    match e {
        ExprV::Ident(id) => id.span,
        ExprV::ImmInt(_, span) => span,
        ExprV::ImmFloat(f) => f.span,
        ExprV::ImmString(_, span) => span,
        ExprV::BinExpr(_, l, r) => expr_v_span(*l).spec_merge(expr_v_span(*r)),
        ExprV::FnCall(c) => fn_call_v_span(c),
        ExprV::Negation(n) => n.span.spec_merge(expr_v_span(*n.expr)),
    }
}

pub open spec fn args_span(base: Span, args: Seq<ExprV>) -> Span
    decreases args,
{
    if args.len() == 0 {
        base
    } else {
        args_span(base, args.drop_last()).spec_merge(expr_v_span(args.last()))
    }
}

pub open spec fn fn_call_v_span(c: FnCallV) -> Span
    decreases c,
{
    args_span(c.fname.span, c.args)
}

impl BinExpr {
    pub fn get_span(&self) -> (r: Span)
        ensures
            r == expr_v_span(ExprV::BinExpr(
                self.0,
                Box::new(expr_view(*self.1)),
                Box::new(expr_view(*self.2)),
            )),
        decreases *self,
    {
        let lhs = self.1.get_span();
        let rhs = self.2.get_span();
        lhs.merge(&rhs)
    }
}

impl Negation {
    pub fn get_span(&self) -> (r: Span)
        ensures
            r == self.span.spec_merge(expr_v_span(expr_view(*self.expr))),
        decreases *self,
    {
        self.span.merge(&self.expr.get_span())
    }
}

impl FnCall {
    pub fn get_span(&self) -> (r: Span)
        ensures
            r == fn_call_v_span(self@),
        decreases *self,
    {
        let mut s = self.fname.span;
        let mut i: usize = 0;
        proof {
            lemma_exprs_view_len(self.args@);
        }
        while i < self.args.len()
            invariant
                i <= self.args@.len(),
                s == args_span(self.fname.span, exprs_view(self.args@).take(i as int)),
                exprs_view(self.args@).len() == self.args@.len(),
                forall|j: int|
                    0 <= j < self.args@.len() ==> exprs_view(self.args@)[j] == expr_view(
                        self.args@[j],
                    ),
            decreases self.args@.len() - i,
        {
            let sp = self.args[i].get_span();
            s = s.merge(&sp);
            i = i + 1;
            proof {
                let av = exprs_view(self.args@);
                assert(av.take(i as int).drop_last() =~= av.take(i - 1));
                assert(av.take(i as int).last() == av[i - 1]);
            }
        }
        proof {
            assert(exprs_view(self.args@).take(self.args@.len() as int) =~= exprs_view(
                self.args@,
            ));
        }
        s
    }
}

impl Assignment {
    pub fn get_span(&self) -> (r: Span)
        ensures
            r == self.ident.span.spec_merge(expr_v_span(expr_view(self.val))),
    {
        self.ident.span.merge(&self.val.get_span())
    }
}

impl Expr {
    pub fn get_span(&self) -> (r: Span)
        ensures
            r == expr_v_span(self@),
        decreases *self,
    {
        match self {
            Expr::Ident(id) => id.span,
            Expr::ImmInt(imm) => imm.1,
            Expr::ImmString(imm) => imm.1,
            Expr::ImmFloat(imm) => imm.span,
            Expr::BinExpr(bexpr) => bexpr.get_span(),
            Expr::FnCall(fcall) => fcall.get_span(),
            Expr::Negation(neg) => neg.get_span(),
        }
    }
}

// ---------------------------------------------------------------------------
// Well-formedness: every span lies within the source, and a binary
// expression's left operand starts no later than its right operand.
// ---------------------------------------------------------------------------

pub open spec fn ident_v_wf(id: IdentV, len: nat) -> bool {
    id.span.wf(len)
}

pub open spec fn expr_v_wf(e: ExprV, len: nat) -> bool
    decreases e,
{
    match e {
        ExprV::Ident(id) => ident_v_wf(id, len),
        ExprV::ImmInt(_, span) => span.wf(len),
        ExprV::ImmFloat(f) => f.span.wf(len),
        ExprV::ImmString(_, span) => span.wf(len),
        ExprV::BinExpr(_, l, r) => {
            &&& expr_v_wf(*l, len)
            &&& expr_v_wf(*r, len)
            &&& expr_v_span(*l).start <= expr_v_span(*r).start
        },
        ExprV::FnCall(c) => fn_call_v_wf(c, len),
        ExprV::Negation(n) => n.span.wf(len) && expr_v_wf(*n.expr, len),
    }
}

pub open spec fn exprs_v_wf(v: Seq<ExprV>, len: nat) -> bool
    decreases v,
{
    if v.len() == 0 {
        true
    } else {
        exprs_v_wf(v.drop_last(), len) && expr_v_wf(v.last(), len)
    }
}

pub open spec fn fn_call_v_wf(c: FnCallV, len: nat) -> bool
    decreases c,
{
    ident_v_wf(c.fname, len) && exprs_v_wf(c.args, len)
}

pub open spec fn var_decl_v_wf(d: VarDeclV, len: nat) -> bool {
    ident_v_wf(d.var_name, len) && ident_v_wf(d.var_type, len) && d.span.wf(len)
}

pub open spec fn var_decls_v_wf(v: Seq<VarDeclV>, len: nat) -> bool {
    forall|i: int| 0 <= i < v.len() ==> var_decl_v_wf(#[trigger] v[i], len)
}

pub open spec fn stmt_v_wf(s: StatementV, len: nat) -> bool
    decreases s,
{
    match s {
        StatementV::Decl(decls) => var_decls_v_wf(decls, len),
        StatementV::FnCall(c) => fn_call_v_wf(c, len),
        StatementV::Assignment(a) => ident_v_wf(a.ident, len) && expr_v_wf(a.val, len),
        StatementV::Conditional(c) => {
            &&& expr_v_wf(c.cond, len)
            &&& stmts_v_wf(c.taken, len)
            &&& stmts_v_wf(c.not_taken, len)
        },
        StatementV::WhileLoop(l) => expr_v_wf(l.cond, len) && stmts_v_wf(l.body, len),
        StatementV::DoWhileLoop(l) => expr_v_wf(l.cond, len) && stmts_v_wf(l.body, len),
    }
}

pub open spec fn stmts_v_wf(v: Seq<StatementV>, len: nat) -> bool
    decreases v,
{
    if v.len() == 0 {
        true
    } else {
        stmts_v_wf(v.drop_last(), len) && stmt_v_wf(v.last(), len)
    }
}

pub open spec fn program_v_wf(p: IsiProgramV, len: nat) -> bool {
    stmts_v_wf(p.statements, len)
}

/// A well-formed expression's span lies within the source.
pub proof fn lemma_expr_span_in_bounds(e: ExprV, len: nat)
    requires
        expr_v_wf(e, len),
    ensures
        expr_v_span(e).wf(len),
    decreases e,
{
    match e {
        ExprV::BinExpr(_, l, r) => {
            lemma_expr_span_in_bounds(*l, len);
            lemma_expr_span_in_bounds(*r, len);
        },
        ExprV::FnCall(c) => {
            assert(fn_call_v_wf(c, len));
            lemma_args_span_in_bounds(c.fname.span, c.args, len);
            assert(fn_call_v_span(c) == args_span(c.fname.span, c.args));
        },
        ExprV::Negation(n) => {
            lemma_expr_span_in_bounds(*n.expr, len);
        },
        _ => {},
    }
}

pub proof fn lemma_args_span_in_bounds(base: Span, args: Seq<ExprV>, len: nat)
    requires
        base.wf(len),
        exprs_v_wf(args, len),
    ensures
        args_span(base, args).wf(len),
    decreases args,
{
    if args.len() > 0 {
        lemma_args_span_in_bounds(base, args.drop_last(), len);
        lemma_expr_span_in_bounds(args.last(), len);
    }
}

/// A binary expression's span covers both operands.
pub proof fn lemma_bin_expr_span_covers(op: BinaryOp, l: ExprV, r: ExprV)
    ensures
        expr_v_span(ExprV::BinExpr(op, Box::new(l), Box::new(r))).start <= expr_v_span(l).start,
        expr_v_span(ExprV::BinExpr(op, Box::new(l), Box::new(r))).start <= expr_v_span(r).start,
        expr_v_span(ExprV::BinExpr(op, Box::new(l), Box::new(r))).end >= expr_v_span(l).end,
        expr_v_span(ExprV::BinExpr(op, Box::new(l), Box::new(r))).end >= expr_v_span(r).end,
{
}

} // verus!
