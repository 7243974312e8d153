//! The usage checker: an independent walk that records, per declared name,
//! where it is written and read, and reports names never read, or read but
//! never written, sorted by the declaring span. The walk and the warning
//! extraction are specification functions the checker is proved against.

use vstd::prelude::*;

use crate::ast::{
    Assignment, BinExpr, Conditional, DoWhileLoop, Expr, ExprV, FnCall, FnCallV, Ident, IsiProgram,
    IsiProgramV, MultiVarDecl, Negation, Statement, StatementV, VarDecl, VarDeclV, WhileLoop,
    expr_v_span, expr_view, fn_call_v_span, lemma_stmts_view_len, stmts_view, var_decls_view,
};
use crate::span::Span;
use crate::types::{CheckError, CheckErrorKind, CheckErrorKindV, CheckErrorV, bytes_eq, errors_view};

verus! {

/// What the usage checker tracks for one declared name: where it was
/// declared, and the spans of its writes and reads, in traversal order.
#[derive(Debug, PartialEq, Eq)]
pub struct UsageInfo {
    pub declared: Span,
    pub assignments: Vec<Span>,
    pub uses: Vec<Span>,
}

pub struct UsageInfoV {
    pub declared: Span,
    pub assignments: Seq<Span>,
    pub uses: Seq<Span>,
}

impl View for UsageInfo {
    type V = UsageInfoV;

    open spec fn view(&self) -> UsageInfoV {
        UsageInfoV { declared: self.declared, assignments: self.assignments@, uses: self.uses@ }
    }
}

/// The usage table: names in first-declaration order.
pub type UTbl = Seq<(Seq<u8>, UsageInfoV)>;

pub open spec fn utbl_view(es: Seq<(Vec<u8>, UsageInfo)>) -> UTbl {
    es.map_values(|e: (Vec<u8>, UsageInfo)| (e.0@, e.1@))
}

/// The first index bound to `name`, or -1.
pub open spec fn u_idx(t: UTbl, name: Seq<u8>) -> int
    decreases t,
{
    if t.len() == 0 {
        -1
    } else if t[0].0 == name {
        0
    } else {
        let r = u_idx(t.drop_first(), name);
        if r < 0 {
            -1
        } else {
            r + 1
        }
    }
}

pub proof fn lemma_u_idx_found(t: UTbl, name: Seq<u8>, i: int)
    requires
        0 <= i < t.len(),
        t[i].0 == name,
        forall|m: int| 0 <= m < i ==> (#[trigger] t[m].0) != name,
    ensures
        u_idx(t, name) == i,
    decreases t,
{
    if i > 0 {
        assert(forall|m: int| 0 <= m < i - 1 ==> (#[trigger] t.drop_first()[m].0) != name);
        lemma_u_idx_found(t.drop_first(), name, i - 1);
    }
}

pub proof fn lemma_u_idx_missing(t: UTbl, name: Seq<u8>)
    requires
        forall|m: int| 0 <= m < t.len() ==> (#[trigger] t[m].0) != name,
    ensures
        u_idx(t, name) == -1,
    decreases t,
{
    if t.len() > 0 {
        lemma_u_idx_missing(t.drop_first(), name);
    }
}

pub proof fn lemma_u_idx_range(t: UTbl, name: Seq<u8>)
    ensures
        u_idx(t, name) == -1 || (0 <= u_idx(t, name) < t.len() && t[u_idx(t, name)].0 == name),
    decreases t,
{
    if t.len() > 0 {
        lemma_u_idx_range(t.drop_first(), name);
    }
}

/// A declaration creates the entry; the first declaration wins, a repeated
/// one is ignored here (reporting it is the type checker's job).
pub open spec fn u_decl(t: UTbl, d: VarDeclV) -> UTbl {
    if u_idx(t, d.var_name.name) >= 0 {
        t
    } else {
        t.push(
            (
                d.var_name.name,
                UsageInfoV {
                    declared: d.span,
                    assignments: Seq::empty(),
                    uses: Seq::empty(),
                },
            ),
        )
    }
}

/// Records a write to `name`; a name never declared is left alone.
pub open spec fn u_assign(t: UTbl, name: Seq<u8>, span: Span) -> UTbl {
    let i = u_idx(t, name);
    if i >= 0 {
        t.update(
            i,
            (
                t[i].0,
                UsageInfoV {
                    declared: t[i].1.declared,
                    assignments: t[i].1.assignments.push(span),
                    uses: t[i].1.uses,
                },
            ),
        )
    } else {
        t
    }
}

/// Records a read of `name`; a name never declared is left alone.
pub open spec fn u_use(t: UTbl, name: Seq<u8>, span: Span) -> UTbl {
    let i = u_idx(t, name);
    if i >= 0 {
        t.update(
            i,
            (
                t[i].0,
                UsageInfoV {
                    declared: t[i].1.declared,
                    assignments: t[i].1.assignments,
                    uses: t[i].1.uses.push(span),
                },
            ),
        )
    } else {
        t
    }
}

/// The name of the read-into-variable built-in, `leia`.
pub open spec fn leia_name() -> Seq<u8> {
    seq![108u8, 101u8, 105u8, 97u8]
}

/// Walks an expression, recording each identifier as a read.
pub open spec fn u_expr(t: UTbl, e: ExprV) -> UTbl
    decreases e, 1int,
{
    match e {
        ExprV::Ident(id) => u_use(t, id.name, id.span),
        ExprV::ImmInt(_, _) => t,
        ExprV::ImmFloat(_) => t,
        ExprV::ImmString(_, _) => t,
        ExprV::BinExpr(_, l, r) => u_expr(u_expr(t, *l), *r),
        ExprV::FnCall(c) => u_fncall(t, c),
        ExprV::Negation(n) => u_expr(t, *n.expr),
    }
}

/// A call to `leia` writes its first argument; any other call reads each of
/// its arguments.
pub open spec fn u_fncall(t: UTbl, c: FnCallV) -> UTbl
    decreases c, 0int,
{
    if c.fname.name == leia_name() {
        if c.args.len() > 0 && c.args[0] is Ident {
            u_assign(t, c.args[0]->Ident_0.name, fn_call_v_span(c))
        } else {
            t
        }
    } else {
        u_args(t, c.args, 0)
    }
}

pub open spec fn u_args(t: UTbl, args: Seq<ExprV>, i: int) -> UTbl
    decreases args, args.len() - i,
{
    if 0 <= i < args.len() {
        u_args(u_expr(t, args[i]), args, i + 1)
    } else {
        t
    }
}

/// Walks one statement.
pub open spec fn u_stmt(t: UTbl, s: StatementV) -> UTbl
    decreases s, 1int,
{
    match s {
        StatementV::Decl(ds) => u_decls(t, ds, 0),
        StatementV::FnCall(c) => u_fncall(t, c),
        StatementV::Assignment(a) => {
            let span = a.ident.span.spec_merge(expr_v_span(a.val));
            u_expr(u_assign(t, a.ident.name, span), a.val)
        },
        StatementV::Conditional(c) => {
            u_stmts(u_stmts(u_expr(t, c.cond), c.taken, 0), c.not_taken, 0)
        },
        StatementV::WhileLoop(l) => u_stmts(u_expr(t, l.cond), l.body, 0),
        StatementV::DoWhileLoop(l) => u_stmts(u_expr(t, l.cond), l.body, 0),
    }
}

pub open spec fn u_decls(t: UTbl, ds: Seq<VarDeclV>, i: int) -> UTbl
    decreases ds.len() - i,
{
    if 0 <= i < ds.len() {
        u_decls(u_decl(t, ds[i]), ds, i + 1)
    } else {
        t
    }
}

pub open spec fn u_stmts(t: UTbl, ss: Seq<StatementV>, i: int) -> UTbl
    decreases ss, ss.len() - i,
{
    if 0 <= i < ss.len() {
        u_stmts(u_stmt(t, ss[i]), ss, i + 1)
    } else {
        t
    }
}

/// The table the whole program leaves.
pub open spec fn u_program(p: IsiProgramV) -> UTbl {
    u_stmts(Seq::empty(), p.statements, 0)
}

/// Whether an entry deserves a warning, and which.
pub open spec fn warn_of(name: Seq<u8>, info: UsageInfoV) -> Option<CheckErrorV> {
    if info.uses.len() == 0 {
        Some(
            CheckErrorV {
                span: info.declared,
                kind: CheckErrorKindV::DeclaredNotUsed { name },
            },
        )
    } else if info.assignments.len() == 0 {
        Some(
            CheckErrorV {
                span: info.declared,
                kind: CheckErrorKindV::UsedNotAssigned { name },
            },
        )
    } else {
        None
    }
}

/// The warnings of a table, in first-declaration order.
pub open spec fn u_warnings(t: UTbl, i: int) -> Seq<CheckErrorV>
    decreases t.len() - i,
{
    if 0 <= i < t.len() {
        match warn_of(t[i].0, t[i].1) {
            Some(w) => seq![w] + u_warnings(t, i + 1),
            None => u_warnings(t, i + 1),
        }
    } else {
        Seq::empty()
    }
}

/// How many leading warnings start no later than `k`: where a warning with
/// start `k` is inserted to keep the list sorted and stable.
pub open spec fn ins_pos(s: Seq<CheckErrorV>, k: nat) -> int
    decreases s,
{
    if s.len() > 0 && s[0].span.start <= k {
        1 + ins_pos(s.drop_first(), k)
    } else {
        0
    }
}

pub proof fn lemma_ins_pos_at(s: Seq<CheckErrorV>, k: nat, j: int)
    requires
        0 <= j <= s.len(),
        forall|m: int| 0 <= m < j ==> (#[trigger] s[m].span).start <= k,
        j < s.len() ==> s[j].span.start > k,
    ensures
        ins_pos(s, k) == j,
    decreases s,
{
    if j > 0 {
        assert(forall|m: int| 0 <= m < j - 1 ==> (#[trigger] s.drop_first()[m].span).start <= k);
        lemma_ins_pos_at(s.drop_first(), k, j - 1);
    }
}

/// Inserts one warning at its stable position in a sorted list.
pub open spec fn ins_sorted(s: Seq<CheckErrorV>, e: CheckErrorV) -> Seq<CheckErrorV> {
    let p = ins_pos(s, e.span.start as nat);
    s.subrange(0, p) + seq![e] + s.subrange(p, s.len() as int)
}

/// Insertion sort by span start, stable for equal starts.
pub open spec fn sort_by_start(s: Seq<CheckErrorV>) -> Seq<CheckErrorV>
    decreases s,
{
    if s.len() == 0 {
        Seq::empty()
    } else {
        ins_sorted(sort_by_start(s.drop_last()), s.last())
    }
}

/// Everything the usage check of a program reports, sorted by the declaring
/// span's start.
pub open spec fn usage_warnings(p: IsiProgramV) -> Seq<CheckErrorV> {
    sort_by_start(u_warnings(u_program(p), 0))
}

// ---------------------------------------------------------------------------
// The executable checker.
// ---------------------------------------------------------------------------

/// The usage checker: tracks, per declared name, its writes and reads, and
/// reports names never read, or read but never written.
pub struct UsageCk {
    sym_table: Vec<(Vec<u8>, UsageInfo)>,
}

impl UsageCk {
    /// The table as a mathematical association list, in declaration order.
    pub closed spec fn table(&self) -> UTbl {
        utbl_view(self.sym_table@)
    }

    pub fn new() -> (r: UsageCk)
        ensures
            r.table() == Seq::<(Seq<u8>, UsageInfoV)>::empty(),
    {
        let r = UsageCk { sym_table: Vec::new() };
        proof {
            assert(r.table() =~= Seq::<(Seq<u8>, UsageInfoV)>::empty());
        }
        r
    }

    /// The first table index bound to `name`, if any.
    fn find(&self, name: &[u8]) -> (r: Option<usize>)
        ensures
            match r {
                Some(i) => i < self.sym_table@.len() && u_idx(utbl_view(self.sym_table@), name@)
                    == i as int,
                None => u_idx(utbl_view(self.sym_table@), name@) == -1,
            },
    {
        let ghost t = utbl_view(self.sym_table@);
        let mut i: usize = 0;
        while i < self.sym_table.len()
            invariant
                0 <= i <= self.sym_table@.len(),
                t == utbl_view(self.sym_table@),
                t.len() == self.sym_table@.len(),
                forall|m: int| 0 <= m < i ==> (#[trigger] t[m].0) != name@,
            decreases self.sym_table@.len() - i,
        {
            if bytes_eq(self.sym_table[i].0.as_slice(), name) {
                proof {
                    assert(t[i as int].0 == name@);
                    lemma_u_idx_found(t, name@, i as int);
                }
                return Some(i);
            }
            i = i + 1;
        }
        proof {
            lemma_u_idx_missing(t, name@);
        }
        None
    }

    /// Copies a span list.
    fn copy_spans(v: &Vec<Span>) -> (r: Vec<Span>)
        ensures
            r@ == v@,
    {
        let mut r: Vec<Span> = Vec::new();
        let mut i: usize = 0;
        while i < v.len()
            invariant
                0 <= i <= v@.len(),
                r@ == v@.subrange(0, i as int),
            decreases v@.len() - i,
        {
            r.push(v[i]);
            i = i + 1;
            proof {
                assert(r@ =~= v@.subrange(0, i as int));
            }
        }
        proof {
            assert(r@ =~= v@);
        }
        r
    }

    fn mark_assigment(&mut self, id: &Ident, span: Span)
        ensures
            final(self).table() == u_assign(
                old(self).table(),
                id.name@,
                span,
            ),
    {
        let ghost t = utbl_view(self.sym_table@);
        match self.find(id.name.as_slice()) {
            None => {},
            Some(i) => {
                let declared = self.sym_table[i].1.declared;
                let mut assignments = Self::copy_spans(&self.sym_table[i].1.assignments);
                let uses = Self::copy_spans(&self.sym_table[i].1.uses);
                assignments.push(span);
                let name = crate::ast::copy_bytes(self.sym_table[i].0.as_slice());
                let info = UsageInfo { declared, assignments, uses };
                proof {
                    lemma_u_idx_range(t, id.name@);
                }
                self.sym_table.set(i, (name, info));
                proof {
                    assert(utbl_view(self.sym_table@) =~= u_assign(t, id.name@, span));
                }
            },
        }
    }

    fn mark_usage(&mut self, id: &Ident, span: Span)
        ensures
            final(self).table() == u_use(
                old(self).table(),
                id.name@,
                span,
            ),
    {
        let ghost t = utbl_view(self.sym_table@);
        match self.find(id.name.as_slice()) {
            None => {},
            Some(i) => {
                let declared = self.sym_table[i].1.declared;
                let assignments = Self::copy_spans(&self.sym_table[i].1.assignments);
                let mut uses = Self::copy_spans(&self.sym_table[i].1.uses);
                uses.push(span);
                let name = crate::ast::copy_bytes(self.sym_table[i].0.as_slice());
                let info = UsageInfo { declared, assignments, uses };
                proof {
                    lemma_u_idx_range(t, id.name@);
                }
                self.sym_table.set(i, (name, info));
                proof {
                    assert(utbl_view(self.sym_table@) =~= u_use(t, id.name@, span));
                }
            },
        }
    }

    pub fn visit_decl(&mut self, decl: &VarDecl)
        ensures
            final(self).table() == u_decl(old(self).table(), decl@),
    {
        let ghost t = utbl_view(self.sym_table@);
        match self.find(decl.var_name.name.as_slice()) {
            Some(_) => {},
            None => {
                let name = crate::ast::copy_bytes(decl.var_name.name.as_slice());
                let info = UsageInfo {
                    declared: decl.span,
                    assignments: Vec::new(),
                    uses: Vec::new(),
                };
                self.sym_table.push((name, info));
                proof {
                    assert(utbl_view(self.sym_table@) =~= u_decl(t, decl@));
                }
            },
        }
    }

    pub fn visit_multi_decl(&mut self, decls: &MultiVarDecl)
        ensures
            final(self).table() == u_decls(
                old(self).table(),
                var_decls_view(decls.0@),
                0,
            ),
    {
        let ghost t0 = utbl_view(self.sym_table@);
        let ghost dsv = var_decls_view(decls.0@);
        let mut i: usize = 0;
        while i < decls.0.len()
            invariant
                0 <= i <= decls.0@.len(),
                dsv == var_decls_view(decls.0@),
                dsv.len() == decls.0@.len(),
                u_decls(t0, dsv, 0) == u_decls(utbl_view(self.sym_table@), dsv, i as int),
            decreases decls.0@.len() - i,
        {
            proof {
                assert(dsv[i as int] == crate::ast::var_decl_view(decls.0@[i as int]));
            }
            self.visit_decl(&decls.0[i]);
            i = i + 1;
        }
    }

    pub fn visit_expr(&mut self, expr: &Expr)
        ensures
            final(self).table() == u_expr(
                old(self).table(),
                expr_view(*expr),
            ),
        decreases *expr, 1int,
    {
        match expr {
            Expr::Ident(id) => {
                let span = id.span;
                self.mark_usage(id, span);
            },
            Expr::BinExpr(bexp) => {
                self.visit_bin_expr(bexp);
            },
            Expr::FnCall(call) => {
                self.visit_fn_call(call);
            },
            Expr::Negation(neg) => {
                self.visit_negation(neg);
            },
            Expr::ImmInt(_) => {},
            Expr::ImmFloat(_) => {},
            Expr::ImmString(_) => {},
        }
    }

    pub fn visit_bin_expr(&mut self, bexpr: &BinExpr)
        ensures
            final(self).table() == u_expr(
                old(self).table(),
                expr_view(Expr::BinExpr(*bexpr)),
            ),
        decreases *bexpr, 0int,
    {
        self.visit_expr(&bexpr.1);
        self.visit_expr(&bexpr.2);
    }

    pub fn visit_negation(&mut self, neg: &Negation)
        ensures
            final(self).table() == u_expr(
                old(self).table(),
                expr_view(Expr::Negation(*neg)),
            ),
        decreases *neg, 0int,
    {
        self.visit_expr(&neg.expr);
    }

    pub fn visit_fn_call(&mut self, call: &FnCall)
        ensures
            final(self).table() == u_fncall(
                old(self).table(),
                crate::ast::fn_call_view(*call),
            ),
        decreases *call, 2int,
    {
        let ghost t0 = utbl_view(self.sym_table@);
        let ghost cv = crate::ast::fn_call_view(*call);
        let leia: [u8; 4] = [108, 101, 105, 97];
        proof {
            assert(leia@ =~= leia_name());
            crate::ast::lemma_exprs_view_len(call.args@);
        }
        if bytes_eq(call.fname.name.as_slice(), leia.as_slice()) {
            if call.args.len() > 0 {
                let is_id = match &call.args[0] {
                    Expr::Ident(_) => true,
                    _ => false,
                };
                if is_id {
                    let span = call.get_span();
                    match &call.args[0] {
                        Expr::Ident(id) => {
                            proof {
                                assert(cv.args[0] == expr_view(call.args@[0]));
                            }
                            self.mark_assigment(id, span);
                        },
                        _ => {},
                    }
                } else {
                    proof {
                        assert(cv.args[0] == expr_view(call.args@[0]));
                    }
                }
            }
        } else {
            let mut i: usize = 0;
            while i < call.args.len()
                invariant
                    0 <= i <= call.args@.len(),
                    cv == crate::ast::fn_call_view(*call),
                    cv.args.len() == call.args@.len(),
                    forall|m: int|
                        0 <= m < call.args@.len() ==> cv.args[m] == expr_view(call.args@[m]),
                    cv.fname.name != leia_name(),
                    u_args(t0, cv.args, 0) == u_args(
                        utbl_view(self.sym_table@),
                        cv.args,
                        i as int,
                    ),
                decreases call.args@.len() - i,
            {
                self.visit_expr(&call.args[i]);
                i = i + 1;
            }
        }
    }

    pub fn visit_assignment(&mut self, assignment: &Assignment)
        ensures
            final(self).table() == u_stmt(
                old(self).table(),
                crate::ast::stmt_view(Statement::Assignment(*assignment)),
            ),
        decreases *assignment,
    {
        let span = assignment.get_span();
        self.mark_assigment(&assignment.ident, span);
        self.visit_expr(&assignment.val);
    }

    /// Walks a statement list in order.
    fn walk_block(&mut self, body: &Vec<Statement>)
        ensures
            final(self).table() == u_stmts(
                old(self).table(),
                stmts_view(body@),
                0,
            ),
        decreases *body, 0int,
    {
        let ghost t0 = utbl_view(self.sym_table@);
        let ghost bv = stmts_view(body@);
        proof {
            lemma_stmts_view_len(body@);
        }
        let mut i: usize = 0;
        while i < body.len()
            invariant
                0 <= i <= body@.len(),
                bv == stmts_view(body@),
                bv.len() == body@.len(),
                forall|m: int| 0 <= m < body@.len() ==> bv[m] == crate::ast::stmt_view(body@[m]),
                u_stmts(t0, bv, 0) == u_stmts(utbl_view(self.sym_table@), bv, i as int),
            decreases body@.len() - i,
        {
            self.visit_statement(&body[i]);
            i = i + 1;
        }
    }

    pub fn visit_conditional(&mut self, conditional: &Conditional)
        ensures
            final(self).table() == u_stmt(
                old(self).table(),
                crate::ast::stmt_view(Statement::Conditional(*conditional)),
            ),
        decreases *conditional, 3int,
    {
        self.visit_expr(&conditional.cond);
        self.walk_block(&conditional.taken);
        self.walk_block(&conditional.not_taken);
    }

    pub fn visit_while_loop(&mut self, while_loop: &WhileLoop)
        ensures
            final(self).table() == u_stmt(
                old(self).table(),
                crate::ast::stmt_view(Statement::WhileLoop(*while_loop)),
            ),
        decreases *while_loop, 3int,
    {
        self.visit_expr(&while_loop.cond);
        self.walk_block(&while_loop.body);
    }

    pub fn visit_do_while_loop(&mut self, do_while_loop: &DoWhileLoop)
        ensures
            final(self).table() == u_stmt(
                old(self).table(),
                crate::ast::stmt_view(Statement::DoWhileLoop(*do_while_loop)),
            ),
        decreases *do_while_loop, 3int,
    {
        self.visit_expr(&do_while_loop.cond);
        self.walk_block(&do_while_loop.body);
    }

    pub fn visit_statement(&mut self, stmt: &Statement)
        ensures
            final(self).table() == u_stmt(
                old(self).table(),
                crate::ast::stmt_view(*stmt),
            ),
        decreases *stmt, 4int,
    {
        match stmt {
            Statement::Assignment(ass) => self.visit_assignment(ass),
            Statement::Decl(mdecl) => self.visit_multi_decl(mdecl),
            Statement::FnCall(call) => self.visit_fn_call(call),
            Statement::Conditional(cond) => self.visit_conditional(cond),
            Statement::WhileLoop(l) => self.visit_while_loop(l),
            Statement::DoWhileLoop(l) => self.visit_do_while_loop(l),
        }
    }

    /// Finds where to insert a warning with start `k` so the list stays
    /// sorted, after any equal starts.
    fn find_ins_pos(sorted: &Vec<CheckError>, k: usize) -> (r: usize)
        ensures
            r <= sorted@.len(),
            r == ins_pos(errors_view(sorted@), k as nat),
    {
        let ghost sv = errors_view(sorted@);
        let mut j: usize = 0;
        while j < sorted.len() && sorted[j].span.start <= k
            invariant
                0 <= j <= sorted@.len(),
                sv == errors_view(sorted@),
                sv.len() == sorted@.len(),
                forall|m: int| 0 <= m < sorted@.len() ==> sv[m] == sorted@[m]@,
                forall|m: int| 0 <= m < j ==> (#[trigger] sv[m].span).start <= k,
            decreases sorted@.len() - j,
        {
            j = j + 1;
        }
        proof {
            lemma_ins_pos_at(sv, k as nat, j as int);
        }
        j
    }

    /// Runs the usage check and returns the warnings, sorted by the start of
    /// the declaring span.
    pub fn check(&mut self, program: &IsiProgram) -> (r: Vec<CheckError>)
        requires
            old(self).table() == Seq::<(Seq<u8>, UsageInfoV)>::empty(),
        ensures
            errors_view(r@) == usage_warnings(program@),
            sorted_by_start(errors_view(r@)),
            final(self).table() == u_program(program@),
    {
        proof {
            lemma_sort_by_start_sorted(u_warnings(u_program(program@), 0));
        }
        let ghost sv = stmts_view(program.statements@);
        proof {
            lemma_stmts_view_len(program.statements@);
        }
        let mut i: usize = 0;
        while i < program.statements.len()
            invariant
                0 <= i <= program.statements@.len(),
                sv == stmts_view(program.statements@),
                sv.len() == program.statements@.len(),
                forall|m: int|
                    0 <= m < program.statements@.len() ==> sv[m] == crate::ast::stmt_view(
                        program.statements@[m],
                    ),
                u_stmts(Seq::empty(), sv, 0) == u_stmts(
                    utbl_view(self.sym_table@),
                    sv,
                    i as int,
                ),
            decreases program.statements@.len() - i,
        {
            self.visit_statement(&program.statements[i]);
            i = i + 1;
        }
        let ghost tfin = utbl_view(self.sym_table@);
        // collect the warnings in first-declaration order
        let mut raw: Vec<CheckError> = Vec::new();
        let mut i: usize = 0;
        while i < self.sym_table.len()
            invariant
                0 <= i <= self.sym_table@.len(),
                tfin == utbl_view(self.sym_table@),
                tfin.len() == self.sym_table@.len(),
                forall|m: int|
                    0 <= m < self.sym_table@.len() ==> tfin[m] == (
                        self.sym_table@[m].0@,
                        self.sym_table@[m].1@,
                    ),
                u_warnings(tfin, 0) == errors_view(raw@) + u_warnings(tfin, i as int),
            decreases self.sym_table@.len() - i,
        {
            let uses_empty = self.sym_table[i].1.uses.len() == 0;
            let assigns_empty = self.sym_table[i].1.assignments.len() == 0;
            if uses_empty || assigns_empty {
                let name = crate::ast::copy_bytes(self.sym_table[i].0.as_slice());
                let declared = self.sym_table[i].1.declared;
                let w = if uses_empty {
                    CheckError { span: declared, kind: CheckErrorKind::DeclaredNotUsed { name } }
                } else {
                    CheckError { span: declared, kind: CheckErrorKind::UsedNotAssigned { name } }
                };
                let ghost pre = raw@;
                let ghost wv = w@;
                raw.push(w);
                proof {
                    assert(errors_view(raw@) =~= errors_view(pre).push(wv));
                    assert(errors_view(pre).push(wv) + u_warnings(tfin, i + 1) =~= errors_view(
                        pre,
                    ) + (seq![wv] + u_warnings(tfin, i + 1)));
                }
            }
            i = i + 1;
        }
        proof {
            assert(errors_view(raw@) + Seq::<CheckErrorV>::empty() =~= errors_view(raw@));
        }
        // sort by the start of the declaring span
        let ghost rawv = errors_view(raw@);
        let mut sorted: Vec<CheckError> = Vec::new();
        proof {
            assert(errors_view(sorted@) =~= Seq::<CheckErrorV>::empty());
            assert(rawv.take(0) =~= Seq::<CheckErrorV>::empty());
            assert(errors_view(raw@) =~= rawv.skip(0));
        }
        while raw.len() > 0
            invariant
                errors_view(raw@) == rawv.skip(rawv.len() - raw@.len()),
                raw@.len() <= rawv.len(),
                errors_view(sorted@) == sort_by_start(rawv.take(rawv.len() - raw@.len())),
            decreases raw@.len(),
        {
            let ghost k = rawv.len() - raw@.len();
            let ghost pre_raw = raw@;
            let e = raw.remove(0);
            proof {
                assert(e == pre_raw[0]);
                assert(e@ == errors_view(pre_raw)[0]);
                assert(e@ == rawv[k as int]);
                assert(raw@ == pre_raw.remove(0));
                assert(errors_view(raw@) =~= errors_view(pre_raw).remove(0));
                assert(errors_view(pre_raw).remove(0) =~= rawv.skip(k + 1));
            }
            let p = Self::find_ins_pos(&sorted, e.span.start);
            let ghost pre = errors_view(sorted@);
            let ghost ev = e@;
            sorted.insert(p, e);
            proof {
                assert(errors_view(sorted@) =~= ins_sorted(pre, ev));
                assert(rawv.take(k + 1).drop_last() =~= rawv.take(k as int));
                assert(rawv.take(k + 1).last() == rawv[k as int]);
            }
        }
        proof {
            assert(rawv.take(rawv.len() as int) =~= rawv);
        }
                sorted
    }
}

// ---------------------------------------------------------------------------
// The usage check reports a warning exactly for the entries whose uses are
// empty, or whose uses are non-empty while their assignments are empty:
// that is what `warn_of` returns `Some` for.
// ---------------------------------------------------------------------------

proof fn lemma_u_warnings_mem(t: UTbl, i: int, w: CheckErrorV)
    requires
        0 <= i,
    ensures
        u_warnings(t, i).contains(w) <==> exists|j: int|
            i <= j < t.len() && warn_of((#[trigger] t[j]).0, t[j].1) == Some(w),
    decreases t.len() - i,
{
    if i < t.len() {
        lemma_u_warnings_mem(t, i + 1, w);
        match warn_of(t[i].0, t[i].1) {
            Some(w0) => {
                let rest = u_warnings(t, i + 1);
                let whole = seq![w0] + rest;
                if whole.contains(w) {
                    let m = choose|m: int| 0 <= m < whole.len() && whole[m] == w;
                    if m == 0 {
                        assert(warn_of(t[i].0, t[i].1) == Some(w));
                    } else {
                        assert(rest[m - 1] == w);
                        assert(rest.contains(w));
                    }
                }
                if exists|j: int| i <= j < t.len() && warn_of((#[trigger] t[j]).0, t[j].1) == Some(
                    w,
                ) {
                    let j = choose|j: int|
                        i <= j < t.len() && warn_of((#[trigger] t[j]).0, t[j].1) == Some(w);
                    if j == i {
                        assert(whole[0] == w);
                    } else {
                        assert(rest.contains(w));
                        let m = choose|m: int| 0 <= m < rest.len() && rest[m] == w;
                        assert(whole[m + 1] == w);
                    }
                }
            },
            None => {
                if exists|j: int| i <= j < t.len() && warn_of((#[trigger] t[j]).0, t[j].1) == Some(
                    w,
                ) {
                    let j = choose|j: int|
                        i <= j < t.len() && warn_of((#[trigger] t[j]).0, t[j].1) == Some(w);
                    assert(j != i);
                }
            },
        }
    }
}

proof fn lemma_ins_sorted_mem(s: Seq<CheckErrorV>, e: CheckErrorV, w: CheckErrorV)
    ensures
        ins_sorted(s, e).contains(w) <==> s.contains(w) || w == e,
{
    let p = ins_pos(s, e.span.start as nat);
    lemma_ins_pos_range(s, e.span.start as nat);
    let whole = s.subrange(0, p) + seq![e] + s.subrange(p, s.len() as int);
    assert(whole[p] == e);
    if whole.contains(w) {
        let m = choose|m: int| 0 <= m < whole.len() && whole[m] == w;
        if m < p {
            assert(s[m] == w);
        } else if m > p {
            assert(s[m - 1] == w);
        }
    }
    if s.contains(w) {
        let m = choose|m: int| 0 <= m < s.len() && s[m] == w;
        if m < p {
            assert(whole[m] == w);
        } else {
            assert(whole[m + 1] == w);
        }
    }
}

proof fn lemma_ins_pos_range(s: Seq<CheckErrorV>, k: nat)
    ensures
        0 <= ins_pos(s, k) <= s.len(),
    decreases s,
{
    if s.len() > 0 && s[0].span.start <= k {
        lemma_ins_pos_range(s.drop_first(), k);
    }
}

proof fn lemma_sort_mem(s: Seq<CheckErrorV>, w: CheckErrorV)
    ensures
        sort_by_start(s).contains(w) <==> s.contains(w),
    decreases s,
{
    if s.len() > 0 {
        lemma_sort_mem(s.drop_last(), w);
        lemma_ins_sorted_mem(sort_by_start(s.drop_last()), s.last(), w);
        if s.contains(w) {
            let m = choose|m: int| 0 <= m < s.len() && s[m] == w;
            if m < s.len() - 1 {
                assert(s.drop_last()[m] == w);
            }
        }
        if s.drop_last().contains(w) {
            let m = choose|m: int| 0 <= m < s.drop_last().len() && s.drop_last()[m] == w;
            assert(s[m] == w);
        }
    }
}

/// The usage check reports `w` exactly when some table entry earns it: an
/// entry never used, or used but never assigned, as `warn_of` decides.
pub proof fn lemma_usage_warning_iff(p: IsiProgramV, w: CheckErrorV)
    ensures
        usage_warnings(p).contains(w) <==> exists|j: int|
            0 <= j < u_program(p).len() && warn_of(
                (#[trigger] u_program(p)[j]).0,
                u_program(p)[j].1,
            ) == Some(w),
{
    lemma_sort_mem(u_warnings(u_program(p), 0), w);
    lemma_u_warnings_mem(u_program(p), 0, w);
}

/// Warnings ordered by the start of their spans.
pub open spec fn sorted_by_start(s: Seq<CheckErrorV>) -> bool {
    forall|i: int, j: int|
        0 <= i <= j < s.len() ==> (#[trigger] s[i].span).start <= (#[trigger] s[j].span).start
}

proof fn lemma_ins_pos_props(s: Seq<CheckErrorV>, k: nat)
    requires
        sorted_by_start(s),
    ensures
        0 <= ins_pos(s, k) <= s.len(),
        forall|m: int| 0 <= m < ins_pos(s, k) ==> (#[trigger] s[m].span).start <= k,
        forall|m: int| ins_pos(s, k) <= m < s.len() ==> (#[trigger] s[m].span).start > k,
    decreases s,
{
    if s.len() > 0 && s[0].span.start <= k {
        assert(sorted_by_start(s.drop_first())) by {
            assert(forall|i: int, j: int|
                0 <= i <= j < s.drop_first().len() ==> (#[trigger] s.drop_first()[i].span).start
                    <= (#[trigger] s.drop_first()[j].span).start) by {
                assert(forall|i: int|
                    0 <= i < s.drop_first().len() ==> #[trigger] s.drop_first()[i] == s[i + 1]);
            }
        }
        lemma_ins_pos_props(s.drop_first(), k);
        assert(forall|m: int|
            1 <= m < ins_pos(s, k) ==> (#[trigger] s[m].span).start == s.drop_first()[m
                - 1].span.start);
        assert(forall|m: int|
            ins_pos(s, k) <= m < s.len() ==> (#[trigger] s[m].span).start == s.drop_first()[m
                - 1].span.start);
    } else if s.len() > 0 {
        assert(forall|m: int|
            0 <= m < s.len() ==> s[0].span.start <= (#[trigger] s[m].span).start);
    }
}

proof fn lemma_ins_sorted_sorted(s: Seq<CheckErrorV>, e: CheckErrorV)
    requires
        sorted_by_start(s),
    ensures
        sorted_by_start(ins_sorted(s, e)),
{
    let k = e.span.start as nat;
    let p = ins_pos(s, k);
    lemma_ins_pos_props(s, k);
    let w = ins_sorted(s, e);
    assert forall|i: int, j: int| 0 <= i <= j < w.len() implies (#[trigger] w[i].span).start <= (
    #[trigger] w[j].span).start by {
        assert(w[i] == if i < p {
            s[i]
        } else if i == p {
            e
        } else {
            s[i - 1]
        });
        assert(w[j] == if j < p {
            s[j]
        } else if j == p {
            e
        } else {
            s[j - 1]
        });
    }
}

/// What the sorting pass returns is ordered by the start of the declaring
/// span.
pub proof fn lemma_sort_by_start_sorted(s: Seq<CheckErrorV>)
    ensures
        sorted_by_start(sort_by_start(s)),
    decreases s,
{
    if s.len() > 0 {
        lemma_sort_by_start_sorted(s.drop_last());
        lemma_ins_sorted_sorted(sort_by_start(s.drop_last()), s.last());
    }
}

} // verus!
