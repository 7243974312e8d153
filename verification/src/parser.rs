//! The parser: from source bytes to a spanned syntax tree.
//!
//! The grammar itself is written as specification functions (`p_program` and
//! the functions under it) over the byte sequence, with explicit positions;
//! each executable parsing function is proved to return exactly what its
//! grammar function denotes, so the grammar is the parser's contract. On
//! failure the executable side also reports the offset it could not get past
//! and what it expected there.

use vstd::prelude::*;

use crate::ast::{FloatLitV, IdentV};
use crate::span::Span;

verus! {

use crate::ast::{
    Assignment, AssignmentV, BinExpr, BinaryOp, Conditional, ConditionalV, DoWhileLoop,
    DoWhileLoopV, Expr, ExprV, FnCall, FnCallV, IntLiteral, IsiProgramV, NegationV, Statement,
    StatementV, VarDecl, VarDeclV, WhileLoop, WhileLoopV, expr_v_span, expr_v_wf, expr_view,
    exprs_view,
};

/// A syntax error: the byte offset the parse failed at, and the name of the
/// token class that was expected there.
#[derive(Debug, PartialEq, Eq, Clone, Copy)]
pub struct ParseError {
    pub offset: usize,
    pub expected: &'static str,
}

// ---------------------------------------------------------------------------
// Character classes.
// ---------------------------------------------------------------------------

pub open spec fn is_ws(c: u8) -> bool {
    c == 32 || c == 10 || c == 9
}

pub open spec fn is_digit(c: u8) -> bool {
    48 <= c <= 57
}

pub open spec fn is_alpha(c: u8) -> bool {
    (65 <= c <= 90) || (97 <= c <= 122)
}

pub open spec fn is_alnum(c: u8) -> bool {
    is_alpha(c) || is_digit(c)
}

/// Characters allowed inside a string literal: letters, digits, space.
pub open spec fn is_strchar(c: u8) -> bool {
    is_alpha(c) || is_digit(c) || c == 32
}

// ---------------------------------------------------------------------------
// Scanning runs of characters.
// ---------------------------------------------------------------------------

/// The first position at or after `i` that does not hold whitespace.
pub open spec fn ws_end(s: Seq<u8>, i: int) -> int
    decreases s.len() - i,
{
    if 0 <= i < s.len() && is_ws(s[i]) {
        ws_end(s, i + 1)
    } else {
        i
    }
}

/// The first position at or after `i` that does not hold a digit.
pub open spec fn digits_end(s: Seq<u8>, i: int) -> int
    decreases s.len() - i,
{
    if 0 <= i < s.len() && is_digit(s[i]) {
        digits_end(s, i + 1)
    } else {
        i
    }
}

/// The first position at or after `i` that does not hold a letter or digit.
pub open spec fn alnum_end(s: Seq<u8>, i: int) -> int
    decreases s.len() - i,
{
    if 0 <= i < s.len() && is_alnum(s[i]) {
        alnum_end(s, i + 1)
    } else {
        i
    }
}

/// The first position at or after `i` that does not hold a string-literal
/// character.
pub open spec fn strchars_end(s: Seq<u8>, i: int) -> int
    decreases s.len() - i,
{
    if 0 <= i < s.len() && is_strchar(s[i]) {
        strchars_end(s, i + 1)
    } else {
        i
    }
}

pub broadcast proof fn lemma_ws_end_bounds(s: Seq<u8>, i: int)
    ensures
        0 <= i <= s.len() ==> i <= #[trigger] ws_end(s, i) <= s.len(),
    decreases s.len() - i,
{
    if 0 <= i < s.len() && is_ws(s[i]) {
        lemma_ws_end_bounds(s, i + 1);
    }
}

pub broadcast proof fn lemma_digits_end_bounds(s: Seq<u8>, i: int)
    ensures
        0 <= i <= s.len() ==> i <= #[trigger] digits_end(s, i) <= s.len(),
    decreases s.len() - i,
{
    if 0 <= i < s.len() && is_digit(s[i]) {
        lemma_digits_end_bounds(s, i + 1);
    }
}

/// Every byte of the scanned digit run is a digit.
pub proof fn lemma_digits_end_chars(s: Seq<u8>, i: int)
    requires
        0 <= i <= s.len(),
    ensures
        forall|k: int| i <= k < digits_end(s, i) ==> is_digit(#[trigger] s[k]),
    decreases s.len() - i,
{
    if i < s.len() && is_digit(s[i]) {
        lemma_digits_end_chars(s, i + 1);
        lemma_digits_end_bounds(s, i + 1);
    }
}

pub broadcast proof fn lemma_alnum_end_bounds(s: Seq<u8>, i: int)
    ensures
        0 <= i <= s.len() ==> i <= #[trigger] alnum_end(s, i) <= s.len(),
    decreases s.len() - i,
{
    if 0 <= i < s.len() && is_alnum(s[i]) {
        lemma_alnum_end_bounds(s, i + 1);
    }
}

pub broadcast proof fn lemma_strchars_end_bounds(s: Seq<u8>, i: int)
    ensures
        0 <= i <= s.len() ==> i <= #[trigger] strchars_end(s, i) <= s.len(),
    decreases s.len() - i,
{
    if 0 <= i < s.len() && is_strchar(s[i]) {
        lemma_strchars_end_bounds(s, i + 1);
    }
}

fn skip_ws(s: &[u8], i: usize) -> (r: usize)
    requires
        i <= s@.len(),
    ensures
        r == ws_end(s@, i as int),
        i <= r <= s@.len(),
{
    let mut j = i;
    while j < s.len() && (s[j] == 32 || s[j] == 10 || s[j] == 9)
        invariant
            i <= j <= s@.len(),
            ws_end(s@, i as int) == ws_end(s@, j as int),
        decreases s@.len() - j,
    {
        j = j + 1;
    }
    j
}

pub(crate) fn scan_digits(s: &[u8], i: usize) -> (r: usize)
    requires
        i <= s@.len(),
    ensures
        r == digits_end(s@, i as int),
        i <= r <= s@.len(),
{
    let mut j = i;
    while j < s.len() && 48 <= s[j] && s[j] <= 57
        invariant
            i <= j <= s@.len(),
            digits_end(s@, i as int) == digits_end(s@, j as int),
        decreases s@.len() - j,
    {
        j = j + 1;
    }
    j
}

fn scan_alnum(s: &[u8], i: usize) -> (r: usize)
    requires
        i <= s@.len(),
    ensures
        r == alnum_end(s@, i as int),
        i <= r <= s@.len(),
{
    let mut j = i;
    while j < s.len() && ((65 <= s[j] && s[j] <= 90) || (97 <= s[j] && s[j] <= 122) || (48 <= s[j]
        && s[j] <= 57))
        invariant
            i <= j <= s@.len(),
            alnum_end(s@, i as int) == alnum_end(s@, j as int),
        decreases s@.len() - j,
    {
        j = j + 1;
    }
    j
}

fn scan_strchars(s: &[u8], i: usize) -> (r: usize)
    requires
        i <= s@.len(),
    ensures
        r == strchars_end(s@, i as int),
        i <= r <= s@.len(),
{
    let mut j = i;
    while j < s.len() && ((65 <= s[j] && s[j] <= 90) || (97 <= s[j] && s[j] <= 122) || (48 <= s[j]
        && s[j] <= 57) || s[j] == 32)
        invariant
            i <= j <= s@.len(),
            strchars_end(s@, i as int) == strchars_end(s@, j as int),
        decreases s@.len() - j,
    {
        j = j + 1;
    }
    j
}

// ---------------------------------------------------------------------------
// Literal tokens.
// ---------------------------------------------------------------------------

/// Whether the bytes `kw` stand at position `i` of `s`.
pub open spec fn match_at(s: Seq<u8>, i: int, kw: Seq<u8>) -> bool {
    0 <= i && i + kw.len() <= s.len() && s.subrange(i, i + kw.len()) == kw
}

fn match_bytes(s: &[u8], i: usize, kw: &[u8]) -> (r: bool)
    requires
        i <= s@.len(),
    ensures
        r == match_at(s@, i as int, kw@),
{
    if s.len() - i < kw.len() {
        return false;
    }
    let mut k: usize = 0;
    while k < kw.len()
        invariant
            0 <= k <= kw@.len(),
            i + kw@.len() <= s@.len() <= usize::MAX,
            forall|m: int| 0 <= m < k ==> s@[i + m] == kw@[m],
        decreases kw@.len() - k,
    {
        if s[i + k] != kw[k] {
            proof {
                assert(s@.subrange(i as int, i + kw@.len())[k as int] == s@[i + k]);
            }
            return false;
        }
        k = k + 1;
    }
    proof {
        assert(s@.subrange(i as int, i + kw@.len()) =~= kw@);
    }
    true
}

/// The numeric value of the digit run `s[i..j)`.
pub open spec fn digits_val(s: Seq<u8>, i: int, j: int) -> nat
    decreases j - i,
{
    if i < j {
        digits_val(s, i, j - 1) * 10 + (s[j - 1] - 48) as nat
    } else {
        0
    }
}

pub(crate) proof fn lemma_digits_val_mono(s: Seq<u8>, i: int, k: int, j: int)
    requires
        i <= k <= j,
    ensures
        digits_val(s, i, j) >= digits_val(s, i, k),
    decreases j - k,
{
    if k < j {
        lemma_digits_val_mono(s, i, k, j - 1);
        assert(digits_val(s, i, j - 1) * 10 >= digits_val(s, i, j - 1)) by {
            assert(digits_val(s, i, j - 1) * 10 - digits_val(s, i, j - 1) == 9 * digits_val(
                s,
                i,
                j - 1,
            )) by (nonlinear_arith);
            assert(9 * digits_val(s, i, j - 1) >= 0) by (nonlinear_arith);
        }
    }
}

/// An integer literal at `i`: a run of digits whose value fits in a `u64`.
/// Yields the value, its span, and the position after it.
pub open spec fn p_num(s: Seq<u8>, i: int) -> Option<(u64, Span, int)> {
    let j = digits_end(s, i);
    if j > i && digits_val(s, i, j) <= u64::MAX {
        Some(
            (
                digits_val(s, i, j) as u64,
                Span { start: i as usize, end: j as usize },
                j,
            ),
        )
    } else {
        None
    }
}

/// A float literal at `i`: digits, a comma, digits.
pub open spec fn p_numf(s: Seq<u8>, i: int) -> Option<(FloatLitV, int)> {
    let j = digits_end(s, i);
    if j > i && j < s.len() && s[j] == 44 {
        let k = digits_end(s, j + 1);
        if k > j + 1 {
            Some(
                (
                    FloatLitV {
                        int_part: s.subrange(i, j),
                        frac_part: s.subrange(j + 1, k),
                        span: Span { start: i as usize, end: k as usize },
                    },
                    k,
                ),
            )
        } else {
            None
        }
    } else {
        None
    }
}

/// A string literal at `i`: a quote, one or more letters, digits or spaces,
/// and a closing quote. Yields the bytes between the quotes.
pub open spec fn p_text(s: Seq<u8>, i: int) -> Option<(Seq<u8>, Span, int)> {
    if 0 <= i < s.len() && s[i] == 34 {
        let j = strchars_end(s, i + 1);
        if j > i + 1 && j < s.len() && s[j] == 34 {
            Some(
                (
                    s.subrange(i + 1, j),
                    Span { start: i as usize, end: (j + 1) as usize },
                    j + 1,
                ),
            )
        } else {
            None
        }
    } else {
        None
    }
}

/// An identifier at `i`: a letter followed by letters or digits.
pub open spec fn p_ident(s: Seq<u8>, i: int) -> Option<(IdentV, int)> {
    if 0 <= i < s.len() && is_alpha(s[i]) {
        let j = alnum_end(s, i + 1);
        Some(
            (
                IdentV { name: s.subrange(i, j), span: Span { start: i as usize, end: j as usize } },
                j,
            ),
        )
    } else {
        None
    }
}

/// Scans the digit run at `i` into a `u64`, or reports the offset on
/// overflow.
fn lex_num(s: &[u8], i: usize) -> (r: Result<(u64, Span, usize), ParseError>)
    requires
        i <= s@.len(),
    ensures
        match r {
            Ok((v, sp, j)) => p_num(s@, i as int) == Some((v, sp, j as int)) && i < j <= s@.len(),
            Err(e) => p_num(s@, i as int) is None && e.offset <= s@.len(),
        },
{
    let j = scan_digits(s, i);
    if j == i {
        return Err(ParseError { offset: i, expected: "u64" });
    }
    proof {
        lemma_digits_end_chars(s@, i as int);
    }
    let mut k: usize = i;
    let mut acc: u64 = 0;
    while k < j
        invariant
            i <= k <= j <= s@.len(),
            j == digits_end(s@, i as int),
            acc == digits_val(s@, i as int, k as int),
            forall|m: int| i <= m < j ==> is_digit(#[trigger] s@[m]),
        decreases j - k,
    {
        let d: u64 = (s[k] - 48) as u64;
        let acc10 = match acc.checked_mul(10) {
            Some(x) => x,
            None => {
                proof {
                    assert(digits_val(s@, i as int, k + 1) == acc * 10 + (s@[k as int] - 48));
                    lemma_digits_val_mono(s@, i as int, k + 1, j as int);
                }
                return Err(ParseError { offset: i, expected: "u64" });
            },
        };
        let acc2 = match acc10.checked_add(d) {
            Some(x) => x,
            None => {
                proof {
                    assert(digits_val(s@, i as int, k + 1) == acc * 10 + (s@[k as int] - 48));
                    lemma_digits_val_mono(s@, i as int, k + 1, j as int);
                }
                return Err(ParseError { offset: i, expected: "u64" });
            },
        };
        proof {
            assert(digits_val(s@, i as int, k + 1) == acc * 10 + (s@[k as int] - 48));
        }
        acc = acc2;
        k = k + 1;
    }
    Ok((acc, Span { start: i, end: j }, j))
}

/// Scans a float literal `digits ',' digits` at `i`.
fn lex_numf(s: &[u8], i: usize) -> (r: Option<(crate::ast::FloatLiteral, usize)>)
    requires
        i <= s@.len(),
    ensures
        match r {
            Some((f, j)) => {
                &&& p_numf(s@, i as int) == Some(
                    (
                        FloatLitV { int_part: f.int_part@, frac_part: f.frac_part@, span: f.span },
                        j as int,
                    ),
                )
                &&& i < j <= s@.len()
            },
            None => p_numf(s@, i as int) is None,
        },
{
    let j = scan_digits(s, i);
    if j == i || j >= s.len() || s[j] != 44 {
        return None;
    }
    let k = scan_digits(s, j + 1);
    if k == j + 1 {
        return None;
    }
    let int_part = crate::ast::copy_bytes(slice_range(s, i, j));
    let frac_part = crate::ast::copy_bytes(slice_range(s, j + 1, k));
    Some(
        (
            crate::ast::FloatLiteral { int_part, frac_part, span: Span { start: i, end: k } },
            k,
        ),
    )
}

/// The bytes `s[i..j)` as a fresh slice.
pub(crate) fn slice_range(s: &[u8], i: usize, j: usize) -> (r: &[u8])
    requires
        i <= j <= s@.len(),
    ensures
        r@ == s@.subrange(i as int, j as int),
{
    &s[i..j]
}

/// Scans a string literal at `i`.
fn lex_text(s: &[u8], i: usize) -> (r: Option<(crate::ast::StringLiteral, usize)>)
    requires
        i <= s@.len(),
    ensures
        match r {
            Some((t, j)) => p_text(s@, i as int) == Some((t.0@, t.1, j as int)) && i < j
                <= s@.len(),
            None => p_text(s@, i as int) is None,
        },
{
    if i >= s.len() || s[i] != 34 {
        return None;
    }
    let j = scan_strchars(s, i + 1);
    if j == i + 1 || j >= s.len() || s[j] != 34 {
        return None;
    }
    let content = crate::ast::copy_bytes(slice_range(s, i + 1, j));
    Some((crate::ast::StringLiteral(content, Span { start: i, end: j + 1 }), j + 1))
}

/// Scans an identifier at `i`.
fn lex_ident(s: &[u8], i: usize) -> (r: Option<(crate::ast::Ident, usize)>)
    requires
        i <= s@.len(),
    ensures
        match r {
            Some((id, j)) => {
                &&& p_ident(s@, i as int) == Some(
                    (IdentV { name: id.name@, span: id.span }, j as int),
                )
                &&& i < j <= s@.len()
            },
            None => p_ident(s@, i as int) is None,
        },
{
    if i >= s.len() || !((65 <= s[i] && s[i] <= 90) || (97 <= s[i] && s[i] <= 122)) {
        return None;
    }
    let j = scan_alnum(s, i + 1);
    let name = crate::ast::copy_bytes(slice_range(s, i, j));
    Some((crate::ast::Ident { name, span: Span { start: i, end: j } }, j))
}


// ---------------------------------------------------------------------------
// Expressions. The grammar has five levels of left-associative binary
// operators (loosest first: boolean, comparison, additive, multiplicative,
// remainder), then atoms: literals, identifiers, calls, negation, parentheses.
// ---------------------------------------------------------------------------

pub open spec fn two_at(s: Seq<u8>, j: int, c1: u8, c2: u8) -> bool {
    0 <= j && j + 2 <= s.len() && s[j] == c1 && s[j + 1] == c2
}

pub open spec fn one_at(s: Seq<u8>, j: int, c: u8) -> bool {
    0 <= j < s.len() && s[j] == c
}

/// The operator of precedence level `lvl` standing at `j`, with its length.
/// Two-byte operators are matched before their one-byte prefixes.
pub open spec fn op_at(s: Seq<u8>, j: int, lvl: int) -> Option<(BinaryOp, int)> {
    if lvl == 1 {
        if two_at(s, j, 38, 38) {
            Some((BinaryOp::And, 2))
        } else if two_at(s, j, 124, 124) {
            Some((BinaryOp::Or, 2))
        } else {
            None
        }
    } else if lvl == 2 {
        if two_at(s, j, 60, 61) {
            Some((BinaryOp::Leq, 2))
        } else if two_at(s, j, 62, 61) {
            Some((BinaryOp::Geq, 2))
        } else if two_at(s, j, 61, 61) {
            Some((BinaryOp::Eq, 2))
        } else if two_at(s, j, 33, 61) {
            Some((BinaryOp::Neq, 2))
        } else if one_at(s, j, 60) {
            Some((BinaryOp::Lt, 1))
        } else if one_at(s, j, 62) {
            Some((BinaryOp::Gt, 1))
        } else {
            None
        }
    } else if lvl == 3 {
        if one_at(s, j, 43) {
            Some((BinaryOp::Add, 1))
        } else if one_at(s, j, 45) {
            Some((BinaryOp::Sub, 1))
        } else {
            None
        }
    } else if lvl == 4 {
        if one_at(s, j, 42) {
            Some((BinaryOp::Mul, 1))
        } else if one_at(s, j, 47) {
            Some((BinaryOp::Div, 1))
        } else {
            None
        }
    } else if lvl == 5 {
        if one_at(s, j, 37) {
            Some((BinaryOp::Mod, 1))
        } else {
            None
        }
    } else {
        None
    }
}

/// An atom of the expression grammar at `i`. Ordered choice: float, integer,
/// string, call or identifier, negation, parenthesized expression.
pub open spec fn p_atom(s: Seq<u8>, i: int) -> Option<(ExprV, int)>
    decreases s.len() - i, 1int,
{
    if p_numf(s, i) is Some {
        let (f, j) = p_numf(s, i)->Some_0;
        Some((ExprV::ImmFloat(f), j))
    } else if p_num(s, i) is Some {
        let (v, sp, j) = p_num(s, i)->Some_0;
        Some((ExprV::ImmInt(v, sp), j))
    } else if p_text(s, i) is Some {
        let (t, sp, j) = p_text(s, i)->Some_0;
        Some((ExprV::ImmString(t, sp), j))
    } else if p_ident(s, i) is Some {
        let (id, j) = p_ident(s, i)->Some_0;
        let k = ws_end(s, j);
        if k < s.len() && s[k] == 40 {
            let a0 = ws_end(s, k + 1);
            if i < a0 <= s.len() {
                let (args, m) = p_args(s, a0);
                let c = ws_end(s, m);
                if c < s.len() && s[c] == 41 {
                    Some((ExprV::FnCall(FnCallV { fname: id, args }), c + 1))
                } else {
                    Some((ExprV::Ident(id), j))
                }
            } else {
                Some((ExprV::Ident(id), j))
            }
        } else {
            Some((ExprV::Ident(id), j))
        }
    } else if one_at(s, i, 33) {
        let j = ws_end(s, i + 1);
        let span = Span { start: i as usize, end: j as usize };
        if i < j <= s.len() {
            match p_bin(s, j, 1) {
                Some((e, m)) => Some((ExprV::Negation(NegationV { expr: Box::new(e), span }), m)),
                None => None,
            }
        } else {
            None
        }
    } else if one_at(s, i, 40) {
        let j = ws_end(s, i + 1);
        if i < j <= s.len() {
            match p_bin(s, j, 1) {
                Some((e, m)) => {
                    let c = ws_end(s, m);
                    if c < s.len() && s[c] == 41 {
                        Some((e, c + 1))
                    } else {
                        None
                    }
                },
                None => None,
            }
        } else {
            None
        }
    } else {
        None
    }
}

/// A binary-operator level of the expression grammar: level 6 is an atom,
/// level `lvl < 6` is one level-`lvl+1` operand followed by any number of
/// `op operand` tails, folded to the left.
pub open spec fn p_bin(s: Seq<u8>, i: int, lvl: int) -> Option<(ExprV, int)>
    decreases s.len() - i, 14 - 2 * lvl,
{
    if lvl == 6 {
        p_atom(s, i)
    } else if lvl < 1 || lvl > 6 {
        None
    } else {
        match p_bin(s, i, lvl + 1) {
            None => None,
            Some((lhs, j)) => if i <= j <= s.len() {
                Some(p_bin_rest(s, lhs, j, lvl))
            } else {
                Some((lhs, j))
            },
        }
    }
}

/// The left-associative tail of a level: while an operator of this level
/// follows (after whitespace) and a right operand parses with progress, fold
/// it into the accumulator; otherwise stop before the trailing whitespace.
pub open spec fn p_bin_rest(s: Seq<u8>, lhs: ExprV, i: int, lvl: int) -> (ExprV, int)
    decreases s.len() - i, 13 - 2 * lvl,
{
    if 1 <= lvl <= 5 && 0 <= i <= s.len() {
        let j = ws_end(s, i);
        match op_at(s, j, lvl) {
            None => (lhs, i),
            Some((op, oplen)) => {
                let k = ws_end(s, j + oplen);
                if i < k <= s.len() {
                    match p_bin(s, k, lvl + 1) {
                        None => (lhs, i),
                        Some((rhs, m)) => if i < m <= s.len() {
                            p_bin_rest(
                                s,
                                ExprV::BinExpr(op, Box::new(lhs), Box::new(rhs)),
                                m,
                                lvl,
                            )
                        } else {
                            (lhs, i)
                        },
                    }
                } else {
                    (lhs, i)
                }
            },
        }
    } else {
        (lhs, i)
    }
}

/// A full expression.
pub open spec fn p_expr(s: Seq<u8>, i: int) -> Option<(ExprV, int)> {
    p_bin(s, i, 1)
}

/// A possibly empty, comma-separated argument list.
pub open spec fn p_args(s: Seq<u8>, i: int) -> (Seq<ExprV>, int)
    decreases s.len() - i, 14int,
{
    if 0 <= i <= s.len() {
        match p_bin(s, i, 1) {
            None => (Seq::empty(), i),
            Some((e, j)) => if i < j <= s.len() {
                p_args_rest(s, seq![e], j)
            } else {
                (seq![e], j)
            },
        }
    } else {
        (Seq::empty(), i)
    }
}

/// The tail of an argument list: a comma, whitespace, and a further argument,
/// repeated while each step parses and makes progress.
pub open spec fn p_args_rest(s: Seq<u8>, acc: Seq<ExprV>, i: int) -> (Seq<ExprV>, int)
    decreases s.len() - i, 13int,
{
    if 0 <= i < s.len() && s[i] == 44 {
        let j = ws_end(s, i + 1);
        if i < j <= s.len() {
            match p_bin(s, j, 1) {
                None => (acc, i),
                Some((e, m)) => if i < m <= s.len() {
                    p_args_rest(s, acc.push(e), m)
                } else {
                    (acc, i)
                },
            }
        } else {
            (acc, i)
        }
    } else {
        (acc, i)
    }
}

proof fn lemma_exprs_view_push(v: Seq<Expr>, e: Expr)
    ensures
        exprs_view(v.push(e)) == exprs_view(v).push(expr_view(e)),
{
    assert(v.push(e).drop_last() =~= v);
    assert(v.push(e).last() == e);
}

fn match_op(s: &[u8], j: usize, lvl: u8) -> (r: Option<(BinaryOp, usize)>)
    requires
        j <= s@.len(),
    ensures
        match r {
            Some((op, l)) => op_at(s@, j as int, lvl as int) == Some((op, l as int)) && 1 <= l && j
                + l <= s@.len(),
            None => op_at(s@, j as int, lvl as int) is None,
        },
{
    let two = s.len() - j >= 2;
    let one = j < s.len();
    if lvl == 1 {
        if two && s[j] == 38 && s[j + 1] == 38 {
            Some((BinaryOp::And, 2))
        } else if two && s[j] == 124 && s[j + 1] == 124 {
            Some((BinaryOp::Or, 2))
        } else {
            None
        }
    } else if lvl == 2 {
        if two && s[j] == 60 && s[j + 1] == 61 {
            Some((BinaryOp::Leq, 2))
        } else if two && s[j] == 62 && s[j + 1] == 61 {
            Some((BinaryOp::Geq, 2))
        } else if two && s[j] == 61 && s[j + 1] == 61 {
            Some((BinaryOp::Eq, 2))
        } else if two && s[j] == 33 && s[j + 1] == 61 {
            Some((BinaryOp::Neq, 2))
        } else if one && s[j] == 60 {
            Some((BinaryOp::Lt, 1))
        } else if one && s[j] == 62 {
            Some((BinaryOp::Gt, 1))
        } else {
            None
        }
    } else if lvl == 3 {
        if one && s[j] == 43 {
            Some((BinaryOp::Add, 1))
        } else if one && s[j] == 45 {
            Some((BinaryOp::Sub, 1))
        } else {
            None
        }
    } else if lvl == 4 {
        if one && s[j] == 42 {
            Some((BinaryOp::Mul, 1))
        } else if one && s[j] == 47 {
            Some((BinaryOp::Div, 1))
        } else {
            None
        }
    } else if lvl == 5 {
        if one && s[j] == 37 {
            Some((BinaryOp::Mod, 1))
        } else {
            None
        }
    } else {
        None
    }
}

/// Parses one atom at `i`.
fn parse_atom(s: &[u8], i: usize) -> (r: Result<(Expr, usize), ParseError>)
    requires
        i <= s@.len(),
    ensures
        match r {
            Ok((e, j)) => p_atom(s@, i as int) == Some((expr_view(e), j as int)) && i < j
                <= s@.len(),
            Err(pe) => p_atom(s@, i as int) is None && pe.offset <= s@.len(),
        },
    decreases s@.len() - i, 1int,
{
    match lex_numf(s, i) {
        Some((f, j)) => {
            return Ok((Expr::ImmFloat(f), j));
        },
        None => {},
    }
    if i < s.len() && 48 <= s[i] && s[i] <= 57 {
        // a digit run that is not a float literal: must be an integer
        match lex_num(s, i) {
            Ok((v, sp, j)) => {
                return Ok((Expr::ImmInt(IntLiteral(v, sp)), j));
            },
            Err(pe) => {
                return Err(pe);
            },
        }
    }
    match lex_text(s, i) {
        Some((t, j)) => {
            return Ok((Expr::ImmString(t), j));
        },
        None => {},
    }
    match lex_ident(s, i) {
        Some((id, j)) => {
            let k = skip_ws(s, j);
            if k < s.len() && s[k] == 40 {
                let a0 = skip_ws(s, k + 1);
                if i < a0 {
                    let (args, m) = parse_args(s, a0);
                    let c = skip_ws(s, m);
                    if c < s.len() && s[c] == 41 {
                        let ghost argsv = exprs_view(args@);
                        let ghost idv = IdentV { name: id.name@, span: id.span };
                        let r = Expr::FnCall(FnCall { fname: id, args });
                        proof {
                            assert(crate::ast::fn_call_view(r->FnCall_0) == FnCallV {
                                fname: idv,
                                args: argsv,
                            });
                            assert(expr_view(r) == ExprV::FnCall(
                                FnCallV { fname: idv, args: argsv },
                            ));
                        }
                        return Ok((r, c + 1));
                    } else {
                        return Ok((Expr::Ident(id), j));
                    }
                } else {
                    return Ok((Expr::Ident(id), j));
                }
            } else {
                return Ok((Expr::Ident(id), j));
            }
        },
        None => {},
    }
    if i < s.len() && s[i] == 33 {
        let j = skip_ws(s, i + 1);
        let span = Span { start: i, end: j };
        if i < j {
            match parse_bin(s, j, 1) {
                Ok((e, m)) => {
                    return Ok(
                        (crate::ast::Expr::Negation(crate::ast::Negation { expr: Box::new(e), span }), m),
                    );
                },
                Err(pe) => {
                    return Err(pe);
                },
            }
        } else {
            return Err(ParseError { offset: i, expected: "expression" });
        }
    }
    if i < s.len() && s[i] == 40 {
        let j = skip_ws(s, i + 1);
        if i < j {
            match parse_bin(s, j, 1) {
                Ok((e, m)) => {
                    let c = skip_ws(s, m);
                    if c < s.len() && s[c] == 41 {
                        return Ok((e, c + 1));
                    } else {
                        return Err(ParseError { offset: c, expected: "')'" });
                    }
                },
                Err(pe) => {
                    return Err(pe);
                },
            }
        } else {
            return Err(ParseError { offset: i, expected: "expression" });
        }
    }
    Err(ParseError { offset: i, expected: "expression" })
}

/// Parses the binary-operator level `lvl` at `i`; level 6 is an atom.
fn parse_bin(s: &[u8], i: usize, lvl: u8) -> (r: Result<(Expr, usize), ParseError>)
    requires
        i <= s@.len(),
        1 <= lvl <= 6,
    ensures
        match r {
            Ok((e, j)) => p_bin(s@, i as int, lvl as int) == Some((expr_view(e), j as int)) && i < j
                <= s@.len(),
            Err(pe) => p_bin(s@, i as int, lvl as int) is None && pe.offset <= s@.len(),
        },
    decreases s@.len() - i, 14 - 2 * (lvl as int),
{
    if lvl == 6 {
        return parse_atom(s, i);
    }
    let _slen = s.len();
    let first = parse_bin(s, i, lvl + 1);
    let (mut lhs, mut pos) = match first {
        Ok(p) => p,
        Err(pe) => {
            return Err(pe);
        },
    };
    proof {
        assert(p_bin(s@, i as int, lvl as int) == Some(
            p_bin_rest(s@, expr_view(lhs), pos as int, lvl as int),
        ));
    }
    loop
        invariant
            i < pos <= s@.len() <= usize::MAX,
            1 <= lvl <= 5,
            i <= s@.len(),
            p_bin(s@, i as int, lvl as int) == Some(
                p_bin_rest(s@, expr_view(lhs), pos as int, lvl as int),
            ),
        decreases s@.len() - pos,
    {
        let j = skip_ws(s, pos);
        match match_op(s, j, lvl) {
            None => {
                return Ok((lhs, pos));
            },
            Some((op, oplen)) => {
                let k = skip_ws(s, j + oplen);
                match parse_bin(s, k, lvl + 1) {
                    Err(_) => {
                        return Ok((lhs, pos));
                    },
                    Ok((rhs, m)) => {
                        if m > pos {
                            lhs = Expr::BinExpr(BinExpr(op, Box::new(lhs), Box::new(rhs)));
                            pos = m;
                        } else {
                            return Ok((lhs, pos));
                        }
                    },
                }
            },
        }
    }
}

/// Parses a possibly empty argument list at `i`; never fails.
fn parse_args(s: &[u8], i: usize) -> (r: (Vec<Expr>, usize))
    requires
        i <= s@.len(),
    ensures
        p_args(s@, i as int) == (exprs_view(r.0@), r.1 as int),
        i <= r.1 <= s@.len(),
    decreases s@.len() - i, 14int,
{
    let _slen = s.len();
    let first = parse_bin(s, i, 1);
    let (e0, pos0) = match first {
        Ok(p) => p,
        Err(_) => {
            let empty: Vec<Expr> = Vec::new();
            proof {
                assert(exprs_view(empty@) =~= Seq::<ExprV>::empty());
            }
            return (empty, i);
        },
    };
    let mut args: Vec<Expr> = Vec::new();
    args.push(e0);
    proof {
        assert(args@.drop_last() =~= Seq::<Expr>::empty());
        assert(exprs_view(Seq::<Expr>::empty()) == Seq::<ExprV>::empty());
        assert(exprs_view(args@) == exprs_view(args@.drop_last()).push(expr_view(e0)));
        assert(Seq::<ExprV>::empty().push(expr_view(e0)) =~= seq![expr_view(e0)]);
    }
    let mut pos = pos0;
    loop
        invariant
            i < pos <= s@.len() <= usize::MAX,
            p_args(s@, i as int) == p_args_rest(s@, exprs_view(args@), pos as int),
        decreases s@.len() - pos,
    {
        if pos < s.len() && s[pos] == 44 {
            let j = skip_ws(s, pos + 1);
            match parse_bin(s, j, 1) {
                Err(_) => {
                    return (args, pos);
                },
                Ok((e, m)) => {
                    if m > pos {
                        proof {
                            lemma_exprs_view_push(args@, e);
                        }
                        args.push(e);
                        pos = m;
                    } else {
                        return (args, pos);
                    }
                },
            }
        } else {
            return (args, pos);
        }
    }
}

// ---------------------------------------------------------------------------
// Statements and the whole program.
// ---------------------------------------------------------------------------

pub open spec fn kw_declare() -> Seq<u8> {
    seq![100u8, 101u8, 99u8, 108u8, 97u8, 114u8, 101u8]
}

pub open spec fn kw_se() -> Seq<u8> {
    seq![115u8, 101u8]
}

pub open spec fn kw_entao() -> Seq<u8> {
    seq![101u8, 110u8, 116u8, 97u8, 111u8]
}

pub open spec fn kw_senao() -> Seq<u8> {
    seq![115u8, 101u8, 110u8, 97u8, 111u8]
}

pub open spec fn kw_enquanto() -> Seq<u8> {
    seq![101u8, 110u8, 113u8, 117u8, 97u8, 110u8, 116u8, 111u8]
}

pub open spec fn kw_faca() -> Seq<u8> {
    seq![102u8, 97u8, 99u8, 97u8]
}

pub open spec fn kw_programa() -> Seq<u8> {
    seq![112u8, 114u8, 111u8, 103u8, 114u8, 97u8, 109u8, 97u8]
}

/// The closing marker, `fimprog` with its dot.
pub open spec fn kw_fimprog() -> Seq<u8> {
    seq![102u8, 105u8, 109u8, 112u8, 114u8, 111u8, 103u8, 46u8]
}

/// One `name : type` declaration; its span runs from the name to the type.
pub open spec fn p_decl(s: Seq<u8>, i: int) -> Option<(VarDeclV, int)> {
    match p_ident(s, i) {
        None => None,
        Some((vn, j)) => {
            let k = ws_end(s, j);
            if k < s.len() && s[k] == 58 {
                let m = ws_end(s, k + 1);
                match p_ident(s, m) {
                    None => None,
                    Some((vt, e)) => Some(
                        (
                            VarDeclV {
                                var_name: vn,
                                var_type: vt,
                                span: Span { start: i as usize, end: e as usize },
                            },
                            e,
                        ),
                    ),
                }
            } else {
                None
            }
        },
    }
}

/// Further `, decl` items of a multi-declaration.
pub open spec fn p_decls_rest(s: Seq<u8>, acc: Seq<VarDeclV>, i: int) -> (Seq<VarDeclV>, int)
    decreases s.len() - i,
{
    if 0 <= i < s.len() && s[i] == 44 {
        let j = ws_end(s, i + 1);
        if i < j <= s.len() {
            match p_decl(s, j) {
                None => (acc, i),
                Some((d, m)) => if i < m <= s.len() {
                    p_decls_rest(s, acc.push(d), m)
                } else {
                    (acc, i)
                },
            }
        } else {
            (acc, i)
        }
    } else {
        (acc, i)
    }
}

/// `declare decl (, decl)* .`
pub open spec fn p_multidecl(s: Seq<u8>, i: int) -> Option<(Seq<VarDeclV>, int)> {
    if match_at(s, i, kw_declare()) {
        let j = ws_end(s, i + 7);
        if i < j <= s.len() {
            match p_decl(s, j) {
                None => None,
                Some((d0, m)) => {
                    let (ds, p) = p_decls_rest(s, seq![d0], m);
                    let q = ws_end(s, p);
                    if q < s.len() && s[q] == 46 {
                        Some((ds, q + 1))
                    } else {
                        None
                    }
                },
            }
        } else {
            None
        }
    } else {
        None
    }
}

/// A call statement: `ident ( args ).` with the dot right after the closing
/// parenthesis.
pub open spec fn p_fncall_stmt(s: Seq<u8>, i: int) -> Option<(FnCallV, int)>
    decreases s.len() - i, 20int,
{
    match p_ident(s, i) {
        None => None,
        Some((id, j)) => {
            let k = ws_end(s, j);
            if k < s.len() && s[k] == 40 {
                let a0 = ws_end(s, k + 1);
                if i <= a0 <= s.len() {
                    let (args, m) = p_args(s, a0);
                    let c = ws_end(s, m);
                    if c + 2 <= s.len() && s[c] == 41 && s[c + 1] == 46 {
                        Some((FnCallV { fname: id, args }, c + 2))
                    } else {
                        None
                    }
                } else {
                    None
                }
            } else {
                None
            }
        },
    }
}

/// `ident := expr .`
pub open spec fn p_assignment(s: Seq<u8>, i: int) -> Option<(AssignmentV, int)>
    decreases s.len() - i, 20int,
{
    match p_ident(s, i) {
        None => None,
        Some((id, j)) => {
            let k = ws_end(s, j);
            if k + 2 <= s.len() && s[k] == 58 && s[k + 1] == 61 {
                let m = ws_end(s, k + 2);
                if i <= m <= s.len() {
                    match p_expr(s, m) {
                        None => None,
                        Some((v, e)) => {
                            let d = ws_end(s, e);
                            if d < s.len() && s[d] == 46 {
                                Some((AssignmentV { ident: id, val: v }, d + 1))
                            } else {
                                None
                            }
                        },
                    }
                } else {
                    None
                }
            } else {
                None
            }
        },
    }
}

/// `{ statement* }`, starting at the opening brace.
pub open spec fn p_block(s: Seq<u8>, i: int) -> Option<(Seq<StatementV>, int)>
    decreases s.len() - i, 23int,
{
    if one_at(s, i, 123) {
        let j = ws_end(s, i + 1);
        if i < j <= s.len() {
            let (sts, p) = p_stmts(s, Seq::empty(), j);
            let q = ws_end(s, p);
            if q < s.len() && s[q] == 125 {
                Some((sts, q + 1))
            } else {
                None
            }
        } else {
            None
        }
    } else {
        None
    }
}

/// `se ( expr ) entao { ... } (senao { ... })?`
pub open spec fn p_conditional(s: Seq<u8>, i: int) -> Option<(ConditionalV, int)>
    decreases s.len() - i, 20int,
{
    if match_at(s, i, kw_se()) {
        let j = ws_end(s, i + 2);
        if j < s.len() && s[j] == 40 {
            let m = ws_end(s, j + 1);
            if i <= m <= s.len() {
                match p_expr(s, m) {
                    None => None,
                    Some((c, e)) => {
                        let d = ws_end(s, e);
                        if d < s.len() && s[d] == 41 {
                            let f = ws_end(s, d + 1);
                            if match_at(s, f, kw_entao()) {
                                let g = ws_end(s, f + 5);
                                if i < g <= s.len() {
                                    match p_block(s, g) {
                                        None => None,
                                        Some((taken, p)) => {
                                            let q = ws_end(s, p);
                                            if match_at(s, q, kw_senao()) {
                                                let h = ws_end(s, q + 5);
                                                if i < h <= s.len() && p_block(s, h) is Some {
                                                    let (nt, z) = p_block(s, h)->Some_0;
                                                    Some(
                                                        (
                                                            ConditionalV {
                                                                cond: c,
                                                                taken,
                                                                not_taken: nt,
                                                            },
                                                            z,
                                                        ),
                                                    )
                                                } else {
                                                    Some(
                                                        (
                                                            ConditionalV {
                                                                cond: c,
                                                                taken,
                                                                not_taken: Seq::empty(),
                                                            },
                                                            p,
                                                        ),
                                                    )
                                                }
                                            } else {
                                                Some(
                                                    (
                                                        ConditionalV {
                                                            cond: c,
                                                            taken,
                                                            not_taken: Seq::empty(),
                                                        },
                                                        p,
                                                    ),
                                                )
                                            }
                                        },
                                    }
                                } else {
                                    None
                                }
                            } else {
                                None
                            }
                        } else {
                            None
                        }
                    },
                }
            } else {
                None
            }
        } else {
            None
        }
    } else {
        None
    }
}

/// `enquanto ( expr ) { ... }`
pub open spec fn p_while(s: Seq<u8>, i: int) -> Option<(WhileLoopV, int)>
    decreases s.len() - i, 20int,
{
    if match_at(s, i, kw_enquanto()) {
        let j = ws_end(s, i + 8);
        if j < s.len() && s[j] == 40 {
            let m = ws_end(s, j + 1);
            if i <= m <= s.len() {
                match p_expr(s, m) {
                    None => None,
                    Some((c, e)) => {
                        let d = ws_end(s, e);
                        if d < s.len() && s[d] == 41 {
                            let f = ws_end(s, d + 1);
                            if i < f <= s.len() {
                                match p_block(s, f) {
                                    None => None,
                                    Some((body, p)) => Some((WhileLoopV { cond: c, body }, p)),
                                }
                            } else {
                                None
                            }
                        } else {
                            None
                        }
                    },
                }
            } else {
                None
            }
        } else {
            None
        }
    } else {
        None
    }
}

/// `faca { ... } enquanto ( expr ).`
pub open spec fn p_dowhile(s: Seq<u8>, i: int) -> Option<(DoWhileLoopV, int)>
    decreases s.len() - i, 20int,
{
    if match_at(s, i, kw_faca()) {
        let j = ws_end(s, i + 4);
        if i < j <= s.len() {
            match p_block(s, j) {
                None => None,
                Some((body, p)) => {
                    let q = ws_end(s, p);
                    if match_at(s, q, kw_enquanto()) {
                        let f = ws_end(s, q + 8);
                        if f < s.len() && s[f] == 40 {
                            let m = ws_end(s, f + 1);
                            if i <= m <= s.len() {
                                match p_expr(s, m) {
                                    None => None,
                                    Some((c, e)) => {
                                        let d = ws_end(s, e);
                                        if d + 2 <= s.len() && s[d] == 41 && s[d + 1] == 46 {
                                            Some((DoWhileLoopV { cond: c, body }, d + 2))
                                        } else {
                                            None
                                        }
                                    },
                                }
                            } else {
                                None
                            }
                        } else {
                            None
                        }
                    } else {
                        None
                    }
                },
            }
        } else {
            None
        }
    } else {
        None
    }
}

/// One statement: the alternatives are tried in the order of the grammar.
pub open spec fn p_stmt(s: Seq<u8>, i: int) -> Option<(StatementV, int)>
    decreases s.len() - i, 21int,
{
    if p_multidecl(s, i) is Some {
        let (ds, j) = p_multidecl(s, i)->Some_0;
        Some((StatementV::Decl(ds), j))
    } else if p_fncall_stmt(s, i) is Some {
        let (c, j) = p_fncall_stmt(s, i)->Some_0;
        Some((StatementV::FnCall(c), j))
    } else if p_assignment(s, i) is Some {
        let (a, j) = p_assignment(s, i)->Some_0;
        Some((StatementV::Assignment(a), j))
    } else if p_conditional(s, i) is Some {
        let (c, j) = p_conditional(s, i)->Some_0;
        Some((StatementV::Conditional(c), j))
    } else if p_while(s, i) is Some {
        let (l, j) = p_while(s, i)->Some_0;
        Some((StatementV::WhileLoop(l), j))
    } else if p_dowhile(s, i) is Some {
        let (l, j) = p_dowhile(s, i)->Some_0;
        Some((StatementV::DoWhileLoop(l), j))
    } else {
        None
    }
}

/// A whitespace-separated statement list; stops before the first position
/// where no statement parses.
pub open spec fn p_stmts(s: Seq<u8>, acc: Seq<StatementV>, i: int) -> (Seq<StatementV>, int)
    decreases s.len() - i, 22int,
{
    if 0 <= i <= s.len() {
        let j = ws_end(s, i);
        if i <= j <= s.len() {
            match p_stmt(s, j) {
                None => (acc, i),
                Some((st, m)) => if i < m <= s.len() {
                    p_stmts(s, acc.push(st), m)
                } else {
                    (acc, i)
                },
            }
        } else {
            (acc, i)
        }
    } else {
        (acc, i)
    }
}

/// The whole program: `programa statement* fimprog.` with nothing but
/// whitespace around it, to the end of the input.
pub open spec fn p_program(s: Seq<u8>) -> Option<IsiProgramV> {
    let i0 = ws_end(s, 0);
    if match_at(s, i0, kw_programa()) {
        let j = ws_end(s, i0 + 8);
        let (sts, p) = p_stmts(s, Seq::empty(), j);
        let q = ws_end(s, p);
        if match_at(s, q, kw_fimprog()) {
            let r = ws_end(s, q + 8);
            if r == s.len() {
                Some(IsiProgramV { statements: sts })
            } else {
                None
            }
        } else {
            None
        }
    } else {
        None
    }
}

// ---------------------------------------------------------------------------
// Executable statement parsers, each proved equal to its grammar function.
// ---------------------------------------------------------------------------

fn is_kw_declare(s: &[u8], i: usize) -> (r: bool)
    requires
        i <= s@.len(),
    ensures
        r == match_at(s@, i as int, kw_declare()),
{
    let a: [u8; 7] = [100, 101, 99, 108, 97, 114, 101];
    proof {
        assert(a@ =~= kw_declare());
    }
    match_bytes(s, i, a.as_slice())
}

fn is_kw_se(s: &[u8], i: usize) -> (r: bool)
    requires
        i <= s@.len(),
    ensures
        r == match_at(s@, i as int, kw_se()),
{
    let a: [u8; 2] = [115, 101];
    proof {
        assert(a@ =~= kw_se());
    }
    match_bytes(s, i, a.as_slice())
}

fn is_kw_entao(s: &[u8], i: usize) -> (r: bool)
    requires
        i <= s@.len(),
    ensures
        r == match_at(s@, i as int, kw_entao()),
{
    let a: [u8; 5] = [101, 110, 116, 97, 111];
    proof {
        assert(a@ =~= kw_entao());
    }
    match_bytes(s, i, a.as_slice())
}

fn is_kw_senao(s: &[u8], i: usize) -> (r: bool)
    requires
        i <= s@.len(),
    ensures
        r == match_at(s@, i as int, kw_senao()),
{
    let a: [u8; 5] = [115, 101, 110, 97, 111];
    proof {
        assert(a@ =~= kw_senao());
    }
    match_bytes(s, i, a.as_slice())
}

fn is_kw_enquanto(s: &[u8], i: usize) -> (r: bool)
    requires
        i <= s@.len(),
    ensures
        r == match_at(s@, i as int, kw_enquanto()),
{
    let a: [u8; 8] = [101, 110, 113, 117, 97, 110, 116, 111];
    proof {
        assert(a@ =~= kw_enquanto());
    }
    match_bytes(s, i, a.as_slice())
}

fn is_kw_faca(s: &[u8], i: usize) -> (r: bool)
    requires
        i <= s@.len(),
    ensures
        r == match_at(s@, i as int, kw_faca()),
{
    let a: [u8; 4] = [102, 97, 99, 97];
    proof {
        assert(a@ =~= kw_faca());
    }
    match_bytes(s, i, a.as_slice())
}

fn is_kw_programa(s: &[u8], i: usize) -> (r: bool)
    requires
        i <= s@.len(),
    ensures
        r == match_at(s@, i as int, kw_programa()),
{
    let a: [u8; 8] = [112, 114, 111, 103, 114, 97, 109, 97];
    proof {
        assert(a@ =~= kw_programa());
    }
    match_bytes(s, i, a.as_slice())
}

fn is_kw_fimprog(s: &[u8], i: usize) -> (r: bool)
    requires
        i <= s@.len(),
    ensures
        r == match_at(s@, i as int, kw_fimprog()),
{
    let a: [u8; 8] = [102, 105, 109, 112, 114, 111, 103, 46];
    proof {
        assert(a@ =~= kw_fimprog());
    }
    match_bytes(s, i, a.as_slice())
}

/// The error whose offset lies further into the input.
fn max_err(a: ParseError, b: ParseError) -> (r: ParseError)
    ensures
        r == a || r == b,
        r.offset >= a.offset && r.offset >= b.offset,
{
    if a.offset >= b.offset {
        a
    } else {
        b
    }
}

proof fn lemma_stmts_view_push(v: Seq<Statement>, st: Statement)
    ensures
        crate::ast::stmts_view(v.push(st)) == crate::ast::stmts_view(v).push(
            crate::ast::stmt_view(st),
        ),
{
    assert(v.push(st).drop_last() =~= v);
    assert(v.push(st).last() == st);
}

proof fn lemma_var_decls_view_push(v: Seq<VarDecl>, d: VarDecl)
    ensures
        crate::ast::var_decls_view(v.push(d)) == crate::ast::var_decls_view(v).push(
            crate::ast::var_decl_view(d),
        ),
{
    assert(crate::ast::var_decls_view(v.push(d)) =~= crate::ast::var_decls_view(v).push(
        crate::ast::var_decl_view(d),
    ));
}

fn parse_decl(s: &[u8], i: usize) -> (r: Result<(VarDecl, usize), ParseError>)
    requires
        i <= s@.len(),
    ensures
        match r {
            Ok((d, e)) => p_decl(s@, i as int) == Some((crate::ast::var_decl_view(d), e as int))
                && i < e <= s@.len(),
            Err(pe) => p_decl(s@, i as int) is None && pe.offset <= s@.len(),
        },
{
    let (vn, j) = match lex_ident(s, i) {
        Some(p) => p,
        None => {
            return Err(ParseError { offset: i, expected: "identifier" });
        },
    };
    let k = skip_ws(s, j);
    if !(k < s.len() && s[k] == 58) {
        return Err(ParseError { offset: k, expected: "':'" });
    }
    let m = skip_ws(s, k + 1);
    let (vt, e) = match lex_ident(s, m) {
        Some(p) => p,
        None => {
            return Err(ParseError { offset: m, expected: "type name" });
        },
    };
    Ok((VarDecl { var_name: vn, var_type: vt, span: Span { start: i, end: e } }, e))
}

fn parse_multidecl(s: &[u8], i: usize) -> (r: Result<(Vec<VarDecl>, usize), ParseError>)
    requires
        i <= s@.len(),
    ensures
        match r {
            Ok((ds, e)) => p_multidecl(s@, i as int) == Some(
                (crate::ast::var_decls_view(ds@), e as int),
            ) && i < e <= s@.len(),
            Err(pe) => p_multidecl(s@, i as int) is None && pe.offset <= s@.len(),
        },
{
    let _slen = s.len();
    if !is_kw_declare(s, i) {
        return Err(ParseError { offset: i, expected: "statement" });
    }
    let j = skip_ws(s, i + 7);
    let (d0, m0) = match parse_decl(s, j) {
        Ok(p) => p,
        Err(pe) => {
            return Err(pe);
        },
    };
    let mut ds: Vec<VarDecl> = Vec::new();
    ds.push(d0);
    proof {
        assert(ds@.drop_last() =~= Seq::<VarDecl>::empty());
        assert(crate::ast::var_decls_view(ds@) =~= seq![crate::ast::var_decl_view(d0)]);
    }
    let mut pos = m0;
    loop
        invariant
            i < pos <= s@.len() <= usize::MAX,
            i <= s@.len(),
            p_multidecl(s@, i as int) == {
                let (dsv, p) = p_decls_rest(s@, crate::ast::var_decls_view(ds@), pos as int);
                let q = ws_end(s@, p);
                if q < s@.len() && s@[q] == 46 {
                    Some::<(Seq<VarDeclV>, int)>((dsv, q + 1))
                } else {
                    None
                }
            },
        ensures
            i < pos <= s@.len(),
            p_decls_rest(s@, crate::ast::var_decls_view(ds@), pos as int) == (
                crate::ast::var_decls_view(ds@),
                pos as int,
            ),
            p_multidecl(s@, i as int) == {
                let q = ws_end(s@, pos as int);
                if q < s@.len() && s@[q] == 46 {
                    Some::<(Seq<VarDeclV>, int)>((crate::ast::var_decls_view(ds@), q + 1))
                } else {
                    None
                }
            },
        decreases s@.len() - pos,
    {
        if pos < s.len() && s[pos] == 44 {
            let j2 = skip_ws(s, pos + 1);
            match parse_decl(s, j2) {
                Err(_) => {
                    break ;
                },
                Ok((d, m)) => {
                    proof {
                        lemma_var_decls_view_push(ds@, d);
                    }
                    ds.push(d);
                    pos = m;
                },
            }
        } else {
            break ;
        }
    }
    let q = skip_ws(s, pos);
    if q < s.len() && s[q] == 46 {
        Ok((ds, q + 1))
    } else {
        Err(ParseError { offset: q, expected: "'.'" })
    }
}

fn parse_fncall_stmt(s: &[u8], i: usize) -> (r: Result<(FnCall, usize), ParseError>)
    requires
        i <= s@.len(),
    ensures
        match r {
            Ok((c, e)) => p_fncall_stmt(s@, i as int) == Some(
                (crate::ast::fn_call_view(c), e as int),
            ) && i < e <= s@.len(),
            Err(pe) => p_fncall_stmt(s@, i as int) is None && pe.offset <= s@.len(),
        },
{
    let (id, j) = match lex_ident(s, i) {
        Some(p) => p,
        None => {
            return Err(ParseError { offset: i, expected: "statement" });
        },
    };
    let k = skip_ws(s, j);
    if !(k < s.len() && s[k] == 40) {
        return Err(ParseError { offset: k, expected: "'('" });
    }
    let a0 = skip_ws(s, k + 1);
    let (args, m) = parse_args(s, a0);
    let c = skip_ws(s, m);
    if s.len() - c >= 2 && s[c] == 41 && s[c + 1] == 46 {
        Ok((FnCall { fname: id, args }, c + 2))
    } else {
        Err(ParseError { offset: c, expected: "').'" })
    }
}

fn parse_assignment(s: &[u8], i: usize) -> (r: Result<(Assignment, usize), ParseError>)
    requires
        i <= s@.len(),
    ensures
        match r {
            Ok((a, e)) => p_assignment(s@, i as int) == Some(
                (
                    AssignmentV {
                        ident: crate::ast::ident_view(a.ident),
                        val: expr_view(a.val),
                    },
                    e as int,
                ),
            ) && i < e <= s@.len(),
            Err(pe) => p_assignment(s@, i as int) is None && pe.offset <= s@.len(),
        },
{
    let (id, j) = match lex_ident(s, i) {
        Some(p) => p,
        None => {
            return Err(ParseError { offset: i, expected: "statement" });
        },
    };
    let k = skip_ws(s, j);
    if !(s.len() - k >= 2 && s[k] == 58 && s[k + 1] == 61) {
        return Err(ParseError { offset: k, expected: "':='" });
    }
    let m = skip_ws(s, k + 2);
    let (v, e) = match parse_bin(s, m, 1) {
        Ok(p) => p,
        Err(pe) => {
            return Err(pe);
        },
    };
    let d = skip_ws(s, e);
    if d < s.len() && s[d] == 46 {
        Ok((Assignment { ident: id, val: v }, d + 1))
    } else {
        Err(ParseError { offset: d, expected: "'.'" })
    }
}

fn parse_block(s: &[u8], i: usize) -> (r: Result<(Vec<Statement>, usize), ParseError>)
    requires
        i <= s@.len(),
    ensures
        match r {
            Ok((sts, e)) => p_block(s@, i as int) == Some(
                (crate::ast::stmts_view(sts@), e as int),
            ) && i < e <= s@.len(),
            Err(pe) => p_block(s@, i as int) is None && pe.offset <= s@.len(),
        },
    decreases s@.len() - i, 23int,
{
    if !(i < s.len() && s[i] == 123) {
        return Err(ParseError { offset: i, expected: "'{'" });
    }
    let j = skip_ws(s, i + 1);
    let (sts, p, _serr) = parse_stmts(s, j);
    let q = skip_ws(s, p);
    if q < s.len() && s[q] == 125 {
        Ok((sts, q + 1))
    } else {
        Err(ParseError { offset: q, expected: "'}'" })
    }
}

fn parse_conditional(s: &[u8], i: usize) -> (r: Result<(Conditional, usize), ParseError>)
    requires
        i <= s@.len(),
    ensures
        match r {
            Ok((c, e)) => p_conditional(s@, i as int) == Some(
                (
                    ConditionalV {
                        cond: expr_view(c.cond),
                        taken: crate::ast::stmts_view(c.taken@),
                        not_taken: crate::ast::stmts_view(c.not_taken@),
                    },
                    e as int,
                ),
            ) && i < e <= s@.len(),
            Err(pe) => p_conditional(s@, i as int) is None && pe.offset <= s@.len(),
        },
    decreases s@.len() - i, 20int,
{
    let _slen = s.len();
    if !is_kw_se(s, i) {
        return Err(ParseError { offset: i, expected: "statement" });
    }
    let j = skip_ws(s, i + 2);
    if !(j < s.len() && s[j] == 40) {
        return Err(ParseError { offset: j, expected: "'('" });
    }
    let m = skip_ws(s, j + 1);
    let (cond, e) = match parse_bin(s, m, 1) {
        Ok(p) => p,
        Err(pe) => {
            return Err(pe);
        },
    };
    let d = skip_ws(s, e);
    if !(d < s.len() && s[d] == 41) {
        return Err(ParseError { offset: d, expected: "')'" });
    }
    let f = skip_ws(s, d + 1);
    if !is_kw_entao(s, f) {
        return Err(ParseError { offset: f, expected: "'entao'" });
    }
    let g = skip_ws(s, f + 5);
    let (taken, p) = match parse_block(s, g) {
        Ok(b) => b,
        Err(pe) => {
            return Err(pe);
        },
    };
    let q = skip_ws(s, p);
    if is_kw_senao(s, q) {
        let h = skip_ws(s, q + 5);
        match parse_block(s, h) {
            Ok((nt, z)) => {
                return Ok((Conditional { cond, taken, not_taken: nt }, z));
            },
            Err(_) => {
                let not_taken: Vec<Statement> = Vec::new();
                proof {
                    assert(crate::ast::stmts_view(not_taken@) =~= Seq::<StatementV>::empty());
                }
                return Ok((Conditional { cond, taken, not_taken }, p));
            },
        }
    }
    let not_taken: Vec<Statement> = Vec::new();
    proof {
        assert(crate::ast::stmts_view(not_taken@) =~= Seq::<StatementV>::empty());
    }
    Ok((Conditional { cond, taken, not_taken }, p))
}

fn parse_while(s: &[u8], i: usize) -> (r: Result<(WhileLoop, usize), ParseError>)
    requires
        i <= s@.len(),
    ensures
        match r {
            Ok((l, e)) => p_while(s@, i as int) == Some(
                (
                    WhileLoopV { cond: expr_view(l.cond), body: crate::ast::stmts_view(l.body@) },
                    e as int,
                ),
            ) && i < e <= s@.len(),
            Err(pe) => p_while(s@, i as int) is None && pe.offset <= s@.len(),
        },
    decreases s@.len() - i, 20int,
{
    let _slen = s.len();
    if !is_kw_enquanto(s, i) {
        return Err(ParseError { offset: i, expected: "statement" });
    }
    let j = skip_ws(s, i + 8);
    if !(j < s.len() && s[j] == 40) {
        return Err(ParseError { offset: j, expected: "'('" });
    }
    let m = skip_ws(s, j + 1);
    let (cond, e) = match parse_bin(s, m, 1) {
        Ok(p) => p,
        Err(pe) => {
            return Err(pe);
        },
    };
    let d = skip_ws(s, e);
    if !(d < s.len() && s[d] == 41) {
        return Err(ParseError { offset: d, expected: "')'" });
    }
    let f = skip_ws(s, d + 1);
    match parse_block(s, f) {
        Ok((body, p)) => Ok((WhileLoop { cond, body }, p)),
        Err(pe) => Err(pe),
    }
}

fn parse_dowhile(s: &[u8], i: usize) -> (r: Result<(DoWhileLoop, usize), ParseError>)
    requires
        i <= s@.len(),
    ensures
        match r {
            Ok((l, e)) => p_dowhile(s@, i as int) == Some(
                (
                    DoWhileLoopV {
                        cond: expr_view(l.cond),
                        body: crate::ast::stmts_view(l.body@),
                    },
                    e as int,
                ),
            ) && i < e <= s@.len(),
            Err(pe) => p_dowhile(s@, i as int) is None && pe.offset <= s@.len(),
        },
    decreases s@.len() - i, 20int,
{
    let _slen = s.len();
    if !is_kw_faca(s, i) {
        return Err(ParseError { offset: i, expected: "statement" });
    }
    let j = skip_ws(s, i + 4);
    let (body, p) = match parse_block(s, j) {
        Ok(b) => b,
        Err(pe) => {
            return Err(pe);
        },
    };
    let q = skip_ws(s, p);
    if !is_kw_enquanto(s, q) {
        return Err(ParseError { offset: q, expected: "'enquanto'" });
    }
    let f = skip_ws(s, q + 8);
    if !(f < s.len() && s[f] == 40) {
        return Err(ParseError { offset: f, expected: "'('" });
    }
    let m = skip_ws(s, f + 1);
    let (cond, e) = match parse_bin(s, m, 1) {
        Ok(p2) => p2,
        Err(pe) => {
            return Err(pe);
        },
    };
    let d = skip_ws(s, e);
    if s.len() - d >= 2 && s[d] == 41 && s[d + 1] == 46 {
        Ok((DoWhileLoop { cond, body }, d + 2))
    } else {
        Err(ParseError { offset: d, expected: "').'" })
    }
}

/// Parses one statement at `i`, trying the alternatives in grammar order and
/// reporting the failure that reached furthest.
fn parse_statement(s: &[u8], i: usize) -> (r: Result<(Statement, usize), ParseError>)
    requires
        i <= s@.len(),
    ensures
        match r {
            Ok((st, e)) => p_stmt(s@, i as int) == Some((crate::ast::stmt_view(st), e as int)) && i
                < e <= s@.len(),
            Err(pe) => p_stmt(s@, i as int) is None && pe.offset <= s@.len(),
        },
    decreases s@.len() - i, 21int,
{
    let e1 = match parse_multidecl(s, i) {
        Ok((ds, e)) => {
            return Ok((Statement::Decl(crate::ast::MultiVarDecl(ds)), e));
        },
        Err(pe) => pe,
    };
    let e2 = match parse_fncall_stmt(s, i) {
        Ok((c, e)) => {
            return Ok((Statement::FnCall(c), e));
        },
        Err(pe) => pe,
    };
    let e3 = match parse_assignment(s, i) {
        Ok((a, e)) => {
            return Ok((Statement::Assignment(a), e));
        },
        Err(pe) => pe,
    };
    let e4 = match parse_conditional(s, i) {
        Ok((c, e)) => {
            return Ok((Statement::Conditional(c), e));
        },
        Err(pe) => pe,
    };
    let e5 = match parse_while(s, i) {
        Ok((l, e)) => {
            return Ok((Statement::WhileLoop(l), e));
        },
        Err(pe) => pe,
    };
    let e6 = match parse_dowhile(s, i) {
        Ok((l, e)) => {
            return Ok((Statement::DoWhileLoop(l), e));
        },
        Err(pe) => pe,
    };
    Err(max_err(max_err(max_err(e1, e2), max_err(e3, e4)), max_err(e5, e6)))
}

/// Parses a statement list at `i`; also hands back the failure that ended the
/// list, for the caller's diagnostics.
fn parse_stmts(s: &[u8], i: usize) -> (r: (Vec<Statement>, usize, ParseError))
    requires
        i <= s@.len(),
    ensures
        p_stmts(s@, Seq::empty(), i as int) == (crate::ast::stmts_view(r.0@), r.1 as int),
        i <= r.1 <= s@.len(),
        r.2.offset <= s@.len(),
    decreases s@.len() - i, 22int,
{
    let mut sts: Vec<Statement> = Vec::new();
    let mut pos = i;
    proof {
        assert(crate::ast::stmts_view(sts@) =~= Seq::<StatementV>::empty());
    }
    loop
        invariant
            i <= pos <= s@.len(),
            p_stmts(s@, Seq::empty(), i as int) == p_stmts(
                s@,
                crate::ast::stmts_view(sts@),
                pos as int,
            ),
        decreases s@.len() - pos,
    {
        let j = skip_ws(s, pos);
        match parse_statement(s, j) {
            Err(pe) => {
                return (sts, pos, pe);
            },
            Ok((st, m)) => {
                proof {
                    lemma_stmts_view_push(sts@, st);
                }
                sts.push(st);
                pos = m;
            },
        }
    }
}

/// Parses a whole source text into a program, or reports the furthest
/// failure. Everything returned is well formed: every span lies within the
/// source, and binary expressions keep their operands in source order.
pub fn program(s: &[u8]) -> (r: Result<crate::ast::IsiProgram, ParseError>)
    ensures
        match r {
            Ok(p) => p_program(s@) == Some(p@) && crate::ast::program_v_wf(p@, s@.len()),
            Err(pe) => p_program(s@) is None && pe.offset <= s@.len(),
        },
{
    let _slen = s.len();
    proof {
        lemma_program_wf(s@);
    }
    let i0 = skip_ws(s, 0);
    if !is_kw_programa(s, i0) {
        return Err(ParseError { offset: i0, expected: "'programa'" });
    }
    let j = skip_ws(s, i0 + 8);
    let (sts, p, serr) = parse_stmts(s, j);
    let q = skip_ws(s, p);
    if !is_kw_fimprog(s, q) {
        return Err(max_err(serr, ParseError { offset: q, expected: "'fimprog.'" }));
    }
    let rest = skip_ws(s, q + 8);
    if rest != s.len() {
        return Err(ParseError { offset: rest, expected: "end of input" });
    }
    Ok(crate::ast::IsiProgram { statements: sts })
}

// ---------------------------------------------------------------------------
// Well-formedness of everything the grammar produces: every span lies within
// the source, and a binary expression's left operand starts no later than its
// right operand.
// ---------------------------------------------------------------------------

broadcast group group_scan_bounds {
    lemma_ws_end_bounds,
    lemma_digits_end_bounds,
    lemma_alnum_end_bounds,
    lemma_strchars_end_bounds,
}

proof fn lemma_ident_tok_wf(s: Seq<u8>, i: int)
    requires
        s.len() <= usize::MAX,
        0 <= i <= s.len(),
    ensures
        p_ident(s, i) matches Some((id, j)) ==> {
            &&& crate::ast::ident_v_wf(id, s.len())
            &&& id.span.start == i
            &&& id.span.end == j
            &&& i < j <= s.len()
        },
{
    if 0 <= i < s.len() && is_alpha(s[i]) {
        lemma_alnum_end_bounds(s, i + 1);
    }
}

proof fn lemma_args_span_lb(base: Span, args: Seq<ExprV>, lo: int)
    requires
        lo <= base.start,
        forall|t: int| 0 <= t < args.len() ==> lo <= expr_v_span(#[trigger] args[t]).start,
    ensures
        lo <= crate::ast::args_span(base, args).start,
    decreases args,
{
    if args.len() > 0 {
        lemma_args_span_lb(base, args.drop_last(), lo);
    }
}

proof fn lemma_args_span_ub(base: Span, args: Seq<ExprV>, hi: int)
    requires
        base.end <= hi,
        forall|t: int| 0 <= t < args.len() ==> expr_v_span(#[trigger] args[t]).end <= hi,
    ensures
        crate::ast::args_span(base, args).end <= hi,
    decreases args,
{
    if args.len() > 0 {
        lemma_args_span_ub(base, args.drop_last(), hi);
    }
}

proof fn lemma_atom_wf(s: Seq<u8>, i: int)
    requires
        s.len() <= usize::MAX,
        0 <= i <= s.len(),
    ensures
        p_atom(s, i) matches Some((e, j)) ==> {
            &&& expr_v_wf(e, s.len())
            &&& i <= expr_v_span(e).start
            &&& expr_v_span(e).end <= j
            &&& i < j <= s.len()
        },
    decreases s.len() - i, 1int,
{
    broadcast use group_scan_bounds;

    if p_numf(s, i) is Some {
    } else if p_num(s, i) is Some {
    } else if p_text(s, i) is Some {
    } else if p_ident(s, i) is Some {
        lemma_ident_tok_wf(s, i);
        let (id, j) = p_ident(s, i)->Some_0;
        let k = ws_end(s, j);
        if k < s.len() && s[k] == 40 {
            let a0 = ws_end(s, k + 1);
            if i < a0 <= s.len() {
                lemma_args_wf(s, a0);
                let (args, m) = p_args(s, a0);
                let c = ws_end(s, m);
                if c < s.len() && s[c] == 41 {
                    let cv = FnCallV { fname: id, args };
                    let e = ExprV::FnCall(cv);
                    assert(crate::ast::fn_call_v_wf(cv, s.len() as nat));
                    assert(expr_v_wf(e, s.len()));
                    lemma_args_span_lb(id.span, args, i);
                    lemma_args_span_ub(id.span, args, c + 1);
                    assert(crate::ast::fn_call_v_span(cv) == crate::ast::args_span(
                        id.span,
                        args,
                    ));
                    assert(expr_v_span(e) == crate::ast::fn_call_v_span(cv));
                }
            }
        }
    } else if one_at(s, i, 33) {
        let j = ws_end(s, i + 1);
        if i < j <= s.len() {
            lemma_bin_wf(s, j, 1);
        }
    } else if one_at(s, i, 40) {
        let j = ws_end(s, i + 1);
        if i < j <= s.len() {
            lemma_bin_wf(s, j, 1);
        }
    }
}

proof fn lemma_bin_wf(s: Seq<u8>, i: int, lvl: int)
    requires
        s.len() <= usize::MAX,
        0 <= i <= s.len(),
    ensures
        p_bin(s, i, lvl) matches Some((e, j)) ==> {
            &&& expr_v_wf(e, s.len())
            &&& i <= expr_v_span(e).start
            &&& expr_v_span(e).end <= j
            &&& i < j <= s.len()
        },
    decreases s.len() - i, 14 - 2 * lvl,
{
    if lvl == 6 {
        lemma_atom_wf(s, i);
    } else if lvl < 1 || lvl > 6 {
    } else {
        match p_bin(s, i, lvl + 1) {
            None => {},
            Some((lhs, j)) => {
                lemma_bin_wf(s, i, lvl + 1);
                if i <= j <= s.len() {
                    lemma_bin_rest_wf(s, lhs, j, lvl);
                }
            },
        }
    }
}

proof fn lemma_bin_rest_wf(s: Seq<u8>, lhs: ExprV, i: int, lvl: int)
    requires
        s.len() <= usize::MAX,
        0 <= i <= s.len(),
        expr_v_wf(lhs, s.len()),
        expr_v_span(lhs).end <= i,
    ensures
        ({
            let (r, p) = p_bin_rest(s, lhs, i, lvl);
            &&& expr_v_wf(r, s.len())
            &&& expr_v_span(r).start == expr_v_span(lhs).start
            &&& expr_v_span(r).end <= p
            &&& i <= p <= s.len()
            &&& expr_v_span(r).end <= i || expr_v_span(r).end <= p
        }),
    decreases s.len() - i, 13 - 2 * lvl,
{
    broadcast use group_scan_bounds;

    if 1 <= lvl <= 5 && 0 <= i <= s.len() {
        let j = ws_end(s, i);
        match op_at(s, j, lvl) {
            None => {},
            Some((op, oplen)) => {
                let k = ws_end(s, j + oplen);
                if i < k <= s.len() {
                    match p_bin(s, k, lvl + 1) {
                        None => {},
                        Some((rhs, m)) => {
                            lemma_bin_wf(s, k, lvl + 1);
                            if i < m <= s.len() {
                                let folded = ExprV::BinExpr(op, Box::new(lhs), Box::new(rhs));
                                crate::ast::lemma_expr_span_in_bounds(lhs, s.len() as nat);
                                crate::ast::lemma_expr_span_in_bounds(rhs, s.len() as nat);
                                assert(expr_v_span(lhs).start <= expr_v_span(lhs).end);
                                assert(k <= expr_v_span(rhs).start);
                                assert(expr_v_span(lhs).start <= expr_v_span(rhs).start);
                                assert(expr_v_wf(folded, s.len()));
                                assert(expr_v_span(folded).start == expr_v_span(lhs).start);
                                assert(expr_v_span(folded).end <= m);
                                lemma_bin_rest_wf(s, folded, m, lvl);
                            }
                        },
                    }
                }
            },
        }
    }
}

proof fn lemma_args_wf(s: Seq<u8>, i: int)
    requires
        s.len() <= usize::MAX,
        0 <= i <= s.len(),
    ensures
        ({
            let (args, m) = p_args(s, i);
            &&& crate::ast::exprs_v_wf(args, s.len())
            &&& i <= m <= s.len()
            &&& forall|t: int|
                0 <= t < args.len() ==> i <= expr_v_span(#[trigger] args[t]).start && expr_v_span(
                    args[t],
                ).end <= m
        }),
    decreases s.len() - i, 14int,
{
    match p_bin(s, i, 1) {
        None => {
            assert(crate::ast::exprs_v_wf(Seq::empty(), s.len()));
        },
        Some((e, j)) => {
            lemma_bin_wf(s, i, 1);
            if i < j <= s.len() {
                assert(seq![e].drop_last() =~= Seq::<ExprV>::empty());
                assert(seq![e].last() == e);
                assert(crate::ast::exprs_v_wf(Seq::<ExprV>::empty(), s.len()));
                assert(crate::ast::exprs_v_wf(seq![e], s.len()));
                lemma_args_rest_wf(s, seq![e], j, i);
            }
        },
    }
}

proof fn lemma_args_rest_wf(s: Seq<u8>, acc: Seq<ExprV>, i: int, lo: int)
    requires
        s.len() <= usize::MAX,
        0 <= i <= s.len(),
        lo <= i,
        crate::ast::exprs_v_wf(acc, s.len()),
        forall|t: int|
            0 <= t < acc.len() ==> lo <= expr_v_span(#[trigger] acc[t]).start && expr_v_span(
                acc[t],
            ).end <= i,
    ensures
        ({
            let (args, m) = p_args_rest(s, acc, i);
            &&& crate::ast::exprs_v_wf(args, s.len())
            &&& i <= m <= s.len()
            &&& forall|t: int|
                0 <= t < args.len() ==> lo <= expr_v_span(#[trigger] args[t]).start && expr_v_span(
                    args[t],
                ).end <= m
        }),
    decreases s.len() - i, 13int,
{
    broadcast use group_scan_bounds;

    if 0 <= i < s.len() && s[i] == 44 {
        let j = ws_end(s, i + 1);
        if i < j <= s.len() {
            match p_bin(s, j, 1) {
                None => {},
                Some((e, m)) => {
                    lemma_bin_wf(s, j, 1);
                    if i < m <= s.len() {
                        assert(acc.push(e).drop_last() =~= acc);
                        assert(crate::ast::exprs_v_wf(acc.push(e), s.len()));
                        lemma_args_rest_wf(s, acc.push(e), m, lo);
                    }
                },
            }
        }
    }
}

proof fn lemma_decl_wf(s: Seq<u8>, i: int)
    requires
        s.len() <= usize::MAX,
        0 <= i <= s.len(),
    ensures
        p_decl(s, i) matches Some((d, e)) ==> crate::ast::var_decl_v_wf(d, s.len()) && i < e
            <= s.len(),
{
    broadcast use group_scan_bounds;

    match p_ident(s, i) {
        None => {},
        Some((vn, j)) => {
            lemma_ident_tok_wf(s, i);
            let k = ws_end(s, j);
            if k < s.len() && s[k] == 58 {
                let m = ws_end(s, k + 1);
                lemma_ident_tok_wf(s, m);
            }
        },
    }
}

proof fn lemma_decls_rest_wf(s: Seq<u8>, acc: Seq<VarDeclV>, i: int)
    requires
        s.len() <= usize::MAX,
        0 <= i <= s.len(),
        crate::ast::var_decls_v_wf(acc, s.len()),
    ensures
        ({
            let (ds, p) = p_decls_rest(s, acc, i);
            crate::ast::var_decls_v_wf(ds, s.len()) && i <= p <= s.len()
        }),
    decreases s.len() - i,
{
    broadcast use group_scan_bounds;

    if 0 <= i < s.len() && s[i] == 44 {
        let j = ws_end(s, i + 1);
        if i < j <= s.len() {
            match p_decl(s, j) {
                None => {},
                Some((d, m)) => {
                    lemma_decl_wf(s, j);
                    if i < m <= s.len() {
                        assert(forall|t: int|
                            0 <= t < acc.push(d).len() ==> crate::ast::var_decl_v_wf(
                                #[trigger] acc.push(d)[t],
                                s.len(),
                            ));
                        lemma_decls_rest_wf(s, acc.push(d), m);
                    }
                },
            }
        }
    }
}

proof fn lemma_multidecl_wf(s: Seq<u8>, i: int)
    requires
        s.len() <= usize::MAX,
        0 <= i <= s.len(),
    ensures
        p_multidecl(s, i) matches Some((ds, e)) ==> crate::ast::var_decls_v_wf(ds, s.len()) && i
            < e <= s.len(),
{
    broadcast use group_scan_bounds;

    if match_at(s, i, kw_declare()) {
        let j = ws_end(s, i + 7);
        if i < j <= s.len() {
            match p_decl(s, j) {
                None => {},
                Some((d0, m)) => {
                    lemma_decl_wf(s, j);
                    assert(crate::ast::var_decls_v_wf(seq![d0], s.len()));
                    lemma_decls_rest_wf(s, seq![d0], m);
                },
            }
        }
    }
}

proof fn lemma_fncall_stmt_wf(s: Seq<u8>, i: int)
    requires
        s.len() <= usize::MAX,
        0 <= i <= s.len(),
    ensures
        p_fncall_stmt(s, i) matches Some((c, e)) ==> crate::ast::fn_call_v_wf(c, s.len()) && i < e
            <= s.len(),
    decreases s.len() - i, 20int,
{
    broadcast use group_scan_bounds;

    match p_ident(s, i) {
        None => {},
        Some((id, j)) => {
            lemma_ident_tok_wf(s, i);
            let k = ws_end(s, j);
            if k < s.len() && s[k] == 40 {
                let a0 = ws_end(s, k + 1);
                if i <= a0 <= s.len() {
                    lemma_args_wf(s, a0);
                }
            }
        },
    }
}

proof fn lemma_assignment_wf(s: Seq<u8>, i: int)
    requires
        s.len() <= usize::MAX,
        0 <= i <= s.len(),
    ensures
        p_assignment(s, i) matches Some((a, e)) ==> crate::ast::ident_v_wf(a.ident, s.len())
            && expr_v_wf(a.val, s.len()) && i < e <= s.len(),
    decreases s.len() - i, 20int,
{
    broadcast use group_scan_bounds;

    match p_ident(s, i) {
        None => {},
        Some((id, j)) => {
            lemma_ident_tok_wf(s, i);
            let k = ws_end(s, j);
            if k + 2 <= s.len() && s[k] == 58 && s[k + 1] == 61 {
                let m = ws_end(s, k + 2);
                if i <= m <= s.len() {
                    lemma_bin_wf(s, m, 1);
                }
            }
        },
    }
}

proof fn lemma_block_wf(s: Seq<u8>, i: int)
    requires
        s.len() <= usize::MAX,
        0 <= i <= s.len(),
    ensures
        p_block(s, i) matches Some((sts, e)) ==> crate::ast::stmts_v_wf(sts, s.len()) && i < e
            <= s.len(),
    decreases s.len() - i, 23int,
{
    broadcast use group_scan_bounds;

    if one_at(s, i, 123) {
        let j = ws_end(s, i + 1);
        if i < j <= s.len() {
            assert(crate::ast::stmts_v_wf(Seq::empty(), s.len()));
            lemma_stmts_wf(s, Seq::empty(), j);
        }
    }
}

proof fn lemma_conditional_wf(s: Seq<u8>, i: int)
    requires
        s.len() <= usize::MAX,
        0 <= i <= s.len(),
    ensures
        p_conditional(s, i) matches Some((c, e)) ==> crate::ast::stmt_v_wf(
            StatementV::Conditional(c),
            s.len(),
        ) && i < e <= s.len(),
    decreases s.len() - i, 20int,
{
    broadcast use group_scan_bounds;

    if match_at(s, i, kw_se()) {
        let j = ws_end(s, i + 2);
        if j < s.len() && s[j] == 40 {
            let m = ws_end(s, j + 1);
            if i <= m <= s.len() {
                match p_expr(s, m) {
                    None => {},
                    Some((c, e)) => {
                        lemma_bin_wf(s, m, 1);
                        let d = ws_end(s, e);
                        if d < s.len() && s[d] == 41 {
                            let f = ws_end(s, d + 1);
                            if match_at(s, f, kw_entao()) {
                                let g = ws_end(s, f + 5);
                                if i < g <= s.len() {
                                    lemma_block_wf(s, g);
                                    match p_block(s, g) {
                                        None => {},
                                        Some((taken, p)) => {
                                            let q = ws_end(s, p);
                                            if match_at(s, q, kw_senao()) {
                                                let h = ws_end(s, q + 5);
                                                if i < h <= s.len() {
                                                    lemma_block_wf(s, h);
                                                }
                                            }
                                            assert(crate::ast::stmts_v_wf(
                                                Seq::empty(),
                                                s.len(),
                                            ));
                                        },
                                    }
                                }
                            }
                        }
                    },
                }
            }
        }
    }
}

proof fn lemma_while_wf(s: Seq<u8>, i: int)
    requires
        s.len() <= usize::MAX,
        0 <= i <= s.len(),
    ensures
        p_while(s, i) matches Some((l, e)) ==> expr_v_wf(l.cond, s.len())
            && crate::ast::stmts_v_wf(l.body, s.len()) && i < e <= s.len(),
    decreases s.len() - i, 20int,
{
    broadcast use group_scan_bounds;

    if match_at(s, i, kw_enquanto()) {
        let j = ws_end(s, i + 8);
        if j < s.len() && s[j] == 40 {
            let m = ws_end(s, j + 1);
            if i <= m <= s.len() {
                match p_expr(s, m) {
                    None => {},
                    Some((c, e)) => {
                        lemma_bin_wf(s, m, 1);
                        let d = ws_end(s, e);
                        if d < s.len() && s[d] == 41 {
                            let f = ws_end(s, d + 1);
                            if i < f <= s.len() {
                                lemma_block_wf(s, f);
                            }
                        }
                    },
                }
            }
        }
    }
}

proof fn lemma_dowhile_wf(s: Seq<u8>, i: int)
    requires
        s.len() <= usize::MAX,
        0 <= i <= s.len(),
    ensures
        p_dowhile(s, i) matches Some((l, e)) ==> expr_v_wf(l.cond, s.len())
            && crate::ast::stmts_v_wf(l.body, s.len()) && i < e <= s.len(),
    decreases s.len() - i, 20int,
{
    broadcast use group_scan_bounds;

    if match_at(s, i, kw_faca()) {
        let j = ws_end(s, i + 4);
        if i < j <= s.len() {
            lemma_block_wf(s, j);
            match p_block(s, j) {
                None => {},
                Some((body, p)) => {
                    let q = ws_end(s, p);
                    if match_at(s, q, kw_enquanto()) {
                        let f = ws_end(s, q + 8);
                        if f < s.len() && s[f] == 40 {
                            let m = ws_end(s, f + 1);
                            if i <= m <= s.len() {
                                lemma_bin_wf(s, m, 1);
                            }
                        }
                    }
                },
            }
        }
    }
}

proof fn lemma_stmt_wf(s: Seq<u8>, i: int)
    requires
        s.len() <= usize::MAX,
        0 <= i <= s.len(),
    ensures
        p_stmt(s, i) matches Some((st, e)) ==> crate::ast::stmt_v_wf(st, s.len()) && i < e
            <= s.len(),
    decreases s.len() - i, 21int,
{
    lemma_multidecl_wf(s, i);
    lemma_fncall_stmt_wf(s, i);
    lemma_assignment_wf(s, i);
    lemma_conditional_wf(s, i);
    lemma_while_wf(s, i);
    lemma_dowhile_wf(s, i);
}

proof fn lemma_stmts_wf(s: Seq<u8>, acc: Seq<StatementV>, i: int)
    requires
        s.len() <= usize::MAX,
        0 <= i <= s.len(),
        crate::ast::stmts_v_wf(acc, s.len()),
    ensures
        ({
            let (sts, p) = p_stmts(s, acc, i);
            crate::ast::stmts_v_wf(sts, s.len()) && i <= p <= s.len()
        }),
    decreases s.len() - i, 22int,
{
    broadcast use group_scan_bounds;

    let j = ws_end(s, i);
    if i <= j <= s.len() {
        match p_stmt(s, j) {
            None => {},
            Some((st, m)) => {
                lemma_stmt_wf(s, j);
                if i < m <= s.len() {
                    assert(acc.push(st).drop_last() =~= acc);
                    assert(crate::ast::stmts_v_wf(acc.push(st), s.len()));
                    lemma_stmts_wf(s, acc.push(st), m);
                }
            },
        }
    }
}

/// Everything the parser produces is well formed: every node's span lies
/// within `[0, len(source))`, and in every binary expression the left
/// operand's span starts no later than the right operand's.
pub proof fn lemma_program_wf(s: Seq<u8>)
    requires
        s.len() <= usize::MAX,
    ensures
        p_program(s) matches Some(p) ==> crate::ast::program_v_wf(p, s.len()),
{
    broadcast use group_scan_bounds;

    let i0 = ws_end(s, 0);
    if match_at(s, i0, kw_programa()) {
        let j = ws_end(s, i0 + 8);
        assert(crate::ast::stmts_v_wf(Seq::empty(), s.len()));
        lemma_stmts_wf(s, Seq::empty(), j);
    }
}

} // verus!
