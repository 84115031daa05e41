//! The grammar as a mathematical model: how the parser's state moves over
//! the tokens that the scanner reads, and what each rule of the grammar
//! gives, spans aside.

use vstd::prelude::*;
use crate::lexer::scan::{lemma_scan_progress, scan_token, skip_blanks, ScanState};
use crate::lexer::{Keyword, LexErrorKind, Span, Symbol, TokenView};
use super::ast::{same_expr, same_names, same_type, MapLiteral, Ast, BinaryOp, BlockStatement, Expression, Expression_, Op, SpannedString, Statement, Type, UnaryOp};
use super::{binop_of, precedence};

verus! {

/// A span: file name, rows and columns.
pub struct SpanM {
    pub file: Seq<char>,
    pub srow: int,
    pub scol: int,
    pub erow: int,
    pub ecol: int,
}

/// The span from the start of `a` to the end of `b`, in `a`'s file.
pub open spec fn join_m(a: SpanM, b: SpanM) -> SpanM {
    SpanM { file: a.file, srow: a.srow, scol: a.scol, erow: b.erow, ecol: b.ecol }
}

pub open spec fn span_m(sp: Span) -> SpanM {
    SpanM {
        file: sp.file@,
        srow: sp.srow as int,
        scol: sp.scol as int,
        erow: sp.erow as int,
        ecol: sp.ecol as int,
    }
}

/// The parser's position: the file's name, where the scanner stands, the
/// lookahead token and its span, the span of the last token taken that is
/// not a line break, and whether a line break was just taken.
pub struct PState {
    pub file: Seq<char>,
    pub st: ScanState,
    pub cur: TokenView,
    pub cur_sp: SpanM,
    pub last: SpanM,
    pub nl: bool,
}

/// A parse error: the scanner's, a token that starts no rule, or a token
/// other than the one required.
pub enum PErr {
    Lex(LexErrorKind, SpanM),
    Unexpected(TokenView, SpanM),
    Expected(TokenView, TokenView, SpanM),
}

/// The scanner stands within the text.
pub open spec fn valid(s: Seq<char>, ps: PState) -> bool {
    0 <= ps.st.pos <= s.len()
}

/// A bound on the tokens still to come.
pub open spec fn fuel(s: Seq<char>, ps: PState) -> int {
    s.len() - ps.st.pos + if ps.cur is EOF { 0int } else { 1int }
}

/// Reads the next token into the lookahead.
pub open spec fn advance(s: Seq<char>, ps: PState) -> Result<PState, PErr> {
    let st0 = skip_blanks(s, ps.st);
    let sc = scan_token(s, st0);
    let sp = SpanM { file: ps.file, srow: st0.row, scol: st0.col, erow: sc.end.row, ecol: sc.end.col };
    match sc.result {
        Ok(t) => Ok(PState { file: ps.file, st: sc.end, cur: t, cur_sp: sp, last: ps.cur_sp, nl: ps.nl }),
        Err(k) => Err(PErr::Lex(k, sp)),
    }
}

pub proof fn lemma_advance(s: Seq<char>, ps: PState)
    requires
        valid(s, ps),
    ensures
        advance(s, ps) matches Ok(p) ==> valid(s, p) && fuel(s, p) <= fuel(s, ps) && (!(ps.cur is EOF)
            ==> fuel(s, p) < fuel(s, ps)),
{
    lemma_scan_progress(s, ps.st);
}

/// Takes the line breaks at the lookahead; the last token taken stays what
/// it was before them.
pub open spec fn skip_nl(s: Seq<char>, ps: PState) -> Result<PState, PErr>
    decreases fuel(s, ps),
    when valid(s, ps)
{
    if ps.cur == TokenView::Symbol(Symbol::NewLine) {
        proof {
            lemma_advance(s, ps);
        }
        match advance(s, ps) {
            Ok(p) => skip_nl(s, PState { nl: true, last: ps.last, ..p }),
            Err(e) => Err(e),
        }
    } else {
        Ok(ps)
    }
}

pub proof fn lemma_skip_nl(s: Seq<char>, ps: PState)
    requires
        valid(s, ps),
    ensures
        skip_nl(s, ps) matches Ok(p) ==> valid(s, p) && fuel(s, p) <= fuel(s, ps) && p.cur
            != TokenView::Symbol(Symbol::NewLine),
    decreases fuel(s, ps),
{
    if ps.cur == TokenView::Symbol(Symbol::NewLine) {
        lemma_advance(s, ps);
        if let Ok(p) = advance(s, ps) {
            lemma_skip_nl(s, PState { nl: true, last: ps.last, ..p });
        }
    }
}

/// Takes the lookahead, then the line breaks after it.
pub open spec fn take(s: Seq<char>, ps: PState) -> Result<PState, PErr> {
    match advance(s, ps) {
        Ok(p) => skip_nl(s, PState { nl: false, ..p }),
        Err(e) => Err(e),
    }
}

pub proof fn lemma_take(s: Seq<char>, ps: PState)
    requires
        valid(s, ps),
    ensures
        take(s, ps) matches Ok(p) ==> valid(s, p) && fuel(s, p) <= fuel(s, ps) && (!(ps.cur is EOF)
            ==> fuel(s, p) < fuel(s, ps)) && p.cur != TokenView::Symbol(Symbol::NewLine),
{
    lemma_advance(s, ps);
    if let Ok(p) = advance(s, ps) {
        lemma_skip_nl(s, PState { nl: false, ..p });
    }
}

/// Takes the lookahead if it is `t`: the state after, or `None` with nothing taken.
pub open spec fn accept(s: Seq<char>, ps: PState, t: TokenView) -> Result<Option<PState>, PErr> {
    if ps.cur == t {
        match take(s, ps) {
            Ok(p) => Ok(Some(p)),
            Err(e) => Err(e),
        }
    } else {
        Ok(None)
    }
}

/// The two tokens are of the same kind, payloads aside.
pub open spec fn same_kind(a: TokenView, b: TokenView) -> bool {
    match (a, b) {
        (TokenView::EOF, TokenView::EOF) => true,
        (TokenView::Identifier(_), TokenView::Identifier(_)) => true,
        (TokenView::Keyword(_), TokenView::Keyword(_)) => true,
        (TokenView::StringLiteral(_), TokenView::StringLiteral(_)) => true,
        (TokenView::CharLiteral(_), TokenView::CharLiteral(_)) => true,
        (TokenView::IntegerLiteral(_), TokenView::IntegerLiteral(_)) => true,
        (TokenView::FloatLiteral(_), TokenView::FloatLiteral(_)) => true,
        (TokenView::BoolLiteral(_), TokenView::BoolLiteral(_)) => true,
        (TokenView::Symbol(_), TokenView::Symbol(_)) => true,
        _ => false,
    }
}

/// Takes the lookahead if it is of the kind of `t`.
pub open spec fn accept_kind(s: Seq<char>, ps: PState, t: TokenView) -> Result<Option<PState>, PErr> {
    if same_kind(ps.cur, t) {
        match take(s, ps) {
            Ok(p) => Ok(Some(p)),
            Err(e) => Err(e),
        }
    } else {
        Ok(None)
    }
}

/// Takes the lookahead, which must be `t`.
pub open spec fn expect(s: Seq<char>, ps: PState, t: TokenView) -> Result<PState, PErr> {
    if ps.cur == t {
        take(s, ps)
    } else {
        Err(PErr::Expected(t, ps.cur, ps.cur_sp))
    }
}

/// Takes the lookahead, which must be of the kind of `t`.
pub open spec fn expect_kind(s: Seq<char>, ps: PState, t: TokenView) -> Result<PState, PErr> {
    if same_kind(ps.cur, t) {
        take(s, ps)
    } else {
        Err(PErr::Expected(t, ps.cur, ps.cur_sp))
    }
}


pub proof fn lemma_accept(s: Seq<char>, ps: PState, t: TokenView)
    requires
        valid(s, ps),
        !(t is EOF),
    ensures
        accept(s, ps, t) matches Ok(Some(p)) ==> valid(s, p) && fuel(s, p) < fuel(s, ps),
        accept_kind(s, ps, t) matches Ok(Some(p)) ==> valid(s, p) && fuel(s, p) < fuel(s, ps),
        expect(s, ps, t) matches Ok(p) ==> valid(s, p) && fuel(s, p) < fuel(s, ps),
        expect_kind(s, ps, t) matches Ok(p) ==> valid(s, p) && fuel(s, p) < fuel(s, ps),
{
    lemma_take(s, ps);
}

/// `q` is a state of the text that holds fewer tokens to come than `ps`.
/// Every rule that succeeds takes a token, so this holds wherever the
/// grammar asks it; it makes the recursion's termination evident.
pub open spec fn progressed(s: Seq<char>, q: PState, ps: PState) -> bool {
    valid(s, q) && fuel(s, q) < fuel(s, ps)
}

/// Like `progressed`, but the state may be the same.
pub open spec fn kept(s: Seq<char>, q: PState, ps: PState) -> bool {
    valid(s, q) && fuel(s, q) <= fuel(s, ps)
}

/// The name an identifier token spells.
pub open spec fn ident_name(t: TokenView) -> Seq<char> {
    match t {
        TokenView::Identifier(n) => n,
        _ => Seq::empty(),
    }
}

pub open spec fn any_ident() -> TokenView {
    TokenView::Identifier(Seq::empty())
}

/// The names of a path, spans aside.
pub open spec fn names_are(parts: Seq<SpannedString>, n: Seq<Seq<char>>) -> bool {
    parts.len() == n.len() && forall|i: int| 0 <= i < n.len() ==> #[trigger] parts[i].ident@ == n[i]
}

/// The `:: name` continuations of a path whose names so far are `names`.
pub open spec fn g_path_tail(s: Seq<char>, ps: PState, names: Seq<Seq<char>>) -> Result<
    (Seq<Seq<char>>, PState),
    PErr,
>
    decreases fuel(s, ps),
    when valid(s, ps)
{
    proof {
        lemma_accept(s, ps, TokenView::Symbol(Symbol::ColonColon));
    }
    match accept(s, ps, TokenView::Symbol(Symbol::ColonColon)) {
        Err(e) => Err(e),
        Ok(None) => Ok((names, ps)),
        Ok(Some(p1)) => {
            proof {
                lemma_accept(s, p1, any_ident());
            }
            match expect_kind(s, p1, any_ident()) {
                Err(e) => Err(e),
                Ok(p2) => g_path_tail(s, p2, names.push(ident_name(p1.cur))),
            }
        },
    }
}

/// A path: a name, then any `:: name` continuations.
pub open spec fn g_path(s: Seq<char>, ps: PState) -> Result<(Seq<Seq<char>>, PState), PErr> {
    match expect_kind(s, ps, any_ident()) {
        Err(e) => Err(e),
        Ok(p) => g_path_tail(s, p, seq![ident_name(ps.cur)]),
    }
}

/// A type, spans aside.
pub enum TypeM {
    NoValue,
    Reference(Box<TypeM>),
    MutReference(Box<TypeM>),
    Array(Box<TypeM>),
    Mapping(Box<TypeM>, Box<TypeM>),
    Struct(Seq<Seq<char>>),
    String,
    Int,
    Bool,
    Char,
}

/// The type a path names: one of the four scalar names alone, or a named type.
pub open spec fn type_of_path(n: Seq<Seq<char>>) -> TypeM {
    if n.len() == 1 && n[0] == "int"@ {
        TypeM::Int
    } else if n.len() == 1 && n[0] == "bool"@ {
        TypeM::Bool
    } else if n.len() == 1 && n[0] == "char"@ {
        TypeM::Char
    } else if n.len() == 1 && n[0] == "string"@ {
        TypeM::String
    } else {
        TypeM::Struct(n)
    }
}

/// `t` is the type `m`, spans aside.
pub open spec fn type_is(t: Type, m: TypeM) -> bool
    decreases t,
{
    match t {
        Type::NoValue => m is NoValue,
        Type::Reference(x) => m matches TypeM::Reference(y) && type_is(*x, *y),
        Type::MutReference(x) => m matches TypeM::MutReference(y) && type_is(*x, *y),
        Type::Array(x) => m matches TypeM::Array(y) && type_is(*x, *y),
        Type::Mapping(k, v) => m matches TypeM::Mapping(k2, v2) && type_is(*k, *k2) && type_is(*v, *v2),
        Type::Struct(p) => m matches TypeM::Struct(n) && names_are(p.parts@, n),
        Type::Func(_, _) => false,
        Type::String => m is String,
        Type::Int => m is Int,
        Type::Bool => m is Bool,
        Type::Char => m is Char,
    }
}

/// A type: `&T`, `@T`, `[]T`, `[K]V`, or a path.
pub open spec fn g_type(s: Seq<char>, ps: PState) -> Result<(TypeM, PState), PErr>
    decreases fuel(s, ps), 0int,
    when valid(s, ps)
{
    proof {
        lemma_accept(s, ps, TokenView::Symbol(Symbol::Amp));
        lemma_accept(s, ps, TokenView::Symbol(Symbol::At));
        lemma_accept(s, ps, TokenView::Symbol(Symbol::LeftBracket));
    }
    match accept(s, ps, TokenView::Symbol(Symbol::Amp)) {
        Err(e) => Err(e),
        Ok(Some(p)) => match g_type(s, p) {
            Ok((t, q)) => Ok((TypeM::Reference(Box::new(t)), q)),
            Err(e) => Err(e),
        },
        Ok(None) => match accept(s, ps, TokenView::Symbol(Symbol::At)) {
            Err(e) => Err(e),
            Ok(Some(p)) => match g_type(s, p) {
                Ok((t, q)) => Ok((TypeM::MutReference(Box::new(t)), q)),
                Err(e) => Err(e),
            },
            Ok(None) => match accept(s, ps, TokenView::Symbol(Symbol::LeftBracket)) {
                Err(e) => Err(e),
                Ok(Some(p)) => g_type_bracketed(s, p),
                Ok(None) => match g_path(s, ps) {
                    Ok((n, q)) => Ok((type_of_path(n), q)),
                    Err(e) => Err(e),
                },
            },
        },
    }
}

/// `]T` or `K]V`, after the `[` of an array or map type.
pub open spec fn g_type_bracketed(s: Seq<char>, ps: PState) -> Result<(TypeM, PState), PErr>
    decreases fuel(s, ps), 1int,
    when valid(s, ps)
{
    proof {
        lemma_accept(s, ps, TokenView::Symbol(Symbol::RightBracket));
    }
    match accept(s, ps, TokenView::Symbol(Symbol::RightBracket)) {
        Err(e) => Err(e),
        Ok(Some(p2)) => match g_type(s, p2) {
            Ok((t, q)) => Ok((TypeM::Array(Box::new(t)), q)),
            Err(e) => Err(e),
        },
        Ok(None) => match g_type(s, ps) {
            Err(e) => Err(e),
            Ok((k, q)) => match expect(s, q, TokenView::Symbol(Symbol::RightBracket)) {
                Err(e) => Err(e),
                Ok(q2) => if progressed(s, q2, ps) {
                    match g_type(s, q2) {
                        Ok((v, q3)) => Ok((TypeM::Mapping(Box::new(k), Box::new(v)), q3)),
                        Err(e) => Err(e),
                    }
                } else {
                    Err(PErr::Unexpected(ps.cur, ps.cur_sp))
                },
            },
        },
    }
}

/// An expression with its span. A map literal holds its entries after
/// duplicate keys were merged, last write winning.
pub enum ExprM {
    Str(Seq<char>, SpanM),
    Int(i64, SpanM),
    Bool(bool, SpanM),
    Char(char, SpanM),
    Var(Seq<Seq<char>>, SpanM),
    Array(Seq<ExprM>, SpanM),
    MapLit(Seq<(ExprM, ExprM)>, SpanM),
    Call(Box<ExprM>, Seq<ExprM>, SpanM),
    Field(Box<ExprM>, Seq<char>, SpanM),
    Index(Box<ExprM>, Option<Box<ExprM>>, SpanM),
    Unary(UnaryOp, Box<ExprM>, SpanM),
    Binary(BinaryOp, Box<ExprM>, Box<ExprM>, SpanM),
}

/// The span of an expression: from its first token to its last, except
/// that a field access ends at the field name, a literal is its token, and
/// parentheses are not part of what they enclose.
pub open spec fn span_of(m: ExprM) -> SpanM {
    match m {
        ExprM::Str(_, sp) | ExprM::Int(_, sp) | ExprM::Bool(_, sp) | ExprM::Char(_, sp) | ExprM::Var(_, sp)
        | ExprM::Array(_, sp) | ExprM::MapLit(_, sp) | ExprM::Call(_, _, sp) | ExprM::Field(_, _, sp)
        | ExprM::Index(_, _, sp) | ExprM::Unary(_, _, sp) | ExprM::Binary(_, _, _, sp) => sp,
    }
}

/// `e` is the expression `m`, spans included.
pub open spec fn expr_is(e: Expression, m: ExprM) -> bool
    decreases e,
{
    span_m(e.span) == span_of(m) && match e.expr {
        Expression_::StringLiteral(x) => m matches ExprM::Str(y, _) && y == x@,
        Expression_::IntegerLiteral(x) => m matches ExprM::Int(y, _) && y == x,
        Expression_::BoolLiteral(x) => m matches ExprM::Bool(y, _) && y == x,
        Expression_::CharLiteral(x) => m matches ExprM::Char(y, _) && y == x,
        Expression_::Variable(p) => m matches ExprM::Var(n, _) && names_are(p.parts@, n),
        Expression_::StructInit(_, _) => false,
        Expression_::Array(x) => m matches ExprM::Array(y, _) && x@.len() == y.len() && (forall|i: int|
            0 <= i < x@.len() ==> expr_is(#[trigger] *x@[i], y[i])),
        Expression_::MapLiteral(mp) => m matches ExprM::MapLit(y, _) && mp.entries@.len() == y.len()
            && (forall|i: int|
            #![trigger mp.entries@[i]]
            0 <= i < y.len() ==> expr_is(*mp.entries@[i].0, y[i].0) && expr_is(*mp.entries@[i].1, y[i].1)),
        Expression_::FuncCall(f, x) => m matches ExprM::Call(g, y, _) && expr_is(*f, *g) && x@.len()
            == y.len() && (forall|i: int| 0 <= i < x@.len() ==> expr_is(#[trigger] *x@[i], y[i])),
        Expression_::Field(r, n) => m matches ExprM::Field(r2, n2, _) && expr_is(*r, *r2) && n.ident@ == n2,
        Expression_::Index(r, i) => m matches ExprM::Index(r2, i2, _) && expr_is(*r, *r2) && match (i, i2) {
            (None, None) => true,
            (Some(x), Some(y)) => expr_is(*x, *y),
            _ => false,
        },
        Expression_::UnaryOp(op, x) => m matches ExprM::Unary(op2, y, _) && op == op2 && expr_is(*x, *y),
        Expression_::BinaryOp(op, l, r) => m matches ExprM::Binary(op2, l2, r2, _) && op == op2 && expr_is(
            *l,
            *l2,
        ) && expr_is(*r, *r2),
    }
}

/// The literal that a literal token stands for, spanning the token.
pub open spec fn literal_m(t: TokenView, sp: SpanM) -> ExprM {
    match t {
        TokenView::StringLiteral(x) => ExprM::Str(x, sp),
        TokenView::IntegerLiteral(x) => ExprM::Int(x, sp),
        TokenView::BoolLiteral(x) => ExprM::Bool(x, sp),
        TokenView::CharLiteral(x) => ExprM::Char(x, sp),
        _ => ExprM::Bool(false, sp),
    }
}

pub open spec fn sym(y: Symbol) -> TokenView {
    TokenView::Symbol(y)
}

/// Two expressions have the same structure and content, spans aside.
pub open spec fn same_m(a: ExprM, b: ExprM) -> bool
    decreases a,
{
    match a {
        ExprM::Str(x, _) => b matches ExprM::Str(y, _) && x == y,
        ExprM::Int(x, _) => b matches ExprM::Int(y, _) && x == y,
        ExprM::Bool(x, _) => b matches ExprM::Bool(y, _) && x == y,
        ExprM::Char(x, _) => b matches ExprM::Char(y, _) && x == y,
        ExprM::Var(x, _) => b matches ExprM::Var(y, _) && x == y,
        ExprM::Array(x, _) => b matches ExprM::Array(y, _) && x.len() == y.len() && (forall|i: int|
            0 <= i < x.len() ==> same_m(#[trigger] x[i], y[i])),
        ExprM::MapLit(x, _) => b matches ExprM::MapLit(y, _) && x.len() == y.len() && (forall|i: int|
            #![trigger x[i]]
            0 <= i < x.len() ==> same_m(x[i].0, y[i].0) && same_m(x[i].1, y[i].1)),
        ExprM::Call(f, x, _) => b matches ExprM::Call(g, y, _) && same_m(*f, *g) && x.len() == y.len()
            && (forall|i: int| 0 <= i < x.len() ==> same_m(#[trigger] x[i], y[i])),
        ExprM::Field(r, n, _) => b matches ExprM::Field(r2, n2, _) && same_m(*r, *r2) && n == n2,
        ExprM::Index(r, i, _) => b matches ExprM::Index(r2, i2, _) && same_m(*r, *r2) && match (i, i2) {
            (None, None) => true,
            (Some(x), Some(y)) => same_m(*x, *y),
            _ => false,
        },
        ExprM::Unary(op, x, _) => b matches ExprM::Unary(op2, y, _) && op == op2 && same_m(*x, *y),
        ExprM::Binary(op, l, r, _) => b matches ExprM::Binary(op2, l2, r2, _) && op == op2 && same_m(
            *l,
            *l2,
        ) && same_m(*r, *r2),
    }
}

/// `i` is the first entry of `acc` whose key has the structure of `k`.
pub open spec fn first_same(acc: Seq<(ExprM, ExprM)>, k: ExprM, i: int) -> bool {
    0 <= i < acc.len() && same_m(acc[i].0, k) && forall|j: int| 0 <= j < i ==> !same_m(#[trigger] acc[j].0, k)
}

/// Adds entry `(k, v)`: where a key of the same structure is there already,
/// its value becomes `v`; otherwise the entry goes at the end.
pub open spec fn insert_m(acc: Seq<(ExprM, ExprM)>, k: ExprM, v: ExprM) -> Seq<(ExprM, ExprM)> {
    if exists|i: int| first_same(acc, k, i) {
        let i = choose|i: int| first_same(acc, k, i);
        acc.update(i, (acc[i].0, v))
    } else {
        acc.push((k, v))
    }
}

/// On expressions and their models, structural equality agrees.
pub proof fn lemma_same_expr_m(a: Expression, b: Expression, ma: ExprM, mb: ExprM)
    requires
        expr_is(a, ma),
        expr_is(b, mb),
    ensures
        same_expr(a, b) == same_m(ma, mb),
    decreases a,
{
    match a.expr {
        Expression_::Variable(p) => {
            if let Expression_::Variable(q) = b.expr {
                let n = ma->Var_0;
                let n2 = mb->Var_0;
                if same_names(p.parts@, q.parts@) {
                    assert forall|i: int| 0 <= i < n.len() implies n[i] == n2[i] by {
                        assert(p.parts@[i].ident@ == n[i]);
                        assert(q.parts@[i].ident@ == n2[i]);
                        assert(p.parts@[i].ident@ == q.parts@[i].ident@);
                    }
                    assert(n =~= n2);
                }
                if n == n2 {
                    assert forall|i: int| 0 <= i < p.parts@.len() implies p.parts@[i].ident@
                        == q.parts@[i].ident@ by {
                        assert(p.parts@[i].ident@ == n[i]);
                        assert(q.parts@[i].ident@ == n2[i]);
                    }
                }
            }
        },
        Expression_::Array(x) => {
            if let Expression_::Array(y) = b.expr {
                let xm = ma->Array_0;
                let ym = mb->Array_0;
                assert forall|i: int| 0 <= i < x@.len() && i < y@.len() implies same_expr(*x@[i], *y@[i])
                    == same_m(xm[i], ym[i]) by {
                    assert(decreases_to!(a => a.expr));
                    assert(decreases_to!(a.expr => a.expr->Array_0));
                    assert(decreases_to!(x => x@));
                    assert(decreases_to!(x@ => x@[i]));
                    lemma_same_expr_m(*x@[i], *y@[i], xm[i], ym[i]);
                }
            }
        },
        Expression_::MapLiteral(m) => {
            if let Expression_::MapLiteral(n) = b.expr {
                let xm = ma->MapLit_0;
                let ym = mb->MapLit_0;
                assert forall|i: int| 0 <= i < m.entries@.len() && i < n.entries@.len() implies (same_expr(
                    *m.entries@[i].0,
                    *n.entries@[i].0,
                ) == same_m(xm[i].0, ym[i].0) && same_expr(*m.entries@[i].1, *n.entries@[i].1) == same_m(
                    xm[i].1,
                    ym[i].1,
                )) by {
                    assert(decreases_to!(a => a.expr));
                    assert(decreases_to!(a.expr => a.expr->MapLiteral_0));
                    assert(decreases_to!(m => m.entries));
                    assert(decreases_to!(m.entries => m.entries@));
                    assert(decreases_to!(m.entries@ => m.entries@[i]));
                    assert(decreases_to!(m.entries@[i] => m.entries@[i].0));
                    assert(decreases_to!(m.entries@[i] => m.entries@[i].1));
                    lemma_same_expr_m(*m.entries@[i].0, *n.entries@[i].0, xm[i].0, ym[i].0);
                    lemma_same_expr_m(*m.entries@[i].1, *n.entries@[i].1, xm[i].1, ym[i].1);
                }
            }
        },
        Expression_::FuncCall(f, x) => {
            if let Expression_::FuncCall(g, y) = b.expr {
                let fm = ma->Call_0;
                let gm = mb->Call_0;
                let xm = ma->Call_1;
                let ym = mb->Call_1;
                lemma_same_expr_m(*f, *g, *fm, *gm);
                assert forall|i: int| 0 <= i < x@.len() && i < y@.len() implies same_expr(*x@[i], *y@[i])
                    == same_m(xm[i], ym[i]) by {
                    assert(decreases_to!(a => a.expr));
                    assert(decreases_to!(a.expr => a.expr->FuncCall_1));
                    assert(decreases_to!(x => x@));
                    assert(decreases_to!(x@ => x@[i]));
                    lemma_same_expr_m(*x@[i], *y@[i], xm[i], ym[i]);
                }
            }
        },
        Expression_::Field(r, _) => {
            if let Expression_::Field(r2, _) = b.expr {
                lemma_same_expr_m(*r, *r2, *ma->Field_0, *mb->Field_0);
            }
        },
        Expression_::Index(r, i) => {
            if let Expression_::Index(r2, i2) = b.expr {
                lemma_same_expr_m(*r, *r2, *ma->Index_0, *mb->Index_0);
                if let (Some(x), Some(y)) = (i, i2) {
                    lemma_same_expr_m(*x, *y, *ma->Index_1->0, *mb->Index_1->0);
                }
            }
        },
        Expression_::UnaryOp(_, x) => {
            if let Expression_::UnaryOp(_, y) = b.expr {
                lemma_same_expr_m(*x, *y, *ma->Unary_1, *mb->Unary_1);
            }
        },
        Expression_::BinaryOp(_, l, r) => {
            if let Expression_::BinaryOp(_, l2, r2) = b.expr {
                lemma_same_expr_m(*l, *l2, *ma->Binary_1, *mb->Binary_1);
                lemma_same_expr_m(*r, *r2, *ma->Binary_2, *mb->Binary_2);
            }
        },
        _ => {},
    }
}

/// The entries of `m` are those of `acc`, place by place.
pub open spec fn entries_are(m: MapLiteral, acc: Seq<(ExprM, ExprM)>) -> bool {
    m.entries@.len() == acc.len() && forall|i: int|
        #![trigger m.entries@[i]]
        0 <= i < acc.len() ==> expr_is(*m.entries@[i].0, acc[i].0) && expr_is(*m.entries@[i].1, acc[i].1)
}

proof fn lemma_first_same(acc: Seq<(ExprM, ExprM)>, k: ExprM, i: int)
    requires
        0 <= i < acc.len(),
        same_m(acc[i].0, k),
    ensures
        exists|j: int| first_same(acc, k, j),
    decreases i,
{
    if exists|j: int| 0 <= j < i && same_m(#[trigger] acc[j].0, k) {
        let j = choose|j: int| 0 <= j < i && same_m(#[trigger] acc[j].0, k);
        lemma_first_same(acc, k, j);
    } else {
        assert(first_same(acc, k, i));
    }
}

/// Adding an entry to a map literal adds its model to the entries' models.
pub proof fn lemma_insert_m(
    before: MapLiteral,
    after: MapLiteral,
    acc: Seq<(ExprM, ExprM)>,
    key: Expression,
    value: Expression,
    km: ExprM,
    vm: ExprM,
)
    requires
        entries_are(before, acc),
        expr_is(key, km),
        expr_is(value, vm),
        (forall|i: int| 0 <= i < before.entries@.len() ==> !same_expr(*#[trigger] before.entries@[i].0, key))
            ==> after.entries@ == before.entries@.push((Box::new(key), Box::new(value))),
        forall|k: int|
            0 <= k < before.entries@.len() && same_expr(*#[trigger] before.entries@[k].0, key)
                && (forall|i: int| 0 <= i < k ==> !same_expr(*#[trigger] before.entries@[i].0, key))
                ==> after.entries@ == before.entries@.update(k, (before.entries@[k].0, Box::new(value))),
    ensures
        entries_are(after, insert_m(acc, km, vm)),
{
    assert forall|i: int| 0 <= i < acc.len() implies same_expr(*before.entries@[i].0, key) == same_m(
        #[trigger] acc[i].0,
        km,
    ) by {
        lemma_same_expr_m(*before.entries@[i].0, key, acc[i].0, km);
    }
    if exists|i: int| first_same(acc, km, i) {
        let k = choose|i: int| first_same(acc, km, i);
        assert(same_expr(*before.entries@[k].0, key));
        assert forall|i: int| 0 <= i < k implies !same_expr(*#[trigger] before.entries@[i].0, key) by {
            assert(!same_m(acc[i].0, km));
        }
        assert(after.entries@ == before.entries@.update(k, (before.entries@[k].0, Box::new(value))));
    } else {
        assert forall|i: int| 0 <= i < before.entries@.len() implies !same_expr(
            *#[trigger] before.entries@[i].0,
            key,
        ) by {
            if same_m(acc[i].0, km) {
                lemma_first_same(acc, km, i);
            }
        }
        assert(after.entries@ == before.entries@.push((Box::new(key), Box::new(value))));
    }
}

/// After an item of a list closed by `close`: a comma, which may be left
/// out before `close` and is required otherwise.
pub open spec fn g_comma(s: Seq<char>, q: PState, close: Symbol) -> Result<PState, PErr> {
    if q.cur == sym(close) {
        match accept(s, q, sym(Symbol::Comma)) {
            Err(e) => Err(e),
            Ok(None) => Ok(q),
            Ok(Some(q2)) => Ok(q2),
        }
    } else {
        expect(s, q, sym(Symbol::Comma))
    }
}

pub proof fn lemma_comma(s: Seq<char>, q: PState, close: Symbol)
    requires
        valid(s, q),
    ensures
        g_comma(s, q, close) matches Ok(p) ==> kept(s, p, q),
{
    lemma_accept(s, q, sym(Symbol::Comma));
}

/// An expression: `g_expr_` from a primary term at the lowest precedence.
pub open spec fn g_expr(s: Seq<char>, ps: PState) -> Result<(ExprM, PState), PErr>
    decreases fuel(s, ps), 4int,
    when valid(s, ps)
{
    g_expr_(s, ps, None, 0)
}

/// Precedence climbing. Without `prev`, a primary term; with it, one
/// binary operator or postfix form folded into it (or `prev` alone where
/// none follows). Then, unless a line break was just taken, binary
/// operators binding tighter than `min` and postfix forms are folded in
/// turn, left to right.
pub open spec fn g_expr_(s: Seq<char>, ps: PState, prev: Option<ExprM>, min: u8) -> Result<
    (ExprM, PState),
    PErr,
>
    decreases fuel(s, ps), 3int,
    when valid(s, ps)
{
    let first = match prev {
        Some(e) => match g_fold(s, ps, e) {
            Err(x) => Err(x),
            Ok((e2, false, q)) => Ok((e2, q, false)),
            Ok((e2, true, q)) => Ok((e2, q, true)),
        },
        None => match g_primary(s, ps) {
            Err(x) => Err(x),
            Ok((e2, q)) => Ok((e2, q, true)),
        },
    };
    match first {
        Err(x) => Err(x),
        Ok((e, q, false)) => Ok((e, q)),
        Ok((e, q, true)) => if q.nl {
            Ok((e, q))
        } else {
            let go_on = match binop_of(q.cur) {
                Some(op) => precedence(Op::Binary(op)) > min,
                None => q.cur == sym(Symbol::LeftParenthesis) || q.cur == sym(Symbol::LeftBracket)
                    || q.cur == sym(Symbol::Dot),
            };
            if !go_on {
                Ok((e, q))
            } else if progressed(s, q, ps) {
                g_expr_(s, q, Some(e), min)
            } else {
                Err(PErr::Unexpected(ps.cur, ps.cur_sp))
            }
        },
    }
}

/// Folds the binary operator or postfix form at the lookahead into `e`;
/// `false` and `e` unchanged where there is none.
pub open spec fn g_fold(s: Seq<char>, ps: PState, e: ExprM) -> Result<(ExprM, bool, PState), PErr>
    decreases fuel(s, ps), 2int,
    when valid(s, ps)
{
    if binop_of(ps.cur) is Some {
        proof {
            lemma_take(s, ps);
        }
        match take(s, ps) {
            Err(x) => Err(x),
            Ok(p) => match g_binop(s, p, binop_of(ps.cur)->0, e) {
                Err(x) => Err(x),
                Ok((e2, q)) => Ok((e2, true, q)),
            },
        }
    } else if ps.cur == sym(Symbol::LeftParenthesis) || ps.cur == sym(Symbol::Dot) || ps.cur == sym(
        Symbol::LeftBracket,
    ) {
        proof {
            lemma_take(s, ps);
        }
        match take(s, ps) {
            Err(x) => Err(x),
            Ok(p) => {
                let r = if ps.cur == sym(Symbol::LeftParenthesis) {
                    g_call_args(s, p, e, Seq::empty())
                } else if ps.cur == sym(Symbol::Dot) {
                    g_field(s, p, e)
                } else {
                    g_index(s, p, e)
                };
                match r {
                    Err(x) => Err(x),
                    Ok((e2, q)) => Ok((e2, true, q)),
                }
            },
        }
    } else {
        Ok((e, false, ps))
    }
}

/// The right operand of `op`, read at `op`'s precedence.
pub open spec fn g_binop(s: Seq<char>, ps: PState, op: BinaryOp, lhs: ExprM) -> Result<(ExprM, PState), PErr>
    decreases fuel(s, ps), 4int,
    when valid(s, ps)
{
    match g_expr_(s, ps, None, precedence(Op::Binary(op))) {
        Err(x) => Err(x),
        Ok((r, q)) => Ok((ExprM::Binary(op, Box::new(lhs), Box::new(r), join_m(span_of(lhs), q.last)), q)),
    }
}

/// The operand of a prefix operator, read above every binary precedence.
pub open spec fn g_unop(s: Seq<char>, ps: PState, op: UnaryOp, op_sp: SpanM) -> Result<(ExprM, PState), PErr>
    decreases fuel(s, ps), 4int,
    when valid(s, ps)
{
    match g_expr_(s, ps, None, precedence(Op::Unary(op))) {
        Err(x) => Err(x),
        Ok((x, q)) => Ok((ExprM::Unary(op, Box::new(x), join_m(op_sp, q.last)), q)),
    }
}

/// A field name after `.`.
pub open spec fn g_field(s: Seq<char>, ps: PState, e: ExprM) -> Result<(ExprM, PState), PErr> {
    match expect_kind(s, ps, any_ident()) {
        Err(x) => Err(x),
        Ok(q) => Ok((ExprM::Field(Box::new(e), ident_name(ps.cur), join_m(span_of(e), ps.cur_sp)), q)),
    }
}

/// An index after `[`: `]` alone, or an expression and `]`.
pub open spec fn g_index(s: Seq<char>, ps: PState, e: ExprM) -> Result<(ExprM, PState), PErr>
    decreases fuel(s, ps), 5int,
    when valid(s, ps)
{
    match accept(s, ps, sym(Symbol::RightBracket)) {
        Err(x) => Err(x),
        Ok(Some(q)) => Ok((ExprM::Index(Box::new(e), None, join_m(span_of(e), q.last)), q)),
        Ok(None) => match g_expr(s, ps) {
            Err(x) => Err(x),
            Ok((i, q)) => match expect(s, q, sym(Symbol::RightBracket)) {
                Err(x) => Err(x),
                Ok(q2) => Ok((ExprM::Index(Box::new(e), Some(Box::new(i)), join_m(span_of(e), q2.last)), q2)),
            },
        },
    }
}

/// The arguments of a call after `(`, those so far in `acc`.
pub open spec fn g_call_args(s: Seq<char>, ps: PState, f: ExprM, acc: Seq<ExprM>) -> Result<(ExprM, PState), PErr>
    decreases fuel(s, ps), 5int,
    when valid(s, ps)
{
    match accept(s, ps, sym(Symbol::RightParenthesis)) {
        Err(x) => Err(x),
        Ok(Some(q)) => Ok((ExprM::Call(Box::new(f), acc, join_m(span_of(f), q.last)), q)),
        Ok(None) => match g_expr(s, ps) {
            Err(x) => Err(x),
            Ok((a, q)) => match g_comma(s, q, Symbol::RightParenthesis) {
                Err(x) => Err(x),
                Ok(q2) => if progressed(s, q2, ps) {
                    g_call_args(s, q2, f, acc.push(a))
                } else {
                    Err(PErr::Unexpected(ps.cur, ps.cur_sp))
                },
            },
        },
    }
}

/// The items of an array literal after `[`, those so far in `acc`.
pub open spec fn g_array_items(s: Seq<char>, ps: PState, acc: Seq<ExprM>, open: SpanM) -> Result<(ExprM, PState), PErr>
    decreases fuel(s, ps), 5int,
    when valid(s, ps)
{
    match accept(s, ps, sym(Symbol::RightBracket)) {
        Err(x) => Err(x),
        Ok(Some(q)) => Ok((ExprM::Array(acc, join_m(open, q.last)), q)),
        Ok(None) => match g_expr(s, ps) {
            Err(x) => Err(x),
            Ok((a, q)) => match g_comma(s, q, Symbol::RightBracket) {
                Err(x) => Err(x),
                Ok(q2) => if progressed(s, q2, ps) {
                    g_array_items(s, q2, acc.push(a), open)
                } else {
                    Err(PErr::Unexpected(ps.cur, ps.cur_sp))
                },
            },
        },
    }
}

/// The entries of a map literal after `{`, those so far in `acc`. A key of
/// the same structure as an earlier one replaces that entry's value.
pub open spec fn g_map_items(s: Seq<char>, ps: PState, acc: Seq<(ExprM, ExprM)>, open: SpanM) -> Result<(ExprM, PState), PErr>
    decreases fuel(s, ps), 5int,
    when valid(s, ps)
{
    match accept(s, ps, sym(Symbol::RightBrace)) {
        Err(x) => Err(x),
        Ok(Some(q)) => Ok((ExprM::MapLit(acc, join_m(open, q.last)), q)),
        Ok(None) => match g_expr(s, ps) {
            Err(x) => Err(x),
            Ok((k, q)) => match expect(s, q, sym(Symbol::Colon)) {
                Err(x) => Err(x),
                Ok(q1) => if kept(s, q1, ps) {
                    match g_expr(s, q1) {
                        Err(x) => Err(x),
                        Ok((v, q2)) => match g_comma(s, q2, Symbol::RightBrace) {
                            Err(x) => Err(x),
                            Ok(q3) => if progressed(s, q3, ps) {
                                g_map_items(s, q3, insert_m(acc, k, v), open)
                            } else {
                                Err(PErr::Unexpected(ps.cur, ps.cur_sp))
                            },
                        },
                    }
                } else {
                    Err(PErr::Unexpected(ps.cur, ps.cur_sp))
                },
            },
        },
    }
}

/// The prefix operator a token stands for.
pub open spec fn unop_of(t: TokenView) -> Option<UnaryOp> {
    if t == sym(Symbol::Hash) {
        Some(UnaryOp::Count)
    } else if t == sym(Symbol::Amp) {
        Some(UnaryOp::Reference)
    } else if t == sym(Symbol::At) {
        Some(UnaryOp::MutReference)
    } else if t == sym(Symbol::Star) {
        Some(UnaryOp::Dereference)
    } else {
        None
    }
}

/// A primary term: a parenthesized expression, a prefix operator and its
/// operand, an array or map literal, a literal, or a variable path.
pub open spec fn g_primary(s: Seq<char>, ps: PState) -> Result<(ExprM, PState), PErr>
    decreases fuel(s, ps), 2int,
    when valid(s, ps)
{
    let t = ps.cur;
    if t is EOF {
        Err(PErr::Unexpected(t, ps.cur_sp))
    } else {
        proof {
            lemma_take(s, ps);
        }
        match take(s, ps) {
            Err(x) => if t == sym(Symbol::LeftParenthesis) || unop_of(t) is Some || t == sym(
                Symbol::LeftBracket,
            ) || t == sym(Symbol::LeftBrace) || t is StringLiteral || t is IntegerLiteral
                || t is BoolLiteral || t is CharLiteral || t is Identifier {
                Err(x)
            } else {
                Err(PErr::Unexpected(t, ps.cur_sp))
            },
            Ok(p) => if t == sym(Symbol::LeftParenthesis) {
                match g_expr(s, p) {
                    Err(x) => Err(x),
                    Ok((e, q)) => match expect(s, q, sym(Symbol::RightParenthesis)) {
                        Err(x) => Err(x),
                        Ok(q2) => Ok((e, q2)),
                    },
                }
            } else if unop_of(t) is Some {
                g_unop(s, p, unop_of(t)->0, ps.cur_sp)
            } else if t == sym(Symbol::LeftBracket) {
                g_array_items(s, p, Seq::empty(), ps.cur_sp)
            } else if t == sym(Symbol::LeftBrace) {
                g_map_items(s, p, Seq::empty(), ps.cur_sp)
            } else if t is StringLiteral || t is IntegerLiteral || t is BoolLiteral || t is CharLiteral {
                Ok((literal_m(t, ps.cur_sp), p))
            } else if t is Identifier {
                match g_path_tail(s, p, seq![ident_name(t)]) {
                    Err(x) => Err(x),
                    Ok((n, q)) => Ok((ExprM::Var(n, join_m(ps.cur_sp, q.last)), q)),
                }
            } else {
                Err(PErr::Unexpected(t, ps.cur_sp))
            },
        }
    }
}

/// A statement inside a body, with the span of each statement that has one
/// (from its keyword to its last token); expressions spans aside.
pub enum StmtM {
    Expr(ExprM),
    VarDecl(Seq<char>, TypeM, Option<ExprM>, SpanM),
    Assign(ExprM, ExprM),
    If(ExprM, Seq<StmtM>, Option<Seq<StmtM>>, SpanM),
    While(ExprM, Seq<StmtM>, SpanM),
    Return(Option<ExprM>, SpanM),
    ForIn(Seq<char>, ExprM, Seq<StmtM>, SpanM),
}

/// A top-level statement with its span (from its keyword to its last
/// token); a declaration's parameters and fields are name, type and span
/// (from the name to the type's last token), in order.
pub enum TopM {
    Import(Seq<char>, SpanM),
    Package(Seq<char>, SpanM),
    Func(Seq<char>, Seq<(Seq<char>, TypeM, SpanM)>, TypeM, Seq<StmtM>, SpanM),
    Struct(Seq<char>, Seq<(Seq<char>, TypeM, SpanM)>, SpanM),
}

pub open spec fn opt_expr_is(e: Option<Expression>, m: Option<ExprM>) -> bool {
    match (e, m) {
        (None, None) => true,
        (Some(x), Some(y)) => expr_is(x, y),
        _ => false,
    }
}

/// `b` is the statement `m` under return type `ret`, spans of its
/// expressions aside.
pub open spec fn stmt_is(b: BlockStatement, m: StmtM, ret: TypeM) -> bool
    decreases b,
{
    match b {
        BlockStatement::Expression(e) => m matches StmtM::Expr(x) && expr_is(*e, x),
        BlockStatement::VarDecl(d) => m matches StmtM::VarDecl(n, t, v, sp) && d.name@ == n && type_is(
            d.var_type,
            t,
        ) && opt_expr_is(d.value, v) && span_m(d.span) == sp,
        BlockStatement::VarAssignment(a, v) => m matches StmtM::Assign(x, y) && expr_is(*a, x) && expr_is(
            *v,
            y,
        ),
        BlockStatement::If(d) => m matches StmtM::If(c, t, e, sp) && span_m(d.span) == sp && expr_is(d.condition, c)
            && d.if_statements@.len() == t.len() && (forall|i: int|
            0 <= i < t.len() ==> stmt_is(#[trigger] d.if_statements@[i], t[i], ret)) && match (
            d.else_statements,
            e,
        ) {
            (None, None) => true,
            (Some(x), Some(y)) => x@.len() == y.len() && forall|i: int|
                0 <= i < y.len() ==> stmt_is(#[trigger] x@[i], y[i], ret),
            _ => false,
        },
        BlockStatement::While(d) => m matches StmtM::While(c, t, sp) && span_m(d.span) == sp && expr_is(d.condition, c)
            && d.statements@.len() == t.len() && (forall|i: int|
            0 <= i < t.len() ==> stmt_is(#[trigger] d.statements@[i], t[i], ret)),
        BlockStatement::Return(d) => m matches StmtM::Return(v, sp) && span_m(d.span) == sp && opt_expr_is(d.value, v) && type_is(
            d.expected_type,
            ret,
        ),
        BlockStatement::ForIn(d) => m matches StmtM::ForIn(n, c, t, sp) && span_m(d.span) == sp && d.element_name@ == n && expr_is(
            d.collection,
            c,
        ) && d.statements@.len() == t.len() && (forall|i: int|
            0 <= i < t.len() ==> stmt_is(#[trigger] d.statements@[i], t[i], ret)),
    }
}

/// Each statement of `b` is the one of `m` at its place.
pub open spec fn body_is(b: Seq<BlockStatement>, m: Seq<StmtM>, ret: TypeM) -> bool {
    b.len() == m.len() && forall|i: int| 0 <= i < m.len() ==> stmt_is(#[trigger] b[i], m[i], ret)
}

/// `st` is the top-level statement `m`, spans of its expressions aside.
pub open spec fn top_is(st: Statement, m: TopM) -> bool {
    match st {
        Statement::Import(d) => m == TopM::Import(d.path@, span_m(d.span)),
        Statement::Package(d) => m == TopM::Package(d.name@, span_m(d.span)),
        Statement::FuncDecl(d) => m matches TopM::Func(n, ps, rt, b, sp) && d.name@ == n && span_m(d.span) == sp
            && d.parameters@.len() == ps.len() && (forall|i: int|
            0 <= i < ps.len() ==> (#[trigger] d.parameters@[i]).name@ == ps[i].0 && type_is(
                d.parameters@[i].param_type,
                ps[i].1,
            ) && span_m(d.parameters@[i].span) == ps[i].2) && type_is(d.return_type, rt) && body_is(d.statements@, b, rt),
        Statement::StructDecl(d) => m matches TopM::Struct(n, fs, sp) && d.name@ == n && span_m(d.span) == sp && d.fields@.len()
            == fs.len() && (forall|i: int|
            0 <= i < fs.len() ==> (#[trigger] d.fields@[i]).name@ == fs[i].0 && type_is(
                d.fields@[i].field_type,
                fs[i].1,
            ) && span_m(d.fields@[i].span) == fs[i].2),
    }
}

/// `a` is the program `m`, spans of its expressions aside.
pub open spec fn ast_is(a: Ast, m: Seq<TopM>) -> bool {
    a.statements@.len() == m.len() && forall|i: int|
        0 <= i < m.len() ==> top_is(#[trigger] a.statements@[i], m[i])
}

pub open spec fn kw(k: Keyword) -> TokenView {
    TokenView::Keyword(k)
}

/// Statements up to the closing `}`, after the `{`; each must end at a
/// line break or at the `}`.
pub open spec fn g_body(s: Seq<char>, ps: PState, ret: TypeM, acc: Seq<StmtM>) -> Result<(Seq<StmtM>, PState), PErr>
    decreases fuel(s, ps), 1int,
    when valid(s, ps)
{
    match accept(s, ps, sym(Symbol::RightBrace)) {
        Err(x) => Err(x),
        Ok(Some(q)) => Ok((acc, q)),
        Ok(None) => match g_block_stmt(s, ps, ret) {
            Err(x) => Err(x),
            Ok((st, q)) => if !q.nl && q.cur != sym(Symbol::RightBrace) {
                Err(PErr::Unexpected(q.cur, q.cur_sp))
            } else if progressed(s, q, ps) {
                g_body(s, q, ret, acc.push(st))
            } else {
                Err(PErr::Unexpected(ps.cur, ps.cur_sp))
            },
        },
    }
}

/// `{ body }`: the brace, then the body.
pub open spec fn g_braced(s: Seq<char>, ps: PState, ret: TypeM, entry: PState) -> Result<(Seq<StmtM>, PState), PErr>
    decreases fuel(s, entry), 2int,
    when valid(s, entry)
{
    match expect(s, ps, sym(Symbol::LeftBrace)) {
        Err(x) => Err(x),
        Ok(q) => if progressed(s, q, entry) {
            g_body(s, q, ret, Seq::empty())
        } else {
            Err(PErr::Unexpected(entry.cur, entry.cur_sp))
        },
    }
}

/// A statement inside a body, chosen by its leading keyword; otherwise an
/// expression, or an assignment to it after `=`.
pub open spec fn g_block_stmt(s: Seq<char>, ps: PState, ret: TypeM) -> Result<(StmtM, PState), PErr>
    decreases fuel(s, ps), 0int,
    when valid(s, ps)
{
    proof {
        lemma_take(s, ps);
    }
    if ps.cur == kw(Keyword::Var) {
        match take(s, ps) {
            Err(x) => Err(x),
            Ok(p) => g_var_decl(s, p, ps.cur_sp),
        }
    } else if ps.cur == kw(Keyword::If) {
        match take(s, ps) {
            Err(x) => Err(x),
            Ok(p) => g_if(s, p, ret, ps.cur_sp),
        }
    } else if ps.cur == kw(Keyword::While) {
        match take(s, ps) {
            Err(x) => Err(x),
            Ok(p) => g_while(s, p, ret, ps.cur_sp),
        }
    } else if ps.cur == kw(Keyword::For) {
        match take(s, ps) {
            Err(x) => Err(x),
            Ok(p) => g_forin(s, p, ret, ps.cur_sp),
        }
    } else if ps.cur == kw(Keyword::Return) {
        match take(s, ps) {
            Err(x) => Err(x),
            Ok(p) => g_return(s, p, ret, ps.cur_sp),
        }
    } else {
        match g_expr(s, ps) {
            Err(x) => Err(x),
            Ok((e, q)) => match accept(s, q, sym(Symbol::Equal)) {
                Err(x) => Err(x),
                Ok(None) => Ok((StmtM::Expr(e), q)),
                Ok(Some(q2)) => match g_expr(s, q2) {
                    Err(x) => Err(x),
                    Ok((v, q3)) => Ok((StmtM::Assign(e, v), q3)),
                },
            },
        }
    }
}

/// `condition { body }`, after `while`.
pub open spec fn g_while(s: Seq<char>, ps: PState, ret: TypeM, kw_sp: SpanM) -> Result<(StmtM, PState), PErr>
    decreases fuel(s, ps), 3int,
    when valid(s, ps)
{
    match g_expr(s, ps) {
        Err(x) => Err(x),
        Ok((c, q)) => match g_braced(s, q, ret, ps) {
            Err(x) => Err(x),
            Ok((b, q2)) => Ok((StmtM::While(c, b, join_m(kw_sp, q2.last)), q2)),
        },
    }
}

/// `name in collection { body }`, after `for`.
pub open spec fn g_forin(s: Seq<char>, ps: PState, ret: TypeM, kw_sp: SpanM) -> Result<(StmtM, PState), PErr>
    decreases fuel(s, ps), 3int,
    when valid(s, ps)
{
    match expect_kind(s, ps, any_ident()) {
        Err(x) => Err(x),
        Ok(p1) => match expect(s, p1, kw(Keyword::In)) {
            Err(x) => Err(x),
            Ok(p2) => match g_expr(s, p2) {
                Err(x) => Err(x),
                Ok((c, q)) => match g_braced(s, q, ret, ps) {
                    Err(x) => Err(x),
                    Ok((b, q2)) => Ok((StmtM::ForIn(ident_name(ps.cur), c, b, join_m(kw_sp, q2.last)), q2)),
                },
            },
        },
    }
}

/// After `return`: a value exactly when the return type is not `NoValue`.
pub open spec fn g_return(s: Seq<char>, ps: PState, ret: TypeM, kw_sp: SpanM) -> Result<(StmtM, PState), PErr> {
    if ret is NoValue {
        Ok((StmtM::Return(None, join_m(kw_sp, ps.last)), ps))
    } else {
        match g_expr(s, ps) {
            Err(x) => Err(x),
            Ok((v, q)) => Ok((StmtM::Return(Some(v), join_m(kw_sp, q.last)), q)),
        }
    }
}

/// `if condition { body }`, then an optional `else` and another `if` or a
/// body; after the `if`.
pub open spec fn g_if(s: Seq<char>, ps: PState, ret: TypeM, kw_sp: SpanM) -> Result<(StmtM, PState), PErr>
    decreases fuel(s, ps), 3int,
    when valid(s, ps)
{
    match g_expr(s, ps) {
        Err(x) => Err(x),
        Ok((c, q)) => match g_braced(s, q, ret, ps) {
            Err(x) => Err(x),
            Ok((b, q1)) => match g_else(s, q1, ret, ps) {
                Err(x) => Err(x),
                Ok((e, q2)) => Ok((StmtM::If(c, b, e, join_m(kw_sp, q2.last)), q2)),
            },
        },
    }
}

/// An optional `else`, then another `if` or a body.
pub open spec fn g_else(s: Seq<char>, ps: PState, ret: TypeM, entry: PState) -> Result<(Option<Seq<StmtM>>, PState), PErr>
    decreases fuel(s, entry), 2int,
    when valid(s, entry)
{
    match accept(s, ps, kw(Keyword::Else)) {
        Err(x) => Err(x),
        Ok(None) => Ok((None, ps)),
        Ok(Some(q2)) => match accept(s, q2, kw(Keyword::If)) {
            Err(x) => Err(x),
            Ok(Some(q3)) => if progressed(s, q3, entry) {
                match g_if(s, q3, ret, q2.cur_sp) {
                    Err(x) => Err(x),
                    Ok((e, q4)) => Ok((Some(seq![e]), q4)),
                }
            } else {
                Err(PErr::Unexpected(entry.cur, entry.cur_sp))
            },
            Ok(None) => if progressed(s, q2, entry) {
                match g_braced(s, q2, ret, q2) {
                    Err(x) => Err(x),
                    Ok((e, q4)) => Ok((Some(e), q4)),
                }
            } else {
                Err(PErr::Unexpected(entry.cur, entry.cur_sp))
            },
        },
    }
}

/// A copy of a type is the same type.
pub proof fn lemma_same_type_is(a: Type, b: Type, m: TypeM)
    requires
        same_type(a, b),
        type_is(a, m),
    ensures
        type_is(b, m),
    decreases a,
{
    match a {
        Type::Reference(x) => {
            lemma_same_type_is(*x, *b->Reference_0, *m->Reference_0);
        },
        Type::MutReference(x) => {
            lemma_same_type_is(*x, *b->MutReference_0, *m->MutReference_0);
        },
        Type::Array(x) => {
            lemma_same_type_is(*x, *b->Array_0, *m->Array_0);
        },
        Type::Mapping(k, v) => {
            lemma_same_type_is(*k, *b->Mapping_0, *m->Mapping_0);
            lemma_same_type_is(*v, *b->Mapping_1, *m->Mapping_1);
        },
        _ => {},
    }
}

/// `var name: type`, with an optional `= value`; after the `var`.
pub open spec fn g_var_decl(s: Seq<char>, ps: PState, kw_sp: SpanM) -> Result<(StmtM, PState), PErr> {
    match expect_kind(s, ps, any_ident()) {
        Err(x) => Err(x),
        Ok(p) => match expect(s, p, sym(Symbol::Colon)) {
            Err(x) => Err(x),
            Ok(p2) => match g_type(s, p2) {
                Err(x) => Err(x),
                Ok((t, q)) => match accept(s, q, sym(Symbol::Equal)) {
                    Err(x) => Err(x),
                    Ok(None) => Ok((StmtM::VarDecl(ident_name(ps.cur), t, None, join_m(kw_sp, q.last)), q)),
                    Ok(Some(q2)) => match g_expr(s, q2) {
                        Err(x) => Err(x),
                        Ok((v, q3)) => Ok((StmtM::VarDecl(ident_name(ps.cur), t, Some(v), join_m(kw_sp, q3.last)), q3)),
                    },
                },
            },
        },
    }
}

/// `name: type` pairs up to `close`, separated by commas; those so far in `acc`.
pub open spec fn g_typed_names(s: Seq<char>, ps: PState, close: Symbol, acc: Seq<(Seq<char>, TypeM, SpanM)>) -> Result<
    (Seq<(Seq<char>, TypeM, SpanM)>, PState),
    PErr,
>
    decreases fuel(s, ps),
    when valid(s, ps)
{
    match accept(s, ps, sym(close)) {
        Err(x) => Err(x),
        Ok(Some(q)) => Ok((acc, q)),
        Ok(None) => match expect_kind(s, ps, any_ident()) {
            Err(x) => Err(x),
            Ok(p) => match expect(s, p, sym(Symbol::Colon)) {
                Err(x) => Err(x),
                Ok(p2) => match g_type(s, p2) {
                    Err(x) => Err(x),
                    Ok((t, q)) => match g_comma(s, q, close) {
                        Err(x) => Err(x),
                        Ok(q2) => if progressed(s, q2, ps) {
                            g_typed_names(s, q2, close, acc.push((ident_name(ps.cur), t, join_m(ps.cur_sp, q.last))))
                        } else {
                            Err(PErr::Unexpected(ps.cur, ps.cur_sp))
                        },
                    },
                },
            },
        },
    }
}

/// `name(params) -> type { body }`, after `func`.
pub open spec fn g_func(s: Seq<char>, ps: PState, kw_sp: SpanM) -> Result<(TopM, PState), PErr> {
    match expect_kind(s, ps, any_ident()) {
        Err(x) => Err(x),
        Ok(p) => match expect(s, p, sym(Symbol::LeftParenthesis)) {
            Err(x) => Err(x),
            Ok(p2) => g_func_tail(s, ident_name(ps.cur), g_typed_names(s, p2, Symbol::RightParenthesis, Seq::empty()), kw_sp),
        },
    }
}

/// The rest of a function after its parameters: an optional `-> type`
/// (`NoValue` without it), then the body.
pub open spec fn g_func_tail(s: Seq<char>, name: Seq<char>, params: Result<(Seq<(Seq<char>, TypeM, SpanM)>, PState), PErr>, kw_sp: SpanM) -> Result<(TopM, PState), PErr> {
    match params {
        Err(x) => Err(x),
        Ok((params, q)) => {
            let rt = match accept(s, q, sym(Symbol::Return)) {
                Err(x) => Err(x),
                Ok(None) => Ok((TypeM::NoValue, q)),
                Ok(Some(q1)) => g_type(s, q1),
            };
            match rt {
                Err(x) => Err(x),
                Ok((t, q2)) => match g_braced(s, q2, t, q2) {
                    Err(x) => Err(x),
                    Ok((b, q3)) => Ok((TopM::Func(name, params, t, b, join_m(kw_sp, q3.last)), q3)),
                },
            }
        },
    }
}

/// `Name { field: type, ... }`, after `struct`.
pub open spec fn g_struct(s: Seq<char>, ps: PState, kw_sp: SpanM) -> Result<(TopM, PState), PErr> {
    match expect_kind(s, ps, any_ident()) {
        Err(x) => Err(x),
        Ok(p1) => match expect(s, p1, sym(Symbol::LeftBrace)) {
            Err(x) => Err(x),
            Ok(p2) => match g_typed_names(s, p2, Symbol::RightBrace, Seq::empty()) {
                Err(x) => Err(x),
                Ok((fs, q)) => Ok((TopM::Struct(ident_name(ps.cur), fs, join_m(kw_sp, q.last)), q)),
            },
        },
    }
}

/// `"path"`, after `import`.
pub open spec fn g_import(s: Seq<char>, ps: PState, kw_sp: SpanM) -> Result<(TopM, PState), PErr> {
    match expect_kind(s, ps, TokenView::StringLiteral(Seq::empty())) {
        Err(x) => Err(x),
        Ok(q) => Ok((TopM::Import(ps.cur->StringLiteral_0, join_m(kw_sp, ps.cur_sp)), q)),
    }
}

/// A name, after `package`.
pub open spec fn g_package(s: Seq<char>, ps: PState, kw_sp: SpanM) -> Result<(TopM, PState), PErr> {
    match expect_kind(s, ps, any_ident()) {
        Err(x) => Err(x),
        Ok(q) => Ok((TopM::Package(ident_name(ps.cur), join_m(kw_sp, ps.cur_sp)), q)),
    }
}

/// A top-level statement, chosen by its leading keyword.
pub open spec fn g_statement(s: Seq<char>, ps: PState) -> Result<(TopM, PState), PErr> {
    match take(s, ps) {
        Err(x) => if ps.cur == kw(Keyword::Import) || ps.cur == kw(Keyword::Package) || ps.cur == kw(
            Keyword::Func,
        ) || ps.cur == kw(Keyword::Struct) {
            Err(x)
        } else {
            Err(PErr::Unexpected(ps.cur, ps.cur_sp))
        },
        Ok(p) => if ps.cur == kw(Keyword::Import) {
            g_import(s, p, ps.cur_sp)
        } else if ps.cur == kw(Keyword::Package) {
            g_package(s, p, ps.cur_sp)
        } else if ps.cur == kw(Keyword::Func) {
            g_func(s, p, ps.cur_sp)
        } else if ps.cur == kw(Keyword::Struct) {
            g_struct(s, p, ps.cur_sp)
        } else {
            Err(PErr::Unexpected(ps.cur, ps.cur_sp))
        },
    }
}

/// Top-level statements up to the end of the text; those so far in `acc`.
pub open spec fn g_program(s: Seq<char>, ps: PState, acc: Seq<TopM>) -> Result<Seq<TopM>, PErr>
    decreases fuel(s, ps),
    when valid(s, ps)
{
    if ps.cur is EOF {
        Ok(acc)
    } else {
        match g_statement(s, ps) {
            Err(x) => Err(x),
            Ok((st, q)) => if progressed(s, q, ps) {
                g_program(s, q, acc.push(st))
            } else {
                Err(PErr::Unexpected(ps.cur, ps.cur_sp))
            },
        }
    }
}

/// A whole parse from `ps`: the first token is read, then the program.
pub open spec fn g_parse(s: Seq<char>, ps: PState) -> Result<Seq<TopM>, PErr> {
    match advance(s, ps) {
        Err(x) => Err(x),
        Ok(p) => g_program(s, p, Seq::empty()),
    }
}

} // verus!
