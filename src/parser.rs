use vstd::prelude::*;
use crate::lexer::scan::{lemma_no_struct_init_keyword, scan_token, skip_blanks};
use crate::lexer::{
    text_is, Keyword, LexError, LexErrorKind, Reader, SToken, Span, Symbol, Token, TokenView,
};
use self::grammar::{
    accept, accept_kind, advance, any_ident, expect, expect_kind, g_path, g_path_tail, g_type, g_type_bracketed, g_expr, g_expr_, g_fold, g_primary, g_binop,
    g_unop, g_array_items, g_map_items, entries_are, lemma_insert_m, insert_m, g_call_args, g_field, g_index, g_comma, expr_is, literal_m, ExprM,
    g_body, g_block_stmt, g_if, g_while, g_forin, g_return, g_var_decl, g_typed_names, g_func,
    g_statement, g_program, g_parse, stmt_is, body_is, top_is, ast_is, StmtM, TopM, g_func_tail,
    g_struct, g_import, g_package, g_else, lemma_same_type_is, kept,
    ident_name, lemma_accept, lemma_take, names_are, same_kind, skip_nl, span_m, take, type_is,
    type_of_path, valid, PErr, PState, SpanM, TypeM, join_m,
};
use self::ast::{
    ast_wf, block_wf, body_wf, expr_wf, opt_expr_wf, path_wf, same_start, same_type, stmt_wf,
    type_wf, Ast, BinaryOp, BlockStatement, Expression, Expression_, ForInData, FuncDeclData,
    FuncDeclParamData, IfData, ImportData, MapLiteral, Op, PackageData, Path, ReturnData,
    SpannedString, Statement, StructDeclData, StructFieldData, StructInitFieldData, Type, UnaryOp,
    VarDeclData, WhileData,
};

pub mod ast;
pub mod grammar;

verus! {

/// What went wrong while parsing.
#[derive(Debug, Clone)]
pub enum ErrorKind {
    /// A token that the grammar had already checked turned out otherwise.
    Unknown,
    /// The scanner could not read a lexeme.
    Lexer(LexError),
    /// No rule of the grammar starts with this token.
    UnexpectedToken(Token),
    /// A token of the first shape was required; the second came.
    ExpectedGotToken(Token, Token),
}

/// A parse failure and where it happened.
#[derive(Debug, Clone)]
pub struct Error {
    pub kind: ErrorKind,
    pub span: Span,
}

/// The two tokens are equal, payloads included.
pub open spec fn same_token(a: TokenView, b: TokenView) -> bool {
    a == b
}

/// `r` is the grammar's outcome `g`, and `after` its state after.
pub open spec fn expr_result(r: Result<Expression, Error>, g: Result<(ExprM, PState), PErr>, after: PState, file: Seq<char>) -> bool {
    match g {
        Ok((m, q)) => r matches Ok(e) && expr_is(e, m) && after == q,
        Err(pe) => r matches Err(e) && err_is(e, pe, file),
    }
}

/// `e` is the error `pe` of the grammar's model, in the file named `file`.
pub open spec fn err_is(e: Error, pe: PErr, file: Seq<char>) -> bool {
    e.span.file@ == file && match pe {
        PErr::Lex(k, sp) => e.kind matches ErrorKind::Lexer(l) && l.kind == k && l.span == e.span && span_m(e.span) == sp,
        PErr::Unexpected(t, sp) => e.kind matches ErrorKind::UnexpectedToken(u) && u@ == t && span_m(
            e.span,
        ) == sp,
        PErr::Expected(a, b, sp) => e.kind matches ErrorKind::ExpectedGotToken(x, y) && x@ == a && y@
            == b && span_m(e.span) == sp,
    }
}

/// The binary operator a token stands for, if any.
pub open spec fn binop_of(t: TokenView) -> Option<BinaryOp> {
    match t {
        TokenView::Symbol(Symbol::Plus) => Some(BinaryOp::Addition),
        TokenView::Symbol(Symbol::Minus) => Some(BinaryOp::Substraction),
        TokenView::Symbol(Symbol::Star) => Some(BinaryOp::Multiplication),
        TokenView::Symbol(Symbol::Over) => Some(BinaryOp::Division),
        TokenView::Symbol(Symbol::Modulo) => Some(BinaryOp::Modulo),
        TokenView::Symbol(Symbol::Concat) => Some(BinaryOp::Concatenation),
        TokenView::Symbol(Symbol::EqualEqual) => Some(BinaryOp::Equality),
        TokenView::Symbol(Symbol::NotEqual) => Some(BinaryOp::Inequality),
        _ => None,
    }
}

/// Binding power: equality 1, additive and concatenation 2, multiplicative 3;
/// every prefix operator binds tighter than any binary one.
pub open spec fn precedence(op: Op) -> u8 {
    match op {
        Op::Unary(_) => 255,
        Op::Binary(b) => match b {
            BinaryOp::Equality | BinaryOp::Inequality => 1,
            BinaryOp::Addition | BinaryOp::Substraction | BinaryOp::Concatenation => 2,
            BinaryOp::Multiplication | BinaryOp::Division | BinaryOp::Modulo => 3,
        },
    }
}

/// The token can start an expression.
pub open spec fn starts_expression(t: TokenView) -> bool {
    match t {
        TokenView::Symbol(s) => s == Symbol::LeftParenthesis || s == Symbol::Hash || s == Symbol::Amp
            || s == Symbol::At || s == Symbol::Star || s == Symbol::LeftBracket || s
            == Symbol::LeftBrace,
        TokenView::StringLiteral(_) | TokenView::IntegerLiteral(_) | TokenView::BoolLiteral(_)
        | TokenView::CharLiteral(_) | TokenView::Identifier(_) => true,
        TokenView::Keyword(k) => k == Keyword::New,
        _ => false,
    }
}

/// The literal expression `e` holds the value of the literal token `t`.
pub open spec fn literal_of(e: Expression_, t: TokenView) -> bool {
    match t {
        TokenView::StringLiteral(s) => e matches Expression_::StringLiteral(x) && x@ == s,
        TokenView::IntegerLiteral(i) => e == Expression_::IntegerLiteral(i),
        TokenView::BoolLiteral(b) => e == Expression_::BoolLiteral(b),
        TokenView::CharLiteral(c) => e == Expression_::CharLiteral(c),
        _ => false,
    }
}

/// The token is an identifier spelled `name`.
pub open spec fn names(t: TokenView, name: Seq<char>) -> bool {
    t == TokenView::Identifier(name)
}

/// One of the four scalar type names, and its type.
pub open spec fn scalar_named(n: Seq<char>) -> Option<Type> {
    if n == "int"@ {
        Some(Type::Int)
    } else if n == "bool"@ {
        Some(Type::Bool)
    } else if n == "char"@ {
        Some(Type::Char)
    } else if n == "string"@ {
        Some(Type::String)
    } else {
        None
    }
}

/// The keyword that starts a top-level statement.
pub open spec fn starts_statement(t: TokenView) -> bool {
    t == TokenView::Keyword(Keyword::Import) || t == TokenView::Keyword(Keyword::Package) || t
        == TokenView::Keyword(Keyword::Func) || t == TokenView::Keyword(Keyword::Struct)
}

/// The statement is of the kind that the keyword `t` introduces.
pub open spec fn introduced_by(st: Statement, t: TokenView) -> bool {
    match st {
        Statement::Import(_) => t == TokenView::Keyword(Keyword::Import),
        Statement::Package(_) => t == TokenView::Keyword(Keyword::Package),
        Statement::FuncDecl(_) => t == TokenView::Keyword(Keyword::Func),
        Statement::StructDecl(_) => t == TokenView::Keyword(Keyword::Struct),
    }
}

/// How a parse ends, given what the scanner reads first: a scanning error
/// is reported; an empty text gives an empty tree; a token that starts no
/// statement is unexpected; otherwise a tree begins with a statement of the
/// kind the first keyword introduces.
pub open spec fn parse_outcome(first: Result<TokenView, LexErrorKind>, r: Result<Ast, Error>) -> bool {
    match first {
        Err(_) => match r {
            Err(e) => e.kind is Lexer,
            Ok(_) => false,
        },
        Ok(t) => if t is EOF {
            match r {
                Ok(ast) => ast.statements@.len() == 0,
                Err(_) => false,
            }
        } else if !starts_statement(t) {
            match r {
                Err(e) => match e.kind {
                    ErrorKind::UnexpectedToken(u) => u@ == t,
                    _ => false,
                },
                Ok(_) => false,
            }
        } else {
            match r {
                Ok(ast) => ast.statements@.len() > 0 && introduced_by(ast.statements@[0], t),
                Err(_) => true,
            }
        },
    }
}

/// What the scanner gives next from the place where `reader` stands.
pub open spec fn next_read(reader: Reader) -> Result<TokenView, LexErrorKind> {
    scan_token(reader.text(), skip_blanks(reader.text(), reader.state())).result
}

/// The scalar type a path names: a single name among the four reserved ones.
fn get_builtin_type(path: &Path) -> (r: Option<Type>)
    ensures
        path.parts@.len() != 1 ==> r is None,
        path.parts@.len() == 1 ==> r == scalar_named(path.parts@[0].ident@),
{
    if path.parts.len() != 1 {
        return None;
    }
    let name = &path.parts[0].ident;
    if text_is(name, "int") {
        Some(Type::Int)
    } else if text_is(name, "bool") {
        Some(Type::Bool)
    } else if text_is(name, "char") {
        Some(Type::Char)
    } else if text_is(name, "string") {
        Some(Type::String)
    } else {
        None
    }
}

fn tokens_equal(a: &Token, b: &Token) -> (r: bool)
    ensures
        r == same_token(a@, b@),
{
    match (a, b) {
        (Token::EOF, Token::EOF) => true,
        (Token::Identifier(x), Token::Identifier(y)) => *x == *y,
        (Token::Keyword(x), Token::Keyword(y)) => *x == *y,
        (Token::StringLiteral(x), Token::StringLiteral(y)) => *x == *y,
        (Token::CharLiteral(x), Token::CharLiteral(y)) => *x == *y,
        (Token::IntegerLiteral(x), Token::IntegerLiteral(y)) => *x == *y,
        (Token::FloatLiteral(x), Token::FloatLiteral(y)) => *x == *y,
        (Token::BoolLiteral(x), Token::BoolLiteral(y)) => *x == *y,
        (Token::Symbol(x), Token::Symbol(y)) => *x == *y,
        _ => false,
    }
}

fn kinds_equal(a: &Token, b: &Token) -> (r: bool)
    ensures
        r == same_kind(a@, b@),
{
    match (a, b) {
        (Token::EOF, Token::EOF) => true,
        (Token::Identifier(_), Token::Identifier(_)) => true,
        (Token::Keyword(_), Token::Keyword(_)) => true,
        (Token::StringLiteral(_), Token::StringLiteral(_)) => true,
        (Token::CharLiteral(_), Token::CharLiteral(_)) => true,
        (Token::IntegerLiteral(_), Token::IntegerLiteral(_)) => true,
        (Token::FloatLiteral(_), Token::FloatLiteral(_)) => true,
        (Token::BoolLiteral(_), Token::BoolLiteral(_)) => true,
        (Token::Symbol(_), Token::Symbol(_)) => true,
        _ => false,
    }
}

fn is_symbol(t: &Token, s: Symbol) -> (r: bool)
    ensures
        r == (t@ == TokenView::Symbol(s)),
{
    match t {
        Token::Symbol(x) => *x == s,
        _ => false,
    }
}

/// The recursive-descent parser, with one token of lookahead.
pub struct Parser {
    reader: Reader,
    last_sp: Span,
    current_token: SToken,
    just_skept_newline: bool,
}

impl Parser {
    /// The scanner is usable.
    pub closed spec fn wf(&self) -> bool {
        &&& self.reader.wf()
        &&& 0 <= self.reader.remaining() <= self.reader.text().len()
        &&& self.current_token.tok@ != TokenView::Keyword(Keyword::New)
        &&& self.current_token.sp.file@ == self.reader.file()
    }

    /// The name of the file being parsed.
    pub closed spec fn file(&self) -> Seq<char> {
        self.reader.file()
    }

    /// The text being parsed.
    pub closed spec fn text(&self) -> Seq<char> {
        self.reader.text()
    }

    /// The parser's bound on tokens to come is the model's.
    pub proof fn lemma_fuel(&self)
        requires
            self.wf(),
        ensures
            self.fuel() == grammar::fuel(self.text(), self.ps()),
            valid(self.text(), self.ps()),
    {
        self.reader.lemma_remaining();
    }

    /// The parser's position in the grammar's model.
    pub closed spec fn ps(&self) -> PState {
        PState {
            file: self.reader.file(),
            st: self.reader.state(),
            cur: self.current_token.tok@,
            cur_sp: span_m(self.current_token.sp),
            last: span_m(self.last_sp),
            nl: self.just_skept_newline,
        }
    }

    /// A bound on the tokens still to come: the characters not read, and one
    /// for the lookahead unless it is `EOF`.
    pub closed spec fn fuel(&self) -> int {
        self.reader.remaining() + if self.current_token.tok is EOF { 0int } else { 1int }
    }

    /// The scanner the tokens come from.
    pub closed spec fn reader(&self) -> Reader {
        self.reader
    }

    /// The lookahead token.
    pub closed spec fn current(&self) -> SToken {
        self.current_token
    }

    /// A parser over `reader`; nothing is read before `parse`.
    pub fn new(reader: Reader) -> (r: Parser)
        requires
            reader.wf(),
        ensures
            r.wf(),
            r.reader() == reader,
            r.current().tok is EOF,
            !r.ps().nl,
            r.text() == reader.text(),
            r.file() == reader.file(),
            r.ps() == (PState {
                file: reader.file(),
                st: reader.state(),
                cur: TokenView::EOF,
                cur_sp: SpanM { file: reader.file(), srow: 0, scol: 0, erow: 0, ecol: 0 },
                last: SpanM { file: Seq::empty(), srow: 0, scol: 0, erow: 0, ecol: 0 },
                nl: false,
            }),
    {
        proof {
            reader.lemma_remaining();
        }
        let sp = Span { srow: 0, scol: 0, erow: 0, ecol: 0, file: reader.filename().clone() };
        Parser {
            reader: reader,
            last_sp: Span::nil_span(),
            current_token: SToken { tok: Token::EOF, sp: sp },
            just_skept_newline: false,
        }
    }

    /// Takes the next token from the scanner: the lookahead becomes the
    /// last token taken.
    fn next_token(&mut self) -> (r: Result<SToken, Error>)
        requires
            old(self).wf(),
        ensures
            final(self).wf(),
            final(self).text() == old(self).text(),
            final(self).file() == old(self).file(),
            final(self).fuel() <= old(self).fuel(),
            r matches Err(e) ==> !(e.kind is Unknown),
            r is Ok && !(old(self).current_token.tok is EOF) ==> final(self).fuel() < old(self).fuel(),
            r matches Err(e) ==> e.kind is Lexer,
            r matches Ok(t) ==> next_read(old(self).reader) == Ok::<TokenView, LexErrorKind>(t.tok@),
            r is Err ==> next_read(old(self).reader) is Err,
            match advance(old(self).text(), old(self).ps()) {
                Ok(p) => r matches Ok(t) && t == final(self).current_token && final(self).ps() == p
                    && final(self).last_sp == old(self).current_token.sp,
                Err(pe) => r matches Err(e) && err_is(e, pe, old(self).file()),
            },
    {
        proof {
            self.reader.lemma_remaining();
            lemma_no_struct_init_keyword(self.reader.text(), self.reader.state());
        }
        match self.reader.next_token() {
            Ok(t) => {
                self.last_sp = self.current_token.sp.duplicate();
                self.current_token = t;
                Ok(self.current_token.duplicate())
            },
            Err(e) => {
                let sp = e.span.duplicate();
                Err(Error { kind: ErrorKind::Lexer(e), span: sp })
            },
        }
    }

    /// Takes any line breaks at the lookahead, and returns the span they
    /// cover. The last token taken stays what it was before them.
    fn skip_newlines(&mut self) -> (r: Result<Span, Error>)
        requires
            old(self).wf(),
        ensures
            final(self).wf(),
            final(self).text() == old(self).text(),
            final(self).file() == old(self).file(),
            final(self).fuel() <= old(self).fuel(),
            r matches Err(e) ==> !(e.kind is Unknown),
            match skip_nl(old(self).text(), old(self).ps()) {
                Ok(p) => r is Ok && final(self).ps() == p && final(self).last_sp == old(self).last_sp,
                Err(pe) => r matches Err(e) && err_is(e, pe, old(self).file()),
            },
            r is Ok && !(old(self).current_token.tok@ == TokenView::Symbol(Symbol::NewLine))
                ==> *final(self) == *old(self),
    {
        let mut sp = Span {
            scol: self.current_token.sp.scol,
            srow: self.current_token.sp.srow,
            ecol: self.current_token.sp.scol,
            erow: self.current_token.sp.srow,
            file: self.current_token.sp.file.clone(),
        };
        let last = self.last_sp.duplicate();
        let ghost start = *self;
        while is_symbol(&self.current_token.tok, Symbol::NewLine)
            invariant
                start == *old(self),
                self.wf(),
                self.text() == start.text(),
                self.file() == start.file(),
                self.fuel() <= start.fuel(),
                valid(self.text(), self.ps()),
                skip_nl(start.text(), start.ps()) == skip_nl(self.text(), PState { last: start.ps().last, ..self.ps() }),
                last == start.last_sp,
                !(start.current_token.tok@ == TokenView::Symbol(Symbol::NewLine)) ==> *self == start,
            decreases self.fuel(),
        {
            assert(self.current_token.tok is Symbol);
            sp = Span::concat(sp, self.current_token.sp.duplicate());
            self.next_token()?;
            self.just_skept_newline = true;
        }
        if is_symbol(&self.current_token.tok, Symbol::NewLine) {
        } else {
            self.last_sp = last;
        }
        Ok(sp)
    }

    /// Takes the lookahead if it equals `mtoken`, then any line breaks after it.
    fn accept(&mut self, mtoken: Token) -> (r: Result<Option<SToken>, Error>)
        requires
            old(self).wf(),
        ensures
            final(self).wf(),
            final(self).text() == old(self).text(),
            final(self).file() == old(self).file(),
            final(self).fuel() <= old(self).fuel(),
            r matches Err(e) ==> !(e.kind is Unknown),
            (r is Ok && r->Ok_0 is None) <==> !same_token(old(self).current_token.tok@, mtoken@),
            r matches Ok(Some(_)) ==> (mtoken is EOF || final(self).fuel() < old(self).fuel()),
            r matches Ok(Some(t)) ==> t == old(self).current_token && !(final(self).current_token.tok@
                == TokenView::Symbol(Symbol::NewLine)) && final(self).last_sp == t.sp,
            match accept(old(self).text(), old(self).ps(), mtoken@) {
                Ok(None) => r matches Ok(None) && *final(self) == *old(self),
                Ok(Some(p)) => r matches Ok(Some(t)) && final(self).ps() == p,
                Err(pe) => r matches Err(e) && err_is(e, pe, old(self).file()),
            },
    {
        proof {
            self.reader.lemma_remaining();
            lemma_take(self.text(), self.ps());
        }
        if tokens_equal(&self.current_token.tok, &mtoken) {
            let t = self.current_token.duplicate();
            self.next_token()?;
            self.just_skept_newline = false;
            self.skip_newlines()?;
            Ok(Some(t))
        } else {
            Ok(None)
        }
    }

    /// Takes the lookahead if it is of the kind of `mtoken`, then any line breaks after it.
    fn accept_any(&mut self, mtoken: Token) -> (r: Result<Option<SToken>, Error>)
        requires
            old(self).wf(),
        ensures
            final(self).wf(),
            final(self).text() == old(self).text(),
            final(self).file() == old(self).file(),
            final(self).fuel() <= old(self).fuel(),
            r matches Err(e) ==> !(e.kind is Unknown),
            (r is Ok && r->Ok_0 is None) <==> !same_kind(old(self).current_token.tok@, mtoken@),
            r matches Ok(Some(_)) ==> (mtoken is EOF || final(self).fuel() < old(self).fuel()),
            r matches Ok(Some(t)) ==> t == old(self).current_token && !(final(self).current_token.tok@
                == TokenView::Symbol(Symbol::NewLine)) && final(self).last_sp == t.sp,
            match accept_kind(old(self).text(), old(self).ps(), mtoken@) {
                Ok(None) => r matches Ok(None) && *final(self) == *old(self),
                Ok(Some(p)) => r matches Ok(Some(t)) && final(self).ps() == p,
                Err(pe) => r matches Err(e) && err_is(e, pe, old(self).file()),
            },
    {
        proof {
            self.reader.lemma_remaining();
            lemma_take(self.text(), self.ps());
        }
        if kinds_equal(&self.current_token.tok, &mtoken) {
            let t = self.current_token.duplicate();
            self.next_token()?;
            self.just_skept_newline = false;
            self.skip_newlines()?;
            Ok(Some(t))
        } else {
            Ok(None)
        }
    }

    /// Like `accept`, but a mismatch is an error naming both tokens.
    fn expect(&mut self, token: Token) -> (r: Result<SToken, Error>)
        requires
            old(self).wf(),
            !(token is EOF),
        ensures
            final(self).wf(),
            final(self).text() == old(self).text(),
            final(self).file() == old(self).file(),
            final(self).fuel() <= old(self).fuel(),
            r matches Err(e) ==> !(e.kind is Unknown),
            r matches Ok(t) ==> t == old(self).current_token && same_token(t.tok@, token@)
                && final(self).fuel() < old(self).fuel() && !(final(self).current_token.tok@
                == TokenView::Symbol(Symbol::NewLine)) && final(self).last_sp == t.sp,
            !same_token(old(self).current_token.tok@, token@) ==> r == Err::<SToken, Error>(
                Error {
                    kind: ErrorKind::ExpectedGotToken(token, old(self).current_token.tok),
                    span: old(self).current_token.sp,
                },
            ),
            match expect(old(self).text(), old(self).ps(), token@) {
                Ok(p) => r is Ok && final(self).ps() == p,
                Err(pe) => r matches Err(e) && err_is(e, pe, old(self).file()),
            },
    {
        match self.accept(token.duplicate())? {
            Some(t) => Ok(t),
            None => Err(
                Error {
                    kind: ErrorKind::ExpectedGotToken(token, self.current_token.tok.duplicate()),
                    span: self.current_token.sp.duplicate(),
                },
            ),
        }
    }

    /// Like `accept_any`, but a mismatch is an error naming both tokens.
    fn expect_any(&mut self, token: Token) -> (r: Result<SToken, Error>)
        requires
            old(self).wf(),
            !(token is EOF),
        ensures
            final(self).wf(),
            final(self).text() == old(self).text(),
            final(self).file() == old(self).file(),
            final(self).fuel() <= old(self).fuel(),
            r matches Err(e) ==> !(e.kind is Unknown),
            r matches Ok(t) ==> t == old(self).current_token && same_kind(t.tok@, token@)
                && final(self).fuel() < old(self).fuel() && !(final(self).current_token.tok@
                == TokenView::Symbol(Symbol::NewLine)) && final(self).last_sp == t.sp,
            !same_kind(old(self).current_token.tok@, token@) ==> r == Err::<SToken, Error>(
                Error {
                    kind: ErrorKind::ExpectedGotToken(token, old(self).current_token.tok),
                    span: old(self).current_token.sp,
                },
            ),
            match expect_kind(old(self).text(), old(self).ps(), token@) {
                Ok(p) => r is Ok && final(self).ps() == p,
                Err(pe) => r matches Err(e) && err_is(e, pe, old(self).file()),
            },
    {
        match self.accept_any(token.duplicate())? {
            Some(t) => Ok(t),
            None => Err(
                Error {
                    kind: ErrorKind::ExpectedGotToken(token, self.current_token.tok.duplicate()),
                    span: self.current_token.sp.duplicate(),
                },
            ),
        }
    }

    /// Reads a path: `first_part`, or else the lookahead, which must be an
    /// identifier, then any `:: identifier` continuations.
    fn parse_path(&mut self, first_part: Option<SToken>) -> (r: Result<Path, Error>)
        requires
            old(self).wf(),
            first_part matches Some(t) ==> t.tok is Identifier,
        ensures
            r matches Err(e) ==> !(e.kind is Unknown),
            final(self).wf(),
            final(self).text() == old(self).text(),
            final(self).file() == old(self).file(),
            final(self).fuel() <= old(self).fuel(),
            first_part is None && r is Ok ==> final(self).fuel() < old(self).fuel(),
            first_part is None && !(old(self).current_token.tok is Identifier) ==> r is Err,
            match first_part {
                None => match g_path(old(self).text(), old(self).ps()) {
                    Ok((n, q)) => r matches Ok(p) && names_are(p.parts@, n) && final(self).ps() == q,
                    Err(pe) => r matches Err(e) && err_is(e, pe, old(self).file()),
                },
                Some(t) => match g_path_tail(old(self).text(), old(self).ps(), seq![ident_name(t.tok@)]) {
                    Ok((n, q)) => r matches Ok(p) && names_are(p.parts@, n) && final(self).ps() == q,
                    Err(pe) => r matches Err(e) && err_is(e, pe, old(self).file()),
                },
            },
            r matches Ok(p) ==> p.parts@.len() >= 1 && ({
                let first = match first_part {
                    Some(t) => t,
                    None => old(self).current_token,
                };
                &&& names(first.tok@, p.parts@[0].ident@)
                &&& p.parts@[0].span == first.sp
                &&& p.span == Span::joined(first.sp, final(self).last_sp)
            }),
    {
        let ghost goal = if first_part is Some {
            g_path_tail(old(self).text(), old(self).ps(), seq![ident_name(first_part->0.tok@)])
        } else {
            g_path(old(self).text(), old(self).ps())
        };
        let ident_token = match first_part {
            Some(t) => t,
            None => self.expect_any(Token::Identifier(String::new()))?,
        };
        let ident = match &ident_token.tok {
            Token::Identifier(i) => i.clone(),
            _ => {
                return Err(Error { kind: ErrorKind::Unknown, span: ident_token.sp });
            },
        };
        let mut parts: Vec<SpannedString> = Vec::new();
        parts.push(SpannedString { span: ident_token.sp.duplicate(), ident: ident });
        let ghost mut got: Seq<Seq<char>> = seq![ident_name(ident_token.tok@)];
        proof {
            self.reader.lemma_remaining();
        }
        let ghost entry_fuel = if first_part is None { old(self).fuel() - 1 } else { old(self).fuel() };
        while self.accept(Token::Symbol(Symbol::ColonColon))?.is_some()
            invariant
                self.wf(),
                self.text() == old(self).text(),
                self.file() == old(self).file(),
                self.fuel() <= entry_fuel,
                entry_fuel <= old(self).fuel(),
                first_part is None ==> entry_fuel < old(self).fuel(),
                parts@.len() >= 1,
                names(ident_token.tok@, parts@[0].ident@),
                parts@[0].span == ident_token.sp,
                self.text() == old(self).text(),
                self.file() == old(self).file(),
                valid(self.text(), self.ps()),
                names_are(parts@, got),
                goal == g_path_tail(self.text(), self.ps(), got),
                first_part is None ==> goal == g_path(old(self).text(), old(self).ps()),
                first_part is Some ==> goal == g_path_tail(old(self).text(), old(self).ps(), seq![ident_name(first_part->0.tok@)]),
            decreases self.fuel(),
        {
            let ghost p1 = self.ps();
            proof {
                self.reader.lemma_remaining();
                lemma_accept(self.text(), p1, any_ident());
            }
            let next_path_token = self.expect_any(Token::Identifier(String::new()))?;
            let next_path = match next_path_token.tok {
                Token::Identifier(id) => id,
                _ => {
                    return Err(Error { kind: ErrorKind::Unknown, span: next_path_token.sp });
                },
            };
            parts.push(SpannedString { span: next_path_token.sp, ident: next_path });
            proof {
                got = got.push(ident_name(p1.cur));
                self.reader.lemma_remaining();
            }
        }
        Ok(Path { parts: parts, span: Span::concat(ident_token.sp, self.last_sp.duplicate()) })
    }

    fn parse_expression_binop(
        &mut self,
        start_sp: Span,
        binop: BinaryOp,
        lhs: Expression,
        lhs_m: Ghost<ExprM>,
    ) -> (r: Result<Expression, Error>)
        requires
            expr_wf(lhs),
            expr_is(lhs, lhs_m@),
            start_sp == lhs.span,
            old(self).wf(),
        ensures
            final(self).wf(),
            final(self).text() == old(self).text(),
            final(self).file() == old(self).file(),
            final(self).fuel() <= old(self).fuel(),
            r matches Err(e) ==> !(e.kind is Unknown),
            r matches Ok(e) ==> expr_wf(e),
            r matches Ok(e) ==> e.span == Span::joined(start_sp, final(self).last_sp),
            expr_result(r, g_binop(old(self).text(), old(self).ps(), binop, lhs_m@), final(self).ps(), old(self).file()),
        decreases old(self).fuel(), 4int,
    {
        proof {
            self.lemma_fuel();
        }
        let rhs = self.parse_expression_(None, Self::precedence_for_op(Op::Binary(binop)), Ghost(None))?;
        Ok(
            Expression {
                expr: Expression_::BinaryOp(binop, Box::new(lhs), Box::new(rhs)),
                span: Span::concat(start_sp, self.last_sp.duplicate()),
            },
        )
    }

    fn parse_expression_unop(&mut self, start_sp: Span, unop: UnaryOp) -> (r: Result<Expression, Error>)
        requires
            old(self).wf(),
        ensures
            final(self).wf(),
            final(self).text() == old(self).text(),
            final(self).file() == old(self).file(),
            final(self).fuel() <= old(self).fuel(),
            r matches Err(e) ==> !(e.kind is Unknown),
            r matches Ok(e) ==> expr_wf(e),
            r matches Ok(e) ==> e.span == Span::joined(start_sp, final(self).last_sp),
            expr_result(r, g_unop(old(self).text(), old(self).ps(), unop, span_m(start_sp)), final(self).ps(), old(self).file()),
        decreases old(self).fuel(), 4int,
    {
        proof {
            self.lemma_fuel();
        }
        let operand = self.parse_expression_(None, Self::precedence_for_op(Op::Unary(unop)), Ghost(None))?;
        Ok(
            Expression {
                expr: Expression_::UnaryOp(unop, Box::new(operand)),
                span: Span::concat(start_sp, self.last_sp.duplicate()),
            },
        )
    }

    /// After an item of a list closed by `close`: a comma, which may be left
    /// out before `close`.
    fn parse_comma(&mut self, close: Symbol) -> (r: Result<(), Error>)
        requires
            old(self).wf(),
        ensures
            final(self).wf(),
            final(self).text() == old(self).text(),
            final(self).file() == old(self).file(),
            final(self).fuel() <= old(self).fuel(),
            r matches Err(e) ==> !(e.kind is Unknown),
            match g_comma(old(self).text(), old(self).ps(), close) {
                Ok(q) => r is Ok && final(self).ps() == q,
                Err(pe) => r matches Err(e) && err_is(e, pe, old(self).file()),
            },
    {
        if is_symbol(&self.current_token.tok, close) {
            self.accept(Token::Symbol(Symbol::Comma))?;
        } else {
            self.expect(Token::Symbol(Symbol::Comma))?;
        }
        Ok(())
    }

    /// The items of an array literal; `[` is taken. A comma separates items
    /// and may follow the last one.
    fn parse_expression_array(&mut self, start_sp: Span) -> (r: Result<Expression, Error>)
        requires
            old(self).wf(),
        ensures
            final(self).wf(),
            final(self).text() == old(self).text(),
            final(self).file() == old(self).file(),
            final(self).fuel() <= old(self).fuel(),
            r matches Err(e) ==> !(e.kind is Unknown),
            r matches Ok(e) ==> expr_wf(e),
            r matches Ok(e) ==> e.span == Span::joined(start_sp, final(self).last_sp),
            expr_result(r, g_array_items(old(self).text(), old(self).ps(), Seq::empty(), span_m(start_sp)), final(self).ps(), old(self).file()),
        decreases old(self).fuel(), 5int,
    {
        let ghost goal = g_array_items(self.text(), self.ps(), Seq::empty(), span_m(start_sp));
        let ghost mut acc: Seq<ExprM> = Seq::empty();
        let mut items: Vec<Box<Expression>> = Vec::new();
        proof {
            self.lemma_fuel();
        }
        while self.accept(Token::Symbol(Symbol::RightBracket))?.is_none()
            invariant
                self.wf(),
                self.text() == old(self).text(),
                self.file() == old(self).file(),
                self.fuel() <= old(self).fuel(),
                valid(self.text(), self.ps()),
                goal == g_array_items(old(self).text(), old(self).ps(), Seq::empty(), span_m(start_sp)),
                goal == g_array_items(self.text(), self.ps(), acc, span_m(start_sp)),
                items@.len() == acc.len(),
                forall|i: int| 0 <= i < items@.len() ==> expr_wf(#[trigger] *items@[i]),
                forall|i: int| 0 <= i < items@.len() ==> expr_is(#[trigger] *items@[i], acc[i]),
            decreases self.fuel(),
        {
            let ghost ps0 = self.ps();
            let ghost gi = g_expr(self.text(), self.ps());
            let item = self.parse_expression()?;
            self.parse_comma(Symbol::RightBracket)?;
            proof {
                self.lemma_fuel();
                acc = acc.push(gi->Ok_0.0);
            }
            items.push(Box::new(item));
        }
        Ok(
            Expression {
                expr: Expression_::Array(items),
                span: Span::concat(start_sp, self.last_sp.duplicate()),
            },
        )
    }

    /// The entries of a map literal; `{` is taken. A later entry with a key of
    /// the same structure replaces the value of an earlier one.
    fn parse_expression_map(&mut self, start_sp: Span) -> (r: Result<Expression, Error>)
        requires
            old(self).wf(),
        ensures
            final(self).wf(),
            final(self).text() == old(self).text(),
            final(self).file() == old(self).file(),
            final(self).fuel() <= old(self).fuel(),
            r matches Err(e) ==> !(e.kind is Unknown),
            r matches Ok(e) ==> expr_wf(e),
            r matches Ok(e) ==> e.span == Span::joined(start_sp, final(self).last_sp) && (
            e.expr matches Expression_::MapLiteral(m) && m.keys_distinct()),
            expr_result(r, g_map_items(old(self).text(), old(self).ps(), Seq::empty(), span_m(start_sp)), final(self).ps(), old(self).file()),
        decreases old(self).fuel(), 5int,
    {
        let ghost goal = g_map_items(self.text(), self.ps(), Seq::empty(), span_m(start_sp));
        let ghost mut acc: Seq<(ExprM, ExprM)> = Seq::empty();
        let mut items = MapLiteral::new();
        proof {
            self.lemma_fuel();
        }
        while self.accept(Token::Symbol(Symbol::RightBrace))?.is_none()
            invariant
                self.wf(),
                self.text() == old(self).text(),
                self.file() == old(self).file(),
                self.fuel() <= old(self).fuel(),
                valid(self.text(), self.ps()),
                goal == g_map_items(old(self).text(), old(self).ps(), Seq::empty(), span_m(start_sp)),
                goal == g_map_items(self.text(), self.ps(), acc, span_m(start_sp)),
                items.keys_distinct(),
                items.entries_wf(),
                entries_are(items, acc),
            decreases self.fuel(),
        {
            let ghost gk = g_expr(self.text(), self.ps());
            let key = self.parse_expression()?;
            self.expect(Token::Symbol(Symbol::Colon))?;
            proof {
                self.lemma_fuel();
            }
            let ghost gv = g_expr(self.text(), self.ps());
            let value = self.parse_expression()?;
            let ghost before = items;
            let ghost key_v = key;
            let ghost value_v = value;
            items.insert(key, value);
            proof {
                lemma_insert_m(before, items, acc, key_v, value_v, gk->Ok_0.0, gv->Ok_0.0);
            }
            self.parse_comma(Symbol::RightBrace)?;
            proof {
                self.lemma_fuel();
                acc = insert_m(acc, gk->Ok_0.0, gv->Ok_0.0);
            }
        }
        Ok(
            Expression {
                expr: Expression_::MapLiteral(items),
                span: Span::concat(start_sp, self.last_sp.duplicate()),
            },
        )
    }

    /// A struct initializer after its keyword: a path, then `{ name: value, ... }`.
    fn parse_expression_struct_init(&mut self, start_sp: Span) -> (r: Result<Expression, Error>)
        requires
            old(self).wf(),
        ensures
            r matches Err(e) ==> !(e.kind is Unknown),
            r matches Ok(e) ==> expr_wf(e),
            final(self).wf(),
            final(self).text() == old(self).text(),
            final(self).file() == old(self).file(),
            final(self).fuel() <= old(self).fuel(),
            r matches Ok(e) ==> e.span == Span::joined(start_sp, final(self).last_sp) && (
            e.expr matches Expression_::StructInit(p, _) && p.parts@.len() >= 1),
        decreases old(self).fuel(), 5int,
    {
        let path = self.parse_path(None)?;
        self.expect(Token::Symbol(Symbol::LeftBrace))?;
        let mut fields: Vec<StructInitFieldData> = Vec::new();
        while self.accept(Token::Symbol(Symbol::RightBrace))?.is_none()
            invariant
                self.wf(),
                self.text() == old(self).text(),
                self.file() == old(self).file(),
                self.fuel() < old(self).fuel(),
                path_wf(path),
                forall|i: int|
                    0 <= i < fields@.len() ==> expr_wf(*(#[trigger] fields@[i]).value) && same_start(
                        fields@[i].span,
                        fields@[i].name.span,
                    ),
            decreases self.fuel(),
        {
            let field_name_token = self.expect_any(Token::Identifier(String::new()))?;
            let field_name = match field_name_token.tok {
                Token::Identifier(s) => s,
                _ => {
                    return Err(Error { kind: ErrorKind::Unknown, span: field_name_token.sp });
                },
            };
            self.expect(Token::Symbol(Symbol::Colon))?;
            let field_value = self.parse_expression()?;
            fields.push(
                StructInitFieldData {
                    span: Span::concat(field_name_token.sp.duplicate(), self.last_sp.duplicate()),
                    name: SpannedString { span: field_name_token.sp, ident: field_name },
                    value: Box::new(field_value),
                },
            );
            if is_symbol(&self.current_token.tok, Symbol::RightBrace) {
                self.accept(Token::Symbol(Symbol::Comma))?;
            } else {
                self.expect(Token::Symbol(Symbol::Comma))?;
            }
        }
        Ok(
            Expression {
                span: Span::concat(start_sp, self.last_sp.duplicate()),
                expr: Expression_::StructInit(path, fields),
            },
        )
    }

    fn parse_expression_literal(stoken: SToken) -> (r: Expression)
        requires
            stoken.tok is StringLiteral || stoken.tok is IntegerLiteral || stoken.tok is BoolLiteral
                || stoken.tok is CharLiteral,
        ensures
            r.span == stoken.sp,
            literal_of(r.expr, stoken.tok@),
            expr_wf(r),
            expr_is(r, literal_m(stoken.tok@, span_m(stoken.sp))),
    {
        let expr = match stoken.tok {
            Token::StringLiteral(s) => Expression_::StringLiteral(s),
            Token::IntegerLiteral(i) => Expression_::IntegerLiteral(i),
            Token::BoolLiteral(b) => Expression_::BoolLiteral(b),
            Token::CharLiteral(c) => Expression_::CharLiteral(c),
            _ => Expression_::BoolLiteral(false),
        };
        Expression { expr: expr, span: stoken.sp }
    }

    /// The arguments of a call; `(` is taken.
    fn parse_expression_func_call(
        &mut self,
        start_sp: Span,
        func_expr: Expression,
        func_m: Ghost<ExprM>,
    ) -> (r: Result<Expression, Error>)
        requires
            expr_wf(func_expr),
            expr_is(func_expr, func_m@),
            start_sp == func_expr.span,
            old(self).wf(),
        ensures
            final(self).wf(),
            final(self).text() == old(self).text(),
            final(self).file() == old(self).file(),
            final(self).fuel() <= old(self).fuel(),
            r matches Err(e) ==> !(e.kind is Unknown),
            r matches Ok(e) ==> expr_wf(e),
            r matches Ok(e) ==> e.span == Span::joined(start_sp, final(self).last_sp),
            expr_result(r, g_call_args(old(self).text(), old(self).ps(), func_m@, Seq::empty()), final(self).ps(), old(self).file()),
        decreases old(self).fuel(), 5int,
    {
        let ghost goal = g_call_args(self.text(), self.ps(), func_m@, Seq::empty());
        let ghost mut acc: Seq<ExprM> = Seq::empty();
        let mut args: Vec<Box<Expression>> = Vec::new();
        proof {
            self.lemma_fuel();
        }
        while self.accept(Token::Symbol(Symbol::RightParenthesis))?.is_none()
            invariant
                self.wf(),
                self.text() == old(self).text(),
                self.file() == old(self).file(),
                self.fuel() <= old(self).fuel(),
                valid(self.text(), self.ps()),
                goal == g_call_args(old(self).text(), old(self).ps(), func_m@, Seq::empty()),
                goal == g_call_args(self.text(), self.ps(), func_m@, acc),
                args@.len() == acc.len(),
                forall|i: int| 0 <= i < args@.len() ==> expr_wf(#[trigger] *args@[i]),
                forall|i: int| 0 <= i < args@.len() ==> expr_is(#[trigger] *args@[i], acc[i]),
            decreases self.fuel(),
        {
            let ghost gi = g_expr(self.text(), self.ps());
            let arg = self.parse_expression()?;
            self.parse_comma(Symbol::RightParenthesis)?;
            proof {
                self.lemma_fuel();
                acc = acc.push(gi->Ok_0.0);
            }
            args.push(Box::new(arg));
        }
        Ok(
            Expression {
                span: Span::concat(start_sp, self.last_sp.duplicate()),
                expr: Expression_::FuncCall(Box::new(func_expr), args),
            },
        )
    }

    /// A field access; `.` is taken and a name must follow.
    fn parse_expression_field(
        &mut self,
        start_sp: Span,
        struct_expr: Expression,
        struct_m: Ghost<ExprM>,
    ) -> (r: Result<Expression, Error>)
        requires
            expr_wf(struct_expr),
            expr_is(struct_expr, struct_m@),
            start_sp == struct_expr.span,
            old(self).wf(),
        ensures
            final(self).wf(),
            final(self).text() == old(self).text(),
            final(self).file() == old(self).file(),
            final(self).fuel() <= old(self).fuel(),
            r matches Err(e) ==> !(e.kind is Unknown),
            r matches Ok(e) ==> expr_wf(e),
            r matches Ok(e) ==> e.span == Span::joined(start_sp, old(self).current_token.sp),
            expr_result(r, g_field(old(self).text(), old(self).ps(), struct_m@), final(self).ps(), old(self).file()),
    {
        let field_token = self.expect_any(Token::Identifier(String::new()))?;
        let field = match &field_token.tok {
            Token::Identifier(i) => i.clone(),
            _ => {
                return Err(Error { kind: ErrorKind::Unknown, span: field_token.sp });
            },
        };
        Ok(
            Expression {
                span: Span::concat(start_sp, field_token.sp.duplicate()),
                expr: Expression_::Field(
                    Box::new(struct_expr),
                    SpannedString { span: field_token.sp, ident: field },
                ),
            },
        )
    }

    /// An index; `[` is taken. `[]` leaves the index out.
    fn parse_expression_index(
        &mut self,
        start_sp: Span,
        indexable_expr: Expression,
        indexable_m: Ghost<ExprM>,
    ) -> (r: Result<Expression, Error>)
        requires
            expr_wf(indexable_expr),
            expr_is(indexable_expr, indexable_m@),
            start_sp == indexable_expr.span,
            old(self).wf(),
        ensures
            final(self).wf(),
            final(self).text() == old(self).text(),
            final(self).file() == old(self).file(),
            final(self).fuel() <= old(self).fuel(),
            r matches Err(e) ==> !(e.kind is Unknown),
            r matches Ok(e) ==> expr_wf(e),
            r matches Ok(e) ==> e.span == Span::joined(start_sp, final(self).last_sp),
            expr_result(r, g_index(old(self).text(), old(self).ps(), indexable_m@), final(self).ps(), old(self).file()),
        decreases old(self).fuel(), 5int,
    {
        proof {
            self.lemma_fuel();
        }
        let index = if self.accept(Token::Symbol(Symbol::RightBracket))?.is_some() {
            None
        } else {
            let expr = self.parse_expression()?;
            self.expect(Token::Symbol(Symbol::RightBracket))?;
            Some(Box::new(expr))
        };
        Ok(
            Expression {
                expr: Expression_::Index(Box::new(indexable_expr), index),
                span: Span::concat(start_sp, self.last_sp.duplicate()),
            },
        )
    }

    fn parse_expression_variable(&mut self, stoken: SToken) -> (r: Result<Expression, Error>)
        requires
            old(self).wf(),
            stoken.tok is Identifier,
        ensures
            final(self).wf(),
            final(self).text() == old(self).text(),
            final(self).file() == old(self).file(),
            final(self).fuel() <= old(self).fuel(),
            r matches Err(e) ==> !(e.kind is Unknown),
            r matches Ok(e) ==> expr_wf(e),
            r matches Ok(e) ==> e.span == Span::joined(stoken.sp, final(self).last_sp),
            match g_path_tail(old(self).text(), old(self).ps(), seq![ident_name(stoken.tok@)]) {
                Ok((n, q)) => r matches Ok(e) && expr_is(e, ExprM::Var(n, join_m(span_m(stoken.sp), q.last))) && final(self).ps() == q,
                Err(pe) => r matches Err(e) && err_is(e, pe, old(self).file()),
            },
    {
        let path = self.parse_path(Some(stoken))?;
        Ok(Expression { span: path.span.duplicate(), expr: Expression_::Variable(path) })
    }

    /// An expression, binary operators of any precedence included.
    fn parse_expression(&mut self) -> (r: Result<Expression, Error>)
        requires
            old(self).wf(),
        ensures
            final(self).wf(),
            final(self).text() == old(self).text(),
            final(self).file() == old(self).file(),
            final(self).fuel() <= old(self).fuel(),
            r matches Err(e) ==> !(e.kind is Unknown),
            r matches Ok(e) ==> expr_wf(e),
            r is Ok ==> final(self).fuel() < old(self).fuel(),
            !starts_expression(old(self).current_token.tok@) ==> r == Err::<Expression, Error>(
                Error {
                    kind: ErrorKind::UnexpectedToken(old(self).current_token.tok),
                    span: old(self).current_token.sp,
                },
            ),
            expr_result(r, g_expr(old(self).text(), old(self).ps()), final(self).ps(), old(self).file()),
        decreases old(self).fuel(), 4int,
    {
        proof {
            self.lemma_fuel();
        }
        self.parse_expression_(None, 0, Ghost(None))
    }

    /// Precedence climbing. Without `prev_expr`, reads a primary term; with
    /// it, folds one postfix form or binary operator into it; the right
    /// operand of a binary operator is read at that operator's precedence.
    /// Then goes on, at the same `minimum_precedence`, with binary operators
    /// that bind tighter than it and with postfix forms, unless a line break
    /// was just taken.
    fn parse_expression_(
        &mut self,
        prev_expr: Option<Expression>,
        minimum_precedence: u8,
        prev_m: Ghost<Option<ExprM>>,
    ) -> (r: Result<Expression, Error>)
        requires
            old(self).wf(),
            opt_expr_wf(prev_expr),
            match prev_expr {
                Some(e) => prev_m@ matches Some(m) && expr_is(e, m),
                None => prev_m@ is None,
            },
        ensures
            final(self).wf(),
            final(self).text() == old(self).text(),
            final(self).file() == old(self).file(),
            final(self).fuel() <= old(self).fuel(),
            r matches Err(e) ==> !(e.kind is Unknown),
            r matches Ok(e) ==> expr_wf(e),
            prev_expr is None && r is Ok ==> final(self).fuel() < old(self).fuel(),
            prev_expr is None && !starts_expression(old(self).current_token.tok@) ==> r == Err::<
                Expression,
                Error,
            >(
                Error {
                    kind: ErrorKind::UnexpectedToken(old(self).current_token.tok),
                    span: old(self).current_token.sp,
                },
            ),
            expr_result(r, g_expr_(old(self).text(), old(self).ps(), prev_m@, minimum_precedence), final(self).ps(), old(self).file()),
        decreases old(self).fuel(), 3int,
    {
        proof {
            self.lemma_fuel();
        }
        let ghost ps0 = self.ps();
        let ghost mut m: ExprM = ExprM::Bool(false, old(self).ps().cur_sp);
        let new_expr = match prev_expr {
            Some(expr) => {
                let ghost gf = g_fold(self.text(), self.ps(), prev_m@->0);
                let (folded, progressed) = self.parse_expression_fold(expr, Ghost(prev_m@->0))?;
                proof {
                    m = gf->Ok_0.0;
                }
                if !progressed {
                    return Ok(folded);
                }
                folded
            },
            None => {
                let ghost gp = g_primary(self.text(), self.ps());
                let e = self.parse_expression_primary()?;
                proof {
                    m = gp->Ok_0.0;
                }
                e
            },
        };
        proof {
            self.lemma_fuel();
        }
        if self.just_skept_newline {
            Ok(new_expr)
        } else {
            match Self::binop_for_token(&self.current_token) {
                Some(binop) => {
                    if Self::precedence_for_op(Op::Binary(binop)) > minimum_precedence {
                        self.parse_expression_(Some(new_expr), minimum_precedence, Ghost(Some(m)))
                    } else {
                        Ok(new_expr)
                    }
                },
                None => {
                    if is_symbol(&self.current_token.tok, Symbol::LeftParenthesis) || is_symbol(
                        &self.current_token.tok,
                        Symbol::LeftBracket,
                    ) || is_symbol(&self.current_token.tok, Symbol::Dot) {
                        self.parse_expression_(Some(new_expr), minimum_precedence, Ghost(Some(m)))
                    } else {
                        Ok(new_expr)
                    }
                },
            }
        }
    }

    /// Folds the binary operator or postfix form at the lookahead into `expr`;
    /// gives `expr` back unchanged, with `false`, when there is none.
    fn parse_expression_fold(&mut self, expr: Expression, expr_m: Ghost<ExprM>) -> (r: Result<
        (Expression, bool),
        Error,
    >)
        requires
            old(self).wf(),
            expr_wf(expr),
            expr_is(expr, expr_m@),
        ensures
            final(self).wf(),
            final(self).text() == old(self).text(),
            final(self).file() == old(self).file(),
            final(self).fuel() <= old(self).fuel(),
            r matches Err(e) ==> !(e.kind is Unknown),
            r matches Ok((e, _)) ==> expr_wf(e),
            r matches Ok((e, progressed)) ==> (progressed ==> final(self).fuel() < old(self).fuel())
                && (!progressed ==> e == expr && *final(self) == *old(self)),
            match g_fold(old(self).text(), old(self).ps(), expr_m@) {
                Ok((m, b, q)) => r matches Ok((e, b2)) && b2 == b && expr_is(e, m) && final(self).ps() == q,
                Err(pe) => r matches Err(e) && err_is(e, pe, old(self).file()),
            },
        decreases old(self).fuel(), 2int,
    {
        proof {
            self.lemma_fuel();
        }
        let sp = expr.span.duplicate();
        let e = match Self::binop_for_token(&self.current_token) {
            Some(binop) => {
                self.accept(self.current_token.tok.duplicate())?;
                self.parse_expression_binop(sp, binop, expr, expr_m)?
            },
            None => if self.accept(Token::Symbol(Symbol::LeftParenthesis))?.is_some() {
                self.parse_expression_func_call(sp, expr, expr_m)?
            } else if self.accept(Token::Symbol(Symbol::Dot))?.is_some() {
                self.parse_expression_field(sp, expr, expr_m)?
            } else if self.accept(Token::Symbol(Symbol::LeftBracket))?.is_some() {
                self.parse_expression_index(sp, expr, expr_m)?
            } else {
                return Ok((expr, false));
            },
        };
        Ok((e, true))
    }

    /// A primary term: a literal, a parenthesized expression, a prefix
    /// operator and its operand, an array or map literal, a struct
    /// initializer, or a variable path.
    fn parse_expression_primary(&mut self) -> (r: Result<Expression, Error>)
        requires
            old(self).wf(),
        ensures
            final(self).wf(),
            final(self).text() == old(self).text(),
            final(self).file() == old(self).file(),
            final(self).fuel() <= old(self).fuel(),
            r matches Err(e) ==> !(e.kind is Unknown),
            r matches Ok(e) ==> expr_wf(e),
            r is Ok ==> final(self).fuel() < old(self).fuel(),
            !starts_expression(old(self).current_token.tok@) ==> r == Err::<Expression, Error>(
                Error {
                    kind: ErrorKind::UnexpectedToken(old(self).current_token.tok),
                    span: old(self).current_token.sp,
                },
            ),
            expr_result(r, g_primary(old(self).text(), old(self).ps()), final(self).ps(), old(self).file()),
        decreases old(self).fuel(), 2int,
    {
        proof {
            self.lemma_fuel();
        }
        if self.accept(Token::Symbol(Symbol::LeftParenthesis))?.is_some() {
            let e = self.parse_expression()?;
            self.expect(Token::Symbol(Symbol::RightParenthesis))?;
            Ok(e)
        } else if let Some(h) = self.accept(Token::Symbol(Symbol::Hash))? {
            self.parse_expression_unop(h.sp, UnaryOp::Count)
        } else if let Some(a) = self.accept(Token::Symbol(Symbol::Amp))? {
            self.parse_expression_unop(a.sp, UnaryOp::Reference)
        } else if let Some(a) = self.accept(Token::Symbol(Symbol::At))? {
            self.parse_expression_unop(a.sp, UnaryOp::MutReference)
        } else if let Some(s) = self.accept(Token::Symbol(Symbol::Star))? {
            self.parse_expression_unop(s.sp, UnaryOp::Dereference)
        } else if let Some(lb) = self.accept(Token::Symbol(Symbol::LeftBracket))? {
            self.parse_expression_array(lb.sp)
        } else if let Some(lb) = self.accept(Token::Symbol(Symbol::LeftBrace))? {
            self.parse_expression_map(lb.sp)
        } else if let Some(sl) = self.accept_any(Token::StringLiteral(String::new()))? {
            Ok(Self::parse_expression_literal(sl))
        } else if let Some(il) = self.accept_any(Token::IntegerLiteral(0))? {
            Ok(Self::parse_expression_literal(il))
        } else if let Some(bl) = self.accept_any(Token::BoolLiteral(false))? {
            Ok(Self::parse_expression_literal(bl))
        } else if let Some(cl) = self.accept_any(Token::CharLiteral('\0'))? {
            Ok(Self::parse_expression_literal(cl))
        } else if let Some(ident_token) = self.accept_any(Token::Identifier(String::new()))? {
            self.parse_expression_variable(ident_token)
        } else if let Some(n) = self.accept(Token::Keyword(Keyword::New))? {
            self.parse_expression_struct_init(n.sp)
        } else {
            Err(
                Error {
                    kind: ErrorKind::UnexpectedToken(self.current_token.tok.duplicate()),
                    span: self.current_token.sp.duplicate(),
                },
            )
        }
    }

    /// Reads a program: top-level statements up to the end of the text.
    /// The result is the grammar's, `grammar::g_parse`: the tree it describes
    /// (spans aside) when the text scans and forms a program, else its first
    /// error with kind and span. A tree is also well formed: see `ast_wf`.
    pub fn parse(&mut self) -> (r: Result<Ast, Error>)
        requires
            old(self).wf(),
        ensures
            r matches Err(e) ==> !(e.kind is Unknown),
            r matches Ok(ast) ==> ast_wf(ast),
            final(self).wf(),
            final(self).text() == old(self).text(),
            final(self).file() == old(self).file(),
            r is Ok ==> final(self).current().tok is EOF,
            parse_outcome(next_read(old(self).reader()), r),
            match g_parse(old(self).text(), old(self).ps()) {
                Ok(prog) => r matches Ok(ast) && ast_is(ast, prog),
                Err(pe) => r matches Err(e) && err_is(e, pe, old(self).file()),
            },
    {
        let ghost first = next_read(self.reader);
        self.next_token()?;
        let ghost goal = g_program(self.text(), self.ps(), Seq::empty());
        let ghost mut acc: Seq<TopM> = Seq::empty();
        proof {
            self.lemma_fuel();
        }
        let mut ast = Ast::new();
        while !matches!(self.current_token.tok, Token::EOF)
            invariant
                self.wf(),
                self.text() == old(self).text(),
                self.file() == old(self).file(),
                ast_wf(ast),
                first is Ok,
                first == next_read(old(self).reader()),
                ast.statements@.len() == 0 ==> first == Ok::<TokenView, LexErrorKind>(self.current_token.tok@),
                ast.statements@.len() > 0 ==> (first matches Ok(t) && introduced_by(ast.statements@[0], t)),
                valid(self.text(), self.ps()),
                g_parse(old(self).text(), old(self).ps()) == goal,
                goal == g_program(self.text(), self.ps(), acc),
                ast_is(ast, acc),
            decreases self.fuel(),
        {
            let ghost gs = g_statement(self.text(), self.ps());
            let statement = self.parse_statement()?;
            proof {
                self.lemma_fuel();
                acc = acc.push(gs->Ok_0.0);
            }
            ast.statements.push(statement);
        }
        Ok(ast)
    }

    /// A top-level statement, chosen by its leading keyword.
    fn parse_statement(&mut self) -> (r: Result<Statement, Error>)
        requires
            old(self).wf(),
        ensures
            match g_statement(old(self).text(), old(self).ps()) {
                Ok((m, q)) => r matches Ok(d) && top_is(d, m) && final(self).ps() == q,
                Err(pe) => r matches Err(e) && err_is(e, pe, old(self).file()),
            },
            r matches Err(e) ==> !(e.kind is Unknown),
            r matches Ok(st) ==> stmt_wf(st),
            final(self).wf(),
            final(self).text() == old(self).text(),
            final(self).file() == old(self).file(),
            r is Ok ==> final(self).fuel() < old(self).fuel(),
            !starts_statement(old(self).current_token.tok@) ==> r == Err::<Statement, Error>(
                Error {
                    kind: ErrorKind::UnexpectedToken(old(self).current_token.tok),
                    span: old(self).current_token.sp,
                },
            ),
            r matches Ok(st) ==> introduced_by(st, old(self).current_token.tok@),
    {
        if let Some(t) = self.accept(Token::Keyword(Keyword::Import))? {
            Ok(Statement::Import(self.parse_import(t.sp)?))
        } else if let Some(t) = self.accept(Token::Keyword(Keyword::Package))? {
            Ok(Statement::Package(self.parse_package(t.sp)?))
        } else if let Some(t) = self.accept(Token::Keyword(Keyword::Func))? {
            Ok(Statement::FuncDecl(self.parse_func_decl(t.sp)?))
        } else if let Some(t) = self.accept(Token::Keyword(Keyword::Struct))? {
            Ok(Statement::StructDecl(self.parse_struct_decl(t.sp)?))
        } else {
            Err(
                Error {
                    kind: ErrorKind::UnexpectedToken(self.current_token.tok.duplicate()),
                    span: self.current_token.sp.duplicate(),
                },
            )
        }
    }

    /// `package name`; the keyword is taken.
    fn parse_package(&mut self, start_sp: Span) -> (r: Result<Box<PackageData>, Error>)
        requires
            old(self).wf(),
        ensures
            match g_package(old(self).text(), old(self).ps(), span_m(start_sp)) {
                Ok((m, q)) => r matches Ok(d) && top_is(Statement::Package(d), m) && final(self).ps() == q,
                Err(pe) => r matches Err(e) && err_is(e, pe, old(self).file()),
            },
            r matches Err(e) ==> !(e.kind is Unknown),
            final(self).wf(),
            final(self).text() == old(self).text(),
            final(self).file() == old(self).file(),
            final(self).fuel() <= old(self).fuel(),
            r matches Ok(d) ==> d.span == Span::joined(start_sp, old(self).current_token.sp) && names(
                old(self).current_token.tok@,
                d.name@,
            ),
            !(old(self).current_token.tok is Identifier) ==> r is Err,
    {
        let name_token = self.expect_any(Token::Identifier(String::new()))?;
        match name_token.tok {
            Token::Identifier(n) => Ok(
                Box::new(PackageData { span: Span::concat(start_sp, name_token.sp), name: n }),
            ),
            _ => Err(Error { kind: ErrorKind::Unknown, span: name_token.sp }),
        }
    }

    /// `import "path"`; the keyword is taken.
    fn parse_import(&mut self, start_sp: Span) -> (r: Result<Box<ImportData>, Error>)
        requires
            old(self).wf(),
        ensures
            match g_import(old(self).text(), old(self).ps(), span_m(start_sp)) {
                Ok((m, q)) => r matches Ok(d) && top_is(Statement::Import(d), m) && final(self).ps() == q,
                Err(pe) => r matches Err(e) && err_is(e, pe, old(self).file()),
            },
            r matches Err(e) ==> !(e.kind is Unknown),
            final(self).wf(),
            final(self).text() == old(self).text(),
            final(self).file() == old(self).file(),
            final(self).fuel() <= old(self).fuel(),
            r matches Ok(d) ==> d.span == Span::joined(start_sp, old(self).current_token.sp)
                && old(self).current_token.tok@ == TokenView::StringLiteral(d.path@),
            !(old(self).current_token.tok is StringLiteral) ==> r is Err,
    {
        let path_token = self.expect_any(Token::StringLiteral(String::new()))?;
        match path_token.tok {
            Token::StringLiteral(p) => Ok(
                Box::new(ImportData { span: Span::concat(start_sp, path_token.sp), path: p }),
            ),
            _ => Err(Error { kind: ErrorKind::Unknown, span: path_token.sp }),
        }
    }

    /// `func name(params) -> type { body }`; the keyword is taken. Without
    /// an arrow the return type is `NoValue`.
    fn parse_func_decl(&mut self, start_sp: Span) -> (r: Result<Box<FuncDeclData>, Error>)
        requires
            old(self).wf(),
        ensures
            match g_func(old(self).text(), old(self).ps(), span_m(start_sp)) {
                Ok((m, q)) => r matches Ok(d) && top_is(Statement::FuncDecl(d), m) && final(self).ps() == q,
                Err(pe) => r matches Err(e) && err_is(e, pe, old(self).file()),
            },
            r matches Err(e) ==> !(e.kind is Unknown),
            r matches Ok(d) ==> stmt_wf(Statement::FuncDecl(d)),
            final(self).wf(),
            final(self).text() == old(self).text(),
            final(self).file() == old(self).file(),
            final(self).fuel() <= old(self).fuel(),
            r matches Ok(d) ==> d.span == Span::joined(start_sp, final(self).last_sp) && names(
                old(self).current_token.tok@,
                d.name@,
            ),
            !(old(self).current_token.tok is Identifier) ==> r is Err,
    {
        let name_token = self.expect_any(Token::Identifier(String::new()))?;
        let name = match name_token.tok {
            Token::Identifier(s) => s,
            _ => {
                return Err(Error { kind: ErrorKind::Unknown, span: name_token.sp });
            },
        };
        self.expect(Token::Symbol(Symbol::LeftParenthesis))?;
        let ghost goal = g_typed_names(self.text(), self.ps(), Symbol::RightParenthesis, Seq::empty());
        let ghost whole = g_func_tail(self.text(), name@, goal, span_m(start_sp));
        let ghost mut acc: Seq<(Seq<char>, TypeM, SpanM)> = Seq::empty();
        let mut params: Vec<Box<FuncDeclParamData>> = Vec::new();
        proof {
            self.lemma_fuel();
        }
        while self.accept(Token::Symbol(Symbol::RightParenthesis))?.is_none()
            invariant
                self.wf(),
                self.text() == old(self).text(),
                self.file() == old(self).file(),
                forall|i: int| 0 <= i < params@.len() ==> type_wf((#[trigger] params@[i]).param_type),
                self.fuel() <= old(self).fuel(),
                valid(self.text(), self.ps()),
                g_func(old(self).text(), old(self).ps(), span_m(start_sp)) == whole,
                whole == g_func_tail(self.text(), name@, goal, span_m(start_sp)),
                goal == g_typed_names(self.text(), self.ps(), Symbol::RightParenthesis, acc),
                params@.len() == acc.len(),
                forall|i: int|
                    0 <= i < acc.len() ==> (#[trigger] params@[i]).name@ == acc[i].0 && type_is(
                        params@[i].param_type,
                        acc[i].1,
                    ) && span_m(params@[i].span) == acc[i].2,
            decreases self.fuel(),
        {
            let ghost p0 = self.ps();
            proof {
                self.lemma_fuel();
            }
            let arg_name_token = self.expect_any(Token::Identifier(String::new()))?;
            let arg_name = match arg_name_token.tok {
                Token::Identifier(s) => s,
                _ => {
                    return Err(Error { kind: ErrorKind::Unknown, span: arg_name_token.sp });
                },
            };
            self.expect(Token::Symbol(Symbol::Colon))?;
            proof {
                self.lemma_fuel();
            }
            let ghost gt = g_type(self.text(), self.ps());
            let arg_type = self.parse_type()?;
            proof {
                acc = acc.push((ident_name(p0.cur), gt->Ok_0.0, join_m(p0.cur_sp, self.ps().last)));
            }
            params.push(
                Box::new(
                    FuncDeclParamData {
                        span: Span::concat(arg_name_token.sp, self.last_sp.duplicate()),
                        name: arg_name,
                        param_type: arg_type,
                        default_value: None,
                    },
                ),
            );
            proof {
                self.lemma_fuel();
            }
            self.parse_comma(Symbol::RightParenthesis)?;
            proof {
                self.lemma_fuel();
            }
        }
        proof {
            self.lemma_fuel();
        }
        let ghost mut rt_m = TypeM::NoValue;
        let return_type = if self.accept(Token::Symbol(Symbol::Return))?.is_some() {
            proof {
                self.lemma_fuel();
            }
            let ghost gt = g_type(self.text(), self.ps());
            let t = self.parse_type()?;
            proof {
                rt_m = gt->Ok_0.0;
            }
            t
        } else {
            Type::NoValue
        };
        proof {
            self.lemma_fuel();
        }
        self.expect(Token::Symbol(Symbol::LeftBrace))?;
        proof {
            self.lemma_fuel();
        }
        let statements = self.parse_block_body(&return_type, Ghost(rt_m))?;
        Ok(
            Box::new(
                FuncDeclData {
                    span: Span::concat(start_sp, self.last_sp.duplicate()),
                    name: name,
                    return_type: return_type,
                    parameters: params,
                    statements: statements,
                },
            ),
        )
    }

    /// `struct Name { field: type, ... }`; the keyword is taken. A comma
    /// separates fields and may follow the last one.
    fn parse_struct_decl(&mut self, start_sp: Span) -> (r: Result<Box<StructDeclData>, Error>)
        requires
            old(self).wf(),
        ensures
            match g_struct(old(self).text(), old(self).ps(), span_m(start_sp)) {
                Ok((m, q)) => r matches Ok(d) && top_is(Statement::StructDecl(d), m) && final(self).ps() == q,
                Err(pe) => r matches Err(e) && err_is(e, pe, old(self).file()),
            },
            r matches Err(e) ==> !(e.kind is Unknown),
            r matches Ok(d) ==> stmt_wf(Statement::StructDecl(d)),
            final(self).wf(),
            final(self).text() == old(self).text(),
            final(self).file() == old(self).file(),
            final(self).fuel() <= old(self).fuel(),
            r matches Ok(d) ==> d.span == Span::joined(start_sp, final(self).last_sp) && names(
                old(self).current_token.tok@,
                d.name@,
            ),
            !(old(self).current_token.tok is Identifier) ==> r is Err,
    {
        let name_token = self.expect_any(Token::Identifier(String::new()))?;
        let name = match name_token.tok {
            Token::Identifier(s) => s,
            _ => {
                return Err(Error { kind: ErrorKind::Unknown, span: name_token.sp });
            },
        };
        self.expect(Token::Symbol(Symbol::LeftBrace))?;
        let ghost goal = g_typed_names(self.text(), self.ps(), Symbol::RightBrace, Seq::empty());
        let ghost mut acc: Seq<(Seq<char>, TypeM, SpanM)> = Seq::empty();
        let mut fields: Vec<Box<StructFieldData>> = Vec::new();
        proof {
            self.lemma_fuel();
        }
        while self.accept(Token::Symbol(Symbol::RightBrace))?.is_none()
            invariant
                self.wf(),
                self.text() == old(self).text(),
                self.file() == old(self).file(),
                forall|i: int| 0 <= i < fields@.len() ==> type_wf((#[trigger] fields@[i]).field_type),
                self.fuel() <= old(self).fuel(),
                valid(self.text(), self.ps()),
                g_struct(old(self).text(), old(self).ps(), span_m(start_sp)) == match goal {
                    Err(x) => Err(x),
                    Ok((fs, q)) => Ok((TopM::Struct(name@, fs, join_m(span_m(start_sp), q.last)), q)),
                },
                goal == g_typed_names(self.text(), self.ps(), Symbol::RightBrace, acc),
                fields@.len() == acc.len(),
                forall|i: int|
                    0 <= i < acc.len() ==> (#[trigger] fields@[i]).name@ == acc[i].0 && type_is(
                        fields@[i].field_type,
                        acc[i].1,
                    ) && span_m(fields@[i].span) == acc[i].2,
            decreases self.fuel(),
        {
            let ghost p0 = self.ps();
            proof {
                self.lemma_fuel();
            }
            let field_name_token = self.expect_any(Token::Identifier(String::new()))?;
            let field_name = match field_name_token.tok {
                Token::Identifier(s) => s,
                _ => {
                    return Err(Error { kind: ErrorKind::Unknown, span: field_name_token.sp });
                },
            };
            self.expect(Token::Symbol(Symbol::Colon))?;
            proof {
                self.lemma_fuel();
            }
            let ghost gt = g_type(self.text(), self.ps());
            let field_type = self.parse_type()?;
            proof {
                acc = acc.push((ident_name(p0.cur), gt->Ok_0.0, join_m(p0.cur_sp, self.ps().last)));
            }
            fields.push(
                Box::new(
                    StructFieldData {
                        span: Span::concat(field_name_token.sp, self.last_sp.duplicate()),
                        name: field_name,
                        field_type: field_type,
                        default_value: None,
                    },
                ),
            );
            proof {
                self.lemma_fuel();
            }
            self.parse_comma(Symbol::RightBrace)?;
            proof {
                self.lemma_fuel();
            }
        }
        Ok(
            Box::new(
                StructDeclData {
                    span: Span::concat(start_sp, self.last_sp.duplicate()),
                    name: name,
                    fields: fields,
                },
            ),
        )
    }

    #[verifier::rlimit(60)]
    /// Block statements up to the closing `}`, which is taken; the opening
    /// `{` is taken already. Each statement ends at a line break or at the
    /// closing `}`; any other token after it is unexpected.
    fn parse_block_body(&mut self, return_type: &Type, ret: Ghost<TypeM>) -> (r: Result<Vec<BlockStatement>, Error>)
        requires
            old(self).wf(),
            type_is(*return_type, ret@),
        ensures
            match g_body(old(self).text(), old(self).ps(), ret@, Seq::empty()) {
                Ok((m, q)) => r matches Ok(b) && body_is(b@, m, ret@) && final(self).ps() == q,
                Err(pe) => r matches Err(e) && err_is(e, pe, old(self).file()),
            },
            r matches Err(e) ==> !(e.kind is Unknown),
            r matches Ok(b) ==> body_wf(b@, *return_type),
            final(self).wf(),
            final(self).text() == old(self).text(),
            final(self).file() == old(self).file(),
            final(self).fuel() <= old(self).fuel(),
            r is Ok ==> final(self).fuel() < old(self).fuel(),
        decreases old(self).fuel(), 1int,
    {
        let ghost goal = g_body(self.text(), self.ps(), ret@, Seq::empty());
        let ghost mut acc: Seq<StmtM> = Seq::empty();
        let mut statements: Vec<BlockStatement> = Vec::new();
        proof {
            self.lemma_fuel();
        }
        while self.accept(Token::Symbol(Symbol::RightBrace))?.is_none()
            invariant
                self.wf(),
                self.text() == old(self).text(),
                self.file() == old(self).file(),
                body_wf(statements@, *return_type),
                self.fuel() <= old(self).fuel(),
                valid(self.text(), self.ps()),
                goal == g_body(old(self).text(), old(self).ps(), ret@, Seq::empty()),
                goal == g_body(self.text(), self.ps(), ret@, acc),
                type_is(*return_type, ret@),
                body_is(statements@, acc, ret@),
            decreases self.fuel(),
        {
            let ghost gs = g_block_stmt(self.text(), self.ps(), ret@);
            let st = self.parse_block_statement(return_type, ret)?;
            proof {
                self.lemma_fuel();
                acc = acc.push(gs->Ok_0.0);
            }
            statements.push(st);
            if !self.just_skept_newline && !is_symbol(&self.current_token.tok, Symbol::RightBrace) {
                return Err(
                    Error {
                        kind: ErrorKind::UnexpectedToken(self.current_token.tok.duplicate()),
                        span: self.current_token.sp.duplicate(),
                    },
                );
            }
        }
        Ok(statements)
    }

    /// A statement inside a body, chosen by its leading keyword; otherwise
    /// an expression, which `=` turns into the target of an assignment.
    fn parse_block_statement(&mut self, return_type: &Type, ret: Ghost<TypeM>) -> (r: Result<BlockStatement, Error>)
        requires
            old(self).wf(),
            type_is(*return_type, ret@),
        ensures
            match g_block_stmt(old(self).text(), old(self).ps(), ret@) {
                Ok((m, q)) => r matches Ok(d) && stmt_is(d, m, ret@) && final(self).ps() == q,
                Err(pe) => r matches Err(e) && err_is(e, pe, old(self).file()),
            },
            r matches Err(e) ==> !(e.kind is Unknown),
            r matches Ok(st) ==> block_wf(st, *return_type),
            final(self).wf(),
            final(self).text() == old(self).text(),
            final(self).file() == old(self).file(),
            final(self).fuel() <= old(self).fuel(),
            r is Ok ==> final(self).fuel() < old(self).fuel(),
            r matches Ok(BlockStatement::Return(d)) ==> (d.value is Some <==> !(return_type is NoValue)),
            old(self).current_token.tok@ == TokenView::Keyword(Keyword::Var) && r is Ok ==> r->Ok_0 is VarDecl,
            old(self).current_token.tok@ == TokenView::Keyword(Keyword::If) && r is Ok ==> r->Ok_0 is If,
            old(self).current_token.tok@ == TokenView::Keyword(Keyword::While) && r is Ok ==> r->Ok_0 is While,
            old(self).current_token.tok@ == TokenView::Keyword(Keyword::For) && r is Ok ==> r->Ok_0 is ForIn,
            old(self).current_token.tok@ == TokenView::Keyword(Keyword::Return) && r is Ok ==> r->Ok_0 is Return,
        decreases old(self).fuel(), 0int,
    {
        proof {
            self.lemma_fuel();
        }
        if let Some(t) = self.accept(Token::Keyword(Keyword::Var))? {
            Ok(BlockStatement::VarDecl(self.parse_var_decl(t.sp)?))
        } else if let Some(t) = self.accept(Token::Keyword(Keyword::If))? {
            Ok(BlockStatement::If(self.parse_if(return_type, ret, t.sp)?))
        } else if let Some(t) = self.accept(Token::Keyword(Keyword::While))? {
            Ok(BlockStatement::While(self.parse_while(return_type, ret, t.sp)?))
        } else if let Some(t) = self.accept(Token::Keyword(Keyword::For))? {
            Ok(BlockStatement::ForIn(self.parse_forin(return_type, ret, t.sp)?))
        } else if let Some(t) = self.accept(Token::Keyword(Keyword::Return))? {
            Ok(BlockStatement::Return(self.parse_return(return_type, ret, t.sp)?))
        } else {
            let expr = self.parse_expression()?;
            if self.accept(Token::Symbol(Symbol::Equal))?.is_some() {
                let value = self.parse_expression()?;
                Ok(BlockStatement::VarAssignment(Box::new(expr), Box::new(value)))
            } else {
                Ok(BlockStatement::Expression(Box::new(expr)))
            }
        }
    }

    /// `for name in collection { body }`; the keyword is taken.
    fn parse_forin(&mut self, return_type: &Type, ret: Ghost<TypeM>, start_sp: Span) -> (r: Result<Box<ForInData>, Error>)
        requires
            old(self).wf(),
            type_is(*return_type, ret@),
        ensures
            match g_forin(old(self).text(), old(self).ps(), ret@, span_m(start_sp)) {
                Ok((m, q)) => r matches Ok(d) && stmt_is(BlockStatement::ForIn(d), m, ret@) && final(self).ps() == q,
                Err(pe) => r matches Err(e) && err_is(e, pe, old(self).file()),
            },
            r matches Err(e) ==> !(e.kind is Unknown),
            r matches Ok(d) ==> block_wf(BlockStatement::ForIn(d), *return_type),
            final(self).wf(),
            final(self).text() == old(self).text(),
            final(self).file() == old(self).file(),
            final(self).fuel() <= old(self).fuel(),
            r matches Ok(d) ==> d.span == Span::joined(start_sp, final(self).last_sp) && names(
                old(self).current_token.tok@,
                d.element_name@,
            ),
        decreases old(self).fuel(), 2int,
    {
        proof {
            self.lemma_fuel();
        }
        let element_token = self.expect_any(Token::Identifier(String::new()))?;
        let element_name = match element_token.tok {
            Token::Identifier(s) => s,
            _ => {
                return Err(Error { kind: ErrorKind::Unknown, span: element_token.sp });
            },
        };
        self.expect(Token::Keyword(Keyword::In))?;
        let collection = self.parse_expression()?;
        self.expect(Token::Symbol(Symbol::LeftBrace))?;
        let statements = self.parse_block_body(return_type, ret)?;
        Ok(
            Box::new(
                ForInData {
                    span: Span::concat(start_sp, self.last_sp.duplicate()),
                    element_name: element_name,
                    collection: collection,
                    statements: statements,
                },
            ),
        )
    }

    /// `return`, with a value exactly when the enclosing function declares a
    /// return type; the keyword is taken.
    fn parse_return(&mut self, return_type: &Type, ret: Ghost<TypeM>, start_sp: Span) -> (r: Result<Box<ReturnData>, Error>)
        requires
            old(self).wf(),
            type_is(*return_type, ret@),
        ensures
            match g_return(old(self).text(), old(self).ps(), ret@, span_m(start_sp)) {
                Ok((m, q)) => r matches Ok(d) && stmt_is(BlockStatement::Return(d), m, ret@) && final(self).ps() == q,
                Err(pe) => r matches Err(e) && err_is(e, pe, old(self).file()),
            },
            r matches Err(e) ==> !(e.kind is Unknown),
            r matches Ok(d) ==> block_wf(BlockStatement::Return(d), *return_type),
            final(self).wf(),
            final(self).text() == old(self).text(),
            final(self).file() == old(self).file(),
            final(self).fuel() <= old(self).fuel(),
            return_type is NoValue ==> *final(self) == *old(self) && r is Ok,
            r matches Ok(d) ==> d.span == Span::joined(start_sp, final(self).last_sp) && (d.value is Some
                <==> !(return_type is NoValue)) && same_type(*return_type, d.expected_type),
    {
        proof {
            self.lemma_fuel();
        }
        let value = match return_type {
            Type::NoValue => None,
            _ => Some(self.parse_expression()?),
        };
        let expected = return_type.duplicate();
        proof {
            lemma_same_type_is(*return_type, expected, ret@);
        }
        Ok(
            Box::new(
                ReturnData {
                    value: value,
                    span: Span::concat(start_sp, self.last_sp.duplicate()),
                    expected_type: expected,
                },
            ),
        )
    }

    /// `if condition { body }`, then an optional `else` followed by another
    /// `if` or by a body; the keyword is taken.
    fn parse_if(&mut self, return_type: &Type, ret: Ghost<TypeM>, start_sp: Span) -> (r: Result<Box<IfData>, Error>)
        requires
            old(self).wf(),
            type_is(*return_type, ret@),
        ensures
            match g_if(old(self).text(), old(self).ps(), ret@, span_m(start_sp)) {
                Ok((m, q)) => r matches Ok(d) && stmt_is(BlockStatement::If(d), m, ret@) && final(self).ps() == q,
                Err(pe) => r matches Err(e) && err_is(e, pe, old(self).file()),
            },
            r matches Err(e) ==> !(e.kind is Unknown),
            r matches Ok(d) ==> block_wf(BlockStatement::If(d), *return_type),
            final(self).wf(),
            final(self).text() == old(self).text(),
            final(self).file() == old(self).file(),
            final(self).fuel() <= old(self).fuel(),
            r matches Ok(d) ==> d.span == Span::joined(start_sp, final(self).last_sp),
        decreases old(self).fuel(), 3int,
    {
        let ghost entry = self.ps();
        proof {
            self.lemma_fuel();
        }
        let condition = self.parse_expression()?;
        self.expect(Token::Symbol(Symbol::LeftBrace))?;
        let if_statements = self.parse_block_body(return_type, ret)?;
        proof {
            self.lemma_fuel();
        }
        let else_statements_opt = self.parse_else(return_type, ret, Ghost(entry))?;
        Ok(
            Box::new(
                IfData {
                    span: Span::concat(start_sp, self.last_sp.duplicate()),
                    condition: condition,
                    if_statements: if_statements,
                    else_statements: else_statements_opt,
                },
            ),
        )
    }

    /// An optional `else`, then another `if` or a body.
    fn parse_else(&mut self, return_type: &Type, ret: Ghost<TypeM>, entry: Ghost<PState>) -> (r: Result<
        Option<Vec<BlockStatement>>,
        Error,
    >)
        requires
            old(self).wf(),
            type_is(*return_type, ret@),
            kept(old(self).text(), old(self).ps(), entry@),
            valid(old(self).text(), entry@),
        ensures
            final(self).wf(),
            final(self).text() == old(self).text(),
            final(self).file() == old(self).file(),
            final(self).fuel() <= old(self).fuel(),
            r matches Err(e) ==> !(e.kind is Unknown),
            r matches Ok(Some(es)) ==> body_wf(es@, *return_type),
            match g_else(old(self).text(), old(self).ps(), ret@, entry@) {
                Ok((m, q)) => r matches Ok(d) && final(self).ps() == q && match (d, m) {
                    (None, None) => true,
                    (Some(x), Some(y)) => body_is(x@, y, ret@),
                    _ => false,
                },
                Err(pe) => r matches Err(e) && err_is(e, pe, old(self).file()),
            },
        decreases old(self).fuel(), 2int,
    {
        proof {
            self.lemma_fuel();
        }
        if self.accept(Token::Keyword(Keyword::Else))?.is_some() {
            proof {
                self.lemma_fuel();
            }
            let mut else_statements: Vec<BlockStatement> = Vec::new();
            if let Some(t) = self.accept(Token::Keyword(Keyword::If))? {
                proof {
                    self.lemma_fuel();
                }
                else_statements.push(BlockStatement::If(self.parse_if(return_type, ret, t.sp)?));
            } else {
                self.expect(Token::Symbol(Symbol::LeftBrace))?;
                proof {
                    self.lemma_fuel();
                }
                else_statements = self.parse_block_body(return_type, ret)?;
            }
            Ok(Some(else_statements))
        } else {
            Ok(None)
        }
    }

    /// `while condition { body }`; the keyword is taken.
    fn parse_while(&mut self, return_type: &Type, ret: Ghost<TypeM>, start_sp: Span) -> (r: Result<Box<WhileData>, Error>)
        requires
            old(self).wf(),
            type_is(*return_type, ret@),
        ensures
            match g_while(old(self).text(), old(self).ps(), ret@, span_m(start_sp)) {
                Ok((m, q)) => r matches Ok(d) && stmt_is(BlockStatement::While(d), m, ret@) && final(self).ps() == q,
                Err(pe) => r matches Err(e) && err_is(e, pe, old(self).file()),
            },
            r matches Err(e) ==> !(e.kind is Unknown),
            r matches Ok(d) ==> block_wf(BlockStatement::While(d), *return_type),
            final(self).wf(),
            final(self).text() == old(self).text(),
            final(self).file() == old(self).file(),
            final(self).fuel() <= old(self).fuel(),
            r matches Ok(d) ==> d.span == Span::joined(start_sp, final(self).last_sp),
        decreases old(self).fuel(), 2int,
    {
        proof {
            self.lemma_fuel();
        }
        let condition = self.parse_expression()?;
        self.expect(Token::Symbol(Symbol::LeftBrace))?;
        let statements = self.parse_block_body(return_type, ret)?;
        Ok(
            Box::new(
                WhileData {
                    span: Span::concat(start_sp, self.last_sp.duplicate()),
                    condition: condition,
                    statements: statements,
                },
            ),
        )
    }

    /// `var name: type`, with an optional `= value`; the keyword is taken.
    fn parse_var_decl(&mut self, start_sp: Span) -> (r: Result<Box<VarDeclData>, Error>)
        requires
            old(self).wf(),
        ensures
            match g_var_decl(old(self).text(), old(self).ps(), span_m(start_sp)) {
                Ok((m, q)) => r matches Ok(d) && stmt_is(BlockStatement::VarDecl(d), m, TypeM::NoValue) && final(self).ps() == q,
                Err(pe) => r matches Err(e) && err_is(e, pe, old(self).file()),
            },
            r matches Err(e) ==> !(e.kind is Unknown),
            r matches Ok(d) ==> type_wf(d.var_type) && opt_expr_wf(d.value),
            final(self).wf(),
            final(self).text() == old(self).text(),
            final(self).file() == old(self).file(),
            final(self).fuel() <= old(self).fuel(),
            r matches Ok(d) ==> d.span == Span::joined(start_sp, final(self).last_sp) && names(
                old(self).current_token.tok@,
                d.name@,
            ),
            !(old(self).current_token.tok is Identifier) ==> r is Err,
    {
        proof {
            self.lemma_fuel();
        }
        let name_token = self.expect_any(Token::Identifier(String::new()))?;
        let name = match name_token.tok {
            Token::Identifier(i) => i,
            _ => {
                return Err(Error { kind: ErrorKind::Unknown, span: name_token.sp });
            },
        };
        self.expect(Token::Symbol(Symbol::Colon))?;
        let var_type = self.parse_type()?;
        let value = if self.accept(Token::Symbol(Symbol::Equal))?.is_some() {
            Some(self.parse_expression()?)
        } else {
            None
        };
        Ok(
            Box::new(
                VarDeclData {
                    span: Span::concat(start_sp, self.last_sp.duplicate()),
                    name: name,
                    var_type: var_type,
                    value: value,
                },
            ),
        )
    }

    /// A type: `&T`, `@T`, `[]T`, `[K]V`, or a path, where a single name
    /// among `int`, `bool`, `char`, `string` is the scalar type it names.
    fn parse_type(&mut self) -> (r: Result<Type, Error>)
        requires
            old(self).wf(),
        ensures
            match g_type(old(self).text(), old(self).ps()) {
                Ok((m, q)) => r matches Ok(t) && type_is(t, m) && final(self).ps() == q,
                Err(pe) => r matches Err(e) && err_is(e, pe, old(self).file()),
            },
            r matches Err(e) ==> !(e.kind is Unknown),
            r matches Ok(t) ==> type_wf(t),
            final(self).wf(),
            final(self).text() == old(self).text(),
            final(self).file() == old(self).file(),
            final(self).fuel() <= old(self).fuel(),
            r is Ok ==> final(self).fuel() < old(self).fuel(),
            r matches Ok(t) ==> match old(self).current_token.tok@ {
                TokenView::Symbol(Symbol::Amp) => t is Reference,
                TokenView::Symbol(Symbol::At) => t is MutReference,
                TokenView::Symbol(Symbol::LeftBracket) => t is Array || t is Mapping,
                TokenView::Identifier(n) => match t {
                    Type::Struct(p) => p.parts@.len() >= 1 && names(
                        old(self).current_token.tok@,
                        p.parts@[0].ident@,
                    ) && !(p.parts@.len() == 1 && scalar_named(n) is Some),
                    _ => scalar_named(n) == Some(t),
                },
                _ => false,
            },
        decreases old(self).fuel(), 0int,
    {
        proof {
            self.lemma_fuel();
        }
        if self.accept(Token::Symbol(Symbol::Amp))?.is_some() {
            return Ok(Type::Reference(Box::new(self.parse_type()?)));
        } else if self.accept(Token::Symbol(Symbol::At))?.is_some() {
            return Ok(Type::MutReference(Box::new(self.parse_type()?)));
        } else if self.accept(Token::Symbol(Symbol::LeftBracket))?.is_some() {
            return self.parse_type_bracketed();
        }
        let path = self.parse_path(None)?;
        match get_builtin_type(&path) {
            Some(t) => Ok(t),
            None => Ok(Type::Struct(path)),
        }
    }

    /// `]T` or `K]V`, after the `[` of an array or map type.
    fn parse_type_bracketed(&mut self) -> (r: Result<Type, Error>)
        requires
            old(self).wf(),
        ensures
            final(self).wf(),
            final(self).text() == old(self).text(),
            final(self).file() == old(self).file(),
            final(self).fuel() <= old(self).fuel(),
            r is Ok ==> final(self).fuel() < old(self).fuel(),
            r matches Err(e) ==> !(e.kind is Unknown),
            r matches Ok(t) ==> type_wf(t) && (t is Array || t is Mapping),
            match g_type_bracketed(old(self).text(), old(self).ps()) {
                Ok((m, q)) => r matches Ok(t) && type_is(t, m) && final(self).ps() == q,
                Err(pe) => r matches Err(e) && err_is(e, pe, old(self).file()),
            },
        decreases old(self).fuel(), 1int,
    {
        proof {
            self.lemma_fuel();
        }
        if self.accept(Token::Symbol(Symbol::RightBracket))?.is_some() {
            let inner_type = self.parse_type()?;
            Ok(Type::Array(Box::new(inner_type)))
        } else {
            let key_type = self.parse_type()?;
            self.expect(Token::Symbol(Symbol::RightBracket))?;
            proof {
                self.lemma_fuel();
            }
            let value_type = self.parse_type()?;
            Ok(Type::Mapping(Box::new(key_type), Box::new(value_type)))
        }
    }

    fn binop_for_token(stoken: &SToken) -> (r: Option<BinaryOp>)
        ensures
            r == binop_of(stoken.tok@),
    {
        match &stoken.tok {
            Token::Symbol(s) => match s {
                Symbol::Plus => Some(BinaryOp::Addition),
                Symbol::Minus => Some(BinaryOp::Substraction),
                Symbol::Star => Some(BinaryOp::Multiplication),
                Symbol::Over => Some(BinaryOp::Division),
                Symbol::Modulo => Some(BinaryOp::Modulo),
                Symbol::Concat => Some(BinaryOp::Concatenation),
                Symbol::EqualEqual => Some(BinaryOp::Equality),
                Symbol::NotEqual => Some(BinaryOp::Inequality),
                _ => None,
            },
            _ => None,
        }
    }

    fn precedence_for_op(op: Op) -> (r: u8)
        ensures
            r == precedence(op),
    {
        match op {
            Op::Unary(_) => 255,
            Op::Binary(binop) => match binop {
                BinaryOp::Equality | BinaryOp::Inequality => 1,
                BinaryOp::Addition | BinaryOp::Substraction | BinaryOp::Concatenation => 2,
                BinaryOp::Multiplication | BinaryOp::Division | BinaryOp::Modulo => 3,
            },
        }
    }
}

} // verus!
