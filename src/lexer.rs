use vstd::prelude::*;
use vstd::std_specs::iter::IteratorSpec;
use self::scan::{
    char_after, digits_value, in_word, is_digit, lemma_exhausted, lemma_scan_progress, moved,
    number_end, scan_char, scan_number, scan_string, scan_symbol, scan_token, skip_blanks, span_between,
    starts_number, starts_word, symbol_of, word_end, word_token, NumberEnd, ScanState, Scanned,
};

pub mod scan;

verus! {

/// A range of source text: file name, start row and column, end row and column.
#[derive(Debug, Clone, PartialEq, Eq, Hash)]
pub struct Span {
    pub srow: i32,
    pub scol: i32,
    pub erow: i32,
    pub ecol: i32,
    pub file: String,
}

impl Span {
    /// The span that starts where `a` starts and ends where `b` ends.
    pub open spec fn joined(a: Span, b: Span) -> Span {
        Span { srow: a.srow, scol: a.scol, erow: b.erow, ecol: b.ecol, file: a.file }
    }

    /// Covers from the start of `sp1` to the end of `sp2`, in the file of `sp1`.
    pub fn concat(sp1: Span, sp2: Span) -> (r: Span)
        ensures
            r == Span::joined(sp1, sp2),
    {
        Span { scol: sp1.scol, srow: sp1.srow, ecol: sp2.ecol, erow: sp2.erow, file: sp1.file }
    }

    /// The all-zero span with an empty file name.
    pub fn nil_span() -> (r: Span)
        ensures
            r.srow == 0 && r.scol == 0 && r.erow == 0 && r.ecol == 0,
            r.file@ == Seq::<char>::empty(),
    {
        Span { scol: 0, srow: 0, ecol: 0, erow: 0, file: String::new() }
    }

    /// A copy of this span.
    pub fn duplicate(&self) -> (r: Span)
        ensures
            r == *self,
    {
        Span { scol: self.scol, srow: self.srow, ecol: self.ecol, erow: self.erow, file: self.file.clone() }
    }
}


/// Reserved words of the language.
#[derive(Debug, Clone, Copy, PartialEq, Eq, Structural)]
pub enum Keyword {
    Import,
    Package,
    Func,
    Var,
    If,
    Else,
    While,
    Struct,
    Return,
    For,
    In,
    /// Introduces a struct initializer in the expression grammar. No word of
    /// the keyword table maps to it, so the scanner never produces it.
    New,
}

/// Punctuation and operators, including the significant line break.
#[derive(Debug, Clone, Copy, PartialEq, Eq, Structural)]
pub enum Symbol {
    LeftParenthesis,
    RightParenthesis,
    LeftBracket,
    RightBracket,
    LeftBrace,
    RightBrace,
    NewLine,
    Dot,
    Comma,
    Colon,
    Equal,
    EqualEqual,
    Plus,
    PlusPlus,
    Minus,
    Star,
    Over,
    Modulo,
    NotEqual,
    ColonColon,
    Hash,
    Less,
    LessOrEqual,
    More,
    MoreOrEqual,
    Concat,
    /// The return-type arrow `->`.
    Return,
    Amp,
    At,
}

/// A token. A floating-point literal is kept as the text it was written with.
#[derive(Debug, Clone, PartialEq)]
pub enum Token {
    EOF,
    Identifier(String),
    Keyword(Keyword),
    StringLiteral(String),
    CharLiteral(char),
    IntegerLiteral(i64),
    FloatLiteral(String),
    BoolLiteral(bool),
    Symbol(Symbol),
}

/// What a token denotes, with its texts as character sequences.
pub enum TokenView {
    EOF,
    Identifier(Seq<char>),
    Keyword(Keyword),
    StringLiteral(Seq<char>),
    CharLiteral(char),
    IntegerLiteral(i64),
    FloatLiteral(Seq<char>),
    BoolLiteral(bool),
    Symbol(Symbol),
}

impl View for Token {
    type V = TokenView;

    open spec fn view(&self) -> TokenView {
        match self {
            Token::EOF => TokenView::EOF,
            Token::Identifier(s) => TokenView::Identifier(s@),
            Token::Keyword(k) => TokenView::Keyword(*k),
            Token::StringLiteral(s) => TokenView::StringLiteral(s@),
            Token::CharLiteral(c) => TokenView::CharLiteral(*c),
            Token::IntegerLiteral(i) => TokenView::IntegerLiteral(*i),
            Token::FloatLiteral(s) => TokenView::FloatLiteral(s@),
            Token::BoolLiteral(b) => TokenView::BoolLiteral(*b),
            Token::Symbol(y) => TokenView::Symbol(*y),
        }
    }
}

impl Token {
    /// A copy of this token.
    pub fn duplicate(&self) -> (r: Token)
        ensures
            r == *self,
    {
        match self {
            Token::EOF => Token::EOF,
            Token::Identifier(s) => Token::Identifier(s.clone()),
            Token::Keyword(k) => Token::Keyword(*k),
            Token::StringLiteral(s) => Token::StringLiteral(s.clone()),
            Token::CharLiteral(c) => Token::CharLiteral(*c),
            Token::IntegerLiteral(i) => Token::IntegerLiteral(*i),
            Token::FloatLiteral(s) => Token::FloatLiteral(s.clone()),
            Token::BoolLiteral(b) => Token::BoolLiteral(*b),
            Token::Symbol(y) => Token::Symbol(*y),
        }
    }
}

/// A token with the span of source text it was read from.
#[derive(Debug, Clone, PartialEq)]
pub struct SToken {
    pub tok: Token,
    pub sp: Span,
}

impl SToken {
    /// A copy of this token and its span.
    pub fn duplicate(&self) -> (r: SToken)
        ensures
            r == *self,
    {
        SToken { tok: self.tok.duplicate(), sp: self.sp.duplicate() }
    }
}

/// Why a lexeme could not be read.
#[derive(Debug, Clone, Copy, PartialEq, Eq, Structural)]
pub enum LexErrorKind {
    /// A second decimal point inside a number.
    UnexpectedDot,
    /// A run of digits whose value does not fit in a signed 64-bit integer.
    IntegerOverflow,
    /// A character literal that is not one character, or one escaped
    /// character, between single quotes.
    BadChar,
    /// An escape other than `\"` or `\n` inside a string literal.
    UnknownEscape(char),
    /// A string literal that reaches the end of the input.
    UnterminatedString,
    /// A character that starts no symbol, or `!` without `=`.
    BadSymbol,
}

/// A scanning failure, located at the text read so far for the lexeme.
#[derive(Debug, Clone, PartialEq)]
pub struct LexError {
    pub kind: LexErrorKind,
    pub span: Span,
}

/// The longest source the scanner accepts, so that rows and columns fit in `i32`.
pub const MAX_SOURCE_LEN: usize = 0x7fff_0000;

/// Relies on `String::push`: appends the character at the end of the string.
pub assume_specification[ std::string::String::push ](s: &mut std::string::String, ch: char)
    ensures
        final(s)@ == old(s)@.push(ch),
;

/// The characters of `input`, in order.
fn chars_of(input: &str) -> (r: Vec<char>)
    ensures
        r@ == input@,
{
    broadcast use vstd::string::group_string_axioms;

    let mut it = input.chars();
    let mut out: Vec<char> = Vec::new();
    loop
        invariant
            out@ + it.remaining() == input@,
            it.decrease() is Some,
        ensures
            out@ == input@,
        decreases it.decrease()->0,
    {
        match it.next() {
            Some(c) => {
                out.push(c);
            },
            None => {
                assert(out@ + it.remaining() =~= out@);
                break;
            },
        }
    }
    out
}


fn is_digit_char(c: char) -> (r: bool)
    ensures
        r == is_digit(c),
{
    '0' <= c && c <= '9'
}

fn is_word_start(c: char) -> (r: bool)
    ensures
        r == starts_word(c),
{
    ('a' <= c && c <= 'z') || ('A' <= c && c <= 'Z') || c == '_' || (c as u32) > 127
}

fn is_word_char(c: char) -> (r: bool)
    ensures
        r == in_word(c),
{
    is_word_start(c) || is_digit_char(c)
}

/// Whether `w` holds exactly the characters of `lit`.
pub(crate) fn text_is(w: &String, lit: &str) -> (r: bool)
    ensures
        r == (w@ == lit@),
{
    let ws = w.as_str();
    let n = ws.unicode_len();
    if n != lit.unicode_len() {
        return false;
    }
    let mut i: usize = 0;
    while i < n
        invariant
            n == ws@.len(),
            n == lit@.len(),
            ws@ == w@,
            i <= n,
            ws@.subrange(0, i as int) == lit@.subrange(0, i as int),
        decreases n - i,
    {
        if ws.get_char(i) != lit.get_char(i) {
            assert(ws@[i as int] != lit@[i as int]);
            return false;
        }
        assert(ws@.subrange(0, i + 1) =~= ws@.subrange(0, i as int).push(ws@[i as int]));
        assert(lit@.subrange(0, i + 1) =~= lit@.subrange(0, i as int).push(lit@[i as int]));
        i = i + 1;
    }
    assert(ws@ =~= ws@.subrange(0, n as int));
    assert(lit@ =~= lit@.subrange(0, n as int));
    true
}

/// The token for a word: a keyword, a boolean literal, or an identifier.
fn word_to_token(word: String) -> (r: Token)
    ensures
        r@ == word_token(word@),
{
    if text_is(&word, "import") {
        Token::Keyword(Keyword::Import)
    } else if text_is(&word, "package") {
        Token::Keyword(Keyword::Package)
    } else if text_is(&word, "func") {
        Token::Keyword(Keyword::Func)
    } else if text_is(&word, "var") {
        Token::Keyword(Keyword::Var)
    } else if text_is(&word, "true") {
        Token::BoolLiteral(true)
    } else if text_is(&word, "false") {
        Token::BoolLiteral(false)
    } else if text_is(&word, "if") {
        Token::Keyword(Keyword::If)
    } else if text_is(&word, "else") {
        Token::Keyword(Keyword::Else)
    } else if text_is(&word, "while") {
        Token::Keyword(Keyword::While)
    } else if text_is(&word, "struct") {
        Token::Keyword(Keyword::Struct)
    } else if text_is(&word, "return") {
        Token::Keyword(Keyword::Return)
    } else if text_is(&word, "for") {
        Token::Keyword(Keyword::For)
    } else if text_is(&word, "in") {
        Token::Keyword(Keyword::In)
    } else {
        Token::Identifier(word)
    }
}

/// The symbol starting with `c` when `next` follows, and its width.
fn symbol_for(c: char, next: Option<char>) -> (r: Option<(Symbol, usize)>)
    ensures
        match r {
            None => symbol_of(c, next) is None,
            Some((sym, n)) => symbol_of(c, next) == Some((sym, n as int)),
        },
{
    match c {
        '(' => Some((Symbol::LeftParenthesis, 1)),
        ')' => Some((Symbol::RightParenthesis, 1)),
        '[' => Some((Symbol::LeftBracket, 1)),
        ']' => Some((Symbol::RightBracket, 1)),
        '{' => Some((Symbol::LeftBrace, 1)),
        '}' => Some((Symbol::RightBrace, 1)),
        '&' => Some((Symbol::Amp, 1)),
        '@' => Some((Symbol::At, 1)),
        '\n' => Some((Symbol::NewLine, 1)),
        '.' => Some((Symbol::Dot, 1)),
        ',' => Some((Symbol::Comma, 1)),
        ':' => match next {
            Some(':') => Some((Symbol::ColonColon, 2)),
            _ => Some((Symbol::Colon, 1)),
        },
        '=' => match next {
            Some('=') => Some((Symbol::EqualEqual, 2)),
            _ => Some((Symbol::Equal, 1)),
        },
        '+' => match next {
            Some('+') => Some((Symbol::PlusPlus, 2)),
            _ => Some((Symbol::Plus, 1)),
        },
        '-' => match next {
            Some('>') => Some((Symbol::Return, 2)),
            _ => Some((Symbol::Minus, 1)),
        },
        '*' => Some((Symbol::Star, 1)),
        '/' => Some((Symbol::Over, 1)),
        '%' => Some((Symbol::Modulo, 1)),
        '!' => match next {
            Some('=') => Some((Symbol::NotEqual, 2)),
            _ => None,
        },
        '#' => Some((Symbol::Hash, 1)),
        '<' => match next {
            Some('=') => Some((Symbol::LessOrEqual, 2)),
            Some('>') => Some((Symbol::Concat, 2)),
            _ => Some((Symbol::Less, 1)),
        },
        '>' => match next {
            Some('=') => Some((Symbol::MoreOrEqual, 2)),
            _ => Some((Symbol::More, 1)),
        },
        _ => None,
    }
}

/// The scanner: reads one span-tagged token at a time from a source text.
pub struct Reader {
    filename: String,
    chars: Vec<char>,
    pos: usize,
    start_row: i32,
    start_col: i32,
    current_row: i32,
    current_col: i32,
}

impl Reader {
    /// The source text.
    pub closed spec fn text(&self) -> Seq<char> {
        self.chars@
    }

    /// The current position: index of the next character to read, row and column.
    pub closed spec fn state(&self) -> ScanState {
        ScanState { pos: self.pos as int, row: self.current_row as int, col: self.current_col as int }
    }

    /// The name of the file the text comes from.
    pub closed spec fn file(&self) -> Seq<char> {
        self.filename@
    }

    /// Row and column where the last lexeme began (its index is not kept).
    closed spec fn start(&self) -> ScanState {
        ScanState { pos: 0, row: self.start_row as int, col: self.start_col as int }
    }

    /// The position lies in the text, and rows and columns are within bounds.
    pub closed spec fn wf(&self) -> bool {
        &&& self.chars@.len() <= MAX_SOURCE_LEN
        &&& self.pos <= self.chars@.len()
        &&& 1 <= self.current_row <= self.pos + 1
        &&& 0 <= self.current_col <= self.pos + 1
    }

    /// Characters of the text not read yet.
    pub open spec fn remaining(&self) -> int {
        self.text().len() - self.state().pos
    }

    /// The name of the file the text comes from.
    pub fn filename(&self) -> (r: &String)
        ensures
            r@ == self.file(),
    {
        &self.filename
    }

    /// A usable scanner has not read past the end of its text.
    pub proof fn lemma_remaining(&self)
        requires
            self.wf(),
        ensures
            0 <= self.remaining() <= self.text().len(),
    {
    }

    /// A scanner at the first character of `input`, on row 1, column 1.
    pub fn new(input: &str, filename: String) -> (r: Reader)
        requires
            input@.len() <= MAX_SOURCE_LEN,
        ensures
            r.wf(),
            r.text() == input@,
            r.file() == filename@,
            r.state() == (ScanState { pos: 0, row: 1, col: 1 }),
            r.remaining() == input@.len(),
    {
        let chars = chars_of(input);
        Reader {
            filename: filename,
            chars: chars,
            pos: 0,
            start_row: 1,
            start_col: 0,
            current_row: 1,
            current_col: 1,
        }
    }

    fn get_current_span(&self) -> (r: Span)
        ensures
            span_between(r, self.filename@, self.start(), self.state()),
    {
        Span {
            file: self.filename.clone(),
            scol: self.start_col,
            srow: self.start_row,
            ecol: self.current_col,
            erow: self.current_row,
        }
    }

    fn next_char(&mut self) -> (r: Option<char>)
        requires
            old(self).wf(),
            old(self).pos < old(self).chars@.len(),
        ensures
            final(self).wf(),
            final(self).chars == old(self).chars,
            final(self).filename == old(self).filename,
            final(self).start() == old(self).start(),
            final(self).state() == moved(old(self).text(), old(self).state(), 1),
            r == (if final(self).pos < final(self).chars@.len() {
                Some(final(self).chars@[final(self).pos as int])
            } else {
                None::<char>
            }),
    {
        self.pos = self.pos + 1;
        self.current_col = self.current_col + 1;
        if self.pos < self.chars.len() {
            Some(self.chars[self.pos])
        } else {
            None
        }
    }

    fn peek_char(&self) -> (r: Option<char>)
        requires
            self.wf(),
        ensures
            r == char_after(self.text(), self.state().pos),
    {
        if self.pos + 1 < self.chars.len() {
            Some(self.chars[self.pos + 1])
        } else {
            None
        }
    }

    fn skip_whitespace(&mut self)
        requires
            old(self).wf(),
        ensures
            final(self).wf(),
            final(self).chars == old(self).chars,
            final(self).filename == old(self).filename,
            final(self).state() == skip_blanks(old(self).text(), old(self).state()),
    {
        while self.pos < self.chars.len() && (self.chars[self.pos] == ' ' || self.chars[self.pos]
            == '\t' || self.chars[self.pos] == '\r')
            invariant
                self.wf(),
                self.chars == old(self).chars,
                self.filename == old(self).filename,
                skip_blanks(self.text(), self.state()) == skip_blanks(old(self).text(), old(self).state()),
            decreases self.chars@.len() - self.pos,
        {
            self.next_char();
        }
    }

    fn read_word(&mut self) -> (r: Token)
        requires
            old(self).wf(),
            old(self).pos < old(self).chars@.len(),
            starts_word(old(self).chars@[old(self).pos as int]),
        ensures
            final(self).wf(),
            final(self).chars == old(self).chars,
            final(self).filename == old(self).filename,
            final(self).start() == old(self).start(),
            scan_token(old(self).text(), old(self).state()) == (Scanned {
                result: Ok(r@),
                end: final(self).state(),
            }),
    {
        let ghost s = self.text();
        let ghost st0 = self.state();
        let mut word = String::new();
        while self.pos < self.chars.len() && is_word_char(self.chars[self.pos])
            invariant
                self.wf(),
                self.chars == old(self).chars,
                self.filename == old(self).filename,
                self.start() == old(self).start(),
                s == self.text(),
                st0 == old(self).state(),
                st0.pos <= self.pos,
                word_end(s, st0.pos) == word_end(s, self.pos as int),
                word@ == s.subrange(st0.pos, self.pos as int),
                self.state() == moved(s, st0, self.pos - st0.pos),
            decreases self.chars@.len() - self.pos,
        {
            let c = self.chars[self.pos];
            word.push(c);
            assert(s.subrange(st0.pos, self.pos + 1) =~= s.subrange(st0.pos, self.pos as int).push(c));
            self.next_char();
        }
        word_to_token(word)
    }

    fn read_number(&mut self) -> (r: Result<Token, LexErrorKind>)
        requires
            old(self).wf(),
            old(self).pos < old(self).chars@.len(),
            starts_number(old(self).text(), old(self).pos as int),
            !starts_word(old(self).chars@[old(self).pos as int]),
        ensures
            final(self).wf(),
            final(self).chars == old(self).chars,
            final(self).filename == old(self).filename,
            final(self).start() == old(self).start(),
            scan_token(old(self).text(), old(self).state()) == (Scanned {
                result: match r {
                    Ok(t) => Ok(t@),
                    Err(k) => Err(k),
                },
                end: final(self).state(),
            }),
    {
        let ghost s = self.text();
        let ghost st0 = self.state();
        let mut text = String::new();
        let mut dot = false;
        let mut fits = true;
        let mut value: i64 = 0;
        assert(scan_token(s, st0) == scan_number(s, st0));
        loop
            invariant
                scan_token(s, st0) == scan_number(s, st0),
                self.wf(),
                self.chars == old(self).chars,
                self.filename == old(self).filename,
                self.start() == old(self).start(),
                s == self.text(),
                st0 == old(self).state(),
                st0.pos <= self.pos,
                number_end(s, st0.pos, false) == number_end(s, self.pos as int, dot),
                text@ == s.subrange(st0.pos, self.pos as int),
                self.state() == moved(s, st0, self.pos - st0.pos),
                !dot ==> (fits <==> digits_value(text@) <= i64::MAX),
                !dot && fits ==> value == digits_value(text@),
                !dot ==> digits_value(text@) >= 0,
            ensures
                self.wf(),
                self.chars == old(self).chars,
                self.filename == old(self).filename,
                self.start() == old(self).start(),
                st0.pos <= self.pos,
                number_end(s, st0.pos, false) == (NumberEnd::Done { end: self.pos as int, dot }),
                text@ == s.subrange(st0.pos, self.pos as int),
                self.state() == moved(s, st0, self.pos - st0.pos),
                !dot ==> (fits <==> digits_value(text@) <= i64::MAX),
                !dot && fits ==> value == digits_value(text@),
            decreases self.chars@.len() - self.pos,
        {
            if self.pos >= self.chars.len() {
                break;
            }
            let c = self.chars[self.pos];
            if is_digit_char(c) {
                let ghost before = text@;
                text.push(c);
                assert(s.subrange(st0.pos, self.pos + 1) =~= s.subrange(st0.pos, self.pos as int).push(c));
                assert(text@.drop_last() =~= before);
                assert(digits_value(text@) == digits_value(before) * 10 + (c as int - '0' as int));
                if fits {
                    let d = (c as u32 - '0' as u32) as i64;
                    assert(d == c as int - '0' as int);
                    match value.checked_mul(10) {
                        Some(m) => match m.checked_add(d) {
                            Some(v) => {
                                value = v;
                            },
                            None => {
                                fits = false;
                            },
                        },
                        None => {
                            fits = false;
                        },
                    }
                }
                self.next_char();
            } else if c == '.' {
                if dot {
                    return Err(LexErrorKind::UnexpectedDot);
                }
                dot = true;
                text.push(c);
                assert(s.subrange(st0.pos, self.pos + 1) =~= s.subrange(st0.pos, self.pos as int).push(c));
                self.next_char();
            } else {
                break;
            }
        }
        if dot {
            Ok(Token::FloatLiteral(text))
        } else if fits {
            Ok(Token::IntegerLiteral(value))
        } else {
            Err(LexErrorKind::IntegerOverflow)
        }
    }

    fn read_char(&mut self) -> (r: Result<Token, LexErrorKind>)
        requires
            old(self).wf(),
            old(self).pos < old(self).chars@.len(),
            old(self).chars@[old(self).pos as int] == '\'',
        ensures
            final(self).wf(),
            final(self).chars == old(self).chars,
            final(self).filename == old(self).filename,
            final(self).start() == old(self).start(),
            scan_char(old(self).text(), old(self).state()) == (Scanned {
                result: match r {
                    Ok(t) => Ok(t@),
                    Err(k) => Err(k),
                },
                end: final(self).state(),
            }),
    {
        if self.pos + 1 >= self.chars.len() {
            self.next_char();
            return Err(LexErrorKind::BadChar);
        }
        self.next_char();
        let mut c = self.chars[self.pos];
        if c == '\\' {
            if self.pos + 1 >= self.chars.len() {
                self.next_char();
                return Err(LexErrorKind::BadChar);
            }
            self.next_char();
            c = self.chars[self.pos];
        }
        if self.pos + 1 < self.chars.len() && self.chars[self.pos + 1] == '\'' {
            self.next_char();
            self.next_char();
            Ok(Token::CharLiteral(c))
        } else {
            self.next_char();
            Err(LexErrorKind::BadChar)
        }
    }

    fn read_string(&mut self) -> (r: Result<Token, LexErrorKind>)
        requires
            old(self).wf(),
            old(self).pos < old(self).chars@.len(),
            old(self).chars@[old(self).pos as int] == '"',
        ensures
            final(self).wf(),
            final(self).chars == old(self).chars,
            final(self).filename == old(self).filename,
            final(self).start() == old(self).start(),
            scan_string(old(self).text(), old(self).state(), Seq::empty(), false) == (Scanned {
                result: match r {
                    Ok(t) => Ok(t@),
                    Err(k) => Err(k),
                },
                end: final(self).state(),
            }),
    {
        let ghost s = self.text();
        let ghost st0 = self.state();
        let mut acc = String::new();
        let mut escaped = false;
        loop
            invariant
                self.wf(),
                self.chars == old(self).chars,
                self.filename == old(self).filename,
                self.start() == old(self).start(),
                s == self.text(),
                st0 == old(self).state(),
                self.pos < self.chars@.len(),
                self.current_row <= self.pos + 1,
                scan_string(s, st0, Seq::empty(), false) == scan_string(s, self.state(), acc@, escaped),
            decreases self.chars@.len() - self.pos,
        {
            if self.pos + 1 >= self.chars.len() {
                self.next_char();
                return Err(LexErrorKind::UnterminatedString);
            }
            self.next_char();
            let c = self.chars[self.pos];
            if escaped {
                if c == 'n' {
                    acc.push('\n');
                    escaped = false;
                } else if c == '"' {
                    acc.push('"');
                    escaped = false;
                } else {
                    return Err(LexErrorKind::UnknownEscape(c));
                }
            } else if c == '\\' {
                escaped = true;
            } else if c == '"' {
                self.next_char();
                return Ok(Token::StringLiteral(acc));
            } else if c == '\n' {
                acc.push(c);
                self.current_col = 0;
                self.current_row = self.current_row + 1;
            } else {
                acc.push(c);
            }
        }
    }

    fn read_symbol(&mut self) -> (r: Result<Token, LexErrorKind>)
        requires
            old(self).wf(),
            old(self).pos < old(self).chars@.len(),
        ensures
            final(self).wf(),
            final(self).chars == old(self).chars,
            final(self).filename == old(self).filename,
            final(self).start() == old(self).start(),
            scan_symbol(old(self).text(), old(self).state()) == (Scanned {
                result: match r {
                    Ok(t) => Ok(t@),
                    Err(k) => Err(k),
                },
                end: final(self).state(),
            }),
    {
        let c = self.chars[self.pos];
        let next = self.peek_char();
        match symbol_for(c, next) {
            None => Err(LexErrorKind::BadSymbol),
            Some((sym, n)) => {
                if c == '\n' {
                    self.pos = self.pos + 1;
                    self.current_row = self.current_row + 1;
                    self.current_col = 1;
                } else {
                    self.next_char();
                    if n == 2 {
                        self.next_char();
                    }
                }
                Ok(Token::Symbol(sym))
            },
        }
    }

    /// Reads the next token: skips spaces, tabs and carriage returns, then
    /// reads one lexeme. At the end of the text it gives `EOF`, as often as
    /// it is asked.
    pub fn next_token(&mut self) -> (r: Result<SToken, LexError>)
        requires
            old(self).wf(),
        ensures
            final(self).wf(),
            final(self).text() == old(self).text(),
            final(self).file() == old(self).file(),
            ({
                let s = old(self).text();
                let st0 = skip_blanks(s, old(self).state());
                let sc = scan_token(s, st0);
                &&& final(self).state() == sc.end
                &&& match r {
                    Ok(t) => sc.result == Ok::<TokenView, LexErrorKind>(t.tok@) && span_between(t.sp, old(self).file(), st0, sc.end),
                    Err(e) => sc.result == Err::<TokenView, LexErrorKind>(e.kind) && span_between(e.span, old(self).file(), st0, sc.end),
                }
            }),
            old(self).state().pos <= final(self).state().pos,
            0 <= final(self).remaining() <= old(self).remaining(),
            r matches Ok(t) && t.tok == Token::EOF ==> final(self).remaining() == 0,
            r matches Ok(t) && t.tok != Token::EOF ==> final(self).remaining() < old(self).remaining(),
            old(self).remaining() == 0 ==> final(self).state() == old(self).state() && (r matches Ok(
                t,
            ) && t.tok == Token::EOF && span_between(t.sp, old(self).file(), old(self).state(), old(self).state())),
    {
        proof {
            lemma_scan_progress(self.text(), self.state());
            if self.remaining() == 0 {
                lemma_exhausted(self.text(), self.state());
            }
        }
        self.skip_whitespace();
        self.start_col = self.current_col;
        self.start_row = self.current_row;
        let res = if self.pos >= self.chars.len() {
            Ok(Token::EOF)
        } else {
            let c = self.chars[self.pos];
            if is_word_start(c) {
                Ok(self.read_word())
            } else if is_digit_char(c) || (c == '.' && match self.peek_char() {
                Some(d) => is_digit_char(d),
                None => false,
            }) {
                self.read_number()
            } else if c == '\'' {
                self.read_char()
            } else if c == '"' {
                self.read_string()
            } else {
                self.read_symbol()
            }
        };
        match res {
            Ok(tok) => Ok(SToken { tok: tok, sp: self.get_current_span() }),
            Err(kind) => Err(LexError { kind: kind, span: self.get_current_span() }),
        }
    }
}

} // verus!
