//! The scanner as a mathematical model: what reading one lexeme from a
//! position of a text gives, and the laws of that reading.

use vstd::prelude::*;
use super::{Keyword, LexErrorKind, Span, Symbol, TokenView};

verus! {

/// Position of the scanner: index of the current character, row and column.
pub struct ScanState {
    pub pos: int,
    pub row: int,
    pub col: int,
}

/// The outcome of reading one lexeme, and the position after it.
pub struct Scanned {
    pub result: Result<TokenView, LexErrorKind>,
    pub end: ScanState,
}

pub open spec fn is_blank(c: char) -> bool {
    c == ' ' || c == '\t' || c == '\r'
}

pub open spec fn is_digit(c: char) -> bool {
    '0' <= c && c <= '9'
}

pub open spec fn is_letter(c: char) -> bool {
    ('a' <= c && c <= 'z') || ('A' <= c && c <= 'Z')
}

/// A letter, `_`, or any character beyond ASCII.
pub open spec fn starts_word(c: char) -> bool {
    is_letter(c) || c == '_' || (c as u32) > 127
}

pub open spec fn in_word(c: char) -> bool {
    starts_word(c) || is_digit(c)
}

/// The position reached by moving on by `n` characters on the same row.
pub open spec fn moved(s: Seq<char>, st: ScanState, n: int) -> ScanState {
    ScanState {
        pos: if st.pos + n <= s.len() { st.pos + n } else { s.len() as int },
        row: st.row,
        col: st.col + n,
    }
}

/// The position after a run of spaces, tabs and carriage returns.
pub open spec fn skip_blanks(s: Seq<char>, st: ScanState) -> ScanState
    decreases s.len() - st.pos,
{
    if 0 <= st.pos < s.len() && is_blank(s[st.pos]) {
        skip_blanks(s, ScanState { pos: st.pos + 1, row: st.row, col: st.col + 1 })
    } else {
        st
    }
}

/// The end of the maximal run of word characters from `p`.
pub open spec fn word_end(s: Seq<char>, p: int) -> int
    decreases s.len() - p,
{
    if 0 <= p < s.len() && in_word(s[p]) {
        word_end(s, p + 1)
    } else {
        p
    }
}

/// The token a word stands for: a keyword, a boolean, or an identifier.
pub open spec fn word_token(w: Seq<char>) -> TokenView {
    if w == "import"@ {
        TokenView::Keyword(Keyword::Import)
    } else if w == "package"@ {
        TokenView::Keyword(Keyword::Package)
    } else if w == "func"@ {
        TokenView::Keyword(Keyword::Func)
    } else if w == "var"@ {
        TokenView::Keyword(Keyword::Var)
    } else if w == "true"@ {
        TokenView::BoolLiteral(true)
    } else if w == "false"@ {
        TokenView::BoolLiteral(false)
    } else if w == "if"@ {
        TokenView::Keyword(Keyword::If)
    } else if w == "else"@ {
        TokenView::Keyword(Keyword::Else)
    } else if w == "while"@ {
        TokenView::Keyword(Keyword::While)
    } else if w == "struct"@ {
        TokenView::Keyword(Keyword::Struct)
    } else if w == "return"@ {
        TokenView::Keyword(Keyword::Return)
    } else if w == "for"@ {
        TokenView::Keyword(Keyword::For)
    } else if w == "in"@ {
        TokenView::Keyword(Keyword::In)
    } else {
        TokenView::Identifier(w)
    }
}

/// Where a run of digits and decimal points from `i` ends.
pub enum NumberEnd {
    /// At `end`, having seen a decimal point or not.
    Done { end: int, dot: bool },
    /// At a second decimal point, at `at`.
    SecondDot { at: int },
}

pub open spec fn number_end(s: Seq<char>, i: int, dot: bool) -> NumberEnd
    decreases s.len() - i,
{
    if 0 <= i < s.len() && is_digit(s[i]) {
        number_end(s, i + 1, dot)
    } else if 0 <= i < s.len() && s[i] == '.' {
        if dot {
            NumberEnd::SecondDot { at: i }
        } else {
            number_end(s, i + 1, true)
        }
    } else {
        NumberEnd::Done { end: i, dot }
    }
}

/// The value of a string of decimal digits.
pub open spec fn digits_value(d: Seq<char>) -> int
    decreases d.len(),
{
    if d.len() == 0 {
        0
    } else {
        digits_value(d.drop_last()) * 10 + (d.last() as int - '0' as int)
    }
}

/// Reads a number starting at the current position.
pub open spec fn scan_number(s: Seq<char>, st: ScanState) -> Scanned {
    match number_end(s, st.pos, false) {
        NumberEnd::SecondDot { at } => Scanned {
            result: Err(LexErrorKind::UnexpectedDot),
            end: moved(s, st, at - st.pos),
        },
        NumberEnd::Done { end, dot } => {
            let text = s.subrange(st.pos, end);
            Scanned {
                result: if dot {
                    Ok(TokenView::FloatLiteral(text))
                } else if digits_value(text) <= i64::MAX {
                    Ok(TokenView::IntegerLiteral(digits_value(text) as i64))
                } else {
                    Err(LexErrorKind::IntegerOverflow)
                },
                end: moved(s, st, end - st.pos),
            }
        },
    }
}

/// Reads a character literal; the current character is the opening quote.
/// A backslash passes the next character through unchanged.
pub open spec fn scan_char(s: Seq<char>, st: ScanState) -> Scanned {
    let p = st.pos;
    if p + 1 >= s.len() {
        Scanned { result: Err(LexErrorKind::BadChar), end: moved(s, st, 1) }
    } else if s[p + 1] == '\\' {
        if p + 3 < s.len() && s[p + 3] == '\'' {
            Scanned { result: Ok(TokenView::CharLiteral(s[p + 2])), end: moved(s, st, 4) }
        } else if p + 2 >= s.len() {
            Scanned { result: Err(LexErrorKind::BadChar), end: moved(s, st, 2) }
        } else {
            Scanned { result: Err(LexErrorKind::BadChar), end: moved(s, st, 3) }
        }
    } else if p + 2 < s.len() && s[p + 2] == '\'' {
        Scanned { result: Ok(TokenView::CharLiteral(s[p + 1])), end: moved(s, st, 3) }
    } else {
        Scanned { result: Err(LexErrorKind::BadChar), end: moved(s, st, 2) }
    }
}

/// Reads the rest of a string literal. `st` is at the last character read,
/// `acc` holds the characters so far, `escaped` tells whether that last
/// character was an unconsumed backslash.
pub open spec fn scan_string(s: Seq<char>, st: ScanState, acc: Seq<char>, escaped: bool) -> Scanned
    decreases s.len() - st.pos,
{
    if st.pos + 1 >= s.len() || st.pos < 0 {
        Scanned { result: Err(LexErrorKind::UnterminatedString), end: moved(s, st, 1) }
    } else {
        let c = s[st.pos + 1];
        let next = ScanState { pos: st.pos + 1, row: st.row, col: st.col + 1 };
        if escaped {
            if c == 'n' {
                scan_string(s, next, acc.push('\n'), false)
            } else if c == '"' {
                scan_string(s, next, acc.push('"'), false)
            } else {
                Scanned { result: Err(LexErrorKind::UnknownEscape(c)), end: next }
            }
        } else if c == '\\' {
            scan_string(s, next, acc, true)
        } else if c == '"' {
            Scanned { result: Ok(TokenView::StringLiteral(acc)), end: moved(s, st, 2) }
        } else if c == '\n' {
            scan_string(s, ScanState { pos: st.pos + 1, row: st.row + 1, col: 0 }, acc.push(c), false)
        } else {
            scan_string(s, next, acc.push(c), false)
        }
    }
}

/// The symbol that starts with `c`, given the character after it, and how
/// many characters it takes; `None` where no symbol starts so.
pub open spec fn symbol_of(c: char, next: Option<char>) -> Option<(Symbol, int)> {
    if c == '(' {
        Some((Symbol::LeftParenthesis, 1))
    } else if c == ')' {
        Some((Symbol::RightParenthesis, 1))
    } else if c == '[' {
        Some((Symbol::LeftBracket, 1))
    } else if c == ']' {
        Some((Symbol::RightBracket, 1))
    } else if c == '{' {
        Some((Symbol::LeftBrace, 1))
    } else if c == '}' {
        Some((Symbol::RightBrace, 1))
    } else if c == '&' {
        Some((Symbol::Amp, 1))
    } else if c == '@' {
        Some((Symbol::At, 1))
    } else if c == '\n' {
        Some((Symbol::NewLine, 1))
    } else if c == '.' {
        Some((Symbol::Dot, 1))
    } else if c == ',' {
        Some((Symbol::Comma, 1))
    } else if c == ':' {
        if next == Some(':') { Some((Symbol::ColonColon, 2)) } else { Some((Symbol::Colon, 1)) }
    } else if c == '=' {
        if next == Some('=') { Some((Symbol::EqualEqual, 2)) } else { Some((Symbol::Equal, 1)) }
    } else if c == '+' {
        if next == Some('+') { Some((Symbol::PlusPlus, 2)) } else { Some((Symbol::Plus, 1)) }
    } else if c == '-' {
        if next == Some('>') { Some((Symbol::Return, 2)) } else { Some((Symbol::Minus, 1)) }
    } else if c == '*' {
        Some((Symbol::Star, 1))
    } else if c == '/' {
        Some((Symbol::Over, 1))
    } else if c == '%' {
        Some((Symbol::Modulo, 1))
    } else if c == '!' {
        if next == Some('=') { Some((Symbol::NotEqual, 2)) } else { None }
    } else if c == '#' {
        Some((Symbol::Hash, 1))
    } else if c == '<' {
        if next == Some('=') {
            Some((Symbol::LessOrEqual, 2))
        } else if next == Some('>') {
            Some((Symbol::Concat, 2))
        } else {
            Some((Symbol::Less, 1))
        }
    } else if c == '>' {
        if next == Some('=') { Some((Symbol::MoreOrEqual, 2)) } else { Some((Symbol::More, 1)) }
    } else {
        None
    }
}

/// The character after the current one, if any.
pub open spec fn char_after(s: Seq<char>, p: int) -> Option<char> {
    if 0 <= p + 1 < s.len() { Some(s[p + 1]) } else { None }
}

/// A digit, or a decimal point followed by a digit.
pub open spec fn starts_number(s: Seq<char>, p: int) -> bool {
    is_digit(s[p]) || (s[p] == '.' && p + 1 < s.len() && is_digit(s[p + 1]))
}

/// Reads a symbol. A line break moves to the first column of the next row.
pub open spec fn scan_symbol(s: Seq<char>, st: ScanState) -> Scanned {
    match symbol_of(s[st.pos], char_after(s, st.pos)) {
        None => Scanned { result: Err(LexErrorKind::BadSymbol), end: st },
        Some((sym, n)) => Scanned {
            result: Ok(TokenView::Symbol(sym)),
            end: if sym == Symbol::NewLine {
                ScanState { pos: st.pos + 1, row: st.row + 1, col: 1 }
            } else {
                moved(s, st, n)
            },
        },
    }
}

/// Reads the lexeme that starts at `st`, which is past any blanks.
pub open spec fn scan_token(s: Seq<char>, st: ScanState) -> Scanned {
    if st.pos >= s.len() || st.pos < 0 {
        Scanned { result: Ok(TokenView::EOF), end: st }
    } else if starts_word(s[st.pos]) {
        let e = word_end(s, st.pos);
        Scanned { result: Ok(word_token(s.subrange(st.pos, e))), end: moved(s, st, e - st.pos) }
    } else if starts_number(s, st.pos) {
        scan_number(s, st)
    } else if s[st.pos] == '\'' {
        scan_char(s, st)
    } else if s[st.pos] == '"' {
        scan_string(s, st, Seq::empty(), false)
    } else {
        scan_symbol(s, st)
    }
}

/// `sp` is the span in `file` from position `a` to position `b`.
pub open spec fn span_between(sp: Span, file: Seq<char>, a: ScanState, b: ScanState) -> bool {
    &&& sp.file@ == file
    &&& sp.srow == a.row
    &&& sp.scol == a.col
    &&& sp.erow == b.row
    &&& sp.ecol == b.col
}


proof fn lemma_skip_blanks_bounds(s: Seq<char>, st: ScanState)
    requires
        0 <= st.pos <= s.len(),
    ensures
        st.pos <= skip_blanks(s, st).pos <= s.len(),
    decreases s.len() - st.pos,
{
    if 0 <= st.pos < s.len() && is_blank(s[st.pos]) {
        lemma_skip_blanks_bounds(s, ScanState { pos: st.pos + 1, row: st.row, col: st.col + 1 });
    }
}

proof fn lemma_word_end_bounds(s: Seq<char>, p: int)
    requires
        0 <= p <= s.len(),
    ensures
        p <= word_end(s, p) <= s.len(),
    decreases s.len() - p,
{
    if 0 <= p < s.len() && in_word(s[p]) {
        lemma_word_end_bounds(s, p + 1);
    }
}

proof fn lemma_number_end_bounds(s: Seq<char>, i: int, dot: bool)
    requires
        0 <= i <= s.len(),
    ensures
        match number_end(s, i, dot) {
            NumberEnd::Done { end, .. } => i <= end <= s.len(),
            NumberEnd::SecondDot { at } => i <= at < s.len(),
        },
    decreases s.len() - i,
{
    if 0 <= i < s.len() && is_digit(s[i]) {
        lemma_number_end_bounds(s, i + 1, dot);
    } else if 0 <= i < s.len() && s[i] == '.' && !dot {
        lemma_number_end_bounds(s, i + 1, true);
    }
}

proof fn lemma_string_progress(s: Seq<char>, st: ScanState, acc: Seq<char>, escaped: bool)
    requires
        0 <= st.pos < s.len(),
    ensures
        st.pos < scan_string(s, st, acc, escaped).end.pos <= s.len(),
        scan_string(s, st, acc, escaped).result matches Ok(t) ==> t is StringLiteral,
    decreases s.len() - st.pos,
{
    if st.pos + 1 < s.len() {
        let c = s[st.pos + 1];
        let next = ScanState { pos: st.pos + 1, row: st.row, col: st.col + 1 };
        if escaped {
            if c == 'n' {
                lemma_string_progress(s, next, acc.push('\n'), false);
            } else if c == '"' {
                lemma_string_progress(s, next, acc.push('"'), false);
            }
        } else if c == '\\' {
            lemma_string_progress(s, next, acc, true);
        } else if c == '"' {
        } else if c == '\n' {
            lemma_string_progress(
                s,
                ScanState { pos: st.pos + 1, row: st.row + 1, col: 0 },
                acc.push(c),
                false,
            );
        } else {
            lemma_string_progress(s, next, acc.push(c), false);
        }
    }
}

/// Reading from a position within the text ends within the text, and never
/// moves back. `EOF` comes exactly at the end of the text after blanks;
/// any other token takes at least one character.
pub proof fn lemma_scan_progress(s: Seq<char>, st: ScanState)
    requires
        0 <= st.pos <= s.len(),
    ensures
        ({
            let st0 = skip_blanks(s, st);
            let sc = scan_token(s, st0);
            &&& st.pos <= st0.pos <= sc.end.pos <= s.len()
            &&& (sc.result == Ok::<TokenView, LexErrorKind>(TokenView::EOF) <==> st0.pos == s.len())
            &&& (sc.result is Ok && sc.result != Ok::<TokenView, LexErrorKind>(TokenView::EOF)
                ==> st0.pos < sc.end.pos)
        }),
{
    lemma_skip_blanks_bounds(s, st);
    let st0 = skip_blanks(s, st);
    if st0.pos < s.len() {
        let c = s[st0.pos];
        if starts_word(c) {
            lemma_word_end_bounds(s, st0.pos + 1);
            assert(word_end(s, st0.pos) == word_end(s, st0.pos + 1));
            let w = s.subrange(st0.pos, word_end(s, st0.pos));
            assert(word_token(w) != TokenView::EOF);
        } else if starts_number(s, st0.pos) {
            if is_digit(c) {
                lemma_number_end_bounds(s, st0.pos + 1, false);
            } else {
                lemma_number_end_bounds(s, st0.pos + 1, true);
            }
        } else if c == '"' {
            lemma_string_progress(s, st0, Seq::empty(), false);
        }
    }
}

/// No word of the keyword table maps to the struct-initializer keyword, so
/// the scanner never produces it: `new` reads as an identifier.
pub proof fn lemma_no_struct_init_keyword(s: Seq<char>, st: ScanState)
    requires
        0 <= st.pos <= s.len(),
    ensures
        scan_token(s, skip_blanks(s, st)).result != Ok::<TokenView, LexErrorKind>(
            TokenView::Keyword(Keyword::New),
        ),
{
    lemma_skip_blanks_bounds(s, st);
    let st0 = skip_blanks(s, st);
    if st0.pos < s.len() && !starts_word(s[st0.pos]) && !starts_number(s, st0.pos)
        && s[st0.pos] != '\'' && s[st0.pos] == '"' {
        lemma_string_progress(s, st0, Seq::empty(), false);
    }
}

/// Once the text is exhausted, reading gives `EOF` with an empty span at the
/// current place, and the place does not change: every later read gives the
/// same again.
pub proof fn lemma_exhausted(s: Seq<char>, st: ScanState)
    requires
        st.pos >= s.len(),
    ensures
        skip_blanks(s, st) == st,
        scan_token(s, st) == (Scanned { result: Ok(TokenView::EOF), end: st }),
{
}

/// The symbols that take two characters. Each is read whole when its second
/// character follows; otherwise the first character alone is read (or, for
/// `!`, nothing and an error). No symbol takes more than two characters.
pub proof fn lemma_symbol_pairs(s: Seq<char>, st: ScanState)
    requires
        0 <= st.pos < s.len(),
    ensures
        ({
            let c = s[st.pos];
            let next = char_after(s, st.pos);
            let sc = scan_token(s, st);
            let sym = |y: Symbol| Ok::<TokenView, LexErrorKind>(TokenView::Symbol(y));
            &&& c == ':' && next == Some(':') ==> sc.result == sym(Symbol::ColonColon) && sc.end == moved(s, st, 2)
            &&& c == ':' && next != Some(':') ==> sc.result == sym(Symbol::Colon) && sc.end == moved(s, st, 1)
            &&& c == '=' && next == Some('=') ==> sc.result == sym(Symbol::EqualEqual) && sc.end == moved(s, st, 2)
            &&& c == '=' && next != Some('=') ==> sc.result == sym(Symbol::Equal) && sc.end == moved(s, st, 1)
            &&& c == '+' && next == Some('+') ==> sc.result == sym(Symbol::PlusPlus) && sc.end == moved(s, st, 2)
            &&& c == '+' && next != Some('+') ==> sc.result == sym(Symbol::Plus) && sc.end == moved(s, st, 1)
            &&& c == '-' && next == Some('>') ==> sc.result == sym(Symbol::Return) && sc.end == moved(s, st, 2)
            &&& c == '-' && next != Some('>') ==> sc.result == sym(Symbol::Minus) && sc.end == moved(s, st, 1)
            &&& c == '!' && next == Some('=') ==> sc.result == sym(Symbol::NotEqual) && sc.end == moved(s, st, 2)
            &&& c == '!' && next != Some('=') ==> sc.result == Err::<TokenView, LexErrorKind>(LexErrorKind::BadSymbol) && sc.end == st
            &&& c == '<' && next == Some('=') ==> sc.result == sym(Symbol::LessOrEqual) && sc.end == moved(s, st, 2)
            &&& c == '<' && next == Some('>') ==> sc.result == sym(Symbol::Concat) && sc.end == moved(s, st, 2)
            &&& c == '<' && next != Some('=') && next != Some('>') ==> sc.result == sym(Symbol::Less) && sc.end == moved(s, st, 1)
            &&& c == '>' && next == Some('=') ==> sc.result == sym(Symbol::MoreOrEqual) && sc.end == moved(s, st, 2)
            &&& c == '>' && next != Some('=') ==> sc.result == sym(Symbol::More) && sc.end == moved(s, st, 1)
        }),
{
}

} // verus!
