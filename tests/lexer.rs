use frontend::lexer::{Keyword, LexErrorKind, Reader, SToken, Span, Symbol, Token};

fn reader(src: &str) -> Reader {
    Reader::new(src, "test.src".to_string())
}

fn tokens(src: &str) -> Vec<Token> {
    let mut r = reader(src);
    let mut out = Vec::new();
    loop {
        let t = r.next_token().expect("lexes");
        if t.tok == Token::EOF {
            break;
        }
        out.push(t.tok);
    }
    out
}

fn first(src: &str) -> SToken {
    reader(src).next_token().expect("lexes")
}

fn first_error(src: &str) -> LexErrorKind {
    let mut r = reader(src);
    loop {
        match r.next_token() {
            Ok(t) => assert!(t.tok != Token::EOF, "no error in {:?}", src),
            Err(e) => return e.kind,
        }
    }
}

fn sym(s: Symbol) -> Token {
    Token::Symbol(s)
}

#[test]
fn two_character_symbols_with_second_character() {
    let cases = [
        ("::", Symbol::ColonColon),
        ("==", Symbol::EqualEqual),
        ("++", Symbol::PlusPlus),
        ("->", Symbol::Return),
        ("!=", Symbol::NotEqual),
        ("<=", Symbol::LessOrEqual),
        ("<>", Symbol::Concat),
        (">=", Symbol::MoreOrEqual),
    ];
    for (src, expected) in cases.iter() {
        let t = first(src);
        assert_eq!(t.tok, sym(*expected), "{}", src);
        assert_eq!(t.sp.ecol - t.sp.scol, 2, "{}", src);
    }
}

#[test]
fn two_character_symbols_without_second_character() {
    let cases = [
        (":a", Symbol::Colon),
        ("=a", Symbol::Equal),
        ("+a", Symbol::Plus),
        ("-a", Symbol::Minus),
        ("<a", Symbol::Less),
        (">a", Symbol::More),
    ];
    for (src, expected) in cases.iter() {
        let t = first(src);
        assert_eq!(t.tok, sym(*expected), "{}", src);
        assert_eq!(t.sp.ecol - t.sp.scol, 1, "{}", src);
    }
}

#[test]
fn first_character_alone_at_end_of_text() {
    assert_eq!(tokens(":"), vec![sym(Symbol::Colon)]);
    assert_eq!(tokens("="), vec![sym(Symbol::Equal)]);
    assert_eq!(tokens("<"), vec![sym(Symbol::Less)]);
    assert_eq!(tokens(">"), vec![sym(Symbol::More)]);
    assert_eq!(first_error("!"), LexErrorKind::BadSymbol);
}

#[test]
fn pair_followed_by_more_text_takes_two_characters() {
    assert_eq!(tokens(":::"), vec![sym(Symbol::ColonColon), sym(Symbol::Colon)]);
    assert_eq!(tokens("<>="), vec![sym(Symbol::Concat), sym(Symbol::Equal)]);
    assert_eq!(tokens("->>"), vec![sym(Symbol::Return), sym(Symbol::More)]);
}

#[test]
fn bare_bang_is_an_error() {
    assert_eq!(first_error("!a"), LexErrorKind::BadSymbol);
    assert_eq!(first_error("$"), LexErrorKind::BadSymbol);
}

#[test]
fn single_symbols() {
    assert_eq!(
        tokens("()[]{}.,*/%#&@"),
        vec![
            sym(Symbol::LeftParenthesis),
            sym(Symbol::RightParenthesis),
            sym(Symbol::LeftBracket),
            sym(Symbol::RightBracket),
            sym(Symbol::LeftBrace),
            sym(Symbol::RightBrace),
            sym(Symbol::Dot),
            sym(Symbol::Comma),
            sym(Symbol::Star),
            sym(Symbol::Over),
            sym(Symbol::Modulo),
            sym(Symbol::Hash),
            sym(Symbol::Amp),
            sym(Symbol::At),
        ]
    );
}

#[test]
fn end_of_stream_repeats_with_same_span() {
    let mut r = reader("a  ");
    assert_eq!(r.next_token().unwrap().tok, Token::Identifier("a".to_string()));
    let e1 = r.next_token().unwrap();
    let e2 = r.next_token().unwrap();
    let e3 = r.next_token().unwrap();
    assert_eq!(e1.tok, Token::EOF);
    assert_eq!(e2.tok, Token::EOF);
    assert_eq!(e3.tok, Token::EOF);
    assert_eq!(e1.sp, e2.sp);
    assert_eq!(e2.sp, e3.sp);
    assert_eq!((e1.sp.scol, e1.sp.ecol), (4, 4));
}

#[test]
fn empty_text_gives_end_of_stream() {
    let mut r = reader("");
    for _ in 0..3 {
        let t = r.next_token().unwrap();
        assert_eq!(t.tok, Token::EOF);
        assert_eq!((t.sp.srow, t.sp.scol, t.sp.erow, t.sp.ecol), (1, 1, 1, 1));
    }
}

#[test]
fn string_newline_escape() {
    assert_eq!(tokens("\"a\\nb\""), vec![Token::StringLiteral("a\nb".to_string())]);
    let t = first("\"a\\nb\"");
    match t.tok {
        Token::StringLiteral(s) => assert_eq!(s.chars().count(), 3),
        other => panic!("{:?}", other),
    }
}

#[test]
fn string_quote_escape() {
    assert_eq!(tokens("\"say \\\"hi\\\"\""), vec![Token::StringLiteral("say \"hi\"".to_string())]);
}

#[test]
fn string_unknown_escape_is_error() {
    assert_eq!(first_error("\"a\\tb\""), LexErrorKind::UnknownEscape('t'));
    assert_eq!(first_error("\"a\\\\b\""), LexErrorKind::UnknownEscape('\\'));
}

#[test]
fn unterminated_string_is_error() {
    assert_eq!(first_error("\"abc"), LexErrorKind::UnterminatedString);
    assert_eq!(first_error("\"abc\\\""), LexErrorKind::UnterminatedString);
}

#[test]
fn raw_newline_in_string_moves_rows() {
    let mut r = reader("\"a\nb\" x");
    let s = r.next_token().unwrap();
    assert_eq!(s.tok, Token::StringLiteral("a\nb".to_string()));
    assert_eq!((s.sp.srow, s.sp.scol, s.sp.erow, s.sp.ecol), (1, 1, 2, 3));
    let x = r.next_token().unwrap();
    assert_eq!((x.sp.srow, x.sp.scol), (2, 4));
}

#[test]
fn char_literal_backslash_passes_next_character() {
    assert_eq!(tokens("'\\n'"), vec![Token::CharLiteral('n')]);
    assert_eq!(tokens("'\\''"), vec![Token::CharLiteral('\'')]);
    assert_eq!(tokens("'x'"), vec![Token::CharLiteral('x')]);
}

#[test]
fn bad_char_literals() {
    assert_eq!(first_error("'ab'"), LexErrorKind::BadChar);
    assert_eq!(first_error("'"), LexErrorKind::BadChar);
    assert_eq!(first_error("'a"), LexErrorKind::BadChar);
    assert_eq!(first_error("'\\"), LexErrorKind::BadChar);
    assert_eq!(first_error("'\\a"), LexErrorKind::BadChar);
}

#[test]
fn numbers() {
    assert_eq!(tokens("0 42 9223372036854775807"), vec![
        Token::IntegerLiteral(0),
        Token::IntegerLiteral(42),
        Token::IntegerLiteral(i64::MAX),
    ]);
    assert_eq!(tokens("1.5 .25 3."), vec![
        Token::FloatLiteral("1.5".to_string()),
        Token::FloatLiteral(".25".to_string()),
        Token::FloatLiteral("3.".to_string()),
    ]);
}

#[test]
fn float_text_parses_as_written() {
    match first("12.75").tok {
        Token::FloatLiteral(s) => assert_eq!(s.parse::<f64>().unwrap(), 12.75),
        other => panic!("{:?}", other),
    }
}

#[test]
fn integer_overflow_is_error() {
    assert_eq!(first_error("9223372036854775808"), LexErrorKind::IntegerOverflow);
}

#[test]
fn second_decimal_point_is_error() {
    assert_eq!(first_error("1.2.3"), LexErrorKind::UnexpectedDot);
}

#[test]
fn lone_dot_is_a_symbol() {
    assert_eq!(tokens("a.b"), vec![
        Token::Identifier("a".to_string()),
        sym(Symbol::Dot),
        Token::Identifier("b".to_string()),
    ]);
}

#[test]
fn keywords_and_booleans() {
    assert_eq!(
        tokens("import package func var if else while struct return for in true false new"),
        vec![
            Token::Keyword(Keyword::Import),
            Token::Keyword(Keyword::Package),
            Token::Keyword(Keyword::Func),
            Token::Keyword(Keyword::Var),
            Token::Keyword(Keyword::If),
            Token::Keyword(Keyword::Else),
            Token::Keyword(Keyword::While),
            Token::Keyword(Keyword::Struct),
            Token::Keyword(Keyword::Return),
            Token::Keyword(Keyword::For),
            Token::Keyword(Keyword::In),
            Token::BoolLiteral(true),
            Token::BoolLiteral(false),
            Token::Identifier("new".to_string()),
        ]
    );
}

#[test]
fn identifiers_with_underscore_digits_and_unicode() {
    assert_eq!(tokens("_x1 héllo 名前"), vec![
        Token::Identifier("_x1".to_string()),
        Token::Identifier("héllo".to_string()),
        Token::Identifier("名前".to_string()),
    ]);
}

#[test]
fn newline_is_a_token_and_blanks_are_not() {
    let mut r = reader("a \t\r\n b");
    let a = r.next_token().unwrap();
    let nl = r.next_token().unwrap();
    let b = r.next_token().unwrap();
    assert_eq!(a.tok, Token::Identifier("a".to_string()));
    assert_eq!(nl.tok, sym(Symbol::NewLine));
    assert_eq!((nl.sp.srow, nl.sp.scol, nl.sp.erow, nl.sp.ecol), (1, 5, 2, 1));
    assert_eq!(b.tok, Token::Identifier("b".to_string()));
    assert_eq!((b.sp.srow, b.sp.scol, b.sp.erow, b.sp.ecol), (2, 2, 2, 3));
}

#[test]
fn spans_carry_file_and_columns() {
    let mut r = reader("ab cd");
    let ab = r.next_token().unwrap();
    let cd = r.next_token().unwrap();
    assert_eq!(ab.sp, Span { srow: 1, scol: 1, erow: 1, ecol: 3, file: "test.src".to_string() });
    assert_eq!(cd.sp, Span { srow: 1, scol: 4, erow: 1, ecol: 6, file: "test.src".to_string() });
}

#[test]
fn span_concat_and_nil() {
    let a = Span { srow: 1, scol: 2, erow: 3, ecol: 4, file: "a".to_string() };
    let b = Span { srow: 5, scol: 6, erow: 7, ecol: 8, file: "b".to_string() };
    let c = Span::concat(a, b);
    assert_eq!(c, Span { srow: 1, scol: 2, erow: 7, ecol: 8, file: "a".to_string() });
    let n = Span::nil_span();
    assert_eq!(n, Span { srow: 0, scol: 0, erow: 0, ecol: 0, file: String::new() });
}

#[test]
fn lex_error_span_covers_lexeme_so_far() {
    let mut r = reader("x 1.2.3");
    r.next_token().unwrap();
    let e = r.next_token().unwrap_err();
    assert_eq!(e.kind, LexErrorKind::UnexpectedDot);
    assert_eq!((e.span.srow, e.span.scol, e.span.erow, e.span.ecol), (1, 3, 1, 6));
    assert_eq!(e.span.file, "test.src");
}

#[test]
fn reader_reports_its_file_name() {
    let r = Reader::new("a b", "unit.src".to_string());
    assert_eq!(r.filename(), "unit.src");
}
