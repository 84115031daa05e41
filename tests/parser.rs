use frontend::lexer::{Keyword, Reader, Span, Symbol, Token};
use frontend::parser::ast::{
    Ast, BinaryOp, BlockStatement, Expression, Expression_, Path, SpannedString, Statement, Type,
    UnaryOp,
};
use frontend::parser::{Error, ErrorKind, Parser};

fn parse(src: &str) -> Result<Ast, Error> {
    let reader = Reader::new(src, "t.src".to_string());
    let mut parser = Parser::new(reader);
    parser.parse()
}

/// The body of the single function of `func f() { <body> }`.
fn body(stmts: &str) -> Vec<BlockStatement> {
    let src = format!("func f() {{\n{}\n}}", stmts);
    let ast = parse(&src).expect("parses");
    assert_eq!(ast.statements.len(), 1);
    match ast.statements.into_iter().next().unwrap() {
        Statement::FuncDecl(f) => f.statements,
        other => panic!("{:?}", other),
    }
}

/// The value of `var v: int = <expr>`.
fn expr(e: &str) -> Expression {
    let mut stmts = body(&format!("var v: int = {}", e));
    assert_eq!(stmts.len(), 1);
    match stmts.remove(0) {
        BlockStatement::VarDecl(v) => v.value.expect("has a value"),
        other => panic!("{:?}", other),
    }
}

fn expr_error(e: &str) -> Error {
    parse(&format!("func f() {{\nvar v: int = {}\n}}", e)).unwrap_err()
}

fn int_of(e: &Expression) -> i64 {
    match e.expr {
        Expression_::IntegerLiteral(i) => i,
        ref other => panic!("{:?}", other),
    }
}

fn var_name(e: &Expression) -> String {
    match &e.expr {
        Expression_::Variable(p) => {
            assert_eq!(p.parts.len(), 1);
            p.parts[0].ident.clone()
        },
        other => panic!("{:?}", other),
    }
}

fn binop(e: &Expression) -> (BinaryOp, &Expression, &Expression) {
    match &e.expr {
        Expression_::BinaryOp(op, l, r) => (*op, l, r),
        other => panic!("{:?}", other),
    }
}

fn array_items(e: &Expression) -> Vec<i64> {
    match &e.expr {
        Expression_::Array(items) => items.iter().map(|i| int_of(i)).collect(),
        other => panic!("{:?}", other),
    }
}

fn span4(sp: &Span) -> (i32, i32, i32, i32) {
    (sp.srow, sp.scol, sp.erow, sp.ecol)
}

#[test]
fn array_with_and_without_trailing_comma() {
    assert_eq!(array_items(&expr("[1, 2, 3]")), vec![1, 2, 3]);
    assert_eq!(array_items(&expr("[1, 2, 3,]")), vec![1, 2, 3]);
    assert_eq!(array_items(&expr("[]")), Vec::<i64>::new());
}

#[test]
fn array_with_empty_element_is_unexpected_token() {
    let e = expr_error("[1, 2,, 3]");
    match e.kind {
        ErrorKind::UnexpectedToken(t) => assert_eq!(t, Token::Symbol(Symbol::Comma)),
        other => panic!("{:?}", other),
    }
    assert_eq!((e.span.srow, e.span.scol), (2, 20));
}

#[test]
fn array_without_comma_is_expected_comma() {
    match expr_error("[1 2]").kind {
        ErrorKind::ExpectedGotToken(expected, got) => {
            assert_eq!(expected, Token::Symbol(Symbol::Comma));
            assert_eq!(got, Token::IntegerLiteral(2));
        },
        other => panic!("{:?}", other),
    }
}

#[test]
fn multiplication_binds_tighter_than_addition() {
    let e = expr("1 + 2 * 3");
    let (op, l, r) = binop(&e);
    assert_eq!(op, BinaryOp::Addition);
    assert_eq!(int_of(l), 1);
    let (op2, l2, r2) = binop(r);
    assert_eq!(op2, BinaryOp::Multiplication);
    assert_eq!((int_of(l2), int_of(r2)), (2, 3));
}

#[test]
fn multiplication_first_then_addition() {
    let e = expr("1 * 2 + 3");
    let (op, l, r) = binop(&e);
    assert_eq!(op, BinaryOp::Addition);
    assert_eq!(int_of(r), 3);
    let (op2, l2, r2) = binop(l);
    assert_eq!(op2, BinaryOp::Multiplication);
    assert_eq!((int_of(l2), int_of(r2)), (1, 2));
}

#[test]
fn same_precedence_is_left_associative() {
    let e = expr("1 - 2 - 3");
    let (op, l, r) = binop(&e);
    assert_eq!(op, BinaryOp::Substraction);
    assert_eq!(int_of(r), 3);
    let (op2, l2, r2) = binop(l);
    assert_eq!(op2, BinaryOp::Substraction);
    assert_eq!((int_of(l2), int_of(r2)), (1, 2));
}

#[test]
fn equality_binds_loosest() {
    let e = expr("a <> b == c % d");
    let (op, l, r) = binop(&e);
    assert_eq!(op, BinaryOp::Equality);
    assert_eq!(binop(l).0, BinaryOp::Concatenation);
    assert_eq!(binop(r).0, BinaryOp::Modulo);
    assert_eq!(binop(&expr("a != b")).0, BinaryOp::Inequality);
    assert_eq!(binop(&expr("a / b")).0, BinaryOp::Division);
}

#[test]
fn parentheses_group() {
    let e = expr("(1 + 2) * 3");
    let (op, l, r) = binop(&e);
    assert_eq!(op, BinaryOp::Multiplication);
    assert_eq!(binop(l).0, BinaryOp::Addition);
    assert_eq!(int_of(r), 3);
}

#[test]
fn postfix_forms_chain_left_to_right() {
    let e = expr("a.b(c)[0]");
    let (indexed, index) = match &e.expr {
        Expression_::Index(x, Some(i)) => (x, i),
        other => panic!("{:?}", other),
    };
    assert_eq!(int_of(index), 0);
    let (callee, args) = match &indexed.expr {
        Expression_::FuncCall(f, args) => (f, args),
        other => panic!("{:?}", other),
    };
    assert_eq!(args.len(), 1);
    assert_eq!(var_name(&args[0]), "c");
    match &callee.expr {
        Expression_::Field(receiver, name) => {
            assert_eq!(var_name(receiver), "a");
            assert_eq!(name.ident, "b");
        },
        other => panic!("{:?}", other),
    }
}

#[test]
fn open_index_has_no_index() {
    match &expr("a[]").expr {
        Expression_::Index(x, None) => assert_eq!(var_name(x), "a"),
        other => panic!("{:?}", other),
    }
}

#[test]
fn prefix_operators_bind_tighter_than_binary() {
    let e = expr("#a + *b");
    let (op, l, r) = binop(&e);
    assert_eq!(op, BinaryOp::Addition);
    match (&l.expr, &r.expr) {
        (Expression_::UnaryOp(UnaryOp::Count, _), Expression_::UnaryOp(UnaryOp::Dereference, _)) => {},
        other => panic!("{:?}", other),
    }
    match &expr("&x").expr {
        Expression_::UnaryOp(UnaryOp::Reference, _) => {},
        other => panic!("{:?}", other),
    }
    match &expr("@x").expr {
        Expression_::UnaryOp(UnaryOp::MutReference, _) => {},
        other => panic!("{:?}", other),
    }
}

#[test]
fn literals_and_paths() {
    match &expr("\"s\"").expr {
        Expression_::StringLiteral(s) => assert_eq!(s, "s"),
        other => panic!("{:?}", other),
    }
    match &expr("'c'").expr {
        Expression_::CharLiteral(c) => assert_eq!(*c, 'c'),
        other => panic!("{:?}", other),
    }
    match &expr("true").expr {
        Expression_::BoolLiteral(b) => assert!(*b),
        other => panic!("{:?}", other),
    }
    match &expr("m::n::x").expr {
        Expression_::Variable(p) => {
            let names: Vec<&str> = p.parts.iter().map(|s| s.ident.as_str()).collect();
            assert_eq!(names, vec!["m", "n", "x"]);
        },
        other => panic!("{:?}", other),
    }
}

#[test]
fn float_literal_cannot_start_an_expression() {
    match expr_error("1.5").kind {
        ErrorKind::UnexpectedToken(Token::FloatLiteral(s)) => assert_eq!(s, "1.5"),
        other => panic!("{:?}", other),
    }
}

#[test]
fn map_literal_duplicate_key_last_wins() {
    match &expr("{1: 2, 3: 4, 1: 5}").expr {
        Expression_::MapLiteral(m) => {
            assert_eq!(m.entries.len(), 2);
            assert_eq!((int_of(&m.entries[0].0), int_of(&m.entries[0].1)), (1, 5));
            assert_eq!((int_of(&m.entries[1].0), int_of(&m.entries[1].1)), (3, 4));
        },
        other => panic!("{:?}", other),
    }
}

#[test]
fn map_literal_keys_compared_by_structure() {
    match &expr("{a + 1: 2, a + 1: 3, a + 2: 4}").expr {
        Expression_::MapLiteral(m) => {
            assert_eq!(m.entries.len(), 2);
            assert_eq!(int_of(&m.entries[0].1), 3);
            assert_eq!(int_of(&m.entries[1].1), 4);
        },
        other => panic!("{:?}", other),
    }
}

#[test]
fn two_var_decls_on_two_lines() {
    let stmts = body("var x: int = 1\nvar y: int = 2");
    assert_eq!(stmts.len(), 2);
    let names: Vec<String> = stmts
        .iter()
        .map(|s| match s {
            BlockStatement::VarDecl(v) => v.name.clone(),
            other => panic!("{:?}", other),
        })
        .collect();
    assert_eq!(names, vec!["x".to_string(), "y".to_string()]);
}

#[test]
fn two_var_decls_on_one_line_is_an_error() {
    let r = parse("func f() {\nvar x: int = 1 var y: int = 2\n}");
    assert!(r.is_err());
}

#[test]
fn struct_fields_in_declared_order() {
    let ast = parse("struct P { x: int, y: int }").unwrap();
    assert_eq!(ast.statements.len(), 1);
    match &ast.statements[0] {
        Statement::StructDecl(s) => {
            assert_eq!(s.name, "P");
            assert_eq!(s.fields.len(), 2);
            assert_eq!(s.fields[0].name, "x");
            assert_eq!(s.fields[1].name, "y");
            assert!(matches!(s.fields[0].field_type, Type::Int));
            assert!(matches!(s.fields[1].field_type, Type::Int));
        },
        other => panic!("{:?}", other),
    }
}

#[test]
fn struct_with_trailing_comma_and_without_comma() {
    assert!(parse("struct P { x: int, }").is_ok());
    assert!(parse("struct P { x: int y: int }").is_err());
}

#[test]
fn return_carries_value_when_return_type_declared() {
    let ast = parse("func f(a: int) -> int { return a }").unwrap();
    match &ast.statements[0] {
        Statement::FuncDecl(f) => {
            assert_eq!(f.name, "f");
            assert!(matches!(f.return_type, Type::Int));
            assert_eq!(f.parameters.len(), 1);
            assert_eq!(f.parameters[0].name, "a");
            assert_eq!(f.statements.len(), 1);
            match &f.statements[0] {
                BlockStatement::Return(r) => {
                    assert_eq!(var_name(r.value.as_ref().unwrap()), "a");
                    assert!(matches!(r.expected_type, Type::Int));
                },
                other => panic!("{:?}", other),
            }
        },
        other => panic!("{:?}", other),
    }
}

#[test]
fn return_without_value_in_function_without_return_type() {
    let stmts = body("return");
    match &stmts[0] {
        BlockStatement::Return(r) => {
            assert!(r.value.is_none());
            assert!(matches!(r.expected_type, Type::NoValue));
        },
        other => panic!("{:?}", other),
    }
}

#[test]
fn types() {
    let ast = parse("func f(a: &int, b: @bool, c: []char, d: [string]int, e: m::T, g: T) {}").unwrap();
    let params = match &ast.statements[0] {
        Statement::FuncDecl(f) => &f.parameters,
        other => panic!("{:?}", other),
    };
    assert!(matches!(&params[0].param_type, Type::Reference(t) if matches!(**t, Type::Int)));
    assert!(matches!(&params[1].param_type, Type::MutReference(t) if matches!(**t, Type::Bool)));
    assert!(matches!(&params[2].param_type, Type::Array(t) if matches!(**t, Type::Char)));
    assert!(matches!(&params[3].param_type, Type::Mapping(k, v) if matches!(**k, Type::String) && matches!(**v, Type::Int)));
    match &params[4].param_type {
        Type::Struct(p) => assert_eq!(p.parts.len(), 2),
        other => panic!("{:?}", other),
    }
    match &params[5].param_type {
        Type::Struct(p) => assert_eq!(p.parts[0].ident, "T"),
        other => panic!("{:?}", other),
    }
}

#[test]
fn control_flow_statements() {
    let stmts = body("if a { x = 1 } else if b { y } else { z }\nwhile c { }\nfor i in xs { f(i) }");
    assert_eq!(stmts.len(), 3);
    match &stmts[0] {
        BlockStatement::If(i) => {
            assert_eq!(var_name(&i.condition), "a");
            assert!(matches!(&i.if_statements[0], BlockStatement::VarAssignment(_, _)));
            let els = i.else_statements.as_ref().unwrap();
            assert_eq!(els.len(), 1);
            match &els[0] {
                BlockStatement::If(j) => {
                    assert_eq!(var_name(&j.condition), "b");
                    assert!(j.else_statements.is_some());
                },
                other => panic!("{:?}", other),
            }
        },
        other => panic!("{:?}", other),
    }
    assert!(matches!(&stmts[1], BlockStatement::While(w) if w.statements.is_empty()));
    match &stmts[2] {
        BlockStatement::ForIn(f) => {
            assert_eq!(f.element_name, "i");
            assert_eq!(var_name(&f.collection), "xs");
            assert!(matches!(&f.statements[0], BlockStatement::Expression(_)));
        },
        other => panic!("{:?}", other),
    }
}

#[test]
fn import_and_package() {
    let ast = parse("package main\nimport \"lib/io\"\n").unwrap();
    assert_eq!(ast.statements.len(), 2);
    match &ast.statements[0] {
        Statement::Package(p) => {
            assert_eq!(p.name, "main");
            assert_eq!(span4(&p.span), (1, 1, 1, 13));
        },
        other => panic!("{:?}", other),
    }
    match &ast.statements[1] {
        Statement::Import(i) => assert_eq!(i.path, "lib/io"),
        other => panic!("{:?}", other),
    }
}

#[test]
fn unexpected_top_level_token() {
    let e = parse("var x: int").unwrap_err();
    match e.kind {
        ErrorKind::UnexpectedToken(t) => assert_eq!(t, Token::Keyword(Keyword::Var)),
        other => panic!("{:?}", other),
    }
    assert_eq!(span4(&e.span), (1, 1, 1, 4));
}

#[test]
fn lexer_error_is_reported() {
    let e = parse("func f() { var s: string = \"a\\tb\" }").unwrap_err();
    assert!(matches!(e.kind, ErrorKind::Lexer(_)));
}

#[test]
fn empty_source_is_empty_ast() {
    assert_eq!(parse("").unwrap().statements.len(), 0);
    assert!(matches!(parse("\n\n").unwrap_err().kind, ErrorKind::UnexpectedToken(Token::Symbol(Symbol::NewLine))));
}

#[test]
fn node_spans_join_first_and_last_tokens() {
    let ast = parse("struct P { x: int }").unwrap();
    match &ast.statements[0] {
        Statement::StructDecl(s) => {
            assert_eq!(span4(&s.span), (1, 1, 1, 20));
            assert_eq!(span4(&s.fields[0].span), (1, 12, 1, 18));
        },
        other => panic!("{:?}", other),
    }
    let e = expr("1 + 22");
    assert_eq!(span4(&e.span), (2, 14, 2, 20));
    let (_, l, r) = binop(&e);
    assert_eq!(span4(&l.span), (2, 14, 2, 15));
    assert_eq!(span4(&r.span), (2, 18, 2, 20));
}

#[test]
fn path_concat_joins_parts_and_spans() {
    let sp = |c: i32| Span { srow: 1, scol: c, erow: 1, ecol: c + 1, file: "f".to_string() };
    let name = |s: &str, c: i32| SpannedString { span: sp(c), ident: s.to_string() };
    let a = Path { span: sp(1), parts: vec![name("a", 1)] };
    let b = Path { span: sp(4), parts: vec![name("b", 4), name("c", 7)] };
    let p = Path::concat(a, b);
    let names: Vec<&str> = p.parts.iter().map(|s| s.ident.as_str()).collect();
    assert_eq!(names, vec!["a", "b", "c"]);
    assert_eq!(span4(&p.span), (1, 1, 1, 5));
}

#[test]
fn new_ast_is_empty() {
    assert!(Ast::new().statements.is_empty());
}

#[test]
fn path_equality_ignores_spans() {
    let sp = |c: i32| Span { srow: 1, scol: c, erow: 1, ecol: c + 1, file: "f".to_string() };
    let a = Path { span: sp(1), parts: vec![SpannedString { span: sp(1), ident: "x".to_string() }] };
    let b = Path { span: sp(9), parts: vec![SpannedString { span: sp(9), ident: "x".to_string() }] };
    let c = Path { span: sp(1), parts: vec![SpannedString { span: sp(1), ident: "y".to_string() }] };
    assert!(a == b);
    assert!(a != c);
    assert!(a.parts[0] == b.parts[0]);
}

#[test]
fn new_reads_as_a_variable() {
    match &expr("new").expr {
        Expression_::Variable(p) => assert_eq!(p.parts[0].ident, "new"),
        other => panic!("{:?}", other),
    }
    let e = expr_error("new P { a: 1 }");
    match e.kind {
        ErrorKind::UnexpectedToken(Token::Identifier(s)) => assert_eq!(s, "P"),
        other => panic!("{:?}", other),
    }
}

#[test]
fn postfix_binds_before_binary_operators() {
    let e = expr("1 * a.b + 3");
    let (op, l, r) = binop(&e);
    assert_eq!(op, BinaryOp::Addition);
    assert_eq!(int_of(r), 3);
    let (op2, l2, r2) = binop(l);
    assert_eq!(op2, BinaryOp::Multiplication);
    assert_eq!(int_of(l2), 1);
    assert!(matches!(&r2.expr, Expression_::Field(_, n) if n.ident == "b"));
}

#[test]
fn line_break_ends_an_expression() {
    let e = parse("func f() {\nvar x: int = a\n+ b\n}").unwrap_err();
    match e.kind {
        ErrorKind::UnexpectedToken(t) => assert_eq!(t, Token::Symbol(Symbol::Plus)),
        other => panic!("{:?}", other),
    }
    assert_eq!((e.span.srow, e.span.scol), (3, 1));
}

#[test]
fn open_parenthesis_continues_over_line_breaks() {
    match &expr("f(a,\n b)").expr {
        Expression_::FuncCall(f, args) => {
            assert_eq!(var_name(f), "f");
            assert_eq!(args.len(), 2);
        },
        other => panic!("{:?}", other),
    }
}

#[test]
fn missing_colon_is_expected_got() {
    let e = parse("func f() {\nvar x int\n}").unwrap_err();
    match e.kind {
        ErrorKind::ExpectedGotToken(expected, got) => {
            assert_eq!(expected, Token::Symbol(Symbol::Colon));
            assert_eq!(got, Token::Identifier("int".to_string()));
        },
        other => panic!("{:?}", other),
    }
    assert_eq!((e.span.srow, e.span.scol, e.span.erow, e.span.ecol), (2, 7, 2, 10));
}

#[test]
fn statement_after_block_on_same_line_is_unexpected() {
    let e = parse("func f() {\nwhile a { } b\n}").unwrap_err();
    assert!(matches!(e.kind, ErrorKind::UnexpectedToken(Token::Identifier(ref s)) if s == "b"));
}

#[test]
fn assignment_statement() {
    let stmts = body("a.b = 1 + 2");
    match &stmts[0] {
        BlockStatement::VarAssignment(target, value) => {
            assert!(matches!(&target.expr, Expression_::Field(_, _)));
            assert_eq!(binop(value).0, BinaryOp::Addition);
        },
        other => panic!("{:?}", other),
    }
}

#[test]
fn blank_source_is_empty_ast() {
    assert_eq!(parse("  \t ").unwrap().statements.len(), 0);
}

#[test]
fn scanning_error_before_any_statement() {
    let e = parse("$").unwrap_err();
    assert!(matches!(e.kind, ErrorKind::Lexer(_)));
    assert_eq!(span4(&e.span), (1, 1, 1, 1));
}

#[test]
fn identifier_cannot_start_a_program() {
    match parse("x").unwrap_err().kind {
        ErrorKind::UnexpectedToken(t) => assert_eq!(t, Token::Identifier("x".to_string())),
        other => panic!("{:?}", other),
    }
}

#[test]
fn first_statement_matches_first_keyword() {
    let ast = parse("import \"a\"\nfunc f() {}\nstruct S {}\npackage p").unwrap();
    assert_eq!(ast.statements.len(), 4);
    assert!(matches!(ast.statements[0], Statement::Import(_)));
    assert!(matches!(ast.statements[1], Statement::FuncDecl(_)));
    assert!(matches!(ast.statements[2], Statement::StructDecl(_)));
    assert!(matches!(ast.statements[3], Statement::Package(_)));
}

fn parse_f(src: &str) -> Result<Ast, Error> {
    let reader = Reader::new(src, "f".to_string());
    let mut parser = Parser::new(reader);
    parser.parse()
}

#[test]
fn function_span_ends_before_trailing_line_break() {
    for src in ["func f() {}", "func f() {}\n"].iter() {
        let ast = parse_f(src).unwrap();
        assert_eq!(ast.statements.len(), 1);
        match &ast.statements[0] {
            Statement::FuncDecl(d) => {
                assert_eq!(d.name, "f");
                assert_eq!(d.span, Span { srow: 1, scol: 1, erow: 1, ecol: 12, file: "f".to_string() });
            },
            other => panic!("{:?}", other),
        }
    }
}

#[test]
fn unexpected_var_after_a_function() {
    let e = parse_f("func f() {}\nvar x: int").unwrap_err();
    match e.kind {
        ErrorKind::UnexpectedToken(t) => assert_eq!(t, Token::Keyword(Keyword::Var)),
        other => panic!("{:?}", other),
    }
    assert_eq!(e.span, Span { srow: 2, scol: 1, erow: 2, ecol: 4, file: "f".to_string() });
}

#[test]
fn package_and_import_spans() {
    let ast = parse_f("package main\nimport \"io\"").unwrap();
    match (&ast.statements[0], &ast.statements[1]) {
        (Statement::Package(p), Statement::Import(i)) => {
            assert_eq!(p.name, "main");
            assert_eq!(span4(&p.span), (1, 1, 1, 13));
            assert_eq!(i.path, "io");
            assert_eq!(span4(&i.span), (2, 1, 2, 12));
        },
        other => panic!("{:?}", other),
    }
}

#[test]
fn var_decl_span_ends_at_its_value() {
    let stmts = body("var x: int = 1\nvar y: int = 2");
    match &stmts[0] {
        BlockStatement::VarDecl(v) => assert_eq!(span4(&v.span), (2, 1, 2, 15)),
        other => panic!("{:?}", other),
    }
}

#[test]
fn bare_return_where_a_value_is_required() {
    let e = parse("func f() -> int {\nreturn\n}").unwrap_err();
    match e.kind {
        ErrorKind::UnexpectedToken(t) => assert_eq!(t, Token::Symbol(Symbol::RightBrace)),
        other => panic!("{:?}", other),
    }
}

#[test]
fn assignment_to_open_index() {
    let stmts = body("a[] = 1");
    match &stmts[0] {
        BlockStatement::VarAssignment(t, v) => {
            assert!(matches!(&t.expr, Expression_::Index(_, None)));
            assert_eq!(int_of(v), 1);
        },
        other => panic!("{:?}", other),
    }
}

#[test]
fn missing_comma_between_parameters() {
    assert!(matches!(
        parse("func f(a: int b: int) {}").unwrap_err().kind,
        ErrorKind::ExpectedGotToken(Token::Symbol(Symbol::Comma), _)
    ));
}

#[test]
fn errors_name_the_file() {
    let e = parse_f("struct P { x: int y: int }").unwrap_err();
    match e.kind {
        ErrorKind::ExpectedGotToken(expected, got) => {
            assert_eq!(expected, Token::Symbol(Symbol::Comma));
            assert_eq!(got, Token::Identifier("y".to_string()));
        },
        other => panic!("{:?}", other),
    }
    assert_eq!(e.span, Span { srow: 1, scol: 19, erow: 1, ecol: 20, file: "f".to_string() });
    let e2 = parse_f("func f() -> int { return }").unwrap_err();
    assert_eq!(e2.span, Span { srow: 1, scol: 26, erow: 1, ecol: 27, file: "f".to_string() });
}
