use vstd::prelude::*;
use crate::lexer::Span;

verus! {

/// A parsed source unit: its top-level statements in source order.
#[derive(Debug)]
pub struct Ast {
    pub statements: Vec<Statement>,
}

impl Ast {
    /// An empty tree.
    pub fn new() -> (r: Ast)
        ensures
            r.statements@.len() == 0,
    {
        Ast { statements: Vec::new() }
    }
}

/// A top-level statement.
#[derive(Debug)]
pub enum Statement {
    Import(Box<ImportData>),
    Package(Box<PackageData>),
    FuncDecl(Box<FuncDeclData>),
    StructDecl(Box<StructDeclData>),
}

/// `import "path"`.
#[derive(Debug, Clone)]
pub struct ImportData {
    pub span: Span,
    pub path: String,
}

/// `package name`.
#[derive(Debug, Clone)]
pub struct PackageData {
    pub span: Span,
    pub name: String,
}

/// A function: name, declared return type, parameters and body.
#[derive(Debug)]
pub struct FuncDeclData {
    pub span: Span,
    pub name: String,
    pub return_type: Type,
    pub parameters: Vec<Box<FuncDeclParamData>>,
    pub statements: Vec<BlockStatement>,
}

/// A statement inside a function, loop or conditional body.
#[derive(Debug)]
pub enum BlockStatement {
    Expression(Box<Expression>),
    VarDecl(Box<VarDeclData>),
    /// Assignment of the second expression to the first.
    VarAssignment(Box<Expression>, Box<Expression>),
    If(Box<IfData>),
    While(Box<WhileData>),
    Return(Box<ReturnData>),
    ForIn(Box<ForInData>),
}

/// `for element_name in collection { statements }`.
#[derive(Debug)]
pub struct ForInData {
    pub span: Span,
    pub element_name: String,
    pub collection: Expression,
    pub statements: Vec<BlockStatement>,
}

/// A `return`; it carries a value exactly when the enclosing function
/// declares a return type.
#[derive(Debug)]
pub struct ReturnData {
    pub span: Span,
    pub value: Option<Expression>,
    pub expected_type: Type,
}

/// `if condition { if_statements }`, with the statements of an `else`
/// branch if there is one (an `else if` is a single nested `If`).
#[derive(Debug)]
pub struct IfData {
    pub span: Span,
    pub condition: Expression,
    pub if_statements: Vec<BlockStatement>,
    pub else_statements: Option<Vec<BlockStatement>>,
}

/// `while condition { statements }`.
#[derive(Debug)]
pub struct WhileData {
    pub span: Span,
    pub condition: Expression,
    pub statements: Vec<BlockStatement>,
}

/// `var name: var_type`, with an optional initial value.
#[derive(Debug)]
pub struct VarDeclData {
    pub span: Span,
    pub name: String,
    pub var_type: Type,
    pub value: Option<Expression>,
}

/// A function parameter `name: param_type`.
#[derive(Debug)]
pub struct FuncDeclParamData {
    pub span: Span,
    pub name: String,
    pub param_type: Type,
    pub default_value: Option<Expression>,
}

/// A syntactic type annotation.
#[derive(Debug)]
pub enum Type {
    /// No value: a function without a declared return type.
    NoValue,
    Reference(Box<Type>),
    MutReference(Box<Type>),
    Array(Box<Type>),
    /// A map from the first type to the second.
    Mapping(Box<Type>, Box<Type>),
    /// A named type other than the four scalars, resolved later.
    Struct(Path),
    /// A function type: return type and parameter types.
    Func(Box<Type>, Vec<Box<Type>>),
    String,
    Int,
    Bool,
    Char,
}

/// A struct declaration: name and fields in declared order.
#[derive(Debug)]
pub struct StructDeclData {
    pub span: Span,
    pub name: String,
    pub fields: Vec<Box<StructFieldData>>,
}

/// A struct field `name: field_type`.
#[derive(Debug)]
pub struct StructFieldData {
    pub span: Span,
    pub name: String,
    pub field_type: Type,
    pub default_value: Option<Expression>,
}

/// An expression with the span of text it was parsed from.
#[derive(Debug)]
pub struct Expression {
    pub expr: Expression_,
    pub span: Span,
}

/// What an expression is.
#[derive(Debug)]
pub enum Expression_ {
    StringLiteral(String),
    IntegerLiteral(i64),
    BoolLiteral(bool),
    CharLiteral(char),
    Variable(Path),
    StructInit(Path, Vec<StructInitFieldData>),
    Array(Vec<Box<Expression>>),
    MapLiteral(MapLiteral),
    FuncCall(Box<Expression>, Vec<Box<Expression>>),
    Field(Box<Expression>, SpannedString),
    /// Indexing; without an index it denotes the open slot past the end.
    Index(Box<Expression>, Option<Box<Expression>>),
    UnaryOp(UnaryOp, Box<Expression>),
    BinaryOp(BinaryOp, Box<Expression>, Box<Expression>),
}

/// The entries of a map literal, keys pairwise distinct in structure.
#[derive(Debug)]
pub struct MapLiteral {
    pub entries: Vec<(Box<Expression>, Box<Expression>)>,
}

/// Binary operators.
#[derive(Debug, Clone, Copy, PartialEq, Eq, Structural)]
pub enum BinaryOp {
    Addition,
    Substraction,
    Multiplication,
    Division,
    Modulo,
    Equality,
    Inequality,
    Concatenation,
}

/// Prefix operators: `&`, `@`, `*` and the count `#`.
#[derive(Debug, Clone, Copy, PartialEq, Eq, Structural)]
pub enum UnaryOp {
    Reference,
    MutReference,
    Dereference,
    Count,
}

/// An operator of either arity.
#[derive(Debug, Clone, Copy, PartialEq, Eq, Structural)]
pub enum Op {
    Unary(UnaryOp),
    Binary(BinaryOp),
}

/// A `name: value` pair of a struct initializer.
#[derive(Debug)]
pub struct StructInitFieldData {
    pub span: Span,
    pub name: SpannedString,
    pub value: Box<Expression>,
}

/// A non-empty sequence of names separated by `::`.
#[derive(Debug, Clone)]
pub struct Path {
    pub span: Span,
    pub parts: Vec<SpannedString>,
}

/// A name with the span it was read from.
#[derive(Debug, Clone)]
pub struct SpannedString {
    pub span: Span,
    pub ident: String,
}


broadcast use vstd::std_specs::vec::group_vec_axioms;

/// Two name sequences spell the same names, spans aside.
pub open spec fn same_names(a: Seq<SpannedString>, b: Seq<SpannedString>) -> bool {
    &&& a.len() == b.len()
    &&& forall|i: int| 0 <= i < a.len() ==> #[trigger] a[i].ident@ == b[i].ident@
}

/// Two expressions have the same structure and content; spans are ignored.
pub open spec fn same_expr(a: Expression, b: Expression) -> bool
    decreases a,
{
    match a.expr {
        Expression_::StringLiteral(x) => b.expr matches Expression_::StringLiteral(y) && x@ == y@,
        Expression_::IntegerLiteral(x) => b.expr matches Expression_::IntegerLiteral(y) && x == y,
        Expression_::BoolLiteral(x) => b.expr matches Expression_::BoolLiteral(y) && x == y,
        Expression_::CharLiteral(x) => b.expr matches Expression_::CharLiteral(y) && x == y,
        Expression_::Variable(p) => b.expr matches Expression_::Variable(q) && same_names(p.parts@, q.parts@),
        Expression_::StructInit(p, f) => b.expr matches Expression_::StructInit(q, g)
            && same_names(p.parts@, q.parts@) && f@.len() == g@.len() && (forall|i: int|
            #![trigger f@[i]]
            0 <= i < f@.len() ==> f@[i].name.ident@ == g@[i].name.ident@ && same_expr(
                *f@[i].value,
                *g@[i].value,
            )),
        Expression_::Array(x) => b.expr matches Expression_::Array(y) && x@.len() == y@.len() && (
        forall|i: int| 0 <= i < x@.len() ==> same_expr(#[trigger] *x@[i], *y@[i])),
        Expression_::MapLiteral(m) => b.expr matches Expression_::MapLiteral(n) && m.entries@.len()
            == n.entries@.len() && (forall|i: int|
            #![trigger m.entries@[i]]
            0 <= i < m.entries@.len() ==> same_expr(*m.entries@[i].0, *n.entries@[i].0)
                && same_expr(*m.entries@[i].1, *n.entries@[i].1)),
        Expression_::FuncCall(f, x) => b.expr matches Expression_::FuncCall(g, y) && same_expr(*f, *g)
            && x@.len() == y@.len() && (forall|i: int|
            0 <= i < x@.len() ==> same_expr(#[trigger] *x@[i], *y@[i])),
        Expression_::Field(e, n) => b.expr matches Expression_::Field(e2, n2) && same_expr(*e, *e2)
            && n.ident@ == n2.ident@,
        Expression_::Index(e, i) => b.expr matches Expression_::Index(e2, i2) && same_expr(*e, *e2)
            && match (i, i2) {
            (None, None) => true,
            (Some(x), Some(y)) => same_expr(*x, *y),
            _ => false,
        },
        Expression_::UnaryOp(op, e) => b.expr matches Expression_::UnaryOp(op2, e2) && op == op2
            && same_expr(*e, *e2),
        Expression_::BinaryOp(op, l, r) => b.expr matches Expression_::BinaryOp(op2, l2, r2) && op
            == op2 && same_expr(*l, *l2) && same_expr(*r, *r2),
    }
}

/// `a` starts where `b` starts, in the same file.
pub open spec fn same_start(a: Span, b: Span) -> bool {
    a.srow == b.srow && a.scol == b.scol && a.file == b.file
}

/// A path has a name, and starts where its first name starts.
pub open spec fn path_wf(p: Path) -> bool {
    p.parts@.len() >= 1 && same_start(p.span, p.parts@[0].span)
}

/// Every path in the expression is well formed, every map literal has keys
/// of distinct structure, a variable spans its path, a field access spans
/// from its receiver to the field name, and a binary operation, call or
/// index starts where its first operand starts.
pub open spec fn expr_wf(e: Expression) -> bool
    decreases e,
{
    match e.expr {
        Expression_::StringLiteral(_) | Expression_::IntegerLiteral(_) | Expression_::BoolLiteral(_)
        | Expression_::CharLiteral(_) => true,
        Expression_::Variable(p) => path_wf(p) && e.span == p.span,
        Expression_::StructInit(p, f) => path_wf(p) && (forall|i: int|
            0 <= i < f@.len() ==> expr_wf(*(#[trigger] f@[i]).value) && same_start(
                f@[i].span,
                f@[i].name.span,
            )),
        Expression_::Array(x) => forall|i: int| 0 <= i < x@.len() ==> expr_wf(#[trigger] *x@[i]),
        Expression_::MapLiteral(m) => m.keys_distinct() && (forall|i: int|
            #![trigger m.entries@[i]]
            0 <= i < m.entries@.len() ==> expr_wf(*m.entries@[i].0) && expr_wf(*m.entries@[i].1)),
        Expression_::FuncCall(f, x) => expr_wf(*f) && same_start(e.span, f.span) && (forall|i: int|
            0 <= i < x@.len() ==> expr_wf(#[trigger] *x@[i])),
        Expression_::Field(r, n) => expr_wf(*r) && e.span == Span::joined(r.span, n.span),
        Expression_::Index(r, i) => expr_wf(*r) && same_start(e.span, r.span) && match i {
            Some(x) => expr_wf(*x),
            None => true,
        },
        Expression_::UnaryOp(_, x) => expr_wf(*x),
        Expression_::BinaryOp(_, l, r) => expr_wf(*l) && expr_wf(*r) && same_start(e.span, l.span),
    }
}

/// Every named type in `t` has a well-formed path.
pub open spec fn type_wf(t: Type) -> bool
    decreases t,
{
    match t {
        Type::Reference(x) | Type::MutReference(x) | Type::Array(x) => type_wf(*x),
        Type::Mapping(k, v) => type_wf(*k) && type_wf(*v),
        Type::Struct(p) => path_wf(p),
        Type::Func(r, ps) => type_wf(*r) && (forall|i: int| 0 <= i < ps@.len() ==> type_wf(#[trigger] *ps@[i])),
        _ => true,
    }
}

pub open spec fn opt_expr_wf(e: Option<Expression>) -> bool {
    match e {
        Some(x) => expr_wf(x),
        None => true,
    }
}

/// The statement's parts are well formed, and each `return` in it carries
/// a value exactly when `ret`, the enclosing function's return type, is not
/// `NoValue`, and records that type.
pub open spec fn block_wf(s: BlockStatement, ret: Type) -> bool
    decreases s,
{
    match s {
        BlockStatement::Expression(e) => expr_wf(*e),
        BlockStatement::VarDecl(d) => type_wf(d.var_type) && opt_expr_wf(d.value),
        BlockStatement::VarAssignment(a, b) => expr_wf(*a) && expr_wf(*b),
        BlockStatement::If(d) => expr_wf(d.condition) && (forall|i: int|
            0 <= i < d.if_statements@.len() ==> block_wf(#[trigger] d.if_statements@[i], ret))
            && match d.else_statements {
            Some(es) => forall|i: int| 0 <= i < es@.len() ==> block_wf(#[trigger] es@[i], ret),
            None => true,
        },
        BlockStatement::While(d) => expr_wf(d.condition) && (forall|i: int|
            0 <= i < d.statements@.len() ==> block_wf(#[trigger] d.statements@[i], ret)),
        BlockStatement::ForIn(d) => expr_wf(d.collection) && (forall|i: int|
            0 <= i < d.statements@.len() ==> block_wf(#[trigger] d.statements@[i], ret)),
        BlockStatement::Return(d) => (d.value is Some <==> !(ret is NoValue)) && same_type(
            ret,
            d.expected_type,
        ) && opt_expr_wf(d.value),
    }
}

/// Every statement of the list is well formed under return type `ret`.
pub open spec fn body_wf(b: Seq<BlockStatement>, ret: Type) -> bool {
    forall|i: int| 0 <= i < b.len() ==> block_wf(#[trigger] b[i], ret)
}

/// A top-level statement is well formed: types of parameters and fields,
/// and a function body under the function's declared return type.
pub open spec fn stmt_wf(s: Statement) -> bool {
    match s {
        Statement::FuncDecl(d) => type_wf(d.return_type) && (forall|i: int|
            0 <= i < d.parameters@.len() ==> type_wf((#[trigger] d.parameters@[i]).param_type))
            && body_wf(d.statements@, d.return_type),
        Statement::StructDecl(d) => forall|i: int|
            0 <= i < d.fields@.len() ==> type_wf((#[trigger] d.fields@[i]).field_type),
        _ => true,
    }
}

/// Every top-level statement is well formed.
pub open spec fn ast_wf(a: Ast) -> bool {
    forall|i: int| 0 <= i < a.statements@.len() ==> stmt_wf(#[trigger] a.statements@[i])
}

fn same_name_list(a: &Vec<SpannedString>, b: &Vec<SpannedString>) -> (r: bool)
    ensures
        r == same_names(a@, b@),
{
    if a.len() != b.len() {
        return false;
    }
    let mut i: usize = 0;
    while i < a.len()
        invariant
            a.len() == b.len(),
            i <= a.len(),
            forall|j: int| 0 <= j < i ==> #[trigger] a@[j].ident@ == b@[j].ident@,
        decreases a.len() - i,
    {
        if a[i].ident != b[i].ident {
            return false;
        }
        i = i + 1;
    }
    true
}

/// Whether two expressions have the same structure and content, spans aside.
pub fn same_expression(a: &Expression, b: &Expression) -> (r: bool)
    ensures
        r == same_expr(*a, *b),
    decreases a,
{
    match (&a.expr, &b.expr) {
        (Expression_::StringLiteral(x), Expression_::StringLiteral(y)) => *x == *y,
        (Expression_::IntegerLiteral(x), Expression_::IntegerLiteral(y)) => *x == *y,
        (Expression_::BoolLiteral(x), Expression_::BoolLiteral(y)) => *x == *y,
        (Expression_::CharLiteral(x), Expression_::CharLiteral(y)) => *x == *y,
        (Expression_::Variable(p), Expression_::Variable(q)) => same_name_list(&p.parts, &q.parts),
        (Expression_::StructInit(p, f), Expression_::StructInit(q, g)) => {
            if !same_name_list(&p.parts, &q.parts) || f.len() != g.len() {
                return false;
            }
            let mut i: usize = 0;
            while i < f.len()
                invariant
                    a.expr == Expression_::StructInit(*p, *f),
                    b.expr == Expression_::StructInit(*q, *g),
                    f.len() == g.len(),
                    i <= f.len(),
                    forall|j: int|
                        #![trigger f@[j]]
                        0 <= j < i ==> f@[j].name.ident@ == g@[j].name.ident@ && same_expr(
                            *f@[j].value,
                            *g@[j].value,
                        ),
                decreases f.len() - i,
            {
                proof {
                    let fs = a.expr->StructInit_1;
                    assert(decreases_to!(*a => a.expr));
                    assert(decreases_to!(a.expr => a.expr->StructInit_1));
                    assert(decreases_to!(fs => fs@));
                    assert(decreases_to!(fs@ => fs@[i as int]));
                    assert(decreases_to!(fs@[i as int] => fs@[i as int].value));
                }
                if f[i].name.ident != g[i].name.ident || !same_expression(&f[i].value, &g[i].value) {
                    return false;
                }
                assert(f@[i as int].name.ident@ == g@[i as int].name.ident@ && same_expr(*f@[i as int].value, *g@[i as int].value));
                i = i + 1;
            }
            true
        },
        (Expression_::Array(x), Expression_::Array(y)) => {
            assert(decreases_to!(*a => a.expr));
            assert(decreases_to!(a.expr => a.expr->Array_0));
            same_expression_list(a, x, y)
        },
        (Expression_::MapLiteral(m), Expression_::MapLiteral(n)) => {
            if m.entries.len() != n.entries.len() {
                return false;
            }
            let mut i: usize = 0;
            while i < m.entries.len()
                invariant
                    a.expr == Expression_::MapLiteral(*m),
                    b.expr == Expression_::MapLiteral(*n),
                    m.entries.len() == n.entries.len(),
                    i <= m.entries.len(),
                    forall|j: int|
                        #![trigger m.entries@[j]]
                        0 <= j < i ==> same_expr(*m.entries@[j].0, *n.entries@[j].0)
                            && same_expr(*m.entries@[j].1, *n.entries@[j].1),
                decreases m.entries.len() - i,
            {
                proof {
                    let ms = a.expr->MapLiteral_0;
                    assert(decreases_to!(*a => a.expr));
                    assert(decreases_to!(a.expr => a.expr->MapLiteral_0));
                    assert(decreases_to!(ms => ms.entries));
                    assert(decreases_to!(ms.entries => ms.entries@));
                    assert(decreases_to!(ms.entries@ => ms.entries@[i as int]));
                    assert(decreases_to!(ms.entries@[i as int] => ms.entries@[i as int].0));
                    assert(decreases_to!(ms.entries@[i as int] => ms.entries@[i as int].1));
                }
                if !same_expression(&m.entries[i].0, &n.entries[i].0) || !same_expression(
                    &m.entries[i].1,
                    &n.entries[i].1,
                ) {
                    assert(!(same_expr(*m.entries@[i as int].0, *n.entries@[i as int].0) && same_expr(
                        *m.entries@[i as int].1,
                        *n.entries@[i as int].1,
                    )));
                    return false;
                }
                assert(same_expr(*m.entries@[i as int].0, *n.entries@[i as int].0) && same_expr(*m.entries@[i as int].1, *n.entries@[i as int].1));
                i = i + 1;
            }
            true
        },
        (Expression_::FuncCall(f, x), Expression_::FuncCall(g, y)) => {
            assert(decreases_to!(*a => a.expr));
            assert(decreases_to!(a.expr => a.expr->FuncCall_1));
            same_expression(f, g) && same_expression_list(a, x, y)
        },
        (Expression_::Field(e, n), Expression_::Field(e2, n2)) => {
            same_expression(e, e2) && n.ident == n2.ident
        },
        (Expression_::Index(e, i), Expression_::Index(e2, i2)) => {
            same_expression(e, e2) && match (i, i2) {
                (None, None) => true,
                (Some(x), Some(y)) => same_expression(x, y),
                _ => false,
            }
        },
        (Expression_::UnaryOp(op, e), Expression_::UnaryOp(op2, e2)) => {
            *op == *op2 && same_expression(e, e2)
        },
        (Expression_::BinaryOp(op, l, r), Expression_::BinaryOp(op2, l2, r2)) => {
            *op == *op2 && same_expression(l, l2) && same_expression(r, r2)
        },
        _ => false,
    }
}

/// Whether two lists of expressions, parts of `parent`, agree item by item.
fn same_expression_list(parent: &Expression, x: &Vec<Box<Expression>>, y: &Vec<Box<Expression>>) -> (r: bool)
    requires
        decreases_to!(*parent => *x),
    ensures
        r == (x@.len() == y@.len() && forall|i: int| 0 <= i < x@.len() ==> same_expr(#[trigger] *x@[i], *y@[i])),
    decreases parent, 0int,
{
    if x.len() != y.len() {
        return false;
    }
    let mut i: usize = 0;
    while i < x.len()
        invariant
            decreases_to!(*parent => *x),
            x.len() == y.len(),
            i <= x.len(),
            forall|j: int| 0 <= j < i ==> same_expr(#[trigger] *x@[j], *y@[j]),
        decreases x.len() - i,
    {
        assert(decreases_to!(*x => x@));
        assert(decreases_to!(x@ => x@[i as int]));
        if !same_expression(&x[i], &y[i]) {
            return false;
        }
        i = i + 1;
    }
    true
}

impl MapLiteral {
    /// No two entries have keys of the same structure.
    pub open spec fn keys_distinct(&self) -> bool {
        forall|i: int, j: int|
            0 <= i < j < self.entries@.len() ==> !same_expr(
                *#[trigger] self.entries@[i].0,
                *#[trigger] self.entries@[j].0,
            )
    }

    /// Keys and values are well formed.
    pub open spec fn entries_wf(&self) -> bool {
        forall|i: int|
            #![trigger self.entries@[i]]
            0 <= i < self.entries@.len() ==> expr_wf(*self.entries@[i].0) && expr_wf(*self.entries@[i].1)
    }

    /// A map literal without entries.
    pub fn new() -> (r: MapLiteral)
        ensures
            r.entries@.len() == 0,
            r.keys_distinct(),
            r.entries_wf(),
    {
        MapLiteral { entries: Vec::new() }
    }

    /// Adds an entry. Where an entry with a key of the same structure is
    /// there already, its value is replaced and its key kept; otherwise the
    /// entry goes at the end.
    pub fn insert(&mut self, key: Expression, value: Expression)
        requires
            old(self).keys_distinct(),
        ensures
            final(self).keys_distinct(),
            old(self).entries_wf() && expr_wf(key) && expr_wf(value) ==> final(self).entries_wf(),
            (forall|i: int| 0 <= i < old(self).entries@.len() ==> !same_expr(*#[trigger] old(self).entries@[i].0, key))
                ==> final(self).entries@ == old(self).entries@.push((Box::new(key), Box::new(value))),
            forall|k: int|
                0 <= k < old(self).entries@.len() && same_expr(*#[trigger] old(self).entries@[k].0, key)
                    && (forall|i: int| 0 <= i < k ==> !same_expr(*#[trigger] old(self).entries@[i].0, key))
                    ==> final(self).entries@ == old(self).entries@.update(
                    k,
                    (old(self).entries@[k].0, Box::new(value)),
                ),
    {
        let mut i: usize = 0;
        while i < self.entries.len()
            invariant
                *self == *old(self),
                self.keys_distinct(),
                i <= self.entries@.len(),
                forall|j: int| 0 <= j < i ==> !same_expr(*#[trigger] self.entries@[j].0, key),
            decreases self.entries@.len() - i,
        {
            if same_expression(&self.entries[i].0, &key) {
                let ghost before = self.entries@;
                let (k, _) = self.entries.remove(i);
                self.entries.insert(i, (k, Box::new(value)));
                assert(self.entries@ =~= before.update(i as int, (before[i as int].0, Box::new(value))));
                assert forall|x: int, y: int|
                    0 <= x < y < self.entries@.len() implies !same_expr(
                    *#[trigger] self.entries@[x].0,
                    *#[trigger] self.entries@[y].0,
                ) by {
                    assert(self.entries@[x].0 == before[x].0);
                    assert(self.entries@[y].0 == before[y].0);
                }
                assert(old(self).entries_wf() && expr_wf(key) && expr_wf(value) ==> self.entries_wf()) by {
                    if old(self).entries_wf() && expr_wf(value) {
                        assert forall|j: int| 0 <= j < self.entries@.len() implies expr_wf(
                            *(#[trigger] self.entries@[j]).0,
                        ) && expr_wf(*self.entries@[j].1) by {
                            assert(before[j] == old(self).entries@[j]);
                        }
                    }
                }
                return;
            }
            i = i + 1;
        }
        let ghost before = self.entries@;
        self.entries.push((Box::new(key), Box::new(value)));
        assert(old(self).entries_wf() && expr_wf(key) && expr_wf(value) ==> self.entries_wf()) by {
            if old(self).entries_wf() && expr_wf(key) && expr_wf(value) {
                assert forall|j: int| 0 <= j < self.entries@.len() implies expr_wf(
                    *(#[trigger] self.entries@[j]).0,
                ) && expr_wf(*self.entries@[j].1) by {
                    if j < before.len() {
                        assert(self.entries@[j] == old(self).entries@[j]);
                    }
                }
            }
        }
    }
}

/// Two types are the same, named types by their path's names and spans.
pub open spec fn same_type(a: Type, b: Type) -> bool
    decreases a,
{
    match a {
        Type::NoValue => b is NoValue,
        Type::String => b is String,
        Type::Int => b is Int,
        Type::Bool => b is Bool,
        Type::Char => b is Char,
        Type::Reference(x) => b matches Type::Reference(y) && same_type(*x, *y),
        Type::MutReference(x) => b matches Type::MutReference(y) && same_type(*x, *y),
        Type::Array(x) => b matches Type::Array(y) && same_type(*x, *y),
        Type::Mapping(k, v) => b matches Type::Mapping(k2, v2) && same_type(*k, *k2) && same_type(
            *v,
            *v2,
        ),
        Type::Struct(p) => b matches Type::Struct(q) && p.span == q.span && p.parts@ == q.parts@,
        Type::Func(r, ps) => b matches Type::Func(r2, ps2) && same_type(*r, *r2) && ps@.len()
            == ps2@.len() && (forall|i: int| 0 <= i < ps@.len() ==> same_type(#[trigger] *ps@[i], *ps2@[i])),
    }
}

impl Type {
    /// A copy of this type.
    pub fn duplicate(&self) -> (r: Type)
        ensures
            same_type(*self, r),
        decreases self,
    {
        match self {
            Type::NoValue => Type::NoValue,
            Type::String => Type::String,
            Type::Int => Type::Int,
            Type::Bool => Type::Bool,
            Type::Char => Type::Char,
            Type::Reference(x) => Type::Reference(Box::new(x.duplicate())),
            Type::MutReference(x) => Type::MutReference(Box::new(x.duplicate())),
            Type::Array(x) => Type::Array(Box::new(x.duplicate())),
            Type::Mapping(k, v) => Type::Mapping(Box::new(k.duplicate()), Box::new(v.duplicate())),
            Type::Struct(p) => Type::Struct(p.duplicate()),
            Type::Func(r, ps) => {
                let mut out: Vec<Box<Type>> = Vec::new();
                let mut i: usize = 0;
                while i < ps.len()
                    invariant
                        *self == Type::Func(*r, *ps),
                        i <= ps@.len(),
                        out@.len() == i,
                        forall|j: int| 0 <= j < i ==> same_type(#[trigger] *ps@[j], *out@[j]),
                    decreases ps@.len() - i,
                {
                    proof {
                        assert(decreases_to!(*self => self->Func_1));
                        assert(decreases_to!(*ps => ps@));
                        assert(decreases_to!(ps@ => ps@[i as int]));
                    }
                    out.push(Box::new(ps[i].duplicate()));
                    i = i + 1;
                }
                Type::Func(Box::new(r.duplicate()), out)
            },
        }
    }
}

/// Names are equal when they are spelled alike, wherever they stand.
impl PartialEq for SpannedString {
    fn eq(&self, other: &SpannedString) -> (r: bool) {
        self.ident == other.ident
    }
}

impl vstd::std_specs::cmp::PartialEqSpecImpl for SpannedString {
    open spec fn obeys_eq_spec() -> bool {
        true
    }

    open spec fn eq_spec(&self, other: &SpannedString) -> bool {
        self.ident@ == other.ident@
    }
}

/// Paths are equal when their names are, spans aside.
impl PartialEq for Path {
    fn eq(&self, other: &Path) -> (r: bool) {
        same_name_list(&self.parts, &other.parts)
    }
}

impl vstd::std_specs::cmp::PartialEqSpecImpl for Path {
    open spec fn obeys_eq_spec() -> bool {
        true
    }

    open spec fn eq_spec(&self, other: &Path) -> bool {
        same_names(self.parts@, other.parts@)
    }
}

impl SpannedString {
    /// A copy of this name.
    pub fn duplicate(&self) -> (r: SpannedString)
        ensures
            r == *self,
    {
        SpannedString { span: self.span.duplicate(), ident: self.ident.clone() }
    }
}

impl Path {
    /// A copy of this path.
    pub fn duplicate(&self) -> (r: Path)
        ensures
            r.span == self.span,
            r.parts@ == self.parts@,
    {
        let mut parts: Vec<SpannedString> = Vec::new();
        let mut i: usize = 0;
        while i < self.parts.len()
            invariant
                i <= self.parts@.len(),
                parts@ == self.parts@.subrange(0, i as int),
            decreases self.parts@.len() - i,
        {
            parts.push(self.parts[i].duplicate());
            assert(self.parts@.subrange(0, i + 1) =~= self.parts@.subrange(0, i as int).push(self.parts@[i as int]));
            i = i + 1;
        }
        assert(self.parts@.subrange(0, self.parts@.len() as int) =~= self.parts@);
        Path { span: self.span.duplicate(), parts: parts }
    }

    /// The names of `path1` followed by those of `path2`, spanning from the
    /// start of the first to the end of the second.
    pub fn concat(path1: Path, path2: Path) -> (r: Path)
        ensures
            r.parts@ == path1.parts@ + path2.parts@,
            r.span == Span::joined(path1.span, path2.span),
    {
        let mut new_parts = path1.parts;
        let mut rest = path2.parts;
        new_parts.append(&mut rest);
        Path { span: Span::concat(path1.span, path2.span), parts: new_parts }
    }
}

} // verus!
