use std::rc::Rc;
use vstd::prelude::*;

verus! {

/// The kind tag of a syntax node.
#[derive(Clone, Copy, Debug, PartialEq, Eq, Structural)]
pub enum NodeType {
    Program,
    Body,
    VarDeclaration,
    FunctionDeclaration,
    Return,
    If,
    While,
    For,
    Identifier,
    BinaryExpr,
    ComparativeExpr,
    AssignmentExpr,
    MemberExpr,
    CallExpr,
    NumericLiteral,
    NullLiteral,
    Property,
    Object,
    List,
    String,
}

/// A name, read from the scope chain when evaluated.
#[derive(Debug)]
pub struct Identifier {
    pub symbol: String,
}

/// A numeric literal, held as its source text (digits and dots).
#[derive(Debug)]
pub struct NumericLiteral {
    pub value: String,
}

#[derive(Debug)]
pub struct StringLiteral {
    pub string: String,
}

/// An arithmetic operation: `+ - * / %`.
#[derive(Debug)]
pub struct BinaryExpr {
    pub left: Box<Expr>,
    pub right: Box<Expr>,
    pub operator: String,
}

/// A comparison: `== != < > <= >=`.
#[derive(Debug)]
pub struct ComparativeExpr {
    pub left: Box<Expr>,
    pub right: Box<Expr>,
    pub operator: String,
}

#[derive(Debug)]
pub struct AssignmentExpr {
    pub assignee: Box<Expr>,
    pub value: Box<Expr>,
}

/// `key: value`, or the shorthand `key`, which takes the value of the
/// variable of that name.
#[derive(Debug)]
pub struct Property {
    pub key: String,
    pub value: Option<Box<Expr>>,
}

#[derive(Debug)]
pub struct ObjectLiteral {
    pub properties: Vec<Property>,
}

#[derive(Debug)]
pub struct ListLiteral {
    pub elements: Vec<Expr>,
}

/// `object.property` (not computed) or `object[property]` (computed).
#[derive(Debug)]
pub struct MemberExpr {
    pub object: Box<Expr>,
    pub property: Box<Expr>,
    pub computed: bool,
}

#[derive(Debug)]
pub struct CallExpr {
    pub args: Vec<Expr>,
    pub caller: Box<Expr>,
}

#[derive(Debug)]
pub enum Expr {
    Identifier(Identifier),
    NumericLiteral(NumericLiteral),
    StringLiteral(StringLiteral),
    Binary(BinaryExpr),
    Comparative(ComparativeExpr),
    Assignment(AssignmentExpr),
    Object(ObjectLiteral),
    List(ListLiteral),
    Member(MemberExpr),
    Call(CallExpr),
}

/// A block: the unit of lexical scoping.
#[derive(Debug)]
pub struct Body {
    pub body: Vec<Stmt>,
}

/// The root of a parsed source text.
#[derive(Debug)]
pub struct Program {
    pub body: Body,
}

#[derive(Debug)]
pub struct VarDeclaration {
    pub constant: bool,
    pub identifier: String,
    pub value: Expr,
}

#[derive(Debug)]
pub struct FunctionDeclaration {
    pub parameters: Vec<String>,
    pub name: String,
    pub body: Body,
}

#[derive(Debug)]
pub struct ReturnStmt {
    pub value: Expr,
}

/// `if`; an `else if` is an else-body holding one nested `if`.
#[derive(Debug)]
pub struct IfStmt {
    pub condition: Expr,
    pub body: Body,
    pub else_stmt: Option<Body>,
}

#[derive(Debug)]
pub struct WhileStmt {
    pub condition: Expr,
    pub body: Body,
}

#[derive(Debug)]
pub struct ForStmt {
    pub variable: String,
    pub iterable: Expr,
    pub body: Body,
}

/// A statement; every expression is one too.
#[derive(Debug)]
pub enum Stmt {
    Expr(Expr),
    Body(Body),
    VarDeclaration(VarDeclaration),
    FunctionDeclaration(Rc<FunctionDeclaration>),
    Return(ReturnStmt),
    If(IfStmt),
    While(WhileStmt),
    For(ForStmt),
}

pub open spec fn expr_kind(e: Expr) -> NodeType {
    match e {
        Expr::Identifier(_) => NodeType::Identifier,
        Expr::NumericLiteral(_) => NodeType::NumericLiteral,
        Expr::StringLiteral(_) => NodeType::String,
        Expr::Binary(_) => NodeType::BinaryExpr,
        Expr::Comparative(_) => NodeType::ComparativeExpr,
        Expr::Assignment(_) => NodeType::AssignmentExpr,
        Expr::Object(_) => NodeType::Object,
        Expr::List(_) => NodeType::List,
        Expr::Member(_) => NodeType::MemberExpr,
        Expr::Call(_) => NodeType::CallExpr,
    }
}

pub open spec fn stmt_kind(s: Stmt) -> NodeType {
    match s {
        Stmt::Expr(e) => expr_kind(e),
        Stmt::Body(_) => NodeType::Body,
        Stmt::VarDeclaration(_) => NodeType::VarDeclaration,
        Stmt::FunctionDeclaration(_) => NodeType::FunctionDeclaration,
        Stmt::Return(_) => NodeType::Return,
        Stmt::If(_) => NodeType::If,
        Stmt::While(_) => NodeType::While,
        Stmt::For(_) => NodeType::For,
    }
}


/// The mathematical form of an expression: texts as character sequences,
/// lists as sequences.
pub enum ExprModel {
    Identifier(Seq<char>),
    Number(Seq<char>),
    Str(Seq<char>),
    Binary(Box<ExprModel>, Seq<char>, Box<ExprModel>),
    Comparative(Box<ExprModel>, Seq<char>, Box<ExprModel>),
    Assignment(Box<ExprModel>, Box<ExprModel>),
    Object(Seq<(Seq<char>, Option<ExprModel>)>),
    List(Seq<ExprModel>),
    Member(Box<ExprModel>, Box<ExprModel>, bool),
    Call(Box<ExprModel>, Seq<ExprModel>),
}

/// The mathematical form of a statement.
pub enum StmtModel {
    Expr(ExprModel),
    Body(Seq<StmtModel>),
    Var(bool, Seq<char>, ExprModel),
    Function(Seq<char>, Seq<Seq<char>>, Seq<StmtModel>),
    Return(ExprModel),
    If(ExprModel, Seq<StmtModel>, Option<Seq<StmtModel>>),
    While(ExprModel, Seq<StmtModel>),
    For(Seq<char>, ExprModel, Seq<StmtModel>),
}

pub open spec fn expr_view(e: Expr) -> ExprModel
    decreases e, 0nat,
{
    match e {
        Expr::Identifier(i) => ExprModel::Identifier(i.symbol@),
        Expr::NumericLiteral(n) => ExprModel::Number(n.value@),
        Expr::StringLiteral(s) => ExprModel::Str(s.string@),
        Expr::Binary(b) => ExprModel::Binary(
            Box::new(expr_view(*b.left)),
            b.operator@,
            Box::new(expr_view(*b.right)),
        ),
        Expr::Comparative(c) => ExprModel::Comparative(
            Box::new(expr_view(*c.left)),
            c.operator@,
            Box::new(expr_view(*c.right)),
        ),
        Expr::Assignment(a) => ExprModel::Assignment(
            Box::new(expr_view(*a.assignee)),
            Box::new(expr_view(*a.value)),
        ),
        Expr::Object(o) => ExprModel::Object(props_view(o.properties@, o.properties@.len())),
        Expr::List(l) => ExprModel::List(exprs_view(l.elements@, l.elements@.len())),
        Expr::Member(m) => ExprModel::Member(
            Box::new(expr_view(*m.object)),
            Box::new(expr_view(*m.property)),
            m.computed,
        ),
        Expr::Call(c) => ExprModel::Call(
            Box::new(expr_view(*c.caller)),
            exprs_view(c.args@, c.args@.len()),
        ),
    }
}

/// The forms of the first `n` expressions.
pub open spec fn exprs_view(es: Seq<Expr>, n: nat) -> Seq<ExprModel>
    decreases es, n,
{
    if n == 0 || n > es.len() {
        Seq::empty()
    } else {
        exprs_view(es, (n - 1) as nat).push(expr_view(es[n - 1]))
    }
}

/// The forms of the first `n` properties.
pub open spec fn props_view(ps: Seq<Property>, n: nat) -> Seq<(Seq<char>, Option<ExprModel>)>
    decreases ps, n,
{
    if n == 0 || n > ps.len() {
        Seq::empty()
    } else {
        props_view(ps, (n - 1) as nat).push(
            (
                ps[n - 1].key@,
                match ps[n - 1].value {
                    Some(v) => Some(expr_view(*v)),
                    None => None,
                },
            ),
        )
    }
}

pub open spec fn stmt_view(s: Stmt) -> StmtModel
    decreases s, 0nat,
{
    match s {
        Stmt::Expr(e) => StmtModel::Expr(expr_view(e)),
        Stmt::Body(b) => StmtModel::Body(stmts_view(b.body@, b.body@.len())),
        Stmt::VarDeclaration(d) => StmtModel::Var(d.constant, d.identifier@, expr_view(d.value)),
        Stmt::FunctionDeclaration(f) => StmtModel::Function(
            f.name@,
            names_view(f.parameters@),
            stmts_view(f.body.body@, f.body.body@.len()),
        ),
        Stmt::Return(r) => StmtModel::Return(expr_view(r.value)),
        Stmt::If(i) => StmtModel::If(
            expr_view(i.condition),
            stmts_view(i.body.body@, i.body.body@.len()),
            match i.else_stmt {
                Some(b) => Some(stmts_view(b.body@, b.body@.len())),
                None => None,
            },
        ),
        Stmt::While(w) => StmtModel::While(
            expr_view(w.condition),
            stmts_view(w.body.body@, w.body.body@.len()),
        ),
        Stmt::For(f) => StmtModel::For(
            f.variable@,
            expr_view(f.iterable),
            stmts_view(f.body.body@, f.body.body@.len()),
        ),
    }
}

/// The forms of the first `n` statements.
pub open spec fn stmts_view(ss: Seq<Stmt>, n: nat) -> Seq<StmtModel>
    decreases ss, n,
{
    if n == 0 || n > ss.len() {
        Seq::empty()
    } else {
        stmts_view(ss, (n - 1) as nat).push(stmt_view(ss[n - 1]))
    }
}

pub open spec fn names_view(ns: Seq<String>) -> Seq<Seq<char>> {
    ns.map_values(|n: String| n@)
}

pub open spec fn body_view(b: Body) -> Seq<StmtModel> {
    stmts_view(b.body@, b.body@.len())
}

pub proof fn lemma_exprs_view_push(es: Seq<Expr>, e: Expr)
    ensures
        exprs_view(es.push(e), es.len() + 1) == exprs_view(es, es.len()).push(expr_view(e)),
{
    lemma_exprs_view_prefix(es.push(e), es, es.len());
}

proof fn lemma_exprs_view_prefix(a: Seq<Expr>, b: Seq<Expr>, n: nat)
    requires
        n <= b.len(),
        n <= a.len(),
        forall|k: int| 0 <= k < n ==> a[k] == b[k],
    ensures
        exprs_view(a, n) == exprs_view(b, n),
    decreases n,
{
    if n > 0 {
        lemma_exprs_view_prefix(a, b, (n - 1) as nat);
    }
}

pub proof fn lemma_props_view_push(ps: Seq<Property>, p: Property)
    ensures
        props_view(ps.push(p), ps.len() + 1) == props_view(ps, ps.len()).push(
            (
                p.key@,
                match p.value {
                    Some(v) => Some(expr_view(*v)),
                    None => None,
                },
            ),
        ),
{
    lemma_props_view_prefix(ps.push(p), ps, ps.len());
}

proof fn lemma_props_view_prefix(a: Seq<Property>, b: Seq<Property>, n: nat)
    requires
        n <= b.len(),
        n <= a.len(),
        forall|k: int| 0 <= k < n ==> a[k] == b[k],
    ensures
        props_view(a, n) == props_view(b, n),
    decreases n,
{
    if n > 0 {
        lemma_props_view_prefix(a, b, (n - 1) as nat);
    }
}

pub proof fn lemma_stmts_view_push(ss: Seq<Stmt>, s: Stmt)
    ensures
        stmts_view(ss.push(s), ss.len() + 1) == stmts_view(ss, ss.len()).push(stmt_view(s)),
{
    lemma_stmts_view_prefix(ss.push(s), ss, ss.len());
}

proof fn lemma_stmts_view_prefix(a: Seq<Stmt>, b: Seq<Stmt>, n: nat)
    requires
        n <= b.len(),
        n <= a.len(),
        forall|k: int| 0 <= k < n ==> a[k] == b[k],
    ensures
        stmts_view(a, n) == stmts_view(b, n),
    decreases n,
{
    if n > 0 {
        lemma_stmts_view_prefix(a, b, (n - 1) as nat);
    }
}

impl Expr {
    pub fn get_kind(&self) -> (r: NodeType)
        ensures
            r == expr_kind(*self),
    {
        match self {
            Expr::Identifier(_) => NodeType::Identifier,
            Expr::NumericLiteral(_) => NodeType::NumericLiteral,
            Expr::StringLiteral(_) => NodeType::String,
            Expr::Binary(_) => NodeType::BinaryExpr,
            Expr::Comparative(_) => NodeType::ComparativeExpr,
            Expr::Assignment(_) => NodeType::AssignmentExpr,
            Expr::Object(_) => NodeType::Object,
            Expr::List(_) => NodeType::List,
            Expr::Member(_) => NodeType::MemberExpr,
            Expr::Call(_) => NodeType::CallExpr,
        }
    }
}

impl Body {
    pub fn new(body: Vec<Stmt>) -> (r: Body)
        ensures
            r.body == body,
    {
        Body { body }
    }
}

impl Stmt {
    pub fn get_kind(&self) -> (r: NodeType)
        ensures
            r == stmt_kind(*self),
    {
        match self {
            Stmt::Expr(e) => e.get_kind(),
            Stmt::Body(_) => NodeType::Body,
            Stmt::VarDeclaration(_) => NodeType::VarDeclaration,
            Stmt::FunctionDeclaration(_) => NodeType::FunctionDeclaration,
            Stmt::Return(_) => NodeType::Return,
            Stmt::If(_) => NodeType::If,
            Stmt::While(_) => NodeType::While,
            Stmt::For(_) => NodeType::For,
        }
    }
}

/// Relies on Rc::clone: another pointer to the same allocation, so the
/// same contents.
#[verifier::external_body]
pub(crate) fn share<T>(r: &Rc<T>) -> (s: Rc<T>)
    ensures
        s == *r,
{
    Rc::clone(r)
}

} // verus!
