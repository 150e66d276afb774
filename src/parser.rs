use std::rc::Rc;
use vstd::prelude::*;

use crate::ast::{
    body_view, expr_view, exprs_view, lemma_exprs_view_push, lemma_props_view_push,
    lemma_stmts_view_push, names_view, props_view, stmt_view, stmts_view, AssignmentExpr,
    BinaryExpr, Body, CallExpr, ComparativeExpr, Expr, ExprModel, ForStmt, FunctionDeclaration,
    IfStmt, Identifier, ListLiteral, MemberExpr, NumericLiteral, ObjectLiteral, Program,
    Property, ReturnStmt, Stmt, StmtModel, StringLiteral, VarDeclaration, WhileStmt,
};
use crate::grammar::{
    add_rest, additive, args, args_list, args_rest, assignment, body, body_rest, call_expr,
    call_member, comp_rest, comparative, comparison_width, dot_count, expr, for_stmt, func_decl,
    if_stmt, is_op_at, kind_at, member, member_rest, mul_rest, multiplicative, obj_props, object,
    params_of, parse_source, primary, program_rest, return_stmt, stmt, text_at,
    valid_number_text, var_decl, while_stmt, Parsed,
};
use crate::error::FatalError;
use crate::lexer::{lex, token_views, Token, TokenType, Tokenizer};
use crate::LoggingLevel;

verus! {

/// The text of a token, which every token produced by the tokenizer has.
fn text_of(t: &Token) -> (r: String)
    requires
        t.value is Some,
    ensures
        r@ == t@.1,
{
    match &t.value {
        Some(s) => s.clone(),
        None => String::new(),
    }
}

/// Whether `t` is the one-character operator `op`.
fn is_operator(t: &Token, op: char) -> (r: bool)
    ensures
        r == (t@.0 == TokenType::BinaryOperator && t@.1 == seq![op]),
{
    if t.token_type != TokenType::BinaryOperator {
        return false;
    }
    match &t.value {
        Some(s) => {
            let v: &str = s.as_str();
            let n = v.unicode_len();
            if n == 1 {
                let c = v.get_char(0);
                if c == op {
                    assert(v@ =~= seq![op]);
                    true
                } else {
                    false
                }
            } else {
                false
            }
        },
        None => false,
    }
}

fn count_dots(s: &String) -> (r: usize)
    ensures
        r as nat == dot_count(s@) || (r == 2 && dot_count(s@) >= 2),
{
    let v: &str = s.as_str();
    let n = v.unicode_len();
    let mut i: usize = 0;
    let mut count: usize = 0;
    while i < n
        invariant
            n == v@.len(),
            v@ == s@,
            i <= n,
            count <= 2,
            count as nat == dot_count(v@.subrange(0, i as int)) || (count == 2 && dot_count(
                v@.subrange(0, i as int),
            ) >= 2),
        decreases n - i,
    {
        let c = v.get_char(i);
        assert(v@.subrange(0, i + 1).drop_last() =~= v@.subrange(0, i as int));
        if c == '.' && count < 2 {
            count = count + 1;
        }
        i = i + 1;
    }
    assert(v@.subrange(0, n as int) =~= v@);
    count
}

/// `r` is what the grammar gives: the expression `v` with parsing going on
/// at `q`, or a fatal error.
pub open spec fn gives_expr(r: Result<Expr, FatalError>, end: int, g: Parsed<ExprModel>) -> bool {
    match g {
        Parsed::Done(v, q) => r is Ok && expr_view(r->Ok_0) == v && end == q,
        Parsed::Failed => r is Err,
    }
}

pub open spec fn gives_exprs(r: Result<Vec<Expr>, FatalError>, end: int, g: Parsed<Seq<ExprModel>>) -> bool {
    match g {
        Parsed::Done(v, q) => r is Ok && exprs_view(r->Ok_0@, r->Ok_0@.len()) == v && end == q,
        Parsed::Failed => r is Err,
    }
}

pub open spec fn gives_stmt(r: Result<Stmt, FatalError>, end: int, g: Parsed<StmtModel>) -> bool {
    match g {
        Parsed::Done(v, q) => r is Ok && stmt_view(r->Ok_0) == v && end == q,
        Parsed::Failed => r is Err,
    }
}

pub open spec fn gives_opt_stmt(
    r: Result<Option<Stmt>, FatalError>,
    end: int,
    g: Parsed<Option<StmtModel>>,
) -> bool {
    match g {
        Parsed::Done(None, q) => r == Ok::<Option<Stmt>, FatalError>(None) && end == q,
        Parsed::Done(Some(v), q) => (r matches Ok(Some(s)) && stmt_view(s) == v) && end == q,
        Parsed::Failed => r is Err,
    }
}

pub open spec fn gives_body(r: Result<Body, FatalError>, end: int, g: Parsed<Seq<StmtModel>>) -> bool {
    match g {
        Parsed::Done(v, q) => r is Ok && body_view(r->Ok_0) == v && end == q,
        Parsed::Failed => r is Err,
    }
}

proof fn lemma_params_none_extends(es: Seq<Expr>, n: nat, m: nat)
    requires
        n <= m <= es.len(),
        params_of(exprs_view(es, n)) is None,
    ensures
        params_of(exprs_view(es, m)) is None,
    decreases m - n,
{
    if n < m {
        lemma_params_none_extends(es, n, (m - 1) as nat);
        assert(exprs_view(es, m).drop_last() == exprs_view(es, (m - 1) as nat));
    }
}

/// The names of a parameter list, if every parameter is an identifier.
fn param_names(args: &Vec<Expr>) -> (r: Option<Vec<String>>)
    ensures
        match params_of(exprs_view(args@, args@.len())) {
            Some(ns) => r is Some && names_view(r->Some_0@) == ns,
            None => r is None,
        },
{
    let mut parameters: Vec<String> = Vec::new();
    let mut i: usize = 0;
    assert(names_view(parameters@) =~= Seq::<Seq<char>>::empty());
    while i < args.len()
        invariant
            i <= args.len(),
            params_of(exprs_view(args@, i as nat)) == Some(names_view(parameters@)),
        decreases args.len() - i,
    {
        assert(exprs_view(args@, (i + 1) as nat) == exprs_view(args@, i as nat).push(
            expr_view(args@[i as int]),
        ));
        assert(exprs_view(args@, (i + 1) as nat).drop_last() == exprs_view(args@, i as nat));
        assert(exprs_view(args@, (i + 1) as nat).last() == expr_view(args@[i as int]));
        match &args[i] {
            Expr::Identifier(id) => {
                let ghost before = parameters@;
                parameters.push(id.symbol.clone());
                assert(names_view(parameters@) =~= names_view(before).push(id.symbol@));
            },
            _ => {
                proof {
                    lemma_params_none_extends(args@, (i + 1) as nat, args@.len());
                }
                return None;
            },
        }
        i = i + 1;
    }
    Some(parameters)
}

/// Builds the syntax tree of a source text by recursive descent.
pub struct Parser {
    pub tokens: Vec<Token>,
    pub pos: usize,
    /// Messages of the non-fatal complaints met while parsing.
    pub warnings: Vec<String>,
}

impl Parser {
    /// Tokens are left to read, and the last of them is the end of file.
    pub open spec fn wf(&self) -> bool {
        &&& self.tokens.len() > 0
        &&& self.pos < self.tokens.len()
        &&& self.tokens@.last()@.0 == TokenType::EOF
        &&& forall|k: int| 0 <= k < self.tokens.len() ==> (#[trigger] self.tokens@[k]).value is Some
    }

    /// What the parser leaves unchanged while it reads on.
    pub open spec fn reads_on(&self, next: &Parser) -> bool {
        &&& next.wf()
        &&& next.tokens@ == self.tokens@
        &&& self.pos <= next.pos
    }

    /// The token sequence, as kinds and texts.
    pub open spec fn toks(&self) -> Seq<(TokenType, Seq<char>)> {
        token_views(self.tokens@)
    }

    pub open spec fn remaining(&self) -> int {
        self.tokens.len() - self.pos
    }

    pub open spec fn current(&self) -> (TokenType, Seq<char>) {
        self.tokens@[self.pos as int]@
    }

    /// The kind of the token `k` places ahead, or end of file past the end.
    pub open spec fn kind_ahead(&self, k: int) -> TokenType {
        if self.pos + k < self.tokens.len() {
            self.tokens@[self.pos + k]@.0
        } else {
            TokenType::EOF
        }
    }

    pub fn new() -> (r: Parser)
        ensures
            r.tokens@.len() == 0,
            r.pos == 0,
    {
        Parser { tokens: Vec::new(), pos: 0, warnings: Vec::new() }
    }

    /// The width of the comparison operator at the current token, if one
    /// starts there.
    pub fn at_comparative_expr(&self) -> (r: Option<usize>)
        requires
            self.wf(),
        ensures
            r == comparison_width(self.kind_ahead(0), self.kind_ahead(1)),
    {
        let token1 = self.at().get_token_type();
        if token1 == TokenType::EOF {
            return None;
        }
        let token2 = if self.pos + 1 < self.tokens.len() {
            self.look_ahead(1).get_token_type()
        } else {
            TokenType::EOF
        };
        if token2 == TokenType::Equals && (token1 == TokenType::Equals || token1
            == TokenType::RightAngleBracket || token1 == TokenType::LeftAngleBracket || token1
            == TokenType::Bang) {
            Some(2)
        } else if token1 == TokenType::LeftAngleBracket || token1 == TokenType::RightAngleBracket {
            Some(1)
        } else {
            None
        }
    }

    /// The current token.
    pub fn at(&self) -> (r: &Token)
        requires
            self.wf(),
        ensures
            *r == self.tokens@[self.pos as int],
    {
        &self.tokens[self.pos]
    }

    /// The token `amount` places ahead of the current one.
    pub fn look_ahead(&self, amount: usize) -> (r: &Token)
        requires
            self.pos + amount < self.tokens.len(),
        ensures
            *r == self.tokens@[self.pos + amount],
    {
        &self.tokens[self.pos + amount]
    }

    /// Consumes the current token; the end-of-file token is never consumed.
    pub fn eat(&mut self) -> (r: Token)
        requires
            old(self).wf(),
        ensures
            r@ == old(self).current(),
            r.value is Some,
            old(self).reads_on(final(self)),
            final(self).warnings == old(self).warnings,
            old(self).current().0 != TokenType::EOF ==> final(self).pos == old(self).pos + 1,
            old(self).current().0 == TokenType::EOF ==> final(self).pos == old(self).pos,
    {
        let t = self.tokens[self.pos].duplicate();
        if t.token_type != TokenType::EOF {
            self.pos = self.pos + 1;
        }
        t
    }

    /// Consumes the current token if it has the expected kind. Otherwise a
    /// fatal level fails, and the other levels record a warning and hand
    /// back the current token without consuming it.
    pub fn eat_expect(&mut self, token_type: TokenType, error_msg: &str, level: LoggingLevel) -> (r:
        Result<Token, FatalError>)
        requires
            old(self).wf(),
        ensures
            old(self).reads_on(final(self)),
            old(self).current().0 == token_type ==> (r matches Ok(t) && t@ == old(self).current()
                && t.value is Some && (token_type != TokenType::EOF ==> final(self).pos == old(
                self).pos + 1)),
            old(self).current().0 != token_type ==> final(self).pos == old(self).pos && match level {
                LoggingLevel::Fatal => r is Err,
                _ => (r matches Ok(t) && t@ == old(self).current() && t.value is Some),
            },
    {
        if self.at().get_token_type() != token_type {
            let mut msg = String::from_str(error_msg);
            match level {
                LoggingLevel::Fatal => {
                    return Err(FatalError::Syntax(msg));
                },
                _ => {
                    self.warnings.push(msg);
                    Ok(self.tokens[self.pos].duplicate())
                },
            }
        } else {
            Ok(self.eat())
        }
    }

    pub fn not_eof(&self) -> (r: bool)
        requires
            self.wf(),
        ensures
            r == (self.current().0 != TokenType::EOF),
    {
        self.at().get_token_type() != TokenType::EOF
    }

    fn expect_text(&mut self, token_type: TokenType, error_msg: &str) -> (r: Result<
        String,
        FatalError,
    >)
        requires
            old(self).wf(),
        ensures
            old(self).reads_on(final(self)),
            r is Ok <==> old(self).current().0 == token_type,
            r matches Ok(s) ==> s@ == old(self).current().1,
            r is Ok && token_type != TokenType::EOF ==> final(self).pos == old(self).pos + 1,
    {
        let t = self.eat_expect(token_type, error_msg, LoggingLevel::Fatal)?;
        Ok(text_of(&t))
    }

    /// Parses a whole source text into a program: its statements are
    /// exactly those that the grammar gives for the text's tokens. Nothing
    /// of an earlier parse is kept; the warnings are this parse's own.
    pub fn produce_ast(&mut self, source_code: &str) -> (r: Result<Program, FatalError>)
        ensures
            lex(source_code@) matches Err(e) ==> r == Err::<Program, FatalError>(e),
            match parse_source(source_code@) {
                Some(b) => r is Ok && body_view(r->Ok_0.body) == b,
                None => r is Err,
            },
    {
        self.warnings = Vec::new();
        let tokens = Tokenizer.tokenize(source_code)?;
        self.tokens = tokens;
        self.pos = 0;
        proof {
            crate::lexer::lemma_lex_ends_with_eof(source_code@);
            assert(self.tokens@.last()@ == token_views(self.tokens@).last());
        }
        let ghost ts = self.toks();
        let mut body: Vec<Stmt> = Vec::new();
        while self.not_eof()
            invariant
                self.wf(),
                self.toks() == ts,
                ts == lex(source_code@)->Ok_0,
                lex(source_code@) is Ok,
                program_rest(ts, 0, Seq::empty()) == program_rest(
                    ts,
                    self.pos as int,
                    stmts_view(body@, body@.len()),
                ),
            decreases self.remaining(),
        {
            let before = self.pos;
            let stmt = self.parse_stmt()?;
            if let Some(v) = stmt {
                proof {
                    lemma_stmts_view_push(body@, v);
                }
                body.push(v);
            }
            if self.pos == before {
                return Err(FatalError::Syntax(String::from_str("Parser made no progress")));
            }
        }
        Ok(Program { body: Body { body } })
    }

    /// A statement, or nothing for a run of semicolons that ends a block or
    /// the source.
    pub fn parse_stmt(&mut self) -> (r: Result<Option<Stmt>, FatalError>)
        requires
            old(self).wf(),
        ensures
            old(self).reads_on(final(self)),
            r is Ok && old(self).current().0 != TokenType::EOF ==> final(self).pos > old(self).pos,
            gives_opt_stmt(r, final(self).pos as int, stmt(old(self).toks(), old(self).pos as int)),
        decreases old(self).remaining(), 20nat,
    {
        let kind = self.at().get_token_type();
        match kind {
            TokenType::Var | TokenType::Const => Ok(Some(self.parse_var_declaration()?)),
            TokenType::Function => Ok(Some(self.parse_function_declaration()?)),
            TokenType::Return => Ok(Some(self.parse_return()?)),
            TokenType::If => Ok(Some(self.parse_if()?)),
            TokenType::While => Ok(Some(self.parse_while()?)),
            TokenType::For => Ok(Some(self.parse_for()?)),
            TokenType::Semicolon => {
                self.eat();
                if self.not_eof() && self.at().get_token_type() != TokenType::CloseBrace {
                    self.parse_stmt()
                } else {
                    Ok(None)
                }
            },
            TokenType::OpenBrace => Ok(Some(Stmt::Body(self.parse_body()?))),
            _ => {
                let e = self.parse_expr()?;
                Ok(Some(Stmt::Expr(e)))
            },
        }
    }

    /// `{ statements }`.
    pub fn parse_body(&mut self) -> (r: Result<Body, FatalError>)
        requires
            old(self).wf(),
        ensures
            old(self).reads_on(final(self)),
            r is Ok ==> final(self).pos > old(self).pos,
            gives_body(r, final(self).pos as int, body(old(self).toks(), old(self).pos as int)),
        decreases old(self).remaining(), 19nat,
    {
        let ghost ts = self.toks();
        let ghost p = self.pos as int;
        self.eat_expect(TokenType::OpenBrace, "Expected statement body", LoggingLevel::Fatal)?;
        let mut body: Vec<Stmt> = Vec::new();
        while self.at().get_token_type() != TokenType::CloseBrace && self.not_eof()
            invariant
                old(self).reads_on(self),
                self.pos > old(self).pos,
                ts == self.toks(),
                p == old(self).pos,
                crate::grammar::body(ts, p) == body_rest(ts, self.pos as int, stmts_view(body@, body@.len())),
            decreases self.remaining(),
        {
            let before = self.pos;
            match self.parse_stmt()? {
                Some(v) => {
                    proof {
                        lemma_stmts_view_push(body@, v);
                    }
                    body.push(v);
                },
                None => {
                    self.eat_expect(
                        TokenType::CloseBrace,
                        "Expected closing brace in body",
                        LoggingLevel::Fatal,
                    )?;
                    return Ok(Body { body });
                },
            }
            if self.pos == before {
                self.eat_expect(
                    TokenType::CloseBrace,
                    "Expected closing brace in body",
                    LoggingLevel::Fatal,
                )?;
                return Ok(Body { body });
            }
        }
        self.eat_expect(
            TokenType::CloseBrace,
            "Expected closing brace in body",
            LoggingLevel::Fatal,
        )?;
        Ok(Body { body })
    }

    /// `if condition { ... }` with an optional `else { ... }` or `else if`.
    fn parse_if(&mut self) -> (r: Result<Stmt, FatalError>)
        requires
            old(self).wf(),
            old(self).current().0 == TokenType::If,
        ensures
            old(self).reads_on(final(self)),
            r is Ok ==> final(self).pos > old(self).pos,
            gives_stmt(r, final(self).pos as int, if_stmt(old(self).toks(), old(self).pos as int)),
        decreases old(self).remaining(), 19nat,
    {
        self.eat();
        let condition = self.parse_comparative_expr()?;
        let body = self.parse_body()?;
        let mut else_stmt: Option<Body> = None;
        if self.at().get_token_type() == TokenType::Else {
            self.eat();
            if self.at().get_token_type() == TokenType::OpenBrace {
                else_stmt = Some(self.parse_body()?);
            } else if self.at().get_token_type() == TokenType::If {
                let nested = self.parse_if()?;
                let mut inner: Vec<Stmt> = Vec::new();
                proof {
                    lemma_stmts_view_push(inner@, nested);
                    assert(stmts_view(inner@, 0) == Seq::<StmtModel>::empty());
                    assert(Seq::<StmtModel>::empty().push(stmt_view(nested)) == seq![stmt_view(nested)]);
                }
                inner.push(nested);
                else_stmt = Some(Body { body: inner });
            }
        }
        Ok(Stmt::If(IfStmt { condition, body, else_stmt }))
    }

    /// `while condition { ... }`.
    fn parse_while(&mut self) -> (r: Result<Stmt, FatalError>)
        requires
            old(self).wf(),
            old(self).current().0 == TokenType::While,
        ensures
            old(self).reads_on(final(self)),
            r is Ok ==> final(self).pos > old(self).pos,
            gives_stmt(r, final(self).pos as int, while_stmt(old(self).toks(), old(self).pos as int)),
        decreases old(self).remaining(), 19nat,
    {
        self.eat();
        let condition = self.parse_comparative_expr()?;
        let body = self.parse_body()?;
        Ok(Stmt::While(WhileStmt { condition, body }))
    }

    /// `for name in iterable { ... }`.
    fn parse_for(&mut self) -> (r: Result<Stmt, FatalError>)
        requires
            old(self).wf(),
            old(self).current().0 == TokenType::For,
        ensures
            old(self).reads_on(final(self)),
            r is Ok ==> final(self).pos > old(self).pos,
            gives_stmt(r, final(self).pos as int, for_stmt(old(self).toks(), old(self).pos as int)),
        decreases old(self).remaining(), 19nat,
    {
        self.eat();
        let variable = self.expect_text(TokenType::Identifier, "Expected loop variable after for")?;
        self.eat_expect(TokenType::In, "Expected in after loop variable", LoggingLevel::Fatal)?;
        let iterable = self.parse_comparative_expr()?;
        let body = self.parse_body()?;
        Ok(Stmt::For(ForStmt { variable, iterable, body }))
    }

    /// `return expression;`.
    fn parse_return(&mut self) -> (r: Result<Stmt, FatalError>)
        requires
            old(self).wf(),
            old(self).current().0 == TokenType::Return,
        ensures
            old(self).reads_on(final(self)),
            r is Ok ==> final(self).pos > old(self).pos,
            gives_stmt(r, final(self).pos as int, return_stmt(old(self).toks(), old(self).pos as int)),
        decreases old(self).remaining(), 19nat,
    {
        self.eat();
        let value = self.parse_expr()?;
        self.eat_expect(
            TokenType::Semicolon,
            "Expected semicolon after return statement",
            LoggingLevel::Fatal,
        )?;
        Ok(Stmt::Return(ReturnStmt { value }))
    }

    /// `function name(parameters) { ... }`.
    fn parse_function_declaration(&mut self) -> (r: Result<Stmt, FatalError>)
        requires
            old(self).wf(),
            old(self).current().0 == TokenType::Function,
        ensures
            old(self).reads_on(final(self)),
            r is Ok ==> final(self).pos > old(self).pos,
            gives_stmt(r, final(self).pos as int, func_decl(old(self).toks(), old(self).pos as int)),
        decreases old(self).remaining(), 19nat,
    {
        self.eat();
        let name = self.expect_text(
            TokenType::Identifier,
            "Unexpected token after function declaration",
        )?;
        let args = self.parse_args()?;
        let parameters = match param_names(&args) {
            Some(ps) => ps,
            None => {
                return Err(
                    FatalError::Syntax(
                        String::from_str("Expected identifier inside function declaration"),
                    ),
                );
            },
        };
        let body = self.parse_body()?;
        Ok(Stmt::FunctionDeclaration(Rc::new(FunctionDeclaration { parameters, name, body })))
    }

    /// `var name;`, `var name = value;` or `const name = value;`.
    fn parse_var_declaration(&mut self) -> (r: Result<Stmt, FatalError>)
        requires
            old(self).wf(),
            old(self).current().0 == TokenType::Var || old(self).current().0 == TokenType::Const,
        ensures
            old(self).reads_on(final(self)),
            r is Ok ==> final(self).pos > old(self).pos,
            gives_stmt(r, final(self).pos as int, var_decl(old(self).toks(), old(self).pos as int)),
        decreases old(self).remaining(), 19nat,
    {
        let is_constant = self.eat().get_token_type() == TokenType::Const;
        let identifier = self.expect_text(TokenType::Identifier, "Error in var declaration.")?;
        if self.at().get_token_type() == TokenType::Semicolon {
            self.eat();
            if is_constant {
                return Err(
                    FatalError::Syntax(
                        String::from_str(
                            "Must assign value to const expression. No value provided.",
                        ),
                    ),
                );
            }
            let null = Expr::Identifier(Identifier { symbol: String::from_str("null") });
            proof {
                reveal_strlit("null");
                assert("null"@ =~= seq!['n', 'u', 'l', 'l']);
            }
            return Ok(
                Stmt::VarDeclaration(VarDeclaration { constant: false, identifier, value: null }),
            );
        }
        self.eat_expect(
            TokenType::Equals,
            "Expected equals token in var declaration.",
            LoggingLevel::Fatal,
        )?;
        let value = self.parse_expr()?;
        self.eat_expect(
            TokenType::Semicolon,
            "Expected semicolon after variable declaration (automatically inserted).",
            LoggingLevel::Error,
        )?;
        Ok(Stmt::VarDeclaration(VarDeclaration { constant: is_constant, identifier, value }))
    }

    pub fn parse_expr(&mut self) -> (r: Result<Expr, FatalError>)
        requires
            old(self).wf(),
        ensures
            old(self).reads_on(final(self)),
            r is Ok && old(self).current().0 != TokenType::EOF ==> final(self).pos > old(self).pos,
            gives_expr(r, final(self).pos as int, expr(old(self).toks(), old(self).pos as int)),
        decreases old(self).remaining(), 18nat,
    {
        self.parse_assignment_expr()
    }

    /// `assignee = value`, right-associative; the assignee is anything the
    /// comparison level parses.
    fn parse_assignment_expr(&mut self) -> (r: Result<Expr, FatalError>)
        requires
            old(self).wf(),
        ensures
            old(self).reads_on(final(self)),
            r is Ok && old(self).current().0 != TokenType::EOF ==> final(self).pos > old(self).pos,
            gives_expr(r, final(self).pos as int, assignment(old(self).toks(), old(self).pos as int)),
        decreases old(self).remaining(), 17nat,
    {
        let left = self.parse_comparative_expr()?;
        if self.at().get_token_type() == TokenType::Equals {
            self.eat();
            let value = self.parse_assignment_expr()?;
            if self.at().get_token_type() == TokenType::Semicolon {
                self.eat();
            }
            return Ok(
                Expr::Assignment(
                    AssignmentExpr { assignee: Box::new(left), value: Box::new(value) },
                ),
            );
        }
        Ok(left)
    }

    /// A chain of comparisons, left-associative.
    fn parse_comparative_expr(&mut self) -> (r: Result<Expr, FatalError>)
        requires
            old(self).wf(),
        ensures
            old(self).reads_on(final(self)),
            r is Ok && old(self).current().0 != TokenType::EOF ==> final(self).pos > old(self).pos,
            gives_expr(r, final(self).pos as int, comparative(old(self).toks(), old(self).pos as int)),
        decreases old(self).remaining(), 16nat,
    {
        let ghost ts = self.toks();
        let ghost p = self.pos as int;
        let mut left = self.parse_object_expr()?;
        while self.not_eof() && self.at_comparative_expr().is_some()
            invariant
                old(self).reads_on(self),
                old(self).current().0 != TokenType::EOF ==> self.pos > old(self).pos,
                ts == self.toks(),
                p == old(self).pos,
                comparative(ts, p) == comp_rest(ts, self.pos as int, expr_view(left)),
            decreases self.remaining(),
        {
            let width = match self.at_comparative_expr() {
                Some(w) => w,
                None => 1,
            };
            let ghost q = self.pos as int;
            proof {
                assert(self.tokens@.last()@.0 == TokenType::EOF);
                assert(ts[ts.len() - 1].0 == TokenType::EOF);
            }
            let first = self.eat();
            let mut operator = text_of(&first);
            if width == 2 {
                let second = self.eat();
                let second_text = text_of(&second);
                operator.append(second_text.as_str());
            }
            let right = self.parse_object_expr()?;
            left = Expr::Comparative(
                ComparativeExpr { left: Box::new(left), right: Box::new(right), operator },
            );
        }
        Ok(left)
    }

    /// An object literal `{ key: value, shorthand, }`, or an additive
    /// expression.
    fn parse_object_expr(&mut self) -> (r: Result<Expr, FatalError>)
        requires
            old(self).wf(),
        ensures
            old(self).reads_on(final(self)),
            r is Ok && old(self).current().0 != TokenType::EOF ==> final(self).pos > old(self).pos,
            gives_expr(r, final(self).pos as int, object(old(self).toks(), old(self).pos as int)),
        decreases old(self).remaining(), 15nat,
    {
        if self.at().get_token_type() != TokenType::OpenBrace {
            return self.parse_additive_expr();
        }
        let ghost ts = self.toks();
        let ghost p = self.pos as int;
        self.eat();
        let mut properties: Vec<Property> = Vec::new();
        while self.not_eof() && self.at().get_token_type() != TokenType::CloseBrace
            invariant
                old(self).reads_on(self),
                self.pos > old(self).pos,
                ts == self.toks(),
                p == old(self).pos,
                object(ts, p) == obj_props(
                    ts,
                    self.pos as int,
                    props_view(properties@, properties@.len()),
                ),
            decreases self.remaining(),
        {
            let key = self.expect_text(
                TokenType::Identifier,
                "Unexpected token in object literal creation.",
            )?;
            if self.at().get_token_type() == TokenType::Comma {
                self.eat();
                let prop = Property { key, value: None };
                proof {
                    lemma_props_view_push(properties@, prop);
                }
                properties.push(prop);
                continue ;
            }
            if self.at().get_token_type() == TokenType::CloseBrace {
                let prop = Property { key, value: None };
                proof {
                    lemma_props_view_push(properties@, prop);
                }
                properties.push(prop);
                continue ;
            }
            self.eat_expect(
                TokenType::Colon,
                "Missing colon following identifier in object literal creation.",
                LoggingLevel::Fatal,
            )?;
            let value = self.parse_expr()?;
            let prop = Property { key, value: Some(Box::new(value)) };
            proof {
                lemma_props_view_push(properties@, prop);
            }
            properties.push(prop);
            if self.at().get_token_type() != TokenType::CloseBrace {
                self.eat_expect(
                    TokenType::Comma,
                    "Object literal missing comma.",
                    LoggingLevel::Fatal,
                )?;
            }
        }
        self.eat_expect(
            TokenType::CloseBrace,
            "Object literal missing closing brace.",
            LoggingLevel::Error,
        )?;
        Ok(Expr::Object(ObjectLiteral { properties }))
    }

    /// `+` and `-`, left-associative.
    fn parse_additive_expr(&mut self) -> (r: Result<Expr, FatalError>)
        requires
            old(self).wf(),
        ensures
            old(self).reads_on(final(self)),
            r is Ok && old(self).current().0 != TokenType::EOF ==> final(self).pos > old(self).pos,
            gives_expr(r, final(self).pos as int, additive(old(self).toks(), old(self).pos as int)),
        decreases old(self).remaining(), 14nat,
    {
        let ghost ts = self.toks();
        let ghost p = self.pos as int;
        let mut left = self.parse_multiplicative_expr()?;
        while is_operator(self.at(), '+') || is_operator(self.at(), '-')
            invariant
                old(self).reads_on(self),
                old(self).current().0 != TokenType::EOF ==> self.pos > old(self).pos,
                ts == self.toks(),
                p == old(self).pos,
                additive(ts, p) == add_rest(ts, self.pos as int, expr_view(left)),
            decreases self.remaining(),
        {
            let operator = text_of(&self.eat());
            let right = self.parse_multiplicative_expr()?;
            left = Expr::Binary(
                BinaryExpr { left: Box::new(left), right: Box::new(right), operator },
            );
        }
        Ok(left)
    }

    /// `*`, `/` and `%`, left-associative.
    fn parse_multiplicative_expr(&mut self) -> (r: Result<Expr, FatalError>)
        requires
            old(self).wf(),
        ensures
            old(self).reads_on(final(self)),
            r is Ok && old(self).current().0 != TokenType::EOF ==> final(self).pos > old(self).pos,
            gives_expr(r, final(self).pos as int, multiplicative(old(self).toks(), old(self).pos as int)),
        decreases old(self).remaining(), 13nat,
    {
        let ghost ts = self.toks();
        let ghost p = self.pos as int;
        let mut left = self.parse_call_member_expr()?;
        while is_operator(self.at(), '*') || is_operator(self.at(), '/') || is_operator(
            self.at(),
            '%',
        )
            invariant
                old(self).reads_on(self),
                old(self).current().0 != TokenType::EOF ==> self.pos > old(self).pos,
                ts == self.toks(),
                p == old(self).pos,
                multiplicative(ts, p) == mul_rest(ts, self.pos as int, expr_view(left)),
            decreases self.remaining(),
        {
            let operator = text_of(&self.eat());
            let right = self.parse_call_member_expr()?;
            left = Expr::Binary(
                BinaryExpr { left: Box::new(left), right: Box::new(right), operator },
            );
        }
        Ok(left)
    }

    /// A member expression, called if an argument list follows.
    fn parse_call_member_expr(&mut self) -> (r: Result<Expr, FatalError>)
        requires
            old(self).wf(),
        ensures
            old(self).reads_on(final(self)),
            r is Ok && old(self).current().0 != TokenType::EOF ==> final(self).pos > old(self).pos,
            gives_expr(r, final(self).pos as int, call_member(old(self).toks(), old(self).pos as int)),
        decreases old(self).remaining(), 12nat,
    {
        let member = self.parse_member_expr()?;
        if self.at().get_token_type() == TokenType::OpenParen {
            return self.parse_call_expr(member);
        }
        Ok(member)
    }

    /// `caller(arguments)`, and further argument lists for chained calls.
    fn parse_call_expr(&mut self, caller: Expr) -> (r: Result<Expr, FatalError>)
        requires
            old(self).wf(),
        ensures
            old(self).reads_on(final(self)),
            r is Ok ==> final(self).pos > old(self).pos,
            gives_expr(
                r,
                final(self).pos as int,
                call_expr(old(self).toks(), old(self).pos as int, expr_view(caller)),
            ),
        decreases old(self).remaining(), 9nat,
    {
        let args = self.parse_args()?;
        let call = Expr::Call(CallExpr { args, caller: Box::new(caller) });
        if self.at().get_token_type() == TokenType::OpenParen {
            return self.parse_call_expr(call);
        }
        Ok(call)
    }

    /// `(argument, ...)`.
    fn parse_args(&mut self) -> (r: Result<Vec<Expr>, FatalError>)
        requires
            old(self).wf(),
        ensures
            old(self).reads_on(final(self)),
            r is Ok ==> final(self).pos > old(self).pos,
            gives_exprs(r, final(self).pos as int, args(old(self).toks(), old(self).pos as int)),
        decreases old(self).remaining(), 8nat,
    {
        self.eat_expect(
            TokenType::OpenParen,
            "Expected open parenthesis when parsing call arguments",
            LoggingLevel::Fatal,
        )?;
        let args = if self.at().get_token_type() == TokenType::CloseParen {
            Vec::new()
        } else {
            self.parse_arguments_list()?
        };
        self.eat_expect(
            TokenType::CloseParen,
            "Expected closing parenthesis when parsing call arguments",
            LoggingLevel::Fatal,
        )?;
        Ok(args)
    }

    /// `argument, argument, ...` without the parentheses.
    fn parse_arguments_list(&mut self) -> (r: Result<Vec<Expr>, FatalError>)
        requires
            old(self).wf(),
        ensures
            old(self).reads_on(final(self)),
            gives_exprs(r, final(self).pos as int, args_list(old(self).toks(), old(self).pos as int)),
        decreases old(self).remaining(), 19nat,
    {
        let ghost ts = self.toks();
        let ghost p = self.pos as int;
        let mut args: Vec<Expr> = Vec::new();
        let first = self.parse_assignment_expr()?;
        proof {
            lemma_exprs_view_push(args@, first);
            assert(Seq::<ExprModel>::empty().push(expr_view(first)) == seq![expr_view(first)]);
        }
        args.push(first);
        while self.at().get_token_type() == TokenType::Comma && self.not_eof()
            invariant
                old(self).reads_on(self),
                ts == self.toks(),
                p == old(self).pos,
                args_list(ts, p) == args_rest(ts, self.pos as int, exprs_view(args@, args@.len())),
            decreases self.remaining(),
        {
            self.eat();
            let next = self.parse_assignment_expr()?;
            proof {
                lemma_exprs_view_push(args@, next);
            }
            args.push(next);
        }
        Ok(args)
    }

    /// An identifier followed by any chain of `.name` and `[expression]`
    /// accesses, or a primary expression.
    fn parse_member_expr(&mut self) -> (r: Result<Expr, FatalError>)
        requires
            old(self).wf(),
        ensures
            old(self).reads_on(final(self)),
            r is Ok && old(self).current().0 != TokenType::EOF ==> final(self).pos > old(self).pos,
            gives_expr(r, final(self).pos as int, member(old(self).toks(), old(self).pos as int)),
        decreases old(self).remaining(), 11nat,
    {
        if self.at().get_token_type() != TokenType::Identifier {
            return self.parse_primary_expr();
        }
        let ghost ts = self.toks();
        let ghost p = self.pos as int;
        let mut member = self.parse_primary_expr()?;
        while self.at().get_token_type() == TokenType::Dot || self.at().get_token_type()
            == TokenType::OpenBracket
            invariant
                old(self).reads_on(self),
                self.pos > old(self).pos,
                ts == self.toks(),
                p == old(self).pos,
                crate::grammar::member(ts, p) == member_rest(ts, self.pos as int, expr_view(member)),
            decreases self.remaining(),
        {
            if self.at().get_token_type() == TokenType::Dot {
                self.eat();
                let property = self.parse_primary_expr()?;
                member = Expr::Member(
                    MemberExpr {
                        object: Box::new(member),
                        property: Box::new(property),
                        computed: false,
                    },
                );
            } else {
                self.eat();
                let property = self.parse_expr()?;
                self.eat_expect(
                    TokenType::CloseBracket,
                    "Expected closing bracket in member expression",
                    LoggingLevel::Fatal,
                )?;
                member = Expr::Member(
                    MemberExpr {
                        object: Box::new(member),
                        property: Box::new(property),
                        computed: true,
                    },
                );
            }
        }
        Ok(member)
    }

    /// An identifier, a literal, a parenthesised expression or a list
    /// literal `[a, b]`.
    #[verifier::rlimit(60)]
    fn parse_primary_expr(&mut self) -> (r: Result<Expr, FatalError>)
        requires
            old(self).wf(),
        ensures
            old(self).reads_on(final(self)),
            r is Ok ==> final(self).pos > old(self).pos,
            gives_expr(r, final(self).pos as int, primary(old(self).toks(), old(self).pos as int)),
        decreases old(self).remaining(), 10nat,
    {
        let ghost ts = self.toks();
        let ghost p = self.pos as int;
        assert(ts[p] == self.tokens@[p]@);
        let kind = self.at().get_token_type();
        match kind {
            TokenType::Identifier => {
                let symbol = text_of(&self.eat());
                assert(primary(ts, p) == Parsed::Done(ExprModel::Identifier(symbol@), p + 1));
                Ok(Expr::Identifier(Identifier { symbol }))
            },
            TokenType::Number => {
                let text = text_of(&self.eat());
                if count_dots(&text) > 1 {
                    assert(primary(ts, p) == Parsed::<ExprModel>::Failed);
                    return Err(FatalError::InvalidNumber(text));
                }
                assert(primary(ts, p) == Parsed::Done(ExprModel::Number(text@), p + 1));
                Ok(Expr::NumericLiteral(NumericLiteral { value: text }))
            },
            TokenType::String => {
                let string = text_of(&self.eat());
                assert(primary(ts, p) == Parsed::Done(ExprModel::Str(string@), p + 1));
                Ok(Expr::StringLiteral(StringLiteral { string }))
            },
            TokenType::OpenParen => {
                self.eat();
                let value = self.parse_expr()?;
                assert(kind_at(ts, self.pos as int) == self.current().0);
                self.eat_expect(
                    TokenType::CloseParen,
                    "Unexpected token found inside parenthesis.",
                    LoggingLevel::Fatal,
                )?;
                Ok(value)
            },
            TokenType::OpenBracket => {
                self.eat();
                assert(kind_at(ts, p + 1) == self.current().0);
                let mut elements: Vec<Expr> = Vec::new();
                if self.at().get_token_type() != TokenType::CloseBracket {
                    elements = self.parse_arguments_list()?;
                }
                assert(kind_at(ts, self.pos as int) == self.current().0);
                self.eat_expect(
                    TokenType::CloseBracket,
                    "Expected closing bracket in list literal",
                    LoggingLevel::Fatal,
                )?;
                assert(primary(ts, p) == Parsed::Done(
                    ExprModel::List(exprs_view(elements@, elements@.len())),
                    self.pos as int,
                ));
                Ok(Expr::List(ListLiteral { elements }))
            },
            _ => {
                assert(primary(ts, p) == Parsed::<ExprModel>::Failed);
                Err(FatalError::Syntax(String::from_str("Unexpected token found during parsing")))
            },
        }
    }

}

} // verus!
