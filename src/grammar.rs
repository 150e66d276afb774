//! The language's grammar, as functions from a token sequence and a
//! position to what is parsed there and where parsing goes on.
use vstd::prelude::*;

use crate::ast::{ExprModel, StmtModel};
use crate::lexer::{lex, TokenType};

verus! {

/// The result of parsing at a position: a value and the position after
/// it, or a fatal syntax error.
pub enum Parsed<T> {
    Done(T, int),
    Failed,
}

pub open spec fn kind_at(ts: Seq<(TokenType, Seq<char>)>, p: int) -> TokenType {
    if 0 <= p < ts.len() {
        ts[p].0
    } else {
        TokenType::EOF
    }
}

pub open spec fn text_at(ts: Seq<(TokenType, Seq<char>)>, p: int) -> Seq<char> {
    if 0 <= p < ts.len() {
        ts[p].1
    } else {
        Seq::empty()
    }
}

pub open spec fn is_op_at(ts: Seq<(TokenType, Seq<char>)>, p: int, c: char) -> bool {
    kind_at(ts, p) == TokenType::BinaryOperator && text_at(ts, p) == seq![c]
}

/// Number of dots in a numeric literal's text.
pub open spec fn dot_count(s: Seq<char>) -> nat
    decreases s.len(),
{
    if s.len() == 0 {
        0
    } else {
        dot_count(s.drop_last()) + if s.last() == '.' {
            1nat
        } else {
            0nat
        }
    }
}

/// A run of digits and dots is a number when it holds at most one dot.
pub open spec fn valid_number_text(s: Seq<char>) -> bool {
    dot_count(s) <= 1
}

/// The length, in tokens, of the comparison operator that starts with the
/// two token kinds `a b` (`== >= <= !=` take two, `< >` one), if any.
pub open spec fn comparison_width(a: TokenType, b: TokenType) -> Option<usize> {
    if a == TokenType::EOF {
        None
    } else if b == TokenType::Equals && (a == TokenType::Equals || a
        == TokenType::RightAngleBracket || a == TokenType::LeftAngleBracket || a
        == TokenType::Bang) {
        Some(2)
    } else if a == TokenType::LeftAngleBracket || a == TokenType::RightAngleBracket {
        Some(1)
    } else {
        None
    }
}

/// An identifier, a number, a string, `( expression )` or a list literal
/// `[ arguments ]`.
pub open spec fn primary(ts: Seq<(TokenType, Seq<char>)>, p: int) -> Parsed<ExprModel>
    decreases ts.len() - p, 10nat,
{
    if !(0 <= p < ts.len()) {
        Parsed::Failed
    } else {
        let k = ts[p].0;
        if k == TokenType::Identifier {
            Parsed::Done(ExprModel::Identifier(ts[p].1), p + 1)
        } else if k == TokenType::Number {
            if valid_number_text(ts[p].1) {
                Parsed::Done(ExprModel::Number(ts[p].1), p + 1)
            } else {
                Parsed::Failed
            }
        } else if k == TokenType::String {
            Parsed::Done(ExprModel::Str(ts[p].1), p + 1)
        } else if k == TokenType::OpenParen {
            match expr(ts, p + 1) {
                Parsed::Done(v, q) => if kind_at(ts, q) == TokenType::CloseParen {
                    Parsed::Done(v, q + 1)
                } else {
                    Parsed::Failed
                },
                Parsed::Failed => Parsed::Failed,
            }
        } else if k == TokenType::OpenBracket {
            if kind_at(ts, p + 1) == TokenType::CloseBracket {
                Parsed::Done(ExprModel::List(Seq::empty()), p + 2)
            } else {
                match args_list(ts, p + 1) {
                    Parsed::Done(es, q) => if kind_at(ts, q) == TokenType::CloseBracket {
                        Parsed::Done(ExprModel::List(es), q + 1)
                    } else {
                        Parsed::Failed
                    },
                    Parsed::Failed => Parsed::Failed,
                }
            }
        } else {
            Parsed::Failed
        }
    }
}

/// An identifier followed by `.name` and `[expression]` accesses, or a
/// primary expression.
pub open spec fn member(ts: Seq<(TokenType, Seq<char>)>, p: int) -> Parsed<ExprModel>
    decreases ts.len() - p, 11nat,
{
    if !(0 <= p < ts.len()) {
        Parsed::Failed
    } else if ts[p].0 != TokenType::Identifier {
        primary(ts, p)
    } else {
        match primary(ts, p) {
            Parsed::Done(o, q) => if p <= q <= ts.len() {
                member_rest(ts, q, o)
            } else {
                Parsed::Failed
            },
            Parsed::Failed => Parsed::Failed,
        }
    }
}

/// The accesses that follow `object`, from position `q` on.
pub open spec fn member_rest(ts: Seq<(TokenType, Seq<char>)>, q: int, object: ExprModel) -> Parsed<
    ExprModel,
>
    decreases ts.len() - q, 10nat,
{
    if !(0 <= q < ts.len()) {
        Parsed::Failed
    } else if ts[q].0 == TokenType::Dot {
        match primary(ts, q + 1) {
            Parsed::Done(prop, q2) => if q < q2 <= ts.len() {
                member_rest(
                    ts,
                    q2,
                    ExprModel::Member(Box::new(object), Box::new(prop), false),
                )
            } else {
                Parsed::Failed
            },
            Parsed::Failed => Parsed::Failed,
        }
    } else if ts[q].0 == TokenType::OpenBracket {
        match expr(ts, q + 1) {
            Parsed::Done(prop, q2) => if kind_at(ts, q2) == TokenType::CloseBracket && q < q2 {
                member_rest(
                    ts,
                    q2 + 1,
                    ExprModel::Member(Box::new(object), Box::new(prop), true),
                )
            } else {
                Parsed::Failed
            },
            Parsed::Failed => Parsed::Failed,
        }
    } else {
        Parsed::Done(object, q)
    }
}

/// A member expression, called if an argument list follows.
pub open spec fn call_member(ts: Seq<(TokenType, Seq<char>)>, p: int) -> Parsed<ExprModel>
    decreases ts.len() - p, 12nat,
{
    if !(0 <= p < ts.len()) {
        Parsed::Failed
    } else {
        match member(ts, p) {
            Parsed::Done(m, q) => if kind_at(ts, q) == TokenType::OpenParen {
                if p <= q < ts.len() {
                    call_expr(ts, q, m)
                } else {
                    Parsed::Failed
                }
            } else {
                Parsed::Done(m, q)
            },
            Parsed::Failed => Parsed::Failed,
        }
    }
}

/// `caller(arguments)`, then any further argument lists.
pub open spec fn call_expr(ts: Seq<(TokenType, Seq<char>)>, q: int, caller: ExprModel) -> Parsed<
    ExprModel,
>
    decreases ts.len() - q, 9nat,
{
    if !(0 <= q < ts.len()) {
        Parsed::Failed
    } else {
        match args(ts, q) {
            Parsed::Done(a, q2) => {
                let c = ExprModel::Call(Box::new(caller), a);
                if kind_at(ts, q2) == TokenType::OpenParen {
                    if q < q2 < ts.len() {
                        call_expr(ts, q2, c)
                    } else {
                        Parsed::Failed
                    }
                } else {
                    Parsed::Done(c, q2)
                }
            },
            Parsed::Failed => Parsed::Failed,
        }
    }
}

/// `( arguments )`.
pub open spec fn args(ts: Seq<(TokenType, Seq<char>)>, p: int) -> Parsed<Seq<ExprModel>>
    decreases ts.len() - p, 8nat,
{
    if !(0 <= p < ts.len()) || ts[p].0 != TokenType::OpenParen {
        Parsed::Failed
    } else if kind_at(ts, p + 1) == TokenType::CloseParen {
        Parsed::Done(Seq::empty(), p + 2)
    } else {
        match args_list(ts, p + 1) {
            Parsed::Done(es, q) => if kind_at(ts, q) == TokenType::CloseParen {
                Parsed::Done(es, q + 1)
            } else {
                Parsed::Failed
            },
            Parsed::Failed => Parsed::Failed,
        }
    }
}

/// `argument, argument, ...`, without brackets.
pub open spec fn args_list(ts: Seq<(TokenType, Seq<char>)>, p: int) -> Parsed<Seq<ExprModel>>
    decreases ts.len() - p, 18nat,
{
    if !(0 <= p < ts.len()) {
        Parsed::Failed
    } else {
        match assignment(ts, p) {
            Parsed::Done(e, q) => if p <= q <= ts.len() {
                args_rest(ts, q, seq![e])
            } else {
                Parsed::Failed
            },
            Parsed::Failed => Parsed::Failed,
        }
    }
}

/// The `, argument` items after the arguments `acc`.
pub open spec fn args_rest(ts: Seq<(TokenType, Seq<char>)>, q: int, acc: Seq<ExprModel>) -> Parsed<
    Seq<ExprModel>,
>
    decreases ts.len() - q, 17nat,
{
    if 0 <= q < ts.len() && ts[q].0 == TokenType::Comma {
        match assignment(ts, q + 1) {
            Parsed::Done(e, q2) => if q < q2 <= ts.len() {
                args_rest(ts, q2, acc.push(e))
            } else {
                Parsed::Failed
            },
            Parsed::Failed => Parsed::Failed,
        }
    } else {
        Parsed::Done(acc, q)
    }
}

/// `*`, `/` and `%`, left-associative.
pub open spec fn multiplicative(ts: Seq<(TokenType, Seq<char>)>, p: int) -> Parsed<ExprModel>
    decreases ts.len() - p, 13nat,
{
    if !(0 <= p < ts.len()) {
        Parsed::Failed
    } else {
        match call_member(ts, p) {
            Parsed::Done(l, q) => if p <= q <= ts.len() {
                mul_rest(ts, q, l)
            } else {
                Parsed::Failed
            },
            Parsed::Failed => Parsed::Failed,
        }
    }
}

pub open spec fn mul_rest(ts: Seq<(TokenType, Seq<char>)>, q: int, left: ExprModel) -> Parsed<
    ExprModel,
>
    decreases ts.len() - q, 12nat,
{
    if 0 <= q < ts.len() && (is_op_at(ts, q, '*') || is_op_at(ts, q, '/') || is_op_at(ts, q, '%')) {
        match call_member(ts, q + 1) {
            Parsed::Done(r, q2) => if q < q2 <= ts.len() {
                mul_rest(
                    ts,
                    q2,
                    ExprModel::Binary(Box::new(left), ts[q].1, Box::new(r)),
                )
            } else {
                Parsed::Failed
            },
            Parsed::Failed => Parsed::Failed,
        }
    } else {
        Parsed::Done(left, q)
    }
}

/// `+` and `-`, left-associative.
pub open spec fn additive(ts: Seq<(TokenType, Seq<char>)>, p: int) -> Parsed<ExprModel>
    decreases ts.len() - p, 14nat,
{
    if !(0 <= p < ts.len()) {
        Parsed::Failed
    } else {
        match multiplicative(ts, p) {
            Parsed::Done(l, q) => if p <= q <= ts.len() {
                add_rest(ts, q, l)
            } else {
                Parsed::Failed
            },
            Parsed::Failed => Parsed::Failed,
        }
    }
}

pub open spec fn add_rest(ts: Seq<(TokenType, Seq<char>)>, q: int, left: ExprModel) -> Parsed<
    ExprModel,
>
    decreases ts.len() - q, 13nat,
{
    if 0 <= q < ts.len() && (is_op_at(ts, q, '+') || is_op_at(ts, q, '-')) {
        match multiplicative(ts, q + 1) {
            Parsed::Done(r, q2) => if q < q2 <= ts.len() {
                add_rest(
                    ts,
                    q2,
                    ExprModel::Binary(Box::new(left), ts[q].1, Box::new(r)),
                )
            } else {
                Parsed::Failed
            },
            Parsed::Failed => Parsed::Failed,
        }
    } else {
        Parsed::Done(left, q)
    }
}

/// An object literal `{ key: value, shorthand, }`, or an additive
/// expression.
pub open spec fn object(ts: Seq<(TokenType, Seq<char>)>, p: int) -> Parsed<ExprModel>
    decreases ts.len() - p, 15nat,
{
    if !(0 <= p < ts.len()) {
        Parsed::Failed
    } else if ts[p].0 != TokenType::OpenBrace {
        additive(ts, p)
    } else {
        obj_props(ts, p + 1, Seq::empty())
    }
}

/// The properties of an object literal after those in `acc`; a missing
/// closing brace at the end of the source is only warned about.
pub open spec fn obj_props(
    ts: Seq<(TokenType, Seq<char>)>,
    q: int,
    acc: Seq<(Seq<char>, Option<ExprModel>)>,
) -> Parsed<ExprModel>
    decreases ts.len() - q, 15nat,
{
    if !(0 <= q < ts.len()) {
        Parsed::Failed
    } else if ts[q].0 == TokenType::EOF {
        Parsed::Done(ExprModel::Object(acc), q)
    } else if ts[q].0 == TokenType::CloseBrace {
        Parsed::Done(ExprModel::Object(acc), q + 1)
    } else if ts[q].0 != TokenType::Identifier {
        Parsed::Failed
    } else {
        let key = ts[q].1;
        let q1 = q + 1;
        if kind_at(ts, q1) == TokenType::Comma {
            obj_props(ts, q1 + 1, acc.push((key, None)))
        } else if kind_at(ts, q1) == TokenType::CloseBrace {
            obj_props(ts, q1, acc.push((key, None)))
        } else if kind_at(ts, q1) != TokenType::Colon {
            Parsed::Failed
        } else {
            match expr(ts, q1 + 1) {
                Parsed::Done(v, q2) => {
                    let acc2 = acc.push((key, Some(v)));
                    if kind_at(ts, q2) != TokenType::CloseBrace {
                        if kind_at(ts, q2) == TokenType::Comma && q < q2 {
                            obj_props(ts, q2 + 1, acc2)
                        } else {
                            Parsed::Failed
                        }
                    } else if q < q2 {
                        obj_props(ts, q2, acc2)
                    } else {
                        Parsed::Failed
                    }
                },
                Parsed::Failed => Parsed::Failed,
            }
        }
    }
}

/// A chain of comparisons, left-associative.
pub open spec fn comparative(ts: Seq<(TokenType, Seq<char>)>, p: int) -> Parsed<ExprModel>
    decreases ts.len() - p, 16nat,
{
    if !(0 <= p < ts.len()) {
        Parsed::Failed
    } else {
        match object(ts, p) {
            Parsed::Done(l, q) => if p <= q <= ts.len() {
                comp_rest(ts, q, l)
            } else {
                Parsed::Failed
            },
            Parsed::Failed => Parsed::Failed,
        }
    }
}

pub open spec fn comp_rest(ts: Seq<(TokenType, Seq<char>)>, q: int, left: ExprModel) -> Parsed<
    ExprModel,
>
    decreases ts.len() - q, 15nat,
{
    if 0 <= q < ts.len() && ts[q].0 != TokenType::EOF && comparison_width(
        kind_at(ts, q),
        kind_at(ts, q + 1),
    ) is Some {
        let w = comparison_width(kind_at(ts, q), kind_at(ts, q + 1))->0;
        let op = if w == 2 {
            ts[q].1 + text_at(ts, q + 1)
        } else {
            ts[q].1
        };
        if q + w < ts.len() {
            match object(ts, q + w) {
                Parsed::Done(r, q2) => if q < q2 <= ts.len() {
                    comp_rest(ts, q2, ExprModel::Comparative(Box::new(left), op, Box::new(r)))
                } else {
                    Parsed::Failed
                },
                Parsed::Failed => Parsed::Failed,
            }
        } else {
            Parsed::Failed
        }
    } else {
        Parsed::Done(left, q)
    }
}

/// `assignee = value`, right-associative, with an optional `;` after it.
pub open spec fn assignment(ts: Seq<(TokenType, Seq<char>)>, p: int) -> Parsed<ExprModel>
    decreases ts.len() - p, 17nat,
{
    if !(0 <= p < ts.len()) {
        Parsed::Failed
    } else {
        match comparative(ts, p) {
            Parsed::Done(l, q) => if kind_at(ts, q) == TokenType::Equals {
                if p <= q < ts.len() {
                    match assignment(ts, q + 1) {
                        Parsed::Done(v, q2) => Parsed::Done(
                            ExprModel::Assignment(Box::new(l), Box::new(v)),
                            if kind_at(ts, q2) == TokenType::Semicolon {
                                q2 + 1
                            } else {
                                q2
                            },
                        ),
                        Parsed::Failed => Parsed::Failed,
                    }
                } else {
                    Parsed::Failed
                }
            } else {
                Parsed::Done(l, q)
            },
            Parsed::Failed => Parsed::Failed,
        }
    }
}

pub open spec fn expr(ts: Seq<(TokenType, Seq<char>)>, p: int) -> Parsed<ExprModel>
    decreases ts.len() - p, 18nat,
{
    if !(0 <= p < ts.len()) {
        Parsed::Failed
    } else {
        assignment(ts, p)
    }
}

/// A statement; nothing for a run of semicolons that ends a block or the
/// source.
pub open spec fn stmt(ts: Seq<(TokenType, Seq<char>)>, p: int) -> Parsed<Option<StmtModel>>
    decreases ts.len() - p, 20nat,
{
    if !(0 <= p < ts.len()) {
        Parsed::Failed
    } else {
        let k = ts[p].0;
        if k == TokenType::Semicolon {
            if kind_at(ts, p + 1) != TokenType::EOF && kind_at(ts, p + 1) != TokenType::CloseBrace {
                stmt(ts, p + 1)
            } else {
                Parsed::Done(None, p + 1)
            }
        } else {
            let s = if k == TokenType::Var || k == TokenType::Const {
                var_decl(ts, p)
            } else if k == TokenType::Function {
                func_decl(ts, p)
            } else if k == TokenType::Return {
                return_stmt(ts, p)
            } else if k == TokenType::If {
                if_stmt(ts, p)
            } else if k == TokenType::While {
                while_stmt(ts, p)
            } else if k == TokenType::For {
                for_stmt(ts, p)
            } else if k == TokenType::OpenBrace {
                match body(ts, p) {
                    Parsed::Done(b, q) => Parsed::Done(StmtModel::Body(b), q),
                    Parsed::Failed => Parsed::Failed,
                }
            } else {
                match expr(ts, p) {
                    Parsed::Done(e, q) => Parsed::Done(StmtModel::Expr(e), q),
                    Parsed::Failed => Parsed::Failed,
                }
            };
            match s {
                Parsed::Done(v, q) => Parsed::Done(Some(v), q),
                Parsed::Failed => Parsed::Failed,
            }
        }
    }
}

/// `{ statements }`.
pub open spec fn body(ts: Seq<(TokenType, Seq<char>)>, p: int) -> Parsed<Seq<StmtModel>>
    decreases ts.len() - p, 19nat,
{
    if !(0 <= p < ts.len()) || ts[p].0 != TokenType::OpenBrace {
        Parsed::Failed
    } else {
        body_rest(ts, p + 1, Seq::empty())
    }
}

pub open spec fn close_brace(ts: Seq<(TokenType, Seq<char>)>, q: int, acc: Seq<StmtModel>) -> Parsed<
    Seq<StmtModel>,
> {
    if kind_at(ts, q) == TokenType::CloseBrace {
        Parsed::Done(acc, q + 1)
    } else {
        Parsed::Failed
    }
}

/// The statements of a block after those in `acc`, then its closing brace.
pub open spec fn body_rest(ts: Seq<(TokenType, Seq<char>)>, q: int, acc: Seq<StmtModel>) -> Parsed<
    Seq<StmtModel>,
>
    decreases ts.len() - q, 21nat,
{
    if !(0 <= q < ts.len()) {
        Parsed::Failed
    } else if ts[q].0 == TokenType::CloseBrace || ts[q].0 == TokenType::EOF {
        close_brace(ts, q, acc)
    } else {
        match stmt(ts, q) {
            Parsed::Done(None, q2) => close_brace(ts, q2, acc),
            Parsed::Done(Some(s), q2) => if q2 == q {
                close_brace(ts, q2, acc.push(s))
            } else if q < q2 <= ts.len() {
                body_rest(ts, q2, acc.push(s))
            } else {
                Parsed::Failed
            },
            Parsed::Failed => Parsed::Failed,
        }
    }
}

/// `if condition { ... }`, then `else { ... }` or `else if ...`.
pub open spec fn if_stmt(ts: Seq<(TokenType, Seq<char>)>, p: int) -> Parsed<StmtModel>
    decreases ts.len() - p, 19nat,
{
    if !(0 <= p < ts.len()) {
        Parsed::Failed
    } else {
        match comparative(ts, p + 1) {
            Parsed::Done(c, q) => if p < q <= ts.len() {
                match body(ts, q) {
                    Parsed::Done(b, q2) => if kind_at(ts, q2) == TokenType::Else {
                        let q3 = q2 + 1;
                        if kind_at(ts, q3) == TokenType::OpenBrace {
                            if p < q3 < ts.len() {
                                match body(ts, q3) {
                                    Parsed::Done(e, q4) => Parsed::Done(
                                        StmtModel::If(c, b, Some(e)),
                                        q4,
                                    ),
                                    Parsed::Failed => Parsed::Failed,
                                }
                            } else {
                                Parsed::Failed
                            }
                        } else if kind_at(ts, q3) == TokenType::If {
                            if p < q3 < ts.len() {
                                match if_stmt(ts, q3) {
                                    Parsed::Done(s, q4) => Parsed::Done(
                                        StmtModel::If(c, b, Some(seq![s])),
                                        q4,
                                    ),
                                    Parsed::Failed => Parsed::Failed,
                                }
                            } else {
                                Parsed::Failed
                            }
                        } else {
                            Parsed::Done(StmtModel::If(c, b, None), q3)
                        }
                    } else {
                        Parsed::Done(StmtModel::If(c, b, None), q2)
                    },
                    Parsed::Failed => Parsed::Failed,
                }
            } else {
                Parsed::Failed
            },
            Parsed::Failed => Parsed::Failed,
        }
    }
}

/// `while condition { ... }`.
pub open spec fn while_stmt(ts: Seq<(TokenType, Seq<char>)>, p: int) -> Parsed<StmtModel>
    decreases ts.len() - p, 19nat,
{
    if !(0 <= p < ts.len()) {
        Parsed::Failed
    } else {
        match comparative(ts, p + 1) {
            Parsed::Done(c, q) => if p < q <= ts.len() {
                match body(ts, q) {
                    Parsed::Done(b, q2) => Parsed::Done(StmtModel::While(c, b), q2),
                    Parsed::Failed => Parsed::Failed,
                }
            } else {
                Parsed::Failed
            },
            Parsed::Failed => Parsed::Failed,
        }
    }
}

/// `for name in iterable { ... }`.
pub open spec fn for_stmt(ts: Seq<(TokenType, Seq<char>)>, p: int) -> Parsed<StmtModel>
    decreases ts.len() - p, 19nat,
{
    if !(0 <= p < ts.len()) || kind_at(ts, p + 1) != TokenType::Identifier || kind_at(ts, p + 2)
        != TokenType::In {
        Parsed::Failed
    } else {
        match comparative(ts, p + 3) {
            Parsed::Done(it, q) => if p < q <= ts.len() {
                match body(ts, q) {
                    Parsed::Done(b, q2) => Parsed::Done(StmtModel::For(ts[p + 1].1, it, b), q2),
                    Parsed::Failed => Parsed::Failed,
                }
            } else {
                Parsed::Failed
            },
            Parsed::Failed => Parsed::Failed,
        }
    }
}

/// `return expression;`.
pub open spec fn return_stmt(ts: Seq<(TokenType, Seq<char>)>, p: int) -> Parsed<StmtModel>
    decreases ts.len() - p, 19nat,
{
    if !(0 <= p < ts.len()) {
        Parsed::Failed
    } else {
        match expr(ts, p + 1) {
            Parsed::Done(e, q) => if kind_at(ts, q) == TokenType::Semicolon {
                Parsed::Done(StmtModel::Return(e), q + 1)
            } else {
                Parsed::Failed
            },
            Parsed::Failed => Parsed::Failed,
        }
    }
}

/// The names of parameters that are all identifiers.
pub open spec fn params_of(es: Seq<ExprModel>) -> Option<Seq<Seq<char>>>
    decreases es.len(),
{
    if es.len() == 0 {
        Some(Seq::empty())
    } else {
        match (params_of(es.drop_last()), es.last()) {
            (Some(ns), ExprModel::Identifier(n)) => Some(ns.push(n)),
            _ => None,
        }
    }
}

/// `function name(parameters) { ... }`.
pub open spec fn func_decl(ts: Seq<(TokenType, Seq<char>)>, p: int) -> Parsed<StmtModel>
    decreases ts.len() - p, 19nat,
{
    if !(0 <= p < ts.len()) || kind_at(ts, p + 1) != TokenType::Identifier {
        Parsed::Failed
    } else {
        match args(ts, p + 2) {
            Parsed::Done(a, q) => match params_of(a) {
                Some(ns) => if p < q <= ts.len() {
                    match body(ts, q) {
                        Parsed::Done(b, q2) => Parsed::Done(
                            StmtModel::Function(ts[p + 1].1, ns, b),
                            q2,
                        ),
                        Parsed::Failed => Parsed::Failed,
                    }
                } else {
                    Parsed::Failed
                },
                None => Parsed::Failed,
            },
            Parsed::Failed => Parsed::Failed,
        }
    }
}

/// `var name;` (a variable bound to `null`), `var name = value;` or
/// `const name = value;`; a missing final `;` is only warned about.
pub open spec fn var_decl(ts: Seq<(TokenType, Seq<char>)>, p: int) -> Parsed<StmtModel>
    decreases ts.len() - p, 19nat,
{
    if !(0 <= p < ts.len()) || kind_at(ts, p + 1) != TokenType::Identifier {
        Parsed::Failed
    } else {
        let constant = ts[p].0 == TokenType::Const;
        let id = ts[p + 1].1;
        let after = p + 2;
        if kind_at(ts, after) == TokenType::Semicolon {
            if constant {
                Parsed::Failed
            } else {
                Parsed::Done(
                    StmtModel::Var(false, id, ExprModel::Identifier(seq!['n', 'u', 'l', 'l'])),
                    after + 1,
                )
            }
        } else if kind_at(ts, after) != TokenType::Equals {
            Parsed::Failed
        } else {
            match expr(ts, after + 1) {
                Parsed::Done(v, q) => Parsed::Done(
                    StmtModel::Var(constant, id, v),
                    if kind_at(ts, q) == TokenType::Semicolon {
                        q + 1
                    } else {
                        q
                    },
                ),
                Parsed::Failed => Parsed::Failed,
            }
        }
    }
}

/// The statements of a whole program after those in `acc`.
pub open spec fn program_rest(ts: Seq<(TokenType, Seq<char>)>, q: int, acc: Seq<StmtModel>) -> Parsed<
    Seq<StmtModel>,
>
    decreases ts.len() - q,
{
    if !(0 <= q < ts.len()) {
        Parsed::Failed
    } else if ts[q].0 == TokenType::EOF {
        Parsed::Done(acc, q)
    } else {
        match stmt(ts, q) {
            Parsed::Done(o, q2) => if q < q2 <= ts.len() {
                program_rest(
                    ts,
                    q2,
                    match o {
                        Some(s) => acc.push(s),
                        None => acc,
                    },
                )
            } else {
                Parsed::Failed
            },
            Parsed::Failed => Parsed::Failed,
        }
    }
}

/// The statements of a source text, if it is a program.
pub open spec fn parse_source(s: Seq<char>) -> Option<Seq<StmtModel>> {
    match lex(s) {
        Ok(ts) => match program_rest(ts, 0, Seq::empty()) {
            Parsed::Done(b, _) => Some(b),
            Parsed::Failed => None,
        },
        Err(_) => None,
    }
}

/// Parsing depends on the source text alone, with no state kept from an
/// earlier parse: two programs that the parser produced from one source
/// text have the same form, statement for statement.
pub proof fn law_parse_deterministic(source: Seq<char>, a: Seq<StmtModel>, b: Seq<StmtModel>)
    requires
        parse_source(source) == Some(a),
        parse_source(source) == Some(b),
    ensures
        a == b,
{
}

} // verus!
