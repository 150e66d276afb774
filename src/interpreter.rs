use std::rc::Rc;
use vstd::prelude::*;

use crate::ast::{
    share, AssignmentExpr, BinaryExpr, Body, CallExpr, ComparativeExpr, Expr, ForStmt,
    FunctionDeclaration, IfStmt, ListLiteral, MemberExpr, ObjectLiteral, Program, ReturnStmt,
    Stmt, VarDeclaration, WhileStmt,
};
use crate::environment::{bindings_map, has_name, names_unique, resolve_in, SharedEnvironment};
use crate::error::FatalError;
use crate::host::Host;
use crate::natives::call_native;
use crate::parser::Parser;
use crate::grammar::parse_source;
use crate::lexer::lex;
use crate::ast::body_view;
use crate::values::{
    BooleanValue, FunctionValue, ListValue, NullValue, NumberValue, ObjectValue, RuntimeValue,
    StringValue,
};
use crate::str_eq;
use crate::values::{index_target, numberless, render, truthy, value_type, FunctionCall};

verus! {

/// How a statement ended: normally with a value, or by a `return` that
/// unwinds to the enclosing function call.
#[derive(Debug)]
pub enum Signal {
    Normal(RuntimeValue),
    Returning(RuntimeValue),
}

/// Evaluation only adds scopes: the scopes there were keep their place and
/// their parent, and the chain stays well formed.
pub open spec fn grows(prev: SharedEnvironment, next: SharedEnvironment) -> bool {
    &&& next.wf()
    &&& next.scopes().len() >= prev.scopes().len()
    &&& forall|k: int|
        0 <= k < prev.scopes().len() ==> (#[trigger] next.scopes()[k]).parent_index()
            == prev.scopes()[k].parent_index()
}

/// Every scope that `prev` has binds the same names in `next`: evaluation
/// declared nothing in them.
pub open spec fn keeps_names(prev: SharedEnvironment, next: SharedEnvironment) -> bool {
    forall|k: int|
        0 <= k < prev.scopes().len() ==> (#[trigger] next.scopes()[k])@.dom()
            == prev.scopes()[k]@.dom()
}

/// Every scope that `prev` has but `env` binds the same names in `next`.
pub open spec fn keeps_names_except(prev: SharedEnvironment, next: SharedEnvironment, env: int) -> bool {
    forall|k: int|
        0 <= k < prev.scopes().len() && k != env ==> (#[trigger] next.scopes()[k])@.dom()
            == prev.scopes()[k]@.dom()
}

/// Block scoping: when evaluation only added scopes and declared nothing
/// in the scopes there were (as an expression, an `if`, a `while` or any
/// block evaluated in a scope of its own does), every name resolves from
/// each of those scopes to the same scope as before; what the nested
/// scopes declared is not visible once they have ended.
pub proof fn law_block_scoping(
    before: SharedEnvironment,
    after: SharedEnvironment,
    env: int,
    name: Seq<char>,
)
    requires
        grows(before, after),
        before.wf(),
        keeps_names(before, after),
        0 <= env < before.scopes().len(),
    ensures
        resolve_in(after.scopes(), env, name) == resolve_in(before.scopes(), env, name),
    decreases env,
{
    assert(after.scopes()[env]@.dom() == before.scopes()[env]@.dom());
    assert(after.scopes()[env]@.contains_key(name) == before.scopes()[env]@.contains_key(name));
    assert(after.scopes()[env].parent_index() == before.scopes()[env].parent_index());
    if !before.scopes()[env]@.contains_key(name) {
        if let Some(p) = before.scopes()[env].parent_index() {
            if p < env {
                law_block_scoping(before, after, p as int, name);
            }
        }
    }
}

/// The value of an expression that takes no evaluation step: a string
/// literal's string, or a name's value in the innermost scope from `env`
/// that binds it.
pub open spec fn atom_value(envs: SharedEnvironment, env: int, e: Expr) -> Option<RuntimeValue> {
    match e {
        Expr::StringLiteral(s) => Some(RuntimeValue::String(StringValue { value: s.string })),
        Expr::Identifier(id) => match resolve_in(envs.scopes(), env, id.symbol@) {
            Some(i) => Some(envs.scopes()[i]@[id.symbol@]),
            None => None,
        },
        _ => None,
    }
}

/// The text of `string op number` (or `number op string` when
/// `number_first`), given the number's text and its count.
pub open spec fn string_number_text(
    string: Seq<char>,
    number_text: Seq<char>,
    count: nat,
    number_first: bool,
    op: Seq<char>,
) -> Seq<char> {
    if op == "+"@ {
        if number_first {
            number_text + string
        } else {
            string + number_text
        }
    } else if op == "*"@ {
        repeat(string, count)
    } else {
        Seq::empty()
    }
}

/// `v` is a result of `l op r`, for some text and count that the host may
/// give for the number of a string and number pair.
pub open spec fn binary_result(l: RuntimeValue, r: RuntimeValue, op: Seq<char>, v: RuntimeValue) -> bool {
    match (l, r) {
        (RuntimeValue::Number(_), RuntimeValue::Number(_)) => v is Number,
        (RuntimeValue::String(a), RuntimeValue::String(b)) => (v matches RuntimeValue::String(s)
            && s.value@ == if op == "+"@ {
            a.value@ + b.value@
        } else {
            Seq::<char>::empty()
        }),
        (RuntimeValue::String(a), RuntimeValue::Number(_)) => (v matches RuntimeValue::String(s)
            && exists|t: Seq<char>, c: nat|
            s.value@ == #[trigger] string_number_text(a.value@, t, c, false, op)),
        (RuntimeValue::Number(_), RuntimeValue::String(a)) => (v matches RuntimeValue::String(s)
            && exists|t: Seq<char>, c: nat|
            s.value@ == #[trigger] string_number_text(a.value@, t, c, true, op)),
        _ => v == RuntimeValue::Null(NullValue {  }),
    }
}

/// `r` is what reading key `k` of record `o` gives: its value, or a missing
/// property error.
pub open spec fn record_lookup(o: ObjectValue, k: Seq<char>, r: Result<RuntimeValue, FatalError>) -> bool {
    &&& (has_name(o.properties@, k) <==> r is Ok)
    &&& (r is Ok ==> exists|i: int|
        0 <= i < o.properties@.len() && (#[trigger] o.properties@[i]).0@ == k
            && o.properties@[i].1 == r->Ok_0)
    &&& (names_unique(o.properties@) && r is Ok ==> r->Ok_0 == bindings_map(o.properties@)[k])
    &&& (r is Err ==> r matches Err(FatalError::MissingProperty(_)))
}

/// `r` is what reading index `i` of a list with elements `els` gives.
pub open spec fn list_index_result(els: Seq<RuntimeValue>, i: int, r: Result<RuntimeValue, FatalError>) -> bool {
    match index_target(els.len() as int, i) {
        Some(k) => r == Ok::<RuntimeValue, FatalError>(els[k]),
        None => r == Err::<RuntimeValue, FatalError>(FatalError::IndexOutOfRange),
    }
}

/// The keys of the first `n` properties of an object literal.
pub open spec fn literal_keys(ps: Seq<crate::ast::Property>, n: int) -> Set<Seq<char>> {
    Set::new(|k: Seq<char>| exists|i: int| 0 <= i < n && (#[trigger] ps[i]).key@ == k)
}

/// An atom reads the same from a fresh, empty scope nested in `env` as
/// from `env` itself.
pub proof fn lemma_atom_in_fresh_scope(
    before: SharedEnvironment,
    after: SharedEnvironment,
    env: usize,
    scope: usize,
    e: Expr,
)
    requires
        before.wf(),
        after.wf(),
        env < before.scopes().len(),
        scope == before.scopes().len(),
        after.scopes().len() == before.scopes().len() + 1,
        after.scopes().subrange(0, scope as int) == before.scopes(),
        after.scopes()[scope as int]@ == Map::<Seq<char>, RuntimeValue>::empty(),
        after.scopes()[scope as int].parent_index() == Some(env),
    ensures
        atom_value(after, scope as int, e) == atom_value(before, env as int, e),
{
    if let Expr::Identifier(id) = e {
        let n = id.symbol@;
        crate::environment::law_scopes_outlive_calls(before, after, env as int, n);
        assert(!after.scopes()[scope as int]@.contains_key(n));
        assert(resolve_in(after.scopes(), scope as int, n) == resolve_in(after.scopes(), env as int, n));
        crate::environment::lemma_resolve_found(before.scopes(), env as int, n);
        if let Some(i) = resolve_in(before.scopes(), env as int, n) {
            assert(after.scopes().subrange(0, scope as int)[i] == after.scopes()[i]);
        }
    }
}

/// The value of `return e;` when `e` is an atom.
pub open spec fn returns_atom(envs: SharedEnvironment, env: int, s: Stmt) -> Option<RuntimeValue> {
    match s {
        Stmt::Return(ret) => atom_value(envs, env, ret.value),
        _ => None,
    }
}

/// The value returned by the first statement of `b`, when it is `return e;`
/// with `e` an atom.
pub open spec fn body_starts_with_return(envs: SharedEnvironment, env: int, b: Body) -> Option<
    RuntimeValue,
> {
    if b.body@.len() > 0 {
        returns_atom(envs, env, b.body@[0])
    } else {
        None
    }
}

/// The value of the first statement of `b`, when it is an expression
/// statement whose expression is an atom.
pub open spec fn first_expr_atom(envs: SharedEnvironment, env: int, b: Body) -> Option<RuntimeValue> {
    if b.body@.len() > 0 {
        match b.body@[0] {
            Stmt::Expr(e) => atom_value(envs, env, e),
            _ => None,
        }
    } else {
        None
    }
}

/// The value returned by `if c { return e; ... }` when the condition `c` is
/// an atom that is true (and no number) and `e` is an atom.
pub open spec fn if_returns(envs: SharedEnvironment, env: int, i: IfStmt) -> Option<RuntimeValue> {
    match atom_value(envs, env, i.condition) {
        Some(c) => if !(c is Number) && truthy(c) {
            body_starts_with_return(envs, env, i.body)
        } else {
            None
        },
        None => None,
    }
}

/// Every expression of `es` is an atom.
pub open spec fn all_atoms(envs: SharedEnvironment, env: int, es: Seq<Expr>) -> bool {
    forall|k: int| 0 <= k < es.len() ==> (#[trigger] atom_value(envs, env, es[k])) is Some
}

/// What a comparison of two evaluated operands gives, as `compare_values`
/// states it.
pub open spec fn compare_outcome(
    c: Comparison,
    l: RuntimeValue,
    rv: RuntimeValue,
    r: Result<RuntimeValue, FatalError>,
) -> bool {
    &&& (r is Ok <==> compare_ok(c, l, rv))
    &&& (!compare_ok(c, l, rv) ==> r == Err::<RuntimeValue, FatalError>(FatalError::Unordered))
    &&& (r is Ok ==> r->Ok_0 is Boolean)
    &&& (compare_known(c, l, rv) matches Some(b) ==> r == Ok::<RuntimeValue, FatalError>(
        RuntimeValue::Boolean(BooleanValue { value: b }),
    ))
}

/// What reading `name` from scope `env` gives.
pub open spec fn lookup_result(
    pre: SharedEnvironment,
    env: int,
    name: Seq<char>,
    r: Result<RuntimeValue, FatalError>,
) -> bool {
    match resolve_in(pre.scopes(), env, name) {
        Some(i) => r == Ok::<RuntimeValue, FatalError>(pre.scopes()[i]@[name]),
        None => r matches Err(FatalError::UnresolvedVariable(_)),
    }
}

/// What assigning `v` to `name` from scope `env` does: it rebinds the name
/// in the innermost scope that binds it, unless it is unbound or constant
/// there; nothing else changes.
pub open spec fn assign_result(
    pre: SharedEnvironment,
    env: int,
    name: Seq<char>,
    v: RuntimeValue,
    post: SharedEnvironment,
    r: Result<RuntimeValue, FatalError>,
) -> bool {
    &&& post.wf()
    &&& match resolve_in(pre.scopes(), env, name) {
        None => (r matches Err(FatalError::UnresolvedVariable(_))) && post.scopes()
            == pre.scopes(),
        Some(i) => if pre.scopes()[i].constant_names().contains(name) {
            (r matches Err(FatalError::ConstantReassignment(_))) && post.scopes() == pre.scopes()
        } else {
            r == Ok::<RuntimeValue, FatalError>(v) && crate::environment::others_unchanged(
                pre.scopes(),
                post.scopes(),
                i,
            ) && crate::environment::rebinds(pre.scopes()[i], post.scopes()[i], name, v)
        },
    }
}

/// The intermediate states and results of an evaluation: a node holds the
/// trace, end state and result of a first sub-evaluation, then the trace
/// and result of a second one, which starts in that end state.
pub enum EvalTrace {
    Leaf,
    Node(Box<EvalTrace>, SharedEnvironment, Result<RuntimeValue, FatalError>, Box<EvalTrace>, Result<RuntimeValue, FatalError>),
    /// A call: the callee's trace, end state and value; the arguments'
    /// trace, how many were evaluated, their values and end state; the
    /// failing argument's trace; the closure's run.
    Call(
        Box<EvalTrace>,
        SharedEnvironment,
        Result<RuntimeValue, FatalError>,
        Box<EvalTrace>,
        Ghost<nat>,
        Ghost<Seq<RuntimeValue>>,
        SharedEnvironment,
        Box<EvalTrace>,
        Box<StmtTrace>,
    ),
    /// An object literal's property: the properties before, the state and
    /// bindings before this one, its value's trace and result.
    Prop(Box<EvalTrace>, SharedEnvironment, Ghost<Map<Seq<char>, RuntimeValue>>, Box<EvalTrace>, Result<RuntimeValue, FatalError>),
    /// An object literal: its properties' trace, how many succeeded, their
    /// bindings and end state, and the failing property's trace.
    Props(Box<EvalTrace>, Ghost<nat>, Ghost<Map<Seq<char>, RuntimeValue>>, SharedEnvironment, Box<EvalTrace>),
}

/// Evaluating `e` in scope `env` of `pre`, with at most `depth` nested
/// steps, may end in `post` with result `r`; `t` records how. The host's
/// answers (number arithmetic, text and truth, builtins) and the results
/// of calls are left open; everything else is fixed.
pub open spec fn expr_rel(
    pre: SharedEnvironment,
    env: int,
    e: Expr,
    depth: nat,
    post: SharedEnvironment,
    r: Result<RuntimeValue, FatalError>,
    t: EvalTrace,
) -> bool
    decreases depth, 0nat, 0nat,
{
    if depth == 0 {
        r == Err::<RuntimeValue, FatalError>(FatalError::DepthExceeded) && post == pre
    } else {
        let d = (depth - 1) as nat;
        match e {
            Expr::Identifier(id) => post == pre && lookup_result(pre, env, id.symbol@, r),
            Expr::NumericLiteral(_) => post == pre && (r matches Ok(RuntimeValue::Number(_)) || r
                matches Err(FatalError::InvalidNumber(_))),
            Expr::StringLiteral(s) => post == pre && r == Ok::<RuntimeValue, FatalError>(
                RuntimeValue::String(StringValue { value: s.string }),
            ),
            Expr::Binary(b) => binop_rel(pre, env, b, d, post, r, t),
            Expr::Comparative(c) => comp_rel(pre, env, c, d, post, r, t),
            Expr::Assignment(a) => assign_rel(pre, env, a, d, post, r, t),
            Expr::Member(m) => member_rel(pre, env, m, d, post, r, t),
            Expr::Object(o) => obj_rel(pre, env, o, d, post, r, t),
            Expr::List(l) => list_rel(pre, env, l, d, post, r, t),
            Expr::Call(c) => call_rel(pre, env, c, d, post, r, t),
        }
    }
}

/// Some trace leads from `pre` to `post` with result `r`.
pub open spec fn evaluates(
    pre: SharedEnvironment,
    env: int,
    e: Expr,
    depth: nat,
    post: SharedEnvironment,
    r: Result<RuntimeValue, FatalError>,
) -> bool {
    exists|t: EvalTrace| #[trigger] expr_rel(pre, env, e, depth, post, r, t)
}

/// Two operands evaluated in turn, `left` from `pre` and `right` from where
/// it ended; an error of either is the result, and `both` says what the
/// two values give.
pub open spec fn operands_rel(
    pre: SharedEnvironment,
    env: int,
    left: Expr,
    right: Expr,
    d: nat,
    post: SharedEnvironment,
    r: Result<RuntimeValue, FatalError>,
    t: EvalTrace,
) -> bool
    decreases d, 1nat, 0nat,
{
    match t {
        EvalTrace::Node(t1, mid, r1, t2, r2) => expr_rel(pre, env, left, d, mid, r1, *t1) && match r1 {
            Err(e) => post == mid && r == Err::<RuntimeValue, FatalError>(e),
            Ok(_) => expr_rel(mid, env, right, d, post, r2, *t2) && (r2 matches Err(e) ==> r
                == Err::<RuntimeValue, FatalError>(e)),
        },
        _ => false,
    }
}

/// `left op right`: the left operand, then the right one, then
/// `binary_result`; an operand's error is the result.
pub open spec fn binop_rel(
    pre: SharedEnvironment,
    env: int,
    b: BinaryExpr,
    d: nat,
    post: SharedEnvironment,
    r: Result<RuntimeValue, FatalError>,
    t: EvalTrace,
) -> bool
    decreases d, 2nat, 0nat,
{
    operands_rel(pre, env, *b.left, *b.right, d, post, r, t) && match t {
        EvalTrace::Node(_, _, Ok(l), _, Ok(rv)) => r is Ok && binary_result(l, rv, b.operator@, r->Ok_0),
        _ => true,
    }
}

/// A comparison: both operands, then `compare_outcome`, or null for an
/// operator that is no comparison.
pub open spec fn comp_rel(
    pre: SharedEnvironment,
    env: int,
    c: ComparativeExpr,
    d: nat,
    post: SharedEnvironment,
    r: Result<RuntimeValue, FatalError>,
    t: EvalTrace,
) -> bool
    decreases d, 2nat, 0nat,
{
    operands_rel(pre, env, *c.left, *c.right, d, post, r, t) && match t {
        EvalTrace::Node(_, _, Ok(l), _, Ok(rv)) => match comparison_of(c.operator@) {
            None => r == Ok::<RuntimeValue, FatalError>(RuntimeValue::Null(NullValue {  })),
            Some(cmp) => compare_outcome(cmp, l, rv, r),
        },
        _ => true,
    }
}

/// `name = value`: the value, then `assign_result`. A member target is
/// stated by `eval_assignment` itself; any other target is fatal.
pub open spec fn assign_rel(
    pre: SharedEnvironment,
    env: int,
    a: AssignmentExpr,
    d: nat,
    post: SharedEnvironment,
    r: Result<RuntimeValue, FatalError>,
    t: EvalTrace,
) -> bool
    decreases d, 2nat, 0nat,
{
    match *a.assignee {
        Expr::Identifier(id) => match t {
            EvalTrace::Node(t1, mid, r1, _, _) => expr_rel(pre, env, *a.value, d, mid, r1, *t1)
                && match r1 {
                Err(e) => post == mid && r == Err::<RuntimeValue, FatalError>(e),
                Ok(v) => assign_result(mid, env, id.symbol@, v, post, r),
            },
            _ => false,
        },
        Expr::Member(m) => member_assign_rel(pre, env, m, *a.value, d, post, r, t),
        _ => post == pre && r == Err::<RuntimeValue, FatalError>(
            FatalError::InvalidAssignmentTarget,
        ),
    }
}

/// `o2` is `o` with `key` bound to `v`, as `ObjectValue::with_property`
/// builds it.
pub open spec fn with_property_rel(o: ObjectValue, key: Seq<char>, v: RuntimeValue, o2: ObjectValue) -> bool {
    &&& names_unique(o.properties@) ==> names_unique(o2.properties@) && bindings_map(
        o2.properties@,
    ) == bindings_map(o.properties@).insert(key, v)
    &&& has_name(o.properties@, key) ==> o2.properties@.len() == o.properties@.len()
    &&& !has_name(o.properties@, key) ==> o2.properties@.len() == o.properties@.len() + 1
        && o2.properties@.drop_last() == o.properties@ && o2.properties@.last().0@ == key
        && o2.properties@.last().1 == v
}

/// After the key and the value: the base name must hold a record, and is
/// rebound (by `assign_result`) to a copy with the property set; no other
/// binding and no other record changes.
pub open spec fn store_property(
    pre: SharedEnvironment,
    env: int,
    base: Seq<char>,
    key: Seq<char>,
    v: RuntimeValue,
    post: SharedEnvironment,
    r: Result<RuntimeValue, FatalError>,
) -> bool {
    match resolve_in(pre.scopes(), env, base) {
        None => (r matches Err(FatalError::UnresolvedVariable(_))) && post == pre,
        Some(i) => match pre.scopes()[i]@[base] {
            RuntimeValue::Object(o) => exists|nv: RuntimeValue|
                #[trigger] assign_result(pre, env, base, nv, post, r) && (nv matches RuntimeValue::Object(
                    o2,
                ) && with_property_rel(*o, key, v, *o2)),
            _ => post == pre && r == Err::<RuntimeValue, FatalError>(
                FatalError::InvalidMemberExpression,
            ),
        },
    }
}

/// `base.key = value` or `base[key] = value`: the base must be a name; a
/// computed key is evaluated first and must be a string; then the value;
/// then `store_property`.
pub open spec fn member_assign_rel(
    pre: SharedEnvironment,
    env: int,
    m: MemberExpr,
    value: Expr,
    d: nat,
    post: SharedEnvironment,
    r: Result<RuntimeValue, FatalError>,
    t: EvalTrace,
) -> bool
    decreases d, 1nat, 0nat,
{
    match *m.object {
        Expr::Identifier(base) => if !m.computed {
            match *m.property {
                Expr::Identifier(k) => match t {
                    EvalTrace::Node(tv, s2, rv, _, _) => expr_rel(pre, env, value, d, s2, rv, *tv)
                        && match rv {
                        Err(e) => post == s2 && r == Err::<RuntimeValue, FatalError>(e),
                        Ok(v) => store_property(s2, env, base.symbol@, k.symbol@, v, post, r),
                    },
                    _ => false,
                },
                _ => post == pre && r == Err::<RuntimeValue, FatalError>(
                    FatalError::InvalidMemberExpression,
                ),
            }
        } else {
            match t {
                EvalTrace::Node(tk, mid, rk, rest, _) => expr_rel(pre, env, *m.property, d, mid, rk, *tk)
                    && match rk {
                    Err(e) => post == mid && r == Err::<RuntimeValue, FatalError>(e),
                    Ok(RuntimeValue::String(ks)) => match *rest {
                        EvalTrace::Node(tv, s2, rv, _, _) => expr_rel(mid, env, value, d, s2, rv, *tv)
                            && match rv {
                            Err(e) => post == s2 && r == Err::<RuntimeValue, FatalError>(e),
                            Ok(v) => store_property(s2, env, base.symbol@, ks.value@, v, post, r),
                        },
                        _ => false,
                    },
                    Ok(_) => post == mid && r == Err::<RuntimeValue, FatalError>(
                        FatalError::InvalidMemberExpression,
                    ),
                },
                _ => false,
            }
        },
        _ => post == pre && r == Err::<RuntimeValue, FatalError>(
            FatalError::InvalidAssignmentTarget,
        ),
    }
}

/// `object.name` or `object[key]`: the object, then (for a computed access)
/// the key, then the record's property or the list's element.
pub open spec fn member_rel(
    pre: SharedEnvironment,
    env: int,
    m: MemberExpr,
    d: nat,
    post: SharedEnvironment,
    r: Result<RuntimeValue, FatalError>,
    t: EvalTrace,
) -> bool
    decreases d, 1nat, 0nat,
{
    match t {
        EvalTrace::Node(t1, mid, r1, t2, r2) => expr_rel(pre, env, *m.object, d, mid, r1, *t1) && match r1 {
            Err(e) => post == mid && r == Err::<RuntimeValue, FatalError>(e),
            Ok(RuntimeValue::Object(rec)) => if !m.computed {
                post == mid && match *m.property {
                    Expr::Identifier(id) => record_lookup(*rec, id.symbol@, r),
                    _ => r == Err::<RuntimeValue, FatalError>(FatalError::InvalidMemberExpression),
                }
            } else {
                expr_rel(mid, env, *m.property, d, post, r2, *t2) && match r2 {
                    Err(e) => r == Err::<RuntimeValue, FatalError>(e),
                    Ok(RuntimeValue::String(ks)) => record_lookup(*rec, ks.value@, r),
                    Ok(_) => r == Err::<RuntimeValue, FatalError>(FatalError::InvalidMemberExpression),
                }
            },
            Ok(RuntimeValue::List(l)) => if !m.computed {
                post == mid && r == Err::<RuntimeValue, FatalError>(
                    FatalError::InvalidMemberExpression,
                )
            } else {
                expr_rel(mid, env, *m.property, d, post, r2, *t2) && match r2 {
                    Err(e) => r == Err::<RuntimeValue, FatalError>(e),
                    Ok(RuntimeValue::Number(_)) => exists|i: int| #[trigger]
                        list_index_result(l.elements@, i, r),
                    Ok(_) => r == Err::<RuntimeValue, FatalError>(FatalError::InvalidMemberExpression),
                }
            },
            Ok(_) => post == mid && r == Err::<RuntimeValue, FatalError>(
                FatalError::InvalidMemberExpression,
            ),
        },
        _ => false,
    }
}

/// How statements ran: `Step` holds an expression's trace, end state and
/// result, then the rest; `Seq` holds the trace of the statements before,
/// the state and last value they ended with, and the trace of one more
/// statement; `Stop` says after how many statements a block stopped.
pub enum StmtTrace {
    Leaf,
    Step(EvalTrace, SharedEnvironment, Result<RuntimeValue, FatalError>, Box<StmtTrace>),
    Then(Box<StmtTrace>, SharedEnvironment, RuntimeValue, Box<StmtTrace>),
    Stop(nat, Box<StmtTrace>, SharedEnvironment, RuntimeValue, Box<StmtTrace>),
    Block(Box<StmtTrace>, Result<Signal, FatalError>),
    /// A closure's frame: the parameters' trace, the state with the fresh
    /// scope, the state with the parameters bound, the body's run and its
    /// result.
    Frame(Box<StmtTrace>, SharedEnvironment, SharedEnvironment, Box<StmtTrace>, Result<Signal, FatalError>),
    /// A pass of a `for` loop: the passes before, the state before this
    /// one, the state after binding the loop variable, the body's run and
    /// result, and the binding's result.
    Loop(
        Box<StmtTrace>,
        SharedEnvironment,
        SharedEnvironment,
        Box<StmtTrace>,
        Result<Signal, FatalError>,
        Result<RuntimeValue, FatalError>,
    ),
    /// A pass of a `while` loop: the passes before, the state before this
    /// one, the condition's trace, end state and value, and the body's run
    /// and result.
    Pass(
        Box<StmtTrace>,
        SharedEnvironment,
        EvalTrace,
        SharedEnvironment,
        Result<RuntimeValue, FatalError>,
        Box<StmtTrace>,
        Result<Signal, FatalError>,
    ),
}

/// `post` is `pre` with one more, empty scope nested in `env`.
pub open spec fn pushed_from(pre: SharedEnvironment, env: int, post: SharedEnvironment) -> bool {
    &&& post.wf()
    &&& post.scopes().len() == pre.scopes().len() + 1
    &&& post.scopes().subrange(0, pre.scopes().len() as int) == pre.scopes()
    &&& post.scopes()[pre.scopes().len() as int]@ == Map::<Seq<char>, RuntimeValue>::empty()
    &&& post.scopes()[pre.scopes().len() as int].constant_names() == Set::<Seq<char>>::empty()
    &&& post.scopes()[pre.scopes().len() as int].parent_index() == Some(env as usize)
}

/// What declaring `name` as `v` in scope `env` does, as a statement.
pub open spec fn declare_result(
    pre: SharedEnvironment,
    env: int,
    name: Seq<char>,
    v: RuntimeValue,
    constant: bool,
    post: SharedEnvironment,
    r: Result<Signal, FatalError>,
) -> bool {
    &&& post.wf()
    &&& if pre.scopes()[env]@.contains_key(name) {
        (r matches Err(FatalError::AlreadyDeclared(_))) && post.scopes() == pre.scopes()
    } else {
        r == Ok::<Signal, FatalError>(Signal::Normal(v)) && crate::environment::others_unchanged(
            pre.scopes(),
            post.scopes(),
            env,
        ) && post.scopes()[env]@ == pre.scopes()[env]@.insert(name, v)
            && post.scopes()[env].parent_index() == pre.scopes()[env].parent_index()
            && post.scopes()[env].constant_names() == if constant {
            pre.scopes()[env].constant_names().insert(name)
        } else {
            pre.scopes()[env].constant_names()
        }
    }
}

/// An expression's result as a statement's.
pub open spec fn as_signal(r: Result<RuntimeValue, FatalError>) -> Result<Signal, FatalError> {
    match r {
        Ok(v) => Ok(Signal::Normal(v)),
        Err(e) => Err(e),
    }
}

/// Running statement `s` in scope `env` of `pre`, with at most `depth`
/// nested steps, may end in `post` with result `r`; `t` records how.
/// Loops are stated by `eval_while` and `eval_for` themselves.
pub open spec fn stmt_rel(
    pre: SharedEnvironment,
    env: int,
    s: Stmt,
    depth: nat,
    post: SharedEnvironment,
    r: Result<Signal, FatalError>,
    t: StmtTrace,
) -> bool
    decreases depth, 0nat, 0nat,
{
    if depth == 0 {
        r == Err::<Signal, FatalError>(FatalError::DepthExceeded) && post == pre
    } else {
        let d = (depth - 1) as nat;
        match s {
            Stmt::Expr(e) => match t {
                StmtTrace::Step(te, p2, re, _) => post == p2 && expr_rel(pre, env, e, d, p2, re, te)
                    && r == as_signal(re),
                _ => false,
            },
            Stmt::Body(b) => block_rel(pre, env, b, true, d, post, r, t),
            Stmt::VarDeclaration(v) => match t {
                StmtTrace::Step(te, mid, re, _) => expr_rel(pre, env, v.value, d, mid, re, te)
                    && match re {
                    Err(e) => post == mid && r == Err::<Signal, FatalError>(e),
                    Ok(val) => declare_result(mid, env, v.identifier@, val, v.constant, post, r),
                },
                _ => false,
            },
            Stmt::FunctionDeclaration(f) => post.wf() && if pre.scopes()[env]@.contains_key(f.name@) {
                r is Err && post.scopes() == pre.scopes()
            } else {
                r == Ok::<Signal, FatalError>(Signal::Normal(RuntimeValue::Null(NullValue {  })))
                    && crate::environment::others_unchanged(pre.scopes(), post.scopes(), env)
                    && post.scopes()[env]@ == pre.scopes()[env]@.insert(
                    f.name@,
                    RuntimeValue::Function(FunctionValue { declaration: f, declaration_env: env as usize }),
                )
            },
            Stmt::Return(ret) => if pre.scopes()[env].parent_index() is None {
                r == Err::<Signal, FatalError>(FatalError::ReturnOutsideFunction) && post == pre
            } else {
                match t {
                    StmtTrace::Step(te, p2, re, _) => post == p2 && expr_rel(
                        pre,
                        env,
                        ret.value,
                        d,
                        p2,
                        re,
                        te,
                    ) && r == match re {
                        Ok(v) => Ok(Signal::Returning(v)),
                        Err(e) => Err::<Signal, FatalError>(e),
                    },
                    _ => false,
                }
            },
            Stmt::If(i) => if_rel(pre, env, i, d, post, r, t),
            Stmt::While(w) => while_rel(pre, env, w, d, post, r, t),
            Stmt::For(f) => for_rel(pre, env, f, d, post, r, t),
        }
    }
}

/// The first `k` statements of `stmts` ran in scope `scope`, each ending
/// normally, from `pre` to `post`; `last` is the value of the last of them
/// (null for none).
pub open spec fn prefix_rel(
    pre: SharedEnvironment,
    scope: int,
    stmts: Seq<Stmt>,
    k: nat,
    d: nat,
    post: SharedEnvironment,
    last: RuntimeValue,
    t: StmtTrace,
) -> bool
    decreases d, 1nat, k,
{
    if k == 0 {
        post == pre && last == RuntimeValue::Null(NullValue {  })
    } else {
        match t {
            StmtTrace::Then(tp, mid, lp, tk) => k <= stmts.len() && prefix_rel(
                pre,
                scope,
                stmts,
                (k - 1) as nat,
                d,
                mid,
                lp,
                *tp,
            ) && stmt_rel(mid, scope, stmts[k - 1], d, post, Ok(Signal::Normal(last)), *tk),
            _ => false,
        }
    }
}

/// Running `stmts` in scope `scope`: they run in order until one returns or
/// fails, which ends the run with that; else the last value is the result.
pub open spec fn run_rel(
    pre: SharedEnvironment,
    scope: int,
    stmts: Seq<Stmt>,
    d: nat,
    post: SharedEnvironment,
    r: Result<Signal, FatalError>,
    t: StmtTrace,
) -> bool
    decreases d, 2nat, 0nat,
{
    match t {
        StmtTrace::Stop(k, tp, mid, last, tk) => k <= stmts.len() && prefix_rel(
            pre,
            scope,
            stmts,
            k,
            d,
            mid,
            last,
            *tp,
        ) && if k == stmts.len() {
            post == mid && r == Ok::<Signal, FatalError>(Signal::Normal(last))
        } else {
            (r is Err || r matches Ok(Signal::Returning(_))) && stmt_rel(
                mid,
                scope,
                stmts[k as int],
                d,
                post,
                r,
                *tk,
            )
        },
        _ => false,
    }
}

/// A block: in a fresh scope nested in `env` when `make_env`, else in `env`.
pub open spec fn block_rel(
    pre: SharedEnvironment,
    env: int,
    b: Body,
    make_env: bool,
    d: nat,
    post: SharedEnvironment,
    r: Result<Signal, FatalError>,
    t: StmtTrace,
) -> bool
    decreases d, 3nat, 0nat,
{
    if make_env {
        match t {
            StmtTrace::Then(_, pushed, _, rest) => pushed_from(pre, env, pushed) && run_rel(
                pushed,
                pre.scopes().len() as int,
                b.body@,
                d,
                post,
                r,
                *rest,
            ),
            _ => false,
        }
    } else {
        run_rel(pre, env, b.body@, d, post, r, t)
    }
}

/// A taken branch: the block's return or error goes on up; a block that
/// ends normally gives null.
pub open spec fn branch_rel(
    pre: SharedEnvironment,
    env: int,
    b: Body,
    d: nat,
    post: SharedEnvironment,
    r: Result<Signal, FatalError>,
    t: StmtTrace,
) -> bool
    decreases d, 4nat, 0nat,
{
    match t {
        StmtTrace::Block(tb, rb) => block_rel(pre, env, b, true, d, post, rb, *tb) && r == match rb {
            Ok(Signal::Normal(_)) => Ok(Signal::Normal(RuntimeValue::Null(NullValue {  }))),
            _ => rb,
        },
        _ => false,
    }
}

/// `if`: the condition, then the body when it is true (a number's truth is
/// the host's), the else-body when it is false, or nothing.
pub open spec fn if_rel(
    pre: SharedEnvironment,
    env: int,
    i: IfStmt,
    d: nat,
    post: SharedEnvironment,
    r: Result<Signal, FatalError>,
    t: StmtTrace,
) -> bool
    decreases d, 5nat, 0nat,
{
    match t {
        StmtTrace::Step(tc, mid, rc, rest) => expr_rel(pre, env, i.condition, d, mid, rc, tc) && match rc {
            Err(e) => post == mid && r == Err::<Signal, FatalError>(e),
            Ok(c) => {
                let taken_ok = branch_rel(mid, env, i.body, d, post, r, *rest);
                let else_ok = match i.else_stmt {
                    Some(eb) => branch_rel(mid, env, eb, d, post, r, *rest),
                    None => post == mid && r == Ok::<Signal, FatalError>(
                        Signal::Normal(RuntimeValue::Null(NullValue {  })),
                    ),
                };
                if c is Number {
                    taken_ok || else_ok
                } else if truthy(c) {
                    taken_ok
                } else {
                    else_ok
                }
            },
        },
        _ => false,
    }
}

/// The first `k` passes of `for` loop `f` over `els`, each binding the loop
/// variable by assignment and running the body to a normal end, lead from
/// `pre` to `post`.
pub open spec fn for_prefix(
    pre: SharedEnvironment,
    env: int,
    f: ForStmt,
    els: Seq<RuntimeValue>,
    k: nat,
    d: nat,
    post: SharedEnvironment,
    t: StmtTrace,
) -> bool
    decreases d, 6nat, k,
{
    if k == 0 {
        post == pre
    } else {
        match t {
            StmtTrace::Loop(tp, s, s1, tb, rb, ra) => k <= els.len() && for_prefix(
                pre,
                env,
                f,
                els,
                (k - 1) as nat,
                d,
                s,
                *tp,
            ) && assign_result(s, env, f.variable@, els[k - 1], s1, ra) && ra is Ok && block_rel(
                s1,
                env,
                f.body,
                true,
                d,
                post,
                rb,
                *tb,
            ) && rb matches Ok(Signal::Normal(_)),
            _ => false,
        }
    }
}

/// `for name in iterable { ... }`: the iterable must be a list; for each
/// element in turn the name is rebound by assignment (fatal when no scope
/// binds it) and the body runs in a fresh scope; a return or error stops
/// the loop.
pub open spec fn for_rel(
    pre: SharedEnvironment,
    env: int,
    f: ForStmt,
    d: nat,
    post: SharedEnvironment,
    r: Result<Signal, FatalError>,
    t: StmtTrace,
) -> bool
    decreases d, 7nat, 0nat,
{
    match t {
        StmtTrace::Step(ti, mid, ri, rest) => expr_rel(pre, env, f.iterable, d, mid, ri, ti) && match ri {
            Err(e) => post == mid && r == Err::<Signal, FatalError>(e),
            Ok(RuntimeValue::List(l)) => match *rest {
                StmtTrace::Stop(k, tp, s, _, tlast) => k <= l.elements@.len() && for_prefix(
                    mid,
                    env,
                    f,
                    l.elements@,
                    k,
                    d,
                    s,
                    *tp,
                ) && if k == l.elements@.len() {
                    post == s && r == Ok::<Signal, FatalError>(
                        Signal::Normal(RuntimeValue::Null(NullValue {  })),
                    )
                } else {
                    match *tlast {
                        StmtTrace::Loop(_, _, s1, tb, rb, ra) => assign_result(
                            s,
                            env,
                            f.variable@,
                            l.elements@[k as int],
                            s1,
                            ra,
                        ) && match ra {
                            Err(e) => post == s1 && r == Err::<Signal, FatalError>(e),
                            Ok(_) => block_rel(s1, env, f.body, true, d, post, rb, *tb) && (rb is Err
                                || rb matches Ok(Signal::Returning(_))) && r == rb,
                        },
                        _ => false,
                    }
                },
                _ => false,
            },
            Ok(_) => post == mid && r == Err::<Signal, FatalError>(FatalError::NotIterable),
        },
        _ => false,
    }
}

/// A condition value may have truth `b`: a number's truth is the host's,
/// any other value's is `truthy`.
pub open spec fn truth_may(c: RuntimeValue, b: bool) -> bool {
    c is Number || truthy(c) == b
}

/// The first `k` passes of `while` loop `w`, each with a condition that
/// holds and a body that ends normally, lead from `pre` to `post`.
pub open spec fn while_prefix(
    pre: SharedEnvironment,
    env: int,
    w: WhileStmt,
    k: nat,
    d: nat,
    post: SharedEnvironment,
    t: StmtTrace,
) -> bool
    decreases d, 6nat, k,
{
    if k == 0 {
        post == pre
    } else {
        match t {
            StmtTrace::Pass(tp, s, tc, s1, rc, tb, rb) => while_prefix(
                pre,
                env,
                w,
                (k - 1) as nat,
                d,
                s,
                *tp,
            ) && expr_rel(s, env, w.condition, d, s1, rc, tc) && (rc matches Ok(c) && truth_may(
                c,
                true,
            )) && block_rel(s1, env, w.body, true, d, post, rb, *tb) && rb matches Ok(
                Signal::Normal(_),
            ),
            _ => false,
        }
    }
}

/// `while condition { ... }`: passes run while the condition holds; a false
/// condition ends the loop with null, a return or error in the body ends it
/// with that, and a pass past the iteration budget is fatal.
pub open spec fn while_rel(
    pre: SharedEnvironment,
    env: int,
    w: WhileStmt,
    d: nat,
    post: SharedEnvironment,
    r: Result<Signal, FatalError>,
    t: StmtTrace,
) -> bool
    decreases d, 7nat, 0nat,
{
    match t {
        StmtTrace::Stop(k, tp, s, _, tlast) => k <= u64::MAX && while_prefix(pre, env, w, k, d, s, *tp)
            && match *tlast {
            StmtTrace::Pass(_, _, tc, s1, rc, tb, rb) => expr_rel(s, env, w.condition, d, s1, rc, tc)
                && match rc {
                Err(e) => post == s1 && r == Err::<Signal, FatalError>(e),
                Ok(c) => (truth_may(c, false) && post == s1 && r == Ok::<Signal, FatalError>(
                    Signal::Normal(RuntimeValue::Null(NullValue {  })),
                )) || (truth_may(c, true) && ((k == u64::MAX && post == s1 && r == Err::<
                    Signal,
                    FatalError,
                >(FatalError::IterationLimit)) || (k < u64::MAX && block_rel(
                    s1,
                    env,
                    w.body,
                    true,
                    d,
                    post,
                    rb,
                    *tb,
                ) && (rb is Err || rb matches Ok(Signal::Returning(_))) && r == rb))),
            },
            _ => false,
        },
        _ => false,
    }
}

/// Some trace leads statement `s` from `pre` to `post` with result `r`.
pub open spec fn runs(
    pre: SharedEnvironment,
    env: int,
    s: Stmt,
    depth: nat,
    post: SharedEnvironment,
    r: Result<Signal, FatalError>,
) -> bool {
    exists|t: StmtTrace| #[trigger] stmt_rel(pre, env, s, depth, post, r, t)
}

/// The depth of the statement that a statement function runs for.
pub open spec fn one_more(n: nat) -> nat {
    n + 1
}

/// A `return` statement's result, from its value's.
pub open spec fn as_return(r: Result<RuntimeValue, FatalError>) -> Result<Signal, FatalError> {
    match r {
        Ok(v) => Ok(Signal::Returning(v)),
        Err(e) => Err(e),
    }
}

/// A run's result without the scope it ran in.
pub open spec fn signal_of(r: Result<(Signal, usize), FatalError>) -> Result<Signal, FatalError> {
    match r {
        Ok((sig, _)) => Ok(sig),
        Err(e) => Err(e),
    }
}

/// A program's value: its block's value, or the value a top-level `return`
/// gave.
pub open spec fn program_value(r: Result<Signal, FatalError>) -> Result<RuntimeValue, FatalError> {
    match r {
        Ok(Signal::Normal(v)) => Ok(v),
        Ok(Signal::Returning(v)) => Ok(v),
        Err(e) => Err(e),
    }
}

/// A property's value: its expression's, or for a shorthand the value of
/// the variable of its name.
pub open spec fn prop_value_rel(
    pre: SharedEnvironment,
    env: int,
    p: crate::ast::Property,
    d: nat,
    post: SharedEnvironment,
    r: Result<RuntimeValue, FatalError>,
    t: EvalTrace,
) -> bool
    decreases d, 1nat, 0nat,
{
    match p.value {
        Some(e) => expr_rel(pre, env, *e, d, post, r, t),
        None => post == pre && lookup_result(pre, env, p.key@, r),
    }
}

/// The first `k` properties of an object literal evaluated in turn from
/// `pre` to `post`, giving the bindings `m` (a later key replaces an
/// earlier one).
pub open spec fn obj_prefix(
    pre: SharedEnvironment,
    env: int,
    ps: Seq<crate::ast::Property>,
    k: nat,
    d: nat,
    post: SharedEnvironment,
    m: Map<Seq<char>, RuntimeValue>,
    t: EvalTrace,
) -> bool
    decreases d, 2nat, k,
{
    if k == 0 {
        post == pre && m == Map::<Seq<char>, RuntimeValue>::empty()
    } else {
        match t {
            EvalTrace::Prop(tp, s, mb, tk, rv) => k <= ps.len() && obj_prefix(
                pre,
                env,
                ps,
                (k - 1) as nat,
                d,
                s,
                mb@,
                *tp,
            ) && prop_value_rel(s, env, ps[k - 1], d, post, rv, *tk) && (rv matches Ok(v) && m
                == mb@.insert(ps[k - 1].key@, v)),
            _ => false,
        }
    }
}

/// An object literal: each property in turn; the first failure is the
/// result, else a fresh record with those bindings.
pub open spec fn obj_rel(
    pre: SharedEnvironment,
    env: int,
    o: ObjectLiteral,
    d: nat,
    post: SharedEnvironment,
    r: Result<RuntimeValue, FatalError>,
    t: EvalTrace,
) -> bool
    decreases d, 3nat, 0nat,
{
    match t {
        EvalTrace::Props(tp, k, m, s_k, te) => obj_prefix(pre, env, o.properties@, k@, d, s_k, m@, *tp)
            && if k@ < o.properties@.len() {
            r is Err && prop_value_rel(s_k, env, o.properties@[k@ as int], d, post, r, *te)
        } else {
            k@ == o.properties@.len() && post == s_k && (r matches Ok(RuntimeValue::Object(ov))
                && names_unique(ov.properties@) && bindings_map(ov.properties@) == m@)
        },
        _ => false,
    }
}

/// A list literal: each element in turn; the first failure is the result,
/// else a fresh list of the values.
pub open spec fn list_rel(
    pre: SharedEnvironment,
    env: int,
    l: ListLiteral,
    d: nat,
    post: SharedEnvironment,
    r: Result<RuntimeValue, FatalError>,
    t: EvalTrace,
) -> bool
    decreases d, 2nat, 0nat,
{
    match t {
        EvalTrace::Call(_, _, _, ta, k, vals, s_k, te, _) => args_prefix_rel(pre, env, l.elements@, k@, d, s_k, vals@, *ta)
            && if k@ < l.elements@.len() {
            r is Err && expr_rel(s_k, env, l.elements@[k@ as int], d, post, r, *te)
        } else {
            k@ == l.elements@.len() && post == s_k && (r matches Ok(RuntimeValue::List(lv))
                && lv.elements@ == vals@)
        },
        _ => false,
    }
}

/// What `call_native` gives for builtin `call` on `args`.
pub open spec fn native_result(call: FunctionCall, args: Seq<RuntimeValue>, r: Result<RuntimeValue, FatalError>) -> bool {
    &&& call == FunctionCall::Print ==> r == Ok::<RuntimeValue, FatalError>(
        RuntimeValue::Null(NullValue {  }),
    )
    &&& call == FunctionCall::Time ==> (r matches Ok(RuntimeValue::Number(_)))
    &&& call == FunctionCall::Sleep ==> ((args.len() == 1 && args[0] is Number) <==> r is Ok) && (r is Ok
        ==> r == Ok::<RuntimeValue, FatalError>(RuntimeValue::Null(NullValue {  })))
    &&& call == FunctionCall::Input ==> (args.len() <= 1 <==> r is Ok) && (r is Ok ==> r->Ok_0 is String)
    &&& call == FunctionCall::Exit ==> ((args.len() == 1 && !(args[0] is Number)) <==> r is Err)
    &&& call == FunctionCall::Str ==> (args.len() == 1 <==> r is Ok) && (r is Ok ==> r->Ok_0 is String)
        && (args.len() == 1 && numberless(args[0]) ==> (r matches Ok(RuntimeValue::String(s))
        && s.value@ == render(args[0])))
    &&& call == FunctionCall::Int ==> (args.len() == 1 && args[0] is Number ==> r
        == Ok::<RuntimeValue, FatalError>(args[0])) && (args.len() == 1 && args[0] is String ==> (r matches Ok(
        RuntimeValue::Number(_),
    ) || r matches Err(FatalError::InvalidNumber(_)))) && (!(args.len() == 1 && (args[0] is String
        || args[0] is Number)) ==> r matches Err(FatalError::InvalidArgument(_)))
}

/// The first `k` expressions of `es` evaluated in turn from `pre` to
/// `post`, to the values `vals`.
pub open spec fn args_prefix_rel(
    pre: SharedEnvironment,
    env: int,
    es: Seq<Expr>,
    k: nat,
    d: nat,
    post: SharedEnvironment,
    vals: Seq<RuntimeValue>,
    t: EvalTrace,
) -> bool
    decreases d, 1nat, k,
{
    if k == 0 {
        post == pre && vals.len() == 0
    } else {
        match t {
            EvalTrace::Node(tp, mid, _, tk, _) => k <= es.len() && vals.len() == k && args_prefix_rel(
                pre,
                env,
                es,
                (k - 1) as nat,
                d,
                mid,
                vals.drop_last(),
                *tp,
            ) && expr_rel(mid, env, es[k - 1], d, post, Ok(vals.last()), *tk),
            _ => false,
        }
    }
}

/// The parameters `names` bound one by one to `vals` in scope `frame`, from
/// `pre` to `post`, all succeeding.
pub open spec fn params_rel(
    pre: SharedEnvironment,
    frame: int,
    names: Seq<String>,
    vals: Seq<RuntimeValue>,
    k: nat,
    post: SharedEnvironment,
    t: StmtTrace,
) -> bool
    decreases k,
{
    if k == 0 {
        post == pre
    } else {
        match t {
            StmtTrace::Then(tp, mid, _, _) => k <= names.len() && k <= vals.len() && params_rel(
                pre,
                frame,
                names,
                vals,
                (k - 1) as nat,
                mid,
                *tp,
            ) && declare_result(
                mid,
                frame,
                names[k - 1]@,
                vals[k - 1],
                false,
                post,
                Ok(Signal::Normal(vals[k - 1])),
            ),
            _ => false,
        }
    }
}

/// Calling closure `f` on `vals` from state `pre`: a fresh scope nested in
/// the captured one, the parameters bound there, then the body run there;
/// the first `return` gives the result, else the last statement's value.
/// The caller's scope takes no part.
pub open spec fn closure_rel(
    pre: SharedEnvironment,
    f: FunctionValue,
    vals: Seq<RuntimeValue>,
    d: nat,
    post: SharedEnvironment,
    r: Result<RuntimeValue, FatalError>,
    t: StmtTrace,
) -> bool
    decreases d, 3nat, 0nat,
{
    if f.declaration_env >= pre.scopes().len() {
        post == pre && r == Err::<RuntimeValue, FatalError>(FatalError::UnknownScope)
    } else if vals.len() != f.declaration.parameters@.len() {
        post == pre && r is Err
    } else {
        let frame = pre.scopes().len() as int;
        match t {
            StmtTrace::Frame(tp, pushed, bound, trun, rs) => pushed_from(
                pre,
                f.declaration_env as int,
                pushed,
            ) && params_rel(
                pushed,
                frame,
                f.declaration.parameters@,
                vals,
                vals.len(),
                bound,
                *tp,
            ) && run_rel(bound, frame, f.declaration.body.body@, d, post, rs, *trun) && r
                == program_value(rs),
            StmtTrace::Stop(j, tp, pushed, _, tb) => match *tb {
                StmtTrace::Then(_, bound, _, _) => pushed_from(pre, f.declaration_env as int, pushed)
                    && j < vals.len() && params_rel(
                    pushed,
                    frame,
                    f.declaration.parameters@,
                    vals,
                    j,
                    bound,
                    *tp,
                ) && bound.scopes()[frame]@.contains_key(f.declaration.parameters@[j as int]@)
                    && (r matches Err(FatalError::AlreadyDeclared(_))) && post.scopes()
                    == bound.scopes() && post.wf(),
                _ => false,
            },
            _ => false,
        }
    }
}

/// A call: the callee, then the arguments left to right; a value that is
/// no function is fatal before the arguments; then the builtin or the
/// closure.
pub open spec fn call_rel(
    pre: SharedEnvironment,
    env: int,
    c: CallExpr,
    d: nat,
    post: SharedEnvironment,
    r: Result<RuntimeValue, FatalError>,
    t: EvalTrace,
) -> bool
    decreases d, 10nat, 0nat,
{
    match t {
        EvalTrace::Call(t1, mid, rf, ta, k, vals, s_args, te, tc) => expr_rel(
            pre,
            env,
            *c.caller,
            d,
            mid,
            rf,
            *t1,
        ) && match rf {
            Err(e) => post == mid && r == Err::<RuntimeValue, FatalError>(e),
            Ok(f) => if !(f is NativeFn || f is Function) {
                post == mid && r == Err::<RuntimeValue, FatalError>(FatalError::NotCallable)
            } else {
                args_prefix_rel(mid, env, c.args@, k@, d, s_args, vals@, *ta) && if k@ < c.args@.len() {
                    r is Err && expr_rel(s_args, env, c.args@[k@ as int], d, post, r, *te)
                } else {
                    k@ == c.args@.len() && match f {
                        RuntimeValue::NativeFn(n) => post == s_args && native_result(n.call, vals@, r),
                        RuntimeValue::Function(fv) => closure_rel(s_args, fv, vals@, d, post, r, *tc),
                        _ => false,
                    }
                }
            },
        },
        _ => false,
    }
}

/// `s` written `n` times.
pub open spec fn repeat(s: Seq<char>, n: nat) -> Seq<char>
    decreases n,
{
    if n == 0 {
        Seq::empty()
    } else {
        repeat(s, (n - 1) as nat) + s
    }
}

fn null() -> (r: RuntimeValue)
    ensures
        r == RuntimeValue::Null(NullValue {  }),
{
    RuntimeValue::Null(NullValue {  })
}

fn boolean(b: bool) -> (r: RuntimeValue)
    ensures
        r == RuntimeValue::Boolean(BooleanValue { value: b }),
{
    RuntimeValue::Boolean(BooleanValue { value: b })
}

/// `lhs op rhs` on two strings: `+` concatenates; any other operator is a
/// reported error whose result is the empty string.
pub fn eval_string_binary_expr(lhs: &StringValue, rhs: &StringValue, operator: &String) -> (r:
    StringValue)
    ensures
        operator@ == "+"@ ==> r.value@ == lhs.value@ + rhs.value@,
        operator@ != "+"@ ==> r.value@ == Seq::<char>::empty(),
{
    if str_eq(operator.as_str(), "+") {
        let mut out = lhs.value.clone();
        out.append(rhs.value.as_str());
        StringValue { value: out }
    } else {
        StringValue { value: String::new() }
    }
}

/// A string and a number: `+` joins the string and the number's text in
/// the order they stand in, `*` repeats the string `count` times (the
/// number rounded down); any other operator is a reported error whose
/// result is the empty string.
pub fn eval_string_numeric_binary_expr(
    string: &StringValue,
    number_text: &String,
    count: usize,
    number_first: bool,
    operator: &String,
) -> (r: StringValue)
    ensures
        operator@ == "+"@ ==> r.value@ == if number_first {
            number_text@ + string.value@
        } else {
            string.value@ + number_text@
        },
        operator@ == "*"@ ==> r.value@ == repeat(string.value@, count as nat),
        operator@ != "+"@ && operator@ != "*"@ ==> r.value@ == Seq::<char>::empty(),
{
    proof {
        reveal_strlit("+");
        reveal_strlit("*");
        assert("+"@[0] != "*"@[0]);
    }
    if str_eq(operator.as_str(), "+") {
        if number_first {
            let mut out = number_text.clone();
            out.append(string.value.as_str());
            StringValue { value: out }
        } else {
            let mut out = string.value.clone();
            out.append(number_text.as_str());
            StringValue { value: out }
        }
    } else if str_eq(operator.as_str(), "*") {
        let mut out = String::new();
        let mut k: usize = 0;
        while k < count
            invariant
                k <= count,
                out@ == repeat(string.value@, k as nat),
            decreases count - k,
        {
            out.append(string.value.as_str());
            k = k + 1;
        }
        StringValue { value: out }
    } else {
        StringValue { value: String::new() }
    }
}

/// The arithmetic operator character of `+ - * / %`.
fn arithmetic_operator(operator: &String) -> (r: Option<char>)
    ensures
        r matches Some(c) ==> operator@ == seq![c] && (c == '+' || c == '-' || c == '*' || c == '/'
            || c == '%'),
{
    let v: &str = operator.as_str();
    if v.unicode_len() != 1 {
        return None;
    }
    let c = v.get_char(0);
    if c == '+' || c == '-' || c == '*' || c == '/' || c == '%' {
        assert(v@ =~= seq![c]);
        Some(c)
    } else {
        None
    }
}

/// The comparison operators.
#[derive(Clone, Copy, Debug, PartialEq, Eq, Structural)]
pub enum Comparison {
    Equal,
    NotEqual,
    Less,
    Greater,
    LessOrEqual,
    GreaterOrEqual,
}

pub open spec fn comparison_of(op: Seq<char>) -> Option<Comparison> {
    if op == "=="@ {
        Some(Comparison::Equal)
    } else if op == "!="@ {
        Some(Comparison::NotEqual)
    } else if op == "<"@ {
        Some(Comparison::Less)
    } else if op == ">"@ {
        Some(Comparison::Greater)
    } else if op == "<="@ {
        Some(Comparison::LessOrEqual)
    } else if op == ">="@ {
        Some(Comparison::GreaterOrEqual)
    } else {
        None
    }
}

/// The equality of two values of one type, where no number decides it.
pub open spec fn plain_equal(l: RuntimeValue, r: RuntimeValue) -> Option<bool> {
    match (l, r) {
        (RuntimeValue::Null(_), RuntimeValue::Null(_)) => Some(true),
        (RuntimeValue::Boolean(a), RuntimeValue::Boolean(b)) => Some(a.value == b.value),
        (RuntimeValue::String(a), RuntimeValue::String(b)) => Some(a.value@ == b.value@),
        (RuntimeValue::NativeFn(a), RuntimeValue::NativeFn(b)) => Some(a.call == b.call),
        (RuntimeValue::Function(a), RuntimeValue::Function(b)) => Some(
            a.declaration_env == b.declaration_env,
        ),
        (RuntimeValue::Object(a), RuntimeValue::Object(b)) => if numberless(l) && numberless(r) {
            Some(a.properties@.len() == b.properties@.len() && render(l) == render(r))
        } else {
            None
        },
        (RuntimeValue::List(a), RuntimeValue::List(b)) => if numberless(l) && numberless(r) {
            Some(a.elements@.len() == b.elements@.len() && render(l) == render(r))
        } else {
            None
        },
        _ => None,
    }
}

pub open spec fn is_ordering(c: Comparison) -> bool {
    c == Comparison::Less || c == Comparison::Greater || c == Comparison::LessOrEqual || c
        == Comparison::GreaterOrEqual
}

/// A comparison succeeds unless it orders two values of one type that are
/// not numbers.
pub open spec fn compare_ok(c: Comparison, l: RuntimeValue, r: RuntimeValue) -> bool {
    value_type(l) != value_type(r) || !is_ordering(c) || l is Number
}

/// The outcome of a comparison where no number decides it.
pub open spec fn compare_known(c: Comparison, l: RuntimeValue, r: RuntimeValue) -> Option<bool> {
    if value_type(l) != value_type(r) {
        Some(c == Comparison::NotEqual)
    } else if c == Comparison::Equal {
        plain_equal(l, r)
    } else if c == Comparison::NotEqual {
        match plain_equal(l, r) {
            Some(b) => Some(!b),
            None => None,
        }
    } else {
        None
    }
}

pub fn parse_comparison(operator: &String) -> (r: Option<Comparison>)
    ensures
        r == comparison_of(operator@),
{
    let v: &str = operator.as_str();
    if str_eq(v, "==") {
        Some(Comparison::Equal)
    } else if str_eq(v, "!=") {
        Some(Comparison::NotEqual)
    } else if str_eq(v, "<") {
        Some(Comparison::Less)
    } else if str_eq(v, ">") {
        Some(Comparison::Greater)
    } else if str_eq(v, "<=") {
        Some(Comparison::LessOrEqual)
    } else if str_eq(v, ">=") {
        Some(Comparison::GreaterOrEqual)
    } else {
        None
    }
}

/// Compares two evaluated operands. Operands of different types are never
/// equal and never ordered: only `!=` holds of them.
pub fn compare_values<H: Host>(
    host: &H,
    comparison: Comparison,
    left: &RuntimeValue,
    right: &RuntimeValue,
) -> (r: Result<bool, FatalError>)
    ensures
        crate::values::value_type(*left) != crate::values::value_type(*right) ==> r == Ok::<
            bool,
            FatalError,
        >(comparison == Comparison::NotEqual),
        crate::values::value_type(*left) == crate::values::value_type(*right) && !(*left is Number)
            && (comparison == Comparison::Less || comparison == Comparison::Greater || comparison
            == Comparison::LessOrEqual || comparison == Comparison::GreaterOrEqual) ==> r
            == Err::<bool, FatalError>(FatalError::Unordered),
        r is Ok <==> compare_ok(comparison, *left, *right),
        compare_known(comparison, *left, *right) matches Some(b) ==> r == Ok::<bool, FatalError>(b),
{
    if left.get_type() != right.get_type() {
        return Ok(comparison == Comparison::NotEqual);
    }
    match comparison {
        Comparison::Equal => Ok(left.equals(host, right)),
        Comparison::NotEqual => Ok(!left.equals(host, right)),
        Comparison::Less => left.less_than(host, right),
        Comparison::Greater => left.greater_than(host, right),
        Comparison::LessOrEqual => {
            let less = left.less_than(host, right)?;
            Ok(less || left.equals(host, right))
        },
        Comparison::GreaterOrEqual => {
            let greater = left.greater_than(host, right)?;
            Ok(greater || left.equals(host, right))
        },
    }
}

/// Evaluates a statement in scope `env`. `depth` bounds how deeply the
/// evaluation may nest.
pub fn eval<H: Host>(
    host: &mut H,
    envs: &mut SharedEnvironment,
    stmt: &Stmt,
    env: usize,
    depth: u64,
) -> (r: Result<Signal, FatalError>)
    requires
        old(envs).wf(),
        env < old(envs).scopes().len(),
    ensures
        grows(*old(envs), *final(envs)),
        keeps_names_except(*old(envs), *final(envs), env as int),
        depth == 0 ==> r == Err::<Signal, FatalError>(FatalError::DepthExceeded),
        depth > 0 && *stmt is Return && old(envs).scopes()[env as int].parent_index() is None ==> r
            == Err::<Signal, FatalError>(FatalError::ReturnOutsideFunction),
        r matches Ok(Signal::Returning(_)) ==> !(*stmt is Expr || *stmt is VarDeclaration
            || *stmt is FunctionDeclaration),
        depth > 1 && (*stmt matches Stmt::Expr(e) && atom_value(*old(envs), env as int, e) is Some) ==> r == Ok::<
            Signal,
            FatalError,
        >(Signal::Normal(atom_value(*old(envs), env as int, stmt->Expr_0)->0)) && *final(envs) == *old(envs),
        depth > 1 && (*stmt matches Stmt::VarDeclaration(d) && atom_value(*old(envs), env as int, d.value) is Some) ==> (r is Ok
            <==> !old(envs).scopes()[env as int]@.contains_key(stmt->VarDeclaration_0.identifier@)),
        depth > 0 && *stmt is FunctionDeclaration ==> (r is Ok <==> !old(envs).scopes()[env as int]@.contains_key(
            stmt->FunctionDeclaration_0.name@,
        )),
        depth > 1 && old(envs).scopes()[env as int].parent_index() is Some && (*stmt matches Stmt::Return(
            ret,
        ) && atom_value(*old(envs), env as int, ret.value) is Some) ==> r == Ok::<Signal, FatalError>(
            Signal::Returning(atom_value(*old(envs), env as int, stmt->Return_0.value)->0),
        ),
        depth > 0 && (*stmt matches Stmt::Body(b) && b.body@.len() == 0) ==> r == Ok::<
            Signal,
            FatalError,
        >(Signal::Normal(RuntimeValue::Null(NullValue {  }))),
        depth > 1 && (*stmt matches Stmt::While(w) && atom_value(*old(envs), env as int, w.condition) is Some && !(atom_value(*old(envs), env as int, w.condition)->0 is Number)
            && !truthy(atom_value(*old(envs), env as int, w.condition)->0)) ==> r == Ok::<Signal, FatalError>(
            Signal::Normal(RuntimeValue::Null(NullValue {  })),
        ),
        depth > 1 && (*stmt matches Stmt::For(f) && atom_value(*old(envs), env as int, f.iterable) is Some && !(atom_value(*old(envs), env as int, f.iterable)->0 is List))
            ==> r == Err::<Signal, FatalError>(FatalError::NotIterable),
        depth > 2 && (*stmt matches Stmt::If(i) && if_returns(*old(envs), env as int, i) is Some)
            ==> r == Ok::<Signal, FatalError>(
            Signal::Returning(if_returns(*old(envs), env as int, stmt->If_0)->0),
        ),
        runs(*old(envs), env as int, *stmt, depth as nat, *final(envs), r),
    decreases depth, 0nat,
{
    if depth == 0 {
        assert(stmt_rel(*envs, env as int, *stmt, 0, *envs, Err(FatalError::DepthExceeded), StmtTrace::Leaf));
        return Err(FatalError::DepthExceeded);
    }
    let d = depth - 1;
    let ghost pre = *envs;
    match stmt {
        Stmt::Expr(e) => {
            let re = eval_expr(host, envs, e, env, d);
            proof {
                let te = choose|t: EvalTrace| expr_rel(pre, env as int, *e, d as nat, *envs, re, t);
                assert(stmt_rel(pre, env as int, *stmt, depth as nat, *envs, as_signal(re), StmtTrace::Step(te, *envs, re, Box::new(StmtTrace::Leaf))));
            }
            match re {
                Ok(v) => Ok(Signal::Normal(v)),
                Err(x) => Err(x),
            }
        },
        Stmt::Body(b) => {
            let rb = b.run(host, envs, env, true, d);
            proof {
                let t = choose|t: StmtTrace| block_rel(pre, env as int, *b, true, d as nat, *envs, signal_of(rb), t);
                assert(stmt_rel(pre, env as int, *stmt, depth as nat, *envs, signal_of(rb), t));
            }
            match rb {
                Ok((signal, _)) => Ok(signal),
                Err(x) => Err(x),
            }
        },
        Stmt::VarDeclaration(v) => {
            let rv = eval_var_declaration(host, envs, v, env, d);
            proof {
                let t = choose|t: StmtTrace| stmt_rel(pre, env as int, Stmt::VarDeclaration(*v), one_more(d as nat), *envs, as_signal(rv), t);
                assert(stmt_rel(pre, env as int, *stmt, depth as nat, *envs, as_signal(rv), t));
            }
            match rv {
                Ok(value) => Ok(Signal::Normal(value)),
                Err(x) => Err(x),
            }
        },
        Stmt::FunctionDeclaration(f) => {
            let rf = eval_function_declaration(envs, f, env);
            proof {
                assert(stmt_rel(pre, env as int, *stmt, depth as nat, *envs, as_signal(rf), StmtTrace::Leaf));
            }
            match rf {
                Ok(value) => Ok(Signal::Normal(value)),
                Err(x) => Err(x),
            }
        },
        Stmt::Return(ret) => {
            let rr = eval_return(host, envs, ret, env, d);
            proof {
                let t = choose|t: StmtTrace| stmt_rel(pre, env as int, Stmt::Return(*ret), one_more(d as nat), *envs, as_return(rr), t);
                assert(stmt_rel(pre, env as int, *stmt, depth as nat, *envs, as_return(rr), t));
            }
            match rr {
                Ok(value) => Ok(Signal::Returning(value)),
                Err(x) => Err(x),
            }
        },
        Stmt::If(i) => {
            let r = eval_if(host, envs, i, env, d);
            proof {
                let t = choose|t: StmtTrace| stmt_rel(pre, env as int, Stmt::If(*i), one_more(d as nat), *envs, r, t);
                assert(stmt_rel(pre, env as int, *stmt, depth as nat, *envs, r, t));
            }
            r
        },
        Stmt::While(w) => {
            let r = eval_while(host, envs, w, env, d);
            proof {
                let t = choose|t: StmtTrace| stmt_rel(pre, env as int, Stmt::While(*w), one_more(d as nat), *envs, r, t);
                assert(stmt_rel(pre, env as int, *stmt, depth as nat, *envs, r, t));
            }
            r
        },
        Stmt::For(f) => {
            let r = eval_for(host, envs, f, env, d);
            proof {
                let t = choose|t: StmtTrace| stmt_rel(pre, env as int, Stmt::For(*f), one_more(d as nat), *envs, r, t);
                assert(stmt_rel(pre, env as int, *stmt, depth as nat, *envs, r, t));
            }
            r
        },
    }
}

/// Evaluates an expression in scope `env`.
pub fn eval_expr<H: Host>(
    host: &mut H,
    envs: &mut SharedEnvironment,
    expr: &Expr,
    env: usize,
    depth: u64,
) -> (r: Result<RuntimeValue, FatalError>)
    requires
        old(envs).wf(),
        env < old(envs).scopes().len(),
    ensures
        grows(*old(envs), *final(envs)),
        keeps_names(*old(envs), *final(envs)),
        depth == 0 ==> r == Err::<RuntimeValue, FatalError>(FatalError::DepthExceeded),
        depth > 0 && *expr is Identifier ==> match resolve_in(
            old(envs).scopes(),
            env as int,
            expr->Identifier_0.symbol@,
        ) {
            Some(i) => r == Ok::<RuntimeValue, FatalError>(
                old(envs).scopes()[i]@[expr->Identifier_0.symbol@],
            ),
            None => r matches Err(FatalError::UnresolvedVariable(_)),
        },
        depth > 0 && *expr is StringLiteral ==> (r matches Ok(RuntimeValue::String(s)) && s.value@
            == expr->StringLiteral_0.string@),
        depth > 0 && *expr is NumericLiteral ==> (r matches Ok(RuntimeValue::Number(_)) || r
            matches Err(FatalError::InvalidNumber(_))),
        depth > 0 && atom_value(*old(envs), env as int, *expr) is Some ==> r == Ok::<
            RuntimeValue,
            FatalError,
        >(atom_value(*old(envs), env as int, *expr)->0) && *final(envs) == *old(envs),
        evaluates(*old(envs), env as int, *expr, depth as nat, *final(envs), r),
    decreases depth, 0nat,
{
    if depth == 0 {
        assert(expr_rel(*envs, env as int, *expr, 0, *envs, Err(FatalError::DepthExceeded), EvalTrace::Leaf));
        return Err(FatalError::DepthExceeded);
    }
    let d = depth - 1;
    let ghost pre = *envs;
    let r = match expr {
        Expr::Identifier(id) => eval_identifier(envs, &id.symbol, env),
        Expr::NumericLiteral(n) => match host.parse_number(n.value.as_str()) {
            Some(v) => Ok(RuntimeValue::Number(v)),
            None => Err(FatalError::InvalidNumber(n.value.clone())),
        },
        Expr::StringLiteral(s) => Ok(RuntimeValue::String(StringValue { value: s.string.clone() })),
        Expr::Binary(b) => eval_binop_expr(host, envs, b, env, d),
        Expr::Comparative(c) => eval_comp_expr(host, envs, c, env, d),
        Expr::Assignment(a) => eval_assignment(host, envs, a, env, d),
        Expr::Object(o) => eval_object_expr(host, envs, o, env, d),
        Expr::List(l) => eval_list_expr(host, envs, l, env, d),
        Expr::Member(m) => eval_member_expr(host, envs, m, env, d),
        Expr::Call(c) => eval_call(host, envs, c, env, d),
    };
    proof {
        let dn = d as nat;
        match expr {
            Expr::Binary(b) => {
                let t = choose|t: EvalTrace| binop_rel(pre, env as int, *b, dn, *envs, r, t);
                assert(expr_rel(pre, env as int, *expr, depth as nat, *envs, r, t));
            },
            Expr::Comparative(c) => {
                let t = choose|t: EvalTrace| comp_rel(pre, env as int, *c, dn, *envs, r, t);
                assert(expr_rel(pre, env as int, *expr, depth as nat, *envs, r, t));
            },
            Expr::Assignment(a) => {
                let t = choose|t: EvalTrace| assign_rel(pre, env as int, *a, dn, *envs, r, t);
                assert(expr_rel(pre, env as int, *expr, depth as nat, *envs, r, t));
            },
            Expr::Member(m) => {
                let t = choose|t: EvalTrace| member_rel(pre, env as int, *m, dn, *envs, r, t);
                assert(expr_rel(pre, env as int, *expr, depth as nat, *envs, r, t));
            },
            Expr::Call(c) => {
                let t = choose|t: EvalTrace| call_rel(pre, env as int, *c, dn, *envs, r, t);
                assert(expr_rel(pre, env as int, *expr, depth as nat, *envs, r, t));
            },
            Expr::Object(o) => {
                let t = choose|t: EvalTrace| obj_rel(pre, env as int, *o, dn, *envs, r, t);
                assert(expr_rel(pre, env as int, *expr, depth as nat, *envs, r, t));
            },
            Expr::List(l) => {
                let t = choose|t: EvalTrace| list_rel(pre, env as int, *l, dn, *envs, r, t);
                assert(expr_rel(pre, env as int, *expr, depth as nat, *envs, r, t));
            },
            _ => {
                assert(expr_rel(pre, env as int, *expr, depth as nat, *envs, r, EvalTrace::Leaf));
            },
        }
    }
    r
}

/// The value of a name, from the innermost scope that binds it.
pub fn eval_identifier(envs: &SharedEnvironment, symbol: &String, env: usize) -> (r: Result<
    RuntimeValue,
    FatalError,
>)
    requires
        envs.wf(),
        env < envs.scopes().len(),
    ensures
        match resolve_in(envs.scopes(), env as int, symbol@) {
            Some(i) => r == Ok::<RuntimeValue, FatalError>(envs.scopes()[i]@[symbol@]),
            None => r matches Err(FatalError::UnresolvedVariable(s)) && s@ == symbol@,
        },
{
    envs.lookup_var(env, symbol)
}

/// Arithmetic on two evaluated operands: numbers with numbers (by the
/// host), strings with strings (`+` only), a string with a number (`+` and
/// `*`, with the number's text and count from the host); any other pair
/// gives null. An operator that a string pair does not take is reported.
pub fn binary_operation<H: Host>(
    host: &mut H,
    lhs: &RuntimeValue,
    rhs: &RuntimeValue,
    operator: &String,
) -> (r: RuntimeValue)
    ensures
        binary_result(*lhs, *rhs, operator@, r),
{
    match (lhs, rhs) {
        (RuntimeValue::Number(a), RuntimeValue::Number(b)) => eval_numeric_binary_expr(
            host,
            *a,
            *b,
            operator,
        ),
        (RuntimeValue::String(a), RuntimeValue::String(b)) => {
            if !str_eq(operator.as_str(), "+") {
                host.report("Invalid operator between string and string");
            }
            RuntimeValue::String(eval_string_binary_expr(a, b, operator))
        },
        (RuntimeValue::String(s), RuntimeValue::Number(n)) => {
            let text = host.number_text(*n);
            let count = host.repeat_count(*n);
            if !str_eq(operator.as_str(), "+") && !str_eq(operator.as_str(), "*") {
                host.report("Invalid operator between string and number");
            }
            let v = eval_string_numeric_binary_expr(s, &text, count, false, operator);
            assert(v.value@ == string_number_text(s.value@, text@, count as nat, false, operator@));
            RuntimeValue::String(v)
        },
        (RuntimeValue::Number(n), RuntimeValue::String(s)) => {
            let text = host.number_text(*n);
            let count = host.repeat_count(*n);
            if !str_eq(operator.as_str(), "+") && !str_eq(operator.as_str(), "*") {
                host.report("Invalid operator between string and number");
            }
            let v = eval_string_numeric_binary_expr(s, &text, count, true, operator);
            assert(v.value@ == string_number_text(s.value@, text@, count as nat, true, operator@));
            RuntimeValue::String(v)
        },
        _ => null(),
    }
}

/// An arithmetic expression: both operands, left then right, then
/// `binary_operation`.
pub fn eval_binop_expr<H: Host>(
    host: &mut H,
    envs: &mut SharedEnvironment,
    binop: &BinaryExpr,
    env: usize,
    depth: u64,
) -> (r: Result<RuntimeValue, FatalError>)
    requires
        old(envs).wf(),
        env < old(envs).scopes().len(),
    ensures
        grows(*old(envs), *final(envs)),
        keeps_names(*old(envs), *final(envs)),
        depth > 0 && atom_value(*old(envs), env as int, *binop.left) is Some && atom_value(
            *old(envs),
            env as int,
            *binop.right,
        ) is Some ==> r is Ok && binary_result(
            atom_value(*old(envs), env as int, *binop.left)->0,
            atom_value(*old(envs), env as int, *binop.right)->0,
            binop.operator@,
            r->Ok_0,
        ),
        exists|t: EvalTrace| #[trigger] binop_rel(*old(envs), env as int, *binop, depth as nat, *final(envs), r, t),
    decreases depth, 3nat,
{
    let ghost pre = *envs;
    let lhs = match eval_expr(host, envs, &binop.left, env, depth) {
        Ok(v) => v,
        Err(e) => {
            proof {
                let t1 = choose|t: EvalTrace| expr_rel(pre, env as int, *binop.left, depth as nat, *envs, Err(e), t);
                assert(binop_rel(pre, env as int, *binop, depth as nat, *envs, Err(e), EvalTrace::Node(Box::new(t1), *envs, Err(e), Box::new(EvalTrace::Leaf), Err(e))));
            }
            return Err(e);
        },
    };
    let ghost mid = *envs;
    let ghost t1 = choose|t: EvalTrace| expr_rel(pre, env as int, *binop.left, depth as nat, mid, Ok(lhs), t);
    let rhs = match eval_expr(host, envs, &binop.right, env, depth) {
        Ok(v) => v,
        Err(e) => {
            proof {
                let t2 = choose|t: EvalTrace| expr_rel(mid, env as int, *binop.right, depth as nat, *envs, Err(e), t);
                assert(binop_rel(pre, env as int, *binop, depth as nat, *envs, Err(e), EvalTrace::Node(Box::new(t1), mid, Ok(lhs), Box::new(t2), Err(e))));
            }
            return Err(e);
        },
    };
    let ghost t2 = choose|t: EvalTrace| expr_rel(mid, env as int, *binop.right, depth as nat, *envs, Ok(rhs), t);
    let r: Result<RuntimeValue, FatalError> = Ok(binary_operation(host, &lhs, &rhs, &binop.operator));
    proof {
        assert(binop_rel(pre, env as int, *binop, depth as nat, *envs, r, EvalTrace::Node(Box::new(t1), mid, Ok(lhs), Box::new(t2), Ok(rhs))));
    }
    r
}

/// Arithmetic on two numbers, done by the host.
pub fn eval_numeric_binary_expr<H: Host>(
    host: &mut H,
    lhs: NumberValue,
    rhs: NumberValue,
    operator: &String,
) -> (r: RuntimeValue)
    ensures
        r is Number,
{
    match arithmetic_operator(operator) {
        Some(c) => RuntimeValue::Number(host.arithmetic(c, lhs, rhs)),
        None => RuntimeValue::Number(NumberValue { bits: 0 }),
    }
}

/// A comparison of two operands, evaluated left then right.
pub fn eval_comp_expr<H: Host>(
    host: &mut H,
    envs: &mut SharedEnvironment,
    comp: &ComparativeExpr,
    env: usize,
    depth: u64,
) -> (r: Result<RuntimeValue, FatalError>)
    requires
        old(envs).wf(),
        env < old(envs).scopes().len(),
    ensures
        grows(*old(envs), *final(envs)),
        keeps_names(*old(envs), *final(envs)),
        r matches Ok(v) ==> (v is Boolean <==> comparison_of(comp.operator@) is Some),
        r matches Ok(v) ==> (v is Boolean || v == RuntimeValue::Null(NullValue {  })),
        depth > 0 && atom_value(*old(envs), env as int, *comp.left) is Some && atom_value(
            *old(envs),
            env as int,
            *comp.right,
        ) is Some ==> ({
            let l = atom_value(*old(envs), env as int, *comp.left)->0;
            let rv = atom_value(*old(envs), env as int, *comp.right)->0;
            match comparison_of(comp.operator@) {
                None => r == Ok::<RuntimeValue, FatalError>(RuntimeValue::Null(NullValue {  })),
                Some(c) => (r is Ok <==> compare_ok(c, l, rv)) && (!compare_ok(c, l, rv) ==> r
                    == Err::<RuntimeValue, FatalError>(FatalError::Unordered)) && (r is Ok
                    ==> r->Ok_0 is Boolean) && (compare_known(c, l, rv) matches Some(b) ==> r
                    == Ok::<RuntimeValue, FatalError>(
                    RuntimeValue::Boolean(BooleanValue { value: b }),
                )),
            }
        }),
        exists|t: EvalTrace| #[trigger] comp_rel(*old(envs), env as int, *comp, depth as nat, *final(envs), r, t),
    decreases depth, 3nat,
{
    let ghost pre = *envs;
    let lhs = match eval_expr(host, envs, &comp.left, env, depth) {
        Ok(v) => v,
        Err(e) => {
            proof {
                let t1 = choose|t: EvalTrace| expr_rel(pre, env as int, *comp.left, depth as nat, *envs, Err(e), t);
                assert(comp_rel(pre, env as int, *comp, depth as nat, *envs, Err(e), EvalTrace::Node(Box::new(t1), *envs, Err(e), Box::new(EvalTrace::Leaf), Err(e))));
            }
            return Err(e);
        },
    };
    let ghost mid = *envs;
    let ghost t1 = choose|t: EvalTrace| expr_rel(pre, env as int, *comp.left, depth as nat, mid, Ok(lhs), t);
    let rhs = match eval_expr(host, envs, &comp.right, env, depth) {
        Ok(v) => v,
        Err(e) => {
            proof {
                let t2 = choose|t: EvalTrace| expr_rel(mid, env as int, *comp.right, depth as nat, *envs, Err(e), t);
                assert(comp_rel(pre, env as int, *comp, depth as nat, *envs, Err(e), EvalTrace::Node(Box::new(t1), mid, Ok(lhs), Box::new(t2), Err(e))));
            }
            return Err(e);
        },
    };
    let ghost t2 = choose|t: EvalTrace| expr_rel(mid, env as int, *comp.right, depth as nat, *envs, Ok(rhs), t);
    let r: Result<RuntimeValue, FatalError> = match parse_comparison(&comp.operator) {
        Some(c) => match compare_values(host, c, &lhs, &rhs) {
            Ok(b) => Ok(boolean(b)),
            Err(e) => Err(e),
        },
        None => {
            host.report("Invalid operator in comparative expression.");
            Ok(null())
        },
    };
    proof {
        assert(comp_rel(pre, env as int, *comp, depth as nat, *envs, r, EvalTrace::Node(Box::new(t1), mid, Ok(lhs), Box::new(t2), Ok(rhs))));
    }
    r
}

/// `name = value`, or `name.key = value` / `name[key] = value`, which
/// rebinds `name` to a copy of its record with the property set.
pub fn eval_assignment<H: Host>(
    host: &mut H,
    envs: &mut SharedEnvironment,
    node: &AssignmentExpr,
    env: usize,
    depth: u64,
) -> (r: Result<RuntimeValue, FatalError>)
    requires
        old(envs).wf(),
        env < old(envs).scopes().len(),
    ensures
        grows(*old(envs), *final(envs)),
        keeps_names(*old(envs), *final(envs)),
        !(*node.assignee is Identifier) && !(*node.assignee is Member) ==> r
            == Err::<RuntimeValue, FatalError>(FatalError::InvalidAssignmentTarget),
        *node.assignee is Identifier && r is Ok ==> ({
            let name = node.assignee->Identifier_0.symbol@;
            resolve_in(final(envs).scopes(), env as int, name) matches Some(i)
                && final(envs).scopes()[i]@[name] == r->Ok_0
        }),
        !(*node.assignee is Identifier) && !(*node.assignee is Member) ==> *final(envs) == *old(
            envs,
        ),
        *node.assignee is Identifier && depth > 0 && atom_value(*old(envs), env as int, *node.value)
            is Some ==> ({
            let name = node.assignee->Identifier_0.symbol@;
            let v = atom_value(*old(envs), env as int, *node.value)->0;
            match resolve_in(old(envs).scopes(), env as int, name) {
                None => r matches Err(FatalError::UnresolvedVariable(_)),
                Some(i) => if old(envs).scopes()[i].constant_names().contains(name) {
                    r matches Err(FatalError::ConstantReassignment(_))
                } else {
                    r == Ok::<RuntimeValue, FatalError>(v)
                },
            }
        }),
        *node.assignee is Member && depth > 0 && atom_value(*old(envs), env as int, *node.value)
            is Some && !node.assignee->Member_0.computed
            && (*node.assignee->Member_0.object) is Identifier
            && (*node.assignee->Member_0.property) is Identifier ==> ({
            let m = node.assignee->Member_0;
            let base = (*m.object)->Identifier_0.symbol@;
            let key = (*m.property)->Identifier_0.symbol@;
            let v = atom_value(*old(envs), env as int, *node.value)->0;
            match resolve_in(old(envs).scopes(), env as int, base) {
                None => r matches Err(FatalError::UnresolvedVariable(_)),
                Some(i) => match old(envs).scopes()[i]@[base] {
                    RuntimeValue::Object(o) => if old(envs).scopes()[i].constant_names().contains(
                        base,
                    ) {
                        r matches Err(FatalError::ConstantReassignment(_))
                    } else {
                        (r matches Ok(RuntimeValue::Object(o2)) && (names_unique(o.properties@)
                            ==> bindings_map(o2.properties@) == bindings_map(
                            o.properties@,
                        ).insert(key, v))) && resolve_in(final(envs).scopes(), env as int, base)
                            == Some(i) && final(envs).scopes()[i]@[base] == r->Ok_0
                    },
                    _ => r == Err::<RuntimeValue, FatalError>(FatalError::InvalidMemberExpression),
                },
            }
        }),
        exists|t: EvalTrace| #[trigger] assign_rel(*old(envs), env as int, *node, depth as nat, *final(envs), r, t),
    decreases depth, 3nat,
{
    match &*node.assignee {
        Expr::Identifier(id) => {
            let ghost pre = *envs;
            let value = match eval_expr(host, envs, &node.value, env, depth) {
                Ok(v) => v,
                Err(e) => {
                    proof {
                        let t1 = choose|t: EvalTrace| expr_rel(pre, env as int, *node.value, depth as nat, *envs, Err(e), t);
                        assert(assign_rel(pre, env as int, *node, depth as nat, *envs, Err(e), EvalTrace::Node(Box::new(t1), *envs, Err(e), Box::new(EvalTrace::Leaf), Err(e))));
                    }
                    return Err(e);
                },
            };
            let ghost mid = *envs;
            let ghost t1 = choose|t: EvalTrace| expr_rel(pre, env as int, *node.value, depth as nat, mid, Ok(value), t);
            let ghost vv = value;
            let r = envs.assign_var(env, id.symbol.clone(), value);
            proof {
                assert(assign_rel(pre, env as int, *node, depth as nat, *envs, r, EvalTrace::Node(Box::new(t1), mid, Ok(vv), Box::new(EvalTrace::Leaf), Ok(vv))));
            }
            proof {
                if r is Ok {
                    let i = resolve_in(mid.scopes(), env as int, id.symbol@)->0;
                    crate::environment::lemma_resolve_found(mid.scopes(), env as int, id.symbol@);
                    crate::environment::law_assignment_reads_back(
                        mid,
                        *envs,
                        env as int,
                        i,
                        id.symbol@,
                        r->Ok_0,
                    );
                }
            }
            r
        },
        Expr::Member(member) => {
            let ghost pre = *envs;
            let base = match &*member.object {
                Expr::Identifier(id) => id.symbol.clone(),
                _ => {
                    proof {
                        assert(assign_rel(pre, env as int, *node, depth as nat, *envs, Err(FatalError::InvalidAssignmentTarget), EvalTrace::Leaf));
                    }
                    return Err(FatalError::InvalidAssignmentTarget);
                },
            };
            let ghost mid = *envs;
            let ghost mut tk = EvalTrace::Leaf;
            let ghost mut rk: Result<RuntimeValue, FatalError> = Err(FatalError::InvalidMemberExpression);
            let key = if !member.computed {
                match &*member.property {
                    Expr::Identifier(id) => id.symbol.clone(),
                    _ => {
                        proof {
                            assert(assign_rel(pre, env as int, *node, depth as nat, *envs, Err(FatalError::InvalidMemberExpression), EvalTrace::Leaf));
                        }
                        return Err(FatalError::InvalidMemberExpression);
                    },
                }
            } else {
                let k = match eval_expr(host, envs, &member.property, env, depth) {
                    Ok(v) => v,
                    Err(e) => {
                        proof {
                            let t1 = choose|t: EvalTrace| expr_rel(pre, env as int, *member.property, depth as nat, *envs, Err(e), t);
                            assert(assign_rel(pre, env as int, *node, depth as nat, *envs, Err(e), EvalTrace::Node(Box::new(t1), *envs, Err(e), Box::new(EvalTrace::Leaf), Err(e))));
                        }
                        return Err(e);
                    },
                };
                proof {
                    mid = *envs;
                    tk = choose|t: EvalTrace| expr_rel(pre, env as int, *member.property, depth as nat, mid, Ok(k), t);
                    rk = Ok(k);
                }
                match k {
                    RuntimeValue::String(ks) => ks.value,
                    _ => {
                        proof {
                            assert(assign_rel(pre, env as int, *node, depth as nat, *envs, Err(FatalError::InvalidMemberExpression), EvalTrace::Node(Box::new(tk), mid, rk, Box::new(EvalTrace::Leaf), rk)));
                        }
                        return Err(FatalError::InvalidMemberExpression);
                    },
                }
            };
            let value = match eval_expr(host, envs, &node.value, env, depth) {
                Ok(v) => v,
                Err(e) => {
                    proof {
                        let tv = choose|t: EvalTrace| expr_rel(mid, env as int, *node.value, depth as nat, *envs, Err(e), t);
                        let inner = EvalTrace::Node(Box::new(tv), *envs, Err(e), Box::new(EvalTrace::Leaf), Err(e));
                        if member.computed {
                            assert(assign_rel(pre, env as int, *node, depth as nat, *envs, Err(e), EvalTrace::Node(Box::new(tk), mid, rk, Box::new(inner), rk)));
                        } else {
                            assert(assign_rel(pre, env as int, *node, depth as nat, *envs, Err(e), inner));
                        }
                    }
                    return Err(e);
                },
            };
            let ghost s2 = *envs;
            let ghost tv = choose|t: EvalTrace| expr_rel(mid, env as int, *node.value, depth as nat, s2, Ok(value), t);
            let ghost inner = EvalTrace::Node(Box::new(tv), s2, Ok(value), Box::new(EvalTrace::Leaf), Ok(value));
            let ghost whole = if member.computed {
                EvalTrace::Node(Box::new(tk), mid, rk, Box::new(inner), rk)
            } else {
                inner
            };
            let ghost vv = value;
            let current = match envs.lookup_var(env, &base) {
                Ok(c) => c,
                Err(e) => {
                    proof {
                        assert(assign_rel(pre, env as int, *node, depth as nat, *envs, Err(e), whole));
                    }
                    return Err(e);
                },
            };
            match current {
                RuntimeValue::Object(obj) => {
                    let ghost kview = key@;
                    let updated = obj.with_property(key, value);
                    proof {
                        if !has_name(obj.properties@, kview) {
                            assert(updated.properties@.drop_last() =~= obj.properties@);
                        }
                    }
                    assert(with_property_rel(*obj, kview, vv, updated));
                    let new_value = RuntimeValue::Object(Rc::new(updated));
                    let ghost nv = new_value;
                    let r = envs.assign_var(env, base, new_value);
                    proof {
                        if r is Ok {
                            let i = resolve_in(s2.scopes(), env as int, base@)->0;
                            crate::environment::lemma_resolve_found(s2.scopes(), env as int, base@);
                            crate::environment::law_assignment_reads_back(
                                s2,
                                *envs,
                                env as int,
                                i,
                                base@,
                                r->Ok_0,
                            );
                        }
                        assert(assign_result(s2, env as int, base@, nv, *envs, r));
                        assert(store_property(s2, env as int, base@, kview, vv, *envs, r));
                        assert(assign_rel(pre, env as int, *node, depth as nat, *envs, r, whole));
                    }
                    r
                },
                _ => {
                    proof {
                        assert(assign_rel(pre, env as int, *node, depth as nat, *envs, Err(FatalError::InvalidMemberExpression), whole));
                    }
                    Err(FatalError::InvalidMemberExpression)
                },
            }
        },
        _ => {
            proof {
                assert(assign_rel(*envs, env as int, *node, depth as nat, *envs, Err(FatalError::InvalidAssignmentTarget), EvalTrace::Leaf));
            }
            Err(FatalError::InvalidAssignmentTarget)
        },
    }
}

/// A new record; a shorthand property takes the variable of its name.
pub fn eval_object_expr<H: Host>(
    host: &mut H,
    envs: &mut SharedEnvironment,
    obj: &ObjectLiteral,
    env: usize,
    depth: u64,
) -> (r: Result<RuntimeValue, FatalError>)
    requires
        old(envs).wf(),
        env < old(envs).scopes().len(),
    ensures
        grows(*old(envs), *final(envs)),
        keeps_names(*old(envs), *final(envs)),
        r matches Ok(v) ==> (v matches RuntimeValue::Object(o) && crate::environment::names_unique(
            o.properties@,
        ) && bindings_map(o.properties@).dom() == literal_keys(
            obj.properties@,
            obj.properties@.len() as int,
        )),
        obj.properties@.len() == 0 ==> (r matches Ok(RuntimeValue::Object(o))
            && o.properties@.len() == 0),
        exists|t: EvalTrace| #[trigger] obj_rel(*old(envs), env as int, *obj, depth as nat, *final(envs), r, t),
    decreases depth, 3nat,
{
    let mut object = ObjectValue { properties: Vec::new() };
    let mut i: usize = 0;
    let ghost mut tp = EvalTrace::Leaf;
    assert(bindings_map(object.properties@).dom() =~= literal_keys(obj.properties@, 0));
    assert(bindings_map(object.properties@) =~= Map::<Seq<char>, RuntimeValue>::empty());
    while i < obj.properties.len()
        invariant
            grows(*old(envs), *envs),
            keeps_names(*old(envs), *envs),
            env < envs.scopes().len(),
            i <= obj.properties.len(),
            crate::environment::names_unique(object.properties@),
            bindings_map(object.properties@).dom() == literal_keys(obj.properties@, i as int),
            i == 0 ==> object.properties@.len() == 0,
            obj_prefix(*old(envs), env as int, obj.properties@, i as nat, depth as nat, *envs, bindings_map(object.properties@), tp),
        decreases obj.properties.len() - i,
    {
        let p = &obj.properties[i];
        let ghost s = *envs;
        let ghost mb = bindings_map(object.properties@);
        let rv = match &p.value {
            Some(e) => eval_expr(host, envs, e, env, depth),
            None => envs.lookup_var(env, &p.key),
        };
        let ghost tk = if p.value is Some {
            choose|t: EvalTrace| expr_rel(s, env as int, *p.value->0, depth as nat, *envs, rv, t)
        } else {
            EvalTrace::Leaf
        };
        let value = match rv {
            Ok(v) => v,
            Err(e) => {
                proof {
                    assert(prop_value_rel(s, env as int, *p, depth as nat, *envs, rv, tk));
                    assert(obj_rel(*old(envs), env as int, *obj, depth as nat, *envs, Err(e), EvalTrace::Props(Box::new(tp), Ghost(i as nat), Ghost(mb), s, Box::new(tk))));
                }
                return Err(e);
            },
        };
        let ghost vv = value;
        object = object.with_property(p.key.clone(), value);
        assert(literal_keys(obj.properties@, i + 1) =~= literal_keys(obj.properties@, i as int).insert(
            obj.properties@[i as int].key@,
        ));
        assert(bindings_map(object.properties@).dom() =~= mb.dom().insert(p.key@));
        proof {
            assert(prop_value_rel(s, env as int, *p, depth as nat, *envs, rv, tk));
            tp = EvalTrace::Prop(Box::new(tp), s, Ghost(mb), Box::new(tk), rv);
        }
        i = i + 1;
    }
    proof {
        assert(obj_rel(*old(envs), env as int, *obj, depth as nat, *envs, Ok(RuntimeValue::Object(Rc::new(object))), EvalTrace::Props(Box::new(tp), Ghost(i as nat), Ghost(bindings_map(object.properties@)), *envs, Box::new(EvalTrace::Leaf))));
    }
    Ok(RuntimeValue::Object(Rc::new(object)))
}

/// A new list of the elements' values, evaluated in order.
pub fn eval_list_expr<H: Host>(
    host: &mut H,
    envs: &mut SharedEnvironment,
    list: &ListLiteral,
    env: usize,
    depth: u64,
) -> (r: Result<RuntimeValue, FatalError>)
    requires
        old(envs).wf(),
        env < old(envs).scopes().len(),
    ensures
        grows(*old(envs), *final(envs)),
        keeps_names(*old(envs), *final(envs)),
        r matches Ok(v) ==> (v matches RuntimeValue::List(l) && l.elements@.len()
            == list.elements@.len()),
        depth > 0 && all_atoms(*old(envs), env as int, list.elements@) ==> (r matches Ok(
            RuntimeValue::List(l),
        ) && forall|k: int|
            0 <= k < l.elements@.len() ==> l.elements@[k] == #[trigger] atom_value(
                *old(envs),
                env as int,
                list.elements@[k],
            )->0) && *final(envs) == *old(envs),
        exists|t: EvalTrace| #[trigger] list_rel(*old(envs), env as int, *list, depth as nat, *final(envs), r, t),
    decreases depth, 3nat,
{
    let mut elements: Vec<RuntimeValue> = Vec::new();
    let mut i: usize = 0;
    let ghost mut ta = EvalTrace::Leaf;
    while i < list.elements.len()
        invariant
            grows(*old(envs), *envs),
            keeps_names(*old(envs), *envs),
            env < envs.scopes().len(),
            i <= list.elements.len(),
            elements@.len() == i,
            depth > 0 && all_atoms(*old(envs), env as int, list.elements@) ==> *envs == *old(envs)
                && forall|k: int|
                0 <= k < i ==> elements@[k] == #[trigger] atom_value(
                    *old(envs),
                    env as int,
                    list.elements@[k],
                )->0,
            args_prefix_rel(*old(envs), env as int, list.elements@, i as nat, depth as nat, *envs, elements@, ta),
        decreases list.elements.len() - i,
    {
        let ghost before = *envs;
        let ghost before_vals = elements@;
        let rv = eval_expr(host, envs, &list.elements[i], env, depth);
        let ghost tk = choose|t: EvalTrace| expr_rel(before, env as int, list.elements@[i as int], depth as nat, *envs, rv, t);
        let v = match rv {
            Ok(v) => v,
            Err(e) => {
                proof {
                    let t = EvalTrace::Call(Box::new(EvalTrace::Leaf), before, rv, Box::new(ta), Ghost(i as nat), Ghost(before_vals), before, Box::new(tk), Box::new(StmtTrace::Leaf));
                    assert(list_rel(*old(envs), env as int, *list, depth as nat, *envs, Err(e), t));
                }
                return Err(e);
            },
        };
        elements.push(v);
        proof {
            ta = EvalTrace::Node(Box::new(ta), before, rv, Box::new(tk), rv);
            assert(elements@.drop_last() == before_vals);
        }
        i = i + 1;
    }
    proof {
        let t = EvalTrace::Call(Box::new(EvalTrace::Leaf), *envs, Ok(RuntimeValue::Null(NullValue {  })), Box::new(ta), Ghost(i as nat), Ghost(elements@), *envs, Box::new(EvalTrace::Leaf), Box::new(StmtTrace::Leaf));
        assert(list_rel(*old(envs), env as int, *list, depth as nat, *envs, Ok(RuntimeValue::List(Rc::new(ListValue { elements }))), t));
    }
    Ok(RuntimeValue::List(Rc::new(ListValue { elements })))
}

/// Reads a property of a record (`.name` or a computed string) or an
/// element of a list (a computed number, truncated toward zero).
pub fn eval_member_expr<H: Host>(
    host: &mut H,
    envs: &mut SharedEnvironment,
    node: &MemberExpr,
    env: usize,
    depth: u64,
) -> (r: Result<RuntimeValue, FatalError>)
    requires
        old(envs).wf(),
        env < old(envs).scopes().len(),
    ensures
        grows(*old(envs), *final(envs)),
        keeps_names(*old(envs), *final(envs)),
        depth > 0 && atom_value(*old(envs), env as int, *node.object) is Some ==> match atom_value(
            *old(envs),
            env as int,
            *node.object,
        )->0 {
            RuntimeValue::Object(o) => if !node.computed {
                match *node.property {
                    Expr::Identifier(id) => record_lookup(*o, id.symbol@, r),
                    _ => r == Err::<RuntimeValue, FatalError>(FatalError::InvalidMemberExpression),
                }
            } else {
                (atom_value(*old(envs), env as int, *node.property) is Some ==> match atom_value(
                    *old(envs),
                    env as int,
                    *node.property,
                )->0 {
                    RuntimeValue::String(k) => record_lookup(*o, k.value@, r),
                    _ => r == Err::<RuntimeValue, FatalError>(FatalError::InvalidMemberExpression),
                })
            },
            RuntimeValue::List(l) => if !node.computed {
                r == Err::<RuntimeValue, FatalError>(FatalError::InvalidMemberExpression)
            } else {
                (atom_value(*old(envs), env as int, *node.property) is Some ==> match atom_value(
                    *old(envs),
                    env as int,
                    *node.property,
                )->0 {
                    RuntimeValue::Number(_) => exists|i: int| #[trigger]
                        list_index_result(l.elements@, i, r),
                    _ => r == Err::<RuntimeValue, FatalError>(FatalError::InvalidMemberExpression),
                })
            },
            _ => r == Err::<RuntimeValue, FatalError>(FatalError::InvalidMemberExpression),
        },
        exists|t: EvalTrace| #[trigger] member_rel(*old(envs), env as int, *node, depth as nat, *final(envs), r, t),
    decreases depth, 3nat,
{
    let ghost pre = *envs;
    let obj = match eval_expr(host, envs, &node.object, env, depth) {
        Ok(v) => v,
        Err(e) => {
            proof {
                let t1 = choose|t: EvalTrace| expr_rel(pre, env as int, *node.object, depth as nat, *envs, Err(e), t);
                assert(member_rel(pre, env as int, *node, depth as nat, *envs, Err(e), EvalTrace::Node(Box::new(t1), *envs, Err(e), Box::new(EvalTrace::Leaf), Err(e))));
            }
            return Err(e);
        },
    };
    let ghost mid = *envs;
    let ghost t1 = choose|t: EvalTrace| expr_rel(pre, env as int, *node.object, depth as nat, mid, Ok(obj), t);
    let ghost ov = obj;
    let r = match obj {
        RuntimeValue::Object(o) => {
            if !node.computed {
                let r = match &*node.property {
                    Expr::Identifier(id) => read_property(&o, &id.symbol),
                    _ => Err(FatalError::InvalidMemberExpression),
                };
                proof {
                    assert(member_rel(pre, env as int, *node, depth as nat, *envs, r, EvalTrace::Node(Box::new(t1), mid, Ok(ov), Box::new(EvalTrace::Leaf), r)));
                }
                r
            } else {
                let key = match eval_expr(host, envs, &node.property, env, depth) {
                    Ok(v) => v,
                    Err(e) => {
                        proof {
                            let t2 = choose|t: EvalTrace| expr_rel(mid, env as int, *node.property, depth as nat, *envs, Err(e), t);
                            assert(member_rel(pre, env as int, *node, depth as nat, *envs, Err(e), EvalTrace::Node(Box::new(t1), mid, Ok(ov), Box::new(t2), Err(e))));
                        }
                        return Err(e);
                    },
                };
                let ghost t2 = choose|t: EvalTrace| expr_rel(mid, env as int, *node.property, depth as nat, *envs, Ok(key), t);
                let ghost kv = key;
                let r = match key {
                    RuntimeValue::String(ks) => read_property(&o, &ks.value),
                    _ => Err(FatalError::InvalidMemberExpression),
                };
                proof {
                    assert(member_rel(pre, env as int, *node, depth as nat, *envs, r, EvalTrace::Node(Box::new(t1), mid, Ok(ov), Box::new(t2), Ok(kv))));
                }
                r
            }
        },
        RuntimeValue::List(l) => {
            if !node.computed {
                proof {
                    assert(member_rel(pre, env as int, *node, depth as nat, *envs, Err(FatalError::InvalidMemberExpression), EvalTrace::Node(Box::new(t1), mid, Ok(ov), Box::new(EvalTrace::Leaf), Ok(ov))));
                }
                return Err(FatalError::InvalidMemberExpression);
            }
            let index = match eval_expr(host, envs, &node.property, env, depth) {
                Ok(v) => v,
                Err(e) => {
                    proof {
                        let t2 = choose|t: EvalTrace| expr_rel(mid, env as int, *node.property, depth as nat, *envs, Err(e), t);
                        assert(member_rel(pre, env as int, *node, depth as nat, *envs, Err(e), EvalTrace::Node(Box::new(t1), mid, Ok(ov), Box::new(t2), Err(e))));
                    }
                    return Err(e);
                },
            };
            let ghost t2 = choose|t: EvalTrace| expr_rel(mid, env as int, *node.property, depth as nat, *envs, Ok(index), t);
            let ghost iv = index;
            let r = match index {
                RuntimeValue::Number(n) => {
                    let i = host.index_of(n);
                    let r = l.index(i);
                    assert(list_index_result(l.elements@, i as int, r));
                    r
                },
                _ => Err(FatalError::InvalidMemberExpression),
            };
            proof {
                assert(member_rel(pre, env as int, *node, depth as nat, *envs, r, EvalTrace::Node(Box::new(t1), mid, Ok(ov), Box::new(t2), Ok(iv))));
            }
            r
        },
        _ => {
            proof {
                assert(member_rel(pre, env as int, *node, depth as nat, *envs, Err(FatalError::InvalidMemberExpression), EvalTrace::Node(Box::new(t1), mid, Ok(ov), Box::new(EvalTrace::Leaf), Ok(ov))));
            }
            Err(FatalError::InvalidMemberExpression)
        },
    };
    r
}

/// A record's property: its value, or a missing property error.
fn read_property(o: &ObjectValue, key: &String) -> (r: Result<RuntimeValue, FatalError>)
    ensures
        record_lookup(*o, key@, r),
{
    match o.get(key) {
        Some(v) => Ok(v.clone_self()),
        None => Err(FatalError::MissingProperty(key.clone())),
    }
}

/// Evaluates the callee, then the arguments left to right, and calls.
pub fn eval_call<H: Host>(
    host: &mut H,
    envs: &mut SharedEnvironment,
    expr: &CallExpr,
    env: usize,
    depth: u64,
) -> (r: Result<RuntimeValue, FatalError>)
    requires
        old(envs).wf(),
        env < old(envs).scopes().len(),
    ensures
        grows(*old(envs), *final(envs)),
        keeps_names(*old(envs), *final(envs)),
        depth > 0 && atom_value(*old(envs), env as int, *expr.caller) is Some && !(atom_value(
            *old(envs),
            env as int,
            *expr.caller,
        )->0 is NativeFn || atom_value(*old(envs), env as int, *expr.caller)->0 is Function) ==> r
            == Err::<RuntimeValue, FatalError>(FatalError::NotCallable) && *final(envs) == *old(envs),
        depth > 0 && (atom_value(*old(envs), env as int, *expr.caller) matches Some(
            RuntimeValue::Function(f),
        ) && f.declaration_env < old(envs).scopes().len() && expr.args@.len()
            != f.declaration.parameters@.len()) ==> r is Err,
        exists|t: EvalTrace| #[trigger] call_rel(*old(envs), env as int, *expr, depth as nat, *final(envs), r, t),
    decreases depth, 3nat,
{
    let ghost pre = *envs;
    let rf = eval_expr(host, envs, &expr.caller, env, depth);
    let ghost t1 = choose|t: EvalTrace| expr_rel(pre, env as int, *expr.caller, depth as nat, *envs, rf, t);
    let ghost mid = *envs;
    let func = match rf {
        Ok(f) => f,
        Err(e) => {
            proof {
                let t = EvalTrace::Call(Box::new(t1), mid, rf, Box::new(EvalTrace::Leaf), Ghost(0nat), Ghost(Seq::empty()), mid, Box::new(EvalTrace::Leaf), Box::new(StmtTrace::Leaf));
                assert(call_rel(pre, env as int, *expr, depth as nat, *envs, Err(e), t));
            }
            return Err(e);
        },
    };
    match &func {
        RuntimeValue::NativeFn(_) => {},
        RuntimeValue::Function(_) => {},
        _ => {
            proof {
                let t = EvalTrace::Call(Box::new(t1), mid, rf, Box::new(EvalTrace::Leaf), Ghost(0nat), Ghost(Seq::empty()), mid, Box::new(EvalTrace::Leaf), Box::new(StmtTrace::Leaf));
                assert(call_rel(pre, env as int, *expr, depth as nat, *envs, Err(FatalError::NotCallable), t));
            }
            return Err(FatalError::NotCallable);
        },
    }
    let ghost after_callee = *envs;
    let ghost mut ta = EvalTrace::Leaf;
    let mut args: Vec<RuntimeValue> = Vec::new();
    let mut i: usize = 0;
    while i < expr.args.len()
        invariant
            grows(*old(envs), *envs),
            grows(after_callee, *envs),
            keeps_names(*old(envs), *envs),
            env < envs.scopes().len(),
            i <= expr.args.len(),
            args@.len() == i,
            func is NativeFn || func is Function,
            rf == Ok::<RuntimeValue, FatalError>(func),
            after_callee == mid,
            pre == *old(envs),
            expr_rel(pre, env as int, *expr.caller, depth as nat, mid, rf, t1),
            args_prefix_rel(mid, env as int, expr.args@, i as nat, depth as nat, *envs, args@, ta),
            depth > 0 && atom_value(*old(envs), env as int, *expr.caller) is Some ==> func
                == atom_value(*old(envs), env as int, *expr.caller)->0,
        decreases expr.args.len() - i,
    {
        let ghost before = *envs;
        let ghost before_args = args@;
        let rv = eval_expr(host, envs, &expr.args[i], env, depth);
        let ghost tk = choose|t: EvalTrace| expr_rel(before, env as int, expr.args@[i as int], depth as nat, *envs, rv, t);
        let v = match rv {
            Ok(v) => v,
            Err(e) => {
                proof {
                    let t = EvalTrace::Call(Box::new(t1), mid, rf, Box::new(ta), Ghost(i as nat), Ghost(before_args), before, Box::new(tk), Box::new(StmtTrace::Leaf));
                    assert(call_rel(pre, env as int, *expr, depth as nat, *envs, Err(e), t));
                }
                return Err(e);
            },
        };
        args.push(v);
        proof {
            ta = EvalTrace::Node(Box::new(ta), before, rv, Box::new(tk), rv);
            assert(args@.drop_last() == before_args);
        }
        i = i + 1;
    }
    let ghost s_args = *envs;
    let ghost vals = args@;
    match func {
        RuntimeValue::NativeFn(f) => {
            let r = call_native(host, f.call, &args);
            proof {
                let t = EvalTrace::Call(Box::new(t1), mid, rf, Box::new(ta), Ghost(i as nat), Ghost(vals), s_args, Box::new(EvalTrace::Leaf), Box::new(StmtTrace::Leaf));
                assert(call_rel(pre, env as int, *expr, depth as nat, *envs, r, t));
            }
            r
        },
        RuntimeValue::Function(f) => {
            let ghost fv = f;
            let r = f.call(host, envs, args, depth);
            proof {
                let tc = choose|t: StmtTrace| closure_rel(s_args, fv, vals, depth as nat, *envs, r, t);
                let t = EvalTrace::Call(Box::new(t1), mid, rf, Box::new(ta), Ghost(i as nat), Ghost(vals), s_args, Box::new(EvalTrace::Leaf), Box::new(tc));
                assert(call_rel(pre, env as int, *expr, depth as nat, *envs, r, t));
            }
            r
        },
        _ => Err(FatalError::NotCallable),
    }
}

impl FunctionValue {
    /// Calls the closure: a new scope nested in the captured one binds the
    /// parameters, and the body runs there until it ends or returns. The
    /// caller's scope takes no part: names in the body resolve through the
    /// captured scope only.
    pub fn call<H: Host>(
        &self,
        host: &mut H,
        envs: &mut SharedEnvironment,
        args: Vec<RuntimeValue>,
        depth: u64,
    ) -> (r: Result<RuntimeValue, FatalError>)
        requires
            old(envs).wf(),
        ensures
            grows(*old(envs), *final(envs)),
            keeps_names(*old(envs), *final(envs)),
            r is Ok ==> final(envs).scopes().len() > old(envs).scopes().len(),
            r is Ok ==> final(envs).scopes()[old(envs).scopes().len() as int].parent_index()
                == Some(self.declaration_env),
            exists|t: StmtTrace| #[trigger] closure_rel(*old(envs), *self, args@, depth as nat, *final(envs), r, t),
            self.declaration_env >= old(envs).scopes().len() ==> r == Err::<
                RuntimeValue,
                FatalError,
            >(FatalError::UnknownScope) && *final(envs) == *old(envs),
            self.declaration_env < old(envs).scopes().len() && args@.len() == 0
                && self.declaration.parameters@.len() == 0 && depth > 2
                && self.declaration.body.body@.len() > 0 && (self.declaration.body.body@[0] matches Stmt::If(
                i,
            ) && if_returns(*old(envs), self.declaration_env as int, i) is Some) ==> r == Ok::<
                RuntimeValue,
                FatalError,
            >(
                if_returns(
                    *old(envs),
                    self.declaration_env as int,
                    self.declaration.body.body@[0]->If_0,
                )->0,
            ),
            self.declaration_env < old(envs).scopes().len() && args@.len()
                != self.declaration.parameters@.len() ==> r == Err::<RuntimeValue, FatalError>(
                FatalError::ArityMismatch {
                    expected: self.declaration.parameters@.len() as usize,
                    found: args@.len() as usize,
                },
            ) && *final(envs) == *old(envs),
        decreases depth, 2nat,
    {
        if self.declaration_env >= envs.len() {
            assert(closure_rel(*envs, *self, args@, depth as nat, *envs, Err(FatalError::UnknownScope), StmtTrace::Leaf));
            return Err(FatalError::UnknownScope);
        }
        let params = &self.declaration.parameters;
        if args.len() != params.len() {
            let r = Err(FatalError::ArityMismatch { expected: params.len(), found: args.len() });
            assert(closure_rel(*envs, *self, args@, depth as nat, *envs, r, StmtTrace::Leaf));
            return r;
        }
        let frame = envs.push_scope(self.declaration_env);
        let ghost after_push = *envs;
        assert(pushed_from(*old(envs), self.declaration_env as int, after_push));
        let ghost mut tp = StmtTrace::Leaf;
        proof {
            if self.declaration.body.body@.len() > 0 {
                if let Stmt::If(st) = self.declaration.body.body@[0] {
                    lemma_atom_in_fresh_scope(
                        *old(envs),
                        after_push,
                        self.declaration_env,
                        frame,
                        st.condition,
                    );
                    if st.body.body@.len() > 0 {
                        if let Stmt::Return(ret) = st.body.body@[0] {
                            lemma_atom_in_fresh_scope(
                                *old(envs),
                                after_push,
                                self.declaration_env,
                                frame,
                                ret.value,
                            );
                        }
                    }
                }
            }
        }
        let mut i: usize = 0;
        while i < params.len()
            invariant
                grows(*old(envs), *envs),
                keeps_names(*old(envs), *envs),
                frame == old(envs).scopes().len(),
                frame < envs.scopes().len(),
                envs.scopes()[frame as int].parent_index() == Some(self.declaration_env),
                i <= params.len(),
                params.len() == args.len(),
                self.declaration_env < old(envs).scopes().len(),
                args@.len() == self.declaration.parameters@.len(),
                i == 0 ==> *envs == after_push,
                *params == self.declaration.parameters,
                pushed_from(*old(envs), self.declaration_env as int, after_push),
                params_rel(after_push, frame as int, params@, args@, i as nat, *envs, tp),
            decreases params.len() - i,
        {
            let ghost before = *envs;
            let rd = envs.declare_var(frame, params[i].clone(), args[i].clone_self(), false);
            match rd {
                Ok(_) => {},
                Err(e) => {
                    proof {
                        let t = StmtTrace::Stop(i as nat, Box::new(tp), after_push, RuntimeValue::Null(NullValue {  }), Box::new(StmtTrace::Then(Box::new(StmtTrace::Leaf), before, RuntimeValue::Null(NullValue {  }), Box::new(StmtTrace::Leaf))));
                        assert(closure_rel(*old(envs), *self, args@, depth as nat, *envs, Err(e), t));
                    }
                    return Err(e);
                },
            }
            proof {
                tp = StmtTrace::Then(Box::new(tp), before, RuntimeValue::Null(NullValue {  }), Box::new(StmtTrace::Leaf));
            }
            i = i + 1;
        }
        let ghost bound = *envs;
        let ghost mut tr = StmtTrace::Leaf;
        let body = &self.declaration.body.body;
        let mut last = null();
        let mut k: usize = 0;
        while k < body.len()
            invariant
                grows(*old(envs), *envs),
                keeps_names(*old(envs), *envs),
                frame == old(envs).scopes().len(),
                frame < envs.scopes().len(),
                envs.scopes()[frame as int].parent_index() == Some(self.declaration_env),
                k <= body.len(),
                self.declaration_env < old(envs).scopes().len(),
                args@.len() == self.declaration.parameters@.len(),
                k == 0 && params.len() == 0 ==> *envs == after_push,
                *body == self.declaration.body.body,
                *params == self.declaration.parameters,
                pushed_from(*old(envs), self.declaration_env as int, after_push),
                params_rel(after_push, frame as int, params@, args@, args@.len() as nat, bound, tp),
                prefix_rel(bound, frame as int, body@, k as nat, depth as nat, *envs, last, tr),
                self.declaration.body.body@.len() > 0 && self.declaration.body.body@[0] is If
                    ==> if_returns(after_push, frame as int, self.declaration.body.body@[0]->If_0)
                    == if_returns(
                    *old(envs),
                    self.declaration_env as int,
                    self.declaration.body.body@[0]->If_0,
                ),
                k > 0 ==> !(args@.len() == 0 && self.declaration.parameters@.len() == 0 && depth > 2
                    && self.declaration.body.body@.len() > 0 && (self.declaration.body.body@[0] matches Stmt::If(
                    st,
                ) && if_returns(*old(envs), self.declaration_env as int, st) is Some)),
            decreases body.len() - k,
        {
            let ghost before = *envs;
            let ghost lastb = last;
            let res = eval(host, envs, &body[k], frame, depth);
            let ghost tk = choose|t: StmtTrace| stmt_rel(before, frame as int, body@[k as int], depth as nat, *envs, res, t);
            let ghost stop = StmtTrace::Stop(k as nat, Box::new(tr), before, lastb, Box::new(tk));
            match res {
                Ok(Signal::Normal(v)) => {
                    proof {
                        tr = StmtTrace::Then(Box::new(tr), before, lastb, Box::new(tk));
                    }
                    last = v;
                },
                Ok(Signal::Returning(v)) => {
                    proof {
                        assert(run_rel(bound, frame as int, body@, depth as nat, *envs, Ok(Signal::Returning(v)), stop));
                        assert(closure_rel(*old(envs), *self, args@, depth as nat, *envs, Ok(v), StmtTrace::Frame(Box::new(tp), after_push, bound, Box::new(stop), Ok(Signal::Returning(v)))));
                    }
                    return Ok(v);
                },
                Err(e) => {
                    proof {
                        assert(run_rel(bound, frame as int, body@, depth as nat, *envs, Err(e), stop));
                        assert(closure_rel(*old(envs), *self, args@, depth as nat, *envs, Err(e), StmtTrace::Frame(Box::new(tp), after_push, bound, Box::new(stop), Err(e))));
                    }
                    return Err(e);
                },
            }
            k = k + 1;
        }
        proof {
            let stop = StmtTrace::Stop(k as nat, Box::new(tr), *envs, last, Box::new(StmtTrace::Leaf));
            assert(run_rel(bound, frame as int, body@, depth as nat, *envs, Ok(Signal::Normal(last)), stop));
            assert(closure_rel(*old(envs), *self, args@, depth as nat, *envs, Ok(last), StmtTrace::Frame(Box::new(tp), after_push, bound, Box::new(stop), Ok(Signal::Normal(last)))));
        }
        Ok(last)
    }
}

impl Body {
    /// Runs the statements in order, in a new scope nested in `env` when
    /// `make_env` holds and in `env` itself otherwise; a `return` stops the
    /// block. Gives how the block ended and the scope it ran in.
    pub fn run<H: Host>(
        &self,
        host: &mut H,
        envs: &mut SharedEnvironment,
        env: usize,
        make_env: bool,
        depth: u64,
    ) -> (r: Result<(Signal, usize), FatalError>)
        requires
            old(envs).wf(),
            env < old(envs).scopes().len(),
        ensures
            grows(*old(envs), *final(envs)),
            make_env ==> keeps_names(*old(envs), *final(envs)),
            keeps_names_except(*old(envs), *final(envs), env as int),
            r is Ok ==> r->Ok_0.1 < final(envs).scopes().len(),
            r is Ok && make_env ==> r->Ok_0.1 == old(envs).scopes().len()
                && final(envs).scopes()[r->Ok_0.1 as int].parent_index() == Some(env),
            r is Ok && !make_env ==> r->Ok_0.1 == env,
            self.body@.len() == 0 ==> r is Ok && r->Ok_0.0 == Signal::Normal(
                RuntimeValue::Null(NullValue {  }),
            ),
            depth > 1 && make_env && body_starts_with_return(*old(envs), env as int, *self) is Some
                ==> r is Ok && r->Ok_0.0 == Signal::Returning(
                body_starts_with_return(*old(envs), env as int, *self)->0,
            ),
            depth > 1 && self.body@.len() == 1 && first_expr_atom(*old(envs), env as int, *self)
                is Some ==> r is Ok && r->Ok_0.0 == Signal::Normal(
                first_expr_atom(*old(envs), env as int, *self)->0,
            ),
            exists|t: StmtTrace| #[trigger] block_rel(
                *old(envs),
                env as int,
                *self,
                make_env,
                depth as nat,
                *final(envs),
                signal_of(r),
                t,
            ),
        decreases depth, 1nat,
    {
        let scope = if make_env {
            envs.push_scope(env)
        } else {
            env
        };
        let ghost start = *envs;
        proof {
            if make_env && self.body@.len() > 0 {
                if let Stmt::Return(ret) = self.body@[0] {
                    lemma_atom_in_fresh_scope(*old(envs), start, env, scope, ret.value);
                }
                if let Stmt::Expr(e) = self.body@[0] {
                    lemma_atom_in_fresh_scope(*old(envs), start, env, scope, e);
                }
            }
        }
        proof {
            if make_env {
                assert(pushed_from(*old(envs), env as int, start));
            }
        }
        let mut last = null();
        let mut k: usize = 0;
        let ghost mut tr = StmtTrace::Leaf;
        while k < self.body.len()
            invariant
                make_env ==> pushed_from(*old(envs), env as int, start),
                !make_env ==> start == *old(envs),
                prefix_rel(start, scope as int, self.body@, k as nat, depth as nat, *envs, last, tr),
                grows(*old(envs), *envs),
                grows(start, *envs),
                make_env ==> keeps_names(*old(envs), *envs),
                keeps_names_except(*old(envs), *envs, env as int),
                scope < start.scopes().len(),
                make_env ==> scope == old(envs).scopes().len() && start.scopes()[scope as int].parent_index() == Some(env),
                !make_env ==> scope == env,
                k <= self.body.len(),
                k == 0 ==> last == RuntimeValue::Null(NullValue {  }),
                k == 0 ==> *envs == start,
                make_env ==> body_starts_with_return(start, scope as int, *self)
                    == body_starts_with_return(*old(envs), env as int, *self),
                first_expr_atom(start, scope as int, *self) == first_expr_atom(
                    *old(envs),
                    env as int,
                    *self,
                ),
                k == 1 && self.body@.len() == 1 && depth > 1 && first_expr_atom(
                    *old(envs),
                    env as int,
                    *self,
                ) is Some ==> last == first_expr_atom(*old(envs), env as int, *self)->0,
                k > 0 ==> !(depth > 1 && make_env && body_starts_with_return(
                    *old(envs),
                    env as int,
                    *self,
                ) is Some),
            decreases self.body.len() - k,
        {
            let ghost before = *envs;
            let ghost lastb = last;
            let res = eval(host, envs, &self.body[k], scope, depth);
            let ghost tk = choose|t: StmtTrace| stmt_rel(before, scope as int, self.body@[k as int], depth as nat, *envs, res, t);
            let ghost stop = StmtTrace::Stop(k as nat, Box::new(tr), before, lastb, Box::new(tk));
            let ghost whole = if make_env {
                StmtTrace::Then(Box::new(StmtTrace::Leaf), start, RuntimeValue::Null(NullValue {  }), Box::new(stop))
            } else {
                stop
            };
            match res {
                Ok(Signal::Normal(v)) => {
                    proof {
                        tr = StmtTrace::Then(Box::new(tr), before, lastb, Box::new(tk));
                    }
                    last = v;
                },
                Ok(Signal::Returning(v)) => {
                    proof {
                        assert(run_rel(start, scope as int, self.body@, depth as nat, *envs, Ok(Signal::Returning(v)), stop));
                        assert(block_rel(*old(envs), env as int, *self, make_env, depth as nat, *envs, Ok(Signal::Returning(v)), whole));
                    }
                    return Ok((Signal::Returning(v), scope));
                },
                Err(e) => {
                    proof {
                        assert(run_rel(start, scope as int, self.body@, depth as nat, *envs, Err(e), stop));
                        assert(block_rel(*old(envs), env as int, *self, make_env, depth as nat, *envs, Err(e), whole));
                    }
                    return Err(e);
                },
            }
            k = k + 1;
        }
        proof {
            let stop = StmtTrace::Stop(k as nat, Box::new(tr), *envs, last, Box::new(StmtTrace::Leaf));
            let whole = if make_env {
                StmtTrace::Then(Box::new(StmtTrace::Leaf), start, RuntimeValue::Null(NullValue {  }), Box::new(stop))
            } else {
                stop
            };
            assert(run_rel(start, scope as int, self.body@, depth as nat, *envs, Ok(Signal::Normal(last)), stop));
            assert(block_rel(*old(envs), env as int, *self, make_env, depth as nat, *envs, Ok(Signal::Normal(last)), whole));
        }
        Ok((Signal::Normal(last), scope))
    }
}

/// Runs a whole program in scope `env` itself (so its declarations stay
/// for the next program run there); gives the last statement's value.
pub fn eval_program<H: Host>(
    host: &mut H,
    envs: &mut SharedEnvironment,
    program: &Program,
    env: usize,
    depth: u64,
) -> (r: Result<RuntimeValue, FatalError>)
    requires
        old(envs).wf(),
        env < old(envs).scopes().len(),
    ensures
        grows(*old(envs), *final(envs)),
        keeps_names_except(*old(envs), *final(envs), env as int),
        program.body.body@.len() == 0 ==> r == Ok::<RuntimeValue, FatalError>(
            RuntimeValue::Null(NullValue {  }),
        ),
        depth > 1 && program.body.body@.len() == 1 && first_expr_atom(
            *old(envs),
            env as int,
            program.body,
        ) is Some ==> r == Ok::<RuntimeValue, FatalError>(
            first_expr_atom(*old(envs), env as int, program.body)->0,
        ),
        exists|t: StmtTrace, rs: Result<Signal, FatalError>|
            #[trigger] block_rel(*old(envs), env as int, program.body, false, depth as nat, *final(envs), rs, t)
                && r == program_value(rs),
{
    let ghost pre = *envs;
    let rb = program.body.run(host, envs, env, false, depth);
    proof {
        let t = choose|t: StmtTrace| block_rel(pre, env as int, program.body, false, depth as nat, *envs, signal_of(rb), t);
        assert(block_rel(pre, env as int, program.body, false, depth as nat, *envs, signal_of(rb), t));
    }
    match rb {
        Ok((Signal::Normal(v), _)) => Ok(v),
        Ok((Signal::Returning(v), _)) => Ok(v),
        Err(e) => Err(e),
    }
}

/// `var name = value;` or `const name = value;` in scope `env`.
pub fn eval_var_declaration<H: Host>(
    host: &mut H,
    envs: &mut SharedEnvironment,
    var_declaration: &VarDeclaration,
    env: usize,
    depth: u64,
) -> (r: Result<RuntimeValue, FatalError>)
    requires
        old(envs).wf(),
        env < old(envs).scopes().len(),
    ensures
        grows(*old(envs), *final(envs)),
        keeps_names_except(*old(envs), *final(envs), env as int),
        r matches Ok(v) ==> final(envs).scopes()[env as int]@.contains_key(
            var_declaration.identifier@,
        ) && final(envs).scopes()[env as int]@[var_declaration.identifier@] == v && (
        var_declaration.constant ==> final(envs).scopes()[env as int].constant_names().contains(
            var_declaration.identifier@,
        )),
        depth > 0 && atom_value(*old(envs), env as int, var_declaration.value) is Some ==> (r is Ok
            <==> !old(envs).scopes()[env as int]@.contains_key(var_declaration.identifier@)) && (
        r is Ok ==> r == Ok::<RuntimeValue, FatalError>(atom_value(*old(envs), env as int, var_declaration.value)->0)) && (r is Err
            ==> r matches Err(FatalError::AlreadyDeclared(_))),
        exists|t: StmtTrace| #[trigger] stmt_rel(*old(envs), env as int, Stmt::VarDeclaration(*var_declaration), one_more(depth as nat), *final(envs), as_signal(r), t),
    decreases depth, 3nat,
{
    let ghost pre = *envs;
    let re = eval_expr(host, envs, &var_declaration.value, env, depth);
    let ghost te = choose|t: EvalTrace| expr_rel(pre, env as int, var_declaration.value, depth as nat, *envs, re, t);
    let ghost mid = *envs;
    let ghost tr = StmtTrace::Step(te, mid, re, Box::new(StmtTrace::Leaf));
    let value = match re {
        Ok(v) => v,
        Err(e) => {
            proof {
                assert(stmt_rel(pre, env as int, Stmt::VarDeclaration(*var_declaration), one_more(depth as nat), *envs, Err(e), tr));
            }
            return Err(e);
        },
    };
    let r = envs.declare_var(
        env,
        var_declaration.identifier.clone(),
        value,
        var_declaration.constant,
    );
    proof {
        assert(grows(*old(envs), *envs));
        assert(stmt_rel(pre, env as int, Stmt::VarDeclaration(*var_declaration), one_more(depth as nat), *envs, as_signal(r), tr));
    }
    r
}

/// Binds a closure over scope `env`, as a constant of its own name there.
pub fn eval_function_declaration(
    envs: &mut SharedEnvironment,
    function_declaration: &Rc<FunctionDeclaration>,
    env: usize,
) -> (r: Result<RuntimeValue, FatalError>)
    requires
        old(envs).wf(),
        env < old(envs).scopes().len(),
    ensures
        grows(*old(envs), *final(envs)),
        keeps_names_except(*old(envs), *final(envs), env as int),
        r is Ok <==> !old(envs).scopes()[env as int]@.contains_key(function_declaration.name@),
        r is Ok ==> r == Ok::<RuntimeValue, FatalError>(RuntimeValue::Null(NullValue {  }))
            && final(envs).scopes()[env as int]@[function_declaration.name@] == RuntimeValue::Function(
            FunctionValue { declaration: *function_declaration, declaration_env: env },
        ) && final(envs).scopes()[env as int].constant_names().contains(function_declaration.name@),
        r is Ok ==> crate::environment::others_unchanged(
            old(envs).scopes(),
            final(envs).scopes(),
            env as int,
        ) && final(envs).scopes()[env as int]@ == old(envs).scopes()[env as int]@.insert(
            function_declaration.name@,
            RuntimeValue::Function(
                FunctionValue { declaration: *function_declaration, declaration_env: env },
            ),
        ),
        r is Err ==> final(envs).scopes() == old(envs).scopes(),
        stmt_rel(*old(envs), env as int, Stmt::FunctionDeclaration(*function_declaration), 1, *final(envs), as_signal(r), StmtTrace::Leaf),
{
    let function = FunctionValue { declaration: share(function_declaration), declaration_env: env };
    let name = function_declaration.name.clone();
    match envs.declare_var(env, name, RuntimeValue::Function(function), true) {
        Ok(_) => Ok(null()),
        Err(e) => Err(e),
    }
}

/// `return value;`: evaluates the value; fatal in the root scope.
pub fn eval_return<H: Host>(
    host: &mut H,
    envs: &mut SharedEnvironment,
    return_stmt: &ReturnStmt,
    env: usize,
    depth: u64,
) -> (r: Result<RuntimeValue, FatalError>)
    requires
        old(envs).wf(),
        env < old(envs).scopes().len(),
    ensures
        grows(*old(envs), *final(envs)),
        keeps_names(*old(envs), *final(envs)),
        old(envs).scopes()[env as int].parent_index() is None ==> r == Err::<
            RuntimeValue,
            FatalError,
        >(FatalError::ReturnOutsideFunction),
        depth > 0 && old(envs).scopes()[env as int].parent_index() is Some && atom_value(*old(envs), env as int, return_stmt.value)
            is Some ==> r == Ok::<RuntimeValue, FatalError>(atom_value(*old(envs), env as int, return_stmt.value)->0),
        exists|t: StmtTrace| #[trigger] stmt_rel(*old(envs), env as int, Stmt::Return(*return_stmt), one_more(depth as nat), *final(envs), as_return(r), t),
    decreases depth, 3nat,
{
    if envs.is_global(env) {
        assert(stmt_rel(*envs, env as int, Stmt::Return(*return_stmt), one_more(depth as nat), *envs, Err(FatalError::ReturnOutsideFunction), StmtTrace::Leaf));
        return Err(FatalError::ReturnOutsideFunction);
    }
    let ghost pre = *envs;
    let r = eval_expr(host, envs, &return_stmt.value, env, depth);
    proof {
        let te = choose|t: EvalTrace| expr_rel(pre, env as int, return_stmt.value, depth as nat, *envs, r, t);
        assert(stmt_rel(pre, env as int, Stmt::Return(*return_stmt), one_more(depth as nat), *envs, as_return(r), StmtTrace::Step(te, *envs, r, Box::new(StmtTrace::Leaf))));
    }
    r
}

/// Runs the body or the else-body, in a new scope, by the condition's
/// truthiness; a `return` inside goes on up.
pub fn eval_if<H: Host>(
    host: &mut H,
    envs: &mut SharedEnvironment,
    if_stmt: &IfStmt,
    env: usize,
    depth: u64,
) -> (r: Result<Signal, FatalError>)
    requires
        old(envs).wf(),
        env < old(envs).scopes().len(),
    ensures
        grows(*old(envs), *final(envs)),
        keeps_names(*old(envs), *final(envs)),
        r matches Ok(Signal::Normal(v)) ==> v == RuntimeValue::Null(NullValue {  }),
        depth > 0 && atom_value(*old(envs), env as int, if_stmt.condition) is Some && !(atom_value(*old(envs), env as int, if_stmt.condition)->0 is Number) ==> ({
            let c = atom_value(*old(envs), env as int, if_stmt.condition)->0;
            (if truthy(c) {
                if_stmt.body.body@.len() == 0
            } else {
                if_stmt.else_stmt is None || if_stmt.else_stmt->0.body@.len() == 0
            }) ==> r == Ok::<Signal, FatalError>(Signal::Normal(RuntimeValue::Null(NullValue {  })))
        }),
        depth > 0 && atom_value(*old(envs), env as int, if_stmt.condition) is Some && !(atom_value(*old(envs), env as int, if_stmt.condition)->0 is Number)
            && !truthy(atom_value(*old(envs), env as int, if_stmt.condition)->0) && if_stmt.else_stmt is None ==> *final(envs)
            == *old(envs),
        depth > 1 && if_returns(*old(envs), env as int, *if_stmt) is Some ==> r == Ok::<
            Signal,
            FatalError,
        >(Signal::Returning(if_returns(*old(envs), env as int, *if_stmt)->0)),
        exists|t: StmtTrace| #[trigger] stmt_rel(*old(envs), env as int, Stmt::If(*if_stmt), one_more(depth as nat), *final(envs), r, t),
    decreases depth, 3nat,
{
    let ghost pre = *envs;
    let rc = eval_expr(host, envs, &if_stmt.condition, env, depth);
    let ghost tc = choose|t: EvalTrace| expr_rel(pre, env as int, if_stmt.condition, depth as nat, *envs, rc, t);
    let ghost mid = *envs;
    let condition = match rc {
        Ok(c) => c,
        Err(e) => {
            proof {
                assert(stmt_rel(pre, env as int, Stmt::If(*if_stmt), one_more(depth as nat), *envs, Err(e), StmtTrace::Step(tc, mid, rc, Box::new(StmtTrace::Leaf))));
            }
            return Err(e);
        },
    };
    let taken = if condition.as_bool(host) {
        Some(&if_stmt.body)
    } else {
        match &if_stmt.else_stmt {
            Some(b) => Some(b),
            None => None,
        }
    };
    match taken {
        Some(b) => {
            let rb = b.run(host, envs, env, true, depth);
            let ghost tb = choose|t: StmtTrace| block_rel(mid, env as int, *b, true, depth as nat, *envs, signal_of(rb), t);
            let r = match rb {
                Ok((Signal::Returning(v), _)) => Ok(Signal::Returning(v)),
                Ok(_) => Ok(Signal::Normal(null())),
                Err(e) => Err(e),
            };
            proof {
                assert(stmt_rel(pre, env as int, Stmt::If(*if_stmt), one_more(depth as nat), *envs, r, StmtTrace::Step(tc, mid, rc, Box::new(StmtTrace::Block(Box::new(tb), signal_of(rb))))));
            }
            r
        },
        None => {
            proof {
                assert(stmt_rel(pre, env as int, Stmt::If(*if_stmt), one_more(depth as nat), *envs, Ok(Signal::Normal(RuntimeValue::Null(NullValue {  }))), StmtTrace::Step(tc, mid, rc, Box::new(StmtTrace::Leaf))));
            }
            Ok(Signal::Normal(null()))
        },
    }
}

/// Re-evaluates the condition in scope `env` before each pass and runs the
/// body in a fresh scope nested in `env` on each pass.
pub fn eval_while<H: Host>(
    host: &mut H,
    envs: &mut SharedEnvironment,
    while_stmt: &WhileStmt,
    env: usize,
    depth: u64,
) -> (r: Result<Signal, FatalError>)
    requires
        old(envs).wf(),
        env < old(envs).scopes().len(),
    ensures
        grows(*old(envs), *final(envs)),
        keeps_names(*old(envs), *final(envs)),
        r matches Ok(Signal::Normal(v)) ==> v == RuntimeValue::Null(NullValue {  }),
        depth > 0 && atom_value(*old(envs), env as int, while_stmt.condition) is Some && !(atom_value(*old(envs), env as int, while_stmt.condition)->0 is Number)
            && !truthy(atom_value(*old(envs), env as int, while_stmt.condition)->0) ==> r == Ok::<Signal, FatalError>(
            Signal::Normal(RuntimeValue::Null(NullValue {  })),
        ) && *final(envs) == *old(envs),
        exists|t: StmtTrace| #[trigger] stmt_rel(*old(envs), env as int, Stmt::While(*while_stmt), one_more(depth as nat), *final(envs), r, t),
    decreases depth, 3nat,
{
    let mut budget: u64 = u64::MAX;
    let ghost mut tp = StmtTrace::Leaf;
    loop
        invariant
            grows(*old(envs), *envs),
            keeps_names(*old(envs), *envs),
            env < envs.scopes().len(),
            while_prefix(*old(envs), env as int, *while_stmt, (u64::MAX - budget) as nat, depth as nat, *envs, tp),
            budget == u64::MAX ==> *envs == *old(envs),
            budget < u64::MAX ==> !(depth > 0 && atom_value(*old(envs), env as int, while_stmt.condition) is Some && !(atom_value(*old(envs), env as int, while_stmt.condition)->0 is Number)
                && !truthy(atom_value(*old(envs), env as int, while_stmt.condition)->0)),
        decreases budget,
    {
        let ghost s = *envs;
        let ghost k = (u64::MAX - budget) as nat;
        let rc = eval_expr(host, envs, &while_stmt.condition, env, depth);
        let ghost tc = choose|t: EvalTrace| expr_rel(s, env as int, while_stmt.condition, depth as nat, *envs, rc, t);
        let ghost s1 = *envs;
        let ghost stop0 = StmtTrace::Stop(k, Box::new(tp), s, RuntimeValue::Null(NullValue {  }), Box::new(StmtTrace::Pass(Box::new(StmtTrace::Leaf), s, tc, s1, rc, Box::new(StmtTrace::Leaf), Err(FatalError::IterationLimit))));
        let condition = match rc {
            Ok(c) => c,
            Err(e) => {
                proof {
                    assert(stmt_rel(*old(envs), env as int, Stmt::While(*while_stmt), one_more(depth as nat), *envs, Err(e), stop0));
                }
                return Err(e);
            },
        };
        if !condition.as_bool(host) {
            proof {
                assert(stmt_rel(*old(envs), env as int, Stmt::While(*while_stmt), one_more(depth as nat), *envs, Ok(Signal::Normal(RuntimeValue::Null(NullValue {  }))), stop0));
            }
            return Ok(Signal::Normal(null()));
        }
        if budget == 0 {
            proof {
                assert(stmt_rel(*old(envs), env as int, Stmt::While(*while_stmt), one_more(depth as nat), *envs, Err(FatalError::IterationLimit), stop0));
            }
            return Err(FatalError::IterationLimit);
        }
        budget = budget - 1;
        let rb = while_stmt.body.run(host, envs, env, true, depth);
        let ghost tb = choose|t: StmtTrace| block_rel(s1, env as int, while_stmt.body, true, depth as nat, *envs, signal_of(rb), t);
        let ghost pass = StmtTrace::Pass(Box::new(tp), s, tc, s1, rc, Box::new(tb), signal_of(rb));
        let ghost stop = StmtTrace::Stop(k, Box::new(tp), s, RuntimeValue::Null(NullValue {  }), Box::new(pass));
        match rb {
            Err(e) => {
                proof {
                    assert(stmt_rel(*old(envs), env as int, Stmt::While(*while_stmt), one_more(depth as nat), *envs, Err(e), stop));
                }
                return Err(e);
            },
            Ok((Signal::Returning(v), _)) => {
                proof {
                    assert(stmt_rel(*old(envs), env as int, Stmt::While(*while_stmt), one_more(depth as nat), *envs, Ok(Signal::Returning(v)), stop));
                }
                return Ok(Signal::Returning(v));
            },
            Ok(_) => {
                proof {
                    tp = pass;
                }
            },
        }
    }
}

/// Iterates over a list by index: each element is assigned to the loop
/// variable (which a scope of the chain must bind), then the body runs in
/// a fresh scope nested in `env`.
pub fn eval_for<H: Host>(
    host: &mut H,
    envs: &mut SharedEnvironment,
    for_stmt: &ForStmt,
    env: usize,
    depth: u64,
) -> (r: Result<Signal, FatalError>)
    requires
        old(envs).wf(),
        env < old(envs).scopes().len(),
    ensures
        grows(*old(envs), *final(envs)),
        keeps_names(*old(envs), *final(envs)),
        r matches Ok(Signal::Normal(v)) ==> v == RuntimeValue::Null(NullValue {  }),
        depth > 0 && atom_value(*old(envs), env as int, for_stmt.iterable) is Some && !(atom_value(*old(envs), env as int, for_stmt.iterable)->0 is List) ==> r
            == Err::<Signal, FatalError>(FatalError::NotIterable) && *final(envs) == *old(envs),
        depth > 0 && (atom_value(*old(envs), env as int, for_stmt.iterable) matches Some(RuntimeValue::List(l))
            && l.elements@.len() == 0) ==> r == Ok::<Signal, FatalError>(
            Signal::Normal(RuntimeValue::Null(NullValue {  })),
        ) && *final(envs) == *old(envs),
        exists|t: StmtTrace| #[trigger] stmt_rel(*old(envs), env as int, Stmt::For(*for_stmt), one_more(depth as nat), *final(envs), r, t),
    decreases depth, 3nat,
{
    let ghost pre = *envs;
    let ri = eval_expr(host, envs, &for_stmt.iterable, env, depth);
    let ghost ti = choose|t: EvalTrace| expr_rel(pre, env as int, for_stmt.iterable, depth as nat, *envs, ri, t);
    let ghost mid = *envs;
    let iterable = match ri {
        Ok(v) => v,
        Err(e) => {
            proof {
                assert(stmt_rel(pre, env as int, Stmt::For(*for_stmt), one_more(depth as nat), *envs, Err(e), StmtTrace::Step(ti, mid, ri, Box::new(StmtTrace::Leaf))));
            }
            return Err(e);
        },
    };
    let list = match iterable {
        RuntimeValue::List(l) => l,
        _ => {
            proof {
                assert(stmt_rel(pre, env as int, Stmt::For(*for_stmt), one_more(depth as nat), *envs, Err(FatalError::NotIterable), StmtTrace::Step(ti, mid, ri, Box::new(StmtTrace::Leaf))));
            }
            return Err(FatalError::NotIterable);
        },
    };
    let elements = &list.elements;
    let ghost mut tp = StmtTrace::Leaf;
    let mut index: usize = 0;
    while index < elements.len()
        invariant
            grows(*old(envs), *envs),
            keeps_names(*old(envs), *envs),
            depth > 0 && atom_value(*old(envs), env as int, for_stmt.iterable) is Some ==> !(atom_value(*old(envs), env as int, for_stmt.iterable)->0 is List)
                ==> false,
            depth > 0 && (atom_value(*old(envs), env as int, for_stmt.iterable) matches Some(RuntimeValue::List(l0))
                && l0.elements@.len() == 0) ==> elements@.len() == 0 && *envs == *old(envs),
            env < envs.scopes().len(),
            index <= elements.len(),
            pre == *old(envs),
            ri == Ok::<RuntimeValue, FatalError>(RuntimeValue::List(list)),
            *elements == list.elements,
            expr_rel(pre, env as int, for_stmt.iterable, depth as nat, mid, ri, ti),
            for_prefix(mid, env as int, *for_stmt, elements@, index as nat, depth as nat, *envs, tp),
        decreases elements.len() - index,
    {
        let ghost s = *envs;
        let item = elements[index].clone_self();
        let ra = envs.assign_var(env, for_stmt.variable.clone(), item);
        let ghost s1 = *envs;
        match ra {
            Ok(_) => {},
            Err(e) => {
                proof {
                    let stop = StmtTrace::Stop(index as nat, Box::new(tp), s, RuntimeValue::Null(NullValue {  }), Box::new(StmtTrace::Loop(Box::new(StmtTrace::Leaf), s, s1, Box::new(StmtTrace::Leaf), Err(e), ra)));
                    assert(stmt_rel(pre, env as int, Stmt::For(*for_stmt), one_more(depth as nat), *envs, Err(e), StmtTrace::Step(ti, mid, ri, Box::new(stop))));
                }
                return Err(e);
            },
        }
        let rb = for_stmt.body.run(host, envs, env, true, depth);
        let ghost tb = choose|t: StmtTrace| block_rel(s1, env as int, for_stmt.body, true, depth as nat, *envs, signal_of(rb), t);
        let ghost last_pass = StmtTrace::Loop(Box::new(tp), s, s1, Box::new(tb), signal_of(rb), ra);
        let ghost stop = StmtTrace::Stop(index as nat, Box::new(tp), s, RuntimeValue::Null(NullValue {  }), Box::new(last_pass));
        match rb {
            Err(e) => {
                proof {
                    assert(stmt_rel(pre, env as int, Stmt::For(*for_stmt), one_more(depth as nat), *envs, Err(e), StmtTrace::Step(ti, mid, ri, Box::new(stop))));
                }
                return Err(e);
            },
            Ok((Signal::Returning(v), _)) => {
                proof {
                    assert(stmt_rel(pre, env as int, Stmt::For(*for_stmt), one_more(depth as nat), *envs, Ok(Signal::Returning(v)), StmtTrace::Step(ti, mid, ri, Box::new(stop))));
                }
                return Ok(Signal::Returning(v));
            },
            Ok(_) => {
                proof {
                    tp = last_pass;
                }
            },
        }
        index = index + 1;
    }
    proof {
        let stop = StmtTrace::Stop(index as nat, Box::new(tp), *envs, RuntimeValue::Null(NullValue {  }), Box::new(StmtTrace::Leaf));
        assert(stmt_rel(pre, env as int, Stmt::For(*for_stmt), one_more(depth as nat), *envs, Ok(Signal::Normal(RuntimeValue::Null(NullValue {  }))), StmtTrace::Step(ti, mid, ri, Box::new(stop))));
    }
    Ok(Signal::Normal(null()))
}

/// Parses `source` and runs it in scope `env`.
pub fn run_source<H: Host>(
    host: &mut H,
    envs: &mut SharedEnvironment,
    parser: &mut Parser,
    source: &str,
    env: usize,
    depth: u64,
) -> (r: Result<RuntimeValue, FatalError>)
    requires
        old(envs).wf(),
        env < old(envs).scopes().len(),
    ensures
        grows(*old(envs), *final(envs)),
        keeps_names_except(*old(envs), *final(envs), env as int),
        lex(source@) matches Err(e) ==> r == Err::<RuntimeValue, FatalError>(e) && *final(envs)
            == *old(envs),
        parse_source(source@) is None ==> r is Err && *final(envs) == *old(envs),
        parse_source(source@) matches Some(b) ==> exists|p: Program, t: StmtTrace, rs: Result<
            Signal,
            FatalError,
        >|
            #[trigger] block_rel(*old(envs), env as int, p.body, false, depth as nat, *final(envs), rs, t)
                && body_view(p.body) == b && r == program_value(rs),
{
    let program = match parser.produce_ast(source) {
        Ok(p) => p,
        Err(e) => {
            return Err(e);
        },
    };
    let ghost pre = *envs;
    let r = eval_program(host, envs, &program, env, depth);
    proof {
        let (t, rs) = choose|t: StmtTrace, rs: Result<Signal, FatalError>| block_rel(pre, env as int, program.body, false, depth as nat, *envs, rs, t) && r == program_value(rs);
        assert(block_rel(pre, env as int, program.body, false, depth as nat, *envs, rs, t));
    }
    r
}

} // verus!
