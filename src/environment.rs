use vstd::prelude::*;

use crate::error::FatalError;
use crate::values::{BooleanValue, FunctionCall, NativeFnValue, NullValue, RuntimeValue};

verus! {

/// One scope: its bindings, the names among them that are constant, and
/// the scope it is nested in (by its index in a `SharedEnvironment`).
#[derive(Debug)]
pub struct Environment {
    parent: Option<usize>,
    variables: Vec<(String, RuntimeValue)>,
    constants: Vec<String>,
}

pub open spec fn has_name(vars: Seq<(String, RuntimeValue)>, name: Seq<char>) -> bool {
    exists|i: int| 0 <= i < vars.len() && (#[trigger] vars[i]).0@ == name
}

pub open spec fn names_unique(vars: Seq<(String, RuntimeValue)>) -> bool {
    forall|i: int, j: int|
        0 <= i < vars.len() && 0 <= j < vars.len() && (#[trigger] vars[i]).0@ == (
        #[trigger] vars[j]).0@ ==> i == j
}

/// The value bound to `name`, where the bindings hold it once.
pub open spec fn value_of(vars: Seq<(String, RuntimeValue)>, name: Seq<char>) -> RuntimeValue {
    vars[choose|i: int| 0 <= i < vars.len() && (#[trigger] vars[i]).0@ == name].1
}

pub open spec fn bindings_map(vars: Seq<(String, RuntimeValue)>) -> Map<Seq<char>, RuntimeValue> {
    Map::new(|n: Seq<char>| has_name(vars, n), |n: Seq<char>| value_of(vars, n))
}

pub proof fn lemma_value_at(vars: Seq<(String, RuntimeValue)>, i: int)
    requires
        names_unique(vars),
        0 <= i < vars.len(),
    ensures
        bindings_map(vars).contains_key(vars[i].0@),
        bindings_map(vars)[vars[i].0@] == vars[i].1,
{
    let n = vars[i].0@;
    assert(has_name(vars, n));
    let j = choose|j: int| 0 <= j < vars.len() && (#[trigger] vars[j]).0@ == n;
    assert(j == i);
}

pub proof fn lemma_push_binding(vars: Seq<(String, RuntimeValue)>, name: String, value: RuntimeValue)
    requires
        names_unique(vars),
        !has_name(vars, name@),
    ensures
        names_unique(vars.push((name, value))),
        bindings_map(vars.push((name, value))) == bindings_map(vars).insert(name@, value),
{
    let w = vars.push((name, value));
    assert(names_unique(w)) by {
        assert forall|i: int, j: int|
            0 <= i < w.len() && 0 <= j < w.len() && (#[trigger] w[i]).0@ == (#[trigger] w[j]).0@ implies i
                == j by {
            if i < vars.len() && j == vars.len() {
                assert(vars[i].0@ == name@);
            }
            if j < vars.len() && i == vars.len() {
                assert(vars[j].0@ == name@);
            }
        }
    }
    let m = bindings_map(vars).insert(name@, value);
    assert forall|n: Seq<char>| #[trigger] bindings_map(w).contains_key(n) == m.contains_key(n) by {
        if has_name(w, n) && n != name@ {
            let i = choose|i: int| 0 <= i < w.len() && (#[trigger] w[i]).0@ == n;
            assert(vars[i].0@ == n);
        }
        if has_name(vars, n) {
            let i = choose|i: int| 0 <= i < vars.len() && (#[trigger] vars[i]).0@ == n;
            assert(w[i].0@ == n);
        }
        assert(w[vars.len() as int].0@ == name@);
    }
    assert forall|n: Seq<char>| #[trigger] bindings_map(w).contains_key(n) implies bindings_map(
        w,
    )[n] == m[n] by {
        if n == name@ {
            lemma_value_at(w, vars.len() as int);
        } else {
            let i = choose|i: int| 0 <= i < w.len() && (#[trigger] w[i]).0@ == n;
            lemma_value_at(w, i);
            lemma_value_at(vars, i);
        }
    }
    assert(bindings_map(w) =~= m);
}

pub proof fn lemma_set_binding(vars: Seq<(String, RuntimeValue)>, i: int, value: RuntimeValue)
    requires
        names_unique(vars),
        0 <= i < vars.len(),
    ensures
        names_unique(vars.update(i, (vars[i].0, value))),
        bindings_map(vars.update(i, (vars[i].0, value))) == bindings_map(vars).insert(
            vars[i].0@,
            value,
        ),
{
    let w = vars.update(i, (vars[i].0, value));
    let name = vars[i].0@;
    assert(names_unique(w)) by {
        assert forall|a: int, b: int|
            0 <= a < w.len() && 0 <= b < w.len() && (#[trigger] w[a]).0@ == (#[trigger] w[b]).0@ implies a
                == b by {
            assert(w[a].0@ == vars[a].0@);
            assert(w[b].0@ == vars[b].0@);
        }
    }
    let m = bindings_map(vars).insert(name, value);
    assert forall|n: Seq<char>| #[trigger] bindings_map(w).contains_key(n) == m.contains_key(n) by {
        if has_name(w, n) {
            let k = choose|k: int| 0 <= k < w.len() && (#[trigger] w[k]).0@ == n;
            assert(vars[k].0@ == n);
        }
        if has_name(vars, n) {
            let k = choose|k: int| 0 <= k < vars.len() && (#[trigger] vars[k]).0@ == n;
            assert(w[k].0@ == n);
        }
        assert(vars[i].0@ == name);
    }
    assert forall|n: Seq<char>| #[trigger] bindings_map(w).contains_key(n) implies bindings_map(
        w,
    )[n] == m[n] by {
        let k = choose|k: int| 0 <= k < w.len() && (#[trigger] w[k]).0@ == n;
        lemma_value_at(w, k);
        if k != i {
            lemma_value_at(vars, k);
        }
    }
    assert(bindings_map(w) =~= m);
}

impl Environment {
    /// The scope's bindings.
    pub closed spec fn view(&self) -> Map<Seq<char>, RuntimeValue> {
        bindings_map(self.variables@)
    }

    /// The names declared constant in this scope.
    pub closed spec fn constant_names(&self) -> Set<Seq<char>> {
        Set::new(|n: Seq<char>| exists|i: int| 0 <= i < self.constants@.len() && (
        #[trigger] self.constants@[i])@ == n)
    }

    pub closed spec fn parent_index(&self) -> Option<usize> {
        self.parent
    }

    /// Each name is bound once, and every constant name is bound.
    pub closed spec fn wf(&self) -> bool {
        &&& names_unique(self.variables@)
        &&& forall|i: int|
            0 <= i < self.constants@.len() ==> has_name(self.variables@, (#[trigger] self.constants@[i])@)
    }

    /// A scope nested in `parent`; the root scope (no parent) starts with
    /// the builtins, any other scope empty.
    pub fn new(parent_param: Option<usize>) -> (r: Environment)
        ensures
            r.wf(),
            r.parent_index() == parent_param,
            parent_param is Some ==> r@ == Map::<Seq<char>, RuntimeValue>::empty(),
            parent_param is Some ==> r.constant_names() == Set::<Seq<char>>::empty(),
            parent_param is None ==> r@ == builtins(),
            parent_param is None ==> r.constant_names() == builtins().dom(),
    {
        let mut env = Environment { parent: parent_param, variables: Vec::new(), constants: Vec::new() };
        assert(env@ =~= Map::<Seq<char>, RuntimeValue>::empty());
        assert(env.constant_names() =~= Set::<Seq<char>>::empty());
        if parent_param.is_none() {
            setup_scope(&mut env);
        }
        env
    }

    /// Whether this scope is the root of its chain.
    pub fn is_global(&self) -> (r: bool)
        ensures
            r == (self.parent_index() is None),
    {
        self.parent.is_none()
    }

    pub fn get_parent(&self) -> (r: Option<usize>)
        ensures
            r == self.parent_index(),
    {
        self.parent
    }

    pub fn get_constants(&self) -> (r: &Vec<String>)
        ensures
            forall|n: Seq<char>| self.constant_names().contains(n) <==> exists|i: int|
                0 <= i < r@.len() && (#[trigger] r@[i])@ == n,
    {
        &self.constants
    }

    /// Whether `varname` is bound in this scope itself.
    pub fn has(&self, varname: &String) -> (r: bool)
        requires
            self.wf(),
        ensures
            r == self@.contains_key(varname@),
    {
        self.find(varname).is_some()
    }

    fn find(&self, varname: &String) -> (r: Option<usize>)
        requires
            self.wf(),
        ensures
            r is Some <==> self@.contains_key(varname@),
            r matches Some(i) ==> i < self.variables@.len() && self.variables@[i as int].0@
                == varname@ && self@[varname@] == self.variables@[i as int].1,
    {
        let mut i: usize = 0;
        while i < self.variables.len()
            invariant
                names_unique(self.variables@),
                i <= self.variables.len(),
                forall|k: int| 0 <= k < i ==> (#[trigger] self.variables@[k]).0@ != varname@,
            decreases self.variables.len() - i,
        {
            if self.variables[i].0 == *varname {
                proof {
                    lemma_value_at(self.variables@, i as int);
                }
                return Some(i);
            }
            i = i + 1;
        }
        None
    }

    /// The value bound to `varname` in this scope itself.
    pub fn get(&self, varname: &String) -> (r: Option<&RuntimeValue>)
        requires
            self.wf(),
        ensures
            r is Some <==> self@.contains_key(varname@),
            r matches Some(v) ==> *v == self@[varname@],
    {
        match self.find(varname) {
            Some(i) => Some(&self.variables[i].1),
            None => None,
        }
    }

    /// Whether `varname` is constant in this scope.
    pub fn is_constant(&self, varname: &String) -> (r: bool)
        ensures
            r == self.constant_names().contains(varname@),
    {
        let mut i: usize = 0;
        while i < self.constants.len()
            invariant
                i <= self.constants.len(),
                forall|k: int| 0 <= k < i ==> (#[trigger] self.constants@[k])@ != varname@,
            decreases self.constants.len() - i,
        {
            if self.constants[i] == *varname {
                return true;
            }
            i = i + 1;
        }
        false
    }

    /// Binds a new name in this scope; a name already bound here is a fatal
    /// error (a name of an enclosing scope may be shadowed).
    pub fn declare_var(&mut self, varname: String, value: RuntimeValue, constant: bool) -> (r:
        Result<RuntimeValue, FatalError>)
        requires
            old(self).wf(),
        ensures
            final(self).wf(),
            final(self).parent_index() == old(self).parent_index(),
            old(self)@.contains_key(varname@) ==> r == Err::<RuntimeValue, FatalError>(
                FatalError::AlreadyDeclared(varname),
            ) && *final(self) == *old(self),
            !old(self)@.contains_key(varname@) ==> r == Ok::<RuntimeValue, FatalError>(value)
                && final(self)@ == old(self)@.insert(varname@, value) && final(self).constant_names()
                == if constant {
                old(self).constant_names().insert(varname@)
            } else {
                old(self).constant_names()
            } && (final(self).constant_names().contains(varname@) <==> constant),
    {
        proof {
            if !self@.contains_key(varname@) {
                self.lemma_constants_bound(varname@);
            }
        }
        if self.has(&varname) {
            return Err(FatalError::AlreadyDeclared(varname));
        }
        let ghost old_constants = self.constant_names();
        if constant {
            self.constants.push(varname.clone());
            assert(self.constant_names() =~= old_constants.insert(varname@)) by {
                let n = self.constants@.len() - 1;
                assert(self.constants@[n]@ == varname@);
                assert forall|m: Seq<char>| self.constant_names().contains(m) implies old_constants.contains(m) || m == varname@ by {
                    let i = choose|i: int| 0 <= i < self.constants@.len() && (#[trigger] self.constants@[i])@ == m;
                    if i < n {
                        assert(old(self).constants@[i]@ == m);
                    }
                }
                assert forall|m: Seq<char>| old_constants.contains(m) implies self.constant_names().contains(m) by {
                    let i = choose|i: int| 0 <= i < old(self).constants@.len() && (#[trigger] old(self).constants@[i])@ == m;
                    assert(self.constants@[i]@ == m);
                }
            }
        }
        let result = value.clone_self();
        let ghost before = self.variables@;
        proof {
            assert(!has_name(self.variables@, varname@));
            lemma_push_binding(self.variables@, varname, value);
        }
        self.variables.push((varname, value));
        proof {
            assert forall|i: int| 0 <= i < self.constants@.len() implies has_name(
                self.variables@,
                (#[trigger] self.constants@[i])@,
            ) by {
                let c = self.constants@[i]@;
                if c == varname@ {
                    assert(self.variables@[before.len() as int].0@ == c);
                } else {
                    assert(i < old(self).constants@.len());
                    assert(old(self).constants@[i]@ == c);
                    let j = choose|j: int| 0 <= j < before.len() && (#[trigger] before[j]).0@ == c;
                    assert(self.variables@[j].0@ == c);
                }
            }
        }
        Ok(result)
    }

    /// Every constant name of a well-formed scope is bound in it.
    pub proof fn lemma_constants_bound(&self, name: Seq<char>)
        requires
            self.wf(),
            !self@.contains_key(name),
        ensures
            !self.constant_names().contains(name),
    {
        if self.constant_names().contains(name) {
            let i = choose|i: int| 0 <= i < self.constants@.len() && (#[trigger] self.constants@[i])@ == name;
            assert(has_name(self.variables@, self.constants@[i]@));
        }
    }

    /// Rebinds a name bound in this scope.
    fn set(&mut self, varname: &String, value: RuntimeValue)
        requires
            old(self).wf(),
            old(self)@.contains_key(varname@),
        ensures
            final(self).wf(),
            final(self).parent_index() == old(self).parent_index(),
            final(self).constant_names() == old(self).constant_names(),
            final(self)@ == old(self)@.insert(varname@, value),
    {
        let i = self.find(varname).unwrap();
        proof {
            lemma_set_binding(self.variables@, i as int, value);
        }
        let ghost before = self.variables@;
        let slot = &mut self.variables[i];
        slot.1 = value;
        assert(self.constant_names() =~= old(self).constant_names());
        assert forall|k: int| 0 <= k < self.constants@.len() implies has_name(
            self.variables@,
            (#[trigger] self.constants@[k])@,
        ) by {
            let c = self.constants@[k]@;
            assert(has_name(before, c));
            let j = choose|j: int| 0 <= j < before.len() && (#[trigger] before[j]).0@ == c;
            assert(self.variables@[j].0@ == c);
        }
    }
}

/// The bindings of the root scope.
pub open spec fn builtins() -> Map<Seq<char>, RuntimeValue> {
    map![
        "null"@ => RuntimeValue::Null(NullValue {  }),
        "true"@ => RuntimeValue::Boolean(BooleanValue { value: true }),
        "false"@ => RuntimeValue::Boolean(BooleanValue { value: false }),
        "print"@ => RuntimeValue::NativeFn(NativeFnValue { call: FunctionCall::Print }),
        "time"@ => RuntimeValue::NativeFn(NativeFnValue { call: FunctionCall::Time }),
        "sleep"@ => RuntimeValue::NativeFn(NativeFnValue { call: FunctionCall::Sleep }),
        "input"@ => RuntimeValue::NativeFn(NativeFnValue { call: FunctionCall::Input }),
        "exit"@ => RuntimeValue::NativeFn(NativeFnValue { call: FunctionCall::Exit }),
        "str"@ => RuntimeValue::NativeFn(NativeFnValue { call: FunctionCall::Str }),
        "int"@ => RuntimeValue::NativeFn(NativeFnValue { call: FunctionCall::Int }),
    ]
}

/// Declares the builtins, all constant, in an empty scope.
pub fn setup_scope(env: &mut Environment)
    requires
        old(env).wf(),
        old(env)@ == Map::<Seq<char>, RuntimeValue>::empty(),
        old(env).constant_names() == Set::<Seq<char>>::empty(),
    ensures
        final(env).wf(),
        final(env).parent_index() == old(env).parent_index(),
        final(env)@ == builtins(),
        final(env).constant_names() == builtins().dom(),
{
    proof {
        reveal_strlit("null");
        reveal_strlit("true");
        reveal_strlit("false");
        reveal_strlit("print");
        reveal_strlit("time");
        reveal_strlit("sleep");
        reveal_strlit("input");
        reveal_strlit("exit");
        reveal_strlit("str");
        reveal_strlit("int");
        assert("null"@[0] == 'n');
        assert("true"@[0] == 't');
        assert("false"@[0] == 'f');
        assert("print"@[0] == 'p');
        assert("time"@[0] == 't');
        assert("sleep"@[0] == 's');
        assert("input"@[0] == 'i');
        assert("exit"@[0] == 'e');
        assert("str"@[0] == 's');
        assert("int"@[0] == 'i');
        assert("true"@[1] == 'r');
        assert("time"@[1] == 'i');
        assert("null"@.len() == 4);
        assert("true"@.len() == 4);
        assert("false"@.len() == 5);
        assert("print"@.len() == 5);
        assert("time"@.len() == 4);
        assert("sleep"@.len() == 5);
        assert("input"@.len() == 5);
        assert("exit"@.len() == 4);
        assert("str"@.len() == 3);
        assert("int"@.len() == 3);
    }
    let ghost before = env@;
    assert(!env@.contains_key("null"@));
    let _ = env.declare_var(String::from_str("null"), RuntimeValue::Null(NullValue {  }), true);
    let ghost before = env@;
    assert(!env@.contains_key("true"@));
    let _ = env.declare_var(
        String::from_str("true"),
        RuntimeValue::Boolean(BooleanValue { value: true }),
        true,
    );
    let ghost before = env@;
    assert(!env@.contains_key("false"@));
    let _ = env.declare_var(
        String::from_str("false"),
        RuntimeValue::Boolean(BooleanValue { value: false }),
        true,
    );
    let ghost before = env@;
    assert(!env@.contains_key("print"@));
    let _ = env.declare_var(
        String::from_str("print"),
        RuntimeValue::NativeFn(NativeFnValue { call: FunctionCall::Print }),
        true,
    );
    let ghost before = env@;
    assert(!env@.contains_key("time"@));
    let _ = env.declare_var(
        String::from_str("time"),
        RuntimeValue::NativeFn(NativeFnValue { call: FunctionCall::Time }),
        true,
    );
    let ghost before = env@;
    assert(!env@.contains_key("sleep"@));
    let _ = env.declare_var(
        String::from_str("sleep"),
        RuntimeValue::NativeFn(NativeFnValue { call: FunctionCall::Sleep }),
        true,
    );
    let ghost before = env@;
    assert(!env@.contains_key("input"@));
    let _ = env.declare_var(
        String::from_str("input"),
        RuntimeValue::NativeFn(NativeFnValue { call: FunctionCall::Input }),
        true,
    );
    let ghost before = env@;
    assert(!env@.contains_key("exit"@));
    let _ = env.declare_var(
        String::from_str("exit"),
        RuntimeValue::NativeFn(NativeFnValue { call: FunctionCall::Exit }),
        true,
    );
    let ghost before = env@;
    assert(!env@.contains_key("str"@));
    let _ = env.declare_var(
        String::from_str("str"),
        RuntimeValue::NativeFn(NativeFnValue { call: FunctionCall::Str }),
        true,
    );
    let ghost before = env@;
    assert(!env@.contains_key("int"@));
    let _ = env.declare_var(
        String::from_str("int"),
        RuntimeValue::NativeFn(NativeFnValue { call: FunctionCall::Int }),
        true,
    );
    assert(env@ =~= builtins());
    assert(env.constant_names() =~= builtins().dom());
}

/// The innermost scope, from `env` outward, that binds `name`.
pub open spec fn resolve_in(scopes: Seq<Environment>, env: int, name: Seq<char>) -> Option<int>
    decreases env,
{
    if env < 0 || env >= scopes.len() {
        None
    } else if scopes[env]@.contains_key(name) {
        Some(env)
    } else {
        match scopes[env].parent_index() {
            Some(p) => if p < env {
                resolve_in(scopes, p as int, name)
            } else {
                None
            },
            None => None,
        }
    }
}

/// `next` is `prev` with `name` bound to `value`, and nothing else changed.
pub open spec fn rebinds(prev: Environment, next: Environment, name: Seq<char>, value: RuntimeValue) -> bool {
    &&& next.wf()
    &&& next@ == prev@.insert(name, value)
    &&& next.constant_names() == prev.constant_names()
    &&& next.parent_index() == prev.parent_index()
}

/// `next` differs from `prev` at most in scope `i`.
pub open spec fn others_unchanged(prev: Seq<Environment>, next: Seq<Environment>, i: int) -> bool {
    &&& next.len() == prev.len()
    &&& forall|j: int| 0 <= j < prev.len() && j != i ==> #[trigger] next[j] == prev[j]
}

/// All scopes of a program run, each naming its parent by index; a parent
/// always comes before its children, so every chain ends at a root.
#[derive(Debug)]
pub struct SharedEnvironment {
    scopes: Vec<Environment>,
}

impl SharedEnvironment {
    pub closed spec fn scopes(&self) -> Seq<Environment> {
        self.scopes@
    }

    pub open spec fn wf(&self) -> bool {
        forall|i: int|
            0 <= i < self.scopes().len() ==> (#[trigger] self.scopes()[i]).wf() && (
            self.scopes()[i].parent_index() matches Some(p) ==> p < i)
    }

    /// The scope chain starting with one root scope holding the builtins.
    pub fn new() -> (r: SharedEnvironment)
        ensures
            r.wf(),
            r.scopes().len() == 1,
            r.scopes()[0]@ == builtins(),
            r.scopes()[0].constant_names() == builtins().dom(),
            r.scopes()[0].parent_index() is None,
    {
        let root = Environment::new(None);
        let mut scopes: Vec<Environment> = Vec::new();
        scopes.push(root);
        SharedEnvironment { scopes }
    }

    pub fn len(&self) -> (r: usize)
        ensures
            r == self.scopes().len(),
    {
        self.scopes.len()
    }

    /// Opens an empty scope nested in `parent` and gives its index.
    pub fn push_scope(&mut self, parent: usize) -> (r: usize)
        requires
            old(self).wf(),
            parent < old(self).scopes().len(),
        ensures
            final(self).wf(),
            r == old(self).scopes().len(),
            final(self).scopes().len() == old(self).scopes().len() + 1,
            final(self).scopes().subrange(0, r as int) == old(self).scopes(),
            final(self).scopes()[r as int]@ == Map::<Seq<char>, RuntimeValue>::empty(),
            final(self).scopes()[r as int].constant_names() == Set::<Seq<char>>::empty(),
            final(self).scopes()[r as int].parent_index() == Some(parent),
    {
        let r = self.scopes.len();
        self.scopes.push(Environment::new(Some(parent)));
        assert(self.scopes().subrange(0, r as int) =~= old(self).scopes());
        r
    }

    /// Whether scope `env` is the root.
    pub fn is_global(&self, env: usize) -> (r: bool)
        requires
            env < self.scopes().len(),
        ensures
            r == (self.scopes()[env as int].parent_index() is None),
    {
        self.scopes[env].is_global()
    }

    /// The scope that binds `varname`, walking from `env` to the root.
    pub fn resolve(&self, env: usize, varname: &String) -> (r: Result<usize, FatalError>)
        requires
            self.wf(),
            env < self.scopes().len(),
        ensures
            match resolve_in(self.scopes(), env as int, varname@) {
                Some(i) => r matches Ok(k) && k as int == i,
                None => r matches Err(FatalError::UnresolvedVariable(s)) && s@ == varname@,
            },
    {
        let mut cur = env;
        loop
            invariant
                self.wf(),
                cur < self.scopes().len(),
                resolve_in(self.scopes(), cur as int, varname@) == resolve_in(
                    self.scopes(),
                    env as int,
                    varname@,
                ),
            decreases cur,
        {
            let scope = &self.scopes[cur];
            if scope.has(varname) {
                return Ok(cur);
            }
            match scope.get_parent() {
                Some(p) => {
                    cur = p;
                },
                None => {
                    return Err(FatalError::UnresolvedVariable(varname.clone()));
                },
            }
        }
    }

    /// The value of `varname` in the innermost scope from `env` outward
    /// that binds it.
    pub fn lookup_var(&self, env: usize, varname: &String) -> (r: Result<RuntimeValue, FatalError>)
        requires
            self.wf(),
            env < self.scopes().len(),
        ensures
            match resolve_in(self.scopes(), env as int, varname@) {
                Some(i) => r == Ok::<RuntimeValue, FatalError>(self.scopes()[i]@[varname@]),
                None => r matches Err(FatalError::UnresolvedVariable(s)) && s@ == varname@,
            },
    {
        proof {
            lemma_resolve_found(self.scopes(), env as int, varname@);
        }
        let i = match self.resolve(env, varname) {
            Ok(i) => i,
            Err(e) => {
                return Err(e);
            },
        };
        assert(self.scopes()[i as int]@.contains_key(varname@));
        match self.scopes[i].get(varname) {
            Some(v) => Ok(v.clone_self()),
            None => Err(FatalError::UnresolvedVariable(varname.clone())),
        }
    }

    /// Declares `varname` in scope `env` itself.
    pub fn declare_var(&mut self, env: usize, varname: String, value: RuntimeValue, constant: bool) -> (r:
        Result<RuntimeValue, FatalError>)
        requires
            old(self).wf(),
            env < old(self).scopes().len(),
        ensures
            final(self).wf(),
            old(self).scopes()[env as int]@.contains_key(varname@) ==> r == Err::<
                RuntimeValue,
                FatalError,
            >(FatalError::AlreadyDeclared(varname)) && final(self).scopes() == old(self).scopes(),
            !old(self).scopes()[env as int]@.contains_key(varname@) ==> r == Ok::<
                RuntimeValue,
                FatalError,
            >(value) && others_unchanged(old(self).scopes(), final(self).scopes(), env as int)
                && final(self).scopes()[env as int]@ == old(self).scopes()[env as int]@.insert(
                varname@,
                value,
            ) && final(self).scopes()[env as int].parent_index() == old(
                self,
            ).scopes()[env as int].parent_index() && final(self).scopes()[env as int].constant_names()
                == if constant {
                old(self).scopes()[env as int].constant_names().insert(varname@)
            } else {
                old(self).scopes()[env as int].constant_names()
            },
    {
        let slot = &mut self.scopes[env];
        let r = slot.declare_var(varname, value, constant);
        proof {
            assert(others_unchanged(old(self).scopes(), self.scopes(), env as int));
            if r is Err {
                assert(self.scopes() =~= old(self).scopes());
            }
        }
        r
    }

    /// Rebinds `varname` in the innermost scope from `env` outward that
    /// binds it; no binding is created.
    pub fn assign_var(&mut self, env: usize, varname: String, value: RuntimeValue) -> (r: Result<
        RuntimeValue,
        FatalError,
    >)
        requires
            old(self).wf(),
            env < old(self).scopes().len(),
        ensures
            final(self).wf(),
            match resolve_in(old(self).scopes(), env as int, varname@) {
                None => (r matches Err(FatalError::UnresolvedVariable(s)) && s@ == varname@)
                    && final(self).scopes() == old(self).scopes(),
                Some(i) => if old(self).scopes()[i].constant_names().contains(varname@) {
                    r == Err::<RuntimeValue, FatalError>(
                        FatalError::ConstantReassignment(varname),
                    ) && final(self).scopes() == old(self).scopes()
                } else {
                    r == Ok::<RuntimeValue, FatalError>(value) && others_unchanged(
                        old(self).scopes(),
                        final(self).scopes(),
                        i,
                    ) && rebinds(old(self).scopes()[i], final(self).scopes()[i], varname@, value)
                },
            },
            final(self).scopes().len() == old(self).scopes().len(),
            forall|k: int|
                0 <= k < old(self).scopes().len() ==> (#[trigger] final(self).scopes()[k])@.dom()
                    == old(self).scopes()[k]@.dom(),
    {
        proof {
            lemma_resolve_found(self.scopes(), env as int, varname@);
        }
        let i = match self.resolve(env, &varname) {
            Ok(i) => i,
            Err(e) => {
                return Err(e);
            },
        };
        assert(self.scopes()[i as int]@.contains_key(varname@));
        if self.scopes[i].is_constant(&varname) {
            return Err(FatalError::ConstantReassignment(varname));
        }
        let result = value.clone_self();
        let slot = &mut self.scopes[i];
        slot.set(&varname, value);
        proof {
            assert(others_unchanged(old(self).scopes(), self.scopes(), i as int));
            assert(self.scopes()[i as int]@.dom() =~= old(self).scopes()[i as int]@.dom());
        }
        Ok(result)
    }
}

pub proof fn lemma_resolve_found(scopes: Seq<Environment>, env: int, name: Seq<char>)
    ensures
        resolve_in(scopes, env, name) matches Some(i) ==> 0 <= i < scopes.len()
            && scopes[i]@.contains_key(name),
    decreases env,
{
    if 0 <= env < scopes.len() && !scopes[env]@.contains_key(name) {
        if let Some(p) = scopes[env].parent_index() {
            if p < env {
                lemma_resolve_found(scopes, p as int, name);
            }
        }
    }
}

/// Scopes `0..=env` of `b` are those of `a`: same bindings, same parents.
pub open spec fn same_up_to(a: Seq<Environment>, b: Seq<Environment>, env: int) -> bool {
    &&& env < a.len()
    &&& env < b.len()
    &&& forall|k: int|
        0 <= k <= env ==> (#[trigger] b[k])@ == a[k]@ && b[k].parent_index() == a[k].parent_index()
}

/// Block scoping: what a name resolves to from scope `env` depends only on
/// `env` and the scopes before it. A scope opened later (a block or call
/// nested inside) and everything declared there stays invisible from
/// `env`, also after the nested block has ended.
pub proof fn law_resolve_ignores_later_scopes(
    a: SharedEnvironment,
    b: SharedEnvironment,
    env: int,
    name: Seq<char>,
)
    requires
        a.wf(),
        b.wf(),
        0 <= env,
        same_up_to(a.scopes(), b.scopes(), env),
    ensures
        resolve_in(b.scopes(), env, name) == resolve_in(a.scopes(), env, name),
    decreases env,
{
    assert(b.scopes()[env]@ == a.scopes()[env]@);
    if !a.scopes()[env]@.contains_key(name) {
        if let Some(p) = a.scopes()[env].parent_index() {
            if p < env {
                assert(same_up_to(a.scopes(), b.scopes(), p as int));
                law_resolve_ignores_later_scopes(a, b, p as int, name);
            }
        }
    }
}

/// Shadowing: a name declared in a nested scope resolves there from that
/// scope, while the enclosing scope keeps resolving it as before.
pub proof fn law_declaration_shadows(
    a: SharedEnvironment,
    b: SharedEnvironment,
    inner: int,
    outer: int,
    name: Seq<char>,
    value: RuntimeValue,
)
    requires
        a.wf(),
        b.wf(),
        0 <= outer < inner < a.scopes().len(),
        others_unchanged(a.scopes(), b.scopes(), inner),
        b.scopes()[inner]@ == a.scopes()[inner]@.insert(name, value),
        b.scopes()[inner].parent_index() == a.scopes()[inner].parent_index(),
    ensures
        resolve_in(b.scopes(), inner, name) == Some(inner),
        b.scopes()[inner]@[name] == value,
        resolve_in(b.scopes(), outer, name) == resolve_in(a.scopes(), outer, name),
{
    assert(same_up_to(a.scopes(), b.scopes(), outer));
    law_resolve_ignores_later_scopes(a, b, outer, name);
}

/// Closures: from the scope of a call, whose parent is the scope the
/// function captured, a name resolves to a parameter of the call or else
/// exactly as it does from the captured scope, whatever scope the call was
/// made from.
pub proof fn law_call_scope_is_lexical(
    envs: SharedEnvironment,
    frame: int,
    captured: usize,
    name: Seq<char>,
)
    requires
        envs.wf(),
        0 <= frame < envs.scopes().len(),
        envs.scopes()[frame].parent_index() == Some(captured),
    ensures
        resolve_in(envs.scopes(), frame, name) == if envs.scopes()[frame]@.contains_key(name) {
            Some(frame)
        } else {
            resolve_in(envs.scopes(), captured as int, name)
        },
{
    assert(envs.scopes()[frame].wf());
}

/// Scopes only ever get added: a captured scope outlives the call that
/// created it, and every name it bound still resolves from it.
pub proof fn law_scopes_outlive_calls(a: SharedEnvironment, b: SharedEnvironment, env: int, name: Seq<char>)
    requires
        a.wf(),
        b.wf(),
        0 <= env < a.scopes().len(),
        b.scopes().len() >= a.scopes().len(),
        b.scopes().subrange(0, a.scopes().len() as int) == a.scopes(),
    ensures
        resolve_in(b.scopes(), env, name) == resolve_in(a.scopes(), env, name),
{
    assert forall|k: int| 0 <= k <= env implies #[trigger] b.scopes()[k] == a.scopes()[k] by {
        assert(b.scopes().subrange(0, a.scopes().len() as int)[k] == b.scopes()[k]);
    }
    law_resolve_ignores_later_scopes(a, b, env, name);
}

/// Constants and variables: once `name` is declared in scope `env`, it
/// resolves there from `env`; declared constant, an assignment from `env`
/// takes the constant (fatal) branch, and declared variable it rebinds the
/// name so that it reads back the new value.
pub proof fn law_declared_name_resolves_here(
    a: SharedEnvironment,
    b: SharedEnvironment,
    env: int,
    name: Seq<char>,
    value: RuntimeValue,
    constant: bool,
)
    requires
        a.wf(),
        b.wf(),
        0 <= env < a.scopes().len(),
        !a.scopes()[env]@.contains_key(name),
        others_unchanged(a.scopes(), b.scopes(), env),
        b.scopes()[env]@ == a.scopes()[env]@.insert(name, value),
        b.scopes()[env].constant_names() == if constant {
            a.scopes()[env].constant_names().insert(name)
        } else {
            a.scopes()[env].constant_names()
        },
    ensures
        resolve_in(b.scopes(), env, name) == Some(env),
        b.scopes()[env]@[name] == value,
        constant ==> b.scopes()[env].constant_names().contains(name),
{
}

/// An assignment reads back: after `name` is rebound to `value` in the
/// scope it resolved to from `env`, it still resolves there, to `value`.
pub proof fn law_assignment_reads_back(
    a: SharedEnvironment,
    b: SharedEnvironment,
    env: int,
    i: int,
    name: Seq<char>,
    value: RuntimeValue,
)
    requires
        a.wf(),
        b.wf(),
        0 <= env < a.scopes().len(),
        resolve_in(a.scopes(), env, name) == Some(i),
        others_unchanged(a.scopes(), b.scopes(), i),
        rebinds(a.scopes()[i], b.scopes()[i], name, value),
    ensures
        resolve_in(b.scopes(), env, name) == Some(i),
        b.scopes()[i]@[name] == value,
    decreases env,
{
    if env != i {
        assert(b.scopes()[env] == a.scopes()[env]);
        let p = a.scopes()[env].parent_index()->0;
        law_assignment_reads_back(a, b, p as int, i, name, value);
    }
}

} // verus!
