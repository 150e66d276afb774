use interpreter::environment::{Environment, SharedEnvironment};
use interpreter::error::FatalError;
use interpreter::values::{BooleanValue, NullValue, NumberValue, RuntimeValue, StringValue};

fn text(s: &str) -> RuntimeValue {
    RuntimeValue::String(StringValue { value: s.to_string() })
}

fn as_text(v: &RuntimeValue) -> String {
    match v {
        RuntimeValue::String(s) => s.value.clone(),
        other => panic!("not a string: {:?}", other),
    }
}

#[test]
fn root_scope_holds_builtins_as_constants() {
    let env = Environment::new(None);
    assert!(env.is_global());
    for name in ["null", "true", "false", "print", "time", "sleep", "input", "exit", "str", "int"] {
        assert!(env.has(&name.to_string()), "{}", name);
        assert!(env.is_constant(&name.to_string()), "{}", name);
    }
    assert!(matches!(env.get(&"true".to_string()), Some(RuntimeValue::Boolean(BooleanValue { value: true }))));
    assert!(matches!(env.get(&"null".to_string()), Some(RuntimeValue::Null(NullValue {}))));
    assert_eq!(env.get_constants().len(), 10);
}

#[test]
fn nested_scope_starts_empty() {
    let env = Environment::new(Some(0));
    assert!(!env.is_global());
    assert!(!env.has(&"print".to_string()));
    assert!(env.get_constants().is_empty());
}

#[test]
fn declare_twice_in_one_scope_is_fatal() {
    let mut env = Environment::new(Some(0));
    assert!(env.declare_var("x".to_string(), text("a"), false).is_ok());
    let r = env.declare_var("x".to_string(), text("b"), false);
    assert!(matches!(r, Err(FatalError::AlreadyDeclared(ref n)) if n == "x"));
    assert_eq!(as_text(env.get(&"x".to_string()).unwrap()), "a");
}

#[test]
fn lookup_walks_to_the_innermost_binding() {
    let mut envs = SharedEnvironment::new();
    let outer = envs.push_scope(0);
    let inner = envs.push_scope(outer);
    envs.declare_var(outer, "x".to_string(), text("outer"), false).unwrap();
    assert_eq!(as_text(&envs.lookup_var(inner, &"x".to_string()).unwrap()), "outer");
    envs.declare_var(inner, "x".to_string(), text("inner"), false).unwrap();
    assert_eq!(as_text(&envs.lookup_var(inner, &"x".to_string()).unwrap()), "inner");
    assert_eq!(as_text(&envs.lookup_var(outer, &"x".to_string()).unwrap()), "outer");
    assert_eq!(envs.resolve(inner, &"print".to_string()).unwrap(), 0);
}

#[test]
fn unresolved_name_is_fatal() {
    let envs = SharedEnvironment::new();
    let r = envs.lookup_var(0, &"missing".to_string());
    assert!(matches!(r, Err(FatalError::UnresolvedVariable(ref n)) if n == "missing"));
}

#[test]
fn assignment_rebinds_in_the_declaring_scope() {
    let mut envs = SharedEnvironment::new();
    let outer = envs.push_scope(0);
    let inner = envs.push_scope(outer);
    envs.declare_var(outer, "x".to_string(), text("a"), false).unwrap();
    envs.assign_var(inner, "x".to_string(), text("b")).unwrap();
    assert_eq!(as_text(&envs.lookup_var(outer, &"x".to_string()).unwrap()), "b");
    let r = envs.assign_var(inner, "y".to_string(), text("c"));
    assert!(matches!(r, Err(FatalError::UnresolvedVariable(_))));
}

#[test]
fn assignment_to_constant_is_fatal() {
    let mut envs = SharedEnvironment::new();
    let scope = envs.push_scope(0);
    envs.declare_var(scope, "k".to_string(), RuntimeValue::Number(NumberValue { bits: 1.0f64.to_bits() }), true)
        .unwrap();
    let r = envs.assign_var(scope, "k".to_string(), text("x"));
    assert!(matches!(r, Err(FatalError::ConstantReassignment(ref n)) if n == "k"));
    let r = envs.assign_var(scope, "print".to_string(), text("x"));
    assert!(matches!(r, Err(FatalError::ConstantReassignment(_))));
}

#[test]
fn global_only_for_the_root() {
    let mut envs = SharedEnvironment::new();
    let child = envs.push_scope(0);
    assert!(envs.is_global(0));
    assert!(!envs.is_global(child));
}

#[test]
fn value_type_names() {
    let v = RuntimeValue::Boolean(BooleanValue { value: false });
    assert_eq!(v.get_type().name(), "bool");
    assert_eq!(text("x").get_type().name(), "string");
    assert_eq!(RuntimeValue::Null(NullValue {}).get_type().name(), "null");
}
