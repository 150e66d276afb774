use interpreter::environment::SharedEnvironment;
use interpreter::error::FatalError;
use interpreter::host::Host;
use interpreter::interpreter::{
    binary_operation, compare_values, eval_string_binary_expr, eval_string_numeric_binary_expr, run_source,
    Comparison,
};
use interpreter::parser::Parser;
use interpreter::values::{ListValue, NumberValue, RuntimeValue, StringValue};
use std::rc::Rc;

/// A host with IEEE-754 numbers that records what the program writes.
struct TestHost {
    output: String,
    reports: Vec<String>,
    input: Vec<String>,
}

impl TestHost {
    fn new() -> Self {
        TestHost { output: String::new(), reports: Vec::new(), input: Vec::new() }
    }
}

fn f(n: NumberValue) -> f64 {
    f64::from_bits(n.bits)
}

fn num(x: f64) -> NumberValue {
    NumberValue { bits: x.to_bits() }
}

impl Host for TestHost {
    fn parse_number(&self, text: &str) -> Option<NumberValue> {
        text.parse::<f64>().ok().map(num)
    }
    fn arithmetic(&self, operator: char, lhs: NumberValue, rhs: NumberValue) -> NumberValue {
        let (a, b) = (f(lhs), f(rhs));
        num(match operator {
            '+' => a + b,
            '-' => a - b,
            '*' => a * b,
            '/' => a / b,
            _ => a % b,
        })
    }
    fn number_equals(&self, lhs: NumberValue, rhs: NumberValue) -> bool {
        f(lhs) == f(rhs)
    }
    fn number_less(&self, lhs: NumberValue, rhs: NumberValue) -> bool {
        f(lhs) < f(rhs)
    }
    fn number_is_zero(&self, n: NumberValue) -> bool {
        f(n) == 0.0
    }
    fn number_text(&self, n: NumberValue) -> String {
        f(n).to_string()
    }
    fn repeat_count(&self, n: NumberValue) -> usize {
        f(n).floor() as usize
    }
    fn index_of(&self, n: NumberValue) -> i64 {
        f(n) as i64
    }
    fn write(&mut self, text: &str) {
        self.output.push_str(text);
    }
    fn read_line(&mut self) -> String {
        if self.input.is_empty() {
            String::new()
        } else {
            self.input.remove(0)
        }
    }
    fn now(&mut self) -> NumberValue {
        num(1.0)
    }
    fn sleep(&mut self, _seconds: NumberValue) {}
    fn exit(&mut self, _code: NumberValue) {}
    fn report(&mut self, message: &str) {
        self.reports.push(message.to_string());
    }
}

fn run_with(host: &mut TestHost, source: &str) -> Result<RuntimeValue, FatalError> {
    let mut envs = SharedEnvironment::new();
    let mut parser = Parser::new();
    run_source(host, &mut envs, &mut parser, source, 0, 2000)
}

fn run(source: &str) -> Result<RuntimeValue, FatalError> {
    run_with(&mut TestHost::new(), source)
}

fn number_of(v: &RuntimeValue) -> f64 {
    match v {
        RuntimeValue::Number(n) => f(*n),
        other => panic!("not a number: {:?}", other),
    }
}

fn text_of(v: &RuntimeValue) -> String {
    match v {
        RuntimeValue::String(s) => s.value.clone(),
        other => panic!("not a string: {:?}", other),
    }
}

fn bool_of(v: &RuntimeValue) -> bool {
    match v {
        RuntimeValue::Boolean(b) => b.value,
        other => panic!("not a boolean: {:?}", other),
    }
}

#[test]
fn precedence_multiplication_before_addition() {
    assert_eq!(number_of(&run("2 + 3 * 4").unwrap()), 14.0);
}

#[test]
fn precedence_parentheses() {
    assert_eq!(number_of(&run("(2 + 3) * 4").unwrap()), 20.0);
}

#[test]
fn precedence_comparison_looser_than_arithmetic() {
    assert!(bool_of(&run("1 < 2 == true").unwrap()));
    assert!(bool_of(&run("1 + 1 == 2").unwrap()));
}

#[test]
fn arithmetic_is_left_associative() {
    assert_eq!(number_of(&run("10 - 4 - 3").unwrap()), 3.0);
    assert_eq!(number_of(&run("7 % 4").unwrap()), 3.0);
    assert_eq!(number_of(&run("7 / 2").unwrap()), 3.5);
}

#[test]
fn division_by_zero_follows_ieee() {
    assert_eq!(number_of(&run("1 / 0").unwrap()), f64::INFINITY);
}

#[test]
fn scoping_block_variable_not_visible_after_block() {
    let r = run("if (true) { var y = 1; } y");
    assert!(matches!(r, Err(FatalError::UnresolvedVariable(ref n)) if n == "y"));
}

#[test]
fn scoping_redeclaration_in_same_block_is_fatal() {
    let r = run("if (true) { var y = 1; var y = 2; }");
    assert!(matches!(r, Err(FatalError::AlreadyDeclared(ref n)) if n == "y"));
}

#[test]
fn scoping_shadowing_in_nested_block() {
    let r = run("var y = 1; if (true) { var y = 2; } y");
    assert_eq!(number_of(&r.unwrap()), 1.0);
}

#[test]
fn scoping_while_and_for_bodies() {
    assert!(matches!(
        run("var i = 0; while i < 2 { var z = i; i = i + 1; } z"),
        Err(FatalError::UnresolvedVariable(_))
    ));
    assert!(matches!(
        run("var x = 0; for x in [1, 2] { var w = x; } w"),
        Err(FatalError::UnresolvedVariable(_))
    ));
}

#[test]
fn closure_keeps_defining_scope() {
    let r = run("function make(n) { function inc() { return n + 1; } return inc; } var f = make(5); f();");
    assert_eq!(number_of(&r.unwrap()), 6.0);
}

#[test]
fn closure_is_lexical_not_dynamic() {
    let r = run("var n = 1; function get() { return n; } function call() { var n = 2; return get(); } call()");
    assert_eq!(number_of(&r.unwrap()), 1.0);
}

#[test]
fn constant_reassignment_is_fatal() {
    let r = run("const x = 1; x = 2;");
    assert!(matches!(r, Err(FatalError::ConstantReassignment(ref n)) if n == "x"));
}

#[test]
fn variable_reassignment_succeeds() {
    let r = run("var x = 1; x = 2; x");
    assert_eq!(number_of(&r.unwrap()), 2.0);
}

#[test]
fn list_index_last_and_first() {
    assert_eq!(number_of(&run("var l = [1, 2, 3]; l[0 - 1]").unwrap()), 3.0);
    assert_eq!(number_of(&run("var l = [1, 2, 3]; l[2]").unwrap()), 3.0);
    assert_eq!(number_of(&run("var l = [1, 2, 3]; l[0]").unwrap()), 1.0);
    assert_eq!(number_of(&run("var l = [1, 2, 3]; l[1.9]").unwrap()), 2.0);
}

#[test]
fn list_index_out_of_range_is_fatal() {
    assert!(matches!(run("var l = [1, 2, 3]; l[3]"), Err(FatalError::IndexOutOfRange)));
    assert!(matches!(run("var l = [1, 2, 3]; l[0 - 2]"), Err(FatalError::IndexOutOfRange)));
    assert!(matches!(run("var l = []; l[0 - 1]"), Err(FatalError::IndexOutOfRange)));
}

#[test]
fn list_index_direct() {
    let l = ListValue {
        elements: vec![
            RuntimeValue::String(StringValue { value: "a".to_string() }),
            RuntimeValue::String(StringValue { value: "b".to_string() }),
        ],
    };
    assert_eq!(text_of(&l.index(-1).unwrap()), "b");
    assert_eq!(text_of(&l.index(0).unwrap()), "a");
    assert!(matches!(l.index(2), Err(FatalError::IndexOutOfRange)));
    assert!(matches!(l.index(-2), Err(FatalError::IndexOutOfRange)));
}

#[test]
fn string_repetition() {
    assert_eq!(text_of(&run("\"ab\" * 3").unwrap()), "ababab");
    assert_eq!(text_of(&run("\"ab\" * 2.7").unwrap()), "abab");
    assert_eq!(text_of(&run("\"ab\" * 0").unwrap()), "");
}

#[test]
fn string_number_concatenation_keeps_order() {
    assert_eq!(text_of(&run("\"x\" + 5").unwrap()), "x5");
    assert_eq!(text_of(&run("5 + \"x\"").unwrap()), "5x");
    assert_eq!(text_of(&run("\"x\" + 2.5").unwrap()), "x2.5");
}

#[test]
fn string_concatenation() {
    assert_eq!(text_of(&run("\"ab\" + \"cd\"").unwrap()), "abcd");
}

#[test]
fn invalid_string_operator_reports_and_gives_empty() {
    let mut host = TestHost::new();
    let r = run_with(&mut host, "\"ab\" - \"a\"").unwrap();
    assert_eq!(text_of(&r), "");
    assert_eq!(host.reports.len(), 1);
    let mut host = TestHost::new();
    let r = run_with(&mut host, "\"ab\" - 1").unwrap();
    assert_eq!(text_of(&r), "");
    assert_eq!(host.reports.len(), 1);
}

#[test]
fn string_operations_direct() {
    let a = StringValue { value: "ab".to_string() };
    let b = StringValue { value: "cd".to_string() };
    assert_eq!(eval_string_binary_expr(&a, &b, &"+".to_string()).value, "abcd");
    assert_eq!(eval_string_binary_expr(&a, &b, &"*".to_string()).value, "");
    let five = "5".to_string();
    assert_eq!(eval_string_numeric_binary_expr(&a, &five, 5, false, &"+".to_string()).value, "ab5");
    assert_eq!(eval_string_numeric_binary_expr(&a, &five, 5, true, &"+".to_string()).value, "5ab");
    assert_eq!(eval_string_numeric_binary_expr(&a, &five, 2, false, &"*".to_string()).value, "abab");
    assert_eq!(eval_string_numeric_binary_expr(&a, &five, 2, false, &"/".to_string()).value, "");
}

#[test]
fn mixed_types_give_null() {
    assert!(matches!(run("true + 1").unwrap(), RuntimeValue::Null(_)));
}

#[test]
fn return_inside_nested_if_stops_the_function() {
    let r = run("function f() { if (true) { return 1; } return 2; } f()");
    assert_eq!(number_of(&r.unwrap()), 1.0);
}

#[test]
fn return_inside_loop_stops_the_function() {
    let r = run("function f() { var i = 0; while true { i = i + 1; if i == 3 { return i; } } return 0; } f()");
    assert_eq!(number_of(&r.unwrap()), 3.0);
    let r = run("function g() { var x = 0; for x in [1, 2, 3] { if x == 2 { return x * 10; } } return 0; } g()");
    assert_eq!(number_of(&r.unwrap()), 20.0);
}

#[test]
fn return_in_root_scope_is_fatal() {
    assert!(matches!(run("return 1;"), Err(FatalError::ReturnOutsideFunction)));
}

#[test]
fn function_value_is_last_statement_without_return() {
    let r = run("function f(a, b) { a * b } f(3, 4)");
    assert_eq!(number_of(&r.unwrap()), 12.0);
}

#[test]
fn recursion() {
    let r = run("function fib(n) { if n < 2 { return n; } return fib(n - 1) + fib(n - 2); } fib(10)");
    assert_eq!(number_of(&r.unwrap()), 55.0);
}

#[test]
fn equal_object_literals_are_equal() {
    assert!(bool_of(&run("var r = {a: 1, b: \"x\"} == {a: 1, b: \"x\"}; r").unwrap()));
    assert!(!bool_of(&run("var r = {a: 1} == {a: 2}; r").unwrap()));
    assert!(!bool_of(&run("var r = {a: 1} == {a: 1, b: 2}; r").unwrap()));
}

#[test]
fn functions_equal_only_with_same_captured_scope() {
    assert!(bool_of(&run("function f() { 1 } function g() { 2 } f == g").unwrap()));
    let r = run("function make() { function inner() { 1 } return inner; } var a = make(); var b = make(); a == b");
    assert!(!bool_of(&r.unwrap()));
    let r = run("function make() { function inner() { 1 } return inner; } var a = make(); a == a");
    assert!(bool_of(&r.unwrap()));
}

#[test]
fn different_types_are_never_equal() {
    assert!(!bool_of(&run("1 == \"1\"").unwrap()));
    assert!(bool_of(&run("1 != \"1\"").unwrap()));
    assert!(!bool_of(&run("1 < \"1\"").unwrap()));
    assert!(!bool_of(&run("1 >= \"1\"").unwrap()));
}

#[test]
fn ordering_non_numbers_is_fatal() {
    assert!(matches!(run("\"a\" < \"b\""), Err(FatalError::Unordered)));
}

#[test]
fn numeric_comparisons() {
    assert!(bool_of(&run("2 >= 2").unwrap()));
    assert!(bool_of(&run("2 <= 3").unwrap()));
    assert!(!bool_of(&run("2 > 3").unwrap()));
    assert!(bool_of(&run("null == null").unwrap()));
}

#[test]
fn compare_values_direct() {
    let host = TestHost::new();
    let a = RuntimeValue::String(StringValue { value: "a".to_string() });
    let one = RuntimeValue::Number(num(1.0));
    assert!(matches!(compare_values(&host, Comparison::NotEqual, &a, &one), Ok(true)));
    assert!(matches!(compare_values(&host, Comparison::Equal, &a, &one), Ok(false)));
    assert!(matches!(compare_values(&host, Comparison::Less, &a, &a), Err(FatalError::Unordered)));
}

#[test]
fn parsing_twice_evaluates_identically() {
    let source = "var a = {x: 1}; function f(y) { return a.x + y * 2; } f(3)";
    let mut parser = Parser::new();
    let first = parser.produce_ast(source).unwrap();
    let second = parser.produce_ast(source).unwrap();
    assert_eq!(format!("{:?}", first), format!("{:?}", second));
    let mut host = TestHost::new();
    let mut envs1 = SharedEnvironment::new();
    let mut envs2 = SharedEnvironment::new();
    let v1 = interpreter::interpreter::eval_program(&mut host, &mut envs1, &first, 0, 2000).unwrap();
    let v2 = interpreter::interpreter::eval_program(&mut host, &mut envs2, &second, 0, 2000).unwrap();
    assert_eq!(number_of(&v1), 7.0);
    assert_eq!(number_of(&v2), 7.0);
}

#[test]
fn object_member_read_and_copy_on_write() {
    assert_eq!(number_of(&run("var o = {a: 1, b: 2}; o.b").unwrap()), 2.0);
    assert_eq!(number_of(&run("var o = {a: 1}; o[\"a\"]").unwrap()), 1.0);
    let r = run("var a = {x: 1}; var b = a; b.x = 2; a.x");
    assert_eq!(number_of(&r.unwrap()), 1.0);
    let r = run("var a = {x: 1}; var b = a; b.x = 2; b.x");
    assert_eq!(number_of(&r.unwrap()), 2.0);
    let r = run("var a = {x: 1}; a[\"y\"] = 5; a.y");
    assert_eq!(number_of(&r.unwrap()), 5.0);
}

#[test]
fn object_shorthand_property() {
    assert_eq!(number_of(&run("var a = 4; var o = {a, b: 1}; o.a").unwrap()), 4.0);
}

#[test]
fn missing_property_is_fatal() {
    assert!(matches!(run("var o = {a: 1}; o.b"), Err(FatalError::MissingProperty(ref k)) if k == "b"));
}

#[test]
fn invalid_member_bases_are_fatal() {
    assert!(matches!(run("var n = 1; n.a"), Err(FatalError::InvalidMemberExpression)));
    assert!(matches!(run("var l = [1]; l.a"), Err(FatalError::InvalidMemberExpression)));
}

#[test]
fn invalid_assignment_target_is_fatal() {
    assert!(matches!(run("1 = 2"), Err(FatalError::InvalidAssignmentTarget)));
}

#[test]
fn arity_mismatch_is_fatal() {
    let r = run("function f(a) { a } f(1, 2)");
    assert!(matches!(r, Err(FatalError::ArityMismatch { expected: 1, found: 2 })));
}

#[test]
fn calling_a_non_function_is_fatal() {
    assert!(matches!(run("var x = 1; x()"), Err(FatalError::NotCallable)));
}

#[test]
fn while_loop_counts() {
    assert_eq!(number_of(&run("var i = 0; while i < 5 { i = i + 1; } i").unwrap()), 5.0);
}

#[test]
fn for_loop_sums_and_rebinds_in_enclosing_scope() {
    let r = run("var s = 0; var x = 0; for x in [1, 2, 3] { s = s + x; } s");
    assert_eq!(number_of(&r.unwrap()), 6.0);
    let r = run("var x = 0; for x in [1, 2, 3] { } x");
    assert_eq!(number_of(&r.unwrap()), 3.0);
    assert!(matches!(run("for x in 5 { }"), Err(FatalError::NotIterable)));
}

#[test]
fn else_if_chain() {
    let src = "var r = 0; var n = 2; if n == 1 { r = 10; } else if n == 2 { r = 20; } else { r = 30; } r";
    assert_eq!(number_of(&run(src).unwrap()), 20.0);
}

#[test]
fn print_writes_joined_texts() {
    let mut host = TestHost::new();
    let r = run_with(&mut host, "print(\"a\", 1, true, null)").unwrap();
    assert!(matches!(r, RuntimeValue::Null(_)));
    assert_eq!(host.output, "a 1 true null\n");
}

#[test]
fn str_renders_objects_and_lists() {
    assert_eq!(text_of(&run("str({a: 1, b: \"x\"})").unwrap()), "{\n    a: 1\n    b: x\n}");
    assert_eq!(text_of(&run("str([1, \"a\"])").unwrap()), "[1, a]");
    assert_eq!(text_of(&run("str({a: {b: 1}})").unwrap()), "{\n    a: {\n        b: 1\n    }\n}");
}

#[test]
fn int_converts_strings_and_numbers() {
    assert_eq!(number_of(&run("int(\"42\")").unwrap()), 42.0);
    assert_eq!(number_of(&run("int(7)").unwrap()), 7.0);
    assert!(matches!(run("int(\"abc\")"), Err(FatalError::InvalidNumber(_))));
    assert!(matches!(run("int(true)"), Err(FatalError::InvalidArgument(_))));
}

#[test]
fn input_strips_line_break() {
    let mut host = TestHost::new();
    host.input.push("hello\r\n".to_string());
    let r = run_with(&mut host, "input(\"? \")").unwrap();
    assert_eq!(text_of(&r), "hello");
    assert_eq!(host.output, "? ");
}

#[test]
fn sleep_checks_its_argument() {
    assert!(matches!(run("sleep(\"a\")"), Err(FatalError::InvalidArgument(_))));
    assert!(matches!(run("sleep()"), Err(FatalError::InvalidArgument(_))));
    assert!(matches!(run("sleep(0)").unwrap(), RuntimeValue::Null(_)));
}

#[test]
fn time_gives_a_number() {
    assert_eq!(number_of(&run("time()").unwrap()), 1.0);
}

#[test]
fn truthiness_in_conditions() {
    assert_eq!(number_of(&run("var r = 0; if \"\" { r = 1; } else { r = 2; } r").unwrap()), 2.0);
    assert_eq!(number_of(&run("var r = 0; if 0 { r = 1; } else { r = 2; } r").unwrap()), 2.0);
    assert_eq!(number_of(&run("var r = 0; if [0] { r = 1; } else { r = 2; } r").unwrap()), 1.0);
}

#[test]
fn deep_recursion_hits_the_depth_budget() {
    assert!(matches!(run("function f() { return f(); } f()"), Err(FatalError::DepthExceeded)));
}

#[test]
fn list_value_shared_by_reference_copy() {
    let l = Rc::new(ListValue { elements: vec![RuntimeValue::Number(num(2.0))] });
    let v = RuntimeValue::List(l);
    let w = v.clone_self();
    assert!(matches!(w, RuntimeValue::List(ref m) if m.elements.len() == 1));
}

#[test]
fn binary_operation_dispatches_on_operand_types() {
    let mut host = TestHost::new();
    let s = RuntimeValue::String(StringValue { value: "ab".to_string() });
    let n = RuntimeValue::Number(num(2.0));
    let t = RuntimeValue::Boolean(interpreter::values::BooleanValue { value: true });
    let plus = "+".to_string();
    let times = "*".to_string();
    assert_eq!(number_of(&binary_operation(&mut host, &n, &n, &times)), 4.0);
    assert_eq!(text_of(&binary_operation(&mut host, &s, &n, &times)), "abab");
    assert_eq!(text_of(&binary_operation(&mut host, &n, &s, &plus)), "2ab");
    assert_eq!(text_of(&binary_operation(&mut host, &s, &s, &plus)), "abab");
    assert!(matches!(binary_operation(&mut host, &t, &n, &plus), RuntimeValue::Null(_)));
    assert!(host.reports.is_empty());
}

#[test]
fn repl_scope_persists_between_programs() {
    let mut host = TestHost::new();
    let mut envs = SharedEnvironment::new();
    let mut parser = Parser::new();
    run_source(&mut host, &mut envs, &mut parser, "var a = 40;", 0, 2000).unwrap();
    let r = run_source(&mut host, &mut envs, &mut parser, "a + 2", 0, 2000).unwrap();
    assert_eq!(number_of(&r), 42.0);
}

#[test]
fn duplicate_keys_in_object_literal_keep_the_last_value() {
    assert_eq!(number_of(&run("var o = {a: 1, a: 2}; o.a").unwrap()), 2.0);
    assert_eq!(text_of(&run("str({a: 1, a: 2})").unwrap()), "{\n    a: 2\n}");
}

#[test]
fn for_over_empty_list_does_nothing() {
    assert!(matches!(run("for x in [] { print(1); } x"), Err(FatalError::UnresolvedVariable(_))));
}

#[test]
fn while_condition_false_at_start_runs_nothing() {
    let mut host = TestHost::new();
    let r = run_with(&mut host, "while false { print(1); } 5").unwrap();
    assert_eq!(number_of(&r), 5.0);
    assert_eq!(host.output, "");
}

#[test]
fn redeclaring_a_builtin_at_top_level_is_fatal() {
    assert!(matches!(run("var print = 1;"), Err(FatalError::AlreadyDeclared(_))));
}

#[test]
fn parameters_are_reassignable() {
    assert_eq!(number_of(&run("function f(a) { a = a + 1; return a; } f(1)").unwrap()), 2.0);
}

#[test]
fn callee_is_checked_before_the_arguments() {
    assert!(matches!(run("var x = \"a\"; x(missing)"), Err(FatalError::NotCallable)));
}

#[test]
fn list_of_strings_keeps_its_elements() {
    assert_eq!(text_of(&run("var s = \"b\"; str([\"a\", s])").unwrap()), "[a, b]");
}

#[test]
fn for_loop_variable_must_be_bound() {
    assert!(matches!(run("for y in [1] { }"), Err(FatalError::UnresolvedVariable(ref n)) if n == "y"));
    assert!(matches!(run("const y = 0; for y in [1] { }"), Err(FatalError::ConstantReassignment(_))));
}
