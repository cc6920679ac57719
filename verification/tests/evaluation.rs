use rust_tinynix::eval::{apply_binary_op, apply_unary_op, extend};
use rust_tinynix::parser::parse_with_home;
use rust_tinynix::{
    nix_eval, Bindings, EvaluationError, NixBinaryOp, NixExpr, NixFloat, NixStringPart,
    NixUnaryOp, NixValue, Scope,
};

fn read(input: &str) -> NixExpr {
    parse_with_home(input, "/proj", Some("/home/me")).expect("input parses")
}

fn run(input: &str) -> Result<NixExpr, EvaluationError> {
    nix_eval(&read(input), &Scope::new())
}

fn run_in(input: &str, scope: &Scope) -> Result<NixExpr, EvaluationError> {
    nix_eval(&read(input), scope)
}

fn num(i: i64) -> NixExpr {
    NixExpr::Value(NixValue::Int(i))
}

fn text(s: &str) -> NixExpr {
    NixExpr::Value(NixValue::String(s.to_string()))
}

fn boolean(b: bool) -> NixExpr {
    NixExpr::Value(NixValue::Bool(b))
}

fn bind(entries: Vec<(&str, NixExpr)>) -> Bindings {
    let mut b = Bindings::new();
    for (k, v) in entries {
        b.insert(k.to_string(), v);
    }
    b
}

fn entries(b: &Bindings) -> Vec<(String, NixExpr)> {
    let mut out = Vec::new();
    let mut i = 0;
    while let Some((k, v)) = b.get_index(i) {
        out.push((k.clone(), v.clone()));
        i += 1;
    }
    out
}

fn number(f: &NixFloat) -> f64 {
    match f {
        NixFloat::Literal(t) => t.parse::<f64>().expect("float text"),
        NixFloat::FromInt(i) => *i as f64,
        NixFloat::Neg(a) => -number(a),
        NixFloat::Add(a, b) => number(a) + number(b),
        NixFloat::Sub(a, b) => number(a) - number(b),
    }
}

fn float_of(e: Result<NixExpr, EvaluationError>) -> f64 {
    match e {
        Ok(NixExpr::Value(NixValue::Float(f))) => number(&f),
        other => panic!("not a float: {:?}", other),
    }
}

fn mismatch(msg: &str) -> Result<NixExpr, EvaluationError> {
    Err(EvaluationError::TypeMismatch(msg.to_string()))
}

fn unsupported(msg: &str) -> Result<NixExpr, EvaluationError> {
    Err(EvaluationError::UnsupportedOperation(msg.to_string()))
}

#[test]
fn negated_literal_evaluates_to_a_negative_integer() {
    assert_eq!(run("-42"), Ok(num(-42)));
    assert_eq!(run("--42"), Ok(num(42)));
}

#[test]
fn values_evaluate_to_themselves() {
    for input in
        ["1", "2.5", "true", "null", "\"s\"", "/abs", "./rel", "<nixpkgs>", "[ 1 [ 2 ] ]", "{ a = 1; b = { c = [ ]; }; }", "rec { a = 1; }"]
    {
        let e = read(input);
        assert_eq!(nix_eval(&e, &Scope::new()), Ok(e.clone()), "{}", input);
        assert_eq!(nix_eval(&e, &bind(vec![("a", num(9))])), Ok(e), "{}", input);
    }
}

#[test]
fn evaluation_is_idempotent() {
    let scope = bind(vec![("x", num(3)), ("s", text("t"))]);
    for input in ["x + 1", "[ x s ]", "{ a = x; b = \"${s}!\"; }", "let y = x; in [ y ]"] {
        let once = run_in(input, &scope).expect("evaluates");
        assert_eq!(nix_eval(&once, &scope), Ok(once.clone()), "{}", input);
    }
}

#[test]
fn let_shadows_and_sees_earlier_bindings() {
    assert_eq!(run("let x = 1; in let x = x + 1; in x"), Ok(num(2)));
    assert_eq!(run("let a = 1; b = a + 1; c = b + a; in c"), Ok(num(3)));
    assert_eq!(run("let x = 5; in x"), Ok(num(5)));
}

#[test]
fn let_does_not_see_later_bindings() {
    assert_eq!(
        run("let a = b; b = 1; in a"),
        Err(EvaluationError::UndefinedVariable("b".to_string()))
    );
}

#[test]
fn let_leaves_the_scope_of_the_caller_alone() {
    let scope = bind(vec![("x", num(1))]);
    assert_eq!(run_in("let x = 2; y = 3; in x + y", &scope), Ok(num(5)));
    assert_eq!(entries(&scope), vec![("x".to_string(), num(1))]);
}

#[test]
fn inner_with_wins() {
    assert_eq!(run("with { a = 1; }; with { a = 2; }; a"), Ok(num(2)));
    assert_eq!(run("with { a = 1; b = 2; }; with { a = 3; }; a + b"), Ok(num(5)));
    assert_eq!(run("let a = 1; in with { a = 2; }; a"), Ok(num(2)));
    assert_eq!(run("with let x = 5; in { a = x; b = x; }; a"), Ok(num(5)));
}

#[test]
fn with_needs_an_attribute_set() {
    assert_eq!(
        run("with 1; 2"),
        mismatch("Expression in 'with' must evaluate to an attribute set.")
    );
    assert_eq!(
        run("with [ ]; 2"),
        mismatch("Expression in 'with' must evaluate to an attribute set.")
    );
}

#[test]
fn with_evaluates_its_environment_first() {
    assert_eq!(
        run("with { a = missing; }; 1"),
        Err(EvaluationError::UndefinedVariable("missing".to_string()))
    );
}

#[test]
fn escaped_interpolation_evaluates_to_its_text() {
    assert_eq!(run("\"''${foo}\""), Ok(text("${foo}")));
}

#[test]
fn interpolation_takes_strings_from_the_scope() {
    let scope = bind(vec![("foo", text("bar")), ("n", num(1))]);
    assert_eq!(run_in("\"${foo}\"", &scope), Ok(text("bar")));
    assert_eq!(run_in("\"hello ${foo}, ${foo + \"!\"}\"", &scope), Ok(text("hello bar, bar!")));
    assert_eq!(run_in("\"${n}\"", &scope), mismatch("Expected a string for interpolation."));
    assert_eq!(
        run_in("\"a ${nope} ${n}\"", &scope),
        Err(EvaluationError::UndefinedVariable("nope".to_string()))
    );
    assert_eq!(run("\"\""), Ok(text("")));
    assert_eq!(
        nix_eval(
            &NixExpr::InterpolatedString(vec![NixStringPart::Literal("only".to_string())]),
            &Scope::new()
        ),
        Ok(text("only"))
    );
}

#[test]
fn addition() {
    assert_eq!(run("1 + 2"), Ok(num(3)));
    assert_eq!(float_of(run("1 + 2.5")), 3.5);
    assert_eq!(float_of(run("2.5 + 1")), 3.5);
    assert_eq!(float_of(run("0.1 + 0.2")), 0.1 + 0.2);
    assert_eq!(run("\"a\" + \"b\""), Ok(text("ab")));
    assert_eq!(run("1 + \"a\""), unsupported("Addition is not supported for these types."));
    assert_eq!(run("\"a\" + 1"), unsupported("Addition is not supported for these types."));
    assert_eq!(run("true + true"), unsupported("Addition is not supported for these types."));
    assert_eq!(run("[ ] + [ ]"), unsupported("Addition is not supported for these types."));
    assert_eq!(run("/a + /b"), unsupported("Addition is not supported for these types."));
}

#[test]
fn subtraction() {
    assert_eq!(run("5 - 7"), Ok(num(-2)));
    assert_eq!(run("10 - 3 - 2"), Ok(num(5)));
    assert_eq!(float_of(run("5 + 2 - 10.2")), 5.0 + 2.0 - 10.2);
    assert_eq!(float_of(run("1.5 - 1")), 0.5);
    assert_eq!(float_of(run("1 - 1.5")), -0.5);
    assert_eq!(float_of(run("2.5 - 1.25")), 1.25);
    assert_eq!(run("\"a\" - \"b\""), unsupported("Subtraction is not supported for these types."));
    assert_eq!(run("null - 1"), unsupported("Subtraction is not supported for these types."));
    assert_eq!(run("{ } - 1"), unsupported("Subtraction is not supported for these types."));
}

#[test]
fn float_results_record_their_operands() {
    assert_eq!(
        run("1 + 2.5"),
        Ok(NixExpr::Value(NixValue::Float(NixFloat::Add(
            Box::new(NixFloat::FromInt(1)),
            Box::new(NixFloat::Literal("2.5".to_string()))
        ))))
    );
    assert_eq!(
        run("-2.7"),
        Ok(NixExpr::Value(NixValue::Float(NixFloat::Neg(Box::new(NixFloat::Literal(
            "2.7".to_string()
        ))))))
    );
    assert_eq!(float_of(run("-2.7")), -2.7);
}

#[test]
fn integer_arithmetic_wraps_around() {
    assert_eq!(run("9223372036854775807 + 1"), Ok(num(i64::MIN)));
    assert_eq!(run("-9223372036854775807 - 2"), Ok(num(i64::MAX)));
    assert_eq!(apply_unary_op(NixUnaryOp::Neg, num(i64::MIN)), Ok(num(i64::MIN)));
    assert_eq!(apply_binary_op(NixBinaryOp::Sub, num(i64::MIN), num(1)), Ok(num(i64::MAX)));
}

#[test]
fn negation() {
    assert_eq!(run("!true"), Ok(boolean(false)));
    assert_eq!(run("!!true"), Ok(boolean(true)));
    assert_eq!(run("-true"), mismatch("Cannot negate a non-numeric value."));
    assert_eq!(run("-\"a\""), mismatch("Cannot negate a non-numeric value."));
    assert_eq!(run("!1"), mismatch("Cannot perform logical negation on a non-boolean value."));
    assert_eq!(run("-[ ]"), mismatch("Cannot perform unary operation on a non-value."));
    assert_eq!(run("!{ }"), mismatch("Cannot perform unary operation on a non-value."));
}

#[test]
fn operands_are_evaluated_left_to_right() {
    assert_eq!(run("a + b"), Err(EvaluationError::UndefinedVariable("a".to_string())));
    assert_eq!(run("1 + b"), Err(EvaluationError::UndefinedVariable("b".to_string())));
    assert_eq!(run("-true + b"), mismatch("Cannot negate a non-numeric value."));
}

#[test]
fn unbound_name_is_reported_by_name() {
    assert_eq!(run("nope"), Err(EvaluationError::UndefinedVariable("nope".to_string())));
    assert_eq!(run("a.b"), Err(EvaluationError::UndefinedVariable("a.b".to_string())));
    let scope = bind(vec![("a", num(1))]);
    assert_eq!(run_in("a", &scope), Ok(num(1)));
    assert_eq!(run_in("b", &scope), Err(EvaluationError::UndefinedVariable("b".to_string())));
    assert_eq!(run_in("A", &scope), Err(EvaluationError::UndefinedVariable("A".to_string())));
}

#[test]
fn dotted_names_are_looked_up_whole() {
    let scope = bind(vec![("cfg.enable", boolean(true))]);
    assert_eq!(run_in("{ inherit (cfg) enable; }", &scope), Ok(NixExpr::AttrSet {
        recursive: false,
        bindings: bind(vec![("enable", boolean(true))]),
    }));
}

#[test]
fn lists_keep_order_and_length() {
    let scope = bind(vec![("x", num(7))]);
    assert_eq!(run_in("[ x 1 x ]", &scope), Ok(NixExpr::List(vec![num(7), num(1), num(7)])));
    assert_eq!(run("[ ]"), Ok(NixExpr::List(vec![])));
    assert_eq!(run("[ 1 a b ]"), Err(EvaluationError::UndefinedVariable("a".to_string())));
}

#[test]
fn attribute_sets_see_only_the_outer_scope() {
    let scope = bind(vec![("x", num(7))]);
    match run_in("{ b = x; a = \"s\"; }", &scope) {
        Ok(NixExpr::AttrSet { recursive, bindings }) => {
            assert!(!recursive);
            assert_eq!(entries(&bindings), vec![("b".to_string(), num(7)), ("a".to_string(), text("s"))]);
        }
        other => panic!("unexpected {:?}", other),
    }
    assert_eq!(run("{ a = 1; b = a; }"), Err(EvaluationError::UndefinedVariable("a".to_string())));
    assert_eq!(
        run("rec { a = 1; b = a; }"),
        Err(EvaluationError::UndefinedVariable("a".to_string()))
    );
    match run("rec { a = 1; }") {
        Ok(NixExpr::AttrSet { recursive, .. }) => assert!(recursive),
        other => panic!("unexpected {:?}", other),
    }
}

#[test]
fn references_return_what_the_scope_holds() {
    let held = NixExpr::Ref("other".to_string());
    let scope = bind(vec![("x", held.clone())]);
    assert_eq!(run_in("x", &scope), Ok(held));
}

#[test]
fn extending_a_scope_overwrites_and_appends() {
    let scope = bind(vec![("a", num(1)), ("b", num(2))]);
    let more = bind(vec![("c", num(3)), ("a", num(4))]);
    let out = extend(&scope, &more);
    assert_eq!(
        entries(&out),
        vec![("a".to_string(), num(4)), ("b".to_string(), num(2)), ("c".to_string(), num(3))]
    );
    assert_eq!(entries(&scope), vec![("a".to_string(), num(1)), ("b".to_string(), num(2))]);
}
