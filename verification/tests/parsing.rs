use rust_tinynix::parser::{parse, parse_with_home};
use rust_tinynix::{
    nix_str, Bindings, NixBinaryOp, NixExpr, NixFloat, NixStringPart, NixUnaryOp, NixValue,
    ParseError, ParseErrorKind, Rule,
};

fn read(input: &str) -> NixExpr {
    parse_with_home(input, "/proj", Some("/home/me")).expect("input parses")
}

fn fails(input: &str) -> ParseError {
    parse_with_home(input, "/proj", Some("/home/me")).expect_err("input is rejected")
}

fn num(i: i64) -> NixExpr {
    NixExpr::Value(NixValue::Int(i))
}

fn text(s: &str) -> NixExpr {
    NixExpr::Value(NixValue::String(s.to_string()))
}

fn name(s: &str) -> NixExpr {
    NixExpr::Ref(s.to_string())
}

fn set(recursive: bool, entries: Vec<(&str, NixExpr)>) -> NixExpr {
    NixExpr::AttrSet { recursive, bindings: bind(entries) }
}

fn bind(entries: Vec<(&str, NixExpr)>) -> Bindings {
    let mut b = Bindings::new();
    for (k, v) in entries {
        b.insert(k.to_string(), v);
    }
    b
}

fn keys(b: &Bindings) -> Vec<String> {
    let mut out = Vec::new();
    let mut i = 0;
    while let Some((k, _)) = b.get_index(i) {
        out.push(k.clone());
        i += 1;
    }
    out
}

fn binary(op: NixBinaryOp, left: NixExpr, right: NixExpr) -> NixExpr {
    NixExpr::BinaryOp { op, left: Box::new(left), right: Box::new(right) }
}

fn unary(op: NixUnaryOp, expr: NixExpr) -> NixExpr {
    NixExpr::UnaryOp { op, expr: Box::new(expr) }
}

#[test]
fn float_literal_keeps_its_text() {
    let e = read("3.2121");
    assert_eq!(e, NixExpr::Value(NixValue::Float(NixFloat::Literal("3.2121".to_string()))));
    match e {
        NixExpr::Value(NixValue::Float(NixFloat::Literal(t))) => {
            assert_eq!(t.parse::<f64>().unwrap(), 3.2121)
        }
        other => panic!("not a float: {:?}", other),
    }
}

#[test]
fn negative_integer_is_a_negation() {
    assert_eq!(read("-42"), unary(NixUnaryOp::Neg, num(42)));
}

#[test]
fn integers_booleans_and_null() {
    assert_eq!(read("0"), num(0));
    assert_eq!(read("007"), num(7));
    assert_eq!(read("9223372036854775807"), num(i64::MAX));
    assert_eq!(read("true"), NixExpr::Value(NixValue::Bool(true)));
    assert_eq!(read("false"), NixExpr::Value(NixValue::Bool(false)));
    assert_eq!(read("null"), NixExpr::Value(NixValue::Null));
}

#[test]
fn integer_above_the_maximum_is_rejected() {
    assert_eq!(
        fails(" 9223372036854775808"),
        ParseError { kind: ParseErrorKind::IntegerOverflow, rule: Rule::Integer, position: 1 }
    );
    assert_eq!(fails("99999999999999999999999999").kind, ParseErrorKind::IntegerOverflow);
}

#[test]
fn names_are_references() {
    assert_eq!(read("foo"), name("foo"));
    assert_eq!(read("_a1"), name("_a1"));
    assert_eq!(read("a.b.c"), name("a.b.c"));
    assert_eq!(read("truex"), name("truex"));
    assert_eq!(read("true.x"), name("true.x"));
}

#[test]
fn reserved_words_are_no_references() {
    for word in ["in", "inherit"] {
        assert_eq!(
            fails(word),
            ParseError { kind: ParseErrorKind::Syntax, rule: Rule::AtomicExpr, position: 0 }
        );
    }
    assert_eq!(fails("1 + let").rule, Rule::AtomicExpr);
    assert_eq!(fails("1 + with").position, 4);
}

#[test]
fn infix_operators_fold_to_the_left() {
    assert_eq!(
        read("a - b - c"),
        binary(NixBinaryOp::Sub, binary(NixBinaryOp::Sub, name("a"), name("b")), name("c"))
    );
    assert_eq!(
        read("1+2-3"),
        binary(NixBinaryOp::Sub, binary(NixBinaryOp::Add, num(1), num(2)), num(3))
    );
}

#[test]
fn prefix_operators_nest_inside_out() {
    assert_eq!(read("--x"), unary(NixUnaryOp::Neg, unary(NixUnaryOp::Neg, name("x"))));
    assert_eq!(read("!!x"), unary(NixUnaryOp::Not, unary(NixUnaryOp::Not, name("x"))));
    assert_eq!(read("-!x"), unary(NixUnaryOp::Neg, unary(NixUnaryOp::Not, name("x"))));
    assert_eq!(read("! - x"), unary(NixUnaryOp::Not, unary(NixUnaryOp::Neg, name("x"))));
    assert_eq!(
        read("a - -b"),
        binary(NixBinaryOp::Sub, name("a"), unary(NixUnaryOp::Neg, name("b")))
    );
}

#[test]
fn plain_string_is_a_value() {
    assert_eq!(read("\"hello world\""), text("hello world"));
    assert_eq!(read("\" a\\nb \""), text(" a\\nb "));
}

#[test]
fn empty_string_has_no_parts() {
    assert_eq!(read("\"\""), NixExpr::InterpolatedString(vec![]));
}

#[test]
fn escapes_in_strings() {
    assert_eq!(read("\"\\\"\""), text("\""));
    assert_eq!(read("\"$\""), text("$"));
    assert_eq!(read("\"'\""), text("'"));
    assert_eq!(
        read("\"a\\\"b\""),
        NixExpr::InterpolatedString(vec![
            NixStringPart::Literal("a".to_string()),
            NixStringPart::Literal("\"".to_string()),
            NixStringPart::Literal("b".to_string()),
        ])
    );
    assert_eq!(
        read("\"cost: $5 '\""),
        NixExpr::InterpolatedString(vec![
            NixStringPart::Literal("cost: ".to_string()),
            NixStringPart::Literal("$".to_string()),
            NixStringPart::Literal("5 ".to_string()),
            NixStringPart::Literal("'".to_string()),
        ])
    );
}

#[test]
fn escaped_interpolation_is_literal() {
    assert_eq!(
        read("\"''${foo}\""),
        NixExpr::InterpolatedString(vec![
            NixStringPart::Literal("${".to_string()),
            NixStringPart::Literal("foo}".to_string()),
        ])
    );
}

#[test]
fn interpolation_holds_an_expression() {
    assert_eq!(
        read("\"${foo}\""),
        NixExpr::InterpolatedString(vec![NixStringPart::Interpolation(Box::new(name("foo")))])
    );
    assert_eq!(
        read("\"hello ${ a + \"x\" }!\""),
        NixExpr::InterpolatedString(vec![
            NixStringPart::Literal("hello ".to_string()),
            NixStringPart::Interpolation(Box::new(binary(NixBinaryOp::Add, name("a"), text("x")))),
            NixStringPart::Literal("!".to_string()),
        ])
    );
}

#[test]
fn unterminated_string_and_interpolation() {
    assert_eq!(
        fails("\"abc"),
        ParseError { kind: ParseErrorKind::Syntax, rule: Rule::String, position: 4 }
    );
    assert_eq!(
        fails("\"${a \""),
        ParseError { kind: ParseErrorKind::Syntax, rule: Rule::Interpolation, position: 5 }
    );
}

#[test]
fn lists_hold_atoms() {
    assert_eq!(read("[]"), NixExpr::List(vec![]));
    assert_eq!(
        read("[ 1 2 3 \"four\" true null x ]"),
        NixExpr::List(vec![
            num(1),
            num(2),
            num(3),
            text("four"),
            NixExpr::Value(NixValue::Bool(true)),
            NixExpr::Value(NixValue::Null),
            name("x"),
        ])
    );
    assert_eq!(read("[[1] {}]"), NixExpr::List(vec![NixExpr::List(vec![num(1)]), set(false, vec![])]));
    assert_eq!(
        fails("[ 1 - 2 ]"),
        ParseError { kind: ParseErrorKind::Syntax, rule: Rule::AtomicExpr, position: 4 }
    );
    assert_eq!(fails("[ 1").position, 3);
}

#[test]
fn attribute_sets() {
    assert_eq!(read("{}"), set(false, vec![]));
    assert_eq!(read("rec { }"), set(true, vec![]));
    assert_eq!(read("{ a = 1; b = x; }"), set(false, vec![("a", num(1)), ("b", name("x"))]));
    assert_eq!(read("{ a = 1; a = 2; }"), set(false, vec![("a", num(2))]));
    assert_eq!(
        fails("rec 1"),
        ParseError { kind: ParseErrorKind::Syntax, rule: Rule::AttrSet, position: 4 }
    );
}

#[test]
fn dotted_paths_merge_into_nested_sets() {
    let e = read("{ a.b = 1; a.c = 2; }");
    assert_eq!(e, set(false, vec![("a", set(false, vec![("b", num(1)), ("c", num(2))]))]));
    match &e {
        NixExpr::AttrSet { bindings, .. } => match bindings.get("a") {
            Some(NixExpr::AttrSet { bindings: inner, recursive }) => {
                assert!(!recursive);
                assert_eq!(keys(inner), vec!["b".to_string(), "c".to_string()]);
            }
            other => panic!("unexpected {:?}", other),
        },
        other => panic!("unexpected {:?}", other),
    }
}

#[test]
fn swapped_dotted_paths_change_only_the_nested_order() {
    let e = read("{ a.c = 2; a.b = 1; }");
    match &e {
        NixExpr::AttrSet { bindings, .. } => {
            assert_eq!(keys(bindings), vec!["a".to_string()]);
            match bindings.get("a") {
                Some(NixExpr::AttrSet { bindings: inner, .. }) => {
                    assert_eq!(keys(inner), vec!["c".to_string(), "b".to_string()]);
                    assert_eq!(inner.get("b"), Some(&num(1)));
                    assert_eq!(inner.get("c"), Some(&num(2)));
                }
                other => panic!("unexpected {:?}", other),
            }
        }
        other => panic!("unexpected {:?}", other),
    }
}

#[test]
fn dotted_paths_keep_siblings_and_order() {
    let e = read("{ x = 1; a.b.c = 2; y = 3; a.b.d = 4; a.e = 5; }");
    assert_eq!(
        e,
        set(
            false,
            vec![
                ("x", num(1)),
                (
                    "a",
                    set(
                        false,
                        vec![("b", set(false, vec![("c", num(2)), ("d", num(4))])), ("e", num(5))]
                    )
                ),
                ("y", num(3)),
            ]
        )
    );
    match &e {
        NixExpr::AttrSet { bindings, .. } => {
            assert_eq!(keys(bindings), vec!["x".to_string(), "a".to_string(), "y".to_string()])
        }
        other => panic!("unexpected {:?}", other),
    }
}

#[test]
fn dotted_path_into_a_written_set_keeps_its_flag() {
    assert_eq!(
        read("{ a = rec { b = 1; }; a.c = 2; }"),
        set(false, vec![("a", set(true, vec![("b", num(1)), ("c", num(2))]))])
    );
}

#[test]
fn dotted_path_through_a_value_is_a_conflict() {
    assert_eq!(
        fails("{ a = 1; a.b = 2; }"),
        ParseError { kind: ParseErrorKind::AttributePathConflict, rule: Rule::Binding, position: 9 }
    );
    assert_eq!(fails("{ a.b = 1; a.b.c = 2; }").kind, ParseErrorKind::AttributePathConflict);
}

#[test]
fn inherit_binds_references() {
    assert_eq!(
        read("{ inherit user group; }"),
        set(false, vec![("user", name("user")), ("group", name("group"))])
    );
    assert_eq!(
        read("{ inherit (config.services.myService) enable configFile; }"),
        set(
            false,
            vec![
                ("enable", name("config.services.myService.enable")),
                ("configFile", name("config.services.myService.configFile")),
            ]
        )
    );
    assert_eq!(read("{ inherit; }"), set(false, vec![]));
    assert_eq!(read("{ a = 1; inherit a; }"), set(false, vec![("a", name("a"))]));
}

#[test]
fn malformed_inherit() {
    assert_eq!(
        fails("{ inherit a.b; }"),
        ParseError { kind: ParseErrorKind::Syntax, rule: Rule::InheritBinding, position: 11 }
    );
    assert_eq!(fails("{ inherit (1) a; }").position, 11);
    assert_eq!(fails("{ inherit (s a; }").rule, Rule::InheritBinding);
}

#[test]
fn malformed_bindings() {
    assert_eq!(
        fails("{ a 1; }"),
        ParseError { kind: ParseErrorKind::Syntax, rule: Rule::Binding, position: 4 }
    );
    assert_eq!(
        fails("{ a = 1 }"),
        ParseError { kind: ParseErrorKind::Syntax, rule: Rule::Binding, position: 8 }
    );
    assert_eq!(
        fails("{ 1 = 1; }"),
        ParseError { kind: ParseErrorKind::Syntax, rule: Rule::Binding, position: 2 }
    );
    assert_eq!(fails("{ a = 1;").position, 8);
}

#[test]
fn let_blocks() {
    assert_eq!(
        read("let x = 5; in x"),
        NixExpr::LetIn { bindings: bind(vec![("x", num(5))]), body: Box::new(name("x")) }
    );
    assert_eq!(
        read("let in 1"),
        NixExpr::LetIn { bindings: bind(vec![]), body: Box::new(num(1)) }
    );
    assert_eq!(
        read("let a.b = 1; inherit c; in a"),
        NixExpr::LetIn {
            bindings: bind(vec![("a", set(false, vec![("b", num(1))])), ("c", name("c"))]),
            body: Box::new(name("a")),
        }
    );
    assert_eq!(read("letter"), name("letter"));
    assert_eq!(fails("let x = 1;").rule, Rule::Binding);
}

#[test]
fn with_expressions() {
    assert_eq!(
        read("with { a = 1; }; a"),
        NixExpr::With {
            environment: Box::new(set(false, vec![("a", num(1))])),
            body: Box::new(name("a")),
        }
    );
    assert_eq!(
        read("with let x = 5; in { a = x; }; a"),
        NixExpr::With {
            environment: Box::new(NixExpr::LetIn {
                bindings: bind(vec![("x", num(5))]),
                body: Box::new(set(false, vec![("a", name("x"))])),
            }),
            body: Box::new(name("a")),
        }
    );
    assert_eq!(
        fails("with a b"),
        ParseError { kind: ParseErrorKind::Syntax, rule: Rule::WithExpr, position: 7 }
    );
}

#[test]
fn search_paths_stay_unresolved() {
    assert_eq!(read("<nixpkgs>"), NixExpr::SearchPath("nixpkgs".to_string()));
    assert_eq!(read("<a/b-c.d>"), NixExpr::SearchPath("a/b-c.d".to_string()));
    assert_eq!(
        fails("<>"),
        ParseError { kind: ParseErrorKind::Syntax, rule: Rule::SearchPath, position: 1 }
    );
    assert_eq!(fails("<abc").position, 4);
}

#[test]
fn blanks_and_comments_are_skipped() {
    assert_eq!(
        read("  # a comment\n{ a = 1; # another\n\t b = 2 ;\r\n} # end"),
        set(false, vec![("a", num(1)), ("b", num(2))])
    );
    assert_eq!(read("1 # + 2"), num(1));
}

#[test]
fn nothing_may_follow_the_expression() {
    assert_eq!(
        fails("1 2"),
        ParseError { kind: ParseErrorKind::Syntax, rule: Rule::Source, position: 2 }
    );
    assert_eq!(fails("a.").position, 1);
    assert_eq!(fails("1.").rule, Rule::Source);
    assert_eq!(
        fails(""),
        ParseError { kind: ParseErrorKind::Syntax, rule: Rule::AtomicExpr, position: 0 }
    );
    assert_eq!(fails("   ").position, 3);
    assert_eq!(fails("@").rule, Rule::AtomicExpr);
}

#[test]
fn positions_count_characters() {
    assert_eq!(fails("\"é\" 1").position, 4);
}

#[test]
fn messages_name_kind_position_and_rule() {
    assert_eq!(fails("1 2").message(), "syntax error at position 2 in rule source");
    assert_eq!(
        fails("{ a = 1; a.b = 2; }").message(),
        "attribute path conflicts with an existing value at position 9 in rule binding"
    );
    assert_eq!(
        nix_str("[ 1 2", "/proj"),
        Err("syntax error at position 5 in rule atomic_expr".to_string())
    );
    assert_eq!(
        nix_str("123456789012345678901234567890", "/"),
        Err("integer literal out of range at position 0 in rule integer".to_string())
    );
    assert_eq!(nix_str("{ a.b = 1; }", "/proj"), Ok(read("{ a.b = 1; }")));
}

#[test]
fn parse_takes_the_home_of_the_user() {
    assert_eq!(parse("[ 1 2 ]", "/proj"), Ok(read("[ 1 2 ]")));
    let home = home::home_dir().map(|p| p.to_string_lossy().into_owned());
    assert_eq!(parse("~/x", "/proj"), parse_with_home("~/x", "/proj", home.as_deref()));
}
