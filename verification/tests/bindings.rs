use rust_tinynix::grammar::{read_integer, scan_class, skip_blanks, CharClass};
use rust_tinynix::parser::{apply_prefix_ops, insert_at_path, string_from_parts, NixParser};
use rust_tinynix::text::{chars_of, decimal_text, string_of};
use rust_tinynix::{Bindings, NixExpr, NixStringPart, NixUnaryOp, NixValue};

fn num(i: i64) -> NixExpr {
    NixExpr::Value(NixValue::Int(i))
}

fn keys(b: &Bindings) -> Vec<String> {
    let mut out = Vec::new();
    let mut i = 0;
    while let Some((k, _)) = b.get_index(i) {
        out.push(k.clone());
        i += 1;
    }
    out
}

fn path(names: &[&str]) -> Vec<String> {
    names.iter().map(|n| n.to_string()).collect()
}

#[test]
fn insert_appends_new_keys_and_overwrites_in_place() {
    let mut b = Bindings::new();
    assert_eq!(b.len(), 0);
    assert_eq!(b.insert("a".to_string(), num(1)), None);
    assert_eq!(b.insert("b".to_string(), num(2)), None);
    assert_eq!(b.insert("a".to_string(), num(3)), Some(num(1)));
    assert_eq!(b.len(), 2);
    assert_eq!(keys(&b), vec!["a".to_string(), "b".to_string()]);
    assert_eq!(b.get("a"), Some(&num(3)));
    assert_eq!(b.get("b"), Some(&num(2)));
    assert_eq!(b.get("c"), None);
    assert_eq!(b.get_index(1), Some((&"b".to_string(), &num(2))));
    assert_eq!(b.get_index(2), None);
}

#[test]
fn clone_keeps_entries_and_order() {
    let mut b = Bindings::new();
    b.insert("z".to_string(), num(1));
    b.insert("a".to_string(), NixExpr::List(vec![num(2), NixExpr::Ref("r".to_string())]));
    let c = b.clone();
    assert_eq!(c, b);
    assert_eq!(keys(&c), vec!["z".to_string(), "a".to_string()]);
    b.insert("q".to_string(), num(0));
    assert_eq!(c.len(), 2);
}

#[test]
fn insert_at_path_makes_nested_sets() {
    let mut b = Bindings::new();
    assert!(insert_at_path(&mut b, &path(&["a", "b", "c"]), 0, num(1)));
    assert!(insert_at_path(&mut b, &path(&["a", "d"]), 0, num(2)));
    assert!(insert_at_path(&mut b, &path(&["e"]), 0, num(3)));
    assert!(insert_at_path(&mut b, &path(&["x", "a", "b", "c"]), 1, num(4)));
    assert_eq!(keys(&b), vec!["a".to_string(), "e".to_string()]);
    match b.get("a") {
        Some(NixExpr::AttrSet { bindings, recursive }) => {
            assert!(!recursive);
            assert_eq!(keys(bindings), vec!["b".to_string(), "d".to_string()]);
            match bindings.get("b") {
                Some(NixExpr::AttrSet { bindings: inner, .. }) => {
                    assert_eq!(inner.get("c"), Some(&num(4)))
                }
                other => panic!("unexpected {:?}", other),
            }
        }
        other => panic!("unexpected {:?}", other),
    }
}

#[test]
fn insert_at_path_reports_a_conflict_and_changes_nothing() {
    let mut b = Bindings::new();
    assert!(insert_at_path(&mut b, &path(&["a", "b"]), 0, num(1)));
    assert!(insert_at_path(&mut b, &path(&["k"]), 0, num(5)));
    let before = b.clone();
    assert!(!insert_at_path(&mut b, &path(&["k", "x"]), 0, num(2)));
    assert!(!insert_at_path(&mut b, &path(&["a", "b", "c"]), 0, num(2)));
    assert_eq!(b, before);
    assert_eq!(keys(&b), keys(&before));
}

#[test]
fn prefix_operators_apply_from_the_operand_outwards() {
    let e = apply_prefix_ops(&vec![NixUnaryOp::Not, NixUnaryOp::Neg], num(1));
    assert_eq!(
        e,
        NixExpr::UnaryOp {
            op: NixUnaryOp::Not,
            expr: Box::new(NixExpr::UnaryOp { op: NixUnaryOp::Neg, expr: Box::new(num(1)) }),
        }
    );
    assert_eq!(apply_prefix_ops(&vec![], num(1)), num(1));
}

#[test]
fn single_literal_part_collapses() {
    assert_eq!(
        string_from_parts(vec![NixStringPart::Literal("a".to_string())]),
        NixExpr::Value(NixValue::String("a".to_string()))
    );
    let two = vec![NixStringPart::Literal("a".to_string()), NixStringPart::Literal("b".to_string())];
    assert_eq!(string_from_parts(two.clone()), NixExpr::InterpolatedString(two));
    let one = vec![NixStringPart::Interpolation(Box::new(num(1)))];
    assert_eq!(string_from_parts(one.clone()), NixExpr::InterpolatedString(one));
    assert_eq!(string_from_parts(vec![]), NixExpr::InterpolatedString(vec![]));
}

#[test]
fn names_split_at_dots() {
    let p = NixParser::new("a.bc.d", "/", None);
    assert_eq!(p.len(), 6);
    assert_eq!(p.split_name(0, 6), path(&["a", "bc", "d"]));
    assert_eq!(p.split_name(2, 4), path(&["bc"]));
    assert_eq!(p.split_name(1, 2), path(&["", ""]));
}

#[test]
fn characters_and_texts() {
    let chars = chars_of("héllo");
    assert_eq!(chars, vec!['h', 'é', 'l', 'l', 'o']);
    assert_eq!(string_of(&chars, 1, 4), "éll");
    assert_eq!(string_of(&chars, 2, 2), "");
}

#[test]
fn numbers_in_decimal() {
    assert_eq!(decimal_text(0), "0");
    assert_eq!(decimal_text(7), "7");
    assert_eq!(decimal_text(10), "10");
    assert_eq!(decimal_text(9075), "9075");
    assert_eq!(decimal_text(usize::MAX), usize::MAX.to_string());
}

#[test]
fn scanning() {
    let chars = chars_of("12ab  # c\n x");
    assert_eq!(scan_class(&chars, 0, CharClass::Digit), 2);
    assert_eq!(scan_class(&chars, 0, CharClass::Ident), 4);
    assert_eq!(scan_class(&chars, 2, CharClass::Digit), 2);
    assert_eq!(skip_blanks(&chars, 4), 11);
    assert_eq!(skip_blanks(&chars, 11), 11);
    assert_eq!(read_integer(&chars, 0, 2), Some(12));
    assert_eq!(read_integer(&chars, 0, 0), Some(0));
    let big = chars_of("9223372036854775808");
    assert_eq!(read_integer(&big, 0, 19), None);
    assert_eq!(read_integer(&big, 0, 18), Some(922337203685477580));
}
