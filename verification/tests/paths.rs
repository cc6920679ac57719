use rust_tinynix::parser::parse_with_home;
use rust_tinynix::equality::{floats_are_same, values_are_same};
use rust_tinynix::path::{join_paths, path_is_absolute, path_names, paths_are_same, resolve_path};
use rust_tinynix::text::chars_of;
use rust_tinynix::{NixExpr, NixFloat, NixValue, ParseError, ParseErrorKind, Rule};
use std::path::PathBuf;

fn path_of(input: &str, root: &str, home: Option<&str>) -> String {
    match parse_with_home(input, root, home) {
        Ok(NixExpr::Value(NixValue::Path(p))) => p,
        other => panic!("not a path: {:?}", other),
    }
}

#[test]
fn relative_path_is_taken_from_the_root() {
    assert_eq!(
        parse_with_home("./x", "/proj", None),
        Ok(NixExpr::Value(NixValue::Path("/proj/x".to_string())))
    );
    let p = path_of("./x", "/proj", None);
    assert_eq!(p, "/proj/./x");
    assert_eq!(PathBuf::from(p), PathBuf::from("/proj/x"));
    assert_eq!(path_of("../piconix", "/proj", None), "/proj/../piconix");
    assert_eq!(path_of("./src/main.rs", "/proj/", None), "/proj/./src/main.rs");
    assert_eq!(path_of("./x", "", None), "./x");
}

#[test]
fn absolute_path_is_unchanged() {
    assert_eq!(
        parse_with_home("/abs", "/proj", None),
        Ok(NixExpr::Value(NixValue::Path("/abs".to_string())))
    );
    assert_eq!(path_of("/abs", "/proj", None), "/abs");
    assert_eq!(path_of("/bin", "rel", Some("/home/me")), "/bin");
    assert_eq!(path_of("/", "/proj", None), "/");
}

#[test]
fn home_path_is_taken_from_the_home_directory() {
    assert_eq!(path_of("~/.", "/proj", Some("/home/me")), "/home/me/.");
    assert_eq!(path_of("~/a/b", "/proj", Some("/home/me/")), "/home/me/a/b");
    assert_eq!(path_of("~/", "/proj", Some("/home/me")), "/home/me/");
    assert_eq!(path_of("~/x", "/proj", Some("me")), "/proj/me/x");
    assert_eq!(path_of("~//etc", "/proj", Some("/home/me")), "/etc");
}

#[test]
fn home_path_without_a_home_is_an_error() {
    assert_eq!(
        parse_with_home(" ~/x", "/proj", None),
        Err(ParseError { kind: ParseErrorKind::NoHomeDirectory, rule: Rule::Path, position: 1 })
    );
}

#[test]
fn malformed_paths() {
    for input in ["~x", "~", ".x", ".", "..", "..x"] {
        assert_eq!(
            parse_with_home(input, "/proj", Some("/h")),
            Err(ParseError { kind: ParseErrorKind::Syntax, rule: Rule::Path, position: 0 }),
            "{}",
            input
        );
    }
}

#[test]
fn path_ends_where_its_characters_end() {
    match parse_with_home("[ ./a+b-c_d.e /x ]", "/r", None) {
        Ok(NixExpr::List(items)) => assert_eq!(
            items,
            vec![
                NixExpr::Value(NixValue::Path("/r/./a+b-c_d.e".to_string())),
                NixExpr::Value(NixValue::Path("/x".to_string())),
            ]
        ),
        other => panic!("unexpected {:?}", other),
    }
}

#[test]
fn joining_paths() {
    assert_eq!(join_paths("/a", "b"), "/a/b");
    assert_eq!(join_paths("/a/", "b"), "/a/b");
    assert_eq!(join_paths("/a", "/b"), "/b");
    assert_eq!(join_paths("", "b"), "b");
    assert_eq!(join_paths("/a", ""), "/a/");
    assert_eq!(join_paths("a", "b/c"), "a/b/c");
    for (base, rel) in [("/a", "b"), ("/a/", "b"), ("/a", "/b"), ("", "b"), ("/a", ""), ("a", "./c")]
    {
        assert_eq!(PathBuf::from(join_paths(base, rel)), PathBuf::from(base).join(rel));
    }
}

#[test]
fn absolute_paths_start_with_a_slash() {
    assert!(path_is_absolute("/"));
    assert!(path_is_absolute("/a"));
    assert!(!path_is_absolute(""));
    assert!(!path_is_absolute("a/b"));
    assert!(!path_is_absolute("./a"));
}

#[test]
fn resolving_path_texts() {
    assert_eq!(resolve_path("x", "/proj", None), Some("/proj/x".to_string()));
    assert_eq!(resolve_path("/x", "/proj", None), Some("/x".to_string()));
    assert_eq!(resolve_path("~/x", "/proj", Some("/h")), Some("/h/x".to_string()));
    assert_eq!(resolve_path("~/x", "/proj", None), None);
    assert_eq!(resolve_path("~x", "/proj", None), Some("/proj/~x".to_string()));
}

#[test]
fn names_of_a_path() {
    let names = |p: &str| -> Vec<String> {
        path_names(&chars_of(p)).into_iter().map(|n| n.into_iter().collect()).collect()
    };
    assert_eq!(names("/proj/./x"), ["proj", "x"]);
    assert_eq!(names("a//b/"), ["a", "b"]);
    assert_eq!(names("./a/../b"), ["a", "..", "b"]);
    assert_eq!(names("/"), Vec::<String>::new());
    assert_eq!(names(""), Vec::<String>::new());
    assert_eq!(names("..."), ["..."]);
    assert_eq!(names(".a/b."), [".a", "b."]);
}

#[test]
fn paths_are_compared_by_what_they_name() {
    let spellings = [
        "", ".", "/", "//", "a", "./a", "a/", "a/.", "a//b", "a/b", "a/./b", "/a/b", "/a//b/",
        "/a/./b/.", "/a/../b", "/b", "..", "../", "./..", "/.", "/./a", "/a", ".a", "a.", "...",
        "/proj/./x", "/proj/x", "~/x", "ab", "a/b/c",
    ];
    for a in spellings {
        for b in spellings {
            assert_eq!(paths_are_same(a, b), PathBuf::from(a) == PathBuf::from(b), "{:?} {:?}", a, b);
        }
    }
    assert!(paths_are_same("/proj/./x", "/proj/x"));
    assert!(!paths_are_same("/proj/../x", "/proj/x"));
    assert!(!paths_are_same("./x", "x"));
    assert!(!paths_are_same("/x", "x"));
}

#[test]
fn values_are_compared_by_what_they_hold() {
    let path = |p: &str| NixValue::Path(p.to_string());
    let string = |p: &str| NixValue::String(p.to_string());
    assert!(values_are_same(&path("/a/./b"), &path("/a/b")));
    assert_eq!(path("/a/./b"), path("/a/b"));
    assert_ne!(path("/a/../b"), path("/b"));
    assert_ne!(string("/a/./b"), string("/a/b"));
    assert_ne!(string("/a"), path("/a"));
    assert_eq!(string("a"), string("a"));
    assert_eq!(NixValue::Int(3), NixValue::Int(3));
    assert_ne!(NixValue::Int(3), NixValue::Int(4));
    assert_ne!(NixValue::Int(1), NixValue::Bool(true));
    assert_eq!(NixValue::Null, NixValue::Null);
    assert_ne!(NixValue::Null, NixValue::Bool(false));
    assert_eq!(NixValue::Bool(true), NixValue::Bool(true));
    assert_ne!(NixValue::Bool(true), NixValue::Bool(false));
}

#[test]
fn floats_are_compared_by_their_record() {
    let lit = |t: &str| NixFloat::Literal(t.to_string());
    let sum = |a: NixFloat, b: NixFloat| NixFloat::Add(Box::new(a), Box::new(b));
    let diff = |a: NixFloat, b: NixFloat| NixFloat::Sub(Box::new(a), Box::new(b));
    assert!(floats_are_same(&lit("2.5"), &lit("2.5")));
    assert!(!floats_are_same(&lit("2.5"), &lit("2.50")));
    assert_eq!(sum(NixFloat::FromInt(1), lit("2.5")), sum(NixFloat::FromInt(1), lit("2.5")));
    assert_ne!(sum(NixFloat::FromInt(1), lit("2.5")), sum(NixFloat::FromInt(2), lit("2.5")));
    assert_ne!(sum(lit("1.0"), lit("2.5")), diff(lit("1.0"), lit("2.5")));
    assert_eq!(NixFloat::Neg(Box::new(lit("1.0"))), NixFloat::Neg(Box::new(lit("1.0"))));
    assert_ne!(NixFloat::Neg(Box::new(lit("1.0"))), lit("1.0"));
    assert_ne!(NixFloat::FromInt(1), lit("1"));
}
