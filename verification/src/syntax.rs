//! The grammar of the language, as functions from the input and a position
//! to what is matched there.
//!
//! ```text
//! source     = expression, then nothing but blanks and comments
//! expression = "let" binding* "in" expression
//!            | "with" expression ";" expression
//!            | term (("+" | "-") term)*
//! term       = ("-" | "!")* atom
//! atom       = float | integer | "true" | "false" | "null" | string | path
//!            | "<" name ">" | "[" atom* "]" | "rec"? "{" binding* "}" | name
//! binding    = name "=" expression ";"
//!            | "inherit" ("(" name ")")? word* ";"
//! ```
//!
//! A `name` is one or more words joined by dots. Blanks and `#` comments may
//! stand between any two tokens. Both infix operators bind equally and
//! associate to the left; prefix operators bind tighter.

use crate::ast::{ExprView, FloatView, NixBinaryOp, NixUnaryOp, PartView, ValueView};
use crate::bindings::{insert_entry, lookup, Entries};
use crate::grammar::{
    carry, decimal_value, dotted_end, is_digit, is_ident_start, lemma_dotted_end_bounds,
    lemma_plain_end_bounds, lemma_scan_bounds, lemma_skip_trivia_bounds, plain_end, progress, scan,
    skip_blank, syntax, CharClass, Failure, ParseErrorKind, Parsed, Rule,
};
use crate::path::resolve;
use vstd::prelude::*;

verus! {

/// Where relative path literals start from.
pub struct PathEnv {
    /// The directory that relative paths are taken from.
    pub root: Seq<char>,
    /// The home directory, where one is known.
    pub home: Option<Seq<char>>,
}

/// What ends a run of bindings.
#[derive(Debug, Clone, Copy, PartialEq, Eq)]
pub enum Closer {
    /// `}`, at the end of an attribute set.
    Brace,
    /// `in`, at the end of the bindings of a `let` block.
    In,
}

/// The characters of `s` from `from` up to `to`.
pub open spec fn word(s: Seq<char>, from: int, to: int) -> Seq<char> {
    s.subrange(from, to)
}

/// Whether a character stands at `pos` and is `c`.
pub open spec fn at(s: Seq<char>, pos: int, c: char) -> bool {
    0 <= pos < s.len() && s[pos] == c
}

/// Whether a name can start at `pos`.
pub open spec fn name_at(s: Seq<char>, pos: int) -> bool {
    0 <= pos < s.len() && is_ident_start(s[pos])
}

/// The words that cannot be used as a reference.
pub open spec fn is_reserved(w: Seq<char>) -> bool {
    w == "let"@ || w == "in"@ || w == "with"@ || w == "inherit"@
}

/// The parts of `text` between its dots, after `acc`: `start` is where the
/// part that `pos` is in began.
pub open spec fn split_from(text: Seq<char>, start: int, pos: int, acc: Seq<Seq<char>>) -> Seq<
    Seq<char>,
>
    decreases text.len() - pos,
{
    if 0 <= pos < text.len() {
        if text[pos] == '.' {
            split_from(text, pos + 1, pos + 1, acc.push(text.subrange(start, pos)))
        } else {
            split_from(text, start, pos + 1, acc)
        }
    } else {
        acc.push(text.subrange(start, text.len() as int))
    }
}

/// The parts of a dotted name.
pub open spec fn split_dots(text: Seq<char>) -> Seq<Seq<char>> {
    split_from(text, 0, 0, Seq::empty())
}

/// `entries` with `value` bound at the end of `path[from..]`: the last name is
/// bound in the attribute set that the names before it lead to, and those
/// sets are made where they are missing. `None` where a name on the way is
/// bound to something that is no attribute set.
pub open spec fn insert_path_from(
    entries: Entries,
    path: Seq<Seq<char>>,
    from: int,
    value: ExprView,
) -> Option<Entries>
    decreases path.len() - from,
{
    if !(0 <= from < path.len()) {
        Some(entries)
    } else if from == path.len() - 1 {
        Some(insert_entry(entries, path[from], value))
    } else {
        match lookup(entries, path[from]) {
            Some(ExprView::AttrSet { recursive, bindings }) => match insert_path_from(
                bindings,
                path,
                from + 1,
                value,
            ) {
                Some(inner) => Some(
                    insert_entry(
                        entries,
                        path[from],
                        ExprView::AttrSet { recursive, bindings: inner },
                    ),
                ),
                None => None,
            },
            Some(_) => None,
            None => match insert_path_from(Seq::empty(), path, from + 1, value) {
                Some(inner) => Some(
                    insert_entry(
                        entries,
                        path[from],
                        ExprView::AttrSet { recursive: false, bindings: inner },
                    ),
                ),
                None => None,
            },
        }
    }
}

/// `entries` with `value` bound at the dotted `path`.
pub open spec fn insert_path(entries: Entries, path: Seq<Seq<char>>, value: ExprView) -> Option<
    Entries,
> {
    insert_path_from(entries, path, 0, value)
}

/// Prefix operators, given in the order they are written, applied to an
/// operand: the last one written is applied first.
pub open spec fn apply_prefix(ops: Seq<NixUnaryOp>, operand: ExprView) -> ExprView
    decreases ops.len(),
{
    if ops.len() == 0 {
        operand
    } else {
        ExprView::UnaryOp { op: ops[0], expr: Box::new(apply_prefix(ops.drop_first(), operand)) }
    }
}

/// The expression that the parts of a string literal stand for: a single
/// literal part is a plain string value, anything else an interpolated string.
pub open spec fn string_expr(parts: Seq<PartView>) -> ExprView {
    if parts.len() == 1 && parts[0] is Literal {
        ExprView::Value(ValueView::String(parts[0]->Literal_0))
    } else {
        ExprView::InterpolatedString(parts)
    }
}

/// The prefix operators from `pos` on, after `acc`, and where the operand
/// starts.
pub open spec fn prefix_ops(s: Seq<char>, pos: int, acc: Seq<NixUnaryOp>) -> (Seq<NixUnaryOp>, int)
    decreases s.len() - pos,
{
    let p = skip_blank(s, pos);
    if 0 <= pos <= p && at(s, p, '-') {
        prefix_ops(s, p + 1, acc.push(NixUnaryOp::Neg))
    } else if 0 <= pos <= p && at(s, p, '!') {
        prefix_ops(s, p + 1, acc.push(NixUnaryOp::Not))
    } else {
        (acc, p)
    }
}

/// A number at `pos`: digits, a dot and digits are a float, held by its text;
/// digits alone are an integer, which must not exceed `i64::MAX`.
pub open spec fn number(s: Seq<char>, pos: int) -> Parsed<ExprView> {
    let e = scan(s, pos, CharClass::Digit);
    if at(s, e, '.') && e + 1 < s.len() && is_digit(s[e + 1]) {
        let end = scan(s, e + 1, CharClass::Digit);
        Parsed::Done {
            value: ExprView::Value(ValueView::Float(FloatView::Literal(word(s, pos, end)))),
            next: end,
        }
    } else if decimal_value(word(s, pos, e)) <= i64::MAX {
        Parsed::Done {
            value: ExprView::Value(ValueView::Int(decimal_value(word(s, pos, e)) as i64)),
            next: e,
        }
    } else {
        Parsed::Failed {
            error: Failure {
                kind: ParseErrorKind::IntegerOverflow,
                rule: Rule::Integer,
                position: pos,
            },
        }
    }
}

/// A search path at `pos`, where `<` stands: a name of path characters and `>`.
pub open spec fn search_path(s: Seq<char>, pos: int) -> Parsed<ExprView> {
    let e = scan(s, pos + 1, CharClass::Path);
    if e > pos + 1 && at(s, e, '>') {
        Parsed::Done { value: ExprView::SearchPath(word(s, pos + 1, e)), next: e + 1 }
    } else {
        Parsed::Failed { error: syntax(Rule::SearchPath, e) }
    }
}

/// Whether a path literal starts at `pos`: with `/`, `~/`, `./` or `../`.
pub open spec fn path_starts(s: Seq<char>, pos: int) -> bool {
    at(s, pos, '/') || (at(s, pos, '~') && at(s, pos + 1, '/')) || (at(s, pos, '.') && (at(
        s,
        pos + 1,
        '/',
    ) || (at(s, pos + 1, '.') && at(s, pos + 2, '/'))))
}

/// A path literal at `pos`, resolved.
pub open spec fn path_literal(s: Seq<char>, env: PathEnv, pos: int) -> Parsed<ExprView> {
    if path_starts(s, pos) {
        let e = scan(s, pos + 1, CharClass::Path);
        match resolve(word(s, pos, e), env.root, env.home) {
            Some(p) => Parsed::Done { value: ExprView::Value(ValueView::Path(p)), next: e },
            None => Parsed::Failed {
                error: Failure {
                    kind: ParseErrorKind::NoHomeDirectory,
                    rule: Rule::Path,
                    position: pos,
                },
            },
        }
    } else {
        Parsed::Failed { error: syntax(Rule::Path, pos) }
    }
}

/// The name that `inherit` binds `name` to: the name itself, or the name
/// after the scope and a dot.
pub open spec fn inherited(scope: Option<Seq<char>>, name: Seq<char>) -> ExprView {
    match scope {
        Some(sc) => ExprView::Ref(sc + seq!['.'] + name),
        None => ExprView::Ref(name),
    }
}

/// The words of an `inherit` binding from `pos` on, up to its `;`: each is
/// bound in `acc` to a reference.
pub open spec fn inherit_names(
    s: Seq<char>,
    pos: int,
    scope: Option<Seq<char>>,
    acc: Entries,
) -> Parsed<Entries>
    decreases s.len() - pos,
{
    if !(0 <= pos <= s.len()) {
        Parsed::Stalled
    } else {
        let p = skip_blank(s, pos);
        if at(s, p, ';') {
            Parsed::Done { value: acc, next: p + 1 }
        } else if name_at(s, p) {
            let e = scan(s, p, CharClass::Ident);
            proof {
                lemma_skip_trivia_bounds(s, pos, false);
                lemma_scan_bounds(s, p, CharClass::Ident);
            }
            inherit_names(
                s,
                e,
                scope,
                insert_entry(acc, word(s, p, e), inherited(scope, word(s, p, e))),
            )
        } else {
            Parsed::Failed { error: syntax(Rule::InheritBinding, p) }
        }
    }
}

/// An `inherit` binding after its keyword, which ends at `pos`.
pub open spec fn inherit(s: Seq<char>, pos: int, acc: Entries) -> Parsed<Entries> {
    let p = skip_blank(s, pos);
    if at(s, p, '(') {
        let q = skip_blank(s, p + 1);
        if name_at(s, q) {
            let e = dotted_end(s, q);
            let r = skip_blank(s, e);
            if at(s, r, ')') {
                inherit_names(s, r + 1, Some(word(s, q, e)), acc)
            } else {
                Parsed::Failed { error: syntax(Rule::InheritBinding, r) }
            }
        } else {
            Parsed::Failed { error: syntax(Rule::InheritBinding, q) }
        }
    } else {
        inherit_names(s, pos, None, acc)
    }
}

/// An expression at or after `pos`.
pub open spec fn expression(s: Seq<char>, env: PathEnv, pos: int) -> Parsed<ExprView>
    decreases s.len() - pos, 4nat,
{
    if !(0 <= pos <= s.len()) {
        Parsed::Stalled
    } else {
        let p = skip_blank(s, pos);
        let e = dotted_end(s, p);
        proof {
            lemma_skip_trivia_bounds(s, pos, false);
            lemma_dotted_end_bounds(s, p);
        }
        if name_at(s, p) && word(s, p, e) == "let"@ {
            match progress(s, e, bindings(s, env, e, Seq::empty(), Closer::In)) {
                Parsed::Done { value: block, next } => match expression(s, env, next) {
                    Parsed::Done { value: body, next: end } => Parsed::Done {
                        value: ExprView::LetIn { bindings: block, body: Box::new(body) },
                        next: end,
                    },
                    other => other,
                },
                other => carry(other),
            }
        } else if name_at(s, p) && word(s, p, e) == "with"@ {
            match progress(s, e, expression(s, env, e)) {
                Parsed::Done { value: environment, next } => {
                    let q = skip_blank(s, next);
                    proof {
                        lemma_skip_trivia_bounds(s, next, false);
                    }
                    if at(s, q, ';') {
                        match expression(s, env, q + 1) {
                            Parsed::Done { value: body, next: end } => Parsed::Done {
                                value: ExprView::With {
                                    environment: Box::new(environment),
                                    body: Box::new(body),
                                },
                                next: end,
                            },
                            other => other,
                        }
                    } else {
                        Parsed::Failed { error: syntax(Rule::WithExpr, q) }
                    }
                },
                other => other,
            }
        } else {
            op_expr(s, env, p)
        }
    }
}

/// A term and the infix operators and terms that follow it, folded to the
/// left.
pub open spec fn op_expr(s: Seq<char>, env: PathEnv, pos: int) -> Parsed<ExprView>
    decreases s.len() - pos, 3nat,
{
    match progress(s, pos, term(s, env, pos)) {
        Parsed::Done { value: first, next } => op_rest(s, env, next, first),
        other => other,
    }
}

/// The infix operators and terms from `pos` on, folded onto `acc`.
pub open spec fn op_rest(s: Seq<char>, env: PathEnv, pos: int, acc: ExprView) -> Parsed<ExprView>
    decreases s.len() - pos, 5nat,
{
    if !(0 <= pos <= s.len()) {
        Parsed::Stalled
    } else {
        let p = skip_blank(s, pos);
        proof {
            lemma_skip_trivia_bounds(s, pos, false);
        }
        if at(s, p, '+') || at(s, p, '-') {
            let op = if s[p] == '+' {
                NixBinaryOp::Add
            } else {
                NixBinaryOp::Sub
            };
            match progress(s, p, term(s, env, p + 1)) {
                Parsed::Done { value: right, next } => op_rest(
                    s,
                    env,
                    next,
                    ExprView::BinaryOp { op, left: Box::new(acc), right: Box::new(right) },
                ),
                other => other,
            }
        } else {
            Parsed::Done { value: acc, next: pos }
        }
    }
}

/// Prefix operators and the atom they apply to.
pub open spec fn term(s: Seq<char>, env: PathEnv, pos: int) -> Parsed<ExprView>
    decreases s.len() - pos, 2nat,
{
    if !(0 <= pos <= s.len()) {
        Parsed::Stalled
    } else {
        let (ops, p) = prefix_ops(s, pos, Seq::empty());
        proof {
            lemma_prefix_ops_bounds(s, pos, Seq::empty());
        }
        match atom(s, env, p) {
            Parsed::Done { value, next } => Parsed::Done { value: apply_prefix(ops, value), next },
            other => other,
        }
    }
}

/// An atom at `pos`.
pub open spec fn atom(s: Seq<char>, env: PathEnv, pos: int) -> Parsed<ExprView>
    decreases s.len() - pos, 1nat,
{
    if !(0 <= pos < s.len()) {
        Parsed::Failed { error: syntax(Rule::AtomicExpr, pos) }
    } else if is_digit(s[pos]) {
        number(s, pos)
    } else if s[pos] == '"' {
        string_parts(s, env, pos + 1, Seq::empty())
    } else if s[pos] == '[' {
        list_items(s, env, pos + 1, Seq::empty())
    } else if s[pos] == '{' {
        attr_set(s, env, pos + 1, false)
    } else if s[pos] == '<' {
        search_path(s, pos)
    } else if s[pos] == '/' || s[pos] == '~' || s[pos] == '.' {
        path_literal(s, env, pos)
    } else if is_ident_start(s[pos]) {
        let e = dotted_end(s, pos);
        let w = word(s, pos, e);
        if w == "true"@ {
            Parsed::Done { value: ExprView::Value(ValueView::Bool(true)), next: e }
        } else if w == "false"@ {
            Parsed::Done { value: ExprView::Value(ValueView::Bool(false)), next: e }
        } else if w == "null"@ {
            Parsed::Done { value: ExprView::Value(ValueView::Null), next: e }
        } else if w == "rec"@ {
            let q = skip_blank(s, e);
            proof {
                lemma_dotted_end_bounds(s, pos);
                lemma_skip_trivia_bounds(s, e, false);
            }
            if at(s, q, '{') {
                attr_set(s, env, q + 1, true)
            } else {
                Parsed::Failed { error: syntax(Rule::AttrSet, q) }
            }
        } else if is_reserved(w) {
            Parsed::Failed { error: syntax(Rule::AtomicExpr, pos) }
        } else {
            Parsed::Done { value: ExprView::Ref(w), next: e }
        }
    } else {
        Parsed::Failed { error: syntax(Rule::AtomicExpr, pos) }
    }
}

/// The bindings of an attribute set after its `{`, up to its `}`.
pub open spec fn attr_set(s: Seq<char>, env: PathEnv, pos: int, recursive: bool) -> Parsed<ExprView>
    decreases s.len() - pos, 6nat,
{
    match bindings(s, env, pos, Seq::empty(), Closer::Brace) {
        Parsed::Done { value, next } => Parsed::Done {
            value: ExprView::AttrSet { recursive, bindings: value },
            next,
        },
        other => carry(other),
    }
}

/// The parts of a string from `pos` on, after `acc`, up to its closing quote.
pub open spec fn string_parts(s: Seq<char>, env: PathEnv, pos: int, acc: Seq<PartView>) -> Parsed<
    ExprView,
>
    decreases s.len() - pos, 5nat,
{
    if !(0 <= pos < s.len()) {
        Parsed::Failed { error: syntax(Rule::String, pos) }
    } else if s[pos] == '"' {
        Parsed::Done { value: string_expr(acc), next: pos + 1 }
    } else if s[pos] == '$' {
        if at(s, pos + 1, '{') {
            match progress(s, pos, expression(s, env, pos + 2)) {
                Parsed::Done { value, next } => {
                    let q = skip_blank(s, next);
                    proof {
                        lemma_skip_trivia_bounds(s, next, false);
                    }
                    if at(s, q, '}') {
                        string_parts(
                            s,
                            env,
                            q + 1,
                            acc.push(PartView::Interpolation(Box::new(value))),
                        )
                    } else {
                        Parsed::Failed { error: syntax(Rule::Interpolation, q) }
                    }
                },
                other => other,
            }
        } else {
            string_parts(s, env, pos + 1, acc.push(PartView::Literal(seq!['$'])))
        }
    } else if s[pos] == '\'' {
        if at(s, pos + 1, '\'') && at(s, pos + 2, '$') && at(s, pos + 3, '{') {
            string_parts(s, env, pos + 4, acc.push(PartView::Literal(seq!['$', '{'])))
        } else {
            string_parts(s, env, pos + 1, acc.push(PartView::Literal(seq!['\''])))
        }
    } else if s[pos] == '\\' && at(s, pos + 1, '"') {
        string_parts(s, env, pos + 2, acc.push(PartView::Literal(seq!['"'])))
    } else {
        let e = plain_end(s, pos + 1);
        proof {
            lemma_plain_end_bounds(s, pos + 1);
        }
        string_parts(s, env, e, acc.push(PartView::Literal(word(s, pos, e))))
    }
}

/// The elements of a list from `pos` on, after `acc`, up to its `]`.
pub open spec fn list_items(s: Seq<char>, env: PathEnv, pos: int, acc: Seq<ExprView>) -> Parsed<
    ExprView,
>
    decreases s.len() - pos, 5nat,
{
    if !(0 <= pos <= s.len()) {
        Parsed::Stalled
    } else {
        let p = skip_blank(s, pos);
        proof {
            lemma_skip_trivia_bounds(s, pos, false);
        }
        if at(s, p, ']') {
            Parsed::Done { value: ExprView::List(acc), next: p + 1 }
        } else {
            match progress(s, p, atom(s, env, p)) {
                Parsed::Done { value, next } => list_items(s, env, next, acc.push(value)),
                other => other,
            }
        }
    }
}

/// The bindings from `pos` on, merged into `acc`, up to what closes them.
pub open spec fn bindings(s: Seq<char>, env: PathEnv, pos: int, acc: Entries, closer: Closer) -> Parsed<
    Entries,
>
    decreases s.len() - pos, 5nat,
{
    if !(0 <= pos <= s.len()) {
        Parsed::Stalled
    } else {
        let p = skip_blank(s, pos);
        let e = dotted_end(s, p);
        let w = word(s, p, e);
        proof {
            lemma_skip_trivia_bounds(s, pos, false);
            lemma_dotted_end_bounds(s, p);
        }
        if closer == Closer::Brace && at(s, p, '}') {
            Parsed::Done { value: acc, next: p + 1 }
        } else if !name_at(s, p) {
            Parsed::Failed { error: syntax(Rule::Binding, p) }
        } else if closer == Closer::In && w == "in"@ {
            Parsed::Done { value: acc, next: e }
        } else if w == "inherit"@ {
            match progress(s, e, inherit(s, e, acc)) {
                Parsed::Done { value, next } => bindings(s, env, next, value, closer),
                other => other,
            }
        } else {
            let q = skip_blank(s, e);
            proof {
                lemma_skip_trivia_bounds(s, e, false);
            }
            if at(s, q, '=') {
                match progress(s, q, expression(s, env, q + 1)) {
                    Parsed::Done { value, next } => {
                        let r = skip_blank(s, next);
                        proof {
                            lemma_skip_trivia_bounds(s, next, false);
                        }
                        if at(s, r, ';') {
                            match insert_path(acc, split_dots(w), value) {
                                Some(merged) => bindings(s, env, r + 1, merged, closer),
                                None => Parsed::Failed {
                                    error: Failure {
                                        kind: ParseErrorKind::AttributePathConflict,
                                        rule: Rule::Binding,
                                        position: p,
                                    },
                                },
                            }
                        } else {
                            Parsed::Failed { error: syntax(Rule::Binding, r) }
                        }
                    },
                    other => carry(other),
                }
            } else {
                Parsed::Failed { error: syntax(Rule::Binding, q) }
            }
        }
    }
}

/// The expression that the whole input stands for.
pub open spec fn source(s: Seq<char>, env: PathEnv) -> Parsed<ExprView> {
    match expression(s, env, 0) {
        Parsed::Done { value, next } => {
            let end = skip_blank(s, next);
            if end >= s.len() {
                Parsed::Done { value, next: end }
            } else {
                Parsed::Failed { error: syntax(Rule::Source, end) }
            }
        },
        other => other,
    }
}

/// Where the operand of a term starts.
pub proof fn lemma_prefix_ops_bounds(s: Seq<char>, pos: int, acc: Seq<NixUnaryOp>)
    requires
        0 <= pos <= s.len(),
    ensures
        pos <= prefix_ops(s, pos, acc).1 <= s.len(),
    decreases s.len() - pos,
{
    let p = skip_blank(s, pos);
    lemma_skip_trivia_bounds(s, pos, false);
    if at(s, p, '-') {
        lemma_prefix_ops_bounds(s, p + 1, acc.push(NixUnaryOp::Neg));
    } else if at(s, p, '!') {
        lemma_prefix_ops_bounds(s, p + 1, acc.push(NixUnaryOp::Not));
    }
}

} // verus!
