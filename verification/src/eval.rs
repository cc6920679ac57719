//! The evaluator: reduces an expression to a value-only expression under a
//! scope. `eval` is the semantics; `nix_eval` computes it.

use crate::ast::{
    exprs_view, lemma_children_decrease, lemma_entry_decreases, lemma_exprs_view,
    lemma_exprs_view_push, lemma_parts_view, parts_view, Bindings, ExprView, FloatView,
    NixBinaryOp, NixExpr, NixFloat, NixStringPart, NixUnaryOp, NixValue, PartView, ValueView,
};
use crate::bindings::{insert_entry, lemma_index_of, lemma_index_of_absent, lookup, Entries};
use vstd::prelude::*;
use vstd::string::StringExecFns;

verus! {

/// The variables in reach of an expression.
pub type Scope = Bindings;

/// Why an evaluation failed.
#[derive(Debug, PartialEq)]
pub enum EvaluationError {
    /// A reference to a name that the scope does not bind; holds the name.
    UndefinedVariable(String),
    /// An operand or part of the wrong kind.
    TypeMismatch(String),
    /// An operator applied to operands it is not defined on.
    UnsupportedOperation(String),
}

/// View of an [`EvaluationError`].
pub enum EvalErrorView {
    UndefinedVariable(Seq<char>),
    TypeMismatch(Seq<char>),
    UnsupportedOperation(Seq<char>),
}

impl View for EvaluationError {
    type V = EvalErrorView;

    open spec fn view(&self) -> EvalErrorView {
        match self {
            EvaluationError::UndefinedVariable(name) => EvalErrorView::UndefinedVariable(name@),
            EvaluationError::TypeMismatch(msg) => EvalErrorView::TypeMismatch(msg@),
            EvaluationError::UnsupportedOperation(msg) => EvalErrorView::UnsupportedOperation(msg@),
        }
    }
}

/// The outcome of an evaluation, over views.
pub type Outcome = Result<ExprView, EvalErrorView>;

/// The view of what `nix_eval` returns.
pub open spec fn outcome_view(r: Result<NixExpr, EvaluationError>) -> Outcome {
    match r {
        Ok(v) => Ok(v@),
        Err(e) => Err(e@),
    }
}

/// The message for `-` on a value that is no number.
pub open spec fn msg_negate_non_numeric() -> Seq<char> {
    "Cannot negate a non-numeric value."@
}

/// The message for `!` on a value that is no boolean.
pub open spec fn msg_not_non_boolean() -> Seq<char> {
    "Cannot perform logical negation on a non-boolean value."@
}

/// The message for a prefix operator on a list or an attribute set.
pub open spec fn msg_unary_non_value() -> Seq<char> {
    "Cannot perform unary operation on a non-value."@
}

/// The message for `+` on operands that it is not defined on.
pub open spec fn msg_addition() -> Seq<char> {
    "Addition is not supported for these types."@
}

/// The message for `-` on operands that it is not defined on.
pub open spec fn msg_subtraction() -> Seq<char> {
    "Subtraction is not supported for these types."@
}

/// The message for a `with` whose environment is no attribute set.
pub open spec fn msg_with_non_attrset() -> Seq<char> {
    "Expression in 'with' must evaluate to an attribute set."@
}

/// The message for an interpolation that gives no string.
pub open spec fn msg_interpolation() -> Seq<char> {
    "Expected a string for interpolation."@
}

/// A prefix operator applied to an evaluated operand. Negation keeps the kind
/// of a number; integer negation wraps around.
pub open spec fn apply_unary(op: NixUnaryOp, operand: ExprView) -> Outcome {
    match operand {
        ExprView::Value(v) => match op {
            NixUnaryOp::Neg => match v {
                ValueView::Int(i) => Ok(ExprView::Value(ValueView::Int(0i64.wrapping_sub(i)))),
                ValueView::Float(f) => Ok(ExprView::Value(ValueView::Float(FloatView::Neg(Box::new(f))))),
                _ => Err(EvalErrorView::TypeMismatch(msg_negate_non_numeric())),
            },
            NixUnaryOp::Not => match v {
                ValueView::Bool(b) => Ok(ExprView::Value(ValueView::Bool(!b))),
                _ => Err(EvalErrorView::TypeMismatch(msg_not_non_boolean())),
            },
        },
        _ => Err(EvalErrorView::TypeMismatch(msg_unary_non_value())),
    }
}

/// The sum or difference of two numbers; an integer beside a float is widened.
/// Integer arithmetic wraps around.
pub open spec fn apply_numeric(op: NixBinaryOp, l: ValueView, r: ValueView) -> Option<ValueView> {
    match (l, r) {
        (ValueView::Int(a), ValueView::Int(b)) => Some(
            match op {
                NixBinaryOp::Add => ValueView::Int(a.wrapping_add(b)),
                NixBinaryOp::Sub => ValueView::Int(a.wrapping_sub(b)),
            },
        ),
        (ValueView::Float(a), ValueView::Float(b)) => Some(ValueView::Float(float_op(op, a, b))),
        (ValueView::Int(a), ValueView::Float(b)) => Some(
            ValueView::Float(float_op(op, FloatView::FromInt(a), b)),
        ),
        (ValueView::Float(a), ValueView::Int(b)) => Some(
            ValueView::Float(float_op(op, a, FloatView::FromInt(b))),
        ),
        _ => None,
    }
}

/// The float that stands for `a op b`.
pub open spec fn float_op(op: NixBinaryOp, a: FloatView, b: FloatView) -> FloatView {
    match op {
        NixBinaryOp::Add => FloatView::Add(Box::new(a), Box::new(b)),
        NixBinaryOp::Sub => FloatView::Sub(Box::new(a), Box::new(b)),
    }
}

/// The message of the error that an infix operator gives on operands it is
/// not defined on.
pub open spec fn msg_unsupported(op: NixBinaryOp) -> Seq<char> {
    match op {
        NixBinaryOp::Add => msg_addition(),
        NixBinaryOp::Sub => msg_subtraction(),
    }
}

/// An infix operator applied to two evaluated operands: numbers are added or
/// subtracted, two strings are concatenated by `Add`, and every other pairing
/// is unsupported.
pub open spec fn apply_binary(op: NixBinaryOp, l: ExprView, r: ExprView) -> Outcome {
    match (l, r) {
        (ExprView::Value(a), ExprView::Value(b)) => match apply_numeric(op, a, b) {
            Some(v) => Ok(ExprView::Value(v)),
            None => match (op, a, b) {
                (NixBinaryOp::Add, ValueView::String(x), ValueView::String(y)) => Ok(
                    ExprView::Value(ValueView::String(x + y)),
                ),
                _ => Err(EvalErrorView::UnsupportedOperation(msg_unsupported(op))),
            },
        },
        _ => Err(EvalErrorView::UnsupportedOperation(msg_unsupported(op))),
    }
}

/// The scope with every entry of `bindings` inserted in order: on a name that
/// both bind, `bindings` wins.
pub open spec fn extend_scope(scope: Entries, bindings: Entries) -> Entries
    decreases bindings.len(),
{
    if bindings.len() == 0 {
        scope
    } else {
        insert_entry(
            extend_scope(scope, bindings.drop_last()),
            bindings.last().0,
            bindings.last().1,
        )
    }
}

/// The meaning of an expression under a scope.
pub open spec fn eval(e: ExprView, scope: Entries) -> Outcome
    decreases e,
{
    match e {
        ExprView::Value(_) => Ok(e),
        ExprView::SearchPath(_) => Ok(e),
        ExprView::Ref(name) => match lookup(scope, name) {
            Some(v) => Ok(v),
            None => Err(EvalErrorView::UndefinedVariable(name)),
        },
        ExprView::UnaryOp { op, expr } => match eval(*expr, scope) {
            Ok(v) => apply_unary(op, v),
            Err(err) => Err(err),
        },
        ExprView::BinaryOp { op, left, right } => match eval(*left, scope) {
            Ok(l) => match eval(*right, scope) {
                Ok(r) => apply_binary(op, l, r),
                Err(err) => Err(err),
            },
            Err(err) => Err(err),
        },
        ExprView::With { environment, body } => match eval(*environment, scope) {
            Ok(ExprView::AttrSet { bindings, .. }) => eval(*body, extend_scope(scope, bindings)),
            Ok(_) => Err(EvalErrorView::TypeMismatch(msg_with_non_attrset())),
            Err(err) => Err(err),
        },
        ExprView::LetIn { bindings, body } => match eval_let(bindings, scope) {
            Ok(inner) => eval(*body, inner),
            Err(err) => Err(err),
        },
        ExprView::List(items) => match eval_items(items, scope) {
            Ok(values) => Ok(ExprView::List(values)),
            Err(err) => Err(err),
        },
        ExprView::AttrSet { recursive, bindings } => match eval_bindings(bindings, scope) {
            Ok(values) => Ok(ExprView::AttrSet { recursive, bindings: values }),
            Err(err) => Err(err),
        },
        ExprView::InterpolatedString(parts) => match eval_parts(parts, scope) {
            Ok(text) => Ok(ExprView::Value(ValueView::String(text))),
            Err(err) => Err(err),
        },
    }
}

/// The elements of a list, each evaluated under `scope`, in order; the first
/// failure is the failure of the whole.
pub open spec fn eval_items(items: Seq<ExprView>, scope: Entries) -> Result<
    Seq<ExprView>,
    EvalErrorView,
>
    decreases items,
{
    if items.len() == 0 {
        Ok(Seq::empty())
    } else {
        match eval_items(items.drop_last(), scope) {
            Ok(values) => match eval(items.last(), scope) {
                Ok(v) => Ok(values.push(v)),
                Err(err) => Err(err),
            },
            Err(err) => Err(err),
        }
    }
}

/// The bindings of an attribute set, each value evaluated under the outer
/// `scope`, independent of its siblings; names and order are kept.
pub open spec fn eval_bindings(bindings: Entries, scope: Entries) -> Result<Entries, EvalErrorView>
    decreases bindings,
{
    if bindings.len() == 0 {
        Ok(Seq::empty())
    } else {
        match eval_bindings(bindings.drop_last(), scope) {
            Ok(values) => {
                proof {
                    lemma_entry_decreases(bindings, bindings.len() - 1);
                }
                match eval(bindings.last().1, scope) {
                    Ok(v) => Ok(values.push((bindings.last().0, v))),
                    Err(err) => Err(err),
                }
            },
            Err(err) => Err(err),
        }
    }
}

/// The scope that the body of a `let` block sees: each value is evaluated
/// under the scope built so far and bound before the next one is looked at.
pub open spec fn eval_let(bindings: Entries, scope: Entries) -> Result<Entries, EvalErrorView>
    decreases bindings,
{
    if bindings.len() == 0 {
        Ok(scope)
    } else {
        match eval_let(bindings.drop_last(), scope) {
            Ok(inner) => {
                proof {
                    lemma_entry_decreases(bindings, bindings.len() - 1);
                }
                match eval(bindings.last().1, inner) {
                    Ok(v) => Ok(insert_entry(inner, bindings.last().0, v)),
                    Err(err) => Err(err),
                }
            },
            Err(err) => Err(err),
        }
    }
}

/// The text of an interpolated string: literal parts as they are, each
/// interpolation evaluated and required to be a string.
pub open spec fn eval_parts(parts: Seq<PartView>, scope: Entries) -> Result<Seq<char>, EvalErrorView>
    decreases parts,
{
    if parts.len() == 0 {
        Ok(Seq::empty())
    } else {
        match eval_parts(parts.drop_last(), scope) {
            Ok(text) => match parts.last() {
                PartView::Literal(s) => Ok(text + s),
                PartView::Interpolation(inner) => match eval(*inner, scope) {
                    Ok(ExprView::Value(ValueView::String(s))) => Ok(text + s),
                    Ok(_) => Err(EvalErrorView::TypeMismatch(msg_interpolation())),
                    Err(err) => Err(err),
                },
            },
            Err(err) => Err(err),
        }
    }
}

/// Applies a prefix operator to an evaluated operand.
pub fn apply_unary_op(op: NixUnaryOp, operand: NixExpr) -> (r: Result<NixExpr, EvaluationError>)
    ensures
        outcome_view(r) == apply_unary(op, operand@),
{
    match operand {
        NixExpr::Value(v) => match op {
            NixUnaryOp::Neg => match v {
                NixValue::Int(i) => Ok(NixExpr::Value(NixValue::Int(0i64.wrapping_sub(i)))),
                NixValue::Float(f) => Ok(NixExpr::Value(NixValue::Float(NixFloat::Neg(Box::new(f))))),
                _ => Err(
                    EvaluationError::TypeMismatch(
                        String::from_str("Cannot negate a non-numeric value."),
                    ),
                ),
            },
            NixUnaryOp::Not => match v {
                NixValue::Bool(b) => Ok(NixExpr::Value(NixValue::Bool(!b))),
                _ => Err(
                    EvaluationError::TypeMismatch(
                        String::from_str("Cannot perform logical negation on a non-boolean value."),
                    ),
                ),
            },
        },
        _ => Err(
            EvaluationError::TypeMismatch(
                String::from_str("Cannot perform unary operation on a non-value."),
            ),
        ),
    }
}

/// The error of an infix operator on operands it is not defined on.
fn unsupported(op: NixBinaryOp) -> (e: EvaluationError)
    ensures
        e@ == EvalErrorView::UnsupportedOperation(msg_unsupported(op)),
{
    match op {
        NixBinaryOp::Add => EvaluationError::UnsupportedOperation(
            String::from_str("Addition is not supported for these types."),
        ),
        NixBinaryOp::Sub => EvaluationError::UnsupportedOperation(
            String::from_str("Subtraction is not supported for these types."),
        ),
    }
}

/// The float that stands for `a op b`.
fn float_of(op: NixBinaryOp, a: NixFloat, b: NixFloat) -> (f: NixFloat)
    ensures
        f@ == float_op(op, a@, b@),
{
    match op {
        NixBinaryOp::Add => NixFloat::Add(Box::new(a), Box::new(b)),
        NixBinaryOp::Sub => NixFloat::Sub(Box::new(a), Box::new(b)),
    }
}

/// Applies an infix operator to two evaluated operands.
pub fn apply_binary_op(op: NixBinaryOp, l: NixExpr, r: NixExpr) -> (out: Result<
    NixExpr,
    EvaluationError,
>)
    ensures
        outcome_view(out) == apply_binary(op, l@, r@),
{
    match (l, r) {
        (NixExpr::Value(a), NixExpr::Value(b)) => match (a, b) {
            (NixValue::Int(x), NixValue::Int(y)) => match op {
                NixBinaryOp::Add => Ok(NixExpr::Value(NixValue::Int(x.wrapping_add(y)))),
                NixBinaryOp::Sub => Ok(NixExpr::Value(NixValue::Int(x.wrapping_sub(y)))),
            },
            (NixValue::Float(x), NixValue::Float(y)) => Ok(
                NixExpr::Value(NixValue::Float(float_of(op, x, y))),
            ),
            (NixValue::Int(x), NixValue::Float(y)) => Ok(
                NixExpr::Value(NixValue::Float(float_of(op, NixFloat::FromInt(x), y))),
            ),
            (NixValue::Float(x), NixValue::Int(y)) => Ok(
                NixExpr::Value(NixValue::Float(float_of(op, x, NixFloat::FromInt(y)))),
            ),
            (NixValue::String(x), NixValue::String(y)) => match op {
                NixBinaryOp::Add => Ok(NixExpr::Value(NixValue::String(x.concat(y.as_str())))),
                NixBinaryOp::Sub => Err(unsupported(op)),
            },
            _ => Err(unsupported(op)),
        },
        _ => Err(unsupported(op)),
    }
}

/// The scope overwritten by `bindings`, as a new scope.
pub fn extend(scope: &Scope, bindings: &Bindings) -> (r: Scope)
    ensures
        r@ == extend_scope(scope@, bindings@),
{
    let mut out = scope.clone();
    let n = bindings.len();
    let mut i: usize = 0;
    while i < n
        invariant
            i <= n,
            n == bindings@.len(),
            out@ == extend_scope(scope@, bindings@.take(i as int)),
        decreases n - i,
    {
        match bindings.get_index(i) {
            Some((k, v)) => {
                proof {
                    assert(bindings@.take(i + 1).drop_last() =~= bindings@.take(i as int));
                }
                out.insert(k.clone(), v.clone());
            },
            None => {
                assert(false);
            },
        }
        i += 1;
    }
    assert(bindings@.take(n as int) =~= bindings@);
    out
}

/// A failure among the first `k` elements is the failure of the whole list.
pub proof fn lemma_eval_items_fails(items: Seq<ExprView>, scope: Entries, k: int)
    requires
        0 <= k <= items.len(),
        eval_items(items.take(k), scope) is Err,
    ensures
        eval_items(items, scope) == eval_items(items.take(k), scope),
    decreases items.len() - k,
{
    if k < items.len() {
        assert(items.take(k + 1).drop_last() =~= items.take(k));
        lemma_eval_items_fails(items, scope, k + 1);
    } else {
        assert(items.take(k) =~= items);
    }
}

/// A failure among the first `k` bindings is the failure of the attribute set.
pub proof fn lemma_eval_bindings_fails(bindings: Entries, scope: Entries, k: int)
    requires
        0 <= k <= bindings.len(),
        eval_bindings(bindings.take(k), scope) is Err,
    ensures
        eval_bindings(bindings, scope) == eval_bindings(bindings.take(k), scope),
    decreases bindings.len() - k,
{
    if k < bindings.len() {
        assert(bindings.take(k + 1).drop_last() =~= bindings.take(k));
        lemma_eval_bindings_fails(bindings, scope, k + 1);
    } else {
        assert(bindings.take(k) =~= bindings);
    }
}

/// A failure among the first `k` bindings is the failure of the `let` block.
pub proof fn lemma_eval_let_fails(bindings: Entries, scope: Entries, k: int)
    requires
        0 <= k <= bindings.len(),
        eval_let(bindings.take(k), scope) is Err,
    ensures
        eval_let(bindings, scope) == eval_let(bindings.take(k), scope),
    decreases bindings.len() - k,
{
    if k < bindings.len() {
        assert(bindings.take(k + 1).drop_last() =~= bindings.take(k));
        lemma_eval_let_fails(bindings, scope, k + 1);
    } else {
        assert(bindings.take(k) =~= bindings);
    }
}

/// A failure among the first `k` parts is the failure of the string.
pub proof fn lemma_eval_parts_fails(parts: Seq<PartView>, scope: Entries, k: int)
    requires
        0 <= k <= parts.len(),
        eval_parts(parts.take(k), scope) is Err,
    ensures
        eval_parts(parts, scope) == eval_parts(parts.take(k), scope),
    decreases parts.len() - k,
{
    if k < parts.len() {
        assert(parts.take(k + 1).drop_last() =~= parts.take(k));
        lemma_eval_parts_fails(parts, scope, k + 1);
    } else {
        assert(parts.take(k) =~= parts);
    }
}

/// Evaluates `expr` under `scope`: the result is `eval` of their views, the
/// value on success and the error on failure.
#[verifier::loop_isolation(false)]
pub fn nix_eval(expr: &NixExpr, scope: &Scope) -> (r: Result<NixExpr, EvaluationError>)
    ensures
        outcome_view(r) == eval(expr@, scope@),
    decreases expr@,
{
    proof {
        lemma_children_decrease(expr@);
    }
    match expr {
        NixExpr::Value(_) => Ok(expr.clone()),
        NixExpr::SearchPath(_) => Ok(expr.clone()),
        NixExpr::Ref(name) => match scope.get(name.as_str()) {
            Some(v) => Ok(v.clone()),
            None => Err(EvaluationError::UndefinedVariable(name.clone())),
        },
        NixExpr::UnaryOp { op, expr: operand } => {
            match nix_eval(operand, scope) {
                Ok(v) => apply_unary_op(*op, v),
                Err(e) => Err(e),
            }
        },
        NixExpr::BinaryOp { op, left, right } => {
            match nix_eval(left, scope) {
                Ok(l) => match nix_eval(right, scope) {
                    Ok(r) => apply_binary_op(*op, l, r),
                    Err(e) => Err(e),
                },
                Err(e) => Err(e),
            }
        },
        NixExpr::With { environment, body } => {
            match nix_eval(environment, scope) {
                Ok(NixExpr::AttrSet { bindings, .. }) => {
                    let inner = extend(scope, &bindings);
                    nix_eval(body, &inner)
                },
                Ok(_) => Err(
                    EvaluationError::TypeMismatch(
                        String::from_str("Expression in 'with' must evaluate to an attribute set."),
                    ),
                ),
                Err(e) => Err(e),
            }
        },
        NixExpr::LetIn { bindings, body } => {
            let mut inner = scope.clone();
            let n = bindings.len();
            let mut i: usize = 0;
            while i < n
                invariant
                    i <= n,
                    n == bindings@.len(),
                    eval_let(bindings@.take(i as int), scope@) == Ok::<Entries, EvalErrorView>(inner@),
                decreases n - i,
            {
                match bindings.get_index(i) {
                    Some((k, v)) => {
                        proof {
                            assert(bindings@.take(i + 1).drop_last() =~= bindings@.take(i as int));
                        }
                        match nix_eval(v, &inner) {
                            Ok(value) => {
                                inner.insert(k.clone(), value);
                            },
                            Err(e) => {
                                proof {
                                    lemma_eval_let_fails(bindings@, scope@, i + 1);
                                }
                                return Err(e);
                            },
                        }
                    },
                    None => {
                        assert(false);
                    },
                }
                i += 1;
            }
            assert(bindings@.take(n as int) =~= bindings@);
            nix_eval(body, &inner)
        },
        NixExpr::List(items) => {
            let mut out: Vec<NixExpr> = Vec::new();
            let mut i: usize = 0;
            proof {
                lemma_exprs_view(items@);
            }
            while i < items.len()
                invariant
                    i <= items.len(),
                    eval_items(exprs_view(items@).take(i as int), scope@) == Ok::<
                        Seq<ExprView>,
                        EvalErrorView,
                    >(exprs_view(out@)),
                decreases items.len() - i,
            {
                proof {
                    assert(exprs_view(items@)[i as int] == items@[i as int]@);
                    assert(exprs_view(items@).take(i + 1).drop_last() =~= exprs_view(items@).take(
                        i as int,
                    ));
                }
                match nix_eval(&items[i], scope) {
                    Ok(value) => {
                        proof {
                            lemma_exprs_view_push(out@, value);
                        }
                        out.push(value);
                    },
                    Err(e) => {
                        proof {
                            lemma_eval_items_fails(exprs_view(items@), scope@, i + 1);
                        }
                        return Err(e);
                    },
                }
                i += 1;
            }
            assert(exprs_view(items@).take(i as int) =~= exprs_view(items@));
            Ok(NixExpr::List(out))
        },
        NixExpr::AttrSet { recursive, bindings } => {
            let mut out = Bindings::new();
            let n = bindings.len();
            let mut i: usize = 0;
            while i < n
                invariant
                    i <= n,
                    n == bindings@.len(),
                    eval_bindings(bindings@.take(i as int), scope@) == Ok::<Entries, EvalErrorView>(
                        out@,
                    ),
                    out@.len() == i,
                    forall|j: int| 0 <= j < i ==> (#[trigger] out@[j]).0 == bindings@[j].0,
                decreases n - i,
            {
                match bindings.get_index(i) {
                    Some((k, v)) => {
                        proof {
                            assert(bindings@.take(i + 1).drop_last() =~= bindings@.take(i as int));
                            lemma_index_of(bindings@, k@);
                            lemma_index_of_absent(out@, k@);
                        }
                        match nix_eval(v, scope) {
                            Ok(value) => {
                                out.insert(k.clone(), value);
                            },
                            Err(e) => {
                                proof {
                                    lemma_eval_bindings_fails(bindings@, scope@, i + 1);
                                }
                                return Err(e);
                            },
                        }
                    },
                    None => {
                        assert(false);
                    },
                }
                i += 1;
            }
            assert(bindings@.take(n as int) =~= bindings@);
            Ok(NixExpr::AttrSet { recursive: *recursive, bindings: out })
        },
        NixExpr::InterpolatedString(parts) => {
            let mut text = String::new();
            let mut i: usize = 0;
            proof {
                lemma_parts_view(parts@);
            }
            while i < parts.len()
                invariant
                    i <= parts.len(),
                    eval_parts(parts_view(parts@).take(i as int), scope@) == Ok::<
                        Seq<char>,
                        EvalErrorView,
                    >(text@),
                decreases parts.len() - i,
            {
                proof {
                    assert(parts_view(parts@)[i as int] == parts@[i as int]@);
                    assert(parts_view(parts@).take(i + 1).drop_last() =~= parts_view(parts@).take(
                        i as int,
                    ));
                }
                match &parts[i] {
                    NixStringPart::Literal(s) => {
                        text.append(s.as_str());
                    },
                    NixStringPart::Interpolation(inner) => {
                        match nix_eval(inner, scope) {
                            Ok(NixExpr::Value(NixValue::String(s))) => {
                                text.append(s.as_str());
                            },
                            Ok(_) => {
                                proof {
                                    lemma_eval_parts_fails(parts_view(parts@), scope@, i + 1);
                                }
                                return Err(
                                    EvaluationError::TypeMismatch(
                                        String::from_str("Expected a string for interpolation."),
                                    ),
                                );
                            },
                            Err(e) => {
                                proof {
                                    lemma_eval_parts_fails(parts_view(parts@), scope@, i + 1);
                                }
                                return Err(e);
                            },
                        }
                    },
                }
                i += 1;
            }
            assert(parts_view(parts@).take(i as int) =~= parts_view(parts@));
            Ok(NixExpr::Value(NixValue::String(text)))
        },
    }
}

} // verus!
