//! The data model: values, expressions and their mathematical views.
//!
//! Every executable type has a view that replaces `String` by `Seq<char>` and
//! `Vec` by `Seq`; contracts throughout the crate are stated over these views.

use crate::bindings::{lemma_index_of, lemma_index_of_absent};
use indexmap::IndexMap;
use vstd::prelude::*;

verus! {

/// Arithmetic negation or logical negation.
#[derive(Debug, Clone, Copy, PartialEq, Eq)]
pub enum NixUnaryOp {
    Neg,
    Not,
}

/// The two infix operators; both bind equally and associate to the left.
#[derive(Debug, Clone, Copy, PartialEq, Eq)]
pub enum NixBinaryOp {
    Add,
    Sub,
}

/// View of a [`NixFloat`].
pub enum FloatView {
    Literal(Seq<char>),
    FromInt(i64),
    Neg(Box<FloatView>),
    Add(Box<FloatView>, Box<FloatView>),
    Sub(Box<FloatView>, Box<FloatView>),
}

/// View of a [`NixValue`].
pub enum ValueView {
    Int(i64),
    Float(FloatView),
    Bool(bool),
    String(Seq<char>),
    Path(Seq<char>),
    Null,
}

/// View of a [`NixStringPart`].
pub enum PartView {
    Literal(Seq<char>),
    Interpolation(Box<ExprView>),
}

/// View of a [`NixExpr`]: the expression as a mathematical tree.
#[allow(inconsistent_fields)]
pub enum ExprView {
    Value(ValueView),
    InterpolatedString(Seq<PartView>),
    Ref(Seq<char>),
    List(Seq<ExprView>),
    AttrSet { recursive: bool, bindings: Seq<(Seq<char>, ExprView)> },
    UnaryOp { op: NixUnaryOp, expr: Box<ExprView> },
    BinaryOp { op: NixBinaryOp, left: Box<ExprView>, right: Box<ExprView> },
    SearchPath(Seq<char>),
    LetIn { bindings: Seq<(Seq<char>, ExprView)>, body: Box<ExprView> },
    With { environment: Box<ExprView>, body: Box<ExprView> },
}

/// A binary64 number, held as the exact record of how it is computed.
///
/// The library decides *which* operations are applied to which operands and
/// leaves the rounding itself to the caller: `Literal` holds the decimal text
/// of a literal, `FromInt` widens an integer, and the other variants stand for
/// the correctly rounded negation, sum and difference of their operands.
#[derive(Debug)]
pub enum NixFloat {
    Literal(String),
    FromInt(i64),
    Neg(Box<NixFloat>),
    Add(Box<NixFloat>, Box<NixFloat>),
    Sub(Box<NixFloat>, Box<NixFloat>),
}

/// A scalar value.
#[derive(Debug)]
pub enum NixValue {
    Int(i64),
    Float(NixFloat),
    Bool(bool),
    String(String),
    /// A path, already resolved when the literal was parsed. It is kept as
    /// it was spelled; `==` compares paths by what they name.
    Path(String),
    Null,
}

/// One piece of an interpolated string.
#[derive(Debug, PartialEq)]
pub enum NixStringPart {
    Literal(String),
    Interpolation(Box<NixExpr>),
}

/// An insertion-ordered mapping from names to expressions with unique keys.
///
/// It is used both for the bindings of an attribute set or `let` block and
/// for the scope of an evaluation.
#[verifier::external_body]
#[derive(Debug, PartialEq)]
pub struct Bindings {
    pub(crate) map: IndexMap<String, NixExpr>,
}

/// The entries of a [`Bindings`] in insertion order, each value by its view.
pub uninterp spec fn bindings_entries(b: Bindings) -> Seq<(Seq<char>, ExprView)>;

/// A node of the abstract syntax tree.
#[allow(inconsistent_fields)]
#[derive(Debug, PartialEq)]
pub enum NixExpr {
    Value(NixValue),
    InterpolatedString(Vec<NixStringPart>),
    Ref(String),
    List(Vec<NixExpr>),
    AttrSet { recursive: bool, bindings: Bindings },
    UnaryOp { op: NixUnaryOp, expr: Box<NixExpr> },
    BinaryOp { op: NixBinaryOp, left: Box<NixExpr>, right: Box<NixExpr> },
    /// An unresolved `<name>` marker.
    SearchPath(String),
    LetIn { bindings: Bindings, body: Box<NixExpr> },
    With { environment: Box<NixExpr>, body: Box<NixExpr> },
}

impl View for NixFloat {
    type V = FloatView;

    open spec fn view(&self) -> FloatView
        decreases self,
    {
        match self {
            NixFloat::Literal(text) => FloatView::Literal(text@),
            NixFloat::FromInt(i) => FloatView::FromInt(*i),
            NixFloat::Neg(a) => FloatView::Neg(Box::new((**a).view())),
            NixFloat::Add(a, b) => FloatView::Add(Box::new((**a).view()), Box::new((**b).view())),
            NixFloat::Sub(a, b) => FloatView::Sub(Box::new((**a).view()), Box::new((**b).view())),
        }
    }
}

impl View for NixValue {
    type V = ValueView;

    open spec fn view(&self) -> ValueView {
        match self {
            NixValue::Int(i) => ValueView::Int(*i),
            NixValue::Float(f) => ValueView::Float(f@),
            NixValue::Bool(b) => ValueView::Bool(*b),
            NixValue::String(s) => ValueView::String(s@),
            NixValue::Path(p) => ValueView::Path(p@),
            NixValue::Null => ValueView::Null,
        }
    }
}

impl View for Bindings {
    type V = Seq<(Seq<char>, ExprView)>;

    open spec fn view(&self) -> Self::V {
        bindings_entries(*self)
    }
}

/// The views of a sequence of expressions, element by element.
pub open spec fn exprs_view(items: Seq<NixExpr>) -> Seq<ExprView>
    decreases items,
{
    if items.len() == 0 {
        Seq::empty()
    } else {
        exprs_view(items.drop_last()).push(items.last().view())
    }
}

/// The views of a sequence of string parts, element by element.
pub open spec fn parts_view(parts: Seq<NixStringPart>) -> Seq<PartView>
    decreases parts,
{
    if parts.len() == 0 {
        Seq::empty()
    } else {
        parts_view(parts.drop_last()).push(parts.last().view())
    }
}

impl View for NixStringPart {
    type V = PartView;

    open spec fn view(&self) -> PartView
        decreases self,
    {
        match self {
            NixStringPart::Literal(s) => PartView::Literal(s@),
            NixStringPart::Interpolation(e) => PartView::Interpolation(Box::new((**e).view())),
        }
    }
}

impl View for NixExpr {
    type V = ExprView;

    open spec fn view(&self) -> ExprView
        decreases self,
    {
        match self {
            NixExpr::Value(v) => ExprView::Value(v@),
            NixExpr::InterpolatedString(parts) => ExprView::InterpolatedString(parts_view(parts@)),
            NixExpr::Ref(name) => ExprView::Ref(name@),
            NixExpr::List(items) => ExprView::List(exprs_view(items@)),
            NixExpr::AttrSet { recursive, bindings } => ExprView::AttrSet {
                recursive: *recursive,
                bindings: bindings@,
            },
            NixExpr::UnaryOp { op, expr } => ExprView::UnaryOp {
                op: *op,
                expr: Box::new((**expr).view()),
            },
            NixExpr::BinaryOp { op, left, right } => ExprView::BinaryOp {
                op: *op,
                left: Box::new((**left).view()),
                right: Box::new((**right).view()),
            },
            NixExpr::SearchPath(name) => ExprView::SearchPath(name@),
            NixExpr::LetIn { bindings, body } => ExprView::LetIn {
                bindings: bindings@,
                body: Box::new((**body).view()),
            },
            NixExpr::With { environment, body } => ExprView::With {
                environment: Box::new((**environment).view()),
                body: Box::new((**body).view()),
            },
        }
    }
}

/// `exprs_view` keeps the length and maps each element to its view.
pub proof fn lemma_exprs_view(items: Seq<NixExpr>)
    ensures
        exprs_view(items).len() == items.len(),
        forall|i: int| 0 <= i < items.len() ==> (#[trigger] exprs_view(items)[i]) == items[i]@,
    decreases items.len(),
{
    if items.len() > 0 {
        let prefix = items.drop_last();
        lemma_exprs_view(prefix);
        assert(exprs_view(items) == exprs_view(prefix).push(items.last().view()));
        assert forall|i: int| 0 <= i < items.len() implies (#[trigger] exprs_view(items)[i])
            == items[i]@ by {
            if i < prefix.len() {
                assert(exprs_view(prefix)[i] == prefix[i]@);
            }
        }
    }
}

/// `parts_view` keeps the length and maps each element to its view.
pub proof fn lemma_parts_view(parts: Seq<NixStringPart>)
    ensures
        parts_view(parts).len() == parts.len(),
        forall|i: int| 0 <= i < parts.len() ==> (#[trigger] parts_view(parts)[i]) == parts[i]@,
    decreases parts.len(),
{
    if parts.len() > 0 {
        let prefix = parts.drop_last();
        lemma_parts_view(prefix);
        assert(parts_view(parts) == parts_view(prefix).push(parts.last().view()));
        assert forall|i: int| 0 <= i < parts.len() implies (#[trigger] parts_view(parts)[i])
            == parts[i]@ by {
            if i < prefix.len() {
                assert(parts_view(prefix)[i] == prefix[i]@);
            }
        }
    }
}

/// Appending an element appends its view.
pub proof fn lemma_exprs_view_push(items: Seq<NixExpr>, e: NixExpr)
    ensures
        exprs_view(items.push(e)) == exprs_view(items).push(e@),
{
    assert(items.push(e).drop_last() =~= items);
}

/// Appending a part appends its view.
pub proof fn lemma_parts_view_push(parts: Seq<NixStringPart>, p: NixStringPart)
    ensures
        parts_view(parts.push(p)) == parts_view(parts).push(p@),
{
    assert(parts.push(p).drop_last() =~= parts);
}

/// Every immediate part of an expression is structurally smaller than the
/// expression; recursion over views rests on this.
pub proof fn lemma_children_decrease(e: ExprView)
    ensures
        match e {
            ExprView::UnaryOp { expr, .. } => decreases_to!(e => *expr),
            ExprView::BinaryOp { left, right, .. } => decreases_to!(e => *left) && decreases_to!(e => *right),
            ExprView::With { environment, body } => decreases_to!(e => *environment)
                && decreases_to!(e => *body),
            ExprView::LetIn { bindings, body } => {
                &&& decreases_to!(e => *body)
                &&& decreases_to!(e => bindings)
                &&& forall|i: int|
                    0 <= i < bindings.len() ==> decreases_to!(e => (#[trigger] bindings[i]).1)
            },
            ExprView::AttrSet { bindings, .. } => {
                &&& decreases_to!(e => bindings)
                &&& forall|i: int|
                    0 <= i < bindings.len() ==> decreases_to!(e => (#[trigger] bindings[i]).1)
            },
            ExprView::List(items) => {
                &&& decreases_to!(e => items)
                &&& forall|i: int| 0 <= i < items.len() ==> decreases_to!(e => #[trigger] items[i])
            },
            ExprView::InterpolatedString(parts) => {
                &&& decreases_to!(e => parts)
                &&& forall|i: int|
                    0 <= i < parts.len() ==> match #[trigger] parts[i] {
                        PartView::Interpolation(inner) => decreases_to!(e => *inner),
                        PartView::Literal(_) => true,
                    }
            },
            _ => true,
        },
{
    match e {
        ExprView::LetIn { bindings, body } => {
            assert forall|i: int| 0 <= i < bindings.len() implies decreases_to!(e => (#[trigger] bindings[i]).1) by {
                assert(decreases_to!(bindings => bindings[i]));
            }
        },
        ExprView::AttrSet { bindings, .. } => {
            assert forall|i: int| 0 <= i < bindings.len() implies decreases_to!(e => (#[trigger] bindings[i]).1) by {
                assert(decreases_to!(bindings => bindings[i]));
            }
        },
        ExprView::List(items) => {
            assert forall|i: int| 0 <= i < items.len() implies decreases_to!(e => #[trigger] items[i]) by {
                assert(decreases_to!(items => items[i]));
            }
        },
        ExprView::InterpolatedString(parts) => {
            assert forall|i: int| 0 <= i < parts.len() implies match #[trigger] parts[i] {
                PartView::Interpolation(inner) => decreases_to!(e => *inner),
                PartView::Literal(_) => true,
            } by {
                assert(decreases_to!(parts => parts[i]));
            }
        },
        _ => {},
    }
}

/// The value of every entry is structurally smaller than the entries.
pub proof fn lemma_entry_decreases(entries: Seq<(Seq<char>, ExprView)>, i: int)
    requires
        0 <= i < entries.len(),
    ensures
        decreases_to!(entries => entries[i].1),
{
    assert(decreases_to!(entries => entries[i]));
}

impl Clone for NixFloat {
    fn clone(&self) -> (r: Self)
        ensures
            r@ == self@,
        decreases self,
    {
        match self {
            NixFloat::Literal(text) => NixFloat::Literal(text.clone()),
            NixFloat::FromInt(i) => NixFloat::FromInt(*i),
            NixFloat::Neg(a) => NixFloat::Neg(Box::new((**a).clone())),
            NixFloat::Add(a, b) => NixFloat::Add(Box::new((**a).clone()), Box::new((**b).clone())),
            NixFloat::Sub(a, b) => NixFloat::Sub(Box::new((**a).clone()), Box::new((**b).clone())),
        }
    }
}

impl Clone for NixValue {
    fn clone(&self) -> (r: Self)
        ensures
            r@ == self@,
    {
        match self {
            NixValue::Int(i) => NixValue::Int(*i),
            NixValue::Float(f) => NixValue::Float(f.clone()),
            NixValue::Bool(b) => NixValue::Bool(*b),
            NixValue::String(s) => NixValue::String(s.clone()),
            NixValue::Path(p) => NixValue::Path(p.clone()),
            NixValue::Null => NixValue::Null,
        }
    }
}

impl Clone for Bindings {
    #[verifier::loop_isolation(false)]
    fn clone(&self) -> (r: Self)
        ensures
            r@ == self@,
        decreases self@,
    {
        let mut out = Bindings::new();
        let n = self.len();
        let mut i: usize = 0;
        while i < n
            invariant
                i <= n,
                n == self@.len(),
                out@ == self@.take(i as int),
            decreases n - i,
        {
            match self.get_index(i) {
                Some((k, v)) => {
                    let key = k.clone();
                    proof {
                        lemma_entry_decreases(self@, i as int);
                    }
                    let value = v.clone();
                    proof {
                        lemma_index_of(self@, k@);
                        lemma_index_of_absent(self@.take(i as int), k@);
                        assert(self@.take(i + 1) =~= self@.take(i as int).push(self@[i as int]));
                    }
                    out.insert(key, value);
                },
                None => {
                    assert(false);
                },
            }
            i += 1;
        }
        assert(self@.take(n as int) =~= self@);
        out
    }
}

impl Clone for NixStringPart {
    fn clone(&self) -> (r: Self)
        ensures
            r@ == self@,
        decreases self@,
    {
        proof {
            match self@ {
                PartView::Interpolation(inner) => {
                    assert(decreases_to!(self@ => *inner));
                },
                _ => {},
            }
        }
        match self {
            NixStringPart::Literal(s) => NixStringPart::Literal(s.clone()),
            NixStringPart::Interpolation(e) => NixStringPart::Interpolation(Box::new((**e).clone())),
        }
    }
}

impl Clone for NixExpr {
    #[verifier::loop_isolation(false)]
    fn clone(&self) -> (r: Self)
        ensures
            r@ == self@,
        decreases self@,
    {
        proof {
            lemma_children_decrease(self@);
        }
        match self {
            NixExpr::Value(v) => NixExpr::Value(v.clone()),
            NixExpr::InterpolatedString(parts) => {
                let mut out: Vec<NixStringPart> = Vec::new();
                let mut i: usize = 0;
                proof {
                    lemma_parts_view(parts@);
                }
                while i < parts.len()
                    invariant
                        i <= parts.len(),
                        parts_view(out@) == parts_view(parts@).take(i as int),
                    decreases parts.len() - i,
                {
                    proof {
                        let ghost part_view = parts_view(parts@)[i as int];
                        assert(part_view == parts@[i as int]@);
                        assert(decreases_to!(self@->InterpolatedString_0 => part_view));
                    }
                    let part = parts[i].clone();
                    proof {
                        lemma_parts_view_push(out@, part);
                        assert(parts_view(parts@).take(i + 1) =~= parts_view(parts@).take(
                            i as int,
                        ).push(parts@[i as int]@));
                    }
                    out.push(part);
                    i += 1;
                }
                assert(parts_view(parts@).take(i as int) =~= parts_view(parts@));
                NixExpr::InterpolatedString(out)
            },
            NixExpr::Ref(name) => NixExpr::Ref(name.clone()),
            NixExpr::List(items) => {
                let mut out: Vec<NixExpr> = Vec::new();
                let mut i: usize = 0;
                proof {
                    lemma_exprs_view(items@);
                }
                while i < items.len()
                    invariant
                        i <= items.len(),
                        exprs_view(out@) == exprs_view(items@).take(i as int),
                    decreases items.len() - i,
                {
                    assert(exprs_view(items@)[i as int] == items@[i as int]@);
                    let item = items[i].clone();
                    proof {
                        lemma_exprs_view_push(out@, item);
                        assert(exprs_view(items@).take(i + 1) =~= exprs_view(items@).take(
                            i as int,
                        ).push(items@[i as int]@));
                    }
                    out.push(item);
                    i += 1;
                }
                assert(exprs_view(items@).take(i as int) =~= exprs_view(items@));
                NixExpr::List(out)
            },
            NixExpr::AttrSet { recursive, bindings } => NixExpr::AttrSet {
                recursive: *recursive,
                bindings: bindings.clone(),
            },
            NixExpr::UnaryOp { op, expr } => NixExpr::UnaryOp {
                op: *op,
                expr: Box::new((**expr).clone()),
            },
            NixExpr::BinaryOp { op, left, right } => NixExpr::BinaryOp {
                op: *op,
                left: Box::new((**left).clone()),
                right: Box::new((**right).clone()),
            },
            NixExpr::SearchPath(name) => NixExpr::SearchPath(name.clone()),
            NixExpr::LetIn { bindings, body } => NixExpr::LetIn {
                bindings: bindings.clone(),
                body: Box::new((**body).clone()),
            },
            NixExpr::With { environment, body } => NixExpr::With {
                environment: Box::new((**environment).clone()),
                body: Box::new((**body).clone()),
            },
        }
    }
}

} // verus!

