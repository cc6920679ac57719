//! Laws of the library: what holds of the evaluator, of scopes, of dotted
//! paths and of path literals, for all inputs.

use crate::ast::{lemma_entry_decreases, ExprView};
use crate::bindings::{
    distinct_keys, index_of, insert_entry, lemma_index_of, lemma_index_of_absent,
    lemma_index_of_is, lemma_lookup_after_insert, lookup, Entries,
};
use crate::eval::{eval, eval_bindings, eval_items, eval_let, extend_scope, EvalErrorView};
use crate::path::{
    is_absolute, is_home_relative, join, lemma_names_concat, lemma_names_shift,
    lemma_piece_end_in_prefix, names_from, piece_end, resolve, same_path,
};
use crate::syntax::insert_path_from;
use vstd::prelude::*;

verus! {

/// A name that the scope does not bind evaluates to `UndefinedVariable` with
/// that very name, and a name that the scope binds to what it is bound to.
pub proof fn lemma_reference(name: Seq<char>, scope: Entries)
    ensures
        lookup(scope, name) is None ==> eval(ExprView::Ref(name), scope) == Err::<
            ExprView,
            EvalErrorView,
        >(EvalErrorView::UndefinedVariable(name)),
        lookup(scope, name) matches Some(v) ==> eval(ExprView::Ref(name), scope) == Ok::<
            ExprView,
            EvalErrorView,
        >(v),
{
}

/// An absolute path literal resolves to itself, whatever the root and the
/// home directory are; a path that neither is absolute nor starts with `~/`
/// resolves to the path taken from the root.
pub proof fn lemma_resolve(text: Seq<char>, root: Seq<char>, home: Option<Seq<char>>)
    ensures
        is_absolute(text) ==> resolve(text, root, home) == Some(text),
        !is_absolute(text) && !is_home_relative(text) ==> resolve(text, root, home) == Some(
            join(root, text),
        ),
        is_home_relative(text) ==> (resolve(text, root, home) is Some <==> home is Some),
{
}

/// A `.` between a base and a relative path makes no difference: `./rest`
/// taken from a base that is not empty is the same path as `rest` taken from
/// it.
pub proof fn lemma_dot_names_the_base(base: Seq<char>, rest: Seq<char>)
    requires
        base.len() > 0,
        !is_absolute(rest),
    ensures
        same_path(join(base, seq!['.', '/'] + rest), join(base, rest)),
{
    let dot = seq!['.', '/'];
    let x = if base.last() == '/' {
        base
    } else {
        base + seq!['/']
    };
    let a = join(base, dot + rest);
    let b = join(base, rest);
    assert((dot + rest)[0] == '.');
    assert(a =~= x + (dot + rest));
    assert(b =~= x + rest);
    lemma_names_concat(x, dot + rest, 0);
    lemma_names_concat(x, rest, 0);
    assert(names_from(dot + rest, 0) == names_from(rest, 0)) by {
        assert((dot + rest)[1] == '/');
        assert(piece_end(dot + rest, 1) == 1);
        assert(piece_end(dot + rest, 0) == 1);
        assert((dot + rest).subrange(0, 1) =~= seq!['.']);
        lemma_names_shift(dot, rest, 0);
    }
    lemma_piece_end_in_prefix(x, dot + rest, 0);
    lemma_piece_end_in_prefix(x, rest, 0);
    let end = piece_end(x, 0);
    assert(a.subrange(0, end) =~= x.subrange(0, end));
    assert(b.subrange(0, end) =~= x.subrange(0, end));
    assert(a[0] == x[0] && b[0] == x[0]);
}

/// In a scope extended by bindings with distinct names, a name that the
/// bindings hold is bound as they bind it, and every other name as before:
/// the bindings win.
pub proof fn lemma_extend_scope_lookup(scope: Entries, bindings: Entries, key: Seq<char>)
    requires
        distinct_keys(bindings),
    ensures
        lookup(extend_scope(scope, bindings), key) == match lookup(bindings, key) {
            Some(v) => Some(v),
            None => lookup(scope, key),
        },
    decreases bindings.len(),
{
    if bindings.len() > 0 {
        let prefix = bindings.drop_last();
        let last = bindings.last();
        assert forall|i: int, j: int| 0 <= i < j < prefix.len() implies (#[trigger] prefix[i]).0
            != (#[trigger] prefix[j]).0 by {
            assert(prefix[i] == bindings[i]);
            assert(prefix[j] == bindings[j]);
        }
        lemma_extend_scope_lookup(scope, prefix, key);
        lemma_lookup_after_insert(extend_scope(scope, prefix), last.0, last.1, key);
        lemma_index_of(bindings, key);
        lemma_index_of(prefix, key);
        if last.0 == key {
            assert forall|j: int| 0 <= j < prefix.len() implies (#[trigger] prefix[j]).0 != key by {
                assert(prefix[j] == bindings[j]);
                assert(bindings[bindings.len() - 1] == last);
            }
            lemma_index_of_absent(prefix, key);
            lemma_index_of_is(bindings, key, bindings.len() - 1);
        } else {
            match index_of(prefix, key) {
                Some(i) => {
                    assert forall|j: int| 0 <= j < i implies (#[trigger] bindings[j]).0 != key by {
                        assert(prefix[j] == bindings[j]);
                    }
                    assert(prefix[i] == bindings[i]);
                    lemma_index_of_is(bindings, key, i);
                },
                None => {
                    assert forall|j: int| 0 <= j < bindings.len() implies (#[trigger] bindings[j]).0
                        != key by {
                        if j < prefix.len() {
                            assert(prefix[j] == bindings[j]);
                        }
                    }
                    lemma_index_of_absent(bindings, key);
                },
            }
        }
    }
}

/// Of two nested `with` environments the inner one wins: a name that the
/// inner bindings hold is bound as they bind it.
pub proof fn lemma_inner_with_wins(scope: Entries, outer: Entries, inner: Entries, key: Seq<char>)
    requires
        distinct_keys(inner),
        lookup(inner, key) is Some,
    ensures
        lookup(extend_scope(extend_scope(scope, outer), inner), key) == lookup(inner, key),
{
    lemma_extend_scope_lookup(extend_scope(scope, outer), inner, key);
}

/// The value found by following `path[from..]` through nested attribute sets.
pub open spec fn lookup_path(entries: Entries, path: Seq<Seq<char>>, from: int) -> Option<ExprView>
    decreases path.len() - from,
{
    if !(0 <= from < path.len()) {
        None
    } else if from == path.len() - 1 {
        lookup(entries, path[from])
    } else {
        match lookup(entries, path[from]) {
            Some(ExprView::AttrSet { bindings, .. }) => lookup_path(bindings, path, from + 1),
            _ => None,
        }
    }
}

/// Binding a value at a dotted path drops no name and moves none: the names
/// that were there stay where they were, and at most the first name of the
/// path is added, last.
pub proof fn lemma_insert_path_keeps_names(
    entries: Entries,
    path: Seq<Seq<char>>,
    from: int,
    value: ExprView,
)
    requires
        0 <= from < path.len(),
        insert_path_from(entries, path, from, value) is Some,
    ensures
        ({
            let after = insert_path_from(entries, path, from, value)->0;
            &&& entries.len() <= after.len() <= entries.len() + 1
            &&& forall|i: int| 0 <= i < entries.len() ==> (#[trigger] after[i]).0 == entries[i].0
            &&& after.len() == entries.len() + 1 ==> after.last().0 == path[from] && lookup(
                entries,
                path[from],
            ) is None
        }),
{
    lemma_index_of(entries, path[from]);
}

/// After a value is bound at a dotted path, following the path finds it.
pub proof fn lemma_insert_path_then_lookup(
    entries: Entries,
    path: Seq<Seq<char>>,
    from: int,
    value: ExprView,
)
    requires
        0 <= from < path.len(),
        insert_path_from(entries, path, from, value) is Some,
    ensures
        lookup_path(insert_path_from(entries, path, from, value)->0, path, from) == Some(value),
    decreases path.len() - from,
{
    let key = path[from];
    if from == path.len() - 1 {
        lemma_lookup_after_insert(entries, key, value, key);
    } else {
        match lookup(entries, key) {
            Some(ExprView::AttrSet { recursive, bindings }) => {
                lemma_insert_path_then_lookup(bindings, path, from + 1, value);
                let inner = insert_path_from(bindings, path, from + 1, value)->0;
                lemma_lookup_after_insert(
                    entries,
                    key,
                    ExprView::AttrSet { recursive, bindings: inner },
                    key,
                );
            },
            Some(_) => {},
            None => {
                lemma_insert_path_then_lookup(Seq::empty(), path, from + 1, value);
                let inner = insert_path_from(Seq::empty(), path, from + 1, value)->0;
                lemma_lookup_after_insert(
                    entries,
                    key,
                    ExprView::AttrSet { recursive: false, bindings: inner },
                    key,
                );
            },
        }
    }
}

/// Binding a value at a dotted path disturbs no sibling: a path that parts
/// from it at some name leads to what it led to before.
pub proof fn lemma_insert_path_keeps_siblings(
    entries: Entries,
    path: Seq<Seq<char>>,
    other: Seq<Seq<char>>,
    from: int,
    parting: int,
    value: ExprView,
)
    requires
        0 <= from <= parting,
        parting < path.len(),
        parting < other.len(),
        forall|i: int| from <= i < parting ==> path[i] == other[i],
        path[parting] != other[parting],
        insert_path_from(entries, path, from, value) is Some,
    ensures
        lookup_path(insert_path_from(entries, path, from, value)->0, other, from) == lookup_path(
            entries,
            other,
            from,
        ),
    decreases parting - from,
{
    let key = path[from];
    let after = insert_path_from(entries, path, from, value)->0;
    if from == parting {
        if from == path.len() - 1 {
            lemma_lookup_after_insert(entries, key, value, other[from]);
        } else {
            match lookup(entries, key) {
                Some(ExprView::AttrSet { recursive, bindings }) => {
                    let inner = insert_path_from(bindings, path, from + 1, value)->0;
                    lemma_lookup_after_insert(
                        entries,
                        key,
                        ExprView::AttrSet { recursive, bindings: inner },
                        other[from],
                    );
                },
                Some(_) => {},
                None => {
                    let inner = insert_path_from(Seq::empty(), path, from + 1, value)->0;
                    lemma_lookup_after_insert(
                        entries,
                        key,
                        ExprView::AttrSet { recursive: false, bindings: inner },
                        other[from],
                    );
                },
            }
        }
    } else {
        assert(other[from] == key);
        match lookup(entries, key) {
            Some(ExprView::AttrSet { recursive, bindings }) => {
                lemma_insert_path_keeps_siblings(bindings, path, other, from + 1, parting, value);
                let inner = insert_path_from(bindings, path, from + 1, value)->0;
                lemma_lookup_after_insert(
                    entries,
                    key,
                    ExprView::AttrSet { recursive, bindings: inner },
                    key,
                );
            },
            Some(_) => {},
            None => {
                lemma_insert_path_keeps_siblings(
                    Seq::empty(),
                    path,
                    other,
                    from + 1,
                    parting,
                    value,
                );
                let inner = insert_path_from(Seq::empty(), path, from + 1, value)->0;
                lemma_lookup_after_insert(
                    entries,
                    key,
                    ExprView::AttrSet { recursive: false, bindings: inner },
                    key,
                );
                lemma_lookup_path_of_nothing(other, from + 1);
            },
        }
    }
}

/// No path leads anywhere in an empty set.
pub proof fn lemma_lookup_path_of_nothing(path: Seq<Seq<char>>, from: int)
    ensures
        lookup_path(Seq::empty(), path, from) is None,
{
}

/// An expression without references, operators, `let`, `with` and
/// interpolation: a value, a search path, or a list or attribute set of such.
pub open spec fn value_only(e: ExprView) -> bool
    decreases e,
{
    match e {
        ExprView::Value(_) => true,
        ExprView::SearchPath(_) => true,
        ExprView::List(items) => all_value_only(items),
        ExprView::AttrSet { bindings, .. } => all_bound_value_only(bindings),
        _ => false,
    }
}

/// Every expression of `items` is value-only.
pub open spec fn all_value_only(items: Seq<ExprView>) -> bool
    decreases items,
{
    items.len() == 0 || (all_value_only(items.drop_last()) && value_only(items.last()))
}

/// Every name of `entries` is bound to a value-only expression.
pub open spec fn all_bound_value_only(entries: Entries) -> bool
    decreases entries,
{
    entries.len() == 0 || (all_bound_value_only(entries.drop_last()) && {
        proof {
            lemma_entry_decreases(entries, entries.len() - 1);
        }
        value_only(entries.last().1)
    })
}

/// `all_bound_value_only`, entry by entry.
pub proof fn lemma_all_bound_value_only(entries: Entries)
    ensures
        all_bound_value_only(entries) <==> forall|i: int|
            0 <= i < entries.len() ==> value_only((#[trigger] entries[i]).1),
    decreases entries.len(),
{
    if entries.len() > 0 {
        let prefix = entries.drop_last();
        lemma_all_bound_value_only(prefix);
        if all_bound_value_only(entries) {
            assert forall|i: int| 0 <= i < entries.len() implies value_only(
                (#[trigger] entries[i]).1,
            ) by {
                if i < prefix.len() {
                    assert(prefix[i] == entries[i]);
                }
            }
        }
        if forall|i: int| 0 <= i < entries.len() ==> value_only((#[trigger] entries[i]).1) {
            assert forall|i: int| 0 <= i < prefix.len() implies value_only(
                (#[trigger] prefix[i]).1,
            ) by {
                assert(prefix[i] == entries[i]);
            }
            assert(value_only(entries[entries.len() - 1].1));
        }
    }
}

/// Evaluating a value-only expression gives it back unchanged, under every
/// scope.
pub proof fn lemma_value_only_is_unchanged(e: ExprView, scope: Entries)
    requires
        value_only(e),
    ensures
        eval(e, scope) == Ok::<ExprView, EvalErrorView>(e),
    decreases e,
{
    match e {
        ExprView::List(items) => {
            lemma_items_are_unchanged(items, scope);
        },
        ExprView::AttrSet { recursive, bindings } => {
            lemma_bindings_are_unchanged(bindings, scope);
        },
        _ => {},
    }
}

/// Evaluating value-only elements gives them back unchanged.
pub proof fn lemma_items_are_unchanged(items: Seq<ExprView>, scope: Entries)
    requires
        all_value_only(items),
    ensures
        eval_items(items, scope) == Ok::<Seq<ExprView>, EvalErrorView>(items),
    decreases items,
{
    if items.len() > 0 {
        lemma_items_are_unchanged(items.drop_last(), scope);
        lemma_value_only_is_unchanged(items.last(), scope);
        assert(items.drop_last().push(items.last()) =~= items);
    } else {
        assert(items =~= Seq::empty());
    }
}

/// Evaluating value-only bindings gives them back unchanged.
pub proof fn lemma_bindings_are_unchanged(entries: Entries, scope: Entries)
    requires
        all_bound_value_only(entries),
    ensures
        eval_bindings(entries, scope) == Ok::<Entries, EvalErrorView>(entries),
    decreases entries,
{
    if entries.len() > 0 {
        lemma_bindings_are_unchanged(entries.drop_last(), scope);
        lemma_entry_decreases(entries, entries.len() - 1);
        lemma_value_only_is_unchanged(entries.last().1, scope);
        assert(entries.drop_last().push((entries.last().0, entries.last().1)) =~= entries);
    } else {
        assert(entries =~= Seq::empty());
    }
}

/// A name of a value-only scope is bound to a value-only expression.
pub proof fn lemma_lookup_value_only(scope: Entries, key: Seq<char>)
    requires
        all_bound_value_only(scope),
    ensures
        lookup(scope, key) matches Some(v) ==> value_only(v),
{
    lemma_index_of(scope, key);
    lemma_all_bound_value_only(scope);
}

/// Binding a value-only expression keeps a scope value-only.
pub proof fn lemma_insert_value_only(scope: Entries, key: Seq<char>, value: ExprView)
    requires
        all_bound_value_only(scope),
        value_only(value),
    ensures
        all_bound_value_only(insert_entry(scope, key, value)),
{
    let after = insert_entry(scope, key, value);
    lemma_index_of(scope, key);
    lemma_all_bound_value_only(scope);
    lemma_all_bound_value_only(after);
    assert forall|i: int| 0 <= i < after.len() implies value_only((#[trigger] after[i]).1) by {
        if i < scope.len() && after[i] != (key, value) {
            assert(after[i] == scope[i]);
        }
    }
}

/// Extending a value-only scope by value-only bindings keeps it value-only.
pub proof fn lemma_extend_value_only(scope: Entries, bindings: Entries)
    requires
        all_bound_value_only(scope),
        all_bound_value_only(bindings),
    ensures
        all_bound_value_only(extend_scope(scope, bindings)),
    decreases bindings.len(),
{
    if bindings.len() > 0 {
        lemma_extend_value_only(scope, bindings.drop_last());
        lemma_insert_value_only(
            extend_scope(scope, bindings.drop_last()),
            bindings.last().0,
            bindings.last().1,
        );
    }
}

/// Under a value-only scope, whatever an expression evaluates to is
/// value-only.
pub proof fn lemma_result_is_value_only(e: ExprView, scope: Entries)
    requires
        all_bound_value_only(scope),
    ensures
        eval(e, scope) matches Ok(r) ==> value_only(r),
    decreases e,
{
    match e {
        ExprView::Value(_) => {},
        ExprView::SearchPath(_) => {},
        ExprView::Ref(name) => {
            lemma_lookup_value_only(scope, name);
        },
        ExprView::UnaryOp { op, expr } => {},
        ExprView::BinaryOp { op, left, right } => {},
        ExprView::With { environment, body } => {
            lemma_result_is_value_only(*environment, scope);
            match eval(*environment, scope) {
                Ok(ExprView::AttrSet { bindings, .. }) => {
                    lemma_extend_value_only(scope, bindings);
                    lemma_result_is_value_only(*body, extend_scope(scope, bindings));
                },
                _ => {},
            }
        },
        ExprView::LetIn { bindings, body } => {
            lemma_let_scope_is_value_only(bindings, scope);
            match eval_let(bindings, scope) {
                Ok(inner) => {
                    lemma_result_is_value_only(*body, inner);
                },
                _ => {},
            }
        },
        ExprView::List(items) => {
            lemma_items_result_is_value_only(items, scope);
        },
        ExprView::AttrSet { recursive, bindings } => {
            lemma_bindings_result_is_value_only(bindings, scope);
        },
        ExprView::InterpolatedString(parts) => {},
    }
}

/// Under a value-only scope, evaluated elements are value-only.
pub proof fn lemma_items_result_is_value_only(items: Seq<ExprView>, scope: Entries)
    requires
        all_bound_value_only(scope),
    ensures
        eval_items(items, scope) matches Ok(values) ==> all_value_only(values),
    decreases items,
{
    if items.len() > 0 {
        lemma_items_result_is_value_only(items.drop_last(), scope);
        lemma_result_is_value_only(items.last(), scope);
        match (eval_items(items.drop_last(), scope), eval(items.last(), scope)) {
            (Ok(values), Ok(v)) => {
                assert(values.push(v).drop_last() =~= values);
            },
            _ => {},
        }
    }
}

/// Under a value-only scope, evaluated bindings are value-only.
pub proof fn lemma_bindings_result_is_value_only(entries: Entries, scope: Entries)
    requires
        all_bound_value_only(scope),
    ensures
        eval_bindings(entries, scope) matches Ok(values) ==> all_bound_value_only(values),
    decreases entries,
{
    if entries.len() > 0 {
        lemma_bindings_result_is_value_only(entries.drop_last(), scope);
        lemma_entry_decreases(entries, entries.len() - 1);
        lemma_result_is_value_only(entries.last().1, scope);
        match (eval_bindings(entries.drop_last(), scope), eval(entries.last().1, scope)) {
            (Ok(values), Ok(v)) => {
                assert(values.push((entries.last().0, v)).drop_last() =~= values);
            },
            _ => {},
        }
    }
}

/// The scope that a `let` block builds from a value-only scope is
/// value-only.
pub proof fn lemma_let_scope_is_value_only(entries: Entries, scope: Entries)
    requires
        all_bound_value_only(scope),
    ensures
        eval_let(entries, scope) matches Ok(inner) ==> all_bound_value_only(inner),
    decreases entries,
{
    if entries.len() > 0 {
        lemma_let_scope_is_value_only(entries.drop_last(), scope);
        match eval_let(entries.drop_last(), scope) {
            Ok(inner) => {
                lemma_entry_decreases(entries, entries.len() - 1);
                lemma_result_is_value_only(entries.last().1, inner);
                match eval(entries.last().1, inner) {
                    Ok(v) => {
                        lemma_insert_value_only(inner, entries.last().0, v);
                    },
                    _ => {},
                }
            },
            _ => {},
        }
    }
}

/// Evaluation is idempotent: under a value-only scope, what an expression
/// evaluates to evaluates to itself.
pub proof fn lemma_eval_is_idempotent(e: ExprView, scope: Entries)
    requires
        all_bound_value_only(scope),
        eval(e, scope) is Ok,
    ensures
        eval(eval(e, scope)->Ok_0, scope) == eval(e, scope),
{
    lemma_result_is_value_only(e, scope);
    lemma_value_only_is_unchanged(eval(e, scope)->Ok_0, scope);
}

} // verus!
