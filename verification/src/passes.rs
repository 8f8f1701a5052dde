//! Semantic passes over the top-level statement list: two stable
//! partitions, one hoisting function declarations before everything else,
//! one hoisting `pub` and `use` declarations before everything else.
//! Neither pass renames a symbol or alters a statement.

use vstd::prelude::*;

use crate::ast::Statement;

verus! {

/// The statements the first pass hoists: function declarations.
pub open spec fn fn_pred() -> spec_fn(Statement) -> bool {
    |s: Statement| s is Function
}

/// The complement of `fn_pred`.
pub open spec fn non_fn_pred() -> spec_fn(Statement) -> bool {
    |s: Statement| !(s is Function)
}

/// The statements the second pass hoists: `pub` and `use` declarations.
pub open spec fn import_pred() -> spec_fn(Statement) -> bool {
    |s: Statement| s is Pub || s is Use
}

/// The complement of `import_pred`.
pub open spec fn non_import_pred() -> spec_fn(Statement) -> bool {
    |s: Statement| !(s is Pub || s is Use)
}

/// The first pass as a function on sequences: functions first, the rest
/// after, both in their original order.
pub open spec fn spec_hoist_functions(ss: Seq<Statement>) -> Seq<Statement> {
    ss.filter(fn_pred()) + ss.filter(non_fn_pred())
}

/// The second pass as a function on sequences: `pub`/`use` first, the
/// rest after, both in their original order.
pub open spec fn spec_hoist_imports(ss: Seq<Statement>) -> Seq<Statement> {
    ss.filter(import_pred()) + ss.filter(non_import_pred())
}

/// Both passes, in the order `pass` applies them.
pub open spec fn spec_pass(ss: Seq<Statement>) -> Seq<Statement> {
    spec_hoist_imports(spec_hoist_functions(ss))
}

/// Filtering a sequence that already satisfies the predicate changes nothing.
proof fn lemma_filter_all(s: Seq<Statement>, p: spec_fn(Statement) -> bool)
    requires
        forall|i: int| 0 <= i < s.len() ==> p(#[trigger] s[i]),
    ensures
        s.filter(p) == s,
    decreases s.len(),
{
    reveal_with_fuel(Seq::<Statement>::filter, 2);
    if s.len() == 0 {
        assert(s.filter(p) =~= s);
    } else {
        lemma_filter_all(s.drop_last(), p);
        assert(p(s.last()));
        assert(s.filter(p) =~= s);
    }
}

/// Filtering a sequence none of which satisfies the predicate empties it.
proof fn lemma_filter_none(s: Seq<Statement>, p: spec_fn(Statement) -> bool)
    requires
        forall|i: int| 0 <= i < s.len() ==> !p(#[trigger] s[i]),
    ensures
        s.filter(p) == Seq::<Statement>::empty(),
    decreases s.len(),
{
    reveal_with_fuel(Seq::<Statement>::filter, 2);
    if s.len() == 0 {
        assert(s.filter(p) =~= Seq::<Statement>::empty());
    } else {
        lemma_filter_none(s.drop_last(), p);
        assert(!p(s.last()));
        assert(s.filter(p) =~= Seq::<Statement>::empty());
    }
}

/// Filtering by `p` after filtering by a weaker `q` is filtering by `p`.
proof fn lemma_filter_compose(s: Seq<Statement>, p: spec_fn(Statement) -> bool, q: spec_fn(
    Statement,
) -> bool)
    requires
        forall|x: Statement| #[trigger] p(x) ==> q(x),
    ensures
        s.filter(q).filter(p) == s.filter(p),
    decreases s.len(),
{
    reveal_with_fuel(Seq::<Statement>::filter, 2);
    if s.len() == 0 {
        assert(s.filter(q).filter(p) =~= s.filter(p));
    } else {
        lemma_filter_compose(s.drop_last(), p, q);
        if q(s.last()) {
            assert(s.filter(q) =~= s.drop_last().filter(q).push(s.last()));
            lemma_filter_push(s.drop_last().filter(q), s.last(), p);
        } else {
            assert(s.filter(q) =~= s.drop_last().filter(q));
            assert(!p(s.last()));
        }
        assert(s.filter(q).filter(p) =~= s.filter(p));
    }
}

/// One step of `filter`: appending an element appends it to the filtered
/// sequence exactly when it satisfies the predicate.
proof fn lemma_filter_push(s: Seq<Statement>, x: Statement, p: spec_fn(Statement) -> bool)
    ensures
        s.push(x).filter(p) == if p(x) {
            s.filter(p).push(x)
        } else {
            s.filter(p)
        },
{
    reveal_with_fuel(Seq::<Statement>::filter, 2);
    let sp = s.push(x);
    assert(sp.drop_last() =~= s);
    assert(sp.last() == x);
}

/// Hoisting functions keeps the relative order of the functions and the
/// relative order of the non-functions: each subsequence is unchanged.
pub proof fn lemma_hoist_functions_stable(ss: Seq<Statement>)
    ensures
        spec_hoist_functions(ss).filter(fn_pred()) == ss.filter(fn_pred()),
        spec_hoist_functions(ss).filter(non_fn_pred()) == ss.filter(non_fn_pred()),
{
    broadcast use vstd::seq_lib::group_filter_ensures;

    let f = ss.filter(fn_pred());
    let n = ss.filter(non_fn_pred());
    Seq::filter_distributes_over_add(f, n, fn_pred());
    Seq::filter_distributes_over_add(f, n, non_fn_pred());
    lemma_filter_all(f, fn_pred());
    lemma_filter_none(n, fn_pred());
    lemma_filter_none(f, non_fn_pred());
    lemma_filter_all(n, non_fn_pred());
    assert(spec_hoist_functions(ss).filter(fn_pred()) =~= ss.filter(fn_pred()));
    assert(spec_hoist_functions(ss).filter(non_fn_pred()) =~= ss.filter(non_fn_pred()));
}

/// Hoisting imports keeps the relative order of the `pub`/`use`
/// declarations and the relative order of everything else.
pub proof fn lemma_hoist_imports_stable(ss: Seq<Statement>)
    ensures
        spec_hoist_imports(ss).filter(import_pred()) == ss.filter(import_pred()),
        spec_hoist_imports(ss).filter(non_import_pred()) == ss.filter(non_import_pred()),
{
    broadcast use vstd::seq_lib::group_filter_ensures;

    let f = ss.filter(import_pred());
    let n = ss.filter(non_import_pred());
    Seq::filter_distributes_over_add(f, n, import_pred());
    Seq::filter_distributes_over_add(f, n, non_import_pred());
    lemma_filter_all(f, import_pred());
    lemma_filter_none(n, import_pred());
    lemma_filter_none(f, non_import_pred());
    lemma_filter_all(n, non_import_pred());
    assert(spec_hoist_imports(ss).filter(import_pred()) =~= ss.filter(import_pred()));
    assert(spec_hoist_imports(ss).filter(non_import_pred()) =~= ss.filter(non_import_pred()));
}

/// After both passes the subsequence of function declarations is exactly
/// the one of the input: their relative order is preserved.
pub proof fn lemma_pass_preserves_function_order(ss: Seq<Statement>)
    ensures
        spec_pass(ss).filter(fn_pred()) == ss.filter(fn_pred()),
{
    let h = spec_hoist_functions(ss);
    let i = h.filter(import_pred());
    let n = h.filter(non_import_pred());
    Seq::filter_distributes_over_add(i, n, fn_pred());
    assert forall|k: int| 0 <= k < i.len() implies !fn_pred()(#[trigger] i[k]) by {
        h.lemma_filter_pred(import_pred(), k);
    }
    lemma_filter_none(i, fn_pred());
    lemma_filter_compose(h, fn_pred(), non_import_pred());
    lemma_hoist_functions_stable(ss);
    assert(spec_pass(ss).filter(fn_pred()) =~= ss.filter(fn_pred()));
}

/// Hoisting functions leaves the subsequence of `pub`/`use` declarations
/// unchanged: no function declaration is a `pub` or `use`.
proof fn lemma_hoist_functions_keeps_imports(ss: Seq<Statement>)
    ensures
        spec_hoist_functions(ss).filter(import_pred()) == ss.filter(import_pred()),
{
    let f = ss.filter(fn_pred());
    let n = ss.filter(non_fn_pred());
    Seq::filter_distributes_over_add(f, n, import_pred());
    assert forall|k: int| 0 <= k < f.len() implies !import_pred()(#[trigger] f[k]) by {
        ss.lemma_filter_pred(fn_pred(), k);
    }
    lemma_filter_none(f, import_pred());
    lemma_filter_compose(ss, import_pred(), non_fn_pred());
    assert(spec_hoist_functions(ss).filter(import_pred()) =~= ss.filter(import_pred()));
}

/// After both passes the subsequence of `pub`/`use` declarations is
/// exactly the one of the input: their relative order is preserved.
pub proof fn lemma_pass_preserves_import_order(ss: Seq<Statement>)
    ensures
        spec_pass(ss).filter(import_pred()) == ss.filter(import_pred()),
{
    lemma_hoist_imports_stable(spec_hoist_functions(ss));
    lemma_hoist_functions_keeps_imports(ss);
}

/// Hoisting functions twice is hoisting them once: the pass is idempotent.
pub proof fn lemma_hoist_functions_idempotent(ss: Seq<Statement>)
    ensures
        spec_hoist_functions(spec_hoist_functions(ss)) == spec_hoist_functions(ss),
{
    lemma_hoist_functions_stable(ss);
}

/// Hoisting imports twice is hoisting them once: the pass is idempotent.
pub proof fn lemma_hoist_imports_idempotent(ss: Seq<Statement>)
    ensures
        spec_hoist_imports(spec_hoist_imports(ss)) == spec_hoist_imports(ss),
{
    lemma_hoist_imports_stable(ss);
}

/// Stable partition of the statement list by a predicate decided by
/// `keep_functions`: either function declarations or `pub`/`use`
/// declarations come first, the rest after, in their original order.
fn partition_hoist(ast: &mut Vec<Statement>, keep_functions: bool)
    ensures
        keep_functions ==> final(ast)@ == spec_hoist_functions(old(ast)@),
        !keep_functions ==> final(ast)@ == spec_hoist_imports(old(ast)@),
{
    let ghost p: spec_fn(Statement) -> bool = if keep_functions {
        fn_pred()
    } else {
        import_pred()
    };
    let ghost np: spec_fn(Statement) -> bool = if keep_functions {
        non_fn_pred()
    } else {
        non_import_pred()
    };
    let mut items: Vec<Statement> = Vec::new();
    core::mem::swap(ast, &mut items);
    let ghost orig = items@;
    let mut head: Vec<Statement> = Vec::new();
    let mut tail: Vec<Statement> = Vec::new();
    let ghost mut k: int = 0;
    while items.len() > 0
        invariant
            0 <= k <= orig.len(),
            items@ =~= orig.subrange(k, orig.len() as int),
            head@ == orig.subrange(0, k).filter(p),
            tail@ == orig.subrange(0, k).filter(np),
            p == (if keep_functions {
                fn_pred()
            } else {
                import_pred()
            }),
            np == (if keep_functions {
                non_fn_pred()
            } else {
                non_import_pred()
            }),
        decreases items@.len(),
    {
        let st = items.remove(0);
        proof {
            assert(st == orig[k]);
            assert(orig.subrange(0, k + 1) =~= orig.subrange(0, k).push(orig[k]));
            lemma_filter_push(orig.subrange(0, k), orig[k], p);
            lemma_filter_push(orig.subrange(0, k), orig[k], np);
        }
        let is_kept = if keep_functions {
            matches!(st, Statement::Function { .. })
        } else {
            matches!(st, Statement::Pub { .. } | Statement::Use { .. })
        };
        if is_kept {
            head.push(st);
        } else {
            tail.push(st);
        }
        proof {
            k = k + 1;
            assert(items@ =~= orig.subrange(k, orig.len() as int));
        }
    }
    proof {
        assert(orig.subrange(0, k) =~= orig);
    }
    head.append(&mut tail);
    core::mem::swap(ast, &mut head);
}

/// Reorder the top-level statements of a program: function declarations
/// are hoisted before everything else, then `pub`/`use` declarations are
/// hoisted before everything else. Both partitions are stable.
pub fn pass(ast: &mut Vec<Statement>)
    ensures
        final(ast)@ == spec_pass(old(ast)@),
{
    hoist_functions(ast);
    hoist_imports(ast);
}

/// Hoist function declarations, keeping relative orders.
pub fn hoist_functions(ast: &mut Vec<Statement>)
    ensures
        final(ast)@ == spec_hoist_functions(old(ast)@),
{
    partition_hoist(ast, true);
}

/// Hoist `pub` and `use` declarations, keeping relative orders.
pub fn hoist_imports(ast: &mut Vec<Statement>)
    ensures
        final(ast)@ == spec_hoist_imports(old(ast)@),
{
    partition_hoist(ast, false);
}

} // verus!
