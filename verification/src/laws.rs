//! Laws of the evaluator, stated over the stack machine's specification
//! and proved for every predicate value.

use vstd::prelude::*;

use crate::expr::{
    fold_all, fold_any, lemma_run_concat, lemma_run_frame, lemma_run_height, run_nodes, spec_eval,
    wf_postfix, Func, Logic, NodeV,
};

verus! {

/// `all()` with zero operands evaluates to the logic's `top`, and `any()`
/// with zero operands to its `bottom`, whatever values the predicate
/// function would return.
pub proof fn lemma_empty_combinators<T: Logic>(vals: Seq<T>)
    ensures
        spec_eval(seq![NodeV::Fn(Func::All(0))], vals) == T::top_spec(),
        spec_eval(seq![NodeV::Fn(Func::Any(0))], vals) == T::bottom_spec(),
{
    let st = Seq::<T>::empty();
    assert(seq![NodeV::Fn(Func::All(0))].drop_first() =~= Seq::<NodeV>::empty());
    assert(seq![NodeV::Fn(Func::Any(0))].drop_first() =~= Seq::<NodeV>::empty());
    assert(st.take(0) =~= st);
    assert(st.skip(0) =~= st);
    assert(fold_all::<T>(st) == T::top_spec());
    assert(fold_any::<T>(st) == T::bottom_spec());
    let st_top = st.push(T::top_spec());
    let st_bot = st.push(T::bottom_spec());
    assert(run_nodes(seq![NodeV::Fn(Func::All(0))], vals, st) == run_nodes(
        Seq::<NodeV>::empty(),
        vals,
        st_top,
    ));
    assert(run_nodes(seq![NodeV::Fn(Func::Any(0))], vals, st) == run_nodes(
        Seq::<NodeV>::empty(),
        vals,
        st_bot,
    ));
    assert(run_nodes(Seq::<NodeV>::empty(), vals, st_top) == (st_top, vals));
    assert(run_nodes(Seq::<NodeV>::empty(), vals, st_bot) == (st_bot, vals));
    assert(st_top.last() == T::top_spec());
    assert(st_bot.last() == T::bottom_spec());
}

/// Under boolean logic, `not(not(E))` evaluates exactly as `E` alone, for
/// every well-formed operand — an atomic predicate or any nested
/// sub-expression — and every assignment of values to its predicates.
pub proof fn lemma_double_negation(f: Seq<NodeV>, vals: Seq<bool>)
    requires
        wf_postfix(f),
    ensures
        spec_eval(f + seq![NodeV::Fn(Func::Not), NodeV::Fn(Func::Not)], vals) == spec_eval(
            f,
            vals,
        ),
{
    let nn = seq![NodeV::Fn(Func::Not), NodeV::Fn(Func::Not)];
    let e0 = Seq::<bool>::empty();
    lemma_run_concat(f, nn, vals, e0);
    lemma_run_height(f, vals, e0);
    let st1 = run_nodes(f, vals, e0).0;
    let v1 = run_nodes(f, vals, e0).1;
    assert(st1.len() == 1);
    let n1 = seq![NodeV::Fn(Func::Not)];
    assert(nn.drop_first() =~= n1);
    assert(n1.drop_first() =~= Seq::<NodeV>::empty());
    let s2 = st1.drop_last().push(st1.last().not_spec());
    let s3 = s2.drop_last().push(s2.last().not_spec());
    assert(run_nodes(nn, v1, st1) == run_nodes(n1, v1, s2));
    assert(run_nodes(n1, v1, s2) == run_nodes(Seq::<NodeV>::empty(), v1, s3));
    assert(s3.last() == st1.last());
}

/// Under boolean logic, `all(not(A), not(B))` evaluates exactly as
/// `not(any(A, B))`, for every pair of well-formed operands — atomic
/// predicates or any nested sub-expressions — and every assignment of
/// values to their predicates: the De Morgan correspondence of the two
/// combinators.
pub proof fn lemma_de_morgan(a: Seq<NodeV>, b: Seq<NodeV>, vals: Seq<bool>)
    requires
        wf_postfix(a),
        wf_postfix(b),
    ensures
        spec_eval(
            a + seq![NodeV::Fn(Func::Not)] + b + seq![NodeV::Fn(Func::Not), NodeV::Fn(Func::All(2))],
            vals,
        ) == spec_eval(a + b + seq![NodeV::Fn(Func::Any(2)), NodeV::Fn(Func::Not)], vals),
{
    let e0 = Seq::<bool>::empty();
    let notn = seq![NodeV::Fn(Func::Not)];
    lemma_run_height(a, vals, e0);
    let sta = run_nodes(a, vals, e0).0;
    let v1 = run_nodes(a, vals, e0).1;
    assert(sta.len() == 1);
    let x = sta.last();
    assert(sta =~= seq![x]);
    lemma_run_height(b, v1, e0);
    let stb = run_nodes(b, v1, e0).0;
    let v2 = run_nodes(b, v1, e0).1;
    assert(stb.len() == 1);
    let y = stb.last();
    assert(stb =~= seq![y]);

    // left side: A not B not all(2)
    let l1 = a + notn;
    let l2 = l1 + b;
    let lhs = l2 + seq![NodeV::Fn(Func::Not), NodeV::Fn(Func::All(2))];
    lemma_run_concat(a, notn, vals, e0);
    assert(notn.drop_first() =~= Seq::<NodeV>::empty());
    assert(sta.drop_last().push(sta.last().not_spec()) =~= seq![!x]);
    assert(run_nodes(notn, v1, sta) == run_nodes(Seq::<NodeV>::empty(), v1, seq![!x]));
    assert(run_nodes(l1, vals, e0) == (seq![!x], v1));
    lemma_run_concat(l1, b, vals, e0);
    lemma_run_frame(b, v1, seq![!x], e0);
    assert(seq![!x] + e0 =~= seq![!x]);
    assert(seq![!x] + stb =~= seq![!x, y]);
    assert(run_nodes(l2, vals, e0) == (seq![!x, y], v2));
    lemma_run_concat(l2, seq![NodeV::Fn(Func::Not), NodeV::Fn(Func::All(2))], vals, e0);
    let alln = seq![NodeV::Fn(Func::All(2))];
    assert(seq![NodeV::Fn(Func::Not), NodeV::Fn(Func::All(2))].drop_first() =~= alln);
    assert(alln.drop_first() =~= Seq::<NodeV>::empty());
    let snn = seq![!x, !y];
    assert(seq![!x, y].drop_last().push(seq![!x, y].last().not_spec()) =~= snn);
    assert(run_nodes(seq![NodeV::Fn(Func::Not), NodeV::Fn(Func::All(2))], v2, seq![!x, y])
        == run_nodes(alln, v2, snn));
    assert(snn.take(0) =~= Seq::<bool>::empty());
    assert(snn.skip(0) =~= snn);
    assert(snn.drop_first() =~= seq![!y]);
    assert(seq![!y].drop_first() =~= Seq::<bool>::empty());
    assert(fold_all(Seq::<bool>::empty()) == true);
    assert(seq![!y].first() == !y);
    assert(fold_all(seq![!y]) == (true && !y));
    assert(snn.first() == !x);
    assert(fold_all(snn) == ((true && !y) && !x));
    let sl = Seq::<bool>::empty().push((true && !y) && !x);
    assert(snn.take(0).push(fold_all(snn.skip(0))) =~= sl);
    assert(run_nodes(alln, v2, snn) == run_nodes(Seq::<NodeV>::empty(), v2, sl));
    assert(run_nodes(lhs, vals, e0).0.last() == (!x && !y));

    // right side: A B any(2) not
    let r1 = a + b;
    let rhs = r1 + seq![NodeV::Fn(Func::Any(2)), NodeV::Fn(Func::Not)];
    lemma_run_concat(a, b, vals, e0);
    lemma_run_frame(b, v1, sta, e0);
    assert(sta + e0 =~= sta);
    assert(sta + stb =~= seq![x, y]);
    assert(run_nodes(r1, vals, e0) == (seq![x, y], v2));
    lemma_run_concat(r1, seq![NodeV::Fn(Func::Any(2)), NodeV::Fn(Func::Not)], vals, e0);
    assert(seq![NodeV::Fn(Func::Any(2)), NodeV::Fn(Func::Not)].drop_first() =~= notn);
    let sxy = seq![x, y];
    assert(sxy.take(0) =~= Seq::<bool>::empty());
    assert(sxy.skip(0) =~= sxy);
    assert(sxy.drop_first() =~= seq![y]);
    assert(seq![y].drop_first() =~= Seq::<bool>::empty());
    assert(fold_any(Seq::<bool>::empty()) == false);
    assert(seq![y].first() == y);
    assert(fold_any(seq![y]) == (false || y));
    assert(sxy.first() == x);
    assert(fold_any(sxy) == ((false || y) || x));
    let sor = Seq::<bool>::empty().push((false || y) || x);
    assert(sxy.take(0).push(fold_any(sxy.skip(0))) =~= sor);
    assert(run_nodes(seq![NodeV::Fn(Func::Any(2)), NodeV::Fn(Func::Not)], v2, sxy) == run_nodes(
        notn,
        v2,
        sor,
    ));
    let snor = Seq::<bool>::empty().push(!((false || y) || x));
    assert(sor.drop_last().push(sor.last().not_spec()) =~= snor);
    assert(run_nodes(notn, v2, sor) == run_nodes(Seq::<NodeV>::empty(), v2, snor));
    assert(run_nodes(rhs, vals, e0).0.last() == !(x || y));
}

} // verus!
