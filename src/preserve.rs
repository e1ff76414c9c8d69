//! Elimination keeps the meaning of terms.

use vstd::prelude::*;
use crate::eval::eval;
use crate::mem::{
    array_dims, const_index, distinct_indices, elim, entry, index_const, index_test,
    last_index, lemma_elim_idempotent, lemma_lin_unbounded, lin, memory_free, obliv,
    resolve_select,
    select_chain, store_chain,
};
use crate::term::{
    array_size, element_sort, lookup, same_term, sort_of, value_ok, value_sort, Sort, Term,
    Value,
};

verus! {

proof fn lemma_size_of_sort(v: Value)
    requires
        value_sort(v) is Array,
    ensures
        array_size(v) == Some(value_sort(v)->Array_2),
    decreases v,
{
    if let Value::Update(a, _, _) = v {
        lemma_size_of_sort(*a);
    }
}

proof fn lemma_lookup_ok(v: Value, k: u64)
    requires
        value_ok(v),
        value_sort(v) is Array,
    ensures
        value_ok(lookup(v, k)),
        value_sort(lookup(v, k)) == *value_sort(v)->Array_1,
    decreases v,
{
    if let Value::Update(a, j, _) = v {
        if j != k {
            lemma_lookup_ok(*a, k);
        }
    }
}

/// A value of a well-sorted term has the term's sort.
proof fn lemma_eval_sound(t: Term, env: Map<Seq<char>, Value>)
    requires
        sort_of(t) is Some,
        eval(t, env) is Some,
    ensures
        value_sort(eval(t, env)->Some_0) == sort_of(t)->Some_0,
        value_ok(eval(t, env)->Some_0),
    decreases t,
{
    match t {
        Term::Nary(op, a, b) => {
            lemma_eval_sound(*a, env);
            lemma_eval_sound(*b, env);
        },
        Term::Ite(c, a, b) => {
            lemma_eval_sound(*c, env);
            if eval(*c, env) == Some(Value::Bool(true)) {
                lemma_eval_sound(*a, env);
            } else {
                lemma_eval_sound(*b, env);
            }
        },
        Term::Select(a, i) => {
            lemma_eval_sound(*a, env);
            lemma_eval_sound(*i, env);
            let k = eval(*i, env)->Some_0->BitVector_1;
            lemma_lookup_ok(eval(*a, env)->Some_0, k);
        },
        Term::Store(a, i, x) => {
            lemma_eval_sound(*a, env);
            lemma_eval_sound(*i, env);
            lemma_eval_sound(*x, env);
        },
        Term::Field(a, k) => {
            lemma_eval_sound(*a, env);
            lemma_lookup_ok(eval(*a, env)->Some_0, k);
        },
        Term::Update(a, _, x) => {
            lemma_eval_sound(*a, env);
            lemma_eval_sound(*x, env);
        },
        _ => {},
    }
}

/// Structurally identical terms have the same value and sort.
proof fn lemma_same_term(a: Term, b: Term, env: Map<Seq<char>, Value>)
    requires
        same_term(a, b),
    ensures
        eval(a, env) == eval(b, env),
        sort_of(a) == sort_of(b),
    decreases a,
{
    match (a, b) {
        (Term::Nary(_, a1, b1), Term::Nary(_, a2, b2)) => {
            lemma_same_term(*a1, *a2, env);
            lemma_same_term(*b1, *b2, env);
        },
        (Term::MatrixBin(_, a1, b1), Term::MatrixBin(_, a2, b2)) => {
            lemma_same_term(*a1, *a2, env);
            lemma_same_term(*b1, *b2, env);
        },
        (Term::Select(a1, b1), Term::Select(a2, b2)) => {
            lemma_same_term(*a1, *a2, env);
            lemma_same_term(*b1, *b2, env);
        },
        (Term::Ite(a1, b1, c1), Term::Ite(a2, b2, c2)) => {
            lemma_same_term(*a1, *a2, env);
            lemma_same_term(*b1, *b2, env);
            lemma_same_term(*c1, *c2, env);
        },
        (Term::Store(a1, b1, c1), Term::Store(a2, b2, c2)) => {
            lemma_same_term(*a1, *a2, env);
            lemma_same_term(*b1, *b2, env);
            lemma_same_term(*c1, *c2, env);
        },
        (Term::MatrixUn(_, a1), Term::MatrixUn(_, a2)) => {
            lemma_same_term(*a1, *a2, env);
        },
        (Term::Sigmoid(a1), Term::Sigmoid(a2)) => {
            lemma_same_term(*a1, *a2, env);
        },
        (Term::Field(a1, _), Term::Field(a2, _)) => {
            lemma_same_term(*a1, *a2, env);
        },
        (Term::Update(a1, _, b1), Term::Update(a2, _, b2)) => {
            lemma_same_term(*a1, *a2, env);
            lemma_same_term(*b1, *b2, env);
        },
        (Term::Var(n1, _), Term::Var(n2, _)) => {},
        _ => {},
    }
}

/// Static resolution of a read keeps its value.
proof fn lemma_resolve_eval(a: Term, j: Term, env: Map<Seq<char>, Value>)
    requires
        eval(Term::Select(Box::new(a), Box::new(j)), env) is Some,
    ensures
        eval(resolve_select(a, j), env) == eval(Term::Select(Box::new(a), Box::new(j)), env),
    decreases a,
{
    match a {
        Term::Store(b, i, v) => {
            let arr = eval(a, env)->Some_0;
            assert(eval(a, env) is Some);
            assert(eval(*b, env) is Some && eval(*i, env) is Some && eval(*v, env) is Some);
            assert(arr == Value::Update(Box::new(eval(*b, env)->Some_0), eval(*i, env)->Some_0->BitVector_1, Box::new(eval(*v, env)->Some_0)));
            assert(array_size(arr) == array_size(eval(*b, env)->Some_0));
            if same_term(*i, j) {
                lemma_same_term(*i, j, env);
            } else if distinct_indices(*i, j) {
                assert(eval(*i, env) == Some(Value::BitVector(i->Const_0->BitVector_0, const_index(*i)->Some_0)));
                assert(eval(j, env) == Some(Value::BitVector(j->Const_0->BitVector_0, const_index(j)->Some_0)));
                lemma_resolve_eval(*b, j, env);
            }
        },
        Term::Const(arr) => {
            assert(eval(a, env) is Some);
            assert(value_ok(arr));
            if let (Some(k), Some(n)) = (const_index(j), array_size(arr)) {
                if (k as int) < n {
                    lemma_lookup_value_ok(arr, k);
                    assert(eval(j, env) == Some(Value::BitVector(j->Const_0->BitVector_0, k)));
                }
            }
        },
        _ => {},
    }
}

proof fn lemma_lookup_value_ok(v: Value, k: u64)
    requires
        value_ok(v),
    ensures
        value_ok(lookup(v, k)),
    decreases v,
{
    if let Value::Update(a, j, _) = v {
        if j != k {
            lemma_lookup_value_ok(*a, k);
        }
    }
}

/// Static resolution of a read keeps its sort.
proof fn lemma_resolve_sort(a: Term, j: Term)
    requires
        sort_of(Term::Select(Box::new(a), Box::new(j))) is Some,
    ensures
        sort_of(resolve_select(a, j)) == sort_of(Term::Select(Box::new(a), Box::new(j))),
    decreases a,
{
    match a {
        Term::Store(b, i, v) => {
            assert(sort_of(a) is Some);
            assert(sort_of(a) == sort_of(*b));
            if same_term(*i, j) {
                lemma_same_term(*i, j, Map::empty());
            } else if distinct_indices(*i, j) {
                lemma_resolve_sort(*b, j);
            }
        },
        Term::Const(arr) => {
            assert(sort_of(a) is Some);
            assert(value_ok(arr));
            if let (Some(k), Some(n)) = (const_index(j), array_size(arr)) {
                if (k as int) < n {
                    lemma_lookup_ok(arr, k);
                }
            }
        },
        _ => {},
    }
}

/// Oblivious elimination keeps the sort of a well-sorted term.
proof fn lemma_obliv_sort(t: Term)
    requires
        sort_of(t) is Some,
    ensures
        sort_of(obliv(t)) == sort_of(t),
    decreases t,
{
    match t {
        Term::Nary(_, a, b) | Term::MatrixBin(_, a, b) => {
            lemma_obliv_sort(*a);
            lemma_obliv_sort(*b);
        },
        Term::Ite(a, b, c) | Term::Store(a, b, c) => {
            lemma_obliv_sort(*a);
            lemma_obliv_sort(*b);
            lemma_obliv_sort(*c);
        },
        Term::Select(a, i) => {
            lemma_obliv_sort(*a);
            lemma_obliv_sort(*i);
            lemma_resolve_sort(obliv(*a), obliv(*i));
        },
        Term::MatrixUn(_, a) | Term::Sigmoid(a) | Term::Field(a, _) => {
            lemma_obliv_sort(*a);
        },
        Term::Update(a, _, x) => {
            lemma_obliv_sort(*a);
            lemma_obliv_sort(*x);
        },
        _ => {},
    }
}

/// Oblivious elimination keeps every value a term has.
proof fn lemma_obliv_eval(t: Term, env: Map<Seq<char>, Value>)
    requires
        eval(t, env) is Some,
    ensures
        eval(obliv(t), env) == eval(t, env),
    decreases t,
{
    match t {
        Term::Nary(_, a, b) => {
            lemma_obliv_eval(*a, env);
            lemma_obliv_eval(*b, env);
        },
        Term::Ite(c, a, b) => {
            lemma_obliv_eval(*c, env);
            if eval(*c, env) == Some(Value::Bool(true)) {
                lemma_obliv_eval(*a, env);
            } else {
                lemma_obliv_eval(*b, env);
            }
        },
        Term::Select(a, i) => {
            lemma_obliv_eval(*a, env);
            lemma_obliv_eval(*i, env);
            lemma_resolve_eval(obliv(*a), obliv(*i), env);
        },
        Term::Store(a, i, x) => {
            lemma_obliv_eval(*a, env);
            lemma_obliv_eval(*i, env);
            lemma_obliv_eval(*x, env);
        },
        Term::Field(a, _) => {
            lemma_obliv_eval(*a, env);
        },
        Term::Update(a, _, x) => {
            lemma_obliv_eval(*a, env);
            lemma_obliv_eval(*x, env);
        },
        _ => {},
    }
}

proof fn lemma_index_const_eval(w: u32, k: nat, env: Map<Seq<char>, Value>)
    requires
        k <= u64::MAX,
    ensures
        eval(index_const(w, k), env) == Some(Value::BitVector(w, k as u64)),
{
}

/// The entry term at `k` has the entry of the array's value at `k`.
proof fn lemma_entry_eval(a: Term, k: u64, env: Map<Seq<char>, Value>, arr: Value)
    requires
        eval(a, env) == Some(arr),
        array_size(arr) is Some,
        (k as int) < array_size(arr)->Some_0,
    ensures
        eval(entry(a, k), env) == Some(lookup(arr, k)),
    decreases a,
{
    match a {
        Term::Update(b, j, x) => {
            let barr = eval(*b, env)->Some_0;
            assert(eval(*b, env) is Some);
            assert(arr == Value::Update(Box::new(barr), j, Box::new(eval(*x, env)->Some_0)));
            if j != k {
                lemma_entry_eval(*b, k, env, barr);
            }
        },
        Term::Const(c) => {
            assert(value_ok(c));
            lemma_lookup_value_ok(c, k);
        },
        _ => {},
    }
}

/// A chain of reads tested against `k..=last` reads the entry at the index's
/// value `m`.
proof fn lemma_select_chain_eval(
    a: Term,
    i: Term,
    w: u32,
    k: nat,
    last: nat,
    env: Map<Seq<char>, Value>,
    m: u64,
    arr: Value,
)
    requires
        eval(a, env) == Some(arr),
        array_size(arr) is Some,
        (m as int) < array_size(arr)->Some_0,
        eval(i, env) == Some(Value::BitVector(w, m)),
        k <= m <= last,
    ensures
        eval(select_chain(a, i, w, k, last), env) == Some(lookup(arr, m)),
    decreases last - k,
{
    lemma_index_const_eval(w, k, env);
    if k == m {
        lemma_entry_eval(a, m, env, arr);
    }
    if k < last {
        let test = index_test(i, w, k);
        assert(eval(test, env) == Some(Value::Bool(m == k)));
        if k != m {
            lemma_select_chain_eval(a, i, w, k + 1, last, env, m, arr);
        }
    }
}

/// A chain of writes tested against `k..=last` writes at the index's value `m`.
proof fn lemma_store_chain_eval(
    a: Term,
    i: Term,
    x: Term,
    w: u32,
    k: nat,
    last: nat,
    env: Map<Seq<char>, Value>,
    m: u64,
    arr: Value,
    xv: Value,
)
    requires
        eval(a, env) == Some(arr),
        array_size(arr) is Some,
        (m as int) < array_size(arr)->Some_0,
        element_sort(value_sort(arr)) == Some(value_sort(xv)),
        eval(i, env) == Some(Value::BitVector(w, m)),
        eval(x, env) == Some(xv),
        k <= m <= last,
    ensures
        eval(store_chain(a, i, x, w, k, last), env) == Some(
            Value::Update(Box::new(arr), m, Box::new(xv)),
        ),
    decreases last - k,
{
    lemma_index_const_eval(w, k, env);
    let up = Term::Update(Box::new(a), k as u64, Box::new(x));
    if k == m {
        assert(eval(up, env) == Some(Value::Update(Box::new(arr), m, Box::new(xv))));
    }
    if k < last {
        let test = index_test(i, w, k);
        assert(eval(test, env) == Some(Value::Bool(m == k)));
        if k != m {
            lemma_store_chain_eval(a, i, x, w, k + 1, last, env, m, arr, xv);
        }
    }
}

/// Linearization keeps every value of a well-sorted term.
#[verifier::spinoff_prover]
proof fn lemma_lin_eval(t: Term, max: usize, env: Map<Seq<char>, Value>)
    requires
        sort_of(t) is Some,
        eval(t, env) is Some,
        lin(t, max) is Some,
    ensures
        eval(lin(t, max)->Some_0, env) == eval(t, env),
    decreases t,
{
    match t {
        Term::Nary(_, a, b) => {
            lemma_lin_eval(*a, max, env);
            lemma_lin_eval(*b, max, env);
        },
        Term::Ite(c, a, b) => {
            lemma_lin_eval(*c, max, env);
            if eval(*c, env) == Some(Value::Bool(true)) {
                lemma_lin_eval(*a, max, env);
            } else {
                lemma_lin_eval(*b, max, env);
            }
        },
        Term::Select(a, i) => {
            lemma_lin_eval(*a, max, env);
            lemma_lin_eval(*i, max, env);
            let a2 = lin(*a, max)->Some_0;
            let i2 = lin(*i, max)->Some_0;
            assert(eval(Term::Select(Box::new(a2), Box::new(i2)), env) == eval(t, env));
            if const_index(i2) is Some {
                let arr = eval(*a, env)->Some_0;
                lemma_entry_eval(a2, const_index(i2)->Some_0, env, arr);
            } else if let Some((w, n)) = array_dims(sort_of(*a)) {
                let arr = eval(*a, env)->Some_0;
                lemma_eval_sound(*a, env);
                lemma_eval_sound(*i, env);
                lemma_size_of_sort(arr);
                let m = eval(*i, env)->Some_0->BitVector_1;
                lemma_select_chain_eval(a2, i2, w, 0, last_index(n), env, m, arr);
            }
        },
        Term::Store(a, i, x) => {
            lemma_lin_eval(*a, max, env);
            lemma_lin_eval(*i, max, env);
            lemma_lin_eval(*x, max, env);
            let a2 = lin(*a, max)->Some_0;
            let i2 = lin(*i, max)->Some_0;
            let x2 = lin(*x, max)->Some_0;
            if const_index(i2) is Some {
            } else if let Some((w, n)) = array_dims(sort_of(*a)) {
                let arr = eval(*a, env)->Some_0;
                lemma_eval_sound(*a, env);
                lemma_eval_sound(*i, env);
                lemma_size_of_sort(arr);
                let m = eval(*i, env)->Some_0->BitVector_1;
                lemma_store_chain_eval(
                    a2,
                    i2,
                    x2,
                    w,
                    0,
                    last_index(n),
                    env,
                    m,
                    arr,
                    eval(*x, env)->Some_0,
                );
            }
        },
        Term::Field(a, _) => {
            lemma_lin_eval(*a, max, env);
        },
        Term::Update(a, _, x) => {
            lemma_lin_eval(*a, max, env);
            lemma_lin_eval(*x, max, env);
        },
        _ => {},
    }
}

/// Elimination keeps the value of every well-sorted term that has one: a
/// read at any valid index gives the entry there, and a read after a write
/// gives the written value at that index and the old entry elsewhere, as
/// before elimination.
pub proof fn lemma_elim_keeps_value(t: Term, env: Map<Seq<char>, Value>)
    requires
        sort_of(t) is Some,
        eval(t, env) is Some,
    ensures
        eval(elim(t), env) == eval(t, env),
{
    lemma_obliv_eval(t, env);
    lemma_obliv_sort(t);
    lemma_lin_unbounded(obliv(t));
    lemma_lin_eval(obliv(t), usize::MAX, env);
}

proof fn lemma_entry_free(a: Term, k: u64)
    requires
        memory_free(a),
    ensures
        memory_free(entry(a, k)),
    decreases a,
{
    if let Term::Update(b, j, _) = a {
        if j != k {
            lemma_entry_free(*b, k);
        }
    }
}

proof fn lemma_select_chain_free(a: Term, i: Term, w: u32, k: nat, last: nat)
    requires
        memory_free(a),
        memory_free(i),
        k <= last,
    ensures
        memory_free(select_chain(a, i, w, k, last)),
    decreases last - k,
{
    lemma_entry_free(a, k as u64);
    if k < last {
        assert(memory_free(index_const(w, k)));
        assert(memory_free(index_test(i, w, k)));
        lemma_select_chain_free(a, i, w, k + 1, last);
    }
}

proof fn lemma_store_chain_free(a: Term, i: Term, x: Term, w: u32, k: nat, last: nat)
    requires
        memory_free(a),
        memory_free(i),
        memory_free(x),
        k <= last,
    ensures
        memory_free(store_chain(a, i, x, w, k, last)),
    decreases last - k,
{
    assert(memory_free(Term::Update(Box::new(a), k as u64, Box::new(x))));
    if k < last {
        assert(memory_free(index_const(w, k)));
        assert(memory_free(index_test(i, w, k)));
        lemma_store_chain_free(a, i, x, w, k + 1, last);
    }
}

/// Linearization of a well-sorted term leaves no memory operator.
#[verifier::spinoff_prover]
proof fn lemma_lin_frees(t: Term, max: usize)
    requires
        sort_of(t) is Some,
        lin(t, max) is Some,
    ensures
        memory_free(lin(t, max)->Some_0),
    decreases t,
{
    match t {
        Term::Nary(_, a, b) | Term::MatrixBin(_, a, b) | Term::Update(a, _, b) => {
            lemma_lin_frees(*a, max);
            lemma_lin_frees(*b, max);
        },
        Term::Ite(a, b, c) => {
            lemma_lin_frees(*a, max);
            lemma_lin_frees(*b, max);
            lemma_lin_frees(*c, max);
        },
        Term::Select(a, i) => {
            lemma_lin_frees(*a, max);
            lemma_lin_frees(*i, max);
            let a2 = lin(*a, max)->Some_0;
            let i2 = lin(*i, max)->Some_0;
            if const_index(i2) is Some {
                lemma_entry_free(a2, const_index(i2)->Some_0);
            } else {
                let (w, n) = array_dims(sort_of(*a))->Some_0;
                lemma_select_chain_free(a2, i2, w, 0, last_index(n));
            }
        },
        Term::Store(a, i, x) => {
            lemma_lin_frees(*a, max);
            lemma_lin_frees(*i, max);
            lemma_lin_frees(*x, max);
            let a2 = lin(*a, max)->Some_0;
            let i2 = lin(*i, max)->Some_0;
            let x2 = lin(*x, max)->Some_0;
            if const_index(i2) is None {
                let (w, n) = array_dims(sort_of(*a))->Some_0;
                lemma_store_chain_free(a2, i2, x2, w, 0, last_index(n));
            }
        },
        Term::MatrixUn(_, a) | Term::Sigmoid(a) | Term::Field(a, _) => {
            lemma_lin_frees(*a, max);
        },
        _ => {},
    }
}

/// Elimination of a well-sorted term leaves no memory operator, so
/// eliminating again changes nothing.
pub proof fn lemma_elim_twice(t: Term)
    requires
        sort_of(t) is Some,
    ensures
        memory_free(elim(t)),
        elim(elim(t)) == elim(t),
{
    lemma_obliv_sort(t);
    lemma_lin_unbounded(obliv(t));
    lemma_lin_frees(obliv(t), usize::MAX);
    lemma_elim_idempotent(elim(t));
}

proof fn lemma_entry_sort(a: Term, k: u64)
    requires
        sort_of(a) is Some,
        sort_of(a)->Some_0 is Array,
    ensures
        sort_of(entry(a, k)) == Some(*sort_of(a)->Some_0->Array_1),
    decreases a,
{
    match a {
        Term::Update(b, j, _) => {
            if j != k {
                lemma_entry_sort(*b, k);
            }
        },
        Term::Const(c) => {
            if let Some(n) = array_size(c) {
                if (k as int) < n {
                    lemma_lookup_ok(c, k);
                }
            }
        },
        _ => {},
    }
}

proof fn lemma_select_chain_sort(a: Term, i: Term, w: u32, k: nat, last: nat)
    requires
        sort_of(a) is Some,
        sort_of(a)->Some_0 is Array,
        sort_of(i) == Some(Sort::BitVector(w)),
        k <= last,
    ensures
        sort_of(select_chain(a, i, w, k, last)) == Some(*sort_of(a)->Some_0->Array_1),
    decreases last - k,
{
    lemma_entry_sort(a, k as u64);
    if k < last {
        assert(sort_of(index_const(w, k)) == Some(Sort::BitVector(w)));
        assert(sort_of(index_test(i, w, k)) == Some(Sort::Bool));
        lemma_select_chain_sort(a, i, w, k + 1, last);
    }
}

proof fn lemma_store_chain_sort(a: Term, i: Term, x: Term, w: u32, k: nat, last: nat)
    requires
        sort_of(a) is Some,
        sort_of(a)->Some_0 is Array,
        sort_of(x) == Some(*sort_of(a)->Some_0->Array_1),
        sort_of(i) == Some(Sort::BitVector(w)),
        k <= last,
    ensures
        sort_of(store_chain(a, i, x, w, k, last)) == sort_of(a),
    decreases last - k,
{
    let up = Term::Update(Box::new(a), k as u64, Box::new(x));
    assert(sort_of(up) == sort_of(a));
    if k < last {
        assert(sort_of(index_const(w, k)) == Some(Sort::BitVector(w)));
        assert(sort_of(index_test(i, w, k)) == Some(Sort::Bool));
        lemma_store_chain_sort(a, i, x, w, k + 1, last);
    }
}

/// Linearization keeps the sort of a well-sorted term.
#[verifier::spinoff_prover]
proof fn lemma_lin_sort(t: Term, max: usize)
    requires
        sort_of(t) is Some,
        lin(t, max) is Some,
    ensures
        sort_of(lin(t, max)->Some_0) == sort_of(t),
    decreases t,
{
    match t {
        Term::Nary(_, a, b) | Term::MatrixBin(_, a, b) | Term::Update(a, _, b) => {
            lemma_lin_sort(*a, max);
            lemma_lin_sort(*b, max);
        },
        Term::Ite(a, b, c) => {
            lemma_lin_sort(*a, max);
            lemma_lin_sort(*b, max);
            lemma_lin_sort(*c, max);
        },
        Term::Select(a, i) => {
            lemma_lin_sort(*a, max);
            lemma_lin_sort(*i, max);
            let a2 = lin(*a, max)->Some_0;
            let i2 = lin(*i, max)->Some_0;
            if const_index(i2) is Some {
                lemma_entry_sort(a2, const_index(i2)->Some_0);
            } else {
                let (w, n) = array_dims(sort_of(*a))->Some_0;
                lemma_select_chain_sort(a2, i2, w, 0, last_index(n));
            }
        },
        Term::Store(a, i, x) => {
            lemma_lin_sort(*a, max);
            lemma_lin_sort(*i, max);
            lemma_lin_sort(*x, max);
            let a2 = lin(*a, max)->Some_0;
            let i2 = lin(*i, max)->Some_0;
            let x2 = lin(*x, max)->Some_0;
            if const_index(i2) is None {
                let (w, n) = array_dims(sort_of(*a))->Some_0;
                lemma_store_chain_sort(a2, i2, x2, w, 0, last_index(n));
            }
        },
        Term::MatrixUn(_, a) | Term::Sigmoid(a) | Term::Field(a, _) => {
            lemma_lin_sort(*a, max);
        },
        _ => {},
    }
}

/// Elimination keeps the sort of a well-sorted term.
pub proof fn lemma_elim_keeps_sort(t: Term)
    requires
        sort_of(t) is Some,
    ensures
        sort_of(elim(t)) == sort_of(t),
{
    lemma_obliv_sort(t);
    lemma_lin_unbounded(obliv(t));
    lemma_lin_sort(obliv(t), usize::MAX);
}

} // verus!
