//! Elimination of array operators: first the oblivious accesses, then the
//! rest by linearization.

use vstd::prelude::*;
use crate::term::{array_size, check, lookup, same_term, sort_of, Op, Sort, Term, Value};

verus! {

/// The magnitude of a constant bit-vector index.
pub open spec fn const_index(t: Term) -> Option<u64> {
    match t {
        Term::Const(Value::BitVector(_, m)) => Some(m),
        _ => None,
    }
}

/// Indices that are both constants, with different magnitudes.
pub open spec fn distinct_indices(i: Term, j: Term) -> bool {
    const_index(i) is Some && const_index(j) is Some && const_index(i) != const_index(j)
}

/// `Select(a, j)` with what is statically known applied: a read of the index
/// just written gives the written value, a read of a different constant index
/// looks past the write, and a constant index into a constant array gives
/// the entry.
pub open spec fn resolve_select(a: Term, j: Term) -> Term
    decreases a,
{
    match a {
        Term::Store(b, i, v) => if same_term(*i, j) {
            *v
        } else if distinct_indices(*i, j) {
            resolve_select(*b, j)
        } else {
            Term::Select(Box::new(a), Box::new(j))
        },
        Term::Const(arr) => match (const_index(j), array_size(arr)) {
            (Some(k), Some(n)) => if (k as int) < n {
                Term::Const(lookup(arr, k))
            } else {
                Term::Select(Box::new(a), Box::new(j))
            },
            _ => Term::Select(Box::new(a), Box::new(j)),
        },
        _ => Term::Select(Box::new(a), Box::new(j)),
    }
}

/// Oblivious elimination: every `Select` resolved as far as static
/// knowledge allows, children before parents.
pub open spec fn obliv(t: Term) -> Term
    decreases t,
{
    match t {
        Term::Var(_, _) | Term::Const(_) => t,
        Term::Nary(op, a, b) => Term::Nary(op, Box::new(obliv(*a)), Box::new(obliv(*b))),
        Term::Ite(c, a, b) => Term::Ite(
            Box::new(obliv(*c)),
            Box::new(obliv(*a)),
            Box::new(obliv(*b)),
        ),
        Term::Select(a, i) => resolve_select(obliv(*a), obliv(*i)),
        Term::Store(a, i, v) => Term::Store(
            Box::new(obliv(*a)),
            Box::new(obliv(*i)),
            Box::new(obliv(*v)),
        ),
        Term::MatrixBin(op, a, b) => Term::MatrixBin(op, Box::new(obliv(*a)), Box::new(obliv(*b))),
        Term::MatrixUn(op, a) => Term::MatrixUn(op, Box::new(obliv(*a))),
        Term::Sigmoid(a) => Term::Sigmoid(Box::new(obliv(*a))),
        Term::Field(a, k) => Term::Field(Box::new(obliv(*a)), k),
        Term::Update(a, k, x) => Term::Update(Box::new(obliv(*a)), k, Box::new(obliv(*x))),
    }
}

fn const_index_of(t: &Term) -> (r: Option<u64>)
    ensures
        r == const_index(*t),
{
    match t {
        Term::Const(Value::BitVector(_, m)) => Some(*m),
        _ => None,
    }
}

/// Resolves `Select(a, j)` as far as static knowledge allows.
pub fn select(a: Term, j: Term) -> (r: Term)
    ensures
        r == resolve_select(a, j),
    decreases a,
{
    match a {
        Term::Store(b, i, v) => {
            if i.same(&j) {
                *v
            } else {
                let (ci, cj) = (const_index_of(&i), const_index_of(&j));
                if ci.is_some() && cj.is_some() && ci.unwrap() != cj.unwrap() {
                    select(*b, j)
                } else {
                    Term::Select(Box::new(Term::Store(b, i, v)), Box::new(j))
                }
            }
        },
        Term::Const(arr) => match (const_index_of(&j), arr.size()) {
            (Some(k), Some(n)) => if (k as u128) < (n as u128) {
                Term::Const(arr.lookup(k))
            } else {
                Term::Select(Box::new(Term::Const(arr)), Box::new(j))
            },
            _ => Term::Select(Box::new(Term::Const(arr)), Box::new(j)),
        },
        _ => Term::Select(Box::new(a), Box::new(j)),
    }
}

/// Oblivious elimination of a term.
pub fn elim_obliv(t: &Term) -> (r: Term)
    ensures
        r == obliv(*t),
    decreases t,
{
    match t {
        Term::Var(_, _) | Term::Const(_) => t.copy(),
        Term::Nary(op, a, b) => Term::Nary(op.copy(), Box::new(elim_obliv(a)), Box::new(elim_obliv(b))),
        Term::Ite(c, a, b) => Term::Ite(
            Box::new(elim_obliv(c)),
            Box::new(elim_obliv(a)),
            Box::new(elim_obliv(b)),
        ),
        Term::Select(a, i) => select(elim_obliv(a), elim_obliv(i)),
        Term::Store(a, i, v) => Term::Store(
            Box::new(elim_obliv(a)),
            Box::new(elim_obliv(i)),
            Box::new(elim_obliv(v)),
        ),
        Term::MatrixBin(op, a, b) => Term::MatrixBin(
            op.copy(),
            Box::new(elim_obliv(a)),
            Box::new(elim_obliv(b)),
        ),
        Term::MatrixUn(op, a) => Term::MatrixUn(op.copy(), Box::new(elim_obliv(a))),
        Term::Sigmoid(a) => Term::Sigmoid(Box::new(elim_obliv(a))),
        Term::Field(a, k) => Term::Field(Box::new(elim_obliv(a)), *k),
        Term::Update(a, k, x) => Term::Update(Box::new(elim_obliv(a)), *k, Box::new(elim_obliv(x))),
    }
}

/// Why an array could not be eliminated.
pub enum ElimError {
    /// An array accessed at a non-constant index has more entries than allowed.
    UnsupportedSize,
}

/// The constant `k` as an index of width `w`.
pub open spec fn index_const(w: u32, k: nat) -> Term {
    Term::Const(Value::BitVector(w, k as u64))
}

/// The test `i = k`.
pub open spec fn index_test(i: Term, w: u32, k: nat) -> Term {
    Term::Nary(Op::Eq, Box::new(i), Box::new(index_const(w, k)))
}

/// The entry at position `k` of an array term: the value of the last update
/// of `k`, the entry of a constant, or else a field of the array.
pub open spec fn entry(a: Term, k: u64) -> Term
    decreases a,
{
    match a {
        Term::Update(b, j, x) => if j == k {
            *x
        } else {
            entry(*b, k)
        },
        Term::Const(arr) => match array_size(arr) {
            Some(n) => if (k as int) < n {
                Term::Const(lookup(arr, k))
            } else {
                Term::Field(Box::new(a), k)
            },
            None => Term::Field(Box::new(a), k),
        },
        _ => Term::Field(Box::new(a), k),
    }
}

/// A read of `a` at `i` as a chain of tests of `i` against `k`, `k + 1`,
/// ..., with the entry at `last` when all fail.
pub open spec fn select_chain(a: Term, i: Term, w: u32, k: nat, last: nat) -> Term
    decreases last - k,
{
    if k >= last {
        entry(a, k as u64)
    } else {
        Term::Ite(
            Box::new(index_test(i, w, k)),
            Box::new(entry(a, k as u64)),
            Box::new(select_chain(a, i, w, k + 1, last)),
        )
    }
}

/// A write of `v` into `a` at `i` as a chain of tests of `i`, each branch
/// the array with one entry replaced.
pub open spec fn store_chain(a: Term, i: Term, v: Term, w: u32, k: nat, last: nat) -> Term
    decreases last - k,
{
    let up = Term::Update(Box::new(a), k as u64, Box::new(v));
    if k >= last {
        up
    } else {
        Term::Ite(
            Box::new(index_test(i, w, k)),
            Box::new(up),
            Box::new(store_chain(a, i, v, w, k + 1, last)),
        )
    }
}

/// Index width and size of an array sort.
pub open spec fn array_dims(s: Option<Sort>) -> Option<(u32, usize)> {
    match s {
        Some(Sort::Array(ix, _, n)) => match *ix {
            Sort::BitVector(w) => Some((w, n)),
            _ => None,
        },
        _ => None,
    }
}

/// The last valid index of an array of `n` entries (0 for an empty one).
pub open spec fn last_index(n: usize) -> nat {
    if n == 0 {
        0
    } else {
        (n - 1) as nat
    }
}

/// Linearization: a read or write at a constant index becomes a field or an
/// update of the array; one at another index becomes a chain over all valid
/// indices of an array of at most `max` entries, `None` where an array is
/// larger.
pub open spec fn lin(t: Term, max: usize) -> Option<Term>
    decreases t,
{
    match t {
        Term::Var(_, _) | Term::Const(_) => Some(t),
        Term::Nary(op, a, b) => match (lin(*a, max), lin(*b, max)) {
            (Some(a2), Some(b2)) => Some(Term::Nary(op, Box::new(a2), Box::new(b2))),
            _ => None,
        },
        Term::Ite(c, a, b) => match (lin(*c, max), lin(*a, max), lin(*b, max)) {
            (Some(c2), Some(a2), Some(b2)) => Some(
                Term::Ite(Box::new(c2), Box::new(a2), Box::new(b2)),
            ),
            _ => None,
        },
        Term::Select(a, i) => match (lin(*a, max), lin(*i, max)) {
            (Some(a2), Some(i2)) => match const_index(i2) {
                Some(k) => Some(entry(a2, k)),
                None => match array_dims(sort_of(*a)) {
                    Some((w, n)) => if n > max {
                        None
                    } else {
                        Some(select_chain(a2, i2, w, 0, last_index(n)))
                    },
                    None => Some(Term::Select(Box::new(a2), Box::new(i2))),
                },
            },
            _ => None,
        },
        Term::Store(a, i, v) => match (lin(*a, max), lin(*i, max), lin(*v, max)) {
            (Some(a2), Some(i2), Some(v2)) => match const_index(i2) {
                Some(k) => Some(Term::Update(Box::new(a2), k, Box::new(v2))),
                None => match array_dims(sort_of(*a)) {
                    Some((w, n)) => if n > max {
                        None
                    } else {
                        Some(store_chain(a2, i2, v2, w, 0, last_index(n)))
                    },
                    None => Some(Term::Store(Box::new(a2), Box::new(i2), Box::new(v2))),
                },
            },
            _ => None,
        },
        Term::MatrixBin(op, a, b) => match (lin(*a, max), lin(*b, max)) {
            (Some(a2), Some(b2)) => Some(Term::MatrixBin(op, Box::new(a2), Box::new(b2))),
            _ => None,
        },
        Term::MatrixUn(op, a) => match lin(*a, max) {
            Some(a2) => Some(Term::MatrixUn(op, Box::new(a2))),
            None => None,
        },
        Term::Sigmoid(a) => match lin(*a, max) {
            Some(a2) => Some(Term::Sigmoid(Box::new(a2))),
            None => None,
        },
        Term::Field(a, k) => match lin(*a, max) {
            Some(a2) => Some(Term::Field(Box::new(a2), k)),
            None => None,
        },
        Term::Update(a, k, x) => match (lin(*a, max), lin(*x, max)) {
            (Some(a2), Some(x2)) => Some(Term::Update(Box::new(a2), k, Box::new(x2))),
            _ => None,
        },
    }
}

/// The entry at position `k` of an array term.
pub fn entry_of(a: Term, k: u64) -> (r: Term)
    ensures
        r == entry(a, k),
    decreases a,
{
    match a {
        Term::Update(b, j, x) => if j == k {
            *x
        } else {
            entry_of(*b, k)
        },
        Term::Const(arr) => match arr.size() {
            Some(n) => if (k as u128) < (n as u128) {
                Term::Const(arr.lookup(k))
            } else {
                Term::Field(Box::new(Term::Const(arr)), k)
            },
            None => Term::Field(Box::new(Term::Const(arr)), k),
        },
        _ => Term::Field(Box::new(a), k),
    }
}

fn make_index_test(i: &Term, w: u32, k: usize) -> (r: Term)
    ensures
        r == index_test(*i, w, k as nat),
{
    Term::Nary(Op::Eq, Box::new(i.copy()), Box::new(Term::Const(Value::BitVector(w, k as u64))))
}

fn make_select_chain(a: &Term, i: &Term, w: u32, last: usize) -> (r: Term)
    ensures
        r == select_chain(*a, *i, w, 0, last as nat),
{
    let mut acc = entry_of(a.copy(), last as u64);
    let mut k: usize = last;
    while k > 0
        invariant
            k <= last,
            acc == select_chain(*a, *i, w, k as nat, last as nat),
        decreases k,
    {
        k = k - 1;
        let e = entry_of(a.copy(), k as u64);
        acc = Term::Ite(Box::new(make_index_test(i, w, k)), Box::new(e), Box::new(acc));
    }
    acc
}

fn make_store_chain(a: &Term, i: &Term, v: &Term, w: u32, last: usize) -> (r: Term)
    ensures
        r == store_chain(*a, *i, *v, w, 0, last as nat),
{
    let mut acc = Term::Update(Box::new(a.copy()), last as u64, Box::new(v.copy()));
    let mut k: usize = last;
    while k > 0
        invariant
            k <= last,
            acc == store_chain(*a, *i, *v, w, k as nat, last as nat),
        decreases k,
    {
        k = k - 1;
        let up = Term::Update(Box::new(a.copy()), k as u64, Box::new(v.copy()));
        acc = Term::Ite(Box::new(make_index_test(i, w, k)), Box::new(up), Box::new(acc));
    }
    acc
}

fn dims(s: Option<Sort>) -> (r: Option<(u32, usize)>)
    ensures
        r == array_dims(s),
{
    match s {
        Some(Sort::Array(ix, _, n)) => match *ix {
            Sort::BitVector(w) => Some((w, n)),
            _ => None,
        },
        _ => None,
    }
}

/// Linearizes every array read and write, with arrays of at most `max`
/// entries where the index is not a constant.
pub fn linearize(t: &Term, max: usize) -> (r: Result<Term, ElimError>)
    ensures
        match lin(*t, max) {
            Some(x) => r matches Ok(y) && y == x,
            None => r is Err,
        },
    decreases t,
{
    match t {
        Term::Var(_, _) | Term::Const(_) => Ok(t.copy()),
        Term::Nary(op, a, b) => {
            let a2 = linearize(a, max)?;
            let b2 = linearize(b, max)?;
            Ok(Term::Nary(op.copy(), Box::new(a2), Box::new(b2)))
        },
        Term::Ite(c, a, b) => {
            let c2 = linearize(c, max)?;
            let a2 = linearize(a, max)?;
            let b2 = linearize(b, max)?;
            Ok(Term::Ite(Box::new(c2), Box::new(a2), Box::new(b2)))
        },
        Term::Select(a, i) => {
            let a2 = linearize(a, max)?;
            let i2 = linearize(i, max)?;
            match const_index_of(&i2) {
                Some(k) => Ok(entry_of(a2, k)),
                None => match dims(check(a)) {
                    Some((w, n)) => if n > max {
                        Err(ElimError::UnsupportedSize)
                    } else {
                        let last = if n == 0 { 0 } else { n - 1 };
                        Ok(make_select_chain(&a2, &i2, w, last))
                    },
                    None => Ok(Term::Select(Box::new(a2), Box::new(i2))),
                },
            }
        },
        Term::Store(a, i, v) => {
            let a2 = linearize(a, max)?;
            let i2 = linearize(i, max)?;
            let v2 = linearize(v, max)?;
            match const_index_of(&i2) {
                Some(k) => Ok(Term::Update(Box::new(a2), k, Box::new(v2))),
                None => match dims(check(a)) {
                    Some((w, n)) => if n > max {
                        Err(ElimError::UnsupportedSize)
                    } else {
                        let last = if n == 0 { 0 } else { n - 1 };
                        Ok(make_store_chain(&a2, &i2, &v2, w, last))
                    },
                    None => Ok(Term::Store(Box::new(a2), Box::new(i2), Box::new(v2))),
                },
            }
        },
        Term::MatrixBin(op, a, b) => {
            let a2 = linearize(a, max)?;
            let b2 = linearize(b, max)?;
            Ok(Term::MatrixBin(op.copy(), Box::new(a2), Box::new(b2)))
        },
        Term::MatrixUn(op, a) => {
            let a2 = linearize(a, max)?;
            Ok(Term::MatrixUn(op.copy(), Box::new(a2)))
        },
        Term::Sigmoid(a) => {
            let a2 = linearize(a, max)?;
            Ok(Term::Sigmoid(Box::new(a2)))
        },
        Term::Field(a, k) => {
            let a2 = linearize(a, max)?;
            Ok(Term::Field(Box::new(a2), *k))
        },
        Term::Update(a, k, x) => {
            let a2 = linearize(a, max)?;
            let x2 = linearize(x, max)?;
            Ok(Term::Update(Box::new(a2), *k, Box::new(x2)))
        },
    }
}

/// A term free of memory operators: no `Select` and no `Store` anywhere.
pub open spec fn memory_free(t: Term) -> bool
    decreases t,
{
    match t {
        Term::Var(_, _) | Term::Const(_) => true,
        Term::Select(_, _) | Term::Store(_, _, _) => false,
        Term::Nary(_, a, b) | Term::MatrixBin(_, a, b) | Term::Update(a, _, b) => memory_free(*a)
            && memory_free(*b),
        Term::Ite(c, a, b) => memory_free(*c) && memory_free(*a) && memory_free(*b),
        Term::MatrixUn(_, a) | Term::Sigmoid(a) | Term::Field(a, _) => memory_free(*a),
    }
}

/// With no bound on sizes, linearization always succeeds.
pub proof fn lemma_lin_unbounded(t: Term)
    ensures
        lin(t, usize::MAX) is Some,
    decreases t,
{
    match t {
        Term::Var(_, _) | Term::Const(_) => {},
        Term::Nary(_, a, b) | Term::MatrixBin(_, a, b) | Term::Select(a, b) | Term::Update(
            a,
            _,
            b,
        ) => {
            lemma_lin_unbounded(*a);
            lemma_lin_unbounded(*b);
        },
        Term::Ite(a, b, c) | Term::Store(a, b, c) => {
            lemma_lin_unbounded(*a);
            lemma_lin_unbounded(*b);
            lemma_lin_unbounded(*c);
        },
        Term::MatrixUn(_, a) | Term::Sigmoid(a) | Term::Field(a, _) => {
            lemma_lin_unbounded(*a);
        },
    }
}

/// The whole pipeline: oblivious elimination, then unbounded linearization.
pub open spec fn elim(t: Term) -> Term {
    lin(obliv(t), usize::MAX).unwrap()
}

/// Eliminates arrays, first oblivious ones, and then all arrays. The result
/// of a well-sorted term has no memory operator left, and the same sort.
pub fn array_elim(t: &Term) -> (r: Term)
    ensures
        r == elim(*t),
        lin(obliv(*t), usize::MAX) == Some(r),
        sort_of(*t) is Some ==> memory_free(r) && sort_of(r) == sort_of(*t),
{
    let o = elim_obliv(t);
    proof {
        lemma_lin_unbounded(o);
        if sort_of(*t) is Some {
            crate::preserve::lemma_elim_twice(*t);
            crate::preserve::lemma_elim_keeps_sort(*t);
        }
    }
    match linearize(&o, usize::MAX) {
        Ok(r) => r,
        Err(_) => {
            proof {
                assert(false);
            }
            o
        },
    }
}

/// Oblivious elimination leaves a term free of memory operators as it is.
pub proof fn lemma_obliv_memory_free(t: Term)
    requires
        memory_free(t),
    ensures
        obliv(t) == t,
    decreases t,
{
    match t {
        Term::Nary(_, a, b) | Term::MatrixBin(_, a, b) | Term::Update(a, _, b) => {
            lemma_obliv_memory_free(*a);
            lemma_obliv_memory_free(*b);
        },
        Term::Ite(a, b, c) => {
            lemma_obliv_memory_free(*a);
            lemma_obliv_memory_free(*b);
            lemma_obliv_memory_free(*c);
        },
        Term::MatrixUn(_, a) | Term::Sigmoid(a) | Term::Field(a, _) => {
            lemma_obliv_memory_free(*a);
        },
        _ => {},
    }
}

/// Linearization leaves a term free of memory operators as it is, whatever
/// the bound.
pub proof fn lemma_lin_memory_free(t: Term, max: usize)
    requires
        memory_free(t),
    ensures
        lin(t, max) == Some(t),
    decreases t,
{
    match t {
        Term::Nary(_, a, b) | Term::MatrixBin(_, a, b) | Term::Update(a, _, b) => {
            lemma_lin_memory_free(*a, max);
            lemma_lin_memory_free(*b, max);
        },
        Term::Ite(a, b, c) => {
            lemma_lin_memory_free(*a, max);
            lemma_lin_memory_free(*b, max);
            lemma_lin_memory_free(*c, max);
        },
        Term::MatrixUn(_, a) | Term::Sigmoid(a) | Term::Field(a, _) => {
            lemma_lin_memory_free(*a, max);
        },
        _ => {},
    }
}

/// Elimination is a no-op on a term free of memory operators.
pub proof fn lemma_elim_idempotent(t: Term)
    requires
        memory_free(t),
    ensures
        elim(t) == t,
{
    lemma_obliv_memory_free(t);
    lemma_lin_memory_free(t, usize::MAX);
}

/// A read at the index just written gives the written value; a read at a
/// different constant index gives what the array held before the write.
pub proof fn lemma_store_then_select(a: Term, i: Term, v: Term, j: Term)
    ensures
        same_term(obliv(i), obliv(j)) ==> obliv(
            Term::Select(Box::new(Term::Store(Box::new(a), Box::new(i), Box::new(v))), Box::new(j)),
        ) == obliv(v),
        !same_term(obliv(i), obliv(j)) && distinct_indices(obliv(i), obliv(j)) ==> obliv(
            Term::Select(Box::new(Term::Store(Box::new(a), Box::new(i), Box::new(v))), Box::new(j)),
        ) == obliv(Term::Select(Box::new(a), Box::new(j))),
{
    let st = Term::Store(Box::new(a), Box::new(i), Box::new(v));
    assert(obliv(st) == Term::Store(Box::new(obliv(a)), Box::new(obliv(i)), Box::new(obliv(v))));
    assert(obliv(Term::Select(Box::new(st), Box::new(j))) == resolve_select(obliv(st), obliv(j)));
    assert(obliv(Term::Select(Box::new(a), Box::new(j))) == resolve_select(obliv(a), obliv(j)));
}

} // verus!
