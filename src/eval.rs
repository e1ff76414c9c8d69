//! The meaning of terms: evaluation to constants.

use vstd::prelude::*;
use crate::term::{array_size, element_sort, lookup, value_ok, value_sort, Op, Term, Value};

verus! {

/// The number of values of a bit-vector of width `w`.
pub open spec fn modulus(w: nat) -> nat
    decreases w,
{
    if w == 0 {
        1
    } else {
        2 * modulus((w - 1) as nat)
    }
}

/// A two-operand operator on constants. Bit-vector arithmetic wraps at the
/// width, and is defined for widths up to 32 on magnitudes within the width.
pub open spec fn eval_nary(op: Op, x: Value, y: Value) -> Option<Value> {
    match (x, y) {
        (Value::Bool(p), Value::Bool(q)) => match op {
            Op::And => Some(Value::Bool(p && q)),
            Op::Eq => Some(Value::Bool(p == q)),
            _ => None,
        },
        (Value::BitVector(w1, m1), Value::BitVector(w2, m2)) => match op {
            Op::Eq => Some(Value::Bool(w1 == w2 && m1 == m2)),
            Op::And => None,
            _ => {
                let m = modulus(w1 as nat);
                if w1 == w2 && w1 <= 32 && m1 < m && m2 < m {
                    let r: int = match op {
                        Op::BvAdd => (m1 + m2) % (m as int),
                        Op::BvSub => (m1 - m2 + m) % (m as int),
                        Op::BvMul => (m1 * m2) % (m as int),
                        _ => (m1 & m2) as int,
                    };
                    Some(Value::BitVector(w1, r as u64))
                } else {
                    None
                }
            },
        },
        _ => None,
    }
}

/// The value of a term where the variables take their values from `env`;
/// `None` where it has none (a read or write out of range, an operand of the
/// wrong kind, a variable missing from `env` or of another sort, a matrix
/// operator).
pub open spec fn eval(t: Term, env: Map<Seq<char>, Value>) -> Option<Value>
    decreases t,
{
    match t {
        Term::Var(n, s) => if env.contains_key(n@) && value_sort(env[n@]) == s && value_ok(
            env[n@],
        ) {
            Some(env[n@])
        } else {
            None
        },
        Term::Const(v) => if value_ok(v) {
            Some(v)
        } else {
            None
        },
        Term::Nary(op, a, b) => match (eval(*a, env), eval(*b, env)) {
            (Some(x), Some(y)) => eval_nary(op, x, y),
            _ => None,
        },
        Term::Ite(c, a, b) => match eval(*c, env) {
            Some(Value::Bool(true)) => eval(*a, env),
            Some(Value::Bool(false)) => eval(*b, env),
            _ => None,
        },
        Term::Select(a, i) => match (eval(*a, env), eval(*i, env)) {
            (Some(arr), Some(Value::BitVector(_, k))) => match array_size(arr) {
                Some(n) => if (k as int) < n {
                    Some(lookup(arr, k))
                } else {
                    None
                },
                None => None,
            },
            _ => None,
        },
        Term::Store(a, i, x) => match (eval(*a, env), eval(*i, env), eval(*x, env)) {
            (Some(arr), Some(Value::BitVector(_, k)), Some(v)) => match array_size(arr) {
                Some(n) => if (k as int) < n && element_sort(value_sort(arr)) == Some(
                    value_sort(v),
                ) {
                    Some(Value::Update(Box::new(arr), k, Box::new(v)))
                } else {
                    None
                },
                None => None,
            },
            _ => None,
        },
        Term::Field(a, k) => match eval(*a, env) {
            Some(arr) => match array_size(arr) {
                Some(n) => if (k as int) < n {
                    Some(lookup(arr, k))
                } else {
                    None
                },
                None => None,
            },
            None => None,
        },
        Term::Update(a, k, x) => match (eval(*a, env), eval(*x, env)) {
            (Some(arr), Some(v)) => match array_size(arr) {
                Some(n) => if (k as int) < n && element_sort(value_sort(arr)) == Some(
                    value_sort(v),
                ) {
                    Some(Value::Update(Box::new(arr), k, Box::new(v)))
                } else {
                    None
                },
                None => None,
            },
            _ => None,
        },
        _ => None,
    }
}

proof fn lemma_modulus_mono(a: nat, b: nat)
    requires
        a <= b,
    ensures
        1 <= modulus(a) <= modulus(b),
    decreases b,
{
    if b > a {
        lemma_modulus_mono(a, (b - 1) as nat);
    } else if a > 0 {
        lemma_modulus_mono((a - 1) as nat, (a - 1) as nat);
    }
}

fn compute_modulus(w: u32) -> (r: u64)
    requires
        w <= 32,
    ensures
        r == modulus(w as nat),
{
    proof {
        lemma_modulus_mono(w as nat, 32);
        reveal_with_fuel(modulus, 33);
        assert(modulus(32) == 0x1_0000_0000);
    }
    let mut r: u64 = 1;
    let mut k: u32 = 0;
    while k < w
        invariant
            k <= w <= 32,
            r == modulus(k as nat),
            modulus(w as nat) <= 0x1_0000_0000,
        decreases w - k,
    {
        proof {
            lemma_modulus_mono((k + 1) as nat, w as nat);
        }
        r = r * 2;
        k = k + 1;
    }
    r
}

fn apply_nary(op: &Op, x: Value, y: Value) -> (r: Option<Value>)
    ensures
        r == eval_nary(*op, x, y),
{
    match (x, y) {
        (Value::Bool(p), Value::Bool(q)) => match op {
            Op::And => Some(Value::Bool(p && q)),
            Op::Eq => Some(Value::Bool(p == q)),
            _ => None,
        },
        (Value::BitVector(w1, m1), Value::BitVector(w2, m2)) => match op {
            Op::Eq => Some(Value::Bool(w1 == w2 && m1 == m2)),
            Op::And => None,
            _ => {
                if w1 != w2 || w1 > 32 {
                    return None;
                }
                let m = compute_modulus(w1);
                if m1 >= m || m2 >= m {
                    return None;
                }
                proof {
                    lemma_modulus_mono(w1 as nat, 32);
                    reveal_with_fuel(modulus, 33);
                    assert(m1 * m2 < 0x1_0000_0000 * 0x1_0000_0000) by (nonlinear_arith)
                        requires
                            m1 < 0x1_0000_0000,
                            m2 < 0x1_0000_0000,
                    ;
                }
                let r: u64 = match op {
                    Op::BvAdd => (m1 + m2) % m,
                    Op::BvSub => (m1 + m - m2) % m,
                    Op::BvMul => (m1 * m2) % m,
                    _ => m1 & m2,
                };
                Some(Value::BitVector(w1, r))
            },
        },
        _ => None,
    }
}

/// Evaluates a term without free variables.
pub fn evaluate(t: &Term) -> (r: Option<Value>)
    ensures
        r == eval(*t, Map::empty()),
    decreases t,
{
    match t {
        Term::Var(_, _) => None,
        Term::Const(v) => if v.is_ok() {
            Some(v.copy())
        } else {
            None
        },
        Term::Nary(op, a, b) => {
            let x = evaluate(a)?;
            let y = evaluate(b)?;
            apply_nary(op, x, y)
        },
        Term::Ite(c, a, b) => match evaluate(c) {
            Some(Value::Bool(true)) => evaluate(a),
            Some(Value::Bool(false)) => evaluate(b),
            _ => None,
        },
        Term::Select(a, i) => match (evaluate(a), evaluate(i)) {
            (Some(arr), Some(Value::BitVector(_, k))) => match arr.size() {
                Some(n) => if (k as u128) < (n as u128) {
                    Some(arr.lookup(k))
                } else {
                    None
                },
                None => None,
            },
            _ => None,
        },
        Term::Store(a, i, x) => match (evaluate(a), evaluate(i), evaluate(x)) {
            (Some(arr), Some(Value::BitVector(_, k)), Some(v)) => match arr.size() {
                Some(n) => {
                    let fits = match arr.sort() {
                        crate::term::Sort::Array(_, e, _) => e.same(&v.sort()),
                        _ => false,
                    };
                    if (k as u128) < (n as u128) && fits {
                        Some(Value::Update(Box::new(arr), k, Box::new(v)))
                    } else {
                        None
                    }
                },
                None => None,
            },
            _ => None,
        },
        Term::Field(a, k) => match evaluate(a) {
            Some(arr) => match arr.size() {
                Some(n) => if (*k as u128) < (n as u128) {
                    Some(arr.lookup(*k))
                } else {
                    None
                },
                None => None,
            },
            None => None,
        },
        Term::Update(a, k, x) => match (evaluate(a), evaluate(x)) {
            (Some(arr), Some(v)) => match arr.size() {
                Some(n) => {
                    let fits = match arr.sort() {
                        crate::term::Sort::Array(_, e, _) => e.same(&v.sort()),
                        _ => false,
                    };
                    if (*k as u128) < (n as u128) && fits {
                        Some(Value::Update(Box::new(arr), *k, Box::new(v)))
                    } else {
                        None
                    }
                },
                None => None,
            },
            _ => None,
        },
        _ => None,
    }
}

} // verus!
