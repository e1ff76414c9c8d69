use circ::eval::evaluate;
use circ::mem::{array_elim, elim_obliv, linearize};
use circ::term::{Op, Sort, Term, Value};

fn bv(m: u64) -> Value {
    Value::BitVector(32, m)
}

fn c(m: u64) -> Term {
    Term::Const(bv(m))
}

fn b(t: Term) -> Box<Term> {
    Box::new(t)
}

/// An index that is not a constant term but evaluates to `m`.
fn dynamic(m: u64) -> Term {
    Term::Nary(Op::BvAdd, b(c(m)), b(c(0)))
}

fn array4() -> Term {
    let base = Value::Array(Box::new(Sort::BitVector(32)), Box::new(bv(0)), 4);
    let v = Value::Update(
        Box::new(Value::Update(Box::new(base), 1, Box::new(bv(10)))),
        3,
        Box::new(bv(30)),
    );
    Term::Const(v)
}

fn var_array() -> Term {
    Term::Var(
        "a".to_string(),
        Sort::Array(Box::new(Sort::BitVector(32)), Box::new(Sort::BitVector(32)), 4),
    )
}

fn is_bv(v: Option<Value>, m: u64) -> bool {
    matches!(v, Some(Value::BitVector(32, x)) if x == m)
}

fn memory_free(t: &Term) -> bool {
    match t {
        Term::Var(_, _) | Term::Const(_) => true,
        Term::Select(_, _) | Term::Store(_, _, _) => false,
        Term::Nary(_, x, y) | Term::MatrixBin(_, x, y) | Term::Update(x, _, y) => {
            memory_free(x) && memory_free(y)
        },
        Term::Ite(x, y, z) => memory_free(x) && memory_free(y) && memory_free(z),
        Term::MatrixUn(_, x) | Term::Sigmoid(x) | Term::Field(x, _) => memory_free(x),
    }
}

#[test]
fn store_then_select_same_index() {
    let t = Term::Select(b(Term::Store(b(var_array()), b(c(2)), b(c(7)))), b(c(2)));
    assert!(elim_obliv(&t).same(&c(7)));
}

#[test]
fn store_then_select_same_dynamic_index() {
    let i = Term::Var("i".to_string(), Sort::BitVector(32));
    let t = Term::Select(b(Term::Store(b(var_array()), b(i.copy()), b(c(7)))), b(i));
    assert!(elim_obliv(&t).same(&c(7)));
}

#[test]
fn store_then_select_other_index() {
    let t = Term::Select(b(Term::Store(b(var_array()), b(c(2)), b(c(7)))), b(c(1)));
    let expected = Term::Select(b(var_array()), b(c(1)));
    assert!(elim_obliv(&t).same(&expected));
}

#[test]
fn constant_array_read_folds() {
    let t = Term::Select(b(array4()), b(c(3)));
    assert!(elim_obliv(&t).same(&c(30)));
}

#[test]
fn linearized_select_matches_indexing() {
    for k in 0..4u64 {
        let t = Term::Select(b(array4()), b(dynamic(k)));
        let expected = evaluate(&t);
        let l = linearize(&t, 4).ok().unwrap();
        assert!(memory_free(&l));
        let got = evaluate(&l);
        assert!(is_bv(got, [0, 10, 0, 30][k as usize]));
        assert!(expected.unwrap().same(&evaluate(&l).unwrap()));
    }
}

#[test]
fn linearized_store_then_select() {
    for k in 0..4u64 {
        for m in 0..4u64 {
            let st = Term::Store(b(array4()), b(dynamic(k)), b(c(99)));
            let t = Term::Select(b(st), b(dynamic(m)));
            let l = array_elim(&t);
            assert!(memory_free(&l));
            let want = if k == m { 99 } else { [0, 10, 0, 30][m as usize] };
            assert!(is_bv(evaluate(&l), want));
        }
    }
}

#[test]
fn oversized_array_is_refused() {
    let t = Term::Select(b(array4()), b(dynamic(1)));
    assert!(linearize(&t, 3).is_err());
    assert!(linearize(&t, 4).is_ok());
}

#[test]
fn elimination_is_idempotent() {
    let st = Term::Store(b(var_array()), b(dynamic(1)), b(c(5)));
    let t = Term::Nary(Op::BvAdd, b(Term::Select(b(st), b(dynamic(2)))), b(c(1)));
    let once = array_elim(&t);
    let twice = array_elim(&once);
    assert!(once.same(&twice));
    assert!(memory_free(&once));
}

#[test]
fn bit_vector_arithmetic_wraps() {
    let sub = Term::Nary(Op::BvSub, b(c(1)), b(c(2)));
    assert!(is_bv(evaluate(&sub), 0xFFFF_FFFF));
    let mul = Term::Nary(Op::BvMul, b(c(0x1_0000)), b(c(0x1_0001)));
    assert!(is_bv(evaluate(&mul), 0x1_0000));
    let and = Term::Nary(Op::BvAnd, b(c(6)), b(c(3)));
    assert!(is_bv(evaluate(&and), 2));
    let add = Term::Nary(Op::BvAdd, b(c(0xFFFF_FFFF)), b(c(2)));
    assert!(is_bv(evaluate(&add), 1));
}

#[test]
fn out_of_range_read_has_no_value() {
    let t = Term::Select(b(array4()), b(c(4)));
    assert!(evaluate(&t).is_none());
}

#[test]
fn constant_store_becomes_update() {
    let t = Term::Store(b(var_array()), b(c(0)), b(c(5)));
    let r = array_elim(&t);
    assert!(memory_free(&r));
    assert!(r.same(&Term::Update(b(var_array()), 0, b(c(5)))));
}

#[test]
fn constant_read_of_variable_becomes_field() {
    let t = Term::Select(b(var_array()), b(c(2)));
    let r = array_elim(&t);
    assert!(r.same(&Term::Field(b(var_array()), 2)));
}

#[test]
fn dynamic_read_of_variable_is_memory_free() {
    let i = Term::Var("i".to_string(), Sort::BitVector(32));
    let t = Term::Select(b(var_array()), b(i));
    let r = array_elim(&t);
    assert!(memory_free(&r));
    assert!(matches!(r, Term::Ite(_, _, _)));
}
