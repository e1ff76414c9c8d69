//! Terms, their sorts, and the sort checker.

use vstd::prelude::*;

verus! {

/// The static type of a term.
#[derive(Debug)]
pub enum Sort {
    Bool,
    /// A bit-vector of the given width.
    BitVector(u32),
    /// An array from index sort to value sort, with the given number of entries.
    Array(Box<Sort>, Box<Sort>, usize),
}

/// A constant.
///
/// An array constant is a default-filled `Array`, wrapped in one `Update` for
/// each index that holds something other than the default.
#[derive(Debug)]
pub enum Value {
    Bool(bool),
    /// Width and magnitude.
    BitVector(u32, u64),
    /// Index sort, default value, size.
    Array(Box<Sort>, Box<Value>, usize),
    /// An array with the entry at an index replaced.
    Update(Box<Value>, u64, Box<Value>),
}

/// A two-operand operator picked by operator resolution.
#[derive(Debug)]
pub enum Op {
    BvAdd,
    BvSub,
    BvMul,
    BvAnd,
    And,
    Eq,
}

/// A matrix operator over the array-of-arrays representation.
#[derive(Debug)]
pub enum MatrixBinOp {
    Add,
    Sub,
    Mul,
    /// Scalar first, matrix second.
    Scale,
}

#[derive(Debug)]
pub enum MatrixUnOp {
    Transpose,
    Inverse,
}

/// A node of the expression graph.
#[derive(Debug)]
pub enum Term {
    Var(String, Sort),
    Const(Value),
    Nary(Op, Box<Term>, Box<Term>),
    Ite(Box<Term>, Box<Term>, Box<Term>),
    /// Array, index.
    Select(Box<Term>, Box<Term>),
    /// Array, index, value.
    Store(Box<Term>, Box<Term>, Box<Term>),
    MatrixBin(MatrixBinOp, Box<Term>, Box<Term>),
    MatrixUn(MatrixUnOp, Box<Term>),
    /// The nonlinear approximation of the sigmoid function.
    Sigmoid(Box<Term>),
    /// The entry of an array at a fixed position: an array seen as a tuple.
    Field(Box<Term>, u64),
    /// An array with the entry at a fixed position replaced.
    Update(Box<Term>, u64, Box<Term>),
}

pub open spec fn value_sort(v: Value) -> Sort
    decreases v,
{
    match v {
        Value::Bool(_) => Sort::Bool,
        Value::BitVector(w, _) => Sort::BitVector(w),
        Value::Array(ix, d, n) => Sort::Array(ix, Box::new(value_sort(*d)), n),
        Value::Update(a, _, _) => value_sort(*a),
    }
}

/// The value sort of an array sort.
pub open spec fn element_sort(s: Sort) -> Option<Sort> {
    match s {
        Sort::Array(_, v, _) => Some(*v),
        _ => None,
    }
}

/// A constant whose entries agree with its sort: arrays are indexed by
/// bit-vectors, and each replaced entry has the array's value sort.
pub open spec fn value_ok(v: Value) -> bool
    decreases v,
{
    match v {
        Value::Bool(_) | Value::BitVector(_, _) => true,
        Value::Array(ix, d, _) => *ix is BitVector && value_ok(*d),
        Value::Update(a, _, x) => value_ok(*a) && value_ok(*x) && element_sort(value_sort(*a))
            == Some(value_sort(*x)),
    }
}

/// The number of entries of an array constant.
pub open spec fn array_size(v: Value) -> Option<usize>
    decreases v,
{
    match v {
        Value::Array(_, _, n) => Some(n),
        Value::Update(a, _, _) => array_size(*a),
        _ => None,
    }
}

/// The entry of an array constant at index `k`: the last replacement of `k`,
/// else the default.
pub open spec fn lookup(v: Value, k: u64) -> Value
    decreases v,
{
    match v {
        Value::Update(a, j, x) => if j == k {
            *x
        } else {
            lookup(*a, k)
        },
        Value::Array(_, d, _) => *d,
        _ => v,
    }
}

/// The sort of a two-dimensional array with rows and columns indexed by `ix`.
pub open spec fn matrix_sort(ix: Sort, elem: Sort, rows: usize, cols: usize) -> Sort {
    Sort::Array(Box::new(ix), Box::new(Sort::Array(Box::new(ix), Box::new(elem), cols)), rows)
}

/// Index sort, element sort, rows and columns of a matrix sort of bit-vectors.
pub open spec fn matrix_shape(s: Sort) -> Option<(Sort, Sort, usize, usize)> {
    match s {
        Sort::Array(ix, row, r) => match *row {
            Sort::Array(ix2, e, c) => if *ix2 == *ix && *ix is BitVector && *e is BitVector {
                Some((*ix, *e, r, c))
            } else {
                None
            },
            _ => None,
        },
        _ => None,
    }
}

pub open spec fn nary_sort(op: Op, a: Sort, b: Sort) -> Option<Sort> {
    if a != b {
        None
    } else {
        match op {
            Op::BvAdd | Op::BvSub | Op::BvMul | Op::BvAnd => if a is BitVector {
                Some(a)
            } else {
                None
            },
            Op::And => if a is Bool {
                Some(Sort::Bool)
            } else {
                None
            },
            Op::Eq => Some(Sort::Bool),
        }
    }
}

pub open spec fn matrix_bin_sort(op: MatrixBinOp, a: Sort, b: Sort) -> Option<Sort> {
    match op {
        MatrixBinOp::Add | MatrixBinOp::Sub => if a == b && matrix_shape(a) is Some {
            Some(a)
        } else {
            None
        },
        MatrixBinOp::Mul => match (matrix_shape(a), matrix_shape(b)) {
            (Some((ix, e, r, k)), Some((ix2, e2, k2, c))) => if ix == ix2 && e == e2 && k == k2 {
                Some(matrix_sort(ix, e, r, c))
            } else {
                None
            },
            _ => None,
        },
        MatrixBinOp::Scale => match matrix_shape(b) {
            Some((_, e, _, _)) => if a == e {
                Some(b)
            } else {
                None
            },
            None => None,
        },
    }
}

pub open spec fn matrix_un_sort(op: MatrixUnOp, a: Sort) -> Option<Sort> {
    match matrix_shape(a) {
        Some((ix, e, r, c)) => match op {
            MatrixUnOp::Transpose => Some(matrix_sort(ix, e, c, r)),
            MatrixUnOp::Inverse => if r == c {
                Some(a)
            } else {
                None
            },
        },
        None => None,
    }
}

/// The sort of a term, or `None` where operand sorts disagree.
pub open spec fn sort_of(t: Term) -> Option<Sort>
    decreases t,
{
    match t {
        Term::Var(_, s) => Some(s),
        Term::Const(v) => if value_ok(v) {
            Some(value_sort(v))
        } else {
            None
        },
        Term::Nary(op, a, b) => match (sort_of(*a), sort_of(*b)) {
            (Some(sa), Some(sb)) => nary_sort(op, sa, sb),
            _ => None,
        },
        Term::Ite(c, a, b) => match (sort_of(*c), sort_of(*a), sort_of(*b)) {
            (Some(sc), Some(sa), Some(sb)) => if sc == Sort::Bool && sa == sb {
                Some(sa)
            } else {
                None
            },
            _ => None,
        },
        Term::Select(a, i) => match (sort_of(*a), sort_of(*i)) {
            (Some(Sort::Array(ix, v, _)), Some(si)) => if si == *ix && si is BitVector {
                Some(*v)
            } else {
                None
            },
            _ => None,
        },
        Term::Store(a, i, x) => match (sort_of(*a), sort_of(*i), sort_of(*x)) {
            (Some(Sort::Array(ix, v, n)), Some(si), Some(sx)) => if si == *ix && si is BitVector
                && sx == *v {
                Some(Sort::Array(ix, v, n))
            } else {
                None
            },
            _ => None,
        },
        Term::MatrixBin(op, a, b) => match (sort_of(*a), sort_of(*b)) {
            (Some(sa), Some(sb)) => matrix_bin_sort(op, sa, sb),
            _ => None,
        },
        Term::MatrixUn(op, a) => match sort_of(*a) {
            Some(sa) => matrix_un_sort(op, sa),
            None => None,
        },
        Term::Sigmoid(a) => match sort_of(*a) {
            Some(sa) => if sa is BitVector {
                Some(sa)
            } else {
                None
            },
            None => None,
        },
        Term::Field(a, _) => match sort_of(*a) {
            Some(Sort::Array(_, v, _)) => Some(*v),
            _ => None,
        },
        Term::Update(a, _, x) => match (sort_of(*a), sort_of(*x)) {
            (Some(Sort::Array(ix, v, n)), Some(sx)) => if sx == *v {
                Some(Sort::Array(ix, v, n))
            } else {
                None
            },
            _ => None,
        },
    }
}

impl Sort {
    /// Structural equality.
    pub fn same(&self, o: &Sort) -> (r: bool)
        ensures
            r == (*self == *o),
        decreases self,
    {
        match (self, o) {
            (Sort::Bool, Sort::Bool) => true,
            (Sort::BitVector(a), Sort::BitVector(b)) => *a == *b,
            (Sort::Array(i1, v1, n1), Sort::Array(i2, v2, n2)) => {
                *n1 == *n2 && i1.same(i2) && v1.same(v2)
            },
            _ => false,
        }
    }

    pub fn copy(&self) -> (r: Sort)
        ensures
            r == *self,
        decreases self,
    {
        match self {
            Sort::Bool => Sort::Bool,
            Sort::BitVector(w) => Sort::BitVector(*w),
            Sort::Array(i, v, n) => Sort::Array(Box::new(i.copy()), Box::new(v.copy()), *n),
        }
    }

    pub fn is_bit_vector(&self) -> (r: bool)
        ensures
            r == (*self is BitVector),
    {
        match self {
            Sort::BitVector(_) => true,
            _ => false,
        }
    }
}

impl Value {
    /// Structural equality.
    pub fn same(&self, o: &Value) -> (r: bool)
        ensures
            r == (*self == *o),
        decreases self,
    {
        match (self, o) {
            (Value::Bool(a), Value::Bool(b)) => *a == *b,
            (Value::BitVector(w1, m1), Value::BitVector(w2, m2)) => *w1 == *w2 && *m1 == *m2,
            (Value::Array(i1, d1, n1), Value::Array(i2, d2, n2)) => {
                *n1 == *n2 && i1.same(i2) && d1.same(d2)
            },
            (Value::Update(a1, k1, x1), Value::Update(a2, k2, x2)) => {
                *k1 == *k2 && a1.same(a2) && x1.same(x2)
            },
            _ => false,
        }
    }

    pub fn copy(&self) -> (r: Value)
        ensures
            r == *self,
        decreases self,
    {
        match self {
            Value::Bool(b) => Value::Bool(*b),
            Value::BitVector(w, m) => Value::BitVector(*w, *m),
            Value::Array(i, d, n) => Value::Array(Box::new(i.copy()), Box::new(d.copy()), *n),
            Value::Update(a, k, x) => Value::Update(Box::new(a.copy()), *k, Box::new(x.copy())),
        }
    }

    /// Whether the entries agree with the sort.
    pub fn is_ok(&self) -> (r: bool)
        ensures
            r == value_ok(*self),
        decreases self,
    {
        match self {
            Value::Bool(_) | Value::BitVector(_, _) => true,
            Value::Array(ix, d, _) => ix.is_bit_vector() && d.is_ok(),
            Value::Update(a, _, x) => {
                a.is_ok() && x.is_ok() && match a.sort() {
                    Sort::Array(_, v, _) => v.same(&x.sort()),
                    _ => false,
                }
            },
        }
    }

    pub fn size(&self) -> (r: Option<usize>)
        ensures
            r == array_size(*self),
        decreases self,
    {
        match self {
            Value::Array(_, _, n) => Some(*n),
            Value::Update(a, _, _) => a.size(),
            _ => None,
        }
    }

    pub fn lookup(&self, k: u64) -> (r: Value)
        ensures
            r == lookup(*self, k),
        decreases self,
    {
        match self {
            Value::Update(a, j, x) => if *j == k {
                x.copy()
            } else {
                a.lookup(k)
            },
            Value::Array(_, d, _) => d.copy(),
            _ => self.copy(),
        }
    }

    pub fn sort(&self) -> (r: Sort)
        ensures
            r == value_sort(*self),
        decreases self,
    {
        match self {
            Value::Bool(_) => Sort::Bool,
            Value::BitVector(w, _) => Sort::BitVector(*w),
            Value::Array(i, d, n) => Sort::Array(Box::new(i.copy()), Box::new(d.sort()), *n),
            Value::Update(a, _, _) => a.sort(),
        }
    }
}

impl Op {
    pub fn same(&self, o: &Op) -> (r: bool)
        ensures
            r == (*self == *o),
    {
        match (self, o) {
            (Op::BvAdd, Op::BvAdd) => true,
            (Op::BvSub, Op::BvSub) => true,
            (Op::BvMul, Op::BvMul) => true,
            (Op::BvAnd, Op::BvAnd) => true,
            (Op::And, Op::And) => true,
            (Op::Eq, Op::Eq) => true,
            _ => false,
        }
    }

    pub fn copy(&self) -> (r: Op)
        ensures
            r == *self,
    {
        match self {
            Op::BvAdd => Op::BvAdd,
            Op::BvSub => Op::BvSub,
            Op::BvMul => Op::BvMul,
            Op::BvAnd => Op::BvAnd,
            Op::And => Op::And,
            Op::Eq => Op::Eq,
        }
    }
}

impl MatrixBinOp {
    pub fn same(&self, o: &MatrixBinOp) -> (r: bool)
        ensures
            r == (*self == *o),
    {
        match (self, o) {
            (MatrixBinOp::Add, MatrixBinOp::Add) => true,
            (MatrixBinOp::Sub, MatrixBinOp::Sub) => true,
            (MatrixBinOp::Mul, MatrixBinOp::Mul) => true,
            (MatrixBinOp::Scale, MatrixBinOp::Scale) => true,
            _ => false,
        }
    }

    pub fn copy(&self) -> (r: MatrixBinOp)
        ensures
            r == *self,
    {
        match self {
            MatrixBinOp::Add => MatrixBinOp::Add,
            MatrixBinOp::Sub => MatrixBinOp::Sub,
            MatrixBinOp::Mul => MatrixBinOp::Mul,
            MatrixBinOp::Scale => MatrixBinOp::Scale,
        }
    }
}

impl MatrixUnOp {
    pub fn same(&self, o: &MatrixUnOp) -> (r: bool)
        ensures
            r == (*self == *o),
    {
        match (self, o) {
            (MatrixUnOp::Transpose, MatrixUnOp::Transpose) => true,
            (MatrixUnOp::Inverse, MatrixUnOp::Inverse) => true,
            _ => false,
        }
    }

    pub fn copy(&self) -> (r: MatrixUnOp)
        ensures
            r == *self,
    {
        match self {
            MatrixUnOp::Transpose => MatrixUnOp::Transpose,
            MatrixUnOp::Inverse => MatrixUnOp::Inverse,
        }
    }
}

/// Structural identity of terms: the same operator over identical children,
/// variables compared by name and sort.
pub open spec fn same_term(a: Term, b: Term) -> bool
    decreases a,
{
    match (a, b) {
        (Term::Var(n1, s1), Term::Var(n2, s2)) => n1@ == n2@ && s1 == s2,
        (Term::Const(v1), Term::Const(v2)) => v1 == v2,
        (Term::Nary(o1, a1, b1), Term::Nary(o2, a2, b2)) => {
            o1 == o2 && same_term(*a1, *a2) && same_term(*b1, *b2)
        },
        (Term::Ite(c1, a1, b1), Term::Ite(c2, a2, b2)) => {
            same_term(*c1, *c2) && same_term(*a1, *a2) && same_term(*b1, *b2)
        },
        (Term::Select(a1, i1), Term::Select(a2, i2)) => same_term(*a1, *a2) && same_term(*i1, *i2),
        (Term::Store(a1, i1, x1), Term::Store(a2, i2, x2)) => {
            same_term(*a1, *a2) && same_term(*i1, *i2) && same_term(*x1, *x2)
        },
        (Term::MatrixBin(o1, a1, b1), Term::MatrixBin(o2, a2, b2)) => {
            o1 == o2 && same_term(*a1, *a2) && same_term(*b1, *b2)
        },
        (Term::MatrixUn(o1, a1), Term::MatrixUn(o2, a2)) => o1 == o2 && same_term(*a1, *a2),
        (Term::Sigmoid(a1), Term::Sigmoid(a2)) => same_term(*a1, *a2),
        (Term::Field(a1, k1), Term::Field(a2, k2)) => k1 == k2 && same_term(*a1, *a2),
        (Term::Update(a1, k1, x1), Term::Update(a2, k2, x2)) => {
            k1 == k2 && same_term(*a1, *a2) && same_term(*x1, *x2)
        },
        _ => false,
    }
}

/// Index sort, element sort, rows and columns of a matrix sort.
fn shape(s: &Sort) -> (r: Option<(Sort, Sort, usize, usize)>)
    ensures
        r == matrix_shape(*s),
{
    match s {
        Sort::Array(ix, row, r) => match &**row {
            Sort::Array(ix2, e, c) => if ix2.same(ix) && ix.is_bit_vector() && e.is_bit_vector() {
                Some((ix.copy(), e.copy(), *r, *c))
            } else {
                None
            },
            _ => None,
        },
        _ => None,
    }
}

fn make_matrix_sort(ix: Sort, elem: Sort, rows: usize, cols: usize) -> (r: Sort)
    ensures
        r == matrix_sort(ix, elem, rows, cols),
{
    let ix2 = ix.copy();
    Sort::Array(Box::new(ix), Box::new(Sort::Array(Box::new(ix2), Box::new(elem), cols)), rows)
}

fn nary_check(op: &Op, a: Sort, b: Sort) -> (r: Option<Sort>)
    ensures
        r == nary_sort(*op, a, b),
{
    if !a.same(&b) {
        return None;
    }
    match op {
        Op::BvAdd | Op::BvSub | Op::BvMul | Op::BvAnd => if a.is_bit_vector() {
            Some(a)
        } else {
            None
        },
        Op::And => match a {
            Sort::Bool => Some(Sort::Bool),
            _ => None,
        },
        Op::Eq => Some(Sort::Bool),
    }
}

fn matrix_bin_check(op: &MatrixBinOp, a: Sort, b: Sort) -> (r: Option<Sort>)
    ensures
        r == matrix_bin_sort(*op, a, b),
{
    match op {
        MatrixBinOp::Add | MatrixBinOp::Sub => if a.same(&b) && shape(&a).is_some() {
            Some(a)
        } else {
            None
        },
        MatrixBinOp::Mul => match (shape(&a), shape(&b)) {
            (Some((ix, e, r, k)), Some((ix2, e2, k2, c))) => {
                if ix.same(&ix2) && e.same(&e2) && k == k2 {
                    Some(make_matrix_sort(ix, e, r, c))
                } else {
                    None
                }
            },
            _ => None,
        },
        MatrixBinOp::Scale => match shape(&b) {
            Some((_, e, _, _)) => if a.same(&e) {
                Some(b)
            } else {
                None
            },
            None => None,
        },
    }
}

fn matrix_un_check(op: &MatrixUnOp, a: Sort) -> (r: Option<Sort>)
    ensures
        r == matrix_un_sort(*op, a),
{
    match shape(&a) {
        Some((ix, e, r, c)) => match op {
            MatrixUnOp::Transpose => Some(make_matrix_sort(ix, e, c, r)),
            MatrixUnOp::Inverse => if r == c {
                Some(a)
            } else {
                None
            },
        },
        None => None,
    }
}

/// Computes the sort of a term; `None` where operand sorts disagree.
pub fn check(t: &Term) -> (r: Option<Sort>)
    ensures
        r == sort_of(*t),
    decreases t,
{
    match t {
        Term::Var(_, s) => Some(s.copy()),
        Term::Const(v) => if v.is_ok() {
            Some(v.sort())
        } else {
            None
        },
        Term::Nary(op, a, b) => {
            let sa = check(a)?;
            let sb = check(b)?;
            nary_check(op, sa, sb)
        },
        Term::Ite(c, a, b) => {
            let sc = check(c)?;
            let sa = check(a)?;
            let sb = check(b)?;
            match sc {
                Sort::Bool => if sa.same(&sb) {
                    Some(sa)
                } else {
                    None
                },
                _ => None,
            }
        },
        Term::Select(a, i) => {
            let sa = check(a)?;
            let si = check(i)?;
            match sa {
                Sort::Array(ix, v, _) => if si.same(&ix) && si.is_bit_vector() {
                    Some(*v)
                } else {
                    None
                },
                _ => None,
            }
        },
        Term::Store(a, i, x) => {
            let sa = check(a)?;
            let si = check(i)?;
            let sx = check(x)?;
            match sa {
                Sort::Array(ix, v, n) => if si.same(&ix) && si.is_bit_vector() && sx.same(&v) {
                    Some(Sort::Array(ix, v, n))
                } else {
                    None
                },
                _ => None,
            }
        },
        Term::MatrixBin(op, a, b) => {
            let sa = check(a)?;
            let sb = check(b)?;
            matrix_bin_check(op, sa, sb)
        },
        Term::MatrixUn(op, a) => {
            let sa = check(a)?;
            matrix_un_check(op, sa)
        },
        Term::Sigmoid(a) => {
            let sa = check(a)?;
            if sa.is_bit_vector() {
                Some(sa)
            } else {
                None
            }
        },
        Term::Field(a, _) => match check(a)? {
            Sort::Array(_, v, _) => Some(*v),
            _ => None,
        },
        Term::Update(a, _, x) => {
            let sa = check(a)?;
            let sx = check(x)?;
            match sa {
                Sort::Array(ix, v, n) => if sx.same(&v) {
                    Some(Sort::Array(ix, v, n))
                } else {
                    None
                },
                _ => None,
            }
        },
    }
}

impl Term {
    /// Structural identity: the same operator over the same children.
    pub fn same(&self, o: &Term) -> (r: bool)
        ensures
            r == same_term(*self, *o),
        decreases self,
    {
        match (self, o) {
            (Term::Var(n1, s1), Term::Var(n2, s2)) => n1.eq(n2) && s1.same(s2),
            (Term::Const(v1), Term::Const(v2)) => v1.same(v2),
            (Term::Nary(o1, a1, b1), Term::Nary(o2, a2, b2)) => {
                o1.same(o2) && a1.same(a2) && b1.same(b2)
            },
            (Term::Ite(c1, a1, b1), Term::Ite(c2, a2, b2)) => {
                c1.same(c2) && a1.same(a2) && b1.same(b2)
            },
            (Term::Select(a1, i1), Term::Select(a2, i2)) => a1.same(a2) && i1.same(i2),
            (Term::Store(a1, i1, x1), Term::Store(a2, i2, x2)) => {
                a1.same(a2) && i1.same(i2) && x1.same(x2)
            },
            (Term::MatrixBin(o1, a1, b1), Term::MatrixBin(o2, a2, b2)) => {
                o1.same(o2) && a1.same(a2) && b1.same(b2)
            },
            (Term::MatrixUn(o1, a1), Term::MatrixUn(o2, a2)) => {
                o1.same(o2) && a1.same(a2)
            },
            (Term::Sigmoid(a1), Term::Sigmoid(a2)) => a1.same(a2),
            (Term::Field(a1, k1), Term::Field(a2, k2)) => *k1 == *k2 && a1.same(a2),
            (Term::Update(a1, k1, x1), Term::Update(a2, k2, x2)) => {
                *k1 == *k2 && a1.same(a2) && x1.same(x2)
            },
            _ => false,
        }
    }

    pub fn copy(&self) -> (r: Term)
        ensures
            r == *self,
        decreases self,
    {
        match self {
            Term::Var(n, s) => Term::Var(n.clone(), s.copy()),
            Term::Const(v) => Term::Const(v.copy()),
            Term::Nary(op, a, b) => Term::Nary(op.copy(), Box::new(a.copy()), Box::new(b.copy())),
            Term::Ite(c, a, b) => Term::Ite(
                Box::new(c.copy()),
                Box::new(a.copy()),
                Box::new(b.copy()),
            ),
            Term::Select(a, i) => Term::Select(Box::new(a.copy()), Box::new(i.copy())),
            Term::Store(a, i, x) => Term::Store(
                Box::new(a.copy()),
                Box::new(i.copy()),
                Box::new(x.copy()),
            ),
            Term::MatrixBin(op, a, b) => Term::MatrixBin(
                op.copy(),
                Box::new(a.copy()),
                Box::new(b.copy()),
            ),
            Term::MatrixUn(op, a) => Term::MatrixUn(op.copy(), Box::new(a.copy())),
            Term::Sigmoid(a) => Term::Sigmoid(Box::new(a.copy())),
            Term::Field(a, k) => Term::Field(Box::new(a.copy()), *k),
            Term::Update(a, k, x) => Term::Update(Box::new(a.copy()), *k, Box::new(x.copy())),
        }
    }
}

} // verus!
