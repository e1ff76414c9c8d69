//! Lowering of a program's statements and expressions into terms.

use vstd::prelude::*;
use crate::computation::{party_label, Computation, ComputationMetadata};
use crate::table::{Table, str_is};
use crate::syntax::{decode_module, encodes_stmt, field, items, module_fault, module_ok, Json};
use crate::eval::eval;
use crate::term::{
    check, matrix_sort, sort_of, MatrixBinOp, MatrixUnOp, Op, Sort, Term, Value,
};

verus! {

/// What a call names: a method of a party (`party.s_int(..)`), a free
/// function, or anything else.
pub enum Callee {
    Attribute(String),
    Name(String),
    Other,
}

/// An expression of the source program.
pub enum Expr {
    /// Left operand, operator token, right operand.
    BinOp(Box<Expr>, String, Box<Expr>),
    /// Left operand, comparison token, the one comparator.
    Compare(Box<Expr>, String, Box<Expr>),
    Call(Callee, Vec<Expr>),
    Name(String),
    Num(i64),
    /// Any other kind of expression.
    Other,
}

/// The left side of an assignment.
pub enum Target {
    Name(String),
    /// `a[i]`.
    Index(String, Expr),
    /// `m[row][col]`.
    MatrixIndex(String, Expr, Expr),
}

/// A statement of the source program.
pub enum Stmt {
    Assign(Target, Expr),
    /// Target name, operator token, right side.
    AugAssign(String, String, Expr),
    /// An expression evaluated for its effect: an intrinsic call.
    Expr(Expr),
    FunctionDef,
    /// Any other kind of statement, by the name of its kind.
    Other(String),
}

/// The kind of a syntax-tree node; `Unknown` where the node names none.
#[derive(Clone, Copy, Debug)]
pub enum NodeKind {
    Unknown,
    Module,
    Assign,
    AugAssign,
    Expr,
    Subscript,
    Name,
    BinOp,
    Compare,
    Call,
    Num,
}

/// A member of a syntax-tree node.
#[derive(Clone, Copy, Debug)]
pub enum Member {
    /// The member naming the node's kind.
    Type,
    Body,
    Targets,
    Target,
    Value,
    Op,
    Left,
    Right,
    Ops,
    Comparators,
    Func,
    Args,
    Id,
    Slice,
    N,
}

/// Where a syntax tree is malformed: a node, and the member of it that is
/// missing or not of the expected shape.
pub struct Fault {
    pub kind: NodeKind,
    pub member: Member,
}

/// Why lowering stopped.
pub enum LowerError {
    UnboundVariable(String),
    SortMismatch,
    UnsupportedConstruct,
    MalformedInput(Fault),
}

/// Bindings of input names to their owners.
pub type Inputs = Map<Seq<char>, Option<u8>>;

/// The exclusive bound on counts (lengths, rows, columns) and literals.
pub const LIMIT: i64 = 0x1_0000_0000;

pub open spec fn u32_sort() -> Sort {
    Sort::BitVector(32)
}

pub open spec fn int_array_sort(n: usize) -> Sort {
    Sort::Array(Box::new(u32_sort()), Box::new(u32_sort()), n)
}

pub open spec fn int_matrix_sort(rows: usize, cols: usize) -> Sort {
    matrix_sort(u32_sort(), u32_sort(), rows, cols)
}

pub open spec fn zero_array(n: usize) -> Value {
    Value::Array(Box::new(u32_sort()), Box::new(Value::BitVector(32, 0)), n)
}

pub open spec fn zero_matrix(rows: usize, cols: usize) -> Value {
    Value::Array(Box::new(u32_sort()), Box::new(zero_array(cols)), rows)
}

/// The `size` by `size` matrix whose first `k` rows have a one on the diagonal.
pub open spec fn identity_rows(size: usize, k: nat) -> Value
    decreases k,
{
    if k == 0 {
        zero_matrix(size, size)
    } else {
        let i = (k - 1) as u64;
        Value::Update(
            Box::new(identity_rows(size, (k - 1) as nat)),
            i,
            Box::new(Value::Update(Box::new(zero_array(size)), i, Box::new(Value::BitVector(32, 1)))),
        )
    }
}

/// Operator resolution: the operator for a token on operands of a sort.
pub open spec fn resolve_op(sort: Sort, token: Seq<char>) -> Op {
    if sort is BitVector {
        if token == "Add"@ {
            Op::BvAdd
        } else if token == "Sub"@ {
            Op::BvSub
        } else if token == "Mult"@ {
            Op::BvMul
        } else {
            Op::BvAnd
        }
    } else {
        Op::And
    }
}

/// The literal at `args[k]`, where it is a number in `[0, bound)`.
pub open spec fn num_arg(args: Seq<Expr>, k: int, bound: int) -> Option<u64> {
    if 0 <= k < args.len() {
        match args[k] {
            Expr::Num(n) => if 0 <= n < bound {
                Some(n as u64)
            } else {
                None
            },
            _ => None,
        }
    } else {
        None
    }
}

/// The name at `args[k]`, where it is a name.
pub open spec fn name_arg(args: Seq<Expr>, k: int) -> Option<String> {
    if 0 <= k < args.len() {
        match args[k] {
            Expr::Name(s) => Some(s),
            _ => None,
        }
    } else {
        None
    }
}

/// `t` where it is well sorted.
pub open spec fn sorted(t: Term, ins: Inputs) -> Result<(Term, Inputs), LowerError> {
    if sort_of(t) is Some {
        Ok((t, ins))
    } else {
        Err(LowerError::SortMismatch)
    }
}

/// A binary or comparison node over lowered operands.
pub open spec fn binary(l: Term, token: Seq<char>, r: Term, ins: Inputs) -> Result<
    (Term, Inputs),
    LowerError,
> {
    match (sort_of(l), sort_of(r)) {
        (Some(sl), Some(sr)) => if sl == sr {
            sorted(Term::Nary(resolve_op(sl, token), Box::new(l), Box::new(r)), ins)
        } else {
            Err(LowerError::SortMismatch)
        },
        _ => Err(LowerError::SortMismatch),
    }
}

/// A secret input of party `p` named `name`, of sort `s`.
pub open spec fn secret(name: Option<String>, s: Sort, p: u64, ins: Inputs) -> Result<
    (Term, Inputs),
    LowerError,
> {
    match name {
        Some(nm) => Ok((Term::Var(nm, s), ins.insert(nm@, Some(p as u8)))),
        None => Err(LowerError::UnsupportedConstruct),
    }
}

/// A party-qualified intrinsic call (`party.s_int(..)` and the like).
pub open spec fn lower_party_call(
    f: Seq<char>,
    args: Seq<Expr>,
    ins: Inputs,
    n: nat,
    name: Option<String>,
) -> Result<(Term, Inputs), LowerError> {
    if f == "s_int"@ {
        match num_arg(args, 0, n as int) {
            Some(p) => secret(name, u32_sort(), p, ins),
            None => Err(LowerError::MalformedInput(Fault { kind: NodeKind::Call, member: Member::Args })),
        }
    } else if f == "s_int_array"@ {
        match (num_arg(args, 0, LIMIT as int), num_arg(args, 1, n as int)) {
            (Some(len), Some(p)) => secret(name, int_array_sort(len as usize), p, ins),
            _ => Err(LowerError::MalformedInput(Fault { kind: NodeKind::Call, member: Member::Args })),
        }
    } else if f == "s_int_mat"@ {
        match (num_arg(args, 0, LIMIT as int), num_arg(args, 1, LIMIT as int), num_arg(args, 2, n as int)) {
            (Some(rows), Some(cols), Some(p)) => secret(
                name,
                int_matrix_sort(rows as usize, cols as usize),
                p,
                ins,
            ),
            _ => Err(LowerError::MalformedInput(Fault { kind: NodeKind::Call, member: Member::Args })),
        }
    } else {
        Err(LowerError::UnsupportedConstruct)
    }
}

/// The term of an expression, with the inputs it declares added to `ins`.
///
/// `syms` holds the current bindings, `n` is the number of parties, and
/// `name` is the variable that a secret input found here will be called.
pub open spec fn lower_expr(
    e: Expr,
    syms: Map<Seq<char>, Term>,
    ins: Inputs,
    n: nat,
    name: Option<String>,
) -> Result<(Term, Inputs), LowerError>
    decreases e,
{
    match e {
        Expr::BinOp(l, token, r) | Expr::Compare(l, token, r) => match lower_expr(*l, syms, ins, n, None) {
            Ok((tl, ins1)) => match lower_expr(*r, syms, ins1, n, None) {
                Ok((tr, ins2)) => binary(tl, token@, tr, ins2),
                Err(err) => Err(err),
            },
            Err(err) => Err(err),
        },
        Expr::Name(x) => if syms.contains_key(x@) {
            Ok((syms[x@], ins))
        } else {
            Err(LowerError::UnboundVariable(x))
        },
        Expr::Num(v) => if 0 <= v < LIMIT {
            Ok((Term::Const(Value::BitVector(32, v as u64)), ins))
        } else {
            Err(LowerError::MalformedInput(Fault { kind: NodeKind::Num, member: Member::N }))
        },
        Expr::Other => Err(LowerError::UnsupportedConstruct),
        Expr::Call(Callee::Attribute(f), args) => lower_party_call(f@, args@, ins, n, name),
        Expr::Call(Callee::Other, _) => Err(LowerError::UnsupportedConstruct),
        Expr::Call(Callee::Name(f), args) => {
            let f = f@;
            let a = args@;
            if f == "c_int"@ {
                match num_arg(a, 0, LIMIT as int) {
                    Some(v) => Ok((Term::Const(Value::BitVector(32, v)), ins)),
                    None => Err(LowerError::MalformedInput(Fault { kind: NodeKind::Call, member: Member::Args })),
                }
            } else if f == "c_int_array"@ {
                match num_arg(a, 0, LIMIT as int) {
                    Some(len) => Ok((Term::Const(zero_array(len as usize)), ins)),
                    None => Err(LowerError::MalformedInput(Fault { kind: NodeKind::Call, member: Member::Args })),
                }
            } else if f == "c_int_mat"@ {
                match (num_arg(a, 0, LIMIT as int), num_arg(a, 1, LIMIT as int)) {
                    (Some(rows), Some(cols)) => Ok(
                        (Term::Const(zero_matrix(rows as usize, cols as usize)), ins),
                    ),
                    _ => Err(LowerError::MalformedInput(Fault { kind: NodeKind::Call, member: Member::Args })),
                }
            } else if f == "get_identity_matrix"@ {
                match num_arg(a, 0, LIMIT as int) {
                    Some(size) => Ok(
                        (Term::Const(identity_rows(size as usize, size as nat)), ins),
                    ),
                    None => Err(LowerError::MalformedInput(Fault { kind: NodeKind::Call, member: Member::Args })),
                }
            } else if f == "array_index_secret_load_if"@ {
                if a.len() < 4 {
                    Err(LowerError::MalformedInput(Fault { kind: NodeKind::Call, member: Member::Args }))
                } else {
                    match lower_expr(a[0], syms, ins, n, name) {
                        Err(err) => Err(err),
                        Ok((c, ins1)) => match lower_expr(a[1], syms, ins1, n, name) {
                            Err(err) => Err(err),
                            Ok((arr, ins2)) => match lower_expr(a[2], syms, ins2, n, name) {
                                Err(err) => Err(err),
                                Ok((i1, ins3)) => match lower_expr(a[3], syms, ins3, n, name) {
                                    Err(err) => Err(err),
                                    Ok((i2, ins4)) => sorted(
                                        Term::Ite(
                                            Box::new(c),
                                            Box::new(Term::Select(Box::new(arr), Box::new(i1))),
                                            Box::new(Term::Select(Box::new(arr), Box::new(i2))),
                                        ),
                                        ins4,
                                    ),
                                },
                            },
                        },
                    }
                }
            } else if f == "matadd"@ || f == "matsub"@ || f == "matmul"@ {
                let op = if f == "matadd"@ {
                    MatrixBinOp::Add
                } else if f == "matsub"@ {
                    MatrixBinOp::Sub
                } else {
                    MatrixBinOp::Mul
                };
                if a.len() < 2 {
                    Err(LowerError::MalformedInput(Fault { kind: NodeKind::Call, member: Member::Args }))
                } else {
                    match lower_expr(a[0], syms, ins, n, None) {
                        Err(err) => Err(err),
                        Ok((x, ins1)) => match lower_expr(a[1], syms, ins1, n, None) {
                            Err(err) => Err(err),
                            Ok((y, ins2)) => sorted(
                                Term::MatrixBin(op, Box::new(x), Box::new(y)),
                                ins2,
                            ),
                        },
                    }
                }
            } else if f == "transpose"@ || f == "inverse"@ || f == "sigmoid"@ {
                if a.len() < 1 {
                    Err(LowerError::MalformedInput(Fault { kind: NodeKind::Call, member: Member::Args }))
                } else {
                    match lower_expr(a[0], syms, ins, n, None) {
                        Err(err) => Err(err),
                        Ok((x, ins1)) => sorted(
                            if f == "transpose"@ {
                                Term::MatrixUn(MatrixUnOp::Transpose, Box::new(x))
                            } else if f == "inverse"@ {
                                Term::MatrixUn(MatrixUnOp::Inverse, Box::new(x))
                            } else {
                                Term::Sigmoid(Box::new(x))
                            },
                            ins1,
                        ),
                    }
                }
            } else if f == "mat_const_mul"@ {
                if a.len() < 1 {
                    Err(LowerError::MalformedInput(Fault { kind: NodeKind::Call, member: Member::Args }))
                } else {
                    match lower_expr(a[0], syms, ins, n, None) {
                        Err(err) => Err(err),
                        Ok((s, ins1)) => match name_arg(a, 1) {
                            None => Err(LowerError::MalformedInput(Fault { kind: NodeKind::Call, member: Member::Args })),
                            Some(m) => if syms.contains_key(m@) {
                                sorted(
                                    Term::MatrixBin(
                                        MatrixBinOp::Scale,
                                        Box::new(s),
                                        Box::new(syms[m@]),
                                    ),
                                    ins1,
                                )
                            } else {
                                Err(LowerError::UnboundVariable(m))
                            },
                        },
                    }
                }
            } else {
                Err(LowerError::UnsupportedConstruct)
            }
        },
    }
}

/// Operator resolution for a source token on operands of `sort`.
///
/// On bit-vectors "Add", "Sub" and "Mult" keep the width; any other token is
/// bitwise and. On any other sort the result is boolean and.
pub fn map_nary_op(sort: Sort, op_name: String) -> (r: Op)
    ensures
        r == resolve_op(sort, op_name@),
{
    if sort.is_bit_vector() {
        if str_is(op_name.as_str(), "Add") {
            Op::BvAdd
        } else if str_is(op_name.as_str(), "Sub") {
            Op::BvSub
        } else if str_is(op_name.as_str(), "Mult") {
            Op::BvMul
        } else {
            Op::BvAnd
        }
    } else {
        Op::And
    }
}

fn get_num_arg(args: &Vec<Expr>, k: usize, bound: i64) -> (r: Option<u64>)
    ensures
        r == num_arg(args@, k as int, bound as int),
{
    if k < args.len() {
        match &args[k] {
            Expr::Num(n) => if 0 <= *n && *n < bound {
                Some(*n as u64)
            } else {
                None
            },
            _ => None,
        }
    } else {
        None
    }
}

fn get_name_arg(args: &Vec<Expr>, k: usize) -> (r: Option<String>)
    ensures
        r == name_arg(args@, k as int),
{
    if k < args.len() {
        match &args[k] {
            Expr::Name(s) => Some(s.clone()),
            _ => None,
        }
    } else {
        None
    }
}

fn u32_sort_value() -> (r: Sort)
    ensures
        r == u32_sort(),
{
    Sort::BitVector(32)
}

fn make_zero_array(n: usize) -> (r: Value)
    ensures
        r == zero_array(n),
{
    Value::Array(Box::new(u32_sort_value()), Box::new(Value::BitVector(32, 0)), n)
}

fn make_zero_matrix(rows: usize, cols: usize) -> (r: Value)
    ensures
        r == zero_matrix(rows, cols),
{
    Value::Array(Box::new(u32_sort_value()), Box::new(make_zero_array(cols)), rows)
}

fn make_identity(size: u64) -> (r: Value)
    requires
        size < LIMIT,
    ensures
        r == identity_rows(size as usize, size as nat),
{
    let n = size as usize;
    let mut acc = make_zero_matrix(n, n);
    let mut k: u64 = 0;
    while k < size
        invariant
            k <= size,
            n == size as usize,
            acc == identity_rows(n, k as nat),
        decreases size - k,
    {
        let row = Value::Update(Box::new(make_zero_array(n)), k, Box::new(Value::BitVector(32, 1)));
        acc = Value::Update(Box::new(acc), k, Box::new(row));
        k = k + 1;
    }
    acc
}

fn check_sorted(t: Term) -> (r: Result<Term, LowerError>)
    ensures
        match sorted(t, Map::empty()) {
            Ok(p) => r == Ok::<Term, LowerError>(p.0),
            Err(err) => r == Err::<Term, LowerError>(err),
        },
{
    if check(&t).is_some() {
        Ok(t)
    } else {
        Err(LowerError::SortMismatch)
    }
}

fn lower_binary(l: Term, token: &String, r: Term) -> (res: Result<Term, LowerError>)
    ensures
        match binary(l, token@, r, Map::empty()) {
            Ok(p) => res == Ok::<Term, LowerError>(p.0),
            Err(err) => res == Err::<Term, LowerError>(err),
        },
{
    match (check(&l), check(&r)) {
        (Some(sl), Some(sr)) => if sl.same(&sr) {
            let op = map_nary_op(sl, token.clone());
            check_sorted(Term::Nary(op, Box::new(l), Box::new(r)))
        } else {
            Err(LowerError::SortMismatch)
        },
        _ => Err(LowerError::SortMismatch),
    }
}

/// What `evaluate_expr` promises, over the metadata before and after.
pub open spec fn lowered(
    e: Expr,
    syms: Map<Seq<char>, Term>,
    before: ComputationMetadata,
    after: ComputationMetadata,
    name: Option<String>,
    r: Result<Term, LowerError>,
) -> bool {
    &&& after.parties@ == before.parties@
    &&& match lower_expr(e, syms, before.inputs@, before.parties@.len(), name) {
        Ok((t, ins)) => r == Ok::<Term, LowerError>(t) && after.inputs@ == ins,
        Err(err) => r == Err::<Term, LowerError>(err),
    }
}

fn make_secret(
    name: &Option<String>,
    s: Sort,
    p: u64,
    meta: &mut ComputationMetadata,
) -> (r: Result<Term, LowerError>)
    requires
        p < 256,
    ensures
        final(meta).parties@ == old(meta).parties@,
        match secret(*name, s, p, old(meta).inputs@) {
            Ok((t, ins)) => r == Ok::<Term, LowerError>(t) && final(meta).inputs@ == ins,
            Err(err) => r == Err::<Term, LowerError>(err),
        },
{
    match name {
        Some(nm) => {
            meta.new_input(nm.clone(), Some(p as u8));
            Ok(Term::Var(nm.clone(), s))
        },
        None => Err(LowerError::UnsupportedConstruct),
    }
}

fn evaluate_party_call(
    f: &String,
    args: &Vec<Expr>,
    meta: &mut ComputationMetadata,
    name: &Option<String>,
) -> (r: Result<Term, LowerError>)
    requires
        old(meta).parties@.len() <= 256,
    ensures
        final(meta).parties@ == old(meta).parties@,
        match lower_party_call(f@, args@, old(meta).inputs@, old(meta).parties@.len(), *name) {
            Ok((t, ins)) => r == Ok::<Term, LowerError>(t) && final(meta).inputs@ == ins,
            Err(err) => r == Err::<Term, LowerError>(err),
        },
{
    let n = meta.parties.len() as i64;
    if str_is(f.as_str(), "s_int") {
        match get_num_arg(args, 0, n) {
            Some(p) => make_secret(name, u32_sort_value(), p, meta),
            None => Err(LowerError::MalformedInput(Fault { kind: NodeKind::Call, member: Member::Args })),
        }
    } else if str_is(f.as_str(), "s_int_array") {
        match (get_num_arg(args, 0, LIMIT), get_num_arg(args, 1, n)) {
            (Some(len), Some(p)) => {
                let s = Sort::Array(
                    Box::new(u32_sort_value()),
                    Box::new(u32_sort_value()),
                    len as usize,
                );
                make_secret(name, s, p, meta)
            },
            _ => Err(LowerError::MalformedInput(Fault { kind: NodeKind::Call, member: Member::Args })),
        }
    } else if str_is(f.as_str(), "s_int_mat") {
        match (get_num_arg(args, 0, LIMIT), get_num_arg(args, 1, LIMIT), get_num_arg(args, 2, n)) {
            (Some(rows), Some(cols), Some(p)) => {
                let row = Sort::Array(
                    Box::new(u32_sort_value()),
                    Box::new(u32_sort_value()),
                    cols as usize,
                );
                let s = Sort::Array(Box::new(u32_sort_value()), Box::new(row), rows as usize);
                make_secret(name, s, p, meta)
            },
            _ => Err(LowerError::MalformedInput(Fault { kind: NodeKind::Call, member: Member::Args })),
        }
    } else {
        Err(LowerError::UnsupportedConstruct)
    }
}

/// Lowers an expression under the bindings of `symbol_table`.
///
/// A secret input found here is declared in `metadata` under `name`.
pub fn evaluate_expr(
    value: &Expr,
    symbol_table: &Table<Term>,
    metadata: &mut ComputationMetadata,
    name: &Option<String>,
) -> (r: Result<Term, LowerError>)
    requires
        old(metadata).parties@.len() <= 256,
    ensures
        lowered(*value, symbol_table@, *old(metadata), *final(metadata), *name, r),
    decreases value,
{
    match value {
        Expr::BinOp(l, token, r) | Expr::Compare(l, token, r) => {
            let tl = evaluate_expr(l, symbol_table, metadata, &None)?;
            let tr = evaluate_expr(r, symbol_table, metadata, &None)?;
            lower_binary(tl, token, tr)
        },
        Expr::Name(x) => match symbol_table.get(x.as_str()) {
            Some(t) => Ok(t.copy()),
            None => Err(LowerError::UnboundVariable(x.clone())),
        },
        Expr::Num(v) => if 0 <= *v && *v < LIMIT {
            Ok(Term::Const(Value::BitVector(32, *v as u64)))
        } else {
            Err(LowerError::MalformedInput(Fault { kind: NodeKind::Num, member: Member::N }))
        },
        Expr::Other => Err(LowerError::UnsupportedConstruct),
        Expr::Call(Callee::Attribute(f), args) => evaluate_party_call(f, args, metadata, name),
        Expr::Call(Callee::Other, _) => Err(LowerError::UnsupportedConstruct),
        Expr::Call(Callee::Name(f), args) => {
            let f = f.as_str();
            if str_is(f, "c_int") {
                match get_num_arg(args, 0, LIMIT) {
                    Some(v) => Ok(Term::Const(Value::BitVector(32, v))),
                    None => Err(LowerError::MalformedInput(Fault { kind: NodeKind::Call, member: Member::Args })),
                }
            } else if str_is(f, "c_int_array") {
                match get_num_arg(args, 0, LIMIT) {
                    Some(len) => Ok(Term::Const(make_zero_array(len as usize))),
                    None => Err(LowerError::MalformedInput(Fault { kind: NodeKind::Call, member: Member::Args })),
                }
            } else if str_is(f, "c_int_mat") {
                match (get_num_arg(args, 0, LIMIT), get_num_arg(args, 1, LIMIT)) {
                    (Some(rows), Some(cols)) => Ok(
                        Term::Const(make_zero_matrix(rows as usize, cols as usize)),
                    ),
                    _ => Err(LowerError::MalformedInput(Fault { kind: NodeKind::Call, member: Member::Args })),
                }
            } else if str_is(f, "get_identity_matrix") {
                match get_num_arg(args, 0, LIMIT) {
                    Some(size) => Ok(Term::Const(make_identity(size))),
                    None => Err(LowerError::MalformedInput(Fault { kind: NodeKind::Call, member: Member::Args })),
                }
            } else if str_is(f, "array_index_secret_load_if") {
                if args.len() < 4 {
                    Err(LowerError::MalformedInput(Fault { kind: NodeKind::Call, member: Member::Args }))
                } else {
                    let c = evaluate_expr(&args[0], symbol_table, metadata, name)?;
                    let arr = evaluate_expr(&args[1], symbol_table, metadata, name)?;
                    let i1 = evaluate_expr(&args[2], symbol_table, metadata, name)?;
                    let i2 = evaluate_expr(&args[3], symbol_table, metadata, name)?;
                    let first = Term::Select(Box::new(arr.copy()), Box::new(i1));
                    let second = Term::Select(Box::new(arr), Box::new(i2));
                    check_sorted(Term::Ite(Box::new(c), Box::new(first), Box::new(second)))
                }
            } else if str_is(f, "matadd") || str_is(f, "matsub") || str_is(f, "matmul") {
                let op = if str_is(f, "matadd") {
                    MatrixBinOp::Add
                } else if str_is(f, "matsub") {
                    MatrixBinOp::Sub
                } else {
                    MatrixBinOp::Mul
                };
                if args.len() < 2 {
                    Err(LowerError::MalformedInput(Fault { kind: NodeKind::Call, member: Member::Args }))
                } else {
                    let x = evaluate_expr(&args[0], symbol_table, metadata, &None)?;
                    let y = evaluate_expr(&args[1], symbol_table, metadata, &None)?;
                    check_sorted(Term::MatrixBin(op, Box::new(x), Box::new(y)))
                }
            } else if str_is(f, "transpose") || str_is(f, "inverse") || str_is(f, "sigmoid") {
                if args.len() < 1 {
                    Err(LowerError::MalformedInput(Fault { kind: NodeKind::Call, member: Member::Args }))
                } else {
                    let x = evaluate_expr(&args[0], symbol_table, metadata, &None)?;
                    check_sorted(
                        if str_is(f, "transpose") {
                            Term::MatrixUn(MatrixUnOp::Transpose, Box::new(x))
                        } else if str_is(f, "inverse") {
                            Term::MatrixUn(MatrixUnOp::Inverse, Box::new(x))
                        } else {
                            Term::Sigmoid(Box::new(x))
                        },
                    )
                }
            } else if str_is(f, "mat_const_mul") {
                if args.len() < 1 {
                    Err(LowerError::MalformedInput(Fault { kind: NodeKind::Call, member: Member::Args }))
                } else {
                    let scale = evaluate_expr(&args[0], symbol_table, metadata, &None)?;
                    match get_name_arg(args, 1) {
                        None => Err(LowerError::MalformedInput(Fault { kind: NodeKind::Call, member: Member::Args })),
                        Some(m) => match symbol_table.get(m.as_str()) {
                            Some(mat) => check_sorted(
                                Term::MatrixBin(
                                    MatrixBinOp::Scale,
                                    Box::new(scale),
                                    Box::new(mat.copy()),
                                ),
                            ),
                            None => Err(LowerError::UnboundVariable(m)),
                        },
                    }
                }
            } else {
                Err(LowerError::UnsupportedConstruct)
            }
        },
    }
}

/// Bindings, declared inputs, and outputs so far.
pub type LowerState = (Map<Seq<char>, Term>, Inputs, Seq<Term>);

/// The name that an assignment rebinds.
pub open spec fn target_name(t: Target) -> String {
    match t {
        Target::Name(x) => x,
        Target::Index(x, _) => x,
        Target::MatrixIndex(x, _, _) => x,
    }
}

/// The encoding of a boolean check as an output: `ite(a = b, true, false)`.
pub open spec fn test_term(a: Term, b: Term) -> Term {
    Term::Ite(
        Box::new(Term::Nary(Op::Eq, Box::new(a), Box::new(b))),
        Box::new(Term::Const(Value::Bool(true))),
        Box::new(Term::Const(Value::Bool(false))),
    )
}

/// The effect of an intrinsic call made as a statement.
pub open spec fn lower_call_stmt(f: Seq<char>, args: Seq<Expr>, st: LowerState, n: nat) -> Result<
    LowerState,
    LowerError,
> {
    let (syms, ins, outs) = st;
    if f == "reveal_all"@ {
        match name_arg(args, 0) {
            None => Err(LowerError::MalformedInput(Fault { kind: NodeKind::Call, member: Member::Args })),
            Some(x) => if syms.contains_key(x@) {
                Ok((syms, ins, outs.push(syms[x@])))
            } else {
                Err(LowerError::UnboundVariable(x))
            },
        }
    } else if f == "test"@ {
        if args.len() < 2 {
            Err(LowerError::MalformedInput(Fault { kind: NodeKind::Call, member: Member::Args }))
        } else {
            match lower_expr(args[0], syms, ins, n, None) {
                Err(err) => Err(err),
                Ok((a, ins1)) => match lower_expr(args[1], syms, ins1, n, None) {
                    Err(err) => Err(err),
                    Ok((b, ins2)) => if sort_of(test_term(a, b)) is Some {
                        Ok((syms, ins2, outs.push(test_term(a, b))))
                    } else {
                        Err(LowerError::SortMismatch)
                    },
                },
            }
        }
    } else if f == "mat_assign"@ {
        match (name_arg(args, 0), name_arg(args, 1)) {
            (Some(dest), Some(src)) => if syms.contains_key(src@) {
                Ok((syms.insert(dest@, syms[src@]), ins, outs))
            } else {
                Err(LowerError::UnboundVariable(src))
            },
            _ => Err(LowerError::MalformedInput(Fault { kind: NodeKind::Call, member: Member::Args })),
        }
    } else {
        Ok(st)
    }
}

/// Rebinds the target of an assignment to `val`: directly for a name, by a
/// store for an array element, and by a store of an updated row for a matrix
/// element.
pub open spec fn assign(target: Target, val: Term, st: LowerState, n: nat) -> Result<
    LowerState,
    LowerError,
> {
    let (syms, ins, outs) = st;
    match target {
        Target::Name(x) => Ok((syms.insert(x@, val), ins, outs)),
        Target::Index(x, idx) => if !syms.contains_key(x@) {
            Err(LowerError::UnboundVariable(x))
        } else {
            match lower_expr(idx, syms, ins, n, None) {
                Err(err) => Err(err),
                Ok((i, ins1)) => {
                    let t = Term::Store(Box::new(syms[x@]), Box::new(i), Box::new(val));
                    if sort_of(t) is Some {
                        Ok((syms.insert(x@, t), ins1, outs))
                    } else {
                        Err(LowerError::SortMismatch)
                    }
                },
            }
        },
        Target::MatrixIndex(x, row, col) => if !syms.contains_key(x@) {
            Err(LowerError::UnboundVariable(x))
        } else {
            match lower_expr(col, syms, ins, n, None) {
                Err(err) => Err(err),
                Ok((c, ins1)) => match lower_expr(row, syms, ins1, n, None) {
                    Err(err) => Err(err),
                    Ok((r, ins2)) => {
                        let m = syms[x@];
                        let old_row = Term::Select(Box::new(m), Box::new(r));
                        let new_row = Term::Store(Box::new(old_row), Box::new(c), Box::new(val));
                        let t = Term::Store(Box::new(m), Box::new(r), Box::new(new_row));
                        if sort_of(t) is Some {
                            Ok((syms.insert(x@, t), ins2, outs))
                        } else {
                            Err(LowerError::SortMismatch)
                        }
                    },
                },
            }
        },
    }
}

/// The effect of one statement on the lowering state.
#[verifier::opaque]
pub open spec fn lower_stmt(s: Stmt, st: LowerState, n: nat) -> Result<LowerState, LowerError> {
    let (syms, ins, outs) = st;
    match s {
        Stmt::Assign(target, rhs) => match lower_expr(
            rhs,
            syms,
            ins,
            n,
            Some(target_name(target)),
        ) {
            Err(err) => Err(err),
            Ok((val, ins1)) => assign(target, val, (syms, ins1, outs), n),
        },
        Stmt::AugAssign(x, token, rhs) => if !syms.contains_key(x@) {
            Err(LowerError::UnboundVariable(x))
        } else {
            match sort_of(syms[x@]) {
                None => Err(LowerError::SortMismatch),
                Some(sort) => match lower_expr(rhs, syms, ins, n, None) {
                    Err(err) => Err(err),
                    Ok((val, ins1)) => {
                        let t = Term::Nary(resolve_op(sort, token@), Box::new(syms[x@]), Box::new(val));
                        if sort_of(t) is Some {
                            Ok((syms.insert(x@, t), ins1, outs))
                        } else {
                            Err(LowerError::SortMismatch)
                        }
                    },
                },
            }
        },
        Stmt::Expr(Expr::Call(Callee::Name(f), args)) => lower_call_stmt(f@, args@, st, n),
        _ => Ok(st),
    }
}

/// The effect of a sequence of statements, in order; the first error stops it.
pub open spec fn lower_stmts(stmts: Seq<Stmt>, st: LowerState, n: nat) -> Result<LowerState, LowerError>
    decreases stmts.len(),
{
    if stmts.len() == 0 {
        Ok(st)
    } else {
        match lower_stmt(stmts[0], st, n) {
            Ok(st1) => lower_stmts(stmts.drop_first(), st1, n),
            Err(err) => Err(err),
        }
    }
}

/// What `evaluate_stmt` promises.
pub open spec fn stmt_lowered(
    s: Stmt,
    syms: Table<Term>,
    meta: ComputationMetadata,
    outs: Vec<Term>,
    syms2: Table<Term>,
    meta2: ComputationMetadata,
    outs2: Vec<Term>,
    r: Result<(), LowerError>,
) -> bool {
    &&& meta2.parties@ == meta.parties@
    &&& match lower_stmt(s, (syms@, meta.inputs@, outs@), meta.parties@.len()) {
        Ok((sy, ins, o)) => r is Ok && syms2@ == sy && meta2.inputs@ == ins && outs2@ == o,
        Err(err) => r == Err::<(), LowerError>(err) && syms2@ == syms@ && outs2@ == outs@,
    }
}

fn evaluate_call_stmt(
    f: &String,
    args: &Vec<Expr>,
    symbol_table: &mut Table<Term>,
    metadata: &mut ComputationMetadata,
    outputs: &mut Vec<Term>,
) -> (r: Result<(), LowerError>)
    requires
        old(metadata).parties@.len() <= 256,
    ensures
        final(metadata).parties@ == old(metadata).parties@,
        match lower_call_stmt(
            f@,
            args@,
            (old(symbol_table)@, old(metadata).inputs@, old(outputs)@),
            old(metadata).parties@.len(),
        ) {
            Ok((sy, ins, o)) => r is Ok && final(symbol_table)@ == sy && final(metadata).inputs@
                == ins && final(outputs)@ == o,
            Err(err) => r == Err::<(), LowerError>(err) && final(symbol_table)@ == old(
                symbol_table,
            )@ && final(outputs)@ == old(outputs)@,
        },
{
    if str_is(f.as_str(), "reveal_all") {
        match get_name_arg(args, 0) {
            None => Err(LowerError::MalformedInput(Fault { kind: NodeKind::Call, member: Member::Args })),
            Some(x) => match symbol_table.get(x.as_str()) {
                Some(t) => {
                    outputs.push(t.copy());
                    Ok(())
                },
                None => Err(LowerError::UnboundVariable(x)),
            },
        }
    } else if str_is(f.as_str(), "test") {
        if args.len() < 2 {
            Err(LowerError::MalformedInput(Fault { kind: NodeKind::Call, member: Member::Args }))
        } else {
            let a = evaluate_expr(&args[0], symbol_table, metadata, &None)?;
            let b = evaluate_expr(&args[1], symbol_table, metadata, &None)?;
            let t = Term::Ite(
                Box::new(Term::Nary(Op::Eq, Box::new(a), Box::new(b))),
                Box::new(Term::Const(Value::Bool(true))),
                Box::new(Term::Const(Value::Bool(false))),
            );
            let t = check_sorted(t)?;
            outputs.push(t);
            Ok(())
        }
    } else if str_is(f.as_str(), "mat_assign") {
        match (get_name_arg(args, 0), get_name_arg(args, 1)) {
            (Some(dest), Some(src)) => match symbol_table.get(src.as_str()) {
                Some(t) => {
                    let t = t.copy();
                    symbol_table.insert(dest, t);
                    Ok(())
                },
                None => Err(LowerError::UnboundVariable(src)),
            },
            _ => Err(LowerError::MalformedInput(Fault { kind: NodeKind::Call, member: Member::Args })),
        }
    } else {
        Ok(())
    }
}

fn evaluate_assign(
    target: &Target,
    val: Term,
    symbol_table: &mut Table<Term>,
    metadata: &mut ComputationMetadata,
) -> (r: Result<(), LowerError>)
    requires
        old(metadata).parties@.len() <= 256,
    ensures
        final(metadata).parties@ == old(metadata).parties@,
        match assign(
            *target,
            val,
            (old(symbol_table)@, old(metadata).inputs@, Seq::empty()),
            old(metadata).parties@.len(),
        ) {
            Ok((sy, ins, _)) => r is Ok && final(symbol_table)@ == sy && final(metadata).inputs@
                == ins,
            Err(err) => r == Err::<(), LowerError>(err) && final(symbol_table)@ == old(
                symbol_table,
            )@,
        },
{
    match target {
        Target::Name(x) => {
            symbol_table.insert(x.clone(), val);
            Ok(())
        },
        Target::Index(x, idx) => {
            let array = match symbol_table.get(x.as_str()) {
                Some(t) => t.copy(),
                None => {
                    return Err(LowerError::UnboundVariable(x.clone()));
                },
            };
            let i = evaluate_expr(idx, symbol_table, metadata, &None)?;
            let t = check_sorted(Term::Store(Box::new(array), Box::new(i), Box::new(val)))?;
            symbol_table.insert(x.clone(), t);
            Ok(())
        },
        Target::MatrixIndex(x, row, col) => {
            let matrix = match symbol_table.get(x.as_str()) {
                Some(t) => t.copy(),
                None => {
                    return Err(LowerError::UnboundVariable(x.clone()));
                },
            };
            let c = evaluate_expr(col, symbol_table, metadata, &None)?;
            let r = evaluate_expr(row, symbol_table, metadata, &None)?;
            let old_row = Term::Select(Box::new(matrix.copy()), Box::new(r.copy()));
            let new_row = Term::Store(Box::new(old_row), Box::new(c), Box::new(val));
            let t = check_sorted(Term::Store(Box::new(matrix), Box::new(r), Box::new(new_row)))?;
            symbol_table.insert(x.clone(), t);
            Ok(())
        },
    }
}

/// Lowers one statement, updating the bindings, the declared inputs and the
/// outputs. Statements of other kinds, and function definitions, change
/// nothing.
pub fn evaluate_stmt(
    value: &Stmt,
    symbol_table: &mut Table<Term>,
    metadata: &mut ComputationMetadata,
    outputs: &mut Vec<Term>,
) -> (r: Result<(), LowerError>)
    requires
        old(metadata).parties@.len() <= 256,
    ensures
        stmt_lowered(
            *value,
            *old(symbol_table),
            *old(metadata),
            *old(outputs),
            *final(symbol_table),
            *final(metadata),
            *final(outputs),
            r,
        ),
{
    reveal(lower_stmt);
    match value {
        Stmt::Assign(target, rhs) => {
            let identifier = match target {
                Target::Name(x) => x.clone(),
                Target::Index(x, _) => x.clone(),
                Target::MatrixIndex(x, _, _) => x.clone(),
            };
            let val = evaluate_expr(rhs, symbol_table, metadata, &Some(identifier))?;
            evaluate_assign(target, val, symbol_table, metadata)
        },
        Stmt::AugAssign(x, token, rhs) => {
            let current = match symbol_table.get(x.as_str()) {
                Some(t) => t.copy(),
                None => {
                    return Err(LowerError::UnboundVariable(x.clone()));
                },
            };
            let sort = match check(&current) {
                Some(s) => s,
                None => {
                    return Err(LowerError::SortMismatch);
                },
            };
            let val = evaluate_expr(rhs, symbol_table, metadata, &None)?;
            let op = map_nary_op(sort, token.clone());
            let t = check_sorted(Term::Nary(op, Box::new(current), Box::new(val)))?;
            symbol_table.insert(x.clone(), t);
            Ok(())
        },
        Stmt::Expr(Expr::Call(Callee::Name(f), args)) => evaluate_call_stmt(
            f,
            args,
            symbol_table,
            metadata,
            outputs,
        ),
        _ => Ok(()),
    }
}

/// Lowers the statements of a program for `parties` parties named "Party 0"
/// onwards.
pub fn lower_module(module: &Vec<Stmt>, parties: u8) -> (r: Result<Computation, LowerError>)
    ensures
        lowered_program(module@, parties, r),
{
    let mut metadata = ComputationMetadata::with_parties(parties);
    let mut symbol_table: Table<Term> = Table::new();
    let mut outputs: Vec<Term> = Vec::new();
    let ghost n = parties as nat;
    let ghost init: LowerState = (Map::empty(), Map::empty(), Seq::empty());
    let mut i: usize = 0;
    assert(module@.subrange(0, module@.len() as int) =~= module@);
    while i < module.len()
        invariant
            0 <= i <= module@.len(),
            n == parties as nat,
            init == (Map::<Seq<char>, Term>::empty(), Map::<Seq<char>, Option<u8>>::empty(), Seq::<Term>::empty()),
            metadata.parties@.len() == parties,
            forall|j: int| 0 <= j < parties ==> #[trigger] metadata.parties@[j]@ == party_label(j as nat),
            lower_stmts(module@, init, n) == lower_stmts(
                module@.subrange(i as int, module@.len() as int),
                (symbol_table@, metadata.inputs@, outputs@),
                n,
            ),
        decreases module@.len() - i,
    {
        let ghost rest = module@.subrange(i as int, module@.len() as int);
        assert(rest.drop_first() =~= module@.subrange(i + 1, module@.len() as int));
        let ghost st: LowerState = (symbol_table@, metadata.inputs@, outputs@);
        assert(rest[0] == module@[i as int]);
        assert(lower_stmts(rest, st, n) == match lower_stmt(rest[0], st, n) {
            Ok(st1) => lower_stmts(rest.drop_first(), st1, n),
            Err(err) => Err(err),
        });
        let r = evaluate_stmt(&module[i], &mut symbol_table, &mut metadata, &mut outputs);
        if let Err(e) = r {
            assert(lower_stmt(rest[0], st, n) == Err::<LowerState, LowerError>(e));
            return Err(e);
        }
        assert(lower_stmt(rest[0], st, n) == Ok::<LowerState, LowerError>(
            (symbol_table@, metadata.inputs@, outputs@),
        ));
        i = i + 1;
    }
    assert(module@.subrange(i as int, module@.len() as int) =~= Seq::<Stmt>::empty());
    Ok(Computation { outputs, metadata })
}

/// The names of the variables that a term mentions.
pub open spec fn vars_of(t: Term) -> Set<Seq<char>>
    decreases t,
{
    match t {
        Term::Var(n, _) => set![n@],
        Term::Const(_) => Set::empty(),
        Term::Nary(_, a, b) | Term::MatrixBin(_, a, b) | Term::Select(a, b) => vars_of(*a).union(
            vars_of(*b),
        ),
        Term::Ite(a, b, c) | Term::Store(a, b, c) => vars_of(*a).union(vars_of(*b)).union(
            vars_of(*c),
        ),
        Term::MatrixUn(_, a) | Term::Sigmoid(a) | Term::Field(a, _) => vars_of(*a),
        Term::Update(a, _, b) => vars_of(*a).union(vars_of(*b)),
    }
}

/// Every declared input is owned by one of the `n` parties.
pub open spec fn owned(ins: Inputs, n: nat) -> bool {
    forall|k: Seq<char>| #[trigger]
        ins.contains_key(k) ==> (ins[k] matches Some(p) && (p as nat) < n)
}

/// Every variable of `t` is a declared input.
pub open spec fn declared(t: Term, ins: Inputs) -> bool {
    forall|x: Seq<char>| #[trigger] vars_of(t).contains(x) ==> ins.contains_key(x)
}

/// Every binding mentions declared inputs only.
pub open spec fn bindings_declared(syms: Map<Seq<char>, Term>, ins: Inputs) -> bool {
    forall|k: Seq<char>| #[trigger] syms.contains_key(k) ==> declared(syms[k], ins)
}

/// A lowering state with no free variable: inputs are owned, and bindings
/// and outputs mention declared inputs only.
pub open spec fn complete(st: LowerState, n: nat) -> bool {
    &&& owned(st.1, n)
    &&& bindings_declared(st.0, st.1)
    &&& forall|k: int| 0 <= k < st.2.len() ==> declared(#[trigger] st.2[k], st.1)
}

proof fn lemma_declared_grow(t: Term, ins: Inputs, ins2: Inputs)
    requires
        declared(t, ins),
        ins.dom().subset_of(ins2.dom()),
    ensures
        declared(t, ins2),
{
    assert forall|x: Seq<char>| #[trigger] vars_of(t).contains(x) implies ins2.contains_key(x) by {
        assert(ins.dom().contains(x));
    }
}

proof fn lemma_bindings_grow(syms: Map<Seq<char>, Term>, ins: Inputs, ins2: Inputs)
    requires
        bindings_declared(syms, ins),
        ins.dom().subset_of(ins2.dom()),
    ensures
        bindings_declared(syms, ins2),
{
    assert forall|k: Seq<char>| #[trigger] syms.contains_key(k) implies declared(syms[k], ins2) by {
        lemma_declared_grow(syms[k], ins, ins2);
    }
}

/// Lowering an expression declares every variable it introduces, keeps
/// earlier declarations, and only declares inputs of existing parties.
#[verifier::spinoff_prover]
proof fn lemma_expr_complete(
    e: Expr,
    syms: Map<Seq<char>, Term>,
    ins: Inputs,
    n: nat,
    name: Option<String>,
)
    requires
        n <= 256,
        owned(ins, n),
        bindings_declared(syms, ins),
        lower_expr(e, syms, ins, n, name) is Ok,
    ensures
        ({
            let (t, ins2) = lower_expr(e, syms, ins, n, name)->Ok_0;
            owned(ins2, n) && ins.dom().subset_of(ins2.dom()) && declared(t, ins2)
        }),
    decreases e, 1nat,
{
    match e {
        Expr::BinOp(l, token, r) | Expr::Compare(l, token, r) => {
            lemma_expr_complete(*l, syms, ins, n, None);
            let (tl, ins1) = lower_expr(*l, syms, ins, n, None)->Ok_0;
            lemma_bindings_grow(syms, ins, ins1);
            lemma_expr_complete(*r, syms, ins1, n, None);
            let (tr, i2) = lower_expr(*r, syms, ins1, n, None)->Ok_0;
            lemma_declared_grow(tl, ins1, i2);
            let t = binary(tl, token@, tr, i2)->Ok_0.0;
            assert(t == Term::Nary(resolve_op(sort_of(tl)->Some_0, token@), Box::new(tl), Box::new(tr)));
            assert(vars_of(t) == vars_of(tl).union(vars_of(tr)));
        },
        Expr::Call(Callee::Name(_), _) => {
            lemma_named_call_complete(e, syms, ins, n, name);
        },
        _ => {},
    }
}

#[verifier::spinoff_prover]
#[verifier::rlimit(50)]
proof fn lemma_named_call_complete(
    e: Expr,
    syms: Map<Seq<char>, Term>,
    ins: Inputs,
    n: nat,
    name: Option<String>,
)
    requires
        e is Call && e->Call_0 is Name,
        n <= 256,
        owned(ins, n),
        bindings_declared(syms, ins),
        lower_expr(e, syms, ins, n, name) is Ok,
    ensures
        ({
            let (t, ins2) = lower_expr(e, syms, ins, n, name)->Ok_0;
            owned(ins2, n) && ins.dom().subset_of(ins2.dom()) && declared(t, ins2)
        }),
    decreases e, 0nat,
{
    let (t, ins2) = lower_expr(e, syms, ins, n, name)->Ok_0;
    let f = e->Call_0->Name_0@;
    let args = e->Call_1;
    let a = args@;
    assert(decreases_to!(e => args));
    if f == "c_int"@ || f == "c_int_array"@ || f == "c_int_mat"@ || f == "get_identity_matrix"@ {
    } else if f == "array_index_secret_load_if"@ {
        assert(decreases_to!(args => a[0]));
        assert(decreases_to!(args => a[1]));
        assert(decreases_to!(args => a[2]));
        assert(decreases_to!(args => a[3]));
        lemma_expr_complete(a[0], syms, ins, n, name);
        let (c, ins1) = lower_expr(a[0], syms, ins, n, name)->Ok_0;
        lemma_bindings_grow(syms, ins, ins1);
        lemma_expr_complete(a[1], syms, ins1, n, name);
        let (arr, ins2_) = lower_expr(a[1], syms, ins1, n, name)->Ok_0;
        lemma_bindings_grow(syms, ins1, ins2_);
        lemma_expr_complete(a[2], syms, ins2_, n, name);
        let (i1, ins3) = lower_expr(a[2], syms, ins2_, n, name)->Ok_0;
        lemma_bindings_grow(syms, ins2_, ins3);
        lemma_expr_complete(a[3], syms, ins3, n, name);
        let (i2, ins4) = lower_expr(a[3], syms, ins3, n, name)->Ok_0;
        lemma_declared_grow(c, ins1, ins4);
        lemma_declared_grow(arr, ins2_, ins4);
        lemma_declared_grow(i1, ins3, ins4);
        let s1 = Term::Select(Box::new(arr), Box::new(i1));
        let s2 = Term::Select(Box::new(arr), Box::new(i2));
        assert(vars_of(s1) == vars_of(arr).union(vars_of(i1)));
        assert(vars_of(s2) == vars_of(arr).union(vars_of(i2)));
        let t2 = Term::Ite(Box::new(c), Box::new(s1), Box::new(s2));
        assert(t == t2);
        assert(vars_of(t2) == vars_of(c).union(vars_of(s1)).union(vars_of(s2)));
    } else if f == "matadd"@ || f == "matsub"@ || f == "matmul"@ {
        assert(decreases_to!(args => a[0]));
        assert(decreases_to!(args => a[1]));
        lemma_expr_complete(a[0], syms, ins, n, None);
        let (x, ins1) = lower_expr(a[0], syms, ins, n, None)->Ok_0;
        lemma_bindings_grow(syms, ins, ins1);
        lemma_expr_complete(a[1], syms, ins1, n, None);
        let (y, i2) = lower_expr(a[1], syms, ins1, n, None)->Ok_0;
        lemma_declared_grow(x, ins1, i2);
        assert(t is MatrixBin && *t->MatrixBin_1 == x && *t->MatrixBin_2 == y);
        assert(vars_of(t) == vars_of(x).union(vars_of(y)));
    } else if f == "transpose"@ || f == "inverse"@ || f == "sigmoid"@ {
        assert(decreases_to!(args => a[0]));
        lemma_expr_complete(a[0], syms, ins, n, None);
        let (x, ins1) = lower_expr(a[0], syms, ins, n, None)->Ok_0;
        assert(vars_of(t) == vars_of(x));
    } else if f == "mat_const_mul"@ {
        assert(decreases_to!(args => a[0]));
        lemma_expr_complete(a[0], syms, ins, n, None);
        let (sc, ins1) = lower_expr(a[0], syms, ins, n, None)->Ok_0;
        lemma_bindings_grow(syms, ins, ins1);
        let m = name_arg(a, 1)->Some_0;
        assert(syms.contains_key(m@));
        assert(declared(syms[m@], ins1));
        assert(t == Term::MatrixBin(MatrixBinOp::Scale, Box::new(sc), Box::new(syms[m@])));
        assert(vars_of(t) == vars_of(sc).union(vars_of(syms[m@])));
    }
}

proof fn lemma_outputs_grow(outs: Seq<Term>, ins: Inputs, ins2: Inputs)
    requires
        forall|k: int| 0 <= k < outs.len() ==> declared(#[trigger] outs[k], ins),
        ins.dom().subset_of(ins2.dom()),
    ensures
        forall|k: int| 0 <= k < outs.len() ==> declared(#[trigger] outs[k], ins2),
{
    assert forall|k: int| 0 <= k < outs.len() implies declared(#[trigger] outs[k], ins2) by {
        lemma_declared_grow(outs[k], ins, ins2);
    }
}

proof fn lemma_rebind_declared(syms: Map<Seq<char>, Term>, ins: Inputs, x: Seq<char>, t: Term)
    requires
        bindings_declared(syms, ins),
        declared(t, ins),
    ensures
        bindings_declared(syms.insert(x, t), ins),
{
}

#[verifier::spinoff_prover]
proof fn lemma_assign_complete(target: Target, val: Term, st: LowerState, n: nat)
    requires
        n <= 256,
        complete(st, n),
        declared(val, st.1),
        assign(target, val, st, n) is Ok,
    ensures
        complete(assign(target, val, st, n)->Ok_0, n),
{
    let (syms, ins, outs) = st;
    match target {
        Target::Name(x) => {
            lemma_rebind_declared(syms, ins, x@, val);
        },
        Target::Index(x, idx) => {
            lemma_expr_complete(idx, syms, ins, n, None);
            let (i, ins1) = lower_expr(idx, syms, ins, n, None)->Ok_0;
            lemma_bindings_grow(syms, ins, ins1);
            lemma_outputs_grow(outs, ins, ins1);
            lemma_declared_grow(val, ins, ins1);
            let t = Term::Store(Box::new(syms[x@]), Box::new(i), Box::new(val));
            assert(vars_of(t) == vars_of(syms[x@]).union(vars_of(i)).union(vars_of(val)));
            lemma_rebind_declared(syms, ins1, x@, t);
        },
        Target::MatrixIndex(x, row, col) => {
            lemma_expr_complete(col, syms, ins, n, None);
            let (c, ins1) = lower_expr(col, syms, ins, n, None)->Ok_0;
            lemma_bindings_grow(syms, ins, ins1);
            lemma_expr_complete(row, syms, ins1, n, None);
            let (r, ins2) = lower_expr(row, syms, ins1, n, None)->Ok_0;
            lemma_bindings_grow(syms, ins1, ins2);
            lemma_outputs_grow(outs, ins, ins2);
            lemma_declared_grow(val, ins, ins2);
            lemma_declared_grow(c, ins1, ins2);
            let m = syms[x@];
            let old_row = Term::Select(Box::new(m), Box::new(r));
            let new_row = Term::Store(Box::new(old_row), Box::new(c), Box::new(val));
            let t = Term::Store(Box::new(m), Box::new(r), Box::new(new_row));
            assert(vars_of(old_row) == vars_of(m).union(vars_of(r)));
            assert(vars_of(new_row) == vars_of(old_row).union(vars_of(c)).union(vars_of(val)));
            assert(vars_of(t) == vars_of(m).union(vars_of(r)).union(vars_of(new_row)));
            lemma_rebind_declared(syms, ins2, x@, t);
        },
    }
}

#[verifier::spinoff_prover]
proof fn lemma_call_stmt_complete(f: Seq<char>, args: Seq<Expr>, st: LowerState, n: nat)
    requires
        n <= 256,
        complete(st, n),
        lower_call_stmt(f, args, st, n) is Ok,
    ensures
        complete(lower_call_stmt(f, args, st, n)->Ok_0, n),
{
    let (syms, ins, outs) = st;
    if f == "reveal_all"@ {
        let x = name_arg(args, 0)->Some_0;
        let outs2 = outs.push(syms[x@]);
        assert forall|k: int| 0 <= k < outs2.len() implies declared(#[trigger] outs2[k], ins) by {
            if k < outs.len() {
                assert(outs2[k] == outs[k]);
            }
        }
    } else if f == "test"@ {
        lemma_expr_complete(args[0], syms, ins, n, None);
        let (a, ins1) = lower_expr(args[0], syms, ins, n, None)->Ok_0;
        lemma_bindings_grow(syms, ins, ins1);
        lemma_expr_complete(args[1], syms, ins1, n, None);
        let (b, ins2) = lower_expr(args[1], syms, ins1, n, None)->Ok_0;
        lemma_bindings_grow(syms, ins1, ins2);
        lemma_outputs_grow(outs, ins, ins2);
        lemma_declared_grow(a, ins1, ins2);
        let t = test_term(a, b);
        let eq = Term::Nary(Op::Eq, Box::new(a), Box::new(b));
        assert(vars_of(eq) == vars_of(a).union(vars_of(b)));
        assert(vars_of(Term::Const(Value::Bool(true))) == Set::<Seq<char>>::empty());
        assert(vars_of(Term::Const(Value::Bool(false))) == Set::<Seq<char>>::empty());
        assert(vars_of(t) == vars_of(eq).union(Set::<Seq<char>>::empty()).union(Set::<Seq<char>>::empty()));
        let outs2 = outs.push(t);
        assert forall|k: int| 0 <= k < outs2.len() implies declared(#[trigger] outs2[k], ins2) by {
            if k < outs.len() {
                assert(outs2[k] == outs[k]);
            }
        }
    } else if f == "mat_assign"@ {
        let dest = name_arg(args, 0)->Some_0;
        let src = name_arg(args, 1)->Some_0;
        lemma_rebind_declared(syms, ins, dest@, syms[src@]);
    }
}

/// Lowering a statement keeps the state free of undeclared variables.
#[verifier::spinoff_prover]
proof fn lemma_stmt_complete(s: Stmt, st: LowerState, n: nat)
    requires
        n <= 256,
        complete(st, n),
        lower_stmt(s, st, n) is Ok,
    ensures
        complete(lower_stmt(s, st, n)->Ok_0, n),
{
    reveal(lower_stmt);
    let (syms, ins, outs) = st;
    match s {
        Stmt::Assign(target, rhs) => {
            lemma_expr_complete(rhs, syms, ins, n, Some(target_name(target)));
            let (val, ins1) = lower_expr(rhs, syms, ins, n, Some(target_name(target)))->Ok_0;
            lemma_bindings_grow(syms, ins, ins1);
            lemma_outputs_grow(outs, ins, ins1);
            lemma_assign_complete(target, val, (syms, ins1, outs), n);
        },
        Stmt::AugAssign(x, token, rhs) => {
            lemma_expr_complete(rhs, syms, ins, n, None);
            let (val, ins1) = lower_expr(rhs, syms, ins, n, None)->Ok_0;
            lemma_bindings_grow(syms, ins, ins1);
            lemma_outputs_grow(outs, ins, ins1);
            let t = Term::Nary(resolve_op(sort_of(syms[x@])->Some_0, token@), Box::new(syms[x@]), Box::new(val));
            assert(vars_of(t) == vars_of(syms[x@]).union(vars_of(val)));
            lemma_rebind_declared(syms, ins1, x@, t);
        },
        Stmt::Expr(Expr::Call(Callee::Name(f), args)) => {
            lemma_call_stmt_complete(f@, args@, st, n);
        },
        _ => {},
    }
}

proof fn lemma_stmts_complete(stmts: Seq<Stmt>, st: LowerState, n: nat)
    requires
        n <= 256,
        complete(st, n),
        lower_stmts(stmts, st, n) is Ok,
    ensures
        complete(lower_stmts(stmts, st, n)->Ok_0, n),
    decreases stmts.len(),
{
    if stmts.len() > 0 {
        lemma_stmt_complete(stmts[0], st, n);
        lemma_stmts_complete(stmts.drop_first(), lower_stmt(stmts[0], st, n)->Ok_0, n);
    }
}

/// Every variable that an output of a lowered program mentions is an input
/// declared in the metadata and owned by one of the parties.
pub proof fn lemma_outputs_have_owners(module: Seq<Stmt>, parties: u8)
    requires
        lower_stmts(module, (Map::empty(), Map::empty(), Seq::empty()), parties as nat) is Ok,
    ensures
        ({
            let (_, ins, outs) = lower_stmts(
                module,
                (Map::empty(), Map::empty(), Seq::empty()),
                parties as nat,
            )->Ok_0;
            forall|k: int, x: Seq<char>|
                0 <= k < outs.len() && #[trigger] vars_of(outs[k]).contains(x) ==> (ins.contains_key(x)
                    && ins[x] is Some && ins[x]->Some_0 < parties)
        }),
{
    let init: LowerState = (Map::empty(), Map::empty(), Seq::empty());
    lemma_stmts_complete(module, init, parties as nat);
    let (_, ins, outs) = lower_stmts(module, init, parties as nat)->Ok_0;
    assert forall|k: int, x: Seq<char>|
        0 <= k < outs.len() && #[trigger] vars_of(outs[k]).contains(x) implies (ins.contains_key(x)
        && ins[x] is Some && ins[x]->Some_0 < parties) by {
        assert(declared(outs[k], ins));
    }
}

/// What lowering the statements `stmts` gives: the outputs and inputs of the
/// computation, or the error that stopped it.
pub open spec fn lowered_program(
    stmts: Seq<Stmt>,
    parties: u8,
    r: Result<Computation, LowerError>,
) -> bool {
    match lower_stmts(stmts, (Map::empty(), Map::empty(), Seq::empty()), parties as nat) {
        Ok((_, ins, outs)) => r matches Ok(c) && c.outputs@ == outs && c.metadata.inputs@ == ins
            && c.metadata.parties@.len() == parties && forall|i: int|
            0 <= i < parties ==> #[trigger] c.metadata.parties@[i]@ == party_label(i as nat),
        Err(err) => r matches Err(e) && e == err,
    }
}

/// Lowers a module given as its JSON syntax tree, for `parties` parties
/// named "Party 0" onwards. A tree that does not decode is `MalformedInput`;
/// otherwise the result is that of lowering the statements it denotes.
pub fn convert(module: &Json, parties: u8) -> (r: Result<Computation, LowerError>)
    ensures
        !module_ok(*module) ==> (r matches Err(e) && e == LowerError::MalformedInput(module_fault(*module))),
        module_ok(*module) ==> exists|stmts: Seq<Stmt>|
            stmts.len() == items(field(*module, "body"@))->Some_0.len() && (forall|i: int|
                0 <= i < stmts.len() ==> encodes_stmt(
                    #[trigger] stmts[i],
                    items(field(*module, "body"@))->Some_0[i],
                )) && lowered_program(stmts, parties, r),
{
    match decode_module(module) {
        Ok(stmts) => {
            let r = lower_module(&stmts, parties);
            assert(lowered_program(stmts@, parties, r));
            r
        },
        Err(e) => Err(e),
    }
}

/// Whether `s` is the statement `reveal_all(x)`.
pub open spec fn reveals(s: Stmt, x: String) -> bool {
    match s {
        Stmt::Expr(Expr::Call(Callee::Name(f), args)) => f@ == "reveal_all"@ && args@.len() > 0
            && args@[0] == Expr::Name(x),
        _ => false,
    }
}

proof fn lemma_reveal_step(s: Stmt, x: String, st: LowerState, n: nat)
    requires
        reveals(s, x),
        st.0.contains_key(x@),
    ensures
        lower_stmt(s, st, n) == Ok::<LowerState, LowerError>((st.0, st.1, st.2.push(st.0[x@]))),
{
    reveal(lower_stmt);
    let args = s->Expr_0->Call_1;
    assert(name_arg(args@, 0) == Some(x));
}

proof fn lemma_stmts_two(s1: Stmt, s2: Stmt, st: LowerState, n: nat)
    ensures
        lower_stmts(seq![s1, s2], st, n) == match lower_stmt(s1, st, n) {
            Ok(st1) => match lower_stmt(s2, st1, n) {
                Ok(st2) => Ok(st2),
                Err(err) => Err(err),
            },
            Err(err) => Err(err),
        },
{
    let prog = seq![s1, s2];
    assert(prog.drop_first() =~= seq![s2]);
    assert(seq![s2].drop_first() =~= Seq::<Stmt>::empty());
    if let Ok(st1) = lower_stmt(s1, st, n) {
        assert(lower_stmts(seq![s2], st1, n) == match lower_stmt(s2, st1, n) {
            Ok(st2) => lower_stmts(Seq::<Stmt>::empty(), st2, n),
            Err(err) => Err(err),
        });
    }
}

/// `reveal_all(a); reveal_all(b)` appends the current terms of `a` and `b`
/// to the outputs, in that order, and changes nothing else.
pub proof fn lemma_reveal_order(s1: Stmt, s2: Stmt, a: String, b: String, st: LowerState, n: nat)
    requires
        reveals(s1, a),
        reveals(s2, b),
        st.0.contains_key(a@),
        st.0.contains_key(b@),
    ensures
        lower_stmts(seq![s1, s2], st, n) == Ok::<LowerState, LowerError>(
            (st.0, st.1, st.2.push(st.0[a@]).push(st.0[b@])),
        ),
{
    lemma_reveal_step(s1, a, st, n);
    let st1: LowerState = (st.0, st.1, st.2.push(st.0[a@]));
    lemma_reveal_step(s2, b, st1, n);
    lemma_stmts_two(s1, s2, st, n);
}

/// Whether `s` is the statement `mat_assign(dest, src)`.
pub open spec fn aliases(s: Stmt, dest: String, src: String) -> bool {
    match s {
        Stmt::Expr(Expr::Call(Callee::Name(f), args)) => f@ == "mat_assign"@ && args@.len() > 1
            && args@[0] == Expr::Name(dest) && args@[1] == Expr::Name(src),
        _ => false,
    }
}

proof fn lemma_alias_step(s: Stmt, dest: String, src: String, st: LowerState, n: nat)
    requires
        aliases(s, dest, src),
        st.0.contains_key(src@),
    ensures
        lower_stmt(s, st, n) == Ok::<LowerState, LowerError>(
            (st.0.insert(dest@, st.0[src@]), st.1, st.2),
        ),
{
    reveal(lower_stmt);
    reveal_strlit("mat_assign");
    reveal_strlit("reveal_all");
    reveal_strlit("test");
    assert("mat_assign"@[0] == 'm' && "reveal_all"@[0] == 'r');
    assert("mat_assign"@ != "reveal_all"@);
    assert("mat_assign"@.len() == 10 && "test"@.len() == 4);
    assert("mat_assign"@ != "test"@);
    let args = s->Expr_0->Call_1;
    assert(name_arg(args@, 0) == Some(dest));
    assert(name_arg(args@, 1) == Some(src));
}

proof fn lemma_matrix_write_step(x: String, row: Expr, col: Expr, rhs: Expr, st: LowerState, n: nat)
    requires
        lower_stmt(Stmt::Assign(Target::MatrixIndex(x, row, col), rhs), st, n) is Ok,
    ensures
        ({
            let st2 = lower_stmt(Stmt::Assign(Target::MatrixIndex(x, row, col), rhs), st, n)->Ok_0;
            &&& st2.0.dom() == st.0.dom()
            &&& forall|k: Seq<char>| k != x@ && #[trigger] st.0.contains_key(k) ==> st2.0[k]
                == st.0[k]
            &&& st2.0[x@] is Store && *st2.0[x@]->Store_0 == st.0[x@]
        }),
{
    reveal(lower_stmt);
    let t = Target::MatrixIndex(x, row, col);
    let (val, ins1) = lower_expr(rhs, st.0, st.1, n, Some(target_name(t)))->Ok_0;
    assert(st.0.contains_key(x@));
    assert(st.0.insert(x@, st.0[x@]).dom() =~= st.0.dom());
    let st2 = lower_stmt(Stmt::Assign(t, rhs), st, n)->Ok_0;
    assert(st2.0.dom() =~= st.0.dom());
}

/// After `mat_assign(dest, src)`, a write `dest[row][col] = e` rebinds
/// `dest` to a store over the term `src` had, and leaves `src` bound to that
/// term: the write builds a new node and never alters the shared one.
pub proof fn lemma_alias_write(
    s1: Stmt,
    dest: String,
    src: String,
    row: Expr,
    col: Expr,
    rhs: Expr,
    st: LowerState,
    n: nat,
)
    requires
        aliases(s1, dest, src),
        dest@ != src@,
        st.0.contains_key(src@),
        lower_stmts(
            seq![s1, Stmt::Assign(Target::MatrixIndex(dest, row, col), rhs)],
            st,
            n,
        ) is Ok,
    ensures
        ({
            let syms = lower_stmts(
                seq![s1, Stmt::Assign(Target::MatrixIndex(dest, row, col), rhs)],
                st,
                n,
            )->Ok_0.0;
            &&& syms.contains_key(src@) && syms[src@] == st.0[src@]
            &&& syms.contains_key(dest@) && syms[dest@] is Store && *syms[dest@]->Store_0
                == st.0[src@]
        }),
{
    let s2 = Stmt::Assign(Target::MatrixIndex(dest, row, col), rhs);
    lemma_alias_step(s1, dest, src, st, n);
    let st1: LowerState = (st.0.insert(dest@, st.0[src@]), st.1, st.2);
    lemma_stmts_two(s1, s2, st, n);
    lemma_matrix_write_step(dest, row, col, rhs, st1, n);
    assert(st1.0.contains_key(src@));
}

/// `array_index_secret_load_if(cond, arr, i1, i2)` lowers to a choice
/// between two reads of the same array: where `cond` is true its value is
/// `arr[i1]`, where it is false `arr[i2]`.
pub proof fn lemma_secret_load_if(
    f: String,
    args: Vec<Expr>,
    syms: Map<Seq<char>, Term>,
    ins: Inputs,
    n: nat,
    name: Option<String>,
    env: Map<Seq<char>, Value>,
)
    requires
        f@ == "array_index_secret_load_if"@,
        lower_expr(Expr::Call(Callee::Name(f), args), syms, ins, n, name) is Ok,
    ensures
        ({
            let t = lower_expr(Expr::Call(Callee::Name(f), args), syms, ins, n, name)->Ok_0.0;
            let (c, ins1) = lower_expr(args@[0], syms, ins, n, name)->Ok_0;
            let (a, ins2) = lower_expr(args@[1], syms, ins1, n, name)->Ok_0;
            let (i1, ins3) = lower_expr(args@[2], syms, ins2, n, name)->Ok_0;
            let i2 = lower_expr(args@[3], syms, ins3, n, name)->Ok_0.0;
            let first = Term::Select(Box::new(a), Box::new(i1));
            let second = Term::Select(Box::new(a), Box::new(i2));
            &&& t == Term::Ite(Box::new(c), Box::new(first), Box::new(second))
            &&& eval(c, env) == Some(Value::Bool(true)) ==> eval(t, env) == eval(first, env)
            &&& eval(c, env) == Some(Value::Bool(false)) ==> eval(t, env) == eval(second, env)
        }),
{
    reveal_strlit("array_index_secret_load_if");
    reveal_strlit("c_int");
    reveal_strlit("c_int_array");
    reveal_strlit("c_int_mat");
    reveal_strlit("get_identity_matrix");
    assert(f@.len() == 26);
    assert(f@ != "c_int"@ && f@ != "c_int_array"@ && f@ != "c_int_mat"@ && f@
        != "get_identity_matrix"@) by {
        assert("c_int"@.len() == 5 && "c_int_array"@.len() == 11 && "c_int_mat"@.len() == 9
            && "get_identity_matrix"@.len() == 19);
    }
}

} // verus!
