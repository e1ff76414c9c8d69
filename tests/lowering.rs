use circ::eval::evaluate;
use circ::lower::{lower_module, evaluate_expr, map_nary_op, Callee, Expr, LowerError, Stmt, Target};
use circ::computation::ComputationMetadata;
use circ::table::Table;
use circ::term::{Op, Sort, Term, Value};

fn name(s: &str) -> Expr {
    Expr::Name(s.to_string())
}

fn call(f: &str, args: Vec<Expr>) -> Expr {
    Expr::Call(Callee::Name(f.to_string()), args)
}

fn party_call(f: &str, args: Vec<Expr>) -> Expr {
    Expr::Call(Callee::Attribute(f.to_string()), args)
}

fn assign(x: &str, e: Expr) -> Stmt {
    Stmt::Assign(Target::Name(x.to_string()), e)
}

fn reveal_stmt(x: &str) -> Stmt {
    Stmt::Expr(call("reveal_all", vec![name(x)]))
}

fn bv(m: u64) -> Value {
    Value::BitVector(32, m)
}

fn is_bv(v: Option<Value>, m: u64) -> bool {
    matches!(v, Some(Value::BitVector(32, x)) if x == m)
}

#[test]
fn rebinding_adds() {
    let prog = vec![
        assign("x", call("c_int", vec![Expr::Num(5)])),
        Stmt::AugAssign("x".to_string(), "Add".to_string(), call("c_int", vec![Expr::Num(3)])),
        reveal_stmt("x"),
    ];
    let c = lower_module(&prog, 2).ok().unwrap();
    assert_eq!(c.outputs.len(), 1);
    assert!(is_bv(evaluate(&c.outputs[0]), 8));
}

#[test]
fn outputs_keep_source_order() {
    let prog = vec![
        assign("a", Expr::Num(1)),
        assign("b", Expr::Num(2)),
        reveal_stmt("a"),
        reveal_stmt("b"),
    ];
    let c = lower_module(&prog, 1).ok().unwrap();
    assert_eq!(c.outputs.len(), 2);
    assert!(c.outputs[0].same(&Term::Const(bv(1))));
    assert!(c.outputs[1].same(&Term::Const(bv(2))));
}

#[test]
fn matrix_alias_leaves_source() {
    let prog = vec![
        assign("src", call("c_int_mat", vec![Expr::Num(2), Expr::Num(2)])),
        Stmt::Expr(call("mat_assign", vec![name("dest"), name("src")])),
        Stmt::Assign(
            Target::MatrixIndex("dest".to_string(), Expr::Num(0), Expr::Num(1)),
            Expr::Num(7),
        ),
        reveal_stmt("src"),
        reveal_stmt("dest"),
    ];
    let c = lower_module(&prog, 1).ok().unwrap();
    assert!(matches!(c.outputs[0], Term::Const(_)));
    assert!(matches!(c.outputs[1], Term::Store(_, _, _)));
    assert!(!c.outputs[0].same(&c.outputs[1]));
}

fn select_if(cond: bool) -> Option<Value> {
    let mut syms: Table<Term> = Table::new();
    let arr = Value::Update(
        Box::new(Value::Update(
            Box::new(Value::Array(Box::new(Sort::BitVector(32)), Box::new(bv(0)), 4)),
            1,
            Box::new(bv(11)),
        )),
        2,
        Box::new(bv(22)),
    );
    syms.insert("arr".to_string(), Term::Const(arr));
    syms.insert("c".to_string(), Term::Const(Value::Bool(cond)));
    let mut meta = ComputationMetadata::with_parties(1);
    let e = call(
        "array_index_secret_load_if",
        vec![name("c"), name("arr"), Expr::Num(1), Expr::Num(2)],
    );
    let t = evaluate_expr(&e, &syms, &mut meta, &None).ok().unwrap();
    assert!(matches!(t, Term::Ite(_, _, _)));
    evaluate(&t)
}

#[test]
fn conditional_select_true() {
    assert!(is_bv(select_if(true), 11));
}

#[test]
fn conditional_select_false() {
    assert!(is_bv(select_if(false), 22));
}

#[test]
fn parties_are_named_in_order() {
    let c = lower_module(&vec![], 3).ok().unwrap();
    let names: Vec<&str> = c.metadata.parties.iter().map(|s| s.as_str()).collect();
    assert_eq!(names, vec!["Party 0", "Party 1", "Party 2"]);
}

#[test]
fn secret_input_is_declared() {
    let prog = vec![
        assign("x", party_call("s_int", vec![Expr::Num(1)])),
        assign("v", party_call("s_int_array", vec![Expr::Num(4), Expr::Num(0)])),
        reveal_stmt("x"),
    ];
    let c = lower_module(&prog, 2).ok().unwrap();
    assert_eq!(c.metadata.inputs.get("x"), Some(&Some(1u8)));
    assert_eq!(c.metadata.inputs.get("v"), Some(&Some(0u8)));
    assert!(matches!(&c.outputs[0], Term::Var(n, Sort::BitVector(32)) if n == "x"));
}

#[test]
fn party_out_of_range_is_malformed() {
    let prog = vec![assign("x", party_call("s_int", vec![Expr::Num(2)]))];
    assert!(matches!(lower_module(&prog, 2), Err(LowerError::MalformedInput(_))));
}

#[test]
fn unbound_name_fails() {
    let prog = vec![assign("x", name("y"))];
    assert!(matches!(lower_module(&prog, 1), Err(LowerError::UnboundVariable(n)) if n == "y"));
}

#[test]
fn aug_assign_needs_binding() {
    let prog = vec![Stmt::AugAssign("x".to_string(), "Add".to_string(), Expr::Num(1))];
    assert!(matches!(lower_module(&prog, 1), Err(LowerError::UnboundVariable(n)) if n == "x"));
}

#[test]
fn negative_literal_is_malformed() {
    let prog = vec![assign("x", call("c_int", vec![Expr::Num(-1)]))];
    assert!(matches!(lower_module(&prog, 1), Err(LowerError::MalformedInput(_))));
}

#[test]
fn unknown_call_is_unsupported() {
    let prog = vec![assign("x", call("frobnicate", vec![]))];
    assert!(matches!(lower_module(&prog, 1), Err(LowerError::UnsupportedConstruct)));
}

#[test]
fn mixed_sorts_mismatch() {
    let prog = vec![
        assign("a", call("c_int_array", vec![Expr::Num(3)])),
        assign(
            "x",
            Expr::BinOp(Box::new(name("a")), "Add".to_string(), Box::new(Expr::Num(1))),
        ),
    ];
    assert!(matches!(lower_module(&prog, 1), Err(LowerError::SortMismatch)));
}

#[test]
fn other_statements_are_skipped() {
    let prog = vec![
        Stmt::Other("While".to_string()),
        Stmt::FunctionDef,
        assign("x", Expr::Num(4)),
        reveal_stmt("x"),
    ];
    let c = lower_module(&prog, 1).ok().unwrap();
    assert!(is_bv(evaluate(&c.outputs[0]), 4));
}

#[test]
fn test_call_outputs_boolean_check() {
    let prog = vec![Stmt::Expr(call("test", vec![Expr::Num(3), Expr::Num(3)]))];
    let c = lower_module(&prog, 1).ok().unwrap();
    assert!(matches!(evaluate(&c.outputs[0]), Some(Value::Bool(true))));
}

#[test]
fn array_element_write() {
    let prog = vec![
        assign("a", call("c_int_array", vec![Expr::Num(3)])),
        Stmt::Assign(Target::Index("a".to_string(), Expr::Num(2)), Expr::Num(9)),
        assign("y", Expr::Compare(Box::new(name("x")), "Eq".to_string(), Box::new(Expr::Num(1)))),
    ];
    assert!(matches!(lower_module(&prog, 1), Err(LowerError::UnboundVariable(_))));
    let prog = vec![
        assign("a", call("c_int_array", vec![Expr::Num(3)])),
        Stmt::Assign(Target::Index("a".to_string(), Expr::Num(2)), Expr::Num(9)),
        Stmt::Expr(call("test", vec![name("a"), name("a")])),
    ];
    assert!(lower_module(&prog, 1).is_ok());
}

#[test]
fn identity_matrix_has_ones_on_diagonal() {
    let prog = vec![
        assign("m", call("get_identity_matrix", vec![Expr::Num(3)])),
        reveal_stmt("m"),
    ];
    let c = lower_module(&prog, 1).ok().unwrap();
    let m = match &c.outputs[0] {
        Term::Const(v) => v.copy(),
        _ => panic!("not a constant"),
    };
    for r in 0..3u64 {
        for col in 0..3u64 {
            let x = m.lookup(r).lookup(col);
            assert!(x.same(&bv(if r == col { 1 } else { 0 })));
        }
    }
}

#[test]
fn operator_resolution() {
    assert!(matches!(map_nary_op(Sort::BitVector(32), "Add".to_string()), Op::BvAdd));
    assert!(matches!(map_nary_op(Sort::BitVector(8), "Sub".to_string()), Op::BvSub));
    assert!(matches!(map_nary_op(Sort::BitVector(32), "Mult".to_string()), Op::BvMul));
    assert!(matches!(map_nary_op(Sort::BitVector(32), "Lt".to_string()), Op::BvAnd));
    assert!(matches!(map_nary_op(Sort::Bool, "Add".to_string()), Op::And));
}

fn var_names(t: &Term, out: &mut Vec<String>) {
    match t {
        Term::Var(n, _) => out.push(n.clone()),
        Term::Const(_) => {},
        Term::Nary(_, a, b) | Term::MatrixBin(_, a, b) | Term::Select(a, b) => {
            var_names(a, out);
            var_names(b, out);
        },
        Term::Ite(a, b, c) | Term::Store(a, b, c) => {
            var_names(a, out);
            var_names(b, out);
            var_names(c, out);
        },
        Term::MatrixUn(_, a) | Term::Sigmoid(a) | Term::Field(a, _) => var_names(a, out),
        Term::Update(a, _, b) => {
            var_names(a, out);
            var_names(b, out);
        },
    }
}

#[test]
fn output_variables_have_owners() {
    let prog = vec![
        assign("x", party_call("s_int", vec![Expr::Num(0)])),
        assign("y", party_call("s_int", vec![Expr::Num(1)])),
        assign("m", party_call("s_int_mat", vec![Expr::Num(2), Expr::Num(2), Expr::Num(1)])),
        assign("z", Expr::BinOp(Box::new(name("x")), "Mult".to_string(), Box::new(name("y")))),
        assign("t", call("transpose", vec![name("m")])),
        reveal_stmt("z"),
        reveal_stmt("t"),
        Stmt::Expr(call("test", vec![name("x"), Expr::Num(3)])),
    ];
    let c = lower_module(&prog, 2).ok().unwrap();
    assert_eq!(c.outputs.len(), 3);
    for o in c.outputs.iter() {
        let mut names = Vec::new();
        var_names(o, &mut names);
        assert!(!names.is_empty());
        for n in names {
            match c.metadata.inputs.get(&n) {
                Some(Some(p)) => assert!(*p < 2),
                _ => panic!("undeclared input {}", n),
            }
        }
    }
}

#[test]
fn matrix_intrinsics_are_sort_checked() {
    let prog = vec![
        assign("a", call("c_int_mat", vec![Expr::Num(2), Expr::Num(3)])),
        assign("b", call("c_int_mat", vec![Expr::Num(3), Expr::Num(4)])),
        assign("p", call("matmul", vec![name("a"), name("b")])),
        assign("s", call("mat_const_mul", vec![Expr::Num(2), name("p")])),
        assign("i", call("inverse", vec![call("get_identity_matrix", vec![Expr::Num(2)])])),
        reveal_stmt("s"),
    ];
    let c = lower_module(&prog, 1).ok().unwrap();
    let s = circ::term::check(&c.outputs[0]).unwrap();
    match s {
        Sort::Array(_, row, 2) => assert!(matches!(*row, Sort::Array(_, _, 4))),
        _ => panic!("not a 2 by 4 matrix"),
    }
    let bad = vec![
        assign("a", call("c_int_mat", vec![Expr::Num(2), Expr::Num(3)])),
        assign("p", call("matadd", vec![name("a"), call("c_int_mat", vec![Expr::Num(3), Expr::Num(2)])])),
    ];
    assert!(matches!(lower_module(&bad, 1), Err(LowerError::SortMismatch)));
    let not_square = vec![assign("i", call("inverse", vec![call("c_int_mat", vec![Expr::Num(2), Expr::Num(3)])]))];
    assert!(matches!(lower_module(&not_square, 1), Err(LowerError::SortMismatch)));
}

#[test]
fn compare_resolves_like_binary_operators() {
    let prog = vec![
        assign("y", Expr::Compare(Box::new(Expr::Num(6)), "Lt".to_string(), Box::new(Expr::Num(3)))),
        reveal_stmt("y"),
    ];
    let c = lower_module(&prog, 1).ok().unwrap();
    assert!(matches!(&c.outputs[0], Term::Nary(Op::BvAnd, _, _)));
    assert!(is_bv(evaluate(&c.outputs[0]), 2));
}

#[test]
fn sigmoid_wraps_its_argument() {
    let prog = vec![assign("s", call("sigmoid", vec![Expr::Num(1)])), reveal_stmt("s")];
    let c = lower_module(&prog, 1).ok().unwrap();
    assert!(matches!(&c.outputs[0], Term::Sigmoid(_)));
}

#[test]
fn anonymous_secret_is_unsupported() {
    let prog = vec![assign(
        "x",
        Expr::BinOp(
            Box::new(party_call("s_int", vec![Expr::Num(0)])),
            "Add".to_string(),
            Box::new(Expr::Num(1)),
        ),
    )];
    assert!(matches!(lower_module(&prog, 1), Err(LowerError::UnsupportedConstruct)));
}

#[test]
fn mat_assign_as_expression_is_unsupported() {
    let prog = vec![assign("x", call("mat_assign", vec![name("a"), name("b")]))];
    assert!(matches!(lower_module(&prog, 1), Err(LowerError::UnsupportedConstruct)));
}

#[test]
fn table_last_binding_wins() {
    let mut t: Table<u32> = Table::new();
    t.insert("a".to_string(), 1);
    t.insert("b".to_string(), 2);
    t.insert("a".to_string(), 3);
    assert_eq!(t.get("a"), Some(&3));
    assert_eq!(t.get("b"), Some(&2));
    assert!(!t.contains("c"));
}
