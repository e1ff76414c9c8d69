use circ::eval::evaluate;
use circ::lower::{convert, Callee, Expr, LowerError, Member, NodeKind, Stmt, Target};
use circ::syntax::{decode_expr, decode_module, decode_stmt, decode_target, Json};
use circ::term::Value;

fn s(x: &str) -> Json {
    Json::Str(x.to_string())
}

fn obj(members: Vec<(&str, Json)>) -> Json {
    Json::Object(members.into_iter().map(|(k, v)| (k.to_string(), v)).collect())
}

fn node(kind: &str, mut members: Vec<(&str, Json)>) -> Json {
    members.insert(0, ("_type", s(kind)));
    obj(members)
}

fn num(n: i64) -> Json {
    node("Num", vec![("n", Json::Num(Some(n)))])
}

fn name(x: &str) -> Json {
    node("Name", vec![("id", s(x))])
}

fn call(f: &str, args: Vec<Json>) -> Json {
    node("Call", vec![("func", name(f)), ("args", Json::Array(args))])
}

fn assign(x: &str, value: Json) -> Json {
    node("Assign", vec![("targets", Json::Array(vec![name(x)])), ("value", value)])
}

fn module(body: Vec<Json>) -> Json {
    node("Module", vec![("body", Json::Array(body))])
}

#[test]
fn json_program_rebinding() {
    let prog = module(vec![
        assign("x", call("c_int", vec![num(5)])),
        node(
            "AugAssign",
            vec![
                ("target", name("x")),
                ("op", node("Add", vec![])),
                ("value", call("c_int", vec![num(3)])),
            ],
        ),
        node("Expr", vec![("value", call("reveal_all", vec![name("x")]))]),
    ]);
    let c = convert(&prog, 2).ok().unwrap();
    assert!(matches!(evaluate(&c.outputs[0]), Some(Value::BitVector(32, 8))));
}

#[test]
fn json_party_call() {
    let func = node("Attribute", vec![("value", name("s_int")), ("attr", s("party"))]);
    let e = node("Call", vec![("func", func), ("args", Json::Array(vec![num(1)]))]);
    match decode_expr(&e) {
        Ok(Expr::Call(Callee::Attribute(f), args)) => {
            assert_eq!(f, "s_int");
            assert!(matches!(args[0], Expr::Num(1)));
        },
        _ => panic!("not a party call"),
    }
}

#[test]
fn json_compare_and_binop() {
    let cmp = node(
        "Compare",
        vec![
            ("left", num(1)),
            ("ops", Json::Array(vec![node("Lt", vec![])])),
            ("comparators", Json::Array(vec![num(2)])),
        ],
    );
    assert!(matches!(decode_expr(&cmp), Ok(Expr::Compare(_, op, _)) if op == "Lt"));
    let bin = node("BinOp", vec![("left", num(1)), ("op", node("Mult", vec![])), ("right", name("y"))]);
    assert!(matches!(decode_expr(&bin), Ok(Expr::BinOp(_, op, _)) if op == "Mult"));
}

#[test]
fn json_subscript_targets() {
    let index = |v: Json| node("Index", vec![("value", v)]);
    let a1 = node("Subscript", vec![("value", name("a")), ("slice", index(num(2)))]);
    assert!(matches!(decode_target(&a1), Ok(Target::Index(x, Expr::Num(2))) if x == "a"));
    let row = node("Subscript", vec![("value", name("m")), ("slice", index(num(1)))]);
    let a2 = node("Subscript", vec![("value", row), ("slice", index(num(3)))]);
    assert!(matches!(
        decode_target(&a2),
        Ok(Target::MatrixIndex(x, Expr::Num(1), Expr::Num(3))) if x == "m"
    ));
}

#[test]
fn json_other_statement_keeps_kind() {
    assert!(matches!(decode_stmt(&node("While", vec![])), Ok(Stmt::Other(k)) if k == "While"));
    assert!(matches!(decode_stmt(&node("FunctionDef", vec![])), Ok(Stmt::FunctionDef)));
    assert!(matches!(decode_expr(&node("Lambda", vec![])), Ok(Expr::Other)));
}

#[test]
fn json_missing_member_is_malformed() {
    let bad = node("BinOp", vec![("left", num(1)), ("op", node("Add", vec![]))]);
    assert!(matches!(decode_expr(&bad), Err(LowerError::MalformedInput(_))));
    assert!(matches!(decode_expr(&obj(vec![])), Err(LowerError::MalformedInput(_))));
    let no_body = node("Module", vec![]);
    assert!(matches!(convert(&no_body, 1), Err(LowerError::MalformedInput(_))));
    let bad_arg = module(vec![assign("x", call("c_int", vec![node("Num", vec![])]))]);
    assert!(matches!(decode_module(&bad_arg), Err(LowerError::MalformedInput(_))));
}

#[test]
fn json_float_literal_is_malformed() {
    let e = node("Num", vec![("n", Json::Num(None))]);
    assert!(matches!(decode_expr(&e), Err(LowerError::MalformedInput(_))));
}

#[test]
fn json_fault_names_node_and_member() {
    let bad = node("BinOp", vec![("left", num(1)), ("op", node("Add", vec![]))]);
    assert!(matches!(
        decode_expr(&bad),
        Err(LowerError::MalformedInput(f)) if matches!(f.kind, NodeKind::BinOp) && matches!(f.member, Member::Right)
    ));
    let no_targets = node("Assign", vec![("value", num(1))]);
    assert!(matches!(
        decode_stmt(&no_targets),
        Err(LowerError::MalformedInput(f)) if matches!(f.kind, NodeKind::Assign) && matches!(f.member, Member::Targets)
    ));
    let no_body = node("Module", vec![]);
    assert!(matches!(
        convert(&no_body, 1),
        Err(LowerError::MalformedInput(f)) if matches!(f.kind, NodeKind::Module) && matches!(f.member, Member::Body)
    ));
    let second_bad = module(vec![
        assign("x", num(1)),
        node("AugAssign", vec![("target", name("x")), ("value", num(2))]),
    ]);
    assert!(matches!(
        decode_module(&second_bad),
        Err(LowerError::MalformedInput(f)) if matches!(f.kind, NodeKind::AugAssign) && matches!(f.member, Member::Op)
    ));
    let anon = node("Num", vec![]);
    assert!(matches!(
        decode_expr(&anon),
        Err(LowerError::MalformedInput(f)) if matches!(f.kind, NodeKind::Num) && matches!(f.member, Member::N)
    ));
}
