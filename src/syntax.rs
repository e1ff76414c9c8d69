//! Decoding of a program's syntax tree from its JSON form.
//!
//! Nodes are objects whose `_type` member names their kind; the members of
//! each kind are those of Python's `ast` module.

use vstd::prelude::*;
use crate::lower::{Callee, Expr, Fault, LowerError, Member, NodeKind, Stmt, Target};
use crate::table::str_is;

verus! {

/// A JSON value, with numbers kept where they are integers that fit `i64`.
pub enum Json {
    Null,
    Bool(bool),
    /// `None` for a number that is not an integer within `i64`.
    Num(Option<i64>),
    Str(String),
    Array(Vec<Json>),
    Object(Vec<(String, Json)>),
}

/// The value of the first member named `key`.
pub open spec fn member(fields: Seq<(String, Json)>, key: Seq<char>) -> Option<Json>
    decreases fields.len(),
{
    if fields.len() == 0 {
        None
    } else if fields[0].0@ == key {
        Some(fields[0].1)
    } else {
        member(fields.drop_first(), key)
    }
}

/// The member `key` of an object.
pub open spec fn field(j: Json, key: Seq<char>) -> Option<Json> {
    match j {
        Json::Object(fields) => member(fields@, key),
        _ => None,
    }
}

/// The text of a string.
pub open spec fn text(o: Option<Json>) -> Option<Seq<char>> {
    match o {
        Some(Json::Str(s)) => Some(s@),
        _ => None,
    }
}

/// The kind of a node: its `_type` member.
pub open spec fn kind(j: Json) -> Option<Seq<char>> {
    text(field(j, "_type"@))
}

/// The items of an array.
pub open spec fn items(o: Option<Json>) -> Option<Seq<Json>> {
    match o {
        Some(Json::Array(v)) => Some(v@),
        _ => None,
    }
}

/// The first item of an array.
pub open spec fn first(o: Option<Json>) -> Option<Json> {
    match items(o) {
        Some(v) => if v.len() > 0 {
            Some(v[0])
        } else {
            None
        },
        None => None,
    }
}

/// The member `key2` of the member `key1`.
pub open spec fn field2(j: Json, key1: Seq<char>, key2: Seq<char>) -> Option<Json> {
    match field(j, key1) {
        Some(v) => field(v, key2),
        None => None,
    }
}

proof fn lemma_member_index(fields: Seq<(String, Json)>, key: Seq<char>) -> (i: int)
    requires
        member(fields, key) is Some,
    ensures
        0 <= i < fields.len(),
        fields[i].1 == member(fields, key)->Some_0,
    decreases fields.len(),
{
    if fields[0].0@ == key {
        0
    } else {
        let i = lemma_member_index(fields.drop_first(), key);
        i + 1
    }
}

proof fn lemma_field_smaller(j: Json, key: Seq<char>)
    requires
        field(j, key) is Some,
    ensures
        decreases_to!(j => field(j, key)->Some_0),
{
    let fields = j->Object_0;
    let i = lemma_member_index(fields@, key);
    assert(decreases_to!(j => fields));
    assert(decreases_to!(fields => fields@));
    assert(decreases_to!(fields@ => fields@[i]));
    assert(decreases_to!(fields@[i] => fields@[i].1));
}

proof fn lemma_items_smaller(j: Json, key: Seq<char>)
    requires
        items(field(j, key)) is Some,
    ensures
        forall|i: int|
            0 <= i < items(field(j, key))->Some_0.len() ==> decreases_to!(j => #[trigger] items(field(j, key))->Some_0[i]),
{
    lemma_field_smaller(j, key);
    let a = field(j, key)->Some_0;
    let v = a->Array_0;
    assert(decreases_to!(a => v));
    assert(decreases_to!(v => v@));
    assert forall|i: int| 0 <= i < v@.len() implies decreases_to!(j => #[trigger] v@[i]) by {
        assert(decreases_to!(v@ => v@[i]));
    }
}

/// Whether the `func` node of a call decodes.
pub open spec fn callee_ok(func: Json) -> bool {
    match kind(func) {
        None => false,
        Some(k) => if k == "Attribute"@ {
            text(field2(func, "value"@, "id"@)) is Some
        } else if k == "Name"@ {
            text(field(func, "id"@)) is Some
        } else {
            true
        },
    }
}

/// Whether `j` is a node that decodes to an expression.
pub open spec fn expr_ok(j: Json) -> bool
    decreases j
    via expr_ok_decreases
{
    match kind(j) {
        None => false,
        Some(k) => if k == "BinOp"@ {
            field(j, "left"@) is Some && expr_ok(field(j, "left"@)->Some_0) && kind(
                field(j, "op"@)->Some_0,
            ) is Some && field(j, "op"@) is Some && field(j, "right"@) is Some && expr_ok(
                field(j, "right"@)->Some_0,
            )
        } else if k == "Compare"@ {
            field(j, "left"@) is Some && expr_ok(field(j, "left"@)->Some_0) && first(
                field(j, "ops"@),
            ) is Some && kind(first(field(j, "ops"@))->Some_0) is Some && first(
                field(j, "comparators"@),
            ) is Some && expr_ok(first(field(j, "comparators"@))->Some_0)
        } else if k == "Call"@ {
            field(j, "func"@) is Some && callee_ok(field(j, "func"@)->Some_0) && items(
                field(j, "args"@),
            ) is Some && forall|i: int|
                0 <= i < items(field(j, "args"@))->Some_0.len() ==> expr_ok(
                    #[trigger] items(field(j, "args"@))->Some_0[i],
                )
        } else if k == "Name"@ {
            text(field(j, "id"@)) is Some
        } else if k == "Num"@ {
            field(j, "n"@) is Some && field(j, "n"@)->Some_0 is Num && field(j, "n"@)->Some_0->Num_0 is Some
        } else {
            true
        },
    }
}

#[via_fn]
proof fn expr_ok_decreases(j: Json) {
    if field(j, "left"@) is Some {
        lemma_field_smaller(j, "left"@);
    }
    if field(j, "right"@) is Some {
        lemma_field_smaller(j, "right"@);
    }
    if first(field(j, "comparators"@)) is Some {
        lemma_items_smaller(j, "comparators"@);
    }
    if items(field(j, "args"@)) is Some {
        lemma_items_smaller(j, "args"@);
    }
}

/// Whether `c` is what the `func` node of a call denotes.
pub open spec fn callee_encodes(c: Callee, func: Json) -> bool {
    match c {
        Callee::Attribute(f) => kind(func) == Some("Attribute"@) && text(
            field2(func, "value"@, "id"@),
        ) == Some(f@),
        Callee::Name(f) => kind(func) == Some("Name"@) && text(field(func, "id"@)) == Some(f@),
        Callee::Other => kind(func) is Some && kind(func) != Some("Attribute"@) && kind(func)
            != Some("Name"@),
    }
}

/// Whether `e` is what the node `j` denotes.
pub open spec fn encodes(e: Expr, j: Json) -> bool
    decreases e,
{
    match e {
        Expr::BinOp(l, op, r) => kind(j) == Some("BinOp"@) && field(j, "left"@) is Some
            && encodes(*l, field(j, "left"@)->Some_0) && field(j, "op"@) is Some && kind(
            field(j, "op"@)->Some_0,
        ) == Some(op@) && field(j, "right"@) is Some && encodes(*r, field(j, "right"@)->Some_0),
        Expr::Compare(l, op, r) => kind(j) == Some("Compare"@) && field(j, "left"@) is Some
            && encodes(*l, field(j, "left"@)->Some_0) && first(field(j, "ops"@)) is Some && kind(
            first(field(j, "ops"@))->Some_0,
        ) == Some(op@) && first(field(j, "comparators"@)) is Some && encodes(
            *r,
            first(field(j, "comparators"@))->Some_0,
        ),
        Expr::Call(c, args) => kind(j) == Some("Call"@) && field(j, "func"@) is Some
            && callee_encodes(c, field(j, "func"@)->Some_0) && items(field(j, "args"@)) is Some
            && items(field(j, "args"@))->Some_0.len() == args@.len() && forall|i: int|
            0 <= i < args@.len() ==> encodes(
                #[trigger] args@[i],
                items(field(j, "args"@))->Some_0[i],
            ),
        Expr::Name(x) => kind(j) == Some("Name"@) && text(field(j, "id"@)) == Some(x@),
        Expr::Num(n) => kind(j) == Some("Num"@) && field(j, "n"@) == Some(Json::Num(Some(n))),
        Expr::Other => kind(j) is Some && kind(j) != Some("BinOp"@) && kind(j) != Some(
            "Compare"@,
        ) && kind(j) != Some("Call"@) && kind(j) != Some("Name"@) && kind(j) != Some("Num"@),
    }
}

/// The member `key` of an object, with the fact that it is smaller.
fn get<'a>(j: &'a Json, key: &str) -> (r: Option<&'a Json>)
    ensures
        match r {
            Some(v) => field(*j, key@) == Some(*v) && decreases_to!(*j => *v),
            None => field(*j, key@) is None,
        },
{
    match j {
        Json::Object(fields) => {
            let mut i: usize = 0;
            assert(fields@.subrange(0, fields@.len() as int) =~= fields@);
            while i < fields.len()
                invariant
                    *j == Json::Object(*fields),
                    0 <= i <= fields@.len(),
                    member(fields@, key@) == member(fields@.subrange(i as int, fields@.len() as int), key@),
                decreases fields@.len() - i,
            {
                let ghost rest = fields@.subrange(i as int, fields@.len() as int);
                assert(rest.drop_first() =~= fields@.subrange(i + 1, fields@.len() as int));
                if str_is(fields[i].0.as_str(), key) {
                    proof {
                        lemma_field_smaller(*j, key@);
                    }
                    return Some(&fields[i].1);
                }
                i = i + 1;
            }
            assert(fields@.subrange(i as int, fields@.len() as int) =~= Seq::<(String, Json)>::empty());
            None
        },
        _ => None,
    }
}

fn get_text(o: Option<&Json>) -> (r: Option<String>)
    ensures
        match r {
            Some(s) => o is Some && text(Some(*o->Some_0)) == Some(s@),
            None => o is None || text(Some(*o->Some_0)) is None,
        },
{
    match o {
        Some(Json::Str(s)) => Some(s.clone()),
        _ => None,
    }
}

fn get_kind(j: &Json) -> (r: Option<String>)
    ensures
        match r {
            Some(s) => kind(*j) == Some(s@),
            None => kind(*j) is None,
        },
{
    get_text(get(j, "_type"))
}

fn get_items<'a>(j: &'a Json, key: &str) -> (r: Option<&'a Vec<Json>>)
    ensures
        match r {
            Some(v) => items(field(*j, key@)) == Some(v@) && forall|i: int|
                0 <= i < v@.len() ==> decreases_to!(*j => #[trigger] v@[i]),
            None => items(field(*j, key@)) is None,
        },
{
    match get(j, key) {
        Some(Json::Array(v)) => {
            proof {
                lemma_items_smaller(*j, key@);
            }
            Some(v)
        },
        _ => None,
    }
}

fn get_first<'a>(j: &'a Json, key: &str) -> (r: Option<&'a Json>)
    ensures
        match r {
            Some(v) => first(field(*j, key@)) == Some(*v) && decreases_to!(*j => *v),
            None => first(field(*j, key@)) is None,
        },
{
    match get_items(j, key) {
        Some(v) => if v.len() > 0 {
            Some(&v[0])
        } else {
            None
        },
        None => None,
    }
}

fn decode_callee(func: &Json) -> (r: Option<Callee>)
    ensures
        match r {
            Some(c) => callee_encodes(c, *func) && callee_ok(*func),
            None => !callee_ok(*func),
        },
{
    let k = get_kind(func)?;
    if str_is(k.as_str(), "Attribute") {
        match get(func, "value") {
            Some(v) => match get_text(get(v, "id")) {
                Some(f) => Some(Callee::Attribute(f)),
                None => None,
            },
            None => None,
        }
    } else if str_is(k.as_str(), "Name") {
        match get_text(get(func, "id")) {
            Some(f) => Some(Callee::Name(f)),
            None => None,
        }
    } else {
        Some(Callee::Other)
    }
}

/// A fault at member `member` of a node of kind `kind`.
pub open spec fn at(kind: NodeKind, member: Member) -> Fault {
    Fault { kind, member }
}

/// Where a node that does not decode to an expression fails: the node's
/// first member, in the order decoding reads them, that is missing or does
/// not decode.
pub open spec fn expr_fault(j: Json) -> Fault {
    match kind(j) {
        None => at(NodeKind::Unknown, Member::Type),
        Some(k) => if k == "BinOp"@ || k == "Compare"@ {
            let binop = k == "BinOp"@;
            let nk = if binop {
                NodeKind::BinOp
            } else {
                NodeKind::Compare
            };
            let o = if binop {
                field(j, "op"@)
            } else {
                first(field(j, "ops"@))
            };
            if field(j, "left"@) is None || !expr_ok(field(j, "left"@)->Some_0) {
                at(nk, Member::Left)
            } else if o is None || kind(o->Some_0) is None {
                at(
                    nk,
                    if binop {
                        Member::Op
                    } else {
                        Member::Ops
                    },
                )
            } else {
                at(
                    nk,
                    if binop {
                        Member::Right
                    } else {
                        Member::Comparators
                    },
                )
            }
        } else if k == "Call"@ {
            if field(j, "func"@) is None || !callee_ok(field(j, "func"@)->Some_0) {
                at(NodeKind::Call, Member::Func)
            } else {
                at(NodeKind::Call, Member::Args)
            }
        } else if k == "Name"@ {
            at(NodeKind::Name, Member::Id)
        } else {
            at(NodeKind::Num, Member::N)
        },
    }
}

fn malformed<T>(kind: NodeKind, member: Member) -> (r: Result<T, LowerError>)
    ensures
        r == Err::<T, LowerError>(LowerError::MalformedInput(at(kind, member))),
{
    Err(LowerError::MalformedInput(Fault { kind, member }))
}

/// Decodes an expression node.
pub fn decode_expr(j: &Json) -> (r: Result<Expr, LowerError>)
    ensures
        r is Ok <==> expr_ok(*j),
        match r {
            Ok(e) => encodes(e, *j),
            Err(err) => err == LowerError::MalformedInput(expr_fault(*j)),
        },
    decreases j,
{
    let k = match get_kind(j) {
        Some(k) => k,
        None => {
            return malformed(NodeKind::Unknown, Member::Type);
        },
    };
    let k = k.as_str();
    if str_is(k, "BinOp") || str_is(k, "Compare") {
        let binop = str_is(k, "BinOp");
        let nk = if binop { NodeKind::BinOp } else { NodeKind::Compare };
        let om = if binop { Member::Op } else { Member::Ops };
        let rm = if binop { Member::Right } else { Member::Comparators };
        let l = match get(j, "left") {
            Some(l_node) => match decode_expr(l_node) {
                Ok(l) => l,
                Err(_) => {
                    return malformed(nk, Member::Left);
                },
            },
            None => {
                return malformed(nk, Member::Left);
            },
        };
        let op_node = if binop { get(j, "op") } else { get_first(j, "ops") };
        let op = match op_node {
            Some(o) => match get_kind(o) {
                Some(op) => op,
                None => {
                    return malformed(nk, om);
                },
            },
            None => {
                return malformed(nk, om);
            },
        };
        let r_node = if binop { get(j, "right") } else { get_first(j, "comparators") };
        let r = match r_node {
            Some(r_node) => match decode_expr(r_node) {
                Ok(r) => r,
                Err(_) => {
                    return malformed(nk, rm);
                },
            },
            None => {
                return malformed(nk, rm);
            },
        };
        if binop {
            Ok(Expr::BinOp(Box::new(l), op, Box::new(r)))
        } else {
            Ok(Expr::Compare(Box::new(l), op, Box::new(r)))
        }
    } else if str_is(k, "Call") {
        let callee = match get(j, "func") {
            Some(f) => match decode_callee(f) {
                Some(c) => c,
                None => {
                    return malformed(NodeKind::Call, Member::Func);
                },
            },
            None => {
                return malformed(NodeKind::Call, Member::Func);
            },
        };
        let v = match get_items(j, "args") {
            Some(v) => v,
            None => {
                return malformed(NodeKind::Call, Member::Args);
            },
        };
        let mut args: Vec<Expr> = Vec::new();
        let mut i: usize = 0;
        while i < v.len()
            invariant
                0 <= i <= v@.len(),
                kind(*j) == Some(k@),
                k@ == "Call"@,
                k@ != "BinOp"@,
                k@ != "Compare"@,
                field(*j, "func"@) is Some,
                callee_ok(field(*j, "func"@)->Some_0),
                callee_encodes(callee, field(*j, "func"@)->Some_0),
                items(field(*j, "args"@)) == Some(v@),
                forall|m: int| 0 <= m < v@.len() ==> decreases_to!(*j => #[trigger] v@[m]),
                args@.len() == i,
                forall|m: int| 0 <= m < i ==> encodes(#[trigger] args@[m], v@[m]),
                forall|m: int| 0 <= m < i ==> expr_ok(#[trigger] v@[m]),
            decreases v@.len() - i,
        {
            let a = match decode_expr(&v[i]) {
                Ok(a) => a,
                Err(_) => {
                    assert(!expr_ok(items(field(*j, "args"@))->Some_0[i as int]));
                    return malformed(NodeKind::Call, Member::Args);
                },
            };
            args.push(a);
            i = i + 1;
        }
        Ok(Expr::Call(callee, args))
    } else if str_is(k, "Name") {
        match get_text(get(j, "id")) {
            Some(x) => Ok(Expr::Name(x)),
            None => malformed(NodeKind::Name, Member::Id),
        }
    } else if str_is(k, "Num") {
        match get(j, "n") {
            Some(Json::Num(Some(n))) => Ok(Expr::Num(*n)),
            _ => malformed(NodeKind::Num, Member::N),
        }
    } else {
        Ok(Expr::Other)
    }
}

/// Whether `j` is a node that decodes to an assignment target.
pub open spec fn target_ok(j: Json) -> bool {
    match kind(j) {
        None => false,
        Some(k) => if k == "Name"@ {
            text(field(j, "id"@)) is Some
        } else if k == "Subscript"@ {
            field(j, "value"@) is Some && kind(field(j, "value"@)->Some_0) is Some && field2(
                j,
                "slice"@,
                "value"@,
            ) is Some && expr_ok(field2(j, "slice"@, "value"@)->Some_0) && if kind(
                field(j, "value"@)->Some_0,
            ) == Some("Name"@) {
                text(field2(j, "value"@, "id"@)) is Some
            } else {
                text(field2(field(j, "value"@)->Some_0, "value"@, "id"@)) is Some && field2(
                    field(j, "value"@)->Some_0,
                    "slice"@,
                    "value"@,
                ) is Some && expr_ok(field2(field(j, "value"@)->Some_0, "slice"@, "value"@)->Some_0)
            }
        } else {
            false
        },
    }
}

/// Whether `t` is what the node `j` denotes: a name, `a[i]`, or `m[row][col]`.
pub open spec fn encodes_target(t: Target, j: Json) -> bool {
    match t {
        Target::Name(x) => kind(j) == Some("Name"@) && text(field(j, "id"@)) == Some(x@),
        Target::Index(x, idx) => kind(j) == Some("Subscript"@) && field(j, "value"@) is Some
            && kind(field(j, "value"@)->Some_0) == Some("Name"@) && text(field2(j, "value"@, "id"@))
            == Some(x@) && field2(j, "slice"@, "value"@) is Some && encodes(
            idx,
            field2(j, "slice"@, "value"@)->Some_0,
        ),
        Target::MatrixIndex(x, row, col) => kind(j) == Some("Subscript"@) && field(j, "value"@)
            is Some && kind(field(j, "value"@)->Some_0) is Some && kind(field(j, "value"@)->Some_0)
            != Some("Name"@) && text(field2(field(j, "value"@)->Some_0, "value"@, "id"@)) == Some(
            x@,
        ) && field2(field(j, "value"@)->Some_0, "slice"@, "value"@) is Some && encodes(
            row,
            field2(field(j, "value"@)->Some_0, "slice"@, "value"@)->Some_0,
        ) && field2(j, "slice"@, "value"@) is Some && encodes(
            col,
            field2(j, "slice"@, "value"@)->Some_0,
        ),
    }
}

/// Whether `j` is a node that decodes to a statement.
pub open spec fn stmt_ok(j: Json) -> bool {
    match kind(j) {
        None => false,
        Some(k) => if k == "Assign"@ {
            first(field(j, "targets"@)) is Some && target_ok(first(field(j, "targets"@))->Some_0)
                && field(j, "value"@) is Some && expr_ok(field(j, "value"@)->Some_0)
        } else if k == "AugAssign"@ {
            text(field2(j, "target"@, "id"@)) is Some && field(j, "op"@) is Some && kind(
                field(j, "op"@)->Some_0,
            ) is Some && field(j, "value"@) is Some && expr_ok(field(j, "value"@)->Some_0)
        } else if k == "Expr"@ {
            field(j, "value"@) is Some && expr_ok(field(j, "value"@)->Some_0)
        } else {
            true
        },
    }
}

/// Whether `s` is what the node `j` denotes.
pub open spec fn encodes_stmt(s: Stmt, j: Json) -> bool {
    match s {
        Stmt::Assign(t, e) => kind(j) == Some("Assign"@) && first(field(j, "targets"@)) is Some
            && encodes_target(t, first(field(j, "targets"@))->Some_0) && field(j, "value"@) is Some
            && encodes(e, field(j, "value"@)->Some_0),
        Stmt::AugAssign(x, op, e) => kind(j) == Some("AugAssign"@) && text(
            field2(j, "target"@, "id"@),
        ) == Some(x@) && field(j, "op"@) is Some && kind(field(j, "op"@)->Some_0) == Some(op@)
            && field(j, "value"@) is Some && encodes(e, field(j, "value"@)->Some_0),
        Stmt::Expr(e) => kind(j) == Some("Expr"@) && field(j, "value"@) is Some && encodes(
            e,
            field(j, "value"@)->Some_0,
        ),
        Stmt::FunctionDef => kind(j) == Some("FunctionDef"@),
        Stmt::Other(k) => kind(j) == Some(k@) && k@ != "Assign"@ && k@ != "AugAssign"@ && k@
            != "Expr"@ && k@ != "FunctionDef"@,
    }
}

fn get2<'a>(j: &'a Json, key1: &str, key2: &str) -> (r: Option<&'a Json>)
    ensures
        match r {
            Some(v) => field2(*j, key1@, key2@) == Some(*v) && decreases_to!(*j => *v),
            None => field2(*j, key1@, key2@) is None,
        },
{
    match get(j, key1) {
        Some(v) => get(v, key2),
        None => None,
    }
}

/// Where a node that does not decode to a target fails.
pub open spec fn target_fault(j: Json) -> Fault {
    match kind(j) {
        None => at(NodeKind::Unknown, Member::Type),
        Some(k) => if k == "Name"@ {
            at(NodeKind::Name, Member::Id)
        } else if k == "Subscript"@ {
            if field(j, "value"@) is None || kind(field(j, "value"@)->Some_0) is None {
                at(NodeKind::Subscript, Member::Value)
            } else if field2(j, "slice"@, "value"@) is None || !expr_ok(
                field2(j, "slice"@, "value"@)->Some_0,
            ) {
                at(NodeKind::Subscript, Member::Slice)
            } else {
                at(NodeKind::Subscript, Member::Value)
            }
        } else {
            at(NodeKind::Assign, Member::Targets)
        },
    }
}

/// Decodes the left side of an assignment.
pub fn decode_target(j: &Json) -> (r: Result<Target, LowerError>)
    ensures
        r is Ok <==> target_ok(*j),
        match r {
            Ok(t) => encodes_target(t, *j),
            Err(err) => err == LowerError::MalformedInput(target_fault(*j)),
        },
{
    let k = match get_kind(j) {
        Some(k) => k,
        None => {
            return malformed(NodeKind::Unknown, Member::Type);
        },
    };
    if str_is(k.as_str(), "Name") {
        match get_text(get(j, "id")) {
            Some(x) => Ok(Target::Name(x)),
            None => malformed(NodeKind::Name, Member::Id),
        }
    } else if str_is(k.as_str(), "Subscript") {
        let inner = match get(j, "value") {
            Some(v) => v,
            None => {
                return malformed(NodeKind::Subscript, Member::Value);
            },
        };
        let inner_kind = match get_kind(inner) {
            Some(ik) => ik,
            None => {
                return malformed(NodeKind::Subscript, Member::Value);
            },
        };
        let col = match get2(j, "slice", "value") {
            Some(c) => match decode_expr(c) {
                Ok(c) => c,
                Err(_) => {
                    return malformed(NodeKind::Subscript, Member::Slice);
                },
            },
            None => {
                return malformed(NodeKind::Subscript, Member::Slice);
            },
        };
        if str_is(inner_kind.as_str(), "Name") {
            match get_text(get(inner, "id")) {
                Some(x) => Ok(Target::Index(x, col)),
                None => malformed(NodeKind::Subscript, Member::Value),
            }
        } else {
            let x = match get_text(get2(inner, "value", "id")) {
                Some(x) => x,
                None => {
                    return malformed(NodeKind::Subscript, Member::Value);
                },
            };
            match get2(inner, "slice", "value") {
                Some(rn) => match decode_expr(rn) {
                    Ok(row) => Ok(Target::MatrixIndex(x, row, col)),
                    Err(_) => malformed(NodeKind::Subscript, Member::Value),
                },
                None => malformed(NodeKind::Subscript, Member::Value),
            }
        }
    } else {
        malformed(NodeKind::Assign, Member::Targets)
    }
}

/// Where a node that does not decode to a statement fails.
pub open spec fn stmt_fault(j: Json) -> Fault {
    match kind(j) {
        None => at(NodeKind::Unknown, Member::Type),
        Some(k) => if k == "Assign"@ {
            if first(field(j, "targets"@)) is None || !target_ok(
                first(field(j, "targets"@))->Some_0,
            ) {
                at(NodeKind::Assign, Member::Targets)
            } else {
                at(NodeKind::Assign, Member::Value)
            }
        } else if k == "AugAssign"@ {
            if text(field2(j, "target"@, "id"@)) is None {
                at(NodeKind::AugAssign, Member::Target)
            } else if field(j, "op"@) is None || kind(field(j, "op"@)->Some_0) is None {
                at(NodeKind::AugAssign, Member::Op)
            } else {
                at(NodeKind::AugAssign, Member::Value)
            }
        } else {
            at(NodeKind::Expr, Member::Value)
        },
    }
}

/// Decodes a statement; a statement of another kind keeps the kind's name.
pub fn decode_stmt(j: &Json) -> (r: Result<Stmt, LowerError>)
    ensures
        r is Ok <==> stmt_ok(*j),
        match r {
            Ok(s) => encodes_stmt(s, *j),
            Err(err) => err == LowerError::MalformedInput(stmt_fault(*j)),
        },
{
    let k = match get_kind(j) {
        Some(k) => k,
        None => {
            return malformed(NodeKind::Unknown, Member::Type);
        },
    };
    if str_is(k.as_str(), "Assign") {
        let t = match get_first(j, "targets") {
            Some(t) => match decode_target(t) {
                Ok(t) => t,
                Err(_) => {
                    return malformed(NodeKind::Assign, Member::Targets);
                },
            },
            None => {
                return malformed(NodeKind::Assign, Member::Targets);
            },
        };
        match get(j, "value") {
            Some(v) => match decode_expr(v) {
                Ok(e) => Ok(Stmt::Assign(t, e)),
                Err(_) => malformed(NodeKind::Assign, Member::Value),
            },
            None => malformed(NodeKind::Assign, Member::Value),
        }
    } else if str_is(k.as_str(), "AugAssign") {
        let x = match get_text(get2(j, "target", "id")) {
            Some(x) => x,
            None => {
                return malformed(NodeKind::AugAssign, Member::Target);
            },
        };
        let op = match get(j, "op") {
            Some(o) => match get_kind(o) {
                Some(op) => op,
                None => {
                    return malformed(NodeKind::AugAssign, Member::Op);
                },
            },
            None => {
                return malformed(NodeKind::AugAssign, Member::Op);
            },
        };
        match get(j, "value") {
            Some(v) => match decode_expr(v) {
                Ok(e) => Ok(Stmt::AugAssign(x, op, e)),
                Err(_) => malformed(NodeKind::AugAssign, Member::Value),
            },
            None => malformed(NodeKind::AugAssign, Member::Value),
        }
    } else if str_is(k.as_str(), "Expr") {
        match get(j, "value") {
            Some(v) => match decode_expr(v) {
                Ok(e) => Ok(Stmt::Expr(e)),
                Err(_) => malformed(NodeKind::Expr, Member::Value),
            },
            None => malformed(NodeKind::Expr, Member::Value),
        }
    } else if str_is(k.as_str(), "FunctionDef") {
        Ok(Stmt::FunctionDef)
    } else {
        Ok(Stmt::Other(k))
    }
}

/// Whether `j` is a module node whose statements all decode.
pub open spec fn module_ok(j: Json) -> bool {
    items(field(j, "body"@)) is Some && forall|i: int|
        0 <= i < items(field(j, "body"@))->Some_0.len() ==> stmt_ok(
            #[trigger] items(field(j, "body"@))->Some_0[i],
        )
}

/// Where a module node fails to decode: its body, or the first statement of
/// the body that does not decode.
pub open spec fn module_fault(j: Json) -> Fault {
    match items(field(j, "body"@)) {
        None => at(NodeKind::Module, Member::Body),
        Some(v) => {
            let i = choose|i: int|
                0 <= i < v.len() && !#[trigger] stmt_ok(v[i]) && forall|m: int|
                    0 <= m < i ==> #[trigger] stmt_ok(v[m]);
            stmt_fault(v[i])
        },
    }
}

/// Decodes a module: the statements of its body, in order.
pub fn decode_module(j: &Json) -> (r: Result<Vec<Stmt>, LowerError>)
    ensures
        r is Ok <==> module_ok(*j),
        match r {
            Ok(v) => v@.len() == items(field(*j, "body"@))->Some_0.len() && forall|i: int|
                0 <= i < v@.len() ==> encodes_stmt(
                    #[trigger] v@[i],
                    items(field(*j, "body"@))->Some_0[i],
                ),
            Err(err) => err == LowerError::MalformedInput(module_fault(*j)),
        },
{
    let body = match get_items(j, "body") {
        Some(b) => b,
        None => {
            return malformed(NodeKind::Module, Member::Body);
        },
    };
    let mut stmts: Vec<Stmt> = Vec::new();
    let mut i: usize = 0;
    while i < body.len()
        invariant
            0 <= i <= body@.len(),
            items(field(*j, "body"@)) == Some(body@),
            stmts@.len() == i,
            forall|m: int| 0 <= m < i ==> encodes_stmt(#[trigger] stmts@[m], body@[m]),
            forall|m: int| 0 <= m < i ==> stmt_ok(#[trigger] body@[m]),
        decreases body@.len() - i,
    {
        match decode_stmt(&body[i]) {
            Ok(s) => stmts.push(s),
            Err(e) => {
                proof {
                    let vs = body@;
                    assert(!stmt_ok(vs[i as int]));
                    let c = choose|c: int|
                        0 <= c < vs.len() && !#[trigger] stmt_ok(vs[c]) && forall|m: int|
                            0 <= m < c ==> #[trigger] stmt_ok(vs[m]);
                    assert(0 <= c < vs.len() && !stmt_ok(vs[c]) && forall|m: int|
                        0 <= m < c ==> #[trigger] stmt_ok(vs[m]));
                    if c < i {
                        assert(stmt_ok(vs[c]));
                    } else if c > i {
                        assert(stmt_ok(vs[i as int]));
                    }
                    assert(c == i);
                }
                return Err(e);
            },
        }
        i = i + 1;
    }
    Ok(stmts)
}

} // verus!
