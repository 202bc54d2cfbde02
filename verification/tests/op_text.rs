//! Operations as text.

use pliron_tensor::forward::parse_body;
use pliron_tensor::ir::{Context, IntegerType, Signedness, TypeHandle, TypeObj, Value};
use pliron_tensor::memref::attributes::ParseErr;
use pliron_tensor::memref::ops::{LoadOp, StoreOp, SubviewOp};
use pliron_tensor::memref::slices::SliceParam;
use pliron_tensor::memref::slices::SliceParam::{Dynamic, Static};
use pliron_tensor::memref::type_interfaces::Dimension;
use pliron_tensor::memref::types::RankedMemrefType;
use pliron_tensor::op_text::{find_value, parse_known_body, print_op, NamedValue, TextOp};
use pliron_tensor::tensor::ops::{ExtractOp, ExtractSliceOp, InsertSliceOp, ReshapeOp};
use pliron_tensor::tensor::types::RankedTensorType;

struct Names {
    ctx: Context,
    elem: TypeHandle,
    memref: Value,
    source: Value,
    destination: Value,
    value: Value,
    i: Value,
    j: Value,
    table: Vec<NamedValue>,
}

fn names() -> Names {
    let mut ctx = Context::new();
    let elem = ctx.intern(TypeObj::Integer(IntegerType {
        width: 64,
        signedness: Signedness::Signless,
    }));
    let index = ctx.intern(TypeObj::Index);
    let shape = vec![Dimension::Static(4), Dimension::Dynamic];
    let memref_ty = RankedMemrefType::get(&mut ctx, elem, shape.clone());
    let tensor_ty = RankedTensorType::get(&mut ctx, elem, shape);
    let types = [memref_ty, tensor_ty, tensor_ty, elem, index, index];
    let values: Vec<Value> = types
        .iter()
        .enumerate()
        .map(|(id, ty)| Value { id, ty: *ty })
        .collect();
    let table = ["m", "src_1", "_dst", "v0", "i", "j12"]
        .iter()
        .zip(&values)
        .map(|(name, value)| NamedValue {
            name: name.chars().collect(),
            value: *value,
        })
        .collect();
    Names {
        ctx,
        elem,
        memref: values[0],
        source: values[1],
        destination: values[2],
        value: values[3],
        i: values[4],
        j: values[5],
        table,
    }
}

fn chars(text: &str) -> Vec<char> {
    text.chars().collect()
}

/// Writes an operation out, reads it and writes it out again.
fn assert_round_trips<T: TextOp>(op: &T, table: &Vec<NamedValue>, result: TypeHandle, text: &str) {
    let printed = print_op(op, table);
    assert_eq!(printed.iter().collect::<String>(), text);
    let (body, end) = parse_known_body(table, T::syntax(), &printed, 0).unwrap();
    assert_eq!(end, printed.len());
    let again = T::from_body(&body, result);
    assert_eq!(print_op(&again, table), printed);
}

/// Every memref operation must print in a form that parses back.
#[test]
fn test_memref_ops_round_trip() {
    let n = names();
    let store = StoreOp::new(n.value, n.memref, vec![n.i, n.j]);
    assert_eq!(store.verify(&n.ctx), Ok(()));
    assert_round_trips(&store, &n.table, n.elem, "v0 to m[i, j12]");

    let load = LoadOp::new(n.elem, n.memref, vec![n.j, n.i]);
    assert_eq!(load.verify(&n.ctx), Ok(()));
    assert_round_trips(&load, &n.table, n.elem, "m[j12, i] : ");

    let mut ctx = n.ctx;
    let subview = SubviewOp::new(
        &mut ctx,
        n.memref,
        vec![Static(0), Dynamic(n.i)],
        vec![Dynamic(n.j), Static(2)],
        vec![Static(1), Static(30)],
    );
    assert_eq!(subview.verify(&ctx), Ok(()));
    let ty = subview.op.result_types[0];
    assert_round_trips(&subview, &n.table, ty, "m [0, i] [j12, 2] [1, 30] : ");
}

/// Every tensor operation must print in a form that parses back.
#[test]
fn test_tensor_ops_round_trip() {
    let n = names();
    let mut ctx = n.ctx;
    let extract = ExtractOp::new(n.elem, n.source, vec![n.i, n.j]);
    assert_eq!(extract.verify(&ctx), Ok(()));
    assert_round_trips(&extract, &n.table, n.elem, "src_1[i, j12] : ");

    let slice = ExtractSliceOp::new(
        &mut ctx,
        n.source,
        vec![Static(1), Static(0)],
        vec![Static(2), Dynamic(n.i)],
        vec![Dynamic(n.j), Static(1)],
    );
    assert_eq!(slice.verify(&ctx), Ok(()));
    let ty = slice.op.result_types[0];
    assert_round_trips(&slice, &n.table, ty, "src_1 [1, 0] [2, i] [j12, 1] : ");

    let insert = InsertSliceOp::new(
        n.source,
        n.destination,
        vec![Static(0), Static(0)],
        vec![Static(4), Dynamic(n.j)],
        vec![Static(1), Static(1)],
    );
    assert_eq!(insert.verify(&ctx), Ok(()));
    let ty = insert.op.result_types[0];
    assert_round_trips(
        &insert,
        &n.table,
        ty,
        "src_1 into _dst [0, 0] [4, j12] [1, 1] : ",
    );

    let ty = RankedTensorType::get(
        &mut ctx,
        n.elem,
        vec![Dimension::Dynamic, Dimension::Static(2)],
    );
    let reshape = ReshapeOp::new(n.source, vec![n.i], ty);
    assert_eq!(reshape.verify(&ctx), Ok(()));
    assert_round_trips(&reshape, &n.table, ty, "src_1(i) : ");
}

#[test]
fn operations_are_read_with_and_without_spaces() {
    let n = names();
    for text in ["v0 to m[i,j12]", "v0  to  m [ i , j12 ]", "v0 to m[i, j12]"] {
        let (body, end) = parse_known_body(&n.table, StoreOp::syntax(), &chars(text), 0).unwrap();
        assert_eq!(end, text.len(), "{text}");
        assert_eq!(body.operands, [n.value, n.memref], "{text}");
        assert_eq!(body.lists, [vec![Dynamic(n.i), Dynamic(n.j)]], "{text}");
    }
    let (body, end) = parse_known_body(&n.table, LoadOp::syntax(), &chars("m[] : x"), 0).unwrap();
    assert_eq!(end, 6);
    assert_eq!(body.operands, [n.memref]);
    assert_eq!(body.lists, [Vec::<SliceParam>::new()]);
}

#[test]
fn wrong_operations_are_not_read() {
    let n = names();
    let error = |syntax, text: &str| parse_known_body(&n.table, syntax, &chars(text), 0).err();
    assert!(matches!(
        error(LoadOp::syntax(), "w[i] : "),
        Some(ParseErr::UnknownValue { at: 0 })
    ));
    assert!(matches!(
        error(LoadOp::syntax(), "m i : "),
        Some(ParseErr::Unexpected { .. })
    ));
    assert!(matches!(
        error(LoadOp::syntax(), "m[i]"),
        Some(ParseErr::Unexpected { .. })
    ));
    assert!(matches!(
        error(LoadOp::syntax(), "m[7] : "),
        Some(ParseErr::Unexpected { .. })
    ));
    assert!(matches!(
        error(StoreOp::syntax(), "v0 into m[i]"),
        Some(ParseErr::Unexpected { .. })
    ));
    assert!(matches!(
        error(
            SubviewOp::syntax(),
            "m [99999999999999999999999999999999] [1] [1] : "
        ),
        Some(ParseErr::InvalidNumber { .. })
    ));
}

#[test]
fn a_value_is_found_by_its_name() {
    let n = names();
    for named in &n.table {
        assert_eq!(find_value(&n.table, &named.name), Some(named.value));
    }
    assert_eq!(find_value(&n.table, &chars("j1")), None);
    assert_eq!(find_value(&n.table, &[]), None);
}

#[test]
fn names_of_values_that_are_still_to_come() {
    let mut n = names();
    let known = n.table.len();
    let placeholder = n.ctx.intern(TypeObj::Void);
    let text = chars("later to m[i, soon, later]");
    let (body, end) =
        parse_body(&mut n.table, placeholder, 100, StoreOp::syntax(), &text, 0).unwrap();
    assert_eq!(end, text.len());
    let value = |id| Value {
        id,
        ty: placeholder,
    };
    assert_eq!(body.operands, [value(100), n.memref]);
    assert_eq!(
        body.lists,
        [vec![Dynamic(n.i), Dynamic(value(101)), Dynamic(value(100))]]
    );
    assert_eq!(n.table.len(), known + 2);
    assert_eq!(find_value(&n.table, &chars("later")), Some(value(100)));
    assert_eq!(find_value(&n.table, &chars("soon")), Some(value(101)));

    // The names are known from then on.
    let again = parse_body(&mut n.table, placeholder, 200, StoreOp::syntax(), &text, 0).unwrap();
    assert_eq!(again.0.operands, body.operands);
    assert_eq!(n.table.len(), known + 2);

    // Names in front of a mistake are kept.
    let text = chars("another to m{");
    assert!(matches!(
        parse_body(&mut n.table, placeholder, 200, StoreOp::syntax(), &text, 0),
        Err(ParseErr::Unexpected { at: 12 })
    ));
    assert_eq!(find_value(&n.table, &chars("another")), Some(value(200)));
}
