use pliron_tensor::memref::type_interfaces::Dimension;
use pliron_tensor::memref::type_interfaces::Dimension::{Dynamic, Static};
use pliron_tensor::tensor::types::{broadcast_shapes, can_broadcast_to};

#[test]
fn broadcast_shape_rules() {
    assert_eq!(
        broadcast_shapes(
            &[Static(1), Static(2), Static(3), Static(4)],
            &[Static(1), Static(1), Static(1), Static(4)]
        ),
        Some(vec![Static(1), Static(2), Static(3), Static(4)])
    );
    assert_eq!(
        broadcast_shapes(&[Static(3), Static(1)], &[Static(2), Static(1), Static(4)]),
        Some(vec![Static(2), Static(3), Static(4)])
    );
    assert_eq!(broadcast_shapes(&[Static(2)], &[Static(3)]), None);
    assert_eq!(
        broadcast_shapes(&[Dynamic, Static(4)], &[Static(2), Static(4)]),
        Some(vec![Dynamic, Static(4)])
    );
}

#[test]
fn broadcast_to_rules() {
    assert!(can_broadcast_to(
        &[Static(1), Static(4)],
        &[Static(1), Static(2), Static(3), Static(4)]
    ));
    assert!(can_broadcast_to(
        &[Dynamic, Static(4)],
        &[Static(3), Static(4)]
    ));
    assert!(!can_broadcast_to(
        &[Static(2), Static(4)],
        &[Static(3), Static(4)]
    ));
    assert!(!can_broadcast_to(
        &[Static(1), Static(2), Static(3)],
        &[Static(2), Static(3)]
    ));
}

#[test]
fn broadcast_of_scalars_and_dynamic_dimensions() {
    let scalar: [Dimension; 0] = [];
    assert_eq!(broadcast_shapes(&scalar, &scalar), Some(vec![]));
    assert_eq!(
        broadcast_shapes(&scalar, &[Static(2), Dynamic]),
        Some(vec![Static(2), Dynamic])
    );
    assert_eq!(
        broadcast_shapes(&[Dynamic], &[Static(1)]),
        Some(vec![Dynamic])
    );
    assert_eq!(
        broadcast_shapes(&[Static(0)], &[Static(1)]),
        Some(vec![Static(0)])
    );
    assert!(can_broadcast_to(&scalar, &[Static(7)]));
}

#[test]
fn broadcast_commutes_and_reaches_the_result() {
    let lhs = [Static(5), Static(1), Dynamic];
    let rhs = [Static(4), Static(3)];
    let result = broadcast_shapes(&lhs, &rhs).unwrap();
    assert_eq!(broadcast_shapes(&rhs, &lhs), Some(result.clone()));
    assert_eq!(result, vec![Static(5), Static(4), Dynamic]);
    assert!(can_broadcast_to(&lhs, &result));
    assert!(can_broadcast_to(&rhs, &result));
}
