use pliron_tensor::bytes::ByteOrder;
use pliron_tensor::ir::{Context, IntegerType, Signedness, TypeHandle, TypeObj};
use pliron_tensor::memref::attributes::{
    DenseElementsAttr, DenseElementsErr, HexErr, ParseErr, MAX_ELEMENTS_AS_LITERALS,
};
use pliron_tensor::memref::type_interfaces::Dimension;
use pliron_tensor::memref::type_text::ForeignType;
use pliron_tensor::memref::types::{RankedMemrefType, UnrankedMemrefType};
use pliron_tensor::tensor::types::{RankedTensorType, UnrankedTensorType};

fn fp32(ctx: &mut Context) -> TypeHandle {
    ctx.intern(TypeObj::FP32)
}

fn integer(ctx: &mut Context, width: u32, signedness: Signedness) -> TypeHandle {
    ctx.intern(TypeObj::Integer(IntegerType { width, signedness }))
}

/// A ranked tensor type with static dimensions.
fn tensor_of(ctx: &mut Context, element_type: TypeHandle, shape: Vec<usize>) -> TypeHandle {
    RankedTensorType::get(
        ctx,
        element_type,
        shape.into_iter().map(Dimension::Static).collect(),
    )
}

/// A ranked tensor type with one dynamic dimension.
fn dynamic_tensor_of(ctx: &mut Context, element_type: TypeHandle) -> TypeHandle {
    RankedTensorType::get(
        ctx,
        element_type,
        vec![Dimension::Dynamic, Dimension::Static(2)],
    )
}

fn parse(ctx: &mut Context, text: &str) -> Result<DenseElementsAttr, ParseErr> {
    let chars: Vec<char> = text.chars().collect();
    DenseElementsAttr::parse(ctx, &chars)
}

fn print(ctx: &Context, attr: &DenseElementsAttr) -> String {
    attr.print(ctx).into_iter().collect()
}

/// Print `attr`, parse the text again, and compare the two constants.
fn round_trip(ctx: &mut Context, attr: &DenseElementsAttr) -> String {
    let printed = print(ctx, attr);
    let parsed = parse(ctx, &printed).unwrap();
    assert_eq!(&parsed, attr, "the parsed constant is different");
    assert_eq!(
        print(ctx, &parsed),
        printed,
        "the second print is different"
    );
    printed
}

fn floats(values: &[f32]) -> Vec<u8> {
    values.iter().flat_map(|v| v.to_ne_bytes()).collect()
}

#[test]
fn elements_round_trip() {
    let ctx = &mut Context::new();

    let f32_ty = fp32(ctx);
    let ty = tensor_of(ctx, f32_ty, vec![2, 2]);
    let data = floats(&[1.0f32, -2.5, 3.25, 0.0]);
    let attr = DenseElementsAttr::new(ctx, ty, data).unwrap();
    assert!(!attr.is_splat(ctx));
    assert_eq!(attr.num_elements(ctx), Some(4));
    assert_eq!(
        round_trip(ctx, &attr),
        "<tensor.ranked <2x2 : builtin.fp32 > = [1, -2.5, 3.25, 0]>"
    );

    // A signed element keeps its sign.
    let i64_ty = integer(ctx, 64, Signedness::Signed);
    let ty = tensor_of(ctx, i64_ty, vec![3]);
    let data = [-1i64, 0, 5].iter().flat_map(|v| v.to_ne_bytes()).collect();
    let attr = DenseElementsAttr::new(ctx, ty, data).unwrap();
    assert_eq!(
        round_trip(ctx, &attr),
        "<tensor.ranked <3 : builtin.integer si64> = [-1, 0, 5]>"
    );

    // A memref type is a shaped type, and so it can also type a constant.
    let ty = RankedMemrefType::get(
        ctx,
        f32_ty,
        vec![Dimension::Static(2), Dimension::Static(2)],
    );
    let data = floats(&[1.0f32, -2.5, 3.25, 0.0]);
    let attr = DenseElementsAttr::new(ctx, ty, data).unwrap();
    assert_eq!(
        round_trip(ctx, &attr),
        "<memref.ranked <2x2 : builtin.fp32 > = [1, -2.5, 3.25, 0]>"
    );

    // A 128 bits element must keep its value.
    let i128_ty = integer(ctx, 128, Signedness::Signed);
    let ty = tensor_of(ctx, i128_ty, vec![2]);
    let data = [-1i128, 42].iter().flat_map(|v| v.to_ne_bytes()).collect();
    let attr = DenseElementsAttr::new(ctx, ty, data).unwrap();
    assert_eq!(attr.raw_data().len(), 32);
    assert_eq!(
        round_trip(ctx, &attr),
        "<tensor.ranked <2 : builtin.integer si128> = [-1, 42]>"
    );

    let signless = integer(ctx, 64, Signedness::Signless);
    let ty = tensor_of(ctx, signless, vec![2]);
    let mut data = vec![0xFFu8; 8];
    data.extend_from_slice(&7u64.to_ne_bytes());
    let attr = DenseElementsAttr::new(ctx, ty, data).unwrap();
    // A signless element prints as a signed element.
    assert_eq!(
        round_trip(ctx, &attr),
        "<tensor.ranked <2 : builtin.integer i64> = [-1, 7]>"
    );

    // A signless i8 must be able to hold 200 (or equivalently -56).
    let from_unsigned = parse(ctx, "<tensor.ranked <1 : builtin.integer i8> = [200]>").unwrap();
    let from_signed = parse(ctx, "<tensor.ranked <1 : builtin.integer i8> = [-56]>").unwrap();
    assert_eq!(from_unsigned.raw_data(), from_signed.raw_data());
    assert_eq!(
        round_trip(ctx, &from_unsigned),
        "<tensor.ranked <1 : builtin.integer i8> = splat -56>"
    );

    // A signless element of one bit holds a boolean. It prints as unsigned.
    let i1_ty = integer(ctx, 1, Signedness::Signless);
    let ty = tensor_of(ctx, i1_ty, vec![2]);
    let attr = DenseElementsAttr::new(ctx, ty, vec![1u8, 0u8]).unwrap();
    assert_eq!(
        round_trip(ctx, &attr),
        "<tensor.ranked <2 : builtin.integer i1> = [1, 0]>"
    );

    // The buffer holds an element of more bits than that of any Rust integer.
    // Check that 2^200 retains every digit.
    let two_pow_200 = "1606938044258990275541962092341162602522202993782792835301376";
    let text = format!("<tensor.ranked <2 : builtin.integer si256> = [{two_pow_200}, -3]>");
    let attr = parse(ctx, &text).unwrap();
    assert_eq!(attr.raw_data().len(), 64);
    assert_eq!(round_trip(ctx, &attr), text);
}

/// A splat keeps the bytes of only one element.
#[test]
fn splat_round_trip() {
    let ctx = &mut Context::new();
    let element = 7.5f32.to_ne_bytes().to_vec();

    let f32_ty = fp32(ctx);
    let ty = tensor_of(ctx, f32_ty, vec![1000, 1000]);
    let attr = DenseElementsAttr::new_splat(ctx, ty, element.clone()).unwrap();
    assert!(attr.is_splat(ctx));
    assert_eq!(attr.raw_data().len(), 4);
    assert_eq!(attr.num_elements(ctx), Some(1_000_000));
    assert_eq!(attr.expanded_data(ctx).len(), 4_000_000);
    assert_eq!(
        round_trip(ctx, &attr),
        "<tensor.ranked <1000x1000 : builtin.fp32 > = splat 7.5>"
    );

    // A zeroed constant is a splat of one zero element.
    let ty = tensor_of(ctx, f32_ty, vec![64, 64]);
    let attr = DenseElementsAttr::new_zeroed(ctx, ty).unwrap();
    assert!(attr.is_splat(ctx));
    assert!(attr.is_all_zero());
    assert_eq!(attr.raw_data().len(), 4);
    assert_eq!(
        round_trip(ctx, &attr),
        "<tensor.ranked <64x64 : builtin.fp32 > = splat 0>"
    );

    // A type of one element is a splat: it must be trivially equal to each element.
    let ty = tensor_of(ctx, f32_ty, vec![1]);
    let attr = DenseElementsAttr::new_splat(ctx, ty, element.clone()).unwrap();
    assert!(attr.is_splat(ctx));
    assert_eq!(attr.num_elements(ctx), Some(1));
    assert_eq!(attr.expanded_data(ctx), element);
    assert_eq!(
        round_trip(ctx, &attr),
        "<tensor.ranked <1 : builtin.fp32 > = splat 7.5>"
    );
}

/// Above [MAX_ELEMENTS_AS_LITERALS], the printer writes hexadecimal.
#[test]
fn large_data_prints_as_hex() {
    let ctx = &mut Context::new();
    let count = MAX_ELEMENTS_AS_LITERALS + 1;
    let f32_ty = fp32(ctx);
    let ty = tensor_of(ctx, f32_ty, vec![count]);
    let data = (0..count as u32)
        .flat_map(|i| (i as f32).to_ne_bytes())
        .collect();
    let attr = DenseElementsAttr::new(ctx, ty, data).unwrap();
    let printed = round_trip(ctx, &attr);
    assert!(printed.contains("= \"0x"), "{printed}");
}

/// Data that does not agree with the type is rejected.
#[test]
fn invalid_constants_fail() {
    let ctx = &mut Context::new();
    let f32_ty = fp32(ctx);
    let static_ty = tensor_of(ctx, f32_ty, vec![2, 2]);
    let dynamic_ty = dynamic_tensor_of(ctx, f32_ty);
    let element = 7.5f32.to_ne_bytes().to_vec();
    let four_elements: Vec<u8> = floats(&[1.0f32, 2.0, 3.0, 4.0]);

    // The data holds neither every element nor one element.
    let err = DenseElementsAttr::new(ctx, static_ty, vec![0u8; 12])
        .expect_err("data of the wrong size must fail");
    assert!(matches!(
        err,
        DenseElementsErr::DataSize {
            expected: 16,
            element: 4,
            got: 12,
            ..
        }
    ));

    // A splat takes the bytes of one element only.
    let err = DenseElementsAttr::new_splat(ctx, static_ty, four_elements)
        .expect_err("a splat of more than one element must fail");
    assert!(matches!(
        err,
        DenseElementsErr::SplatSize {
            expected: 4,
            got: 16,
            ..
        }
    ));

    // Dynamic shapes aren't supported.
    let err = DenseElementsAttr::new(ctx, dynamic_ty, vec![0u8; 8])
        .expect_err("a dynamic shape must fail");
    assert!(matches!(err, DenseElementsErr::DynamicShape(_)));

    // A splat cannot have dynamic shapes either.
    let err = DenseElementsAttr::new_splat(ctx, dynamic_ty, element)
        .expect_err("a dynamic shape must fail for a splat too");
    assert!(matches!(err, DenseElementsErr::DynamicShape(_)));

    // An element with no bits must be rejected.
    let no_bits = integer(ctx, 0, Signedness::Signless);
    let zero_width_ty = tensor_of(ctx, no_bits, vec![2]);
    let err = DenseElementsAttr::new(ctx, zero_width_ty, vec![])
        .expect_err("an element of no bits must fail");
    assert!(matches!(err, DenseElementsErr::UnsupportedElementType(_)));
}

/// Text that does not describe a constant is rejected, and nothing is
/// quietly cut down to fit.
#[test]
fn invalid_text_fails_to_parse() {
    let ctx = &mut Context::new();

    // A type with no shape cannot be a constant value.
    let err = parse(ctx, "<builtin.fp32 = [1]>").expect_err("an unshaped type must fail");
    assert_eq!(err, ParseErr::NotShaped { at: 1 });

    // A buffer of the wrong size must fail.
    let err = parse(ctx, r#"<tensor.ranked <2x2 : builtin.fp32> = "0x0102030405">"#)
        .expect_err("a buffer that holds neither every element nor one element must fail");
    assert!(matches!(
        err,
        ParseErr::Constant {
            at: 0,
            error: DenseElementsErr::DataSize {
                expected: 16,
                element: 4,
                got: 5,
                ..
            }
        }
    ));

    // An i8 must reject 300, which needs more than 8 bits.
    let text = "<tensor.ranked <2 : builtin.integer i8> = [1, 300]>";
    let err = parse(ctx, text).expect_err("a literal wider than the element must fail");
    assert_eq!(
        err,
        ParseErr::Constant {
            at: 46,
            error: DenseElementsErr::ElementOutOfRange {
                ty: IntegerType {
                    width: 8,
                    signedness: Signedness::Signless
                },
                start: 46,
                end: 49,
            }
        }
    );
    assert_eq!(&text[46..49], "300");

    // An si8 must reject 200, which needs 8 bits without a sign.
    let text = "<tensor.ranked <1 : builtin.integer si8> = [200]>";
    let err = parse(ctx, text)
        .expect_err("a literal that the sign of the element cannot hold must fail");
    match err {
        ParseErr::Constant {
            error: DenseElementsErr::ElementOutOfRange { ty, start, end },
            ..
        } => {
            assert_eq!(&text[start..end], "200");
            assert_eq!((ty.width, ty.signedness), (8, Signedness::Signed));
        }
        _ => panic!("{err:?}"),
    }

    // An si136 must reject 2^136, which needs one bit more.
    let two_pow_136 = "87112285931760246646623899502532662132736";
    let text = format!("<tensor.ranked <1 : builtin.integer si136> = [{two_pow_136}]>");
    let err = parse(ctx, &text).expect_err("a literal wider than the element must fail");
    match err {
        ParseErr::Constant {
            error: DenseElementsErr::ElementOutOfRange { ty, .. },
            ..
        } => {
            assert_eq!((ty.width, ty.signedness), (136, Signedness::Signed));
        }
        _ => panic!("{err:?}"),
    }
}

#[test]
fn half_and_double_elements_round_trip() {
    let ctx = &mut Context::new();
    let half = ctx.intern(TypeObj::FP16);
    let ty = tensor_of(ctx, half, vec![3]);
    // 1, -2 and the largest finite number.
    let data: Vec<u8> = [0x3c00u16, 0xc000, 0x7bff]
        .iter()
        .flat_map(|v| v.to_ne_bytes())
        .collect();
    let attr = DenseElementsAttr::new(ctx, ty, data).unwrap();
    assert_eq!(
        round_trip(ctx, &attr),
        "<tensor.ranked <3 : builtin.fp16 > = [1, -2, 65504]>"
    );

    let double = ctx.intern(TypeObj::FP64);
    let ty = tensor_of(ctx, double, vec![2]);
    let data: Vec<u8> = [0.1f64, -1.0e300]
        .iter()
        .flat_map(|v| v.to_ne_bytes())
        .collect();
    let attr = DenseElementsAttr::new(ctx, ty, data).unwrap();
    let printed = round_trip(ctx, &attr);
    assert!(printed.starts_with("<tensor.ranked <2 : builtin.fp64 > = ["));
}

#[test]
fn float_bytes_follow_the_order_that_is_asked_for() {
    let ctx = &mut Context::new();
    let text: Vec<char> = "<tensor.ranked <2 : builtin.fp32> = [1, 2]> rest"
        .chars()
        .collect();
    let (big, end) = DenseElementsAttr::parse_ordered(ctx, &text, 0, ByteOrder::Big).unwrap();
    assert_eq!(big.raw_data(), &[0x3f, 0x80, 0, 0, 0x40, 0, 0, 0]);
    assert_eq!(end, 44);
    let (little, _) = DenseElementsAttr::parse_ordered(ctx, &text, 0, ByteOrder::Little).unwrap();
    assert_eq!(little.raw_data(), &[0, 0, 0x80, 0x3f, 0, 0, 0, 0x40]);
    let printed: String = big.print_ordered(ctx, ByteOrder::Big).into_iter().collect();
    assert_eq!(printed, "<tensor.ranked <2 : builtin.fp32 > = [1, 2]>");
}

#[test]
fn constants_without_elements() {
    let ctx = &mut Context::new();
    let i32_ty = integer(ctx, 32, Signedness::Unsigned);
    let ty = tensor_of(ctx, i32_ty, vec![0, 3]);
    let attr = DenseElementsAttr::new(ctx, ty, vec![]).unwrap();
    assert_eq!(
        round_trip(ctx, &attr),
        "<tensor.ranked <0x3 : builtin.integer ui32> = []>"
    );
    assert_eq!(attr.expanded_data(ctx), Vec::<u8>::new());

    // Floating-point elements cannot be missing altogether.
    assert!(parse(ctx, "<tensor.ranked <0 : builtin.fp32> = []>").is_err());

    // A shape without dimensions has one element.
    let ty = tensor_of(ctx, i32_ty, vec![]);
    let attr = DenseElementsAttr::new(ctx, ty, vec![9, 0, 0, 0]).unwrap();
    assert_eq!(
        round_trip(ctx, &attr),
        "<tensor.ranked < : builtin.integer ui32> = splat 9>"
    );
}

#[test]
fn bits_that_an_integer_does_not_use_are_not_written() {
    let ctx = &mut Context::new();
    let i1_ty = integer(ctx, 1, Signedness::Signless);
    let ty = tensor_of(ctx, i1_ty, vec![2]);
    let attr = DenseElementsAttr::new(ctx, ty, vec![0xFF, 0xFE]).unwrap();
    assert_eq!(
        print(ctx, &attr),
        "<tensor.ranked <2 : builtin.integer i1> = [1, 0]>"
    );
    let i12_ty = integer(ctx, 12, Signedness::Unsigned);
    let ty = tensor_of(ctx, i12_ty, vec![2]);
    let attr = DenseElementsAttr::new(ctx, ty, vec![0xFF, 0x0F, 1, 0]).unwrap();
    assert_eq!(
        round_trip(ctx, &attr),
        "<tensor.ranked <2 : builtin.integer ui12> = [4095, 1]>"
    );
}

#[test]
fn integer_literals_at_the_ends_of_their_range() {
    let ctx = &mut Context::new();
    let mut held = |width: &str, literal: &str| {
        let text = format!("<tensor.ranked <1 : builtin.integer {width}> = splat {literal}>");
        parse(ctx, &text).map(|attr| attr.raw_data().to_vec())
    };
    assert_eq!(held("si8", "127"), Ok(vec![127]));
    assert_eq!(held("si8", "+127"), Ok(vec![127]));
    assert_eq!(held("si8", "-128"), Ok(vec![128]));
    assert!(held("si8", "128").is_err());
    assert!(held("si8", "-129").is_err());
    assert_eq!(held("ui8", "255"), Ok(vec![255]));
    assert!(held("ui8", "256").is_err());
    assert_eq!(held("i8", "255"), Ok(vec![255]));
    assert_eq!(held("ui8", "-1"), Ok(vec![255]));
    assert_eq!(held("i1", "-1"), Ok(vec![1]));
    assert_eq!(held("si16", "-0"), Ok(vec![0, 0]));
}

#[test]
fn hexadecimal_text_is_checked() {
    let ctx = &mut Context::new();
    let mut held = |text: &str| {
        let text = format!("<tensor.ranked <2 : builtin.integer i8> = {text}>");
        parse(ctx, &text).map(|attr| attr.raw_data().to_vec())
    };
    let hex_err = |error: HexErr| {
        Err(ParseErr::Constant {
            at: 42,
            error: DenseElementsErr::InvalidHex(error),
        })
    };
    assert_eq!(held("\"0xAb07\""), Ok(vec![0xab, 0x07]));
    assert_eq!(held("\"0x+b07\""), Ok(vec![0x0b, 0x07]));
    assert_eq!(held("\"\\u{30}x0102\""), Ok(vec![1, 2]));
    assert_eq!(held("\"AB07\""), hex_err(HexErr::MissingPrefix));
    assert_eq!(held("\"0xAB0\""), hex_err(HexErr::OddDigits));
    assert_eq!(held("\"0xAG07\""), hex_err(HexErr::InvalidDigit));
    assert_eq!(held("\"0x\u{e9}\""), hex_err(HexErr::InvalidDigit));
    assert_eq!(
        held("\"0x\\q\""),
        Err(ParseErr::InvalidEscape { at: 45 })
    );
    assert_eq!(
        held("\"\\u{d800}\""),
        Err(ParseErr::InvalidEscape { at: 43 })
    );
}

#[test]
fn malformed_text_is_refused() {
    let ctx = &mut Context::new();
    assert_eq!(
        parse(ctx, "tensor"),
        Err(ParseErr::Unexpected { at: 0 })
    );
    assert_eq!(
        parse(ctx, "<tensor.other <2 : builtin.fp32> = [1, 2]>"),
        Err(ParseErr::UnknownType { at: 1 })
    );
    assert_eq!(
        parse(ctx, "<tensor.ranked <-2 : builtin.fp32> = [1, 2]>"),
        Err(ParseErr::InvalidNumber { at: 16 })
    );
    assert_eq!(
        parse(ctx, "<tensor.ranked <2 : builtin.fp32> = [1, two]>"),
        Err(ParseErr::InvalidFloat { at: 40 })
    );
    assert_eq!(
        parse(
            ctx,
            "<tensor.ranked <99999999999x99999999999 : builtin.fp32> = splat 1>"
        ),
        Err(ParseErr::TooLarge { at: 0 })
    );
    assert!(matches!(
        parse(ctx, "<tensor.ranked <2 : builtin.integer i0> = []>"),
        Err(ParseErr::Constant {
            at: 0,
            error: DenseElementsErr::UnsupportedElementType(_)
        })
    ));
    assert!(matches!(
        parse(ctx, "<tensor.ranked <?x2 : builtin.fp32> = splat 1>"),
        Err(ParseErr::Constant {
            at: 0,
            error: DenseElementsErr::DynamicShape(_)
        })
    ));
    // White space is skipped.
    assert!(parse(
        ctx,
        "<  tensor.ranked  < 2 x 1 :  builtin.fp32 >  =  [ 1 , 2 ] >"
    )
    .is_ok());
}

#[test]
fn a_type_is_replaced_only_by_one_that_fits() {
    let ctx = &mut Context::new();
    let f32_ty = fp32(ctx);
    let tensor = tensor_of(ctx, f32_ty, vec![2]);
    let memref = RankedMemrefType::get(ctx, f32_ty, vec![Dimension::Static(2)]);
    let other = tensor_of(ctx, f32_ty, vec![3]);
    let mut attr = DenseElementsAttr::new(ctx, tensor, floats(&[1.0, 2.0])).unwrap();
    assert!(matches!(
        attr.set_type(ctx, other),
        Err(DenseElementsErr::DataSize {
            expected: 12,
            element: 4,
            got: 8,
            ..
        })
    ));
    assert_eq!(attr.ty(), tensor);
    assert_eq!(attr.set_type(ctx, memref), Ok(()));
    assert_eq!(attr.ty(), memref);
    assert_eq!(attr.verify(ctx), Ok(()));
    assert_eq!(attr.raw_data(), floats(&[1.0, 2.0]));
}

#[test]
fn only_long_constants_are_outlined() {
    let ctx = &mut Context::new();
    let i8_ty = integer(ctx, 8, Signedness::Signless);
    let four = tensor_of(ctx, i8_ty, vec![2, 2]);
    let five = tensor_of(ctx, i8_ty, vec![5]);
    assert!(!DenseElementsAttr::new(ctx, four, vec![1, 2, 3, 4])
        .unwrap()
        .outline(ctx));
    let attr = DenseElementsAttr::new(ctx, five, vec![1, 2, 3, 4, 5]).unwrap();
    assert!(attr.outline(ctx));
    assert_eq!(attr.into_expanded_data(ctx), vec![1, 2, 3, 4, 5]);
    let splat = DenseElementsAttr::new_splat(ctx, five, vec![7]).unwrap();
    assert!(!splat.outline(ctx));
    assert!(!splat.is_all_zero());
    assert_eq!(splat.into_expanded_data(ctx), vec![7, 7, 7, 7, 7]);
}

#[test]
fn elements_of_other_types_are_not_held() {
    let ctx = &mut Context::new();
    let index = ctx.intern(TypeObj::Index);
    let ty = tensor_of(ctx, index, vec![2]);
    assert_eq!(
        DenseElementsAttr::new(ctx, ty, vec![]),
        Err(DenseElementsErr::UnsupportedElementType(index))
    );
    assert_eq!(
        DenseElementsAttr::new_splat(ctx, ty, vec![]),
        Err(DenseElementsErr::UnsupportedElementType(index))
    );
    assert_eq!(
        DenseElementsAttr::new_zeroed(ctx, ty),
        Err(DenseElementsErr::NotAnElementType(index))
    );
    assert_eq!(
        parse(ctx, "<tensor.ranked <2 : index.index > = [1, 2]>"),
        Err(ParseErr::Constant {
            at: 0,
            error: DenseElementsErr::UnsupportedElementType(index)
        })
    );
    assert_eq!(
        parse(ctx, "<index.index = [1, 2]>"),
        Err(ParseErr::NotShaped { at: 1 })
    );
    assert_eq!(
        parse(ctx, "<tensor.ranked <2 : other.type > = [1, 2]>"),
        Err(ParseErr::UnknownType { at: 20 })
    );
    assert!(matches!(
        parse(ctx, "<tensor.ranked <2 : index.index = [1, 2]>"),
        Err(ParseErr::Unexpected { .. })
    ));
}

#[test]
fn integers_stand_in_the_given_byte_order() {
    let ctx = &mut Context::new();
    let text: Vec<char> = "<tensor.ranked <2 : builtin.integer si16> = [258, -2]>"
        .chars()
        .collect();
    for (order, data) in [
        (ByteOrder::Little, [2, 1, 0xfe, 0xff]),
        (ByteOrder::Big, [1, 2, 0xff, 0xfe]),
    ] {
        let (attr, end) = DenseElementsAttr::parse_ordered(ctx, &text, 0, order).unwrap();
        assert_eq!(end, text.len());
        assert_eq!(attr.raw_data(), data);
        assert_eq!(attr.print_ordered(ctx, order), text);
    }
}

#[test]
fn constants_are_held_of_shaped_types_of_the_context() {
    let ctx = &mut Context::new();
    let single = ctx.intern(TypeObj::FP32);
    let ty = tensor_of(ctx, single, vec![2, 3]);
    assert!(pliron_tensor::memref::dense_text::is_holdable(ctx, ty));
    assert!(!pliron_tensor::memref::dense_text::is_holdable(ctx, single));
    assert!(!pliron_tensor::memref::dense_text::is_holdable(&Context::new(), ty));
    let huge = tensor_of(ctx, single, vec![usize::MAX]);
    assert!(!pliron_tensor::memref::dense_text::is_holdable(ctx, huge));
    assert!(ctx.contains(ty));
    assert!(!Context::new().contains(ty));
}

fn unsupported(ty: TypeHandle) -> ParseErr {
    ParseErr::Constant {
        at: 0,
        error: DenseElementsErr::UnsupportedElementType(ty),
    }
}

#[test]
fn elements_with_a_shape_are_not_held() {
    let ctx = &mut Context::new();
    let single = fp32(ctx);
    let inner = tensor_of(ctx, single, vec![3, 4]);
    assert_eq!(
        parse(
            ctx,
            "<tensor.ranked <2 : tensor.ranked <3x4 : builtin.fp32 >> = [1]>"
        ),
        Err(unsupported(inner))
    );
    let nested = RankedMemrefType::get(ctx, inner, vec![Dimension::Dynamic]);
    assert_eq!(
        parse(
            ctx,
            "<memref.ranked <2 : memref.ranked <? : tensor.ranked <3x4 : builtin.fp32 >>> = [1]>"
        ),
        Err(unsupported(nested))
    );
    let unranked = UnrankedTensorType::get(ctx, single);
    assert_eq!(
        parse(
            ctx,
            "<tensor.ranked <2 : tensor.unranked <builtin.fp32 >> = [1]>"
        ),
        Err(unsupported(unranked))
    );
    let unranked = ctx.intern(TypeObj::UnrankedMemref(UnrankedMemrefType {
        element_type: single,
    }));
    assert_eq!(
        parse(
            ctx,
            "<tensor.ranked <2 : memref.unranked <builtin.fp32 >> = [1]>"
        ),
        Err(unsupported(unranked))
    );
    assert_eq!(
        parse(ctx, "<tensor.unranked <builtin.fp32 > = [1]>"),
        Err(ParseErr::NotShaped { at: 1 })
    );
    assert_eq!(
        parse(
            ctx,
            "<tensor.ranked <2 : tensor.unranked <other.type >> = [1]>"
        ),
        Err(ParseErr::UnknownType { at: 37 })
    );
}

#[test]
fn elements_of_other_dialects_are_not_held() {
    let ctx = &mut Context::new();
    let other = ctx.intern(TypeObj::Other(7));
    let parse = |ctx: &mut Context, text: &str, at: usize, end: usize| {
        let chars: Vec<char> = text.chars().collect();
        let foreign = [ForeignType { at, end, ty: other }];
        DenseElementsAttr::parse_with_types(ctx, &foreign, &chars, 0, ByteOrder::Little)
    };
    assert_eq!(
        parse(ctx, "<tensor.ranked <2 : llvm.ptr (3)> = [1]>", 20, 32).map(|_| ()),
        Err(unsupported(other))
    );
    let inner = tensor_of(ctx, other, vec![5]);
    assert_eq!(
        parse(
            ctx,
            "<tensor.ranked <2 : tensor.ranked <5 : llvm.ptr>> = [1]>",
            39,
            47
        )
        .map(|_| ()),
        Err(unsupported(inner))
    );
    assert_eq!(
        parse(ctx, "<llvm.ptr = [1]>", 1, 9).map(|_| ()),
        Err(ParseErr::NotShaped { at: 1 })
    );
    assert_eq!(
        parse(ctx, "<tensor.ranked <2 : llvm.ptr> = [1]>", 1, 9).map(|_| ()),
        Err(ParseErr::UnknownType { at: 20 })
    );
    assert_eq!(
        parse(ctx, "<tensor.ranked <2 : llvm.ptr = [1]>", 20, 28).map(|_| ()),
        Err(ParseErr::Unexpected { at: 29 })
    );
    let single = fp32(ctx);
    let ty = tensor_of(ctx, single, vec![1]);
    let (held, end) = parse(ctx, "<tensor.ranked <1 : builtin.fp32 > = [2.0]>", 20, 33).unwrap();
    assert_eq!(held.ty(), ty);
    assert_eq!(held.raw_data(), 2.0f32.to_bits().to_le_bytes());
    assert_eq!(end, 43);
}

#[test]
fn long_literals_are_read() {
    let ctx = &mut Context::new();
    let mut read = |literal: &str| {
        let text = format!("<tensor.ranked <1 : builtin.fp64 > = [{literal}]>");
        let chars: Vec<char> = text.chars().collect();
        let parsed = DenseElementsAttr::parse_ordered(ctx, &chars, 0, ByteOrder::Little);
        let data = parsed.unwrap().0.raw_data().to_vec();
        f64::from_le_bytes(data.try_into().unwrap())
    };
    let zeros = "0".repeat(100_000);
    assert_eq!(read(&format!("{zeros}12.5{zeros}")), 12.5);
    assert_eq!(read(&format!("-0.{zeros}25e100001")), -2.5);
    assert_eq!(read(&format!("1{zeros}e-100000")), 1.0);
    assert_eq!(read(&format!("0x{zeros}1.8p4")), 24.0);
    assert_eq!(read(&"9".repeat(400)), f64::INFINITY);
    let digits = "3".repeat(2_000);
    assert_eq!(read(&format!("0.{digits}")), 1.0 / 3.0);
}

#[test]
fn literals_are_measured_by_their_digits() {
    let readable = |literal: &str| {
        let chars: Vec<char> = literal.chars().collect();
        pliron_tensor::memref::literals::is_readable(&chars)
    };
    for literal in ["", "0", "-0x", "+1.5e3", "0xAp-3", "0x.001p9", "nan", "Inf", "1.2.3", "e5"] {
        assert!(readable(literal), "{literal}");
    }
}
