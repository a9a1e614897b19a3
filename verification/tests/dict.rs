use vortex::arrays::array::{decode_dictionary, ArrayRef, DictArray};
use vortex::arrays::canonical::{
    BoolArray, Canonical, PrimitiveArray, Validity, VarBin, VarBinViewArray,
};
use vortex::arrays::dict::{should_execute_dictionary_values, Dict};
use vortex::dtype::{DType, Nullability, PType};
use vortex::error::Error;
use vortex::scalar::Scalar;
use vortex::scalar_fn::{CompareOperator, Like, LikeOptions, Operator};

fn numbers(ptype: PType, values: &[i128]) -> ArrayRef {
    ArrayRef::canonical(Canonical::Primitive(PrimitiveArray::new(
        ptype,
        values.to_vec(),
        Validity::NonNullable,
    )))
}

fn codes(values: &[i128]) -> ArrayRef {
    numbers(PType::U8, values)
}

fn texts(values: &[&str]) -> ArrayRef {
    ArrayRef::canonical(Canonical::VarBinView(VarBinViewArray::new(
        VarBin::Text(values.iter().map(|v| v.to_string()).collect()),
        Validity::NonNullable,
    )))
}

fn bools(values: &[bool]) -> Canonical {
    Canonical::Bool(BoolArray::new(values.to_vec(), Validity::NonNullable))
}

fn i32_scalar(value: i128) -> Scalar {
    Scalar::primitive(PType::I32, value, Nullability::NonNullable)
}

fn rows(array: &Canonical) -> Vec<Option<i128>> {
    let array = array.as_primitive().unwrap();
    (0..array.len()).map(|i| array.get(i)).collect()
}

#[test]
fn constant_comparison_returns_canonical_bool() -> Result<(), Error> {
    let dictionary = ArrayRef::dict(DictArray::try_new(
        codes(&[0, 1, 0, 2]),
        numbers(PType::I32, &[10, 20, 30]),
    )?);
    let rhs = ArrayRef::constant(i32_scalar(20), dictionary.len());
    let result = dictionary.binary(rhs, Operator::Lt)?;

    let result = result.execute()?;
    assert!(matches!(*result, Canonical::Bool(_)));
    assert_eq!(*result, bools(&[true, false, true, false]));
    Ok(())
}

#[test]
fn the_comparison_kernel_gives_the_same_canonical_bool() -> Result<(), Error> {
    let dictionary =
        DictArray::try_new(codes(&[0, 1, 0, 2]), numbers(PType::I32, &[10, 20, 30]))?;
    let rhs = ArrayRef::constant(i32_scalar(20), 4);
    let result = Dict::compare(&dictionary, &rhs, CompareOperator::Lt)?.unwrap();
    assert_eq!(result.as_canonical(), Some(&bools(&[true, false, true, false])));
    let result = Dict::compare(&dictionary, &rhs, CompareOperator::Gte)?.unwrap();
    assert_eq!(result.as_canonical(), Some(&bools(&[false, true, false, true])));
    Ok(())
}

#[test]
fn like_execute_dict_returns_canonical_bool() -> Result<(), Error> {
    let dict = ArrayRef::dict(DictArray::try_new(
        codes(&[0, 1, 0, 2]),
        texts(&["hello", "world", "help"]),
    )?);

    let pattern =
        ArrayRef::constant(Scalar::utf8("hello%".to_string(), Nullability::NonNullable), 4);
    let result = ArrayRef::scalar_fn(Like::try_new(dict, pattern, LikeOptions::default())?);
    let result = result.execute()?;

    assert!(matches!(*result, Canonical::Bool(_)));
    assert_eq!(*result, bools(&[true, false, true, false]));
    Ok(())
}

#[test]
fn the_like_kernel_gives_the_same_canonical_bool() -> Result<(), Error> {
    let dict =
        DictArray::try_new(codes(&[0, 1, 0, 2]), texts(&["hello", "world", "help"]))?;
    let pattern =
        ArrayRef::constant(Scalar::utf8("hello%".to_string(), Nullability::NonNullable), 4);
    let result = Dict::like(&dict, &pattern, LikeOptions::default())?.unwrap();
    assert_eq!(result.as_canonical(), Some(&bools(&[true, false, true, false])));
    let negated = LikeOptions { negated: true, case_insensitive: false };
    let result = Dict::like(&dict, &pattern, negated)?.unwrap();
    assert_eq!(result.as_canonical(), Some(&bools(&[false, true, false, true])));
    Ok(())
}

#[test]
fn decode_dictionary_skips_the_generic_root_executor() -> Result<(), Error> {
    let dictionary =
        DictArray::try_new(codes(&[0, 1, 0, 2]), numbers(PType::I32, &[10, 20, 30]))?;
    let decoded = decode_dictionary(&dictionary)?;
    assert_eq!(rows(&decoded), vec![Some(10), Some(20), Some(10), Some(30)]);
    assert_eq!(decoded.dtype(), DType::Primitive(PType::I32, Nullability::NonNullable));
    Ok(())
}

#[test]
fn kernels_do_not_answer_where_it_does_not_pay() -> Result<(), Error> {
    assert!(should_execute_dictionary_values(3, 3));
    assert!(!should_execute_dictionary_values(3, 2));

    let large = DictArray::try_new(codes(&[0, 1]), numbers(PType::I32, &[10, 20, 30]))?;
    let rhs = ArrayRef::constant(i32_scalar(20), 2);
    assert!(Dict::compare(&large, &rhs, CompareOperator::Eq)?.is_none());

    let small = DictArray::try_new(codes(&[0, 0]), numbers(PType::I32, &[10]))?;
    let other = numbers(PType::I32, &[10, 20]);
    assert!(Dict::compare(&small, &other, CompareOperator::Eq)?.is_none());
    assert!(Dict::like(&large, &rhs, LikeOptions::default())?.is_none());
    Ok(())
}

#[test]
fn kernels_report_type_errors() -> Result<(), Error> {
    let small = DictArray::try_new(codes(&[0, 0]), numbers(PType::I32, &[10]))?;
    let text = ArrayRef::constant(Scalar::utf8("x".to_string(), Nullability::NonNullable), 2);
    assert_eq!(
        Dict::compare(&small, &text, CompareOperator::Eq).err(),
        Some(Error::TypeMismatch)
    );
    assert_eq!(Dict::like(&small, &text, LikeOptions::default()).err(), Some(Error::TypeMismatch));
    Ok(())
}

#[test]
fn codes_must_be_unsigned() {
    let made = DictArray::try_new(numbers(PType::I32, &[0]), numbers(PType::I32, &[10]));
    assert_eq!(made.err(), Some(Error::InvalidArray));
}

#[test]
fn null_codes_give_nulls() -> Result<(), Error> {
    let nullable = |values: Vec<i128>, mask: Vec<bool>| {
        ArrayRef::canonical(Canonical::Primitive(PrimitiveArray::new(
            PType::U8,
            values,
            Validity::Mask(mask),
        )))
    };
    let some = DictArray::try_new(
        nullable(vec![1, 0], vec![true, false]),
        numbers(PType::I32, &[10, 20]),
    )?;
    let decoded = decode_dictionary(&some)?;
    assert_eq!(rows(&decoded), vec![Some(20), None]);
    assert_eq!(decoded.dtype(), DType::Primitive(PType::I32, Nullability::Nullable));

    let rhs = ArrayRef::constant(i32_scalar(20), 2);
    let compared = Dict::compare(&some, &rhs, CompareOperator::Eq)?.unwrap();
    let compared = compared.as_canonical().unwrap().as_bool().unwrap();
    assert_eq!((compared.get(0), compared.get(1)), (Some(true), None));

    let none = DictArray::try_new(
        nullable(vec![0, 0], vec![false, false]),
        numbers(PType::I32, &[]),
    )?;
    let decoded = decode_dictionary(&none)?;
    assert_eq!(rows(&decoded), vec![None, None]);
    Ok(())
}

#[test]
fn an_empty_dictionary_decodes_to_nothing() -> Result<(), Error> {
    let empty = DictArray::try_new(codes(&[]), texts(&["unused"]))?;
    let decoded = decode_dictionary(&empty)?;
    assert_eq!(decoded.len(), 0);
    assert_eq!(decoded.dtype(), DType::Utf8(Nullability::NonNullable));
    Ok(())
}

#[test]
fn values_that_overflow_count_only_where_they_are_looked_up() -> Result<(), Error> {
    let overflowing = numbers(PType::I8, &[127]).binary(numbers(PType::I8, &[1]), Operator::Add)?;
    let looked_up = DictArray::try_new(codes(&[0]), overflowing.clone())?;
    assert_eq!(decode_dictionary(&looked_up).err(), Some(Error::Overflow));
    let unused = DictArray::try_new(codes(&[]), overflowing)?;
    assert_eq!(decode_dictionary(&unused)?.len(), 0);
    Ok(())
}

#[test]
fn nested_dictionaries_are_executed() -> Result<(), Error> {
    let inner = ArrayRef::dict(DictArray::try_new(codes(&[1, 0]), numbers(PType::I32, &[10, 20]))?);
    let outer = ArrayRef::dict(DictArray::try_new(codes(&[0, 1, 0]), inner)?);
    assert_eq!(rows(&*outer.execute()?), vec![Some(20), Some(10), Some(20)]);
    let compared = outer.binary(ArrayRef::constant(i32_scalar(20), 3), Operator::Eq)?;
    assert_eq!(*compared.execute()?, bools(&[true, false, true]));
    let flipped = ArrayRef::constant(i32_scalar(20), 3).binary(outer, Operator::NotEq)?;
    assert_eq!(*flipped.execute()?, bools(&[false, true, false]));
    Ok(())
}

#[test]
fn an_overflow_that_no_code_looks_up_is_not_met() -> Result<(), Error> {
    let overflowing = numbers(PType::I8, &[127]).binary(numbers(PType::I8, &[1]), Operator::Add)?;
    let nulls = ArrayRef::canonical(Canonical::Primitive(PrimitiveArray::new(
        PType::U8,
        vec![0, 0],
        Validity::AllInvalid,
    )));
    let dict = DictArray::try_new(nulls, overflowing)?;
    let one = ArrayRef::constant(Scalar::primitive(PType::I8, 1, Nullability::NonNullable), 2);
    assert_eq!(
        Dict::compare(&dict, &one, CompareOperator::Eq).err(),
        Some(Error::Overflow)
    );
    let compared = ArrayRef::dict(dict).binary(one, Operator::Eq)?.execute()?;
    let compared = compared.as_bool().unwrap();
    assert_eq!((compared.get(0), compared.get(1)), (None, None));
    Ok(())
}
