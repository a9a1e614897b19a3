use vortex::arrays::canonical::{
    take_canonical, BoolArray, Canonical, DecimalArray, ExtensionArray, FixedSizeListArray,
    ListViewArray, MapArray, NullArray, PrimitiveArray, StructArray, UnionArray, Validity, VarBin,
    VarBinViewArray, VariantArray,
};
use vortex::arrays::compute::{compare_rows, like_rows, Leaf};
use vortex::arrays::evaluate::{compare_arrays, like_arrays};
use vortex::dtype::{DType, DecimalDType, Nullability, PType};
use vortex::error::Error;
use vortex::scalar::Scalar;
use vortex::scalar_fn::{CompareOperator, LikeOptions};

fn codes(values: &[Option<i128>]) -> PrimitiveArray {
    PrimitiveArray::from_options(PType::U32, &values.to_vec(), Nullability::Nullable)
}

fn numbers(values: &[i128]) -> Canonical {
    Canonical::Primitive(PrimitiveArray::new(
        PType::I32,
        values.to_vec(),
        Validity::NonNullable,
    ))
}

fn texts(values: &[&str]) -> VarBinViewArray {
    VarBinViewArray::new(
        VarBin::Text(values.iter().map(|v| v.to_string()).collect()),
        Validity::NonNullable,
    )
}

fn options(array: &Canonical) -> Vec<Option<i128>> {
    let array = array.as_primitive().unwrap();
    (0..array.len()).map(|i| array.get(i)).collect()
}

fn text(array: &Canonical, i: usize) -> Option<String> {
    array.as_varbinview().unwrap().text(i).cloned()
}

#[test]
fn taking_from_flat_arrays() {
    let picks = codes(&[Some(2), None, Some(0), Some(2)]);
    let taken = take_canonical(&numbers(&[10, 20, 30]), &picks);
    assert_eq!(options(&taken), vec![Some(30), None, Some(10), Some(30)]);
    assert_eq!(taken.dtype(), DType::Primitive(PType::I32, Nullability::Nullable));

    let bools = Canonical::Bool(BoolArray::new(vec![true, false, true], Validity::NonNullable));
    let taken = take_canonical(&bools, &picks);
    let taken = taken.as_bool().unwrap();
    assert_eq!((taken.get(0), taken.get(1), taken.get(2)), (Some(true), None, Some(true)));

    let taken = take_canonical(&Canonical::VarBinView(texts(&["a", "b", "c"])), &picks);
    assert_eq!(text(&taken, 0), Some("c".to_string()));
    assert_eq!(text(&taken, 1), None);

    let bytes = VarBinViewArray::new(
        VarBin::Bytes(vec![vec![1], vec![2, 3], vec![]]),
        Validity::NonNullable,
    );
    let taken = take_canonical(&Canonical::VarBinView(bytes), &codes(&[Some(1)]));
    assert_eq!(taken.as_varbinview().unwrap().bytes(0), Some(&vec![2, 3]));

    let money = DecimalDType { precision: 10, scale: 2 };
    let decimals = DecimalArray::new(money, vec![100, -250, 0], Validity::NonNullable);
    let taken = take_canonical(&Canonical::Decimal(decimals), &codes(&[Some(1), None]));
    assert_eq!(taken.dtype(), DType::Decimal(money, Nullability::Nullable));
    match taken {
        Canonical::Decimal(array) => assert_eq!((array.get(0), array.get(1)), (Some(-250), None)),
        _ => panic!("decimals stay decimals"),
    }

    let taken = take_canonical(&Canonical::Null(NullArray::new(3)), &picks);
    assert_eq!((taken.len(), taken.dtype()), (4, DType::Null));
}

#[test]
fn taking_keeps_nulls_of_the_values() {
    let values = Canonical::Primitive(PrimitiveArray::from_options(
        PType::I32,
        &vec![Some(1), None],
        Nullability::Nullable,
    ));
    let taken = take_canonical(&values, &codes(&[Some(1), Some(0)]));
    assert_eq!(options(&taken), vec![None, Some(1)]);
}

#[test]
fn taking_from_lists() -> Result<(), Error> {
    let list = |offsets: Vec<usize>, sizes: Vec<usize>, validity: Validity| {
        ListViewArray::try_new(numbers(&[1, 2, 3]), offsets, sizes, validity)
    };
    let array = Canonical::List(list(vec![0, 2], vec![2, 1], Validity::NonNullable)?);
    let picks = PrimitiveArray::new(PType::U8, vec![1, 0, 1], Validity::NonNullable);
    assert_eq!(
        take_canonical(&array, &picks),
        Canonical::List(list(vec![2, 0, 2], vec![1, 2, 1], Validity::NonNullable)?)
    );
    let taken = take_canonical(&array, &codes(&[None, Some(0)]));
    assert!(taken.is_null(0));
    assert!(!taken.is_null(1));

    let fixed = |offsets: Vec<usize>| {
        FixedSizeListArray::try_new(numbers(&[1, 2, 3, 4]), 2, offsets, Validity::NonNullable)
    };
    assert_eq!(
        take_canonical(&Canonical::FixedSizeList(fixed(vec![0, 2])?), &picks),
        Canonical::FixedSizeList(fixed(vec![2, 0, 2])?)
    );

    let maps = |offsets: Vec<usize>, sizes: Vec<usize>| {
        MapArray::try_new(
            Canonical::VarBinView(texts(&["x", "y", "z"])),
            numbers(&[1, 2, 3]),
            offsets,
            sizes,
            Validity::NonNullable,
        )
    };
    assert_eq!(
        take_canonical(&Canonical::Mapping(maps(vec![0, 1], vec![1, 2])?), &picks),
        Canonical::Mapping(maps(vec![1, 0, 1], vec![2, 1, 2])?)
    );
    Ok(())
}

#[test]
fn taking_from_structs_and_unions() -> Result<(), Error> {
    let names = || vec!["n".to_string(), "t".to_string()];
    let columns = || vec![numbers(&[1, 2]), Canonical::VarBinView(texts(&["one", "two"]))];
    let structs = StructArray::try_new(names(), columns(), 2, Validity::NonNullable)?;
    let taken = take_canonical(&Canonical::Struct(structs), &codes(&[Some(1), None]));
    assert!(taken.is_null(1));
    let field = taken.as_struct().unwrap().get_item(&"t".to_string()).unwrap();
    assert_eq!((text(&field, 0), text(&field, 1)), (Some("two".to_string()), None));
    assert!(taken.as_struct().unwrap().get_item(&"missing".to_string()).is_none());

    let unions = UnionArray::try_new(names(), columns(), vec![0, 1], Validity::NonNullable)?;
    let taken = take_canonical(&Canonical::Union(unions), &codes(&[Some(1), None, Some(0)]));
    assert_eq!(taken.len(), 3);
    assert!(taken.is_null(1));
    assert!(!taken.is_null(0));

    let empty = StructArray::try_new(
        names(),
        vec![numbers(&[]), Canonical::VarBinView(texts(&[]))],
        0,
        Validity::NonNullable,
    )?;
    let taken = take_canonical(&Canonical::Struct(empty), &codes(&[None, None]));
    assert_eq!(taken.len(), 2);
    assert!(taken.is_null(0) && taken.is_null(1));
    Ok(())
}

#[test]
fn taking_from_extensions_and_variants() -> Result<(), Error> {
    let picks = codes(&[Some(1), Some(1)]);
    let extension = ExtensionArray::new("date".to_string(), numbers(&[5, 6]));
    let taken = take_canonical(&Canonical::Extension(extension), &picks);
    assert_eq!(
        taken.dtype(),
        DType::Extension(
            "date".to_string(),
            Box::new(DType::Primitive(PType::I32, Nullability::Nullable))
        )
    );
    let variant = VariantArray::try_new(numbers(&[5, 6]), Some(numbers(&[7, 8])))?;
    let taken = take_canonical(&Canonical::Variant(variant), &picks);
    assert_eq!(taken.len(), 2);
    let picked = |values: &[i128]| {
        Canonical::Primitive(PrimitiveArray::from_options(
            PType::I32,
            &values.iter().map(|v| Some(*v)).collect(),
            Nullability::Nullable,
        ))
    };
    let expected = VariantArray::try_new(picked(&[6, 6]), Some(picked(&[8, 8])))?;
    assert_eq!(taken.dtype(), Canonical::Variant(expected).dtype());
    Ok(())
}

#[test]
fn parts_that_do_not_fit_are_refused() {
    let bad = Some(Error::InvalidArray);
    let numbers = || numbers(&[1, 2, 3]);
    let free = || Validity::NonNullable;
    assert_eq!(ListViewArray::try_new(numbers(), vec![2], vec![2], free()).err(), bad);
    assert_eq!(ListViewArray::try_new(numbers(), vec![0, 1], vec![1], free()).err(), bad);
    assert_eq!(
        ListViewArray::try_new(numbers(), vec![0], vec![1], Validity::Mask(vec![])).err(),
        bad
    );
    assert_eq!(FixedSizeListArray::try_new(numbers(), 2, vec![2], free()).err(), bad);
    let texts = Canonical::VarBinView(texts(&["only"]));
    assert_eq!(MapArray::try_new(numbers(), texts, vec![], vec![], free()).err(), bad);
    let names = vec!["a".to_string()];
    assert_eq!(StructArray::try_new(names.clone(), vec![numbers()], 2, free()).err(), bad);
    assert_eq!(StructArray::try_new(names.clone(), vec![], 0, free()).err(), bad);
    assert_eq!(UnionArray::try_new(names, vec![numbers()], vec![0], free()).err(), bad);
    let shorter = Canonical::Null(NullArray::new(1));
    assert_eq!(VariantArray::try_new(numbers(), Some(shorter)).err(), bad);
}

#[test]
fn constants_fill_their_rows() {
    let two = Scalar::primitive(PType::I32, 2, Nullability::NonNullable);
    assert_eq!(options(&Canonical::constant(&two, 3)), vec![Some(2); 3]);
    let null = Scalar::null(DType::Utf8(Nullability::Nullable));
    let nulls = Canonical::constant(&null, 2);
    assert_eq!((text(&nulls, 0), text(&nulls, 1)), (None, None));
    assert_eq!(nulls.dtype(), DType::Utf8(Nullability::Nullable));
}

#[test]
fn empty_arrays_have_every_type() {
    let i32_ = || DType::Primitive(PType::I32, Nullability::NonNullable);
    let types = vec![
        DType::Null,
        DType::Bool(Nullability::Nullable),
        i32_(),
        DType::Decimal(DecimalDType { precision: 3, scale: 1 }, Nullability::NonNullable),
        DType::Utf8(Nullability::NonNullable),
        DType::Binary(Nullability::Nullable),
        DType::List(Box::new(i32_()), Nullability::NonNullable),
        DType::FixedSizeList(Box::new(i32_()), 4, Nullability::Nullable),
        DType::Mapping(Box::new(i32_()), Box::new(DType::Null), Nullability::NonNullable),
        DType::Struct(vec![("a".to_string(), i32_())], Nullability::Nullable),
        DType::Union(vec![("a".to_string(), i32_())], Nullability::Nullable),
        DType::Extension("id".to_string(), Box::new(i32_())),
        DType::Variant(Nullability::Nullable),
    ];
    for dtype in types {
        let empty = Canonical::empty(&dtype);
        assert_eq!(empty.len(), 0);
        assert_eq!(empty.dtype(), dtype);
    }
}

#[test]
fn arrays_compare_row_by_row() {
    let left = numbers(&[1, 2, 3]);
    let right = numbers(&[3, 2, 1]);
    let compared = compare_arrays(CompareOperator::Lte, &left, &right);
    assert_eq!((compared.get(0), compared.get(1), compared.get(2)), (
        Some(true),
        Some(true),
        Some(false)
    ));
    let left = Canonical::VarBinView(texts(&["apple", "b"]));
    let right = Canonical::VarBinView(texts(&["apples", "a"]));
    let compared = compare_arrays(CompareOperator::Gt, &left, &right);
    assert_eq!((compared.get(0), compared.get(1)), (Some(false), Some(true)));
}

#[test]
fn floats_compare_by_value() {
    let float = |value: f64| Leaf::Float(PType::F64, value.to_bits() as i128);
    let less = |a: f64, b: f64| compare_rows(CompareOperator::Lt, &float(a), &float(b));
    assert_eq!(less(1.5, 2.5), Some(true));
    assert_eq!(less(-1.0, 1.0), Some(true));
    assert_eq!(less(-1.0, -2.0), Some(false));
    assert_eq!(less(1.0, f64::INFINITY), Some(true));
    assert_eq!(compare_rows(CompareOperator::Eq, &float(0.5), &float(0.5)), Some(true));
    assert_eq!(compare_rows(CompareOperator::Eq, &float(0.5), &Leaf::Null), None);
}

#[test]
fn patterns_match() {
    let plain = LikeOptions::default();
    let like = |text: &str, pattern: &str| {
        like_rows(plain, &text.to_string(), &pattern.to_string())
    };
    assert!(like("hello", "hello%"));
    assert!(!like("help", "hello%"));
    assert!(like("help", "h_l_"));
    assert!(like("abcabc", "%bc"));
    assert!(like("", "%"));
    assert!(!like("", "_"));
    assert!(like("50%", "50\\%"));
    assert!(!like("50x", "50\\%"));
    assert!(!like("HELLO", "hello"));
    let folded = LikeOptions { negated: false, case_insensitive: true };
    assert!(like_rows(folded, &"HELLO".to_string(), &"hel%".to_string()));
    let array = like_arrays(
        LikeOptions { negated: true, case_insensitive: false },
        &texts(&["a", "b"]),
        &texts(&["a", "a"]),
    );
    assert_eq!((array.get(0), array.get(1)), (Some(false), Some(true)));
}

#[test]
fn scalars_read_as_text() {
    let free = Nullability::NonNullable;
    assert_eq!(Scalar::bool(false, free).display(), "false");
    assert_eq!(Scalar::null(DType::Null).display(), "null");
    assert_eq!(Scalar::binary(vec![1, 255], free).display(), "[1, 255]");
    let money = DecimalDType { precision: 10, scale: 2 };
    assert_eq!(Scalar::decimal(money, -125, free).display(), "decimal(-125, 10, 2)");
    let bits = 1.5f64.to_bits() as i128;
    assert_eq!(
        Scalar::primitive(PType::F64, bits, free).display(),
        format!("f64::from_bits({bits})")
    );
}

#[test]
fn taking_twice_is_taking_once() {
    let values = numbers(&[10, 20, 30]);
    let first = codes(&[Some(2), None, Some(1)]);
    let second = codes(&[Some(1), Some(0), Some(2), None]);
    let twice = take_canonical(&take_canonical(&values, &first), &second);
    let merged = take_canonical(&Canonical::Primitive(first), &second);
    let once = take_canonical(&values, merged.as_primitive().unwrap());
    assert_eq!(options(&twice), vec![None, Some(30), Some(20), None]);
    assert_eq!(options(&once), options(&twice));
    assert_eq!(once.dtype(), twice.dtype());
}

#[test]
fn taking_every_row_changes_nothing() {
    let values = numbers(&[10, 20, 30]);
    let every = PrimitiveArray::new(PType::U64, vec![0, 1, 2], Validity::NonNullable);
    let taken = take_canonical(&values, &every);
    assert_eq!(options(&taken), options(&values));
    assert_eq!(taken.dtype(), values.dtype());
}
