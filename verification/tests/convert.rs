use probing::convert::{EleExt, FromEle, ProtoError, ToEle};
use probing::ele::{Column, DataFrame, Ele, EleType, Real32, Real64, Value};

#[test]
fn test_from_ele_string() {
    assert_eq!(String::from_ele(&Ele::Text("hello".to_string())).unwrap(), "hello");
    assert_eq!(String::from_ele(&Ele::BOOL(true)).unwrap(), "True");
    assert_eq!(String::from_ele(&Ele::I32(42)).unwrap(), "42");
    assert_eq!(String::from_ele(&Ele::Nil).unwrap(), "nil");
}

#[test]
fn test_from_ele_i32() {
    assert_eq!(i32::from_ele(&Ele::I32(42)).unwrap(), 42);
    assert_eq!(i32::from_ele(&Ele::I64(42)).unwrap(), 42);
    assert!(i32::from_ele(&Ele::I64(i64::MAX)).is_err());
}

#[test]
fn test_ele_ext() {
    let ele = Ele::Text("test".to_string());
    assert_eq!(ele.as_str(), Some("test"));
    assert_eq!(ele.to_string_lossy(), "test");

    let ele = Ele::I64(42);
    assert_eq!(ele.as_i64(), Some(42));
    assert_eq!(ele.to_string_lossy(), "42");
}

#[test]
fn narrowing_succeeds_only_within_range() {
    assert_eq!(i64::from_ele(&Ele::I64(i64::MIN)), Ok(i64::MIN));
    assert_eq!(i64::from_ele(&Ele::I32(-7)), Ok(-7));
    assert_eq!(i32::from_ele(&Ele::I64(i32::MAX as i64)), Ok(i32::MAX));
    assert_eq!(i32::from_ele(&Ele::I64(i32::MIN as i64)), Ok(i32::MIN));
    assert_eq!(i32::from_ele(&Ele::I64(i32::MAX as i64 + 1)), Err(ProtoError::WrongElementType));
    assert_eq!(i32::from_ele(&Ele::I64(i32::MIN as i64 - 1)), Err(ProtoError::WrongElementType));
    assert_eq!(i32::from_ele(&Ele::Text("1".to_string())), Err(ProtoError::WrongElementType));
    assert_eq!(i64::from_ele(&Ele::BOOL(true)), Err(ProtoError::WrongElementType));
    assert_eq!(bool::from_ele(&Ele::BOOL(false)), Ok(false));
    assert_eq!(bool::from_ele(&Ele::I32(1)), Err(ProtoError::WrongElementType));
    assert_eq!(Option::<String>::from_ele(&Ele::Nil), Ok(None));
    assert_eq!(Option::<String>::from_ele(&Ele::I32(5)), Ok(Some("5".to_string())));
    let narrowed: Result<i32, ProtoError> = EleExt::try_into(&Ele::I64(12));
    assert_eq!(narrowed, Ok(12));
}

#[test]
fn numbers_render_in_decimal() {
    assert_eq!(Ele::I64(0).to_string_lossy(), "0");
    assert_eq!(Ele::I64(-1).to_string_lossy(), "-1");
    assert_eq!(Ele::I64(i64::MIN).to_string_lossy(), "-9223372036854775808");
    assert_eq!(Ele::I64(i64::MAX).to_string_lossy(), "9223372036854775807");
    assert_eq!(Ele::I32(i32::MIN).to_string_lossy(), "-2147483648");
    assert_eq!(Ele::I32(1000).to_text(), "1000");
    assert_eq!(Ele::I32(907).to_text(), "907");
}

#[test]
fn every_variant_has_its_text() {
    assert_eq!(Ele::Nil.to_text(), "nil");
    assert_eq!(Ele::BOOL(true).to_text(), "True");
    assert_eq!(Ele::BOOL(false).to_text(), "False");
    assert_eq!(Ele::Url("http://x/".to_string()).to_text(), "http://x/");
    assert_eq!(Ele::DataTime(0).to_text(), "1970-01-01T00:00:00+00:00");
    assert_eq!(Ele::DataTime(1_500_000).to_text(), "1970-01-01T00:00:01.500+00:00");
    assert_eq!(Ele::DataTime(1u64 << 63).to_text(), "9223372036854775808");
    let half = Real64 { bits: 0.5f64.to_bits(), text: 0.5f64.to_string() };
    assert_eq!(Ele::F64(half).to_text(), "0.5");
    let third = Real32 { bits: 0.25f32.to_bits(), text: 0.25f32.to_string() };
    assert_eq!(Ele::F32(third).to_text(), "0.25");
}

#[test]
fn native_values_become_elements() {
    assert_eq!(true.to_ele(), Ele::BOOL(true));
    assert_eq!(7i32.to_ele(), Ele::I32(7));
    assert_eq!(7i64.to_ele(), Ele::I64(7));
    assert_eq!("s".to_ele(), Ele::Text("s".to_string()));
    assert_eq!("s".to_string().to_ele(), Ele::Text("s".to_string()));
    assert_eq!(Ele::Nil.to_ele(), Ele::Nil);
    assert_eq!(Ele::I32(1).kind(), EleType::I32);
    assert_eq!(Ele::DataTime(1).kind(), EleType::DataTime);
    assert_eq!(Ele::BOOL(true).as_bool(), Some(true));
    assert_eq!(Ele::I32(3).as_i64(), Some(3));
    assert_eq!(Ele::Nil.as_i64(), None);
    assert_eq!(Ele::I32(3).as_str(), None);
}

#[test]
fn columns_hand_out_their_cells() {
    let col = Column::SeqI32(vec![1, 2, 3]);
    assert_eq!(col.len(), 3);
    assert!(!col.is_empty());
    assert_eq!(col.get(1), Ele::I32(2));
    assert_eq!(col.get(3), Ele::Nil);
    assert_eq!(Column::Nil.len(), 0);
    assert!(Column::Nil.is_empty());
    assert_eq!(Column::Nil.get(0), Ele::Nil);
    assert!(Column::SeqText(vec![]).is_empty());
    assert_eq!(Column::SeqText(vec!["a".to_string()]).get(0), Ele::Text("a".to_string()));
    assert_eq!(Column::SeqBOOL(vec![true]).get(0), Ele::BOOL(true));
    assert_eq!(Column::SeqDateTime(vec![9]).get(0), Ele::DataTime(9));
    assert_eq!(Column::SeqI64(vec![9]).get(0), Ele::I64(9));

    let frame = DataFrame::new(
        vec!["id".to_string(), "name".to_string()],
        vec![Column::SeqI32(vec![2, 3]), Column::SeqText(vec!["b".to_string()])],
    );
    assert_eq!(frame.rows(), 2);
    assert_eq!(DataFrame::new(vec![], vec![]).rows(), 0);
    assert_eq!(Value::default().id, 0);
}
