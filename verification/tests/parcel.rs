use ndk_binder::{Code, Parcel};

#[test]
fn parcel_basic() {
    let mut parcel = Parcel::new();

    parcel.write(&true).unwrap();
    parcel.write(&Some(vec![true, false, true])).unwrap();
    parcel.write(&false).unwrap();
    parcel.write(&(-7i8)).unwrap();
    parcel.write(&Some(vec![-1i8, 0, 127])).unwrap();
    parcel.write(&0x1234u16).unwrap();
    parcel.write(&Some(vec![0u16, 0xffff])).unwrap();
    parcel.write(&(-123456i32)).unwrap();
    parcel.write(&Some(vec![i32::MIN, -1, 0, i32::MAX])).unwrap();
    parcel.write(&(-99887766554433i64)).unwrap();
    parcel.write(&Some(vec![i64::MIN, i64::MAX])).unwrap();
    parcel.write(&Some("héllo wörld".to_string())).unwrap();
    parcel
        .write(&Some(vec![Some("a".to_string()), None, Some(String::new())]))
        .unwrap();
    parcel.write(&0xdeadbeefu32).unwrap();
    parcel.write(&Some(vec![0u32, u32::MAX])).unwrap();
    parcel.write(&0xfeedface12345678u64).unwrap();
    parcel.write(&Some(vec![0u64, u64::MAX])).unwrap();

    parcel.set_data_position(0).unwrap();

    assert_eq!(true, parcel.read::<bool>().unwrap());
    assert_eq!(
        Some(vec![true, false, true]),
        parcel.read::<Option<Vec<bool>>>().unwrap()
    );
    assert_eq!(false, parcel.read::<bool>().unwrap());
    assert_eq!(-7i8, parcel.read::<i8>().unwrap());
    assert_eq!(Some(vec![-1i8, 0, 127]), parcel.read::<Option<Vec<i8>>>().unwrap());
    assert_eq!(0x1234u16, parcel.read::<u16>().unwrap());
    assert_eq!(Some(vec![0u16, 0xffff]), parcel.read::<Option<Vec<u16>>>().unwrap());
    assert_eq!(-123456i32, parcel.read::<i32>().unwrap());
    assert_eq!(
        Some(vec![i32::MIN, -1, 0, i32::MAX]),
        parcel.read::<Option<Vec<i32>>>().unwrap()
    );
    assert_eq!(-99887766554433i64, parcel.read::<i64>().unwrap());
    assert_eq!(
        Some(vec![i64::MIN, i64::MAX]),
        parcel.read::<Option<Vec<i64>>>().unwrap()
    );
    assert_eq!(
        Some("héllo wörld".to_string()),
        parcel.read::<Option<String>>().unwrap()
    );
    assert_eq!(
        Some(vec![Some("a".to_string()), None, Some(String::new())]),
        parcel.read::<Option<Vec<Option<String>>>>().unwrap()
    );
    assert_eq!(0xdeadbeefu32, parcel.read::<u32>().unwrap());
    assert_eq!(Some(vec![0u32, u32::MAX]), parcel.read::<Option<Vec<u32>>>().unwrap());
    assert_eq!(0xfeedface12345678u64, parcel.read::<u64>().unwrap());
    assert_eq!(Some(vec![0u64, u64::MAX]), parcel.read::<Option<Vec<u64>>>().unwrap());
}

#[test]
fn parcel_absent_vs_empty() {
    let mut parcel = Parcel::new();

    parcel.write::<Option<Vec<i32>>>(&None).unwrap();
    parcel.write(&Some(Vec::<i32>::new())).unwrap();
    parcel.write::<Option<String>>(&None).unwrap();
    parcel.write(&Some(String::new())).unwrap();
    parcel.write::<Option<Vec<Option<String>>>>(&None).unwrap();
    parcel.write(&Some(Vec::<Option<String>>::new())).unwrap();

    parcel.set_data_position(0).unwrap();

    assert_eq!(None, parcel.read::<Option<Vec<i32>>>().unwrap());
    assert_eq!(Some(Vec::<i32>::new()), parcel.read::<Option<Vec<i32>>>().unwrap());
    assert_eq!(None, parcel.read::<Option<String>>().unwrap());
    assert_eq!(Some(String::new()), parcel.read::<Option<String>>().unwrap());
    assert_eq!(None, parcel.read::<Option<Vec<Option<String>>>>().unwrap());
    assert_eq!(
        Some(Vec::<Option<String>>::new()),
        parcel.read::<Option<Vec<Option<String>>>>().unwrap()
    );
}

#[test]
fn parcel_parcelable_array() {
    let data: Vec<Option<String>> = vec![
        Some("first".to_string()),
        None,
        Some(String::new()),
        Some("日本語".to_string()),
    ];

    let mut parcel = Parcel::new();
    parcel.write_array(Some(&data[..])).unwrap();
    parcel.write_array::<Option<String>>(None).unwrap();

    parcel.set_data_position(0).unwrap();

    assert_eq!(Some(data), parcel.read_array::<Option<String>>().unwrap());
    assert_eq!(None, parcel.read_array::<Option<String>>().unwrap());
}

#[test]
fn parcel_position_control() {
    let mut parcel = Parcel::new();
    parcel.write(&1u32).unwrap();
    parcel.write(&2u32).unwrap();
    assert_eq!(8, parcel.get_data_size());
    assert_eq!(8, parcel.get_data_position());

    assert!(matches!(parcel.set_data_position(9), Err(s) if s.get_code() == Code::BadValue));
    parcel.set_data_position(4).unwrap();
    assert_eq!(2, parcel.read::<u32>().unwrap());

    // an overwrite in the middle keeps the rest of the buffer
    parcel.set_data_position(0).unwrap();
    parcel.write(&7u16).unwrap();
    assert_eq!(8, parcel.get_data_size());
    parcel.set_data_position(4).unwrap();
    assert_eq!(2, parcel.read::<u32>().unwrap());

    parcel.reset();
    assert_eq!(0, parcel.get_data_size());
    assert_eq!(0, parcel.get_data_position());
}

#[test]
fn parcel_not_enough_data() {
    let mut parcel = Parcel::new();
    parcel.write(&1u16).unwrap();
    parcel.set_data_position(0).unwrap();
    assert!(matches!(
        parcel.read::<u32>(),
        Err(s) if s.get_code() == Code::NotEnoughData
    ));
    // the failed read leaves the position alone
    assert_eq!(0, parcel.get_data_position());
    assert_eq!(1, parcel.read::<u16>().unwrap());
}

#[test]
fn parcel_rejects_invalid_text() {
    let mut parcel = Parcel::new();
    // a present string of two bytes that are not valid UTF-8
    let raw: Vec<u8> = vec![2, 0, 0, 0, 0xff, 0xfe];
    parcel.unmarshal(&raw).unwrap();
    assert!(matches!(
        parcel.read::<Option<String>>(),
        Err(s) if s.get_code() == Code::BadValue
    ));
    assert_eq!(0, parcel.get_data_position());
}

#[test]
fn parcel_marshal_unmarshal() {
    let mut parcel = Parcel::new();
    parcel.write(&0xaabbccddu32).unwrap();
    parcel.write(&Some("abc".to_string())).unwrap();
    let size = parcel.get_data_size() as usize;

    let mut buffer = vec![0u8; size];
    parcel.marshal(&mut buffer, 0).unwrap();

    let mut short = vec![0u8; size - 1];
    assert!(matches!(
        parcel.marshal(&mut short, 0),
        Err(s) if s.get_code() == Code::BadValue
    ));

    let mut copy = Parcel::new();
    copy.unmarshal(&buffer).unwrap();
    assert_eq!(0xaabbccddu32, copy.read::<u32>().unwrap());
    assert_eq!(Some("abc".to_string()), copy.read::<Option<String>>().unwrap());
}

#[test]
fn parcel_append_from() {
    let mut src = Parcel::new();
    src.write(&5u32).unwrap();
    src.write(&6u32).unwrap();

    let mut dst = Parcel::new();
    dst.append_from(&src, 4, 4).unwrap();
    assert!(matches!(
        dst.append_from(&src, 4, 8),
        Err(s) if s.get_code() == Code::BadValue
    ));
    dst.set_data_position(0).unwrap();
    assert_eq!(6, dst.read::<u32>().unwrap());
}

#[test]
fn parcel_file_descriptor() {
    let mut parcel = Parcel::new();
    parcel.write_file_descriptor(Some(5)).unwrap();
    parcel.write_file_descriptor(None).unwrap();
    parcel.set_data_position(0).unwrap();
    assert_eq!(Some(5), parcel.read_file_descriptor().unwrap());
    assert_eq!(None, parcel.read_file_descriptor().unwrap());
}

#[test]
fn parcel_float_bit_patterns() {
    // floating-point values travel as their bit patterns
    let f: f32 = -1.5;
    let d: f64 = 1234.5625;
    let mut parcel = Parcel::new();
    parcel.write(&f.to_bits()).unwrap();
    parcel.write(&d.to_bits()).unwrap();
    parcel.set_data_position(0).unwrap();
    assert_eq!(f, f32::from_bits(parcel.read::<u32>().unwrap()));
    assert_eq!(d, f64::from_bits(parcel.read::<u64>().unwrap()));
}
