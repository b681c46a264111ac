use ndk_binder::{Code, Exception, Parcel, Status};

#[test]
fn parcel_status() {
    let mut parcel = Parcel::new();

    // a transport-error status is refused by the store, with its own code
    assert!(matches!(
        parcel.write(&Status::bad_value()),
        Err(s) if s.get_code() == Code::BadValue
    ));

    let msg = "argument out of range";
    parcel
        .write(&Status::with_exception_and_message(Exception::IllegalArgument, msg).unwrap())
        .unwrap();
    parcel.set_data_position(0).unwrap();
    let r_status: Status = parcel.read().unwrap();
    assert_eq!(r_status.get_exception(), Exception::IllegalArgument);
    assert_eq!(r_status.get_message().unwrap(), msg);

    let mut parcel = Parcel::new();
    let error: i32 = -77;
    let msg = "service rejected the request";
    parcel
        .write(&Status::with_service_specific_error_and_message(error, msg).unwrap())
        .unwrap();
    parcel.set_data_position(0).unwrap();
    let r_status: Status = parcel.read().unwrap();
    assert_eq!(r_status.get_service_specific_error(), error);
    assert_eq!(r_status.get_exception(), Exception::ServiceSpecific);
    assert_eq!(r_status.get_message().unwrap(), msg);
}

#[test]
fn status_ok_round_trip() {
    let mut parcel = Parcel::new();
    parcel.write(&Status::with_code(Code::Success)).unwrap();
    parcel.set_data_position(0).unwrap();
    let r: Status = parcel.read().unwrap();
    assert!(r.is_ok());
    assert_eq!(r.get_code(), Code::Success);
    assert_eq!(r.get_exception(), Exception::NoException);
    assert_eq!(r.get_message(), None);
}

#[test]
fn status_exception_round_trip_without_message() {
    let mut parcel = Parcel::new();
    parcel.write(&Status::with_exception(Exception::Security)).unwrap();
    parcel.set_data_position(0).unwrap();
    let r: Status = parcel.read().unwrap();
    assert!(!r.is_ok());
    assert_eq!(r.get_exception(), Exception::Security);
    assert_eq!(r.get_code(), Code::Success);
    assert_eq!(r.get_message(), None);
}

#[test]
fn status_constructors() {
    let ok = Status::with_code(Code::Success);
    assert!(ok.is_ok());
    assert_eq!(ok.get_exception(), Exception::NoException);

    let dead = Status::with_code(Code::DeadObject);
    assert!(!dead.is_ok());
    assert_eq!(dead.get_code(), Code::DeadObject);
    assert_eq!(dead.get_exception(), Exception::TransactionFailed);

    let unknown = Status::unknown_transaction();
    assert_eq!(unknown.get_code(), Code::UnknownTransaction);

    let tf = Status::with_exception(Exception::TransactionFailed);
    assert_eq!(tf.get_code(), Code::FailedTransaction);

    let sse = Status::with_service_specific_error(42);
    assert_eq!(sse.get_exception(), Exception::ServiceSpecific);
    assert_eq!(sse.get_service_specific_error(), 42);
    assert_eq!(sse.get_message(), None);
}

#[test]
fn status_rejects_embedded_nul() {
    let r = Status::with_exception_and_message(Exception::IllegalState, "ab\0cd");
    assert!(matches!(r, Err(e) if e.nul_position == 2));

    let r = Status::with_service_specific_error_and_message(1, "\0");
    assert!(matches!(r, Err(e) if e.nul_position == 0));
}

#[test]
fn status_err_combinator() {
    let ok = Status::with_code(Code::Success);
    assert!(matches!(ok.err(|| 7u32), Ok(7)));

    let bad = Status::bad_value();
    let r: Result<u32, Status> = bad.err(|| 7u32);
    assert!(matches!(r, Err(s) if s.get_code() == Code::BadValue));
}

#[test]
fn status_read_needs_data() {
    let mut parcel = Parcel::new();
    assert!(matches!(
        parcel.read::<Status>(),
        Err(s) if s.get_code() == Code::NotEnoughData
    ));
}

#[test]
fn raw_taxonomy_round_trip() {
    let codes = [
        Code::Success,
        Code::UnknownError,
        Code::NoMemory,
        Code::BadValue,
        Code::BadType,
        Code::DeadObject,
        Code::FailedTransaction,
        Code::NotEnoughData,
        Code::UnknownTransaction,
        Code::UnexpectedNull,
    ];
    for code in codes {
        assert_eq!(code, Code::from_raw(code.as_raw()));
    }
    assert_eq!(0, Code::Success.as_raw());
    assert_eq!(Code::UnknownError, Code::from_raw(12345));

    let exceptions = [
        Exception::NoException,
        Exception::Security,
        Exception::IllegalArgument,
        Exception::ServiceSpecific,
        Exception::TransactionFailed,
    ];
    for ex in exceptions {
        assert_eq!(ex, Exception::from_raw_exception(ex.as_raw_exception()));
    }
    assert_eq!(0, Exception::NoException.as_raw_exception());
    assert_eq!(-129, Exception::TransactionFailed.as_raw_exception());
    assert_eq!(Exception::IllegalArgument, Exception::from_raw_exception(99));
}
