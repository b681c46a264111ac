//! Status and exception taxonomy: the outcome value carried by every fallible
//! operation of the layer.
//!
//! A `Status` is a plain value built from a transport-level `Code`, from an
//! application-level `Exception` (with an optional message), or from a
//! service-specific error number.  `is_ok` holds exactly of the unqualified
//! success value.

use vstd::prelude::*;

verus! {

/// Application-level (semantic) exception taxonomy.
#[derive(Copy, Clone, Debug, Ord, PartialOrd, Eq, PartialEq, Structural)]
pub enum Exception {
    NoException,
    Security,
    BadParcelable,
    IllegalArgument,
    NullPointer,
    IllegalState,
    NetworkMainThread,
    UnsupportedOperation,
    ServiceSpecific,
    Parcelable,
    TransactionFailed,
}

/// Raw wire number of an exception.
pub open spec fn spec_exception_raw(ex: Exception) -> int {
    match ex {
        Exception::NoException => 0,
        Exception::Security => -1,
        Exception::BadParcelable => -2,
        Exception::IllegalArgument => -3,
        Exception::NullPointer => -4,
        Exception::IllegalState => -5,
        Exception::NetworkMainThread => -6,
        Exception::UnsupportedOperation => -7,
        Exception::ServiceSpecific => -8,
        Exception::Parcelable => -9,
        Exception::TransactionFailed => -129,
    }
}

/// Exception denoted by a raw wire number; unknown numbers are treated as
/// `IllegalArgument`.
pub open spec fn spec_exception_from_raw(raw: int) -> Exception {
    if raw == 0 {
        Exception::NoException
    } else if raw == -1 {
        Exception::Security
    } else if raw == -2 {
        Exception::BadParcelable
    } else if raw == -3 {
        Exception::IllegalArgument
    } else if raw == -4 {
        Exception::NullPointer
    } else if raw == -5 {
        Exception::IllegalState
    } else if raw == -6 {
        Exception::NetworkMainThread
    } else if raw == -7 {
        Exception::UnsupportedOperation
    } else if raw == -8 {
        Exception::ServiceSpecific
    } else if raw == -9 {
        Exception::Parcelable
    } else if raw == -129 {
        Exception::TransactionFailed
    } else {
        Exception::IllegalArgument
    }
}

/// Decoding a raw exception number inverts encoding one.
pub proof fn lemma_exception_raw_round_trip(ex: Exception)
    ensures
        spec_exception_from_raw(spec_exception_raw(ex)) == ex,
{
}

impl Exception {
    /// Raw wire number of this exception, for a transport boundary.
    pub fn as_raw_exception(self) -> (r: i32)
        ensures
            r == spec_exception_raw(self),
    {
        match self {
            Exception::NoException => 0,
            Exception::Security => -1,
            Exception::BadParcelable => -2,
            Exception::IllegalArgument => -3,
            Exception::NullPointer => -4,
            Exception::IllegalState => -5,
            Exception::NetworkMainThread => -6,
            Exception::UnsupportedOperation => -7,
            Exception::ServiceSpecific => -8,
            Exception::Parcelable => -9,
            Exception::TransactionFailed => -129,
        }
    }

    /// Exception denoted by a raw wire number; unknown numbers are treated
    /// as `IllegalArgument`.
    pub fn from_raw_exception(raw: i32) -> (r: Exception)
        ensures
            r == spec_exception_from_raw(raw as int),
    {
        match raw {
            0 => Exception::NoException,
            -1 => Exception::Security,
            -2 => Exception::BadParcelable,
            -3 => Exception::IllegalArgument,
            -4 => Exception::NullPointer,
            -5 => Exception::IllegalState,
            -6 => Exception::NetworkMainThread,
            -7 => Exception::UnsupportedOperation,
            -8 => Exception::ServiceSpecific,
            -9 => Exception::Parcelable,
            -129 => Exception::TransactionFailed,
            _ => Exception::IllegalArgument,
        }
    }
}

/// Transport-level (transaction) status taxonomy.
#[derive(Copy, Clone, Debug, Ord, PartialOrd, Eq, PartialEq, Structural)]
pub enum Code {
    Success,
    UnknownError,
    NoMemory,
    InvalidOperation,
    BadValue,
    BadType,
    NameNotFound,
    PermissionDenied,
    NoInit,
    AlreadyExists,
    DeadObject,
    FailedTransaction,
    BadIndex,
    NotEnoughData,
    WouldBlock,
    TimedOut,
    UnknownTransaction,
    FdsNotAllowed,
    UnexpectedNull,
}

/// Raw wire number of a status code.
pub open spec fn spec_code_raw(code: Code) -> int {
    match code {
        Code::Success => 0,
        Code::UnknownError => (i32::MIN as int),
        Code::NoMemory => -12,
        Code::InvalidOperation => -38,
        Code::BadValue => -22,
        Code::BadType => (i32::MIN as int) + 1,
        Code::NameNotFound => -2,
        Code::PermissionDenied => -1,
        Code::NoInit => -19,
        Code::AlreadyExists => -17,
        Code::DeadObject => -32,
        Code::FailedTransaction => (i32::MIN as int) + 2,
        Code::BadIndex => -75,
        Code::NotEnoughData => -61,
        Code::WouldBlock => -11,
        Code::TimedOut => -110,
        Code::UnknownTransaction => -74,
        Code::FdsNotAllowed => (i32::MIN as int) + 7,
        Code::UnexpectedNull => (i32::MIN as int) + 8,
    }
}

/// Status code denoted by a raw wire number; unknown numbers are treated as
/// `UnknownError`.
pub open spec fn spec_code_from_raw(raw: int) -> Code {
    if raw == 0 {
        Code::Success
    } else if raw == (i32::MIN as int) {
        Code::UnknownError
    } else if raw == -12 {
        Code::NoMemory
    } else if raw == -38 {
        Code::InvalidOperation
    } else if raw == -22 {
        Code::BadValue
    } else if raw == (i32::MIN as int) + 1 {
        Code::BadType
    } else if raw == -2 {
        Code::NameNotFound
    } else if raw == -1 {
        Code::PermissionDenied
    } else if raw == -19 {
        Code::NoInit
    } else if raw == -17 {
        Code::AlreadyExists
    } else if raw == -32 {
        Code::DeadObject
    } else if raw == (i32::MIN as int) + 2 {
        Code::FailedTransaction
    } else if raw == -75 {
        Code::BadIndex
    } else if raw == -61 {
        Code::NotEnoughData
    } else if raw == -11 {
        Code::WouldBlock
    } else if raw == -110 {
        Code::TimedOut
    } else if raw == -74 {
        Code::UnknownTransaction
    } else if raw == (i32::MIN as int) + 7 {
        Code::FdsNotAllowed
    } else if raw == (i32::MIN as int) + 8 {
        Code::UnexpectedNull
    } else {
        Code::UnknownError
    }
}

/// Decoding a raw status number inverts encoding one.
pub proof fn lemma_code_raw_round_trip(code: Code)
    ensures
        spec_code_from_raw(spec_code_raw(code)) == code,
{
}

impl Code {
    /// Raw wire number of this status code, for a transport boundary.
    pub fn as_raw(&self) -> (r: i32)
        ensures
            r == spec_code_raw(*self),
    {
        match self {
            Code::Success => 0,
            Code::UnknownError => i32::MIN,
            Code::NoMemory => -12,
            Code::InvalidOperation => -38,
            Code::BadValue => -22,
            Code::BadType => i32::MIN + 1,
            Code::NameNotFound => -2,
            Code::PermissionDenied => -1,
            Code::NoInit => -19,
            Code::AlreadyExists => -17,
            Code::DeadObject => -32,
            Code::FailedTransaction => i32::MIN + 2,
            Code::BadIndex => -75,
            Code::NotEnoughData => -61,
            Code::WouldBlock => -11,
            Code::TimedOut => -110,
            Code::UnknownTransaction => -74,
            Code::FdsNotAllowed => i32::MIN + 7,
            Code::UnexpectedNull => i32::MIN + 8,
        }
    }

    /// Status code denoted by a raw wire number; unknown numbers are treated
    /// as `UnknownError`.
    pub fn from_raw(raw: i32) -> (r: Code)
        ensures
            r == spec_code_from_raw(raw as int),
    {
        if raw == 0 {
            Code::Success
        } else if raw == i32::MIN {
            Code::UnknownError
        } else if raw == -12 {
            Code::NoMemory
        } else if raw == -38 {
            Code::InvalidOperation
        } else if raw == -22 {
            Code::BadValue
        } else if raw == i32::MIN + 1 {
            Code::BadType
        } else if raw == -2 {
            Code::NameNotFound
        } else if raw == -1 {
            Code::PermissionDenied
        } else if raw == -19 {
            Code::NoInit
        } else if raw == -17 {
            Code::AlreadyExists
        } else if raw == -32 {
            Code::DeadObject
        } else if raw == i32::MIN + 2 {
            Code::FailedTransaction
        } else if raw == -75 {
            Code::BadIndex
        } else if raw == -61 {
            Code::NotEnoughData
        } else if raw == -11 {
            Code::WouldBlock
        } else if raw == -110 {
            Code::TimedOut
        } else if raw == -74 {
            Code::UnknownTransaction
        } else if raw == i32::MIN + 7 {
            Code::FdsNotAllowed
        } else if raw == i32::MIN + 8 {
            Code::UnexpectedNull
        } else {
            Code::UnknownError
        }
    }
}

/// Error returned when a message handed to a `Status` constructor contains an
/// embedded nul character.
#[derive(Copy, Clone, Debug, Eq, PartialEq, Structural)]
pub struct NulError {
    /// Index, in the message's character sequence, of the first nul.
    pub nul_position: usize,
}

/// Abstract value of a `Status`.
pub ghost struct StatusView {
    pub code: Code,
    pub exception: Exception,
    pub message: Option<Seq<char>>,
    pub service_specific_error: i32,
}

impl StatusView {
    /// Shape every constructor establishes: the transport code is meaningful
    /// exactly for transaction failures, success carries no message, and the
    /// service-specific number is meaningful only for service errors.
    pub open spec fn wf(self) -> bool {
        &&& (self.exception == Exception::TransactionFailed) <==> (self.code != Code::Success)
        &&& (self.exception == Exception::NoException ==> self.message is None)
        &&& (self.exception != Exception::ServiceSpecific ==> self.service_specific_error == 0)
    }

    /// Unqualified success.
    pub open spec fn is_ok(self) -> bool {
        self.exception == Exception::NoException
    }
}

/// Abstract value of the status built from a bare transport code.
pub open spec fn spec_status_of_code(code: Code) -> StatusView {
    StatusView {
        code,
        exception: if code == Code::Success {
            Exception::NoException
        } else {
            Exception::TransactionFailed
        },
        message: None,
        service_specific_error: 0,
    }
}

/// Abstract value of the status built from an exception and optional message.
/// A `TransactionFailed` exception is given the matching transport code; an
/// unqualified success keeps no message.
pub open spec fn spec_status_of_exception(ex: Exception, message: Option<Seq<char>>) -> StatusView {
    StatusView {
        code: if ex == Exception::TransactionFailed {
            Code::FailedTransaction
        } else {
            Code::Success
        },
        exception: ex,
        message: if ex == Exception::NoException {
            None
        } else {
            message
        },
        service_specific_error: 0,
    }
}

/// Abstract value of the status built from a service-specific error number.
pub open spec fn spec_status_of_service_error(error: i32, message: Option<Seq<char>>) -> StatusView {
    StatusView {
        code: Code::Success,
        exception: Exception::ServiceSpecific,
        message,
        service_specific_error: error,
    }
}

/// First nul character in a character sequence, if any.
pub open spec fn spec_first_nul(s: Seq<char>) -> Option<int> {
    if exists|i: int| 0 <= i < s.len() && s[i] == '\0' {
        Some(choose|i: int| 0 <= i < s.len() && s[i] == '\0' && (forall|j: int| 0 <= j < i ==> s[j] != '\0'))
    } else {
        None
    }
}

/// Outcome of any operation of this layer: unqualified success, a transport
/// error code, an exception (with optional message), or a service-specific
/// error.
#[derive(Debug)]
pub struct Status {
    code: Code,
    exception: Exception,
    message: Option<String>,
    service_specific_error: i32,
}

impl View for Status {
    type V = StatusView;

    closed spec fn view(&self) -> StatusView {
        StatusView {
            code: self.code,
            exception: self.exception,
            message: match self.message {
                Option::None => None,
                Option::Some(m) => Some(m@),
            },
            service_specific_error: self.service_specific_error,
        }
    }
}

impl DeepView for Status {
    type V = StatusView;

    open spec fn deep_view(&self) -> StatusView {
        self.view()
    }
}

/// Scan a message for an embedded nul character, returning the index of the
/// first one.
pub(crate) fn find_nul(msg: &str) -> (r: Option<usize>)
    ensures
        match r {
            Some(i) => {
                &&& 0 <= i < msg@.len()
                &&& msg@[i as int] == '\0'
                &&& forall|j: int| 0 <= j < i ==> msg@[j] != '\0'
            },
            None => forall|j: int| 0 <= j < msg@.len() ==> msg@[j] != '\0',
        },
{
    let n = msg.unicode_len();
    let mut i: usize = 0;
    while i < n
        invariant
            n == msg@.len(),
            0 <= i <= n,
            forall|j: int| 0 <= j < i ==> msg@[j] != '\0',
        decreases n - i,
    {
        if msg.get_char(i) == '\0' {
            return Some(i);
        }
        i += 1;
    }
    None
}

impl Status {
    /// The `BadValue` transport error.
    pub fn bad_value() -> (r: Status)
        ensures
            r@ == spec_status_of_code(Code::BadValue),
    {
        Status::with_code(Code::BadValue)
    }

    /// The `UnknownTransaction` transport error.
    pub fn unknown_transaction() -> (r: Status)
        ensures
            r@ == spec_status_of_code(Code::UnknownTransaction),
    {
        Status::with_code(Code::UnknownTransaction)
    }

    /// Build a status from a bare transport code; any code other than `Ok`
    /// marks the transaction as failed.
    pub fn with_code(code: Code) -> (r: Status)
        ensures
            r@ == spec_status_of_code(code),
    {
        Status {
            code,
            exception: if code == Code::Success {
                Exception::NoException
            } else {
                Exception::TransactionFailed
            },
            message: None,
            service_specific_error: 0,
        }
    }

    /// Build a status carrying a service-specific error number.
    pub fn with_service_specific_error(error: i32) -> (r: Status)
        ensures
            r@ == spec_status_of_service_error(error, None),
    {
        Status {
            code: Code::Success,
            exception: Exception::ServiceSpecific,
            message: None,
            service_specific_error: error,
        }
    }

    /// Build a status carrying a service-specific error number and a message;
    /// fails if the message contains an embedded nul character.
    pub fn with_service_specific_error_and_message(error: i32, msg: &str) -> (r: Result<
        Status,
        NulError,
    >)
        ensures
            match r {
                Ok(s) => {
                    &&& s@ == spec_status_of_service_error(error, Some(msg@))
                    &&& forall|j: int| 0 <= j < msg@.len() ==> msg@[j] != '\0'
                },
                Err(e) => {
                    &&& 0 <= e.nul_position < msg@.len()
                    &&& msg@[e.nul_position as int] == '\0'
                    &&& forall|j: int| 0 <= j < e.nul_position ==> msg@[j] != '\0'
                },
            },
    {
        match find_nul(msg) {
            Some(i) => Err(NulError { nul_position: i }),
            None => Ok(
                Status {
                    code: Code::Success,
                    exception: Exception::ServiceSpecific,
                    message: Some(msg.to_owned()),
                    service_specific_error: error,
                },
            ),
        }
    }

    /// Build a status from an exception.
    pub fn with_exception(ex: Exception) -> (r: Status)
        ensures
            r@ == spec_status_of_exception(ex, None),
    {
        Status {
            code: if ex == Exception::TransactionFailed {
                Code::FailedTransaction
            } else {
                Code::Success
            },
            exception: ex,
            message: None,
            service_specific_error: 0,
        }
    }

    /// Build a status from an exception and a message; fails if the message
    /// contains an embedded nul character.  An unqualified success keeps no
    /// message.
    pub fn with_exception_and_message(ex: Exception, msg: &str) -> (r: Result<Status, NulError>)
        ensures
            match r {
                Ok(s) => {
                    &&& s@ == spec_status_of_exception(ex, Some(msg@))
                    &&& forall|j: int| 0 <= j < msg@.len() ==> msg@[j] != '\0'
                },
                Err(e) => {
                    &&& 0 <= e.nul_position < msg@.len()
                    &&& msg@[e.nul_position as int] == '\0'
                    &&& forall|j: int| 0 <= j < e.nul_position ==> msg@[j] != '\0'
                },
            },
    {
        match find_nul(msg) {
            Some(i) => Err(NulError { nul_position: i }),
            None => Ok(
                Status {
                    code: if ex == Exception::TransactionFailed {
                        Code::FailedTransaction
                    } else {
                        Code::Success
                    },
                    exception: ex,
                    message: if ex == Exception::NoException {
                        None
                    } else {
                        Some(msg.to_owned())
                    },
                    service_specific_error: 0,
                },
            ),
        }
    }

    /// Transport code of this status; `Ok` unless the transaction failed.
    pub fn get_code(&self) -> (r: Code)
        ensures
            r == self@.code,
    {
        self.code
    }

    /// Exception carried by this status.
    pub fn get_exception(&self) -> (r: Exception)
        ensures
            r == self@.exception,
    {
        self.exception
    }

    /// Service-specific error number; zero unless the exception is
    /// `ServiceSpecific`.
    pub fn get_service_specific_error(&self) -> (r: i32)
        ensures
            r == self@.service_specific_error,
    {
        self.service_specific_error
    }

    /// Message carried by this status, if any.  Stored messages are always
    /// valid text in this model, so no decoding failure can arise.
    pub fn get_message(&self) -> (r: Option<String>)
        ensures
            match self@.message {
                Some(m) => r matches Some(s) && s@ == m,
                None => r is None,
            },
    {
        match &self.message {
            Option::None => None,
            Option::Some(m) => Some(m.clone()),
        }
    }

    /// Whether this status is unqualified success.
    pub fn is_ok(&self) -> (r: bool)
        ensures
            r == self@.is_ok(),
    {
        match self.exception {
            Exception::NoException => true,
            _ => false,
        }
    }

    /// Normalize an outcome: return the computed success value if this status
    /// is success, otherwise return this status as the error.
    pub fn err<R, F: FnOnce() -> R>(self, or_value: F) -> (r: Result<R, Status>)
        requires
            self@.is_ok() ==> call_requires(or_value, ()),
        ensures
            self@.is_ok() ==> (r matches Ok(v) && call_ensures(or_value, (), v)),
            !self@.is_ok() ==> (r matches Err(e) && e == self),
    {
        if self.is_ok() {
            Ok(or_value())
        } else {
            Err(self)
        }
    }
}

impl Status {
    /// Assemble a status decoded from a parcel: an exception other than
    /// unqualified success, its message, and the service-specific error
    /// number.
    pub(crate) fn from_parts(exception: Exception, message: Option<String>, sse: i32) -> (r:
        Status)
        ensures
            r@ == (StatusView {
                code: if exception == Exception::TransactionFailed {
                    Code::FailedTransaction
                } else {
                    Code::Success
                },
                exception,
                message: message.deep_view(),
                service_specific_error: sse,
            }),
    {
        Status {
            code: if exception == Exception::TransactionFailed {
                Code::FailedTransaction
            } else {
                Code::Success
            },
            exception,
            message,
            service_specific_error: sse,
        }
    }
}

} // verus!
