//! Error type for database operations.
use vstd::prelude::*;
use vstd::string::StringExecFns;

verus! {

/// Every error that a database operation reports. Errors that come from I/O,
/// binary serialization or JSON carry the text of the underlying error.
#[derive(Debug, Clone)]
pub enum AsterError {
    Io { message: String },
    Serialization { message: String },
    Json { message: String },
    Storage { message: String },
    Transaction { message: String },
    VertexNotFound { id: String },
    EdgeNotFound { id: String },
    InvalidOperation { message: String },
    Conflict { message: String },
    Configuration { message: String },
    Internal { message: String },
    Timeout { message: String },
    Recovery { message: String },
    Corruption { message: String },
}

/// The kinds of error, without their text.
#[derive(PartialEq, Eq, Structural, Clone, Copy, Debug)]
pub enum ErrorKind {
    Io,
    Serialization,
    Json,
    Storage,
    Transaction,
    VertexNotFound,
    EdgeNotFound,
    InvalidOperation,
    Conflict,
    Configuration,
    Internal,
    Timeout,
    Recovery,
    Corruption,
}

impl AsterError {
    /// The kind of this error.
    pub open spec fn spec_kind(&self) -> ErrorKind {
        match self {
            AsterError::Io { .. } => ErrorKind::Io,
            AsterError::Serialization { .. } => ErrorKind::Serialization,
            AsterError::Json { .. } => ErrorKind::Json,
            AsterError::Storage { .. } => ErrorKind::Storage,
            AsterError::Transaction { .. } => ErrorKind::Transaction,
            AsterError::VertexNotFound { .. } => ErrorKind::VertexNotFound,
            AsterError::EdgeNotFound { .. } => ErrorKind::EdgeNotFound,
            AsterError::InvalidOperation { .. } => ErrorKind::InvalidOperation,
            AsterError::Conflict { .. } => ErrorKind::Conflict,
            AsterError::Configuration { .. } => ErrorKind::Configuration,
            AsterError::Internal { .. } => ErrorKind::Internal,
            AsterError::Timeout { .. } => ErrorKind::Timeout,
            AsterError::Recovery { .. } => ErrorKind::Recovery,
            AsterError::Corruption { .. } => ErrorKind::Corruption,
        }
    }

    /// The text this error carries (its message, or the id that was not found).
    pub open spec fn spec_text(&self) -> Seq<char> {
        match self {
            AsterError::Io { message } => message@,
            AsterError::Serialization { message } => message@,
            AsterError::Json { message } => message@,
            AsterError::Storage { message } => message@,
            AsterError::Transaction { message } => message@,
            AsterError::VertexNotFound { id } => id@,
            AsterError::EdgeNotFound { id } => id@,
            AsterError::InvalidOperation { message } => message@,
            AsterError::Conflict { message } => message@,
            AsterError::Configuration { message } => message@,
            AsterError::Internal { message } => message@,
            AsterError::Timeout { message } => message@,
            AsterError::Recovery { message } => message@,
            AsterError::Corruption { message } => message@,
        }
    }

    pub fn kind(&self) -> (r: ErrorKind)
        ensures
            r == self.spec_kind(),
    {
        match self {
            AsterError::Io { .. } => ErrorKind::Io,
            AsterError::Serialization { .. } => ErrorKind::Serialization,
            AsterError::Json { .. } => ErrorKind::Json,
            AsterError::Storage { .. } => ErrorKind::Storage,
            AsterError::Transaction { .. } => ErrorKind::Transaction,
            AsterError::VertexNotFound { .. } => ErrorKind::VertexNotFound,
            AsterError::EdgeNotFound { .. } => ErrorKind::EdgeNotFound,
            AsterError::InvalidOperation { .. } => ErrorKind::InvalidOperation,
            AsterError::Conflict { .. } => ErrorKind::Conflict,
            AsterError::Configuration { .. } => ErrorKind::Configuration,
            AsterError::Internal { .. } => ErrorKind::Internal,
            AsterError::Timeout { .. } => ErrorKind::Timeout,
            AsterError::Recovery { .. } => ErrorKind::Recovery,
            AsterError::Corruption { .. } => ErrorKind::Corruption,
        }
    }

    /// An I/O error with the given text.
    pub fn io(message: &str) -> (r: AsterError)
        ensures
            r.spec_kind() == ErrorKind::Io,
            r.spec_text() == message@,
    {
        AsterError::Io { message: message.to_owned() }
    }

    /// A storage error.
    pub fn storage(message: &str) -> (r: AsterError)
        ensures
            r.spec_kind() == ErrorKind::Storage,
            r.spec_text() == message@,
    {
        AsterError::Storage { message: message.to_owned() }
    }

    /// A transaction error.
    pub fn transaction(message: &str) -> (r: AsterError)
        ensures
            r.spec_kind() == ErrorKind::Transaction,
            r.spec_text() == message@,
    {
        AsterError::Transaction { message: message.to_owned() }
    }

    /// An invalid-operation error.
    pub fn invalid_operation(message: &str) -> (r: AsterError)
        ensures
            r.spec_kind() == ErrorKind::InvalidOperation,
            r.spec_text() == message@,
    {
        AsterError::InvalidOperation { message: message.to_owned() }
    }

    /// A conflict error.
    pub fn conflict(message: &str) -> (r: AsterError)
        ensures
            r.spec_kind() == ErrorKind::Conflict,
            r.spec_text() == message@,
    {
        AsterError::Conflict { message: message.to_owned() }
    }

    /// A configuration error.
    pub fn configuration(message: &str) -> (r: AsterError)
        ensures
            r.spec_kind() == ErrorKind::Configuration,
            r.spec_text() == message@,
    {
        AsterError::Configuration { message: message.to_owned() }
    }

    /// An internal error.
    pub fn internal(message: &str) -> (r: AsterError)
        ensures
            r.spec_kind() == ErrorKind::Internal,
            r.spec_text() == message@,
    {
        AsterError::Internal { message: message.to_owned() }
    }

    /// A timeout error.
    pub fn timeout(message: &str) -> (r: AsterError)
        ensures
            r.spec_kind() == ErrorKind::Timeout,
            r.spec_text() == message@,
    {
        AsterError::Timeout { message: message.to_owned() }
    }

    /// A recovery error.
    pub fn recovery(message: &str) -> (r: AsterError)
        ensures
            r.spec_kind() == ErrorKind::Recovery,
            r.spec_text() == message@,
    {
        AsterError::Recovery { message: message.to_owned() }
    }

    /// A corruption error.
    pub fn corruption(message: &str) -> (r: AsterError)
        ensures
            r.spec_kind() == ErrorKind::Corruption,
            r.spec_text() == message@,
    {
        AsterError::Corruption { message: message.to_owned() }
    }

    /// An invalid-operation error whose message is the given characters.
    pub fn invalid_operation_chars(message: &Vec<char>) -> (r: AsterError)
        ensures
            r.spec_kind() == ErrorKind::InvalidOperation,
            r.spec_text() == message@,
    {
        AsterError::InvalidOperation { message: crate::text::string_from_chars(message) }
    }
}

/// The prefix that the display text of an error of kind `k` starts with.
pub open spec fn kind_prefix(k: ErrorKind) -> Seq<char> {
    match k {
        ErrorKind::Io => "I/O error: "@,
        ErrorKind::Serialization => "Serialization error: "@,
        ErrorKind::Json => "JSON error: "@,
        ErrorKind::Storage => "Storage error: "@,
        ErrorKind::Transaction => "Transaction error: "@,
        ErrorKind::VertexNotFound => "Vertex not found: "@,
        ErrorKind::EdgeNotFound => "Edge not found: "@,
        ErrorKind::InvalidOperation => "Invalid operation: "@,
        ErrorKind::Conflict => "Conflict detected: "@,
        ErrorKind::Configuration => "Configuration error: "@,
        ErrorKind::Internal => "Internal error: "@,
        ErrorKind::Timeout => "Timeout: "@,
        ErrorKind::Recovery => "Recovery error: "@,
        ErrorKind::Corruption => "Corruption detected: "@,
    }
}

fn prefix_of(k: ErrorKind) -> (r: &'static str)
    ensures
        r@ == kind_prefix(k),
{
    match k {
        ErrorKind::Io => "I/O error: ",
        ErrorKind::Serialization => "Serialization error: ",
        ErrorKind::Json => "JSON error: ",
        ErrorKind::Storage => "Storage error: ",
        ErrorKind::Transaction => "Transaction error: ",
        ErrorKind::VertexNotFound => "Vertex not found: ",
        ErrorKind::EdgeNotFound => "Edge not found: ",
        ErrorKind::InvalidOperation => "Invalid operation: ",
        ErrorKind::Conflict => "Conflict detected: ",
        ErrorKind::Configuration => "Configuration error: ",
        ErrorKind::Internal => "Internal error: ",
        ErrorKind::Timeout => "Timeout: ",
        ErrorKind::Recovery => "Recovery error: ",
        ErrorKind::Corruption => "Corruption detected: ",
    }
}

/// The name under which the HTTP interface reports an error of kind `k`.
pub open spec fn kind_type_name(k: ErrorKind) -> Seq<char> {
    match k {
        ErrorKind::Io => "IoError"@,
        ErrorKind::Serialization => "SerializationError"@,
        ErrorKind::Json => "JsonError"@,
        ErrorKind::Storage => "StorageError"@,
        ErrorKind::Transaction => "TransactionError"@,
        ErrorKind::VertexNotFound => "VertexNotFoundError"@,
        ErrorKind::EdgeNotFound => "EdgeNotFoundError"@,
        ErrorKind::InvalidOperation => "InvalidOperationError"@,
        ErrorKind::Conflict => "ConflictError"@,
        ErrorKind::Configuration => "ConfigurationError"@,
        ErrorKind::Internal => "InternalError"@,
        ErrorKind::Timeout => "TimeoutError"@,
        ErrorKind::Recovery => "RecoveryError"@,
        ErrorKind::Corruption => "CorruptionError"@,
    }
}

impl AsterError {
    /// The display text of this error: its kind's prefix followed by its text.
    pub fn to_string(&self) -> (r: String)
        ensures
            r@ == kind_prefix(self.spec_kind()) + self.spec_text(),
    {
        let text: &String = match self {
            AsterError::Io { message } => message,
            AsterError::Serialization { message } => message,
            AsterError::Json { message } => message,
            AsterError::Storage { message } => message,
            AsterError::Transaction { message } => message,
            AsterError::VertexNotFound { id } => id,
            AsterError::EdgeNotFound { id } => id,
            AsterError::InvalidOperation { message } => message,
            AsterError::Conflict { message } => message,
            AsterError::Configuration { message } => message,
            AsterError::Internal { message } => message,
            AsterError::Timeout { message } => message,
            AsterError::Recovery { message } => message,
            AsterError::Corruption { message } => message,
        };
        let p = String::from_str(prefix_of(self.kind()));
        p.concat(text.as_str())
    }

    /// The name under which the HTTP interface reports this error.
    pub fn error_type_label(&self) -> (r: &'static str)
        ensures
            r@ == kind_type_name(self.spec_kind()),
    {
        match self.kind() {
            ErrorKind::Io => "IoError",
            ErrorKind::Serialization => "SerializationError",
            ErrorKind::Json => "JsonError",
            ErrorKind::Storage => "StorageError",
            ErrorKind::Transaction => "TransactionError",
            ErrorKind::VertexNotFound => "VertexNotFoundError",
            ErrorKind::EdgeNotFound => "EdgeNotFoundError",
            ErrorKind::InvalidOperation => "InvalidOperationError",
            ErrorKind::Conflict => "ConflictError",
            ErrorKind::Configuration => "ConfigurationError",
            ErrorKind::Internal => "InternalError",
            ErrorKind::Timeout => "TimeoutError",
            ErrorKind::Recovery => "RecoveryError",
            ErrorKind::Corruption => "CorruptionError",
        }
    }
}

/// The body that the HTTP interface sends for an error.
#[derive(Debug, Clone)]
pub struct ErrorResponse {
    pub error: String,
    pub error_type: String,
    pub details: Option<String>,
}

impl ErrorResponse {
    /// The response for `err`: its display text, its type name, and no details.
    pub fn from_error(err: &AsterError) -> (r: ErrorResponse)
        ensures
            r.error@ == kind_prefix(err.spec_kind()) + err.spec_text(),
            r.error_type@ == kind_type_name(err.spec_kind()),
            r.details is None,
    {
        ErrorResponse {
            error: err.to_string(),
            error_type: String::from_str(err.error_type_label()),
            details: None,
        }
    }
}


/// Turns the error of a result into a database error.
pub trait IntoAsterError<T> {
    fn into_aster_error(self) -> Result<T, AsterError>;
}

impl<T, E: Into<AsterError>> IntoAsterError<T> for Result<T, E> {
    /// The same success value, or the error converted by its `Into`.
    fn into_aster_error(self) -> (r: Result<T, AsterError>)
        ensures
            match self {
                Ok(v) => r == Ok::<T, AsterError>(v),
                Err(e) => r is Err && (<E as vstd::std_specs::convert::IntoSpec<AsterError>>::obeys_into_spec()
                    ==> r == Err::<T, AsterError>(<E as vstd::std_specs::convert::IntoSpec<AsterError>>::into_spec(e))),
            },
    {
        match self {
            Ok(v) => Ok(v),
            Err(e) => Err(e.into()),
        }
    }
}

} // verus!
