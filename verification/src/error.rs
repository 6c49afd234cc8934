use vstd::prelude::*;
use vstd::string::StringExecFns;

verus! {

/// The library's error taxonomy. `MissingId` and `ExistingUser` are
/// recoverable protocol conditions; `UninitializedUser` reports a missing
/// account record; `Server` and `Config` carry a diagnostic message for
/// faults of the surrounding service.
#[derive(Debug)]
pub enum Error {
    MissingId(String),
    ExistingUser(String),
    UninitializedUser(String),
    Server(String),
    Config(String),
}

/// Mathematical model of an error value.
pub enum ErrorView {
    MissingId(Seq<char>),
    ExistingUser(Seq<char>),
    UninitializedUser(Seq<char>),
    Server(Seq<char>),
    Config(Seq<char>),
}

impl View for Error {
    type V = ErrorView;

    open spec fn view(&self) -> ErrorView {
        match self {
            Error::MissingId(id) => ErrorView::MissingId(id@),
            Error::ExistingUser(alias) => ErrorView::ExistingUser(alias@),
            Error::UninitializedUser(alias) => ErrorView::UninitializedUser(alias@),
            Error::Server(message) => ErrorView::Server(message@),
            Error::Config(message) => ErrorView::Config(message@),
        }
    }
}

impl Error {
    /// A human-readable description of the error.
    pub fn message(&self) -> (r: String)
        ensures
            r@ == match self@ {
                ErrorView::MissingId(id) => "Missing credential with id: "@ + id,
                ErrorView::ExistingUser(alias) => "User with alias "@ + alias
                    + " already exists"@,
                ErrorView::UninitializedUser(alias) => "User with alias "@ + alias
                    + " is not initialized"@,
                ErrorView::Server(_) => "Internal server error"@,
                ErrorView::Config(_) => "Invalid server configuration"@,
            },
    {
        match self {
            Error::MissingId(id) => {
                let mut r = "Missing credential with id: ".to_owned();
                r.append(id.as_str());
                r
            },
            Error::ExistingUser(alias) => {
                let mut r = "User with alias ".to_owned();
                r.append(alias.as_str());
                r.append(" already exists");
                r
            },
            Error::UninitializedUser(alias) => {
                let mut r = "User with alias ".to_owned();
                r.append(alias.as_str());
                r.append(" is not initialized");
                r
            },
            Error::Server(_) => "Internal server error".to_owned(),
            Error::Config(_) => "Invalid server configuration".to_owned(),
        }
    }
}

/// A database-level error report.
#[derive(Debug)]
pub struct DbError {
    error: DbErrorType,
}

impl DbError {
    pub fn new(error: DbErrorType) -> Self {
        DbError { error }
    }

    /// A human-readable description of the error.
    pub fn message(&self) -> (r: String) {
        self.error.message()
    }
}

/// The kinds of database-level errors.
#[derive(Debug)]
pub enum DbErrorType {
    DuplicateId { id: String },
    Unknown { message: String },
}

impl DbErrorType {
    /// A human-readable description of the error kind.
    pub fn message(&self) -> (r: String)
        ensures
            r@ == match self {
                DbErrorType::DuplicateId { id } => "Duplicate id: "@ + id@,
                DbErrorType::Unknown { message } => message@,
            },
    {
        match self {
            DbErrorType::DuplicateId { id } => {
                let mut r = "Duplicate id: ".to_owned();
                r.append(id.as_str());
                r
            },
            DbErrorType::Unknown { message } => message.clone(),
        }
    }
}

} // verus!
