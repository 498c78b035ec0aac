use vstd::prelude::*;

verus! {

/// The classes of failure that the core reports to its callers.
#[derive(Debug, Clone, Copy, PartialEq, Eq, Structural)]
pub enum ErrorKind {
    BadRequest,
    Unauthorized,
    AuthRequired,
    Forbidden,
    NotFound,
    InvalidRange,
    RateLimited,
    Internal,
}

/// What an I/O operation on the tree reported, reduced to what the core distinguishes.
#[derive(Debug, Clone, Copy, PartialEq, Eq, Structural)]
pub enum IoFailure {
    NotFound,
    PermissionDenied,
    Other,
}

/// A typed error with a client-facing message.
#[derive(Debug)]
pub struct ApiError {
    pub kind: ErrorKind,
    pub message: String,
}

pub type ApiResult<T> = Result<T, ApiError>;

pub open spec fn status_of(kind: ErrorKind) -> u16 {
    match kind {
        ErrorKind::BadRequest => 400,
        ErrorKind::Unauthorized => 401,
        ErrorKind::AuthRequired => 401,
        ErrorKind::Forbidden => 403,
        ErrorKind::NotFound => 404,
        ErrorKind::InvalidRange => 416,
        ErrorKind::RateLimited => 429,
        ErrorKind::Internal => 500,
    }
}

/// The machine-readable code of each kind.
pub open spec fn code_of(kind: ErrorKind) -> &'static str {
    match kind {
        ErrorKind::BadRequest => "BAD_REQUEST",
        ErrorKind::Unauthorized => "UNAUTHORIZED",
        ErrorKind::AuthRequired => "AUTH_REQUIRED",
        ErrorKind::Forbidden => "FORBIDDEN",
        ErrorKind::NotFound => "NOT_FOUND",
        ErrorKind::InvalidRange => "INVALID_RANGE",
        ErrorKind::RateLimited => "RATE_LIMITED",
        ErrorKind::Internal => "INTERNAL_ERROR",
    }
}

/// The kind of error that an I/O failure maps to.
pub open spec fn io_kind(f: IoFailure) -> ErrorKind {
    match f {
        IoFailure::NotFound => ErrorKind::NotFound,
        IoFailure::PermissionDenied => ErrorKind::Forbidden,
        IoFailure::Other => ErrorKind::Internal,
    }
}

impl ApiError {
    pub fn bad_request(message: String) -> (r: Self)
        ensures
            r.kind == ErrorKind::BadRequest,
            r.message@ == message@,
    {
        ApiError { kind: ErrorKind::BadRequest, message }
    }

    pub fn unauthorized(message: String) -> (r: Self)
        ensures
            r.kind == ErrorKind::Unauthorized,
            r.message@ == message@,
    {
        ApiError { kind: ErrorKind::Unauthorized, message }
    }

    pub fn auth_required() -> (r: Self)
        ensures
            r.kind == ErrorKind::AuthRequired,
    {
        ApiError {
            kind: ErrorKind::AuthRequired,
            message: String::from_str("Authentication required for this path."),
        }
    }

    pub fn forbidden(message: String) -> (r: Self)
        ensures
            r.kind == ErrorKind::Forbidden,
            r.message@ == message@,
    {
        ApiError { kind: ErrorKind::Forbidden, message }
    }

    pub fn not_found(message: String) -> (r: Self)
        ensures
            r.kind == ErrorKind::NotFound,
            r.message@ == message@,
    {
        ApiError { kind: ErrorKind::NotFound, message }
    }

    pub fn invalid_range(message: String) -> (r: Self)
        ensures
            r.kind == ErrorKind::InvalidRange,
            r.message@ == message@,
    {
        ApiError { kind: ErrorKind::InvalidRange, message }
    }

    pub fn rate_limited(message: String) -> (r: Self)
        ensures
            r.kind == ErrorKind::RateLimited,
            r.message@ == message@,
    {
        ApiError { kind: ErrorKind::RateLimited, message }
    }

    pub fn internal(message: String) -> (r: Self)
        ensures
            r.kind == ErrorKind::Internal,
            r.message@ == message@,
    {
        ApiError { kind: ErrorKind::Internal, message }
    }

    /// Maps an I/O failure on `context` (a word such as "path" or "file") to an error.
    pub fn from_io(err: IoFailure, context: &str) -> (r: Self)
        ensures
            r.kind == io_kind(err),
    {
        match err {
            IoFailure::NotFound => {
                let m = String::from_str(context).concat(" not found.");
                ApiError::not_found(m)
            },
            IoFailure::PermissionDenied => {
                let m = String::from_str("Permission denied while accessing ").concat(
                    context,
                ).concat(".");
                ApiError::forbidden(m)
            },
            IoFailure::Other => {
                let m = String::from_str("Failed to access ").concat(context).concat(".");
                ApiError::internal(m)
            },
        }
    }

    /// The HTTP status code of this error.
    pub fn status(&self) -> (r: u16)
        ensures
            r == status_of(self.kind),
    {
        match self.kind {
            ErrorKind::BadRequest => 400,
            ErrorKind::Unauthorized => 401,
            ErrorKind::AuthRequired => 401,
            ErrorKind::Forbidden => 403,
            ErrorKind::NotFound => 404,
            ErrorKind::InvalidRange => 416,
            ErrorKind::RateLimited => 429,
            ErrorKind::Internal => 500,
        }
    }

    /// The machine-readable code of this error.
    pub fn code(&self) -> (r: &'static str)
        ensures
            r == code_of(self.kind),
    {
        match self.kind {
            ErrorKind::BadRequest => "BAD_REQUEST",
            ErrorKind::Unauthorized => "UNAUTHORIZED",
            ErrorKind::AuthRequired => "AUTH_REQUIRED",
            ErrorKind::Forbidden => "FORBIDDEN",
            ErrorKind::NotFound => "NOT_FOUND",
            ErrorKind::InvalidRange => "INVALID_RANGE",
            ErrorKind::RateLimited => "RATE_LIMITED",
            ErrorKind::Internal => "INTERNAL_ERROR",
        }
    }

    /// Whether this error is a fault of the server rather than of the request.
    pub fn is_server_error(&self) -> (r: bool)
        ensures
            r == (status_of(self.kind) >= 500),
    {
        self.status() >= 500
    }
}

} // verus!
