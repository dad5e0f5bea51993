//! Status codes, the error every fallible call builds, and the per-thread
//! record of the last failure.

use vstd::prelude::*;
use vstd::string::StringExecFns;

verus! {

/// Fixed-width status code returned by fallible API functions.
pub type LiteParseStatus = u32;

/// The operation succeeded.
pub const LITEPARSE_STATUS_OK: u32 = 0;
/// A pointer, length, or input string was invalid.
pub const LITEPARSE_STATUS_INVALID_ARGUMENT: u32 = 1;
/// A configuration value was invalid.
pub const LITEPARSE_STATUS_INVALID_CONFIG: u32 = 2;
/// The document could not be opened, rendered, or parsed.
pub const LITEPARSE_STATUS_PARSE_ERROR: u32 = 3;
/// A result could not be serialized to JSON.
pub const LITEPARSE_STATUS_SERIALIZATION_ERROR: u32 = 4;
/// The asynchronous runtime could not be initialized.
pub const LITEPARSE_STATUS_RUNTIME_ERROR: u32 = 5;
/// The document is encrypted and the configured password did not open it.
pub const LITEPARSE_STATUS_PASSWORD_REQUIRED: u32 = 6;
/// A non-PDF source could not be converted.
pub const LITEPARSE_STATUS_CONVERSION_ERROR: u32 = 7;
/// OCR was required and could not be performed.
pub const LITEPARSE_STATUS_OCR_ERROR: u32 = 8;
/// The source could not be read from the filesystem.
pub const LITEPARSE_STATUS_IO_ERROR: u32 = 9;
/// A Rust panic was caught before it crossed the C ABI boundary.
pub const LITEPARSE_STATUS_PANIC: u32 = 255;

/// A failure: the status the C caller sees and the message stored for
/// `liteparse_last_error`.
#[derive(Debug)]
pub struct FfiError {
    pub status: u32,
    pub message: String,
}

pub type FfiResult<T> = Result<T, FfiError>;

impl FfiError {
    pub fn new(status: u32, message: String) -> (e: Self)
        ensures
            e.status == status,
            e.message@ == message@,
    {
        FfiError { status, message }
    }

    pub fn invalid_argument(message: String) -> (e: Self)
        ensures
            e.status == LITEPARSE_STATUS_INVALID_ARGUMENT,
            e.message@ == message@,
    {
        Self::new(LITEPARSE_STATUS_INVALID_ARGUMENT, message)
    }

    pub fn invalid_config(message: String) -> (e: Self)
        ensures
            e.status == LITEPARSE_STATUS_INVALID_CONFIG,
            e.message@ == message@,
    {
        Self::new(LITEPARSE_STATUS_INVALID_CONFIG, message)
    }

    /// A serialization failure carrying the serializer's own message.
    pub fn serialization(message: String) -> (e: Self)
        ensures
            e.status == LITEPARSE_STATUS_SERIALIZATION_ERROR,
            e.message@ == message@,
    {
        Self::new(LITEPARSE_STATUS_SERIALIZATION_ERROR, message)
    }

    /// The error for a failure of the parsing core, classified by kind.
    pub fn from_core(kind: CoreErrorKind, message: String) -> (e: Self)
        ensures
            e.status == core_status(kind),
            e.message@ == message@,
    {
        Self::new(status_of(kind), message)
    }
}

/// How the parsing core and the PDF layer classify a failure.
#[derive(Clone, Copy, Debug, PartialEq, Eq, Structural)]
pub enum CoreErrorKind {
    Config,
    Json,
    Conversion,
    Ocr,
    Io,
    PdfPasswordRequired,
    PdfFileNotFound,
    /// Any other PDF failure, unsupported security included: another
    /// password cannot fix it.
    PdfOther,
    Image,
    Other,
}

pub open spec fn core_status(kind: CoreErrorKind) -> u32 {
    match kind {
        CoreErrorKind::Config => LITEPARSE_STATUS_INVALID_CONFIG,
        CoreErrorKind::Json => LITEPARSE_STATUS_SERIALIZATION_ERROR,
        CoreErrorKind::Conversion => LITEPARSE_STATUS_CONVERSION_ERROR,
        CoreErrorKind::Ocr => LITEPARSE_STATUS_OCR_ERROR,
        CoreErrorKind::Io => LITEPARSE_STATUS_IO_ERROR,
        CoreErrorKind::PdfPasswordRequired => LITEPARSE_STATUS_PASSWORD_REQUIRED,
        CoreErrorKind::PdfFileNotFound => LITEPARSE_STATUS_IO_ERROR,
        CoreErrorKind::PdfOther => LITEPARSE_STATUS_PARSE_ERROR,
        CoreErrorKind::Image => LITEPARSE_STATUS_PARSE_ERROR,
        CoreErrorKind::Other => LITEPARSE_STATUS_PARSE_ERROR,
    }
}

pub fn status_of(kind: CoreErrorKind) -> (s: u32)
    ensures
        s == core_status(kind),
{
    match kind {
        CoreErrorKind::Config => LITEPARSE_STATUS_INVALID_CONFIG,
        CoreErrorKind::Json => LITEPARSE_STATUS_SERIALIZATION_ERROR,
        CoreErrorKind::Conversion => LITEPARSE_STATUS_CONVERSION_ERROR,
        CoreErrorKind::Ocr => LITEPARSE_STATUS_OCR_ERROR,
        CoreErrorKind::Io => LITEPARSE_STATUS_IO_ERROR,
        CoreErrorKind::PdfPasswordRequired => LITEPARSE_STATUS_PASSWORD_REQUIRED,
        CoreErrorKind::PdfFileNotFound => LITEPARSE_STATUS_IO_ERROR,
        CoreErrorKind::PdfOther | CoreErrorKind::Image | CoreErrorKind::Other => {
            LITEPARSE_STATUS_PARSE_ERROR
        },
    }
}

pub open spec fn panic_text(as_str: Option<Seq<char>>, as_string: Option<Seq<char>>) -> Seq<char> {
    match as_str {
        Some(s) => s,
        None => match as_string {
            Some(s) => s,
            None => "non-string panic payload"@,
        },
    }
}

/// The message of a caught panic: its payload when that is a `&str` or a
/// `String` (looked at in that order), else a fixed description.
pub fn panic_message(as_str: Option<&str>, as_string: Option<String>) -> (m: String)
    ensures
        m@ == panic_text(
            match as_str {
                Some(s) => Some(s@),
                None => None,
            },
            match as_string {
                Some(s) => Some(s@),
                None => None,
            },
        ),
{
    match as_str {
        Some(s) => String::from_str(s),
        None => match as_string {
            Some(s) => s,
            None => String::from_str("non-string panic payload"),
        },
    }
}

/// The error a caught panic becomes.
pub fn panic_error(message: &str) -> (e: FfiError)
    ensures
        e.status == LITEPARSE_STATUS_PANIC,
        e.message@ == "Rust panic: "@ + message@,
{
    let mut text = String::from_str("Rust panic: ");
    text.append(message);
    FfiError::new(LITEPARSE_STATUS_PANIC, text)
}

/// The message of the most recent failure on one thread. Empty until the
/// first failure; each failure replaces it.
pub struct LastError {
    pub message: String,
}

impl LastError {
    pub fn new() -> (r: Self)
        ensures
            r.message@ == Seq::<char>::empty(),
    {
        LastError { message: String::new() }
    }

    /// Record `error` as the latest failure.
    pub fn store_error(&mut self, error: &FfiError)
        ensures
            final(self).message@ == error.message@,
    {
        self.message = error.message.clone();
    }

    /// The latest failure's message.
    pub fn last_error(&self) -> (m: &str)
        ensures
            m@ == self.message@,
    {
        self.message.as_str()
    }
}

/// How an operation run at the C boundary ended.
pub enum Outcome<T> {
    /// It returned, with its value or its error.
    Returned(FfiResult<T>),
    /// It panicked; the payload's message.
    Panicked(String),
}

/// The boundary's decision on an outcome: a value passes through; an error,
/// or a panic turned into a `LITEPARSE_STATUS_PANIC` error, is stored in
/// `last` and its status returned.
pub fn guard<T>(outcome: Outcome<T>, last: &mut LastError) -> (r: Result<T, u32>)
    ensures
        match outcome {
            Outcome::Returned(Ok(v)) => r == Ok::<T, u32>(v) && final(last).message@ == old(
                last,
            ).message@,
            Outcome::Returned(Err(e)) => r == Err::<T, u32>(e.status) && final(last).message@
                == e.message@,
            Outcome::Panicked(m) => r == Err::<T, u32>(LITEPARSE_STATUS_PANIC)
                && final(last).message@ == "Rust panic: "@ + m@,
        },
{
    let error = match outcome {
        Outcome::Returned(Ok(value)) => {
            return Ok(value);
        },
        Outcome::Returned(Err(error)) => error,
        Outcome::Panicked(message) => panic_error(message.as_str()),
    };
    last.store_error(&error);
    Err(error.status)
}

/// A status-only boundary: `LITEPARSE_STATUS_OK` on success.
pub fn boundary(outcome: Outcome<()>, last: &mut LastError) -> (s: u32)
    ensures
        match outcome {
            Outcome::Returned(Ok(_)) => s == LITEPARSE_STATUS_OK && final(last).message@ == old(
                last,
            ).message@,
            Outcome::Returned(Err(e)) => s == e.status && final(last).message@ == e.message@,
            Outcome::Panicked(m) => s == LITEPARSE_STATUS_PANIC && final(last).message@
                == "Rust panic: "@ + m@,
        },
{
    match guard(outcome, last) {
        Ok(()) => LITEPARSE_STATUS_OK,
        Err(status) => status,
    }
}

/// What work run on the shared async runtime gives back: its value, or,
/// when the runtime could not be built, a runtime error carrying the
/// builder's message.
pub fn runtime_result<T>(ran: Result<T, String>) -> (r: FfiResult<T>)
    ensures
        match ran {
            Ok(v) => r == Ok::<T, FfiError>(v),
            Err(m) => r matches Err(e) && e.status == LITEPARSE_STATUS_RUNTIME_ERROR && e.message@
                == "failed to create async runtime: "@ + m@,
        },
{
    match ran {
        Ok(value) => Ok(value),
        Err(error) => {
            let mut message = String::from_str("failed to create async runtime: ");
            message.append(error.as_str());
            Err(FfiError::new(LITEPARSE_STATUS_RUNTIME_ERROR, message))
        },
    }
}

} // verus!
