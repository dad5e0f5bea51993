//! The opaque handles handed to C callers, and borrowed byte views: a C
//! array is an address and a length, with the empty array at address zero.

use vstd::prelude::*;
use vstd::string::StringExecFns;
use vstd::utf8::encode_utf8;
use crate::status::{FfiError, LITEPARSE_STATUS_INVALID_ARGUMENT};

verus! {

/// Calls `<[T]>::as_ptr` and reads the address as an integer. Nothing is
/// claimed of it: it is wherever the allocator put the items.
#[verifier::external_body]
pub(crate) fn slice_address<T>(items: &[T]) -> usize {
    items.as_ptr() as usize
}

/// The address of a slice as a C array; zero when it is empty.
pub fn array_ptr<T>(items: &[T]) -> (p: usize)
    ensures
        items@.len() == 0 ==> p == 0,
{
    if items.len() == 0 {
        0
    } else {
        slice_address(items)
    }
}

/// Borrowed, non-NUL-terminated bytes valid while their owner lives. Absent
/// and empty are both address zero with zero length.
#[derive(Clone, Copy, Debug, PartialEq, Eq, Structural)]
pub struct LiteParseByteView {
    pub ptr: usize,
    pub len: usize,
}

/// The absent view.
pub open spec fn empty_view() -> LiteParseByteView {
    LiteParseByteView { ptr: 0, len: 0 }
}

/// A view of `value`; empty bytes give the absent view.
pub fn bytes_view(value: &[u8]) -> (v: LiteParseByteView)
    ensures
        v.len == value@.len(),
        value@.len() == 0 ==> v == empty_view(),
{
    LiteParseByteView { ptr: array_ptr(value), len: value.len() }
}

/// A view of an optional string's UTF-8 bytes; absent gives the absent
/// view.
pub fn optional_str_view(value: Option<&str>) -> (v: LiteParseByteView)
    ensures
        match value {
            Some(s) => v.len == encode_utf8(s@).len() && (encode_utf8(s@).len() == 0 ==> v
                == empty_view()),
            None => v == empty_view(),
        },
{
    match value {
        Some(s) => bytes_view(s.as_bytes()),
        None => LiteParseByteView { ptr: 0, len: 0 },
    }
}

/// An opaque handle type: the name its messages use.
pub trait Opaque {
    spec fn handle_name() -> Seq<char>;

    fn name() -> (n: &'static str)
        ensures
            n@ == Self::handle_name(),
    ;
}

/// The error for a null handle of type `H`.
pub fn null_handle<H: Opaque>() -> (e: FfiError)
    ensures
        e.status == LITEPARSE_STATUS_INVALID_ARGUMENT,
        e.message@ == H::handle_name() + " must not be null"@,
{
    let mut message = String::from_str(H::name());
    message.append(" must not be null");
    FfiError::invalid_argument(message)
}

/// The error for a null out pointer where a handle of type `H` was to be
/// stored.
pub fn null_out<H: Opaque>() -> (e: FfiError)
    ensures
        e.status == LITEPARSE_STATUS_INVALID_ARGUMENT,
        e.message@ == "out pointer for "@ + H::handle_name() + " must not be null"@,
{
    let mut message = String::from_str("out pointer for ");
    message.append(H::name());
    message.append(" must not be null");
    FfiError::invalid_argument(message)
}

/// A parser built from a configuration.
pub struct LiteParseParser {
    _opaque: [u8; 0],
}

/// An opened document.
pub struct LiteParseDocument {
    _opaque: [u8; 0],
}

/// A parse result with its packed views.
pub struct LiteParseResult {
    _opaque: [u8; 0],
}

/// The matches of a text search over a result.
pub struct LiteParseSearchMatches {
    _opaque: [u8; 0],
}

/// Rendered page images.
pub struct LiteParseScreenshots {
    _opaque: [u8; 0],
}

/// Heuristic-free text runs.
pub struct LiteParseRawText {
    _opaque: [u8; 0],
}

/// Page objects as the PDF layer lists them.
pub struct LiteParsePageObjects {
    _opaque: [u8; 0],
}

/// Per-page complexity statistics.
pub struct LiteParseComplexity {
    _opaque: [u8; 0],
}

/// Where an OCR callback delivers its words.
pub struct LiteParseOcrSink {
    _opaque: [u8; 0],
}

impl Opaque for LiteParseParser {
    open spec fn handle_name() -> Seq<char> {
        "parser"@
    }

    fn name() -> (n: &'static str) {
        "parser"
    }
}

impl Opaque for LiteParseDocument {
    open spec fn handle_name() -> Seq<char> {
        "document"@
    }

    fn name() -> (n: &'static str) {
        "document"
    }
}

impl Opaque for LiteParseResult {
    open spec fn handle_name() -> Seq<char> {
        "result"@
    }

    fn name() -> (n: &'static str) {
        "result"
    }
}

impl Opaque for LiteParseSearchMatches {
    open spec fn handle_name() -> Seq<char> {
        "matches"@
    }

    fn name() -> (n: &'static str) {
        "matches"
    }
}

impl Opaque for LiteParseScreenshots {
    open spec fn handle_name() -> Seq<char> {
        "screenshots"@
    }

    fn name() -> (n: &'static str) {
        "screenshots"
    }
}

impl Opaque for LiteParseRawText {
    open spec fn handle_name() -> Seq<char> {
        "raw_text"@
    }

    fn name() -> (n: &'static str) {
        "raw_text"
    }
}

impl Opaque for LiteParsePageObjects {
    open spec fn handle_name() -> Seq<char> {
        "page_objects"@
    }

    fn name() -> (n: &'static str) {
        "page_objects"
    }
}

impl Opaque for LiteParseComplexity {
    open spec fn handle_name() -> Seq<char> {
        "complexity"@
    }

    fn name() -> (n: &'static str) {
        "complexity"
    }
}

impl Opaque for LiteParseOcrSink {
    open spec fn handle_name() -> Seq<char> {
        "sink"@
    }

    fn name() -> (n: &'static str) {
        "sink"
    }
}

} // verus!
