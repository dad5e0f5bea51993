//! Validation shared by every reader of caller-supplied records: flag
//! masks, `offset + count` ranges, single-precision values, and views.

use vstd::prelude::*;
use vstd::string::StringExecFns;
use vstd::utf8::{valid_utf8, decode_utf8};
use crate::status::{FfiError, FfiResult, LITEPARSE_STATUS_INVALID_ARGUMENT};
use crate::text::{decimal, label, label_of, push_decimal};

verus! {

/// Whether every bit of `flags` is one of `known`.
pub open spec fn only_known(flags: u32, known: u32) -> bool {
    flags & !known == 0
}

/// Reject `flags` holding a bit outside `known`.
pub fn known_flags(flags: u32, known: u32, where_: &str, field: &str) -> (r: FfiResult<()>)
    ensures
        r is Ok <==> only_known(flags, known),
        r matches Err(e) ==> e.status == LITEPARSE_STATUS_INVALID_ARGUMENT && e.message@
            == label_of(where_@, field@) + ".flags contains unknown bits"@,
{
    if flags & !known == 0 {
        Ok(())
    } else {
        let mut message = label(where_, field);
        message.append(".flags contains unknown bits");
        Err(FfiError::invalid_argument(message))
    }
}

/// Whether `offset + count` lies inside a slice of `len` entries; an empty
/// range always does.
pub open spec fn range_fits(offset: u32, count: u32, len: nat) -> bool {
    count == 0 || offset + count <= len
}

pub open spec fn range_message(
    where_: Seq<char>,
    field: Seq<char>,
    offset: u32,
    count: u32,
    len: nat,
) -> Seq<char> {
    where_ + "."@ + field + " range "@ + decimal(offset as nat) + "+"@ + decimal(count as nat)
        + " is outside 0.."@ + decimal(len)
}

/// The `offset + count` sub-slice of `all`. Zero-count ranges are always
/// valid.
pub fn sub<'a, T>(all: &'a [T], offset: u32, count: u32, where_: &str, field: &str) -> (r: FfiResult<
    &'a [T],
>)
    ensures
        r is Ok <==> range_fits(offset, count, all@.len()),
        r matches Ok(s) ==> s@ == (if count == 0 {
            Seq::<T>::empty()
        } else {
            all@.subrange(offset as int, offset + count)
        }),
        r matches Err(e) ==> e.status == LITEPARSE_STATUS_INVALID_ARGUMENT && e.message@
            == range_message(where_@, field@, offset, count, all@.len()),
{
    if count == 0 {
        let empty: &[T] = &all[0..0];
        return Ok(empty);
    }
    let start = offset as usize;
    if (count as usize) <= all.len() && start <= all.len() - count as usize {
        let end = start + count as usize;
        Ok(&all[start..end])
    } else {
        let mut message = String::from_str(where_);
        message.append(".");
        message.append(field);
        message.append(" range ");
        push_decimal(&mut message, offset as u64);
        message.append("+");
        push_decimal(&mut message, count as u64);
        message.append(" is outside 0..");
        push_decimal(&mut message, all.len() as u64);
        Err(FfiError::invalid_argument(message))
    }
}

// Single-precision values cross this layer as their IEEE 754 bit patterns
// (`f32::to_bits`): sign in bit 31, exponent in bits 23..31, fraction below.
/// Finite: the exponent is not all ones (infinity or NaN).
pub open spec fn f32_finite(bits: u32) -> bool {
    (bits >> 23u32) & 0xffu32 != 0xffu32
}

/// Zero of either sign.
pub open spec fn f32_zero(bits: u32) -> bool {
    bits & 0x7fff_ffffu32 == 0
}

/// Strictly positive, for a finite value.
pub open spec fn f32_positive(bits: u32) -> bool {
    bits & 0x8000_0000u32 == 0 && !f32_zero(bits)
}

/// Strictly negative, for a finite value.
pub open spec fn f32_negative(bits: u32) -> bool {
    bits & 0x8000_0000u32 != 0 && !f32_zero(bits)
}

pub fn is_finite(bits: u32) -> (r: bool)
    ensures
        r == f32_finite(bits),
{
    (bits >> 23u32) & 0xffu32 != 0xffu32
}

pub fn is_zero(bits: u32) -> (r: bool)
    ensures
        r == f32_zero(bits),
{
    bits & 0x7fff_ffffu32 == 0
}

pub fn is_positive(bits: u32) -> (r: bool)
    ensures
        r == f32_positive(bits),
{
    bits & 0x8000_0000u32 == 0 && bits & 0x7fff_ffffu32 != 0
}

pub fn is_negative(bits: u32) -> (r: bool)
    ensures
        r == f32_negative(bits),
{
    bits & 0x8000_0000u32 != 0 && bits & 0x7fff_ffffu32 != 0
}

pub open spec fn all_finite(values: Seq<u32>) -> bool {
    forall|i: int| 0 <= i < values.len() ==> f32_finite(#[trigger] values[i])
}

/// Reject any non-finite value among `values`.
pub fn finite(values: &[u32], where_: &str, field: &str) -> (r: FfiResult<()>)
    ensures
        r is Ok <==> all_finite(values@),
        r matches Err(e) ==> e.status == LITEPARSE_STATUS_INVALID_ARGUMENT && e.message@
            == label_of(where_@, field@) + " must be finite"@,
{
    let mut i: usize = 0;
    while i < values.len()
        invariant
            0 <= i <= values@.len(),
            forall|k: int| 0 <= k < i ==> f32_finite(#[trigger] values@[k]),
        decreases values@.len() - i,
    {
        if !is_finite(values[i]) {
            let mut message = label(where_, field);
            message.append(" must be finite");
            return Err(FfiError::invalid_argument(message));
        }
        i = i + 1;
    }
    Ok(())
}

/// A rectangle in top-left-origin 72-DPI viewport space; each coordinate is
/// the bit pattern of an `f32`.
#[derive(Clone, Copy, Debug, PartialEq, Eq, Structural)]
pub struct LiteParseRect {
    pub x: u32,
    pub y: u32,
    pub width: u32,
    pub height: u32,
}

pub open spec fn rect_finite(r: LiteParseRect) -> bool {
    f32_finite(r.x) && f32_finite(r.y) && f32_finite(r.width) && f32_finite(r.height)
}

pub fn finite_rect(rect: &LiteParseRect, where_: &str, field: &str) -> (r: FfiResult<()>)
    ensures
        r is Ok <==> rect_finite(*rect),
        r matches Err(e) ==> e.status == LITEPARSE_STATUS_INVALID_ARGUMENT && e.message@
            == label_of(where_@, field@) + " must be finite"@,
{
    if is_finite(rect.x) && is_finite(rect.y) && is_finite(rect.width) && is_finite(rect.height) {
        Ok(())
    } else {
        let mut message = label(where_, field);
        message.append(" must be finite");
        Err(FfiError::invalid_argument(message))
    }
}

/// An optional rectangle present when `bit` is set in `flags`; present
/// rectangles must be finite.
pub fn flagged_rect(flags: u32, bit: u32, rect: &LiteParseRect, where_: &str, field: &str) -> (r:
    FfiResult<Option<LiteParseRect>>)
    ensures
        r is Ok <==> (flags & bit == 0 || rect_finite(*rect)),
        r matches Ok(v) ==> v == (if flags & bit != 0 {
            Some(*rect)
        } else {
            None
        }),
        r matches Err(e) ==> e.status == LITEPARSE_STATUS_INVALID_ARGUMENT && e.message@
            == label_of(where_@, field@) + " must be finite"@,
{
    if flags & bit != 0 {
        match finite_rect(rect, where_, field) {
            Ok(()) => Ok(Some(*rect)),
            Err(e) => Err(e),
        }
    } else {
        Ok(None)
    }
}

/// A caller-supplied pointer and length, as the C boundary sees them: null
/// with a length, or the bytes it points at.
#[derive(Clone, Copy)]
pub enum RawView<'a> {
    Null { len: usize },
    Bytes(&'a [u8]),
}

/// The named result of `std::str::from_utf8`'s error text for bytes that
/// are not UTF-8.
pub uninterp spec fn utf8_error_text(bytes: Seq<u8>) -> Seq<char>;

/// Calls `std::str::from_utf8`. Its documentation: the bytes are accepted
/// exactly when they are valid UTF-8, and then denote the string they
/// encode; on failure the error's `Display` text is handed back.
#[verifier::external_body]
fn decode_utf8_text(bytes: &[u8]) -> (r: Result<String, String>)
    ensures
        r is Ok <==> valid_utf8(bytes@),
        r matches Ok(s) ==> s@ == decode_utf8(bytes@),
        r matches Err(m) ==> m@ == utf8_error_text(bytes@),
{
    match std::str::from_utf8(bytes) {
        Ok(text) => Ok(text.to_owned()),
        Err(error) => Err(error.to_string()),
    }
}

pub open spec fn view_len(view: RawView) -> nat {
    match view {
        RawView::Null { len } => len as nat,
        RawView::Bytes(b) => b@.len(),
    }
}

/// An optional UTF-8 string view: null is absent and must have length zero.
pub fn optional_view_str(view: RawView, name: &str) -> (r: FfiResult<Option<String>>)
    ensures
        match view {
            RawView::Null { len } => if len == 0 {
                r == Ok::<Option<String>, FfiError>(None)
            } else {
                r matches Err(e) && e.status == LITEPARSE_STATUS_INVALID_ARGUMENT && e.message@
                    == name@ + " must have length zero when its pointer is null"@
            },
            RawView::Bytes(b) => if valid_utf8(b@) {
                r matches Ok(Some(s)) && s@ == decode_utf8(b@)
            } else {
                r matches Err(e) && e.status == LITEPARSE_STATUS_INVALID_ARGUMENT && e.message@
                    == name@ + " is not valid UTF-8: "@ + utf8_error_text(b@)
            },
        },
{
    match view {
        RawView::Null { len } => {
            if len != 0 {
                let mut message = String::from_str(name);
                message.append(" must have length zero when its pointer is null");
                Err(FfiError::invalid_argument(message))
            } else {
                Ok(None)
            }
        },
        RawView::Bytes(bytes) => match decode_utf8_text(bytes) {
            Ok(text) => Ok(Some(text)),
            Err(error) => {
                let mut message = String::from_str(name);
                message.append(" is not valid UTF-8: ");
                message.append(error.as_str());
                Err(FfiError::invalid_argument(message))
            },
        },
    }
}

/// A required UTF-8 string view: null is an error.
pub fn required_view_str(view: RawView, name: &str) -> (r: FfiResult<String>)
    ensures
        match view {
            RawView::Null { len } => r matches Err(e) && e.status
                == LITEPARSE_STATUS_INVALID_ARGUMENT && e.message@ == (if len == 0 {
                name@ + " must not be null"@
            } else {
                name@ + " must have length zero when its pointer is null"@
            }),
            RawView::Bytes(b) => if valid_utf8(b@) {
                r matches Ok(s) && s@ == decode_utf8(b@)
            } else {
                r matches Err(e) && e.status == LITEPARSE_STATUS_INVALID_ARGUMENT && e.message@
                    == name@ + " is not valid UTF-8: "@ + utf8_error_text(b@)
            },
        },
{
    match optional_view_str(view, name) {
        Ok(Some(text)) => Ok(text),
        Ok(None) => {
            let mut message = String::from_str(name);
            message.append(" must not be null");
            Err(FfiError::invalid_argument(message))
        },
        Err(e) => Err(e),
    }
}

/// The length limit of a caller array of `len` elements of `elem_size`
/// bytes: the bytes must not exceed `isize::MAX`.
pub open spec fn array_len_ok(len: usize, elem_size: usize) -> bool {
    len <= (isize::MAX as usize) / (if elem_size == 0 {
        1usize
    } else {
        elem_size
    })
}

/// The checks `as_slice` makes on a caller array before borrowing it:
/// null is valid only with length zero (`Ok(false)`, nothing to read);
/// otherwise the length must stay under `isize::MAX` bytes (`Ok(true)`).
pub fn check_array(is_null: bool, len: usize, elem_size: usize, name: &str) -> (r: FfiResult<bool>)
    ensures
        is_null && len == 0 ==> r == Ok::<bool, FfiError>(false),
        is_null && len != 0 ==> (r matches Err(e) && e.status == LITEPARSE_STATUS_INVALID_ARGUMENT
            && e.message@ == name@ + " must not be null when "@ + name@ + "_len is non-zero"@),
        !is_null && array_len_ok(len, elem_size) ==> r == Ok::<bool, FfiError>(true),
        !is_null && !array_len_ok(len, elem_size) ==> (r matches Err(e) && e.status
            == LITEPARSE_STATUS_INVALID_ARGUMENT && e.message@ == name@
            + "_len must not exceed isize::MAX bytes"@),
{
    if is_null {
        if len != 0 {
            let mut message = String::from_str(name);
            message.append(" must not be null when ");
            message.append(name);
            message.append("_len is non-zero");
            return Err(FfiError::invalid_argument(message));
        }
        return Ok(false);
    }
    let size = if elem_size == 0 {
        1usize
    } else {
        elem_size
    };
    if len > (isize::MAX as usize) / size {
        let mut message = String::from_str(name);
        message.append("_len must not exceed isize::MAX bytes");
        return Err(FfiError::invalid_argument(message));
    }
    Ok(true)
}

/// A page's visible box in PDF space, its user unit, and its rotation;
/// floating-point fields are `f32` bit patterns.
#[derive(Clone, Copy, Debug, PartialEq, Eq, Structural)]
pub struct LiteParsePageGeometry {
    pub box_left: u32,
    pub box_bottom: u32,
    pub box_right: u32,
    pub box_top: u32,
    /// Page `/UserUnit`, normally 1.0.
    pub user_unit: u32,
    /// Clockwise quarter turns, `0..=3`; meaningful only where the rotation
    /// was reportable.
    pub rotation_quarter_turns: u32,
}

/// The geometry a page reports, and whether its rotation was reportable:
/// absent when an edge or the user unit is not finite or the unit is not
/// positive; a rotation outside `0..=3` is reported as 0 and not
/// reportable.
pub open spec fn geometry_of(
    left: u32,
    bottom: u32,
    right: u32,
    top: u32,
    user_unit: u32,
    rotation: i32,
) -> Option<(LiteParsePageGeometry, bool)> {
    if f32_finite(left) && f32_finite(bottom) && f32_finite(right) && f32_finite(top) && f32_finite(
        user_unit,
    ) && f32_positive(user_unit) {
        let ok = 0 <= rotation < 4;
        Some(
            (
                LiteParsePageGeometry {
                    box_left: left,
                    box_bottom: bottom,
                    box_right: right,
                    box_top: top,
                    user_unit,
                    rotation_quarter_turns: if ok {
                        rotation as u32
                    } else {
                        0
                    },
                },
                ok,
            ),
        )
    } else {
        None
    }
}

/// The geometry of a page from its visible box, user unit and rotation.
pub fn page_geometry(left: u32, bottom: u32, right: u32, top: u32, user_unit: u32, rotation: i32) -> (r:
    Option<(LiteParsePageGeometry, bool)>)
    ensures
        r == geometry_of(left, bottom, right, top, user_unit, rotation),
{
    if is_finite(left) && is_finite(bottom) && is_finite(right) && is_finite(top) && is_finite(
        user_unit,
    ) && is_positive(user_unit) {
        let ok = 0 <= rotation && rotation < 4;
        Some(
            (
                LiteParsePageGeometry {
                    box_left: left,
                    box_bottom: bottom,
                    box_right: right,
                    box_top: top,
                    user_unit,
                    rotation_quarter_turns: if ok {
                        rotation as u32
                    } else {
                        0
                    },
                },
                ok,
            ),
        )
    } else {
        None
    }
}

/// The all-zero geometry a record carries when none was reported.
pub open spec fn no_geometry() -> LiteParsePageGeometry {
    LiteParsePageGeometry {
        box_left: 0,
        box_bottom: 0,
        box_right: 0,
        box_top: 0,
        user_unit: 0,
        rotation_quarter_turns: 0,
    }
}

/// A reported geometry, or the all-zero one with no rotation.
pub fn geometry_or_default(g: Option<(LiteParsePageGeometry, bool)>) -> (r: (LiteParsePageGeometry, bool))
    ensures
        r == (match g {
            Some(v) => v,
            None => (no_geometry(), false),
        }),
{
    match g {
        Some(v) => v,
        None => (
            LiteParsePageGeometry {
                box_left: 0,
                box_bottom: 0,
                box_right: 0,
                box_top: 0,
                user_unit: 0,
                rotation_quarter_turns: 0,
            },
            false,
        ),
    }
}

} // verus!
