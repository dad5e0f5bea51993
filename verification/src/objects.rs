//! Page content objects as the PDF layer lists them, unfiltered: each object
//! packed into a fixed record, Form XObject children laid out in contiguous
//! ranges after their siblings, down to a fixed nesting depth.

use vstd::prelude::*;
use crate::check::LiteParsePageGeometry;
use crate::handle::{LiteParseByteView, bytes_view, empty_view};
use crate::pool::{LiteParseStr, Pool};
use crate::records::{bit_if, flag_if, str_at, opt_bytes, push_opt_string};
use crate::packing::{PackFrom, all_appended, pack_all, start_of};
use crate::status::{FfiError, FfiResult, LITEPARSE_STATUS_INVALID_ARGUMENT};
use vstd::string::StringExecFns;
use vstd::utf8::encode_utf8;

verus! {

/// `LiteParsePageObject.kind` values.
pub const LITEPARSE_PAGE_OBJECT_TEXT: u32 = 0;
pub const LITEPARSE_PAGE_OBJECT_PATH: u32 = 1;
pub const LITEPARSE_PAGE_OBJECT_IMAGE: u32 = 2;
pub const LITEPARSE_PAGE_OBJECT_SHADING: u32 = 3;
pub const LITEPARSE_PAGE_OBJECT_FORM: u32 = 4;
pub const LITEPARSE_PAGE_OBJECT_UNKNOWN: u32 = 5;

/// `LiteParsePageObject.flags` bits.
pub const LITEPARSE_PAGE_OBJECT_FLAG_HAS_MATRIX: u32 = 1;
pub const LITEPARSE_PAGE_OBJECT_FLAG_HAS_BOUNDS: u32 = 2;
pub const LITEPARSE_PAGE_OBJECT_FLAG_HAS_DRAW_MODE: u32 = 4;
pub const LITEPARSE_PAGE_OBJECT_FLAG_PATH_FILLED: u32 = 8;
pub const LITEPARSE_PAGE_OBJECT_FLAG_PATH_STROKED: u32 = 16;
pub const LITEPARSE_PAGE_OBJECT_FLAG_HAS_STROKE_WIDTH: u32 = 32;
pub const LITEPARSE_PAGE_OBJECT_FLAG_HAS_FILL_COLOR: u32 = 64;
pub const LITEPARSE_PAGE_OBJECT_FLAG_HAS_STROKE_COLOR: u32 = 128;
pub const LITEPARSE_PAGE_OBJECT_FLAG_HAS_IMAGE_METADATA: u32 = 256;

/// `LiteParsePathSegment.kind` values.
pub const LITEPARSE_PATH_SEGMENT_UNKNOWN: u32 = 0;
pub const LITEPARSE_PATH_SEGMENT_MOVETO: u32 = 1;
pub const LITEPARSE_PATH_SEGMENT_LINETO: u32 = 2;
pub const LITEPARSE_PATH_SEGMENT_BEZIERTO: u32 = 3;
/// `LiteParsePathSegment.flags` bits.
pub const LITEPARSE_PATH_SEGMENT_FLAG_CLOSE: u32 = 1;
pub const LITEPARSE_PATH_SEGMENT_FLAG_HAS_POINT: u32 = 2;

/// `LiteParsePageObject.bitmap_format` values.
pub const LITEPARSE_BITMAP_FORMAT_UNKNOWN: u32 = 0;
pub const LITEPARSE_BITMAP_FORMAT_GRAY: u32 = 1;
pub const LITEPARSE_BITMAP_FORMAT_BGR: u32 = 2;
pub const LITEPARSE_BITMAP_FORMAT_BGRX: u32 = 3;
pub const LITEPARSE_BITMAP_FORMAT_BGRA: u32 = 4;
pub const LITEPARSE_BITMAP_FORMAT_BGRA_PREMUL: u32 = 5;

/// Request flag: copy the image stream as stored.
pub const LITEPARSE_PAGE_OBJECT_INCLUDE_IMAGE_RAW: u32 = 1;
/// Request flag: copy the stream after lossless filters.
pub const LITEPARSE_PAGE_OBJECT_INCLUDE_IMAGE_DECODED: u32 = 2;
/// Request flag: copy the image's own pixels.
pub const LITEPARSE_PAGE_OBJECT_INCLUDE_IMAGE_BITMAP: u32 = 4;
/// Every request flag.
pub const IMAGE_PAYLOAD_FLAGS: u32 = 7;

/// `LiteParsePageObjectPage.flags` bits.
pub const LITEPARSE_OBJECT_PAGE_FLAG_HAS_GEOMETRY: u32 = 1;
pub const LITEPARSE_OBJECT_PAGE_FLAG_HAS_ROTATION: u32 = 2;

/// Form XObject nesting beyond this is recorded as the form object with an
/// empty child range.
pub const MAX_FORM_DEPTH: usize = 32;

/// Affine transform `a b c d e f`; each entry an `f32` bit pattern.
#[derive(Clone, Copy, Debug, PartialEq, Eq, Structural)]
pub struct LiteParseMatrix {
    pub a: u32,
    pub b: u32,
    pub c: u32,
    pub d: u32,
    pub e: u32,
    pub f: u32,
}

/// A y-up rectangle in the space the PDF layer reports bounds in; each
/// edge an `f32` bit pattern.
#[derive(Clone, Copy, Debug, PartialEq, Eq, Structural)]
pub struct LiteParsePdfBounds {
    pub left: u32,
    pub bottom: u32,
    pub right: u32,
    pub top: u32,
}

/// One extracted page; `object_offset/count` index the top-level objects.
#[derive(Clone, Copy, Debug, PartialEq, Eq, Structural)]
pub struct LiteParsePageObjectPage {
    pub label: LiteParseStr,
    pub geometry: LiteParsePageGeometry,
    pub page_number: u32,
    pub flags: u32,
    pub width: u32,
    pub height: u32,
    pub object_offset: u32,
    pub object_count: u32,
}

/// One path segment in the object's own coordinate space.
#[derive(Clone, Copy, Debug, PartialEq, Eq, Structural)]
pub struct LiteParsePathSegment {
    pub kind: u32,
    pub flags: u32,
    pub x: u32,
    pub y: u32,
}

/// One content object. `child_offset/count` index the direct children of
/// a Form XObject in the objects array; the other ranges index segments
/// and filters.
#[derive(Clone, Copy, Debug, PartialEq, Eq, Structural)]
pub struct LiteParsePageObject {
    pub image_raw: LiteParseByteView,
    pub image_decoded: LiteParseByteView,
    pub image_bitmap: LiteParseByteView,
    pub matrix: LiteParseMatrix,
    pub bounds: LiteParsePdfBounds,
    pub kind: u32,
    pub flags: u32,
    pub child_offset: u32,
    pub child_count: u32,
    pub segment_offset: u32,
    pub segment_count: u32,
    pub filter_offset: u32,
    pub filter_count: u32,
    pub stroke_width: u32,
    pub fill_color: u32,
    pub stroke_color: u32,
    pub image_width: u32,
    pub image_height: u32,
    pub image_horizontal_dpi: u32,
    pub image_vertical_dpi: u32,
    pub image_bits_per_pixel: u32,
    pub image_colorspace: i32,
    pub image_marked_content_id: i32,
    pub bitmap_width: i32,
    pub bitmap_height: i32,
    pub bitmap_stride: i32,
    pub bitmap_format: u32,
}

/// What kind of content an object is.
#[derive(Clone, Copy, Debug, PartialEq, Eq, Structural)]
pub enum ObjectKind {
    Text,
    Path,
    Image,
    Shading,
    Form,
    Unknown,
}

#[derive(Clone, Copy, Debug, PartialEq, Eq, Structural)]
pub enum SegmentKind {
    MoveTo,
    LineTo,
    BezierTo,
}

/// A point; coordinates as `f32` bits.
#[derive(Clone, Copy, Debug, PartialEq, Eq, Structural)]
pub struct Point {
    pub x: u32,
    pub y: u32,
}

/// A path segment as the PDF layer reports it.
#[derive(Clone, Copy, Debug, PartialEq, Eq, Structural)]
pub struct SegmentFacts {
    pub kind: Option<SegmentKind>,
    pub close: bool,
    pub point: Option<Point>,
}

#[derive(Clone, Copy, Debug, PartialEq, Eq, Structural)]
pub struct DrawMode {
    pub filled: bool,
    pub stroked: bool,
}

/// A colour with alpha.
#[derive(Clone, Copy, Debug, PartialEq, Eq, Structural)]
pub struct Color {
    pub r: u8,
    pub g: u8,
    pub b: u8,
    pub a: u8,
}

/// Image metadata; DPI values as `f32` bits.
#[derive(Clone, Copy, Debug, PartialEq, Eq, Structural)]
pub struct ImageMetadata {
    pub width: u32,
    pub height: u32,
    pub horizontal_dpi: u32,
    pub vertical_dpi: u32,
    pub bits_per_pixel: u32,
    pub colorspace: i32,
    pub marked_content_id: i32,
}

#[derive(Clone, Copy, Debug, PartialEq, Eq, Structural)]
pub enum BitmapFormat {
    Unknown,
    Gray,
    Bgr,
    Bgrx,
    Bgra,
    BgraPremul,
}

/// An image's own pixels.
pub struct BitmapFacts {
    pub width: i32,
    pub height: i32,
    pub stride: i32,
    pub format: BitmapFormat,
    pub buffer: Vec<u8>,
}

/// Everything packing reads of one content object. Image payloads are the
/// ones that were asked for and could be read.
pub struct ObjectFacts {
    pub kind: ObjectKind,
    pub matrix: Option<LiteParseMatrix>,
    pub bounds: Option<LiteParsePdfBounds>,
    pub draw_mode: Option<DrawMode>,
    pub segments: Vec<SegmentFacts>,
    pub metadata: Option<ImageMetadata>,
    pub filters: Vec<String>,
    pub image_raw: Option<Vec<u8>>,
    pub image_decoded: Option<Vec<u8>>,
    pub bitmap: Option<BitmapFacts>,
    pub stroke_width: Option<u32>,
    pub fill_color: Option<Color>,
    pub stroke_color: Option<Color>,
}

/// An object and, for a Form XObject, the objects it holds.
pub struct ObjectTree {
    pub facts: ObjectFacts,
    pub children: Vec<ObjectTree>,
}

/// The data a record's ranges point at, kept beside it.
pub struct ObjectPayload {
    pub segments: Vec<LiteParsePathSegment>,
    pub filters: Vec<String>,
    pub image_raw: Vec<u8>,
    pub image_decoded: Vec<u8>,
    pub image_bitmap: Vec<u8>,
}

/// Colour as packed ARGB: alpha in the top byte.
pub open spec fn argb_of(c: Color) -> u32 {
    ((c.a as u32) << 24u32) | ((c.r as u32) << 16u32) | ((c.g as u32) << 8u32) | (c.b as u32)
}

pub fn pack_argb(color: Color) -> (r: u32)
    ensures
        r == argb_of(color),
{
    ((color.a as u32) << 24u32) | ((color.r as u32) << 16u32) | ((color.g as u32) << 8u32)
        | (color.b as u32)
}

pub open spec fn kind_value(kind: ObjectKind) -> u32 {
    match kind {
        ObjectKind::Text => LITEPARSE_PAGE_OBJECT_TEXT,
        ObjectKind::Path => LITEPARSE_PAGE_OBJECT_PATH,
        ObjectKind::Image => LITEPARSE_PAGE_OBJECT_IMAGE,
        ObjectKind::Shading => LITEPARSE_PAGE_OBJECT_SHADING,
        ObjectKind::Form => LITEPARSE_PAGE_OBJECT_FORM,
        ObjectKind::Unknown => LITEPARSE_PAGE_OBJECT_UNKNOWN,
    }
}

pub fn object_kind(kind: ObjectKind) -> (r: u32)
    ensures
        r == kind_value(kind),
{
    match kind {
        ObjectKind::Text => LITEPARSE_PAGE_OBJECT_TEXT,
        ObjectKind::Path => LITEPARSE_PAGE_OBJECT_PATH,
        ObjectKind::Image => LITEPARSE_PAGE_OBJECT_IMAGE,
        ObjectKind::Shading => LITEPARSE_PAGE_OBJECT_SHADING,
        ObjectKind::Form => LITEPARSE_PAGE_OBJECT_FORM,
        ObjectKind::Unknown => LITEPARSE_PAGE_OBJECT_UNKNOWN,
    }
}

pub open spec fn format_value(format: BitmapFormat) -> u32 {
    match format {
        BitmapFormat::Unknown => LITEPARSE_BITMAP_FORMAT_UNKNOWN,
        BitmapFormat::Gray => LITEPARSE_BITMAP_FORMAT_GRAY,
        BitmapFormat::Bgr => LITEPARSE_BITMAP_FORMAT_BGR,
        BitmapFormat::Bgrx => LITEPARSE_BITMAP_FORMAT_BGRX,
        BitmapFormat::Bgra => LITEPARSE_BITMAP_FORMAT_BGRA,
        BitmapFormat::BgraPremul => LITEPARSE_BITMAP_FORMAT_BGRA_PREMUL,
    }
}

pub fn bitmap_format(format: BitmapFormat) -> (r: u32)
    ensures
        r == format_value(format),
{
    match format {
        BitmapFormat::Unknown => LITEPARSE_BITMAP_FORMAT_UNKNOWN,
        BitmapFormat::Gray => LITEPARSE_BITMAP_FORMAT_GRAY,
        BitmapFormat::Bgr => LITEPARSE_BITMAP_FORMAT_BGR,
        BitmapFormat::Bgrx => LITEPARSE_BITMAP_FORMAT_BGRX,
        BitmapFormat::Bgra => LITEPARSE_BITMAP_FORMAT_BGRA,
        BitmapFormat::BgraPremul => LITEPARSE_BITMAP_FORMAT_BGRA_PREMUL,
    }
}

/// The record of one path segment.
pub open spec fn segment_record(s: SegmentFacts) -> LiteParsePathSegment {
    LiteParsePathSegment {
        kind: match s.kind {
            Some(SegmentKind::MoveTo) => LITEPARSE_PATH_SEGMENT_MOVETO,
            Some(SegmentKind::LineTo) => LITEPARSE_PATH_SEGMENT_LINETO,
            Some(SegmentKind::BezierTo) => LITEPARSE_PATH_SEGMENT_BEZIERTO,
            None => LITEPARSE_PATH_SEGMENT_UNKNOWN,
        },
        flags: bit_if(s.close, LITEPARSE_PATH_SEGMENT_FLAG_CLOSE) | bit_if(
            s.point is Some,
            LITEPARSE_PATH_SEGMENT_FLAG_HAS_POINT,
        ),
        x: match s.point {
            Some(p) => p.x,
            None => 0,
        },
        y: match s.point {
            Some(p) => p.y,
            None => 0,
        },
    }
}

pub fn pack_segment(s: &SegmentFacts) -> (r: LiteParsePathSegment)
    ensures
        r == segment_record(*s),
{
    let (x, y) = match s.point {
        Some(p) => (p.x, p.y),
        None => (0, 0),
    };
    LiteParsePathSegment {
        kind: match s.kind {
            Some(SegmentKind::MoveTo) => LITEPARSE_PATH_SEGMENT_MOVETO,
            Some(SegmentKind::LineTo) => LITEPARSE_PATH_SEGMENT_LINETO,
            Some(SegmentKind::BezierTo) => LITEPARSE_PATH_SEGMENT_BEZIERTO,
            None => LITEPARSE_PATH_SEGMENT_UNKNOWN,
        },
        flags: flag_if(s.close, LITEPARSE_PATH_SEGMENT_FLAG_CLOSE) | flag_if(
            s.point.is_some(),
            LITEPARSE_PATH_SEGMENT_FLAG_HAS_POINT,
        ),
        x,
        y,
    }
}

pub open spec fn no_matrix() -> LiteParseMatrix {
    LiteParseMatrix { a: 0, b: 0, c: 0, d: 0, e: 0, f: 0 }
}

pub open spec fn no_bounds() -> LiteParsePdfBounds {
    LiteParsePdfBounds { left: 0, bottom: 0, right: 0, top: 0 }
}

/// The flag word of an object's record.
pub open spec fn object_flags(f: ObjectFacts) -> u32 {
    bit_if(f.matrix is Some, LITEPARSE_PAGE_OBJECT_FLAG_HAS_MATRIX) | bit_if(
        f.bounds is Some,
        LITEPARSE_PAGE_OBJECT_FLAG_HAS_BOUNDS,
    ) | bit_if(f.draw_mode is Some, LITEPARSE_PAGE_OBJECT_FLAG_HAS_DRAW_MODE) | bit_if(
        f.draw_mode matches Some(m) && m.filled,
        LITEPARSE_PAGE_OBJECT_FLAG_PATH_FILLED,
    ) | bit_if(
        f.draw_mode matches Some(m) && m.stroked,
        LITEPARSE_PAGE_OBJECT_FLAG_PATH_STROKED,
    ) | bit_if(f.stroke_width is Some, LITEPARSE_PAGE_OBJECT_FLAG_HAS_STROKE_WIDTH) | bit_if(
        f.fill_color is Some,
        LITEPARSE_PAGE_OBJECT_FLAG_HAS_FILL_COLOR,
    ) | bit_if(f.stroke_color is Some, LITEPARSE_PAGE_OBJECT_FLAG_HAS_STROKE_COLOR) | bit_if(
        f.metadata is Some,
        LITEPARSE_PAGE_OBJECT_FLAG_HAS_IMAGE_METADATA,
    )
}

/// The payload of a requested image stream: empty unless requested and
/// read.
pub open spec fn requested(bytes: Option<Vec<u8>>, flags: u32, bit: u32) -> Seq<u8> {
    if flags & bit != 0 {
        match bytes {
            Some(b) => b@,
            None => Seq::empty(),
        }
    } else {
        Seq::empty()
    }
}

/// The bitmap pixels, when requested and read.
pub open spec fn bitmap_bytes(b: Option<BitmapFacts>, flags: u32) -> Seq<u8> {
    if flags & LITEPARSE_PAGE_OBJECT_INCLUDE_IMAGE_BITMAP != 0 {
        match b {
            Some(m) => m.buffer@,
            None => Seq::empty(),
        }
    } else {
        Seq::empty()
    }
}

/// Whether a bitmap was requested and read.
pub open spec fn has_bitmap(b: Option<BitmapFacts>, flags: u32) -> bool {
    flags & LITEPARSE_PAGE_OBJECT_INCLUDE_IMAGE_BITMAP != 0 && b is Some
}

/// The record of an object before its payloads and ranges are placed:
/// views empty, ranges zero.
pub open spec fn object_record(f: ObjectFacts, flags: u32) -> LiteParsePageObject {
    let bm = has_bitmap(f.bitmap, flags);
    LiteParsePageObject {
        image_raw: empty_view(),
        image_decoded: empty_view(),
        image_bitmap: empty_view(),
        matrix: match f.matrix {
            Some(m) => m,
            None => no_matrix(),
        },
        bounds: match f.bounds {
            Some(b) => b,
            None => no_bounds(),
        },
        kind: kind_value(f.kind),
        flags: object_flags(f),
        child_offset: 0,
        child_count: 0,
        segment_offset: 0,
        segment_count: 0,
        filter_offset: 0,
        filter_count: 0,
        stroke_width: match f.stroke_width {
            Some(w) => w,
            None => 0,
        },
        fill_color: match f.fill_color {
            Some(c) => argb_of(c),
            None => 0,
        },
        stroke_color: match f.stroke_color {
            Some(c) => argb_of(c),
            None => 0,
        },
        image_width: match f.metadata {
            Some(m) => m.width,
            None => 0,
        },
        image_height: match f.metadata {
            Some(m) => m.height,
            None => 0,
        },
        image_horizontal_dpi: match f.metadata {
            Some(m) => m.horizontal_dpi,
            None => 0,
        },
        image_vertical_dpi: match f.metadata {
            Some(m) => m.vertical_dpi,
            None => 0,
        },
        image_bits_per_pixel: match f.metadata {
            Some(m) => m.bits_per_pixel,
            None => 0,
        },
        image_colorspace: match f.metadata {
            Some(m) => m.colorspace,
            None => 0,
        },
        image_marked_content_id: match f.metadata {
            Some(m) => m.marked_content_id,
            None => 0,
        },
        bitmap_width: if bm {
            f.bitmap->0.width
        } else {
            0
        },
        bitmap_height: if bm {
            f.bitmap->0.height
        } else {
            0
        },
        bitmap_stride: if bm {
            f.bitmap->0.stride
        } else {
            0
        },
        bitmap_format: if bm {
            format_value(f.bitmap->0.format)
        } else {
            LITEPARSE_BITMAP_FORMAT_UNKNOWN
        },
    }
}

/// Whether `p` is the payload packing `f` keeps.
pub open spec fn payload_matches(p: ObjectPayload, f: ObjectFacts, flags: u32) -> bool {
    &&& p.segments@ == f.segments@.map_values(|s: SegmentFacts| segment_record(s))
    &&& p.filters@.map_values(|s: String| s@) == f.filters@.map_values(|s: String| s@)
    &&& p.image_raw@ == requested(f.image_raw, flags, LITEPARSE_PAGE_OBJECT_INCLUDE_IMAGE_RAW)
    &&& p.image_decoded@ == requested(
        f.image_decoded,
        flags,
        LITEPARSE_PAGE_OBJECT_INCLUDE_IMAGE_DECODED,
    )
    &&& p.image_bitmap@ == bitmap_bytes(f.bitmap, flags)
}

fn copy_bytes(src: &[u8]) -> (r: Vec<u8>)
    ensures
        r@ == src@,
{
    let mut out: Vec<u8> = Vec::new();
    let mut i: usize = 0;
    while i < src.len()
        invariant
            0 <= i <= src@.len(),
            out@ == src@.take(i as int),
        decreases src@.len() - i,
    {
        out.push(src[i]);
        i = i + 1;
        assert(out@ =~= src@.take(i as int));
    }
    assert(src@.take(src@.len() as int) =~= src@);
    out
}

fn requested_bytes(bytes: &Option<Vec<u8>>, flags: u32, bit: u32) -> (r: Vec<u8>)
    ensures
        r@ == requested(*bytes, flags, bit),
{
    if flags & bit != 0 {
        match bytes {
            Some(b) => copy_bytes(b.as_slice()),
            None => Vec::new(),
        }
    } else {
        Vec::new()
    }
}

/// Pack one object: its record (ranges not yet placed) and its payload.
pub fn pack_object(f: &ObjectFacts, flags: u32) -> (r: (LiteParsePageObject, ObjectPayload))
    ensures
        r.0 == object_record(*f, flags),
        payload_matches(r.1, *f, flags),
{
    let mut segments: Vec<LiteParsePathSegment> = Vec::new();
    let mut i: usize = 0;
    while i < f.segments.len()
        invariant
            0 <= i <= f.segments@.len(),
            segments@ == f.segments@.take(i as int).map_values(|s: SegmentFacts| segment_record(s)),
        decreases f.segments@.len() - i,
    {
        segments.push(pack_segment(&f.segments[i]));
        i = i + 1;
        assert(segments@ =~= f.segments@.take(i as int).map_values(
            |s: SegmentFacts| segment_record(s),
        ));
    }
    assert(f.segments@.take(f.segments@.len() as int) =~= f.segments@);
    let mut filters: Vec<String> = Vec::new();
    let mut j: usize = 0;
    while j < f.filters.len()
        invariant
            0 <= j <= f.filters@.len(),
            filters@.map_values(|s: String| s@) == f.filters@.take(j as int).map_values(
                |s: String| s@,
            ),
        decreases f.filters@.len() - j,
    {
        let ghost before = filters@;
        let c = f.filters[j].clone();
        filters.push(c);
        proof {
            assert(filters@.map_values(|s: String| s@) =~= before.map_values(|s: String| s@).push(
                f.filters@[j as int]@,
            ));
            assert(f.filters@.take(j + 1).map_values(|s: String| s@) =~= f.filters@.take(
                j as int,
            ).map_values(|s: String| s@).push(f.filters@[j as int]@));
        }
        j = j + 1;
    }
    assert(f.filters@.take(f.filters@.len() as int) =~= f.filters@);
    let image_raw = requested_bytes(&f.image_raw, flags, LITEPARSE_PAGE_OBJECT_INCLUDE_IMAGE_RAW);
    let image_decoded = requested_bytes(
        &f.image_decoded,
        flags,
        LITEPARSE_PAGE_OBJECT_INCLUDE_IMAGE_DECODED,
    );
    let want_bitmap = flags & LITEPARSE_PAGE_OBJECT_INCLUDE_IMAGE_BITMAP != 0;
    let (bitmap_width, bitmap_height, bitmap_stride, format, image_bitmap) = match &f.bitmap {
        Some(b) => if want_bitmap {
            (b.width, b.height, b.stride, bitmap_format(b.format), copy_bytes(b.buffer.as_slice()))
        } else {
            (0, 0, 0, LITEPARSE_BITMAP_FORMAT_UNKNOWN, Vec::new())
        },
        None => (0, 0, 0, LITEPARSE_BITMAP_FORMAT_UNKNOWN, Vec::new()),
    };
    let filled = match f.draw_mode {
        Some(m) => m.filled,
        None => false,
    };
    let stroked = match f.draw_mode {
        Some(m) => m.stroked,
        None => false,
    };
    let (iw, ih, ihd, ivd, ibpp, ics, imcid) = match f.metadata {
        Some(m) => (
            m.width,
            m.height,
            m.horizontal_dpi,
            m.vertical_dpi,
            m.bits_per_pixel,
            m.colorspace,
            m.marked_content_id,
        ),
        None => (0, 0, 0, 0, 0, 0, 0),
    };
    let record = LiteParsePageObject {
        image_raw: LiteParseByteView { ptr: 0, len: 0 },
        image_decoded: LiteParseByteView { ptr: 0, len: 0 },
        image_bitmap: LiteParseByteView { ptr: 0, len: 0 },
        matrix: match f.matrix {
            Some(m) => m,
            None => LiteParseMatrix { a: 0, b: 0, c: 0, d: 0, e: 0, f: 0 },
        },
        bounds: match f.bounds {
            Some(b) => b,
            None => LiteParsePdfBounds { left: 0, bottom: 0, right: 0, top: 0 },
        },
        kind: object_kind(f.kind),
        flags: flag_if(f.matrix.is_some(), LITEPARSE_PAGE_OBJECT_FLAG_HAS_MATRIX) | flag_if(
            f.bounds.is_some(),
            LITEPARSE_PAGE_OBJECT_FLAG_HAS_BOUNDS,
        ) | flag_if(f.draw_mode.is_some(), LITEPARSE_PAGE_OBJECT_FLAG_HAS_DRAW_MODE) | flag_if(
            filled,
            LITEPARSE_PAGE_OBJECT_FLAG_PATH_FILLED,
        ) | flag_if(stroked, LITEPARSE_PAGE_OBJECT_FLAG_PATH_STROKED) | flag_if(
            f.stroke_width.is_some(),
            LITEPARSE_PAGE_OBJECT_FLAG_HAS_STROKE_WIDTH,
        ) | flag_if(f.fill_color.is_some(), LITEPARSE_PAGE_OBJECT_FLAG_HAS_FILL_COLOR) | flag_if(
            f.stroke_color.is_some(),
            LITEPARSE_PAGE_OBJECT_FLAG_HAS_STROKE_COLOR,
        ) | flag_if(f.metadata.is_some(), LITEPARSE_PAGE_OBJECT_FLAG_HAS_IMAGE_METADATA),
        child_offset: 0,
        child_count: 0,
        segment_offset: 0,
        segment_count: 0,
        filter_offset: 0,
        filter_count: 0,
        stroke_width: match f.stroke_width {
            Some(w) => w,
            None => 0,
        },
        fill_color: match f.fill_color {
            Some(c) => pack_argb(c),
            None => 0,
        },
        stroke_color: match f.stroke_color {
            Some(c) => pack_argb(c),
            None => 0,
        },
        image_width: iw,
        image_height: ih,
        image_horizontal_dpi: ihd,
        image_vertical_dpi: ivd,
        image_bits_per_pixel: ibpp,
        image_colorspace: ics,
        image_marked_content_id: imcid,
        bitmap_width,
        bitmap_height,
        bitmap_stride,
        bitmap_format: format,
    };
    (record, ObjectPayload { segments, filters, image_raw, image_decoded, image_bitmap })
}

/// Reject request flags outside `LITEPARSE_PAGE_OBJECT_INCLUDE_IMAGE_*`.
pub fn check_object_flags(flags: u32) -> (r: FfiResult<()>)
    ensures
        r is Ok <==> flags & !IMAGE_PAYLOAD_FLAGS == 0,
        r matches Err(e) ==> e.status == LITEPARSE_STATUS_INVALID_ARGUMENT && e.message@
            == "page object flags contain unknown bits; use LITEPARSE_PAGE_OBJECT_INCLUDE_IMAGE_*"@,
{
    if flags & !IMAGE_PAYLOAD_FLAGS != 0 {
        Err(
            FfiError::invalid_argument(
                String::from_str(
                    "page object flags contain unknown bits; use LITEPARSE_PAGE_OBJECT_INCLUDE_IMAGE_*",
                ),
            ),
        )
    } else {
        Ok(())
    }
}

/// The records and payloads of packed objects, index for index.
pub struct PackedObjects {
    pub records: Vec<LiteParsePageObject>,
    pub payloads: Vec<ObjectPayload>,
}

/// Whether `t`'s children are packed: it is a Form XObject above the
/// nesting limit.
pub open spec fn expands(t: ObjectTree, depth: nat) -> bool {
    t.facts.kind == ObjectKind::Form && depth < MAX_FORM_DEPTH
}

/// The records packed below `t`, not counting `t` itself.
pub open spec fn tree_count(t: ObjectTree, depth: nat) -> nat
    decreases t,
{
    if expands(t, depth) {
        forest_count(t.children@, depth + 1)
    } else {
        0
    }
}

/// The records packing `sibs` at `depth` appends.
pub open spec fn forest_count(sibs: Seq<ObjectTree>, depth: nat) -> nat
    decreases sibs,
{
    if sibs.len() == 0 {
        0
    } else {
        forest_count(sibs.drop_last(), depth) + 1 + tree_count(sibs.last(), depth)
    }
}

/// The records below the first siblings of `sibs`.
pub open spec fn below(sibs: Seq<ObjectTree>, depth: nat) -> nat
    decreases sibs.len(),
{
    if sibs.len() == 0 {
        0
    } else {
        below(sibs.drop_last(), depth) + tree_count(sibs.last(), depth)
    }
}

/// Where the children of sibling `i` start: after every sibling, and after
/// the children of the siblings before it.
pub open spec fn block_start(sibs: Seq<ObjectTree>, depth: nat, base: nat, i: int) -> nat {
    base + sibs.len() + below(sibs.take(i), depth)
}

/// The record of sibling `i` with its child range placed.
pub open spec fn head_record(
    sibs: Seq<ObjectTree>,
    depth: nat,
    base: nat,
    flags: u32,
    i: int,
) -> LiteParsePageObject {
    let r = object_record(sibs[i].facts, flags);
    if expands(sibs[i], depth) {
        LiteParsePageObject {
            child_offset: block_start(sibs, depth, base, i) as u32,
            child_count: sibs[i].children@.len() as u32,
            ..r
        }
    } else {
        r
    }
}

proof fn lemma_forest_count(sibs: Seq<ObjectTree>, depth: nat)
    ensures
        forest_count(sibs, depth) == sibs.len() + below(sibs, depth),
    decreases sibs.len(),
{
    if sibs.len() > 0 {
        lemma_forest_count(sibs.drop_last(), depth);
    }
}

proof fn lemma_below_prefix(sibs: Seq<ObjectTree>, depth: nat, i: int)
    requires
        0 <= i <= sibs.len(),
    ensures
        below(sibs.take(i), depth) <= below(sibs, depth),
        i < sibs.len() ==> below(sibs.take(i + 1), depth) == below(sibs.take(i), depth) + tree_count(
            sibs[i],
            depth,
        ),
    decreases sibs.len() - i,
{
    if i < sibs.len() {
        lemma_below_prefix(sibs, depth, i + 1);
        assert(sibs.take(i + 1).drop_last() =~= sibs.take(i));
    } else {
        assert(sibs.take(i) =~= sibs);
    }
}

proof fn lemma_below_zero(sibs: Seq<ObjectTree>, depth: nat)
    requires
        depth >= MAX_FORM_DEPTH,
    ensures
        below(sibs, depth) == 0,
    decreases sibs.len(),
{
    if sibs.len() > 0 {
        lemma_below_zero(sibs.drop_last(), depth);
    }
}

proof fn lemma_below_prefix_mono(sibs: Seq<ObjectTree>, depth: nat, i: int, j: int)
    requires
        0 <= i <= j <= sibs.len(),
    ensures
        below(sibs.take(i), depth) <= below(sibs.take(j), depth),
    decreases j - i,
{
    if i < j {
        lemma_below_prefix_mono(sibs, depth, i, j - 1);
        lemma_below_prefix(sibs, depth, j - 1);
    }
}


/// The siblings' own records, each with its child range placed.
pub open spec fn heads(sibs: Seq<ObjectTree>, depth: nat, base: nat, flags: u32) -> Seq<LiteParsePageObject> {
    Seq::new(sibs.len(), |i: int| head_record(sibs, depth, base, flags, i))
}

/// The child blocks of the first `k` siblings, each the children's own
/// records followed by their blocks, laid out one after the other from
/// `block_start(sibs, depth, base, 0)`.
pub open spec fn blocks(sibs: Seq<ObjectTree>, depth: nat, base: nat, flags: u32, k: nat) -> Seq<
    LiteParsePageObject,
>
    decreases sibs, k,
{
    if k == 0 || k > sibs.len() {
        Seq::empty()
    } else {
        let i = k - 1;
        let prev = blocks(sibs, depth, base, flags, (k - 1) as nat);
        if expands(sibs[i], depth) {
            let c = sibs[i].children@;
            let start = block_start(sibs, depth, base, i);
            prev + heads(c, depth + 1, start, flags) + blocks(c, depth + 1, start, flags, c.len())
        } else {
            prev
        }
    }
}

/// Every record packing `sibs` at `depth` from index `base` appends: the
/// siblings first, then each Form's children, depth first.
pub open spec fn flat(sibs: Seq<ObjectTree>, depth: nat, base: nat, flags: u32) -> Seq<LiteParsePageObject> {
    heads(sibs, depth, base, flags) + blocks(sibs, depth, base, flags, sibs.len())
}

/// The objects behind those records, in the same order.
pub open spec fn node_blocks(sibs: Seq<ObjectTree>, depth: nat, k: nat) -> Seq<ObjectTree>
    decreases sibs, k,
{
    if k == 0 || k > sibs.len() {
        Seq::empty()
    } else {
        let i = k - 1;
        let prev = node_blocks(sibs, depth, (k - 1) as nat);
        if expands(sibs[i], depth) {
            let c = sibs[i].children@;
            prev + c + node_blocks(c, depth + 1, c.len())
        } else {
            prev
        }
    }
}

pub open spec fn flat_nodes(sibs: Seq<ObjectTree>, depth: nat) -> Seq<ObjectTree> {
    sibs + node_blocks(sibs, depth, sibs.len())
}

proof fn lemma_blocks_len(sibs: Seq<ObjectTree>, depth: nat, base: nat, flags: u32, k: nat)
    requires
        k <= sibs.len(),
    ensures
        blocks(sibs, depth, base, flags, k).len() == below(sibs.take(k as int), depth),
        node_blocks(sibs, depth, k).len() == below(sibs.take(k as int), depth),
    decreases sibs, k,
{
    if k > 0 {
        let i = k - 1;
        lemma_blocks_len(sibs, depth, base, flags, (k - 1) as nat);
        lemma_below_prefix(sibs, depth, i as int);
        if expands(sibs[i as int], depth) {
            let c = sibs[i as int].children@;
            let start = block_start(sibs, depth, base, i as int);
            lemma_blocks_len(c, depth + 1, start, flags, c.len());
            lemma_forest_count(c, depth + 1);
            assert(c.take(c.len() as int) =~= c);
        }
    }
}

proof fn lemma_flat_len(sibs: Seq<ObjectTree>, depth: nat, base: nat, flags: u32)
    ensures
        flat(sibs, depth, base, flags).len() == forest_count(sibs, depth),
        flat_nodes(sibs, depth).len() == forest_count(sibs, depth),
{
    lemma_blocks_len(sibs, depth, base, flags, sibs.len());
    lemma_forest_count(sibs, depth);
    assert(sibs.take(sibs.len() as int) =~= sibs);
}

/// The head records with those before `j` placed and the rest as packed.
pub open spec fn heads_upto(sibs: Seq<ObjectTree>, depth: nat, base: nat, flags: u32, j: int) -> Seq<
    LiteParsePageObject,
> {
    Seq::new(
        sibs.len(),
        |i: int|
            if i < j {
                head_record(sibs, depth, base, flags, i)
            } else {
                object_record(sibs[i].facts, flags)
            },
    )
}

/// Pack `sibs` at nesting `depth`: their records first, then, for each
/// Form XObject in turn, its children packed the same way one level down;
/// at `MAX_FORM_DEPTH` a form's child range is left empty. Returns the
/// siblings' offset and count.
pub fn pack_siblings(sibs: &Vec<ObjectTree>, depth: usize, flags: u32, out: &mut PackedObjects) -> (r: (
    usize,
    usize,
))
    requires
        old(out).records@.len() == old(out).payloads@.len(),
        old(out).records@.len() + forest_count(sibs@, depth as nat) <= u32::MAX,
    ensures
        r.0 == old(out).records@.len(),
        r.1 == sibs@.len(),
        final(out).records@ == old(out).records@ + flat(
            sibs@,
            depth as nat,
            old(out).records@.len() as nat,
            flags,
        ),
        final(out).payloads@.len() == final(out).records@.len(),
        final(out).payloads@.subrange(0, old(out).payloads@.len() as int) == old(out).payloads@,
        forall|p: int|
            0 <= p < forest_count(sibs@, depth as nat) ==> payload_matches(
                #[trigger] final(out).payloads@[old(out).payloads@.len() + p],
                flat_nodes(sibs@, depth as nat)[p].facts,
                flags,
            ),
    decreases sibs@,
{
    let ghost d = depth as nat;
    let ghost s = sibs@;
    let ghost start_recs = out.records@;
    let ghost start_pays = out.payloads@;
    let offset = out.records.len();
    let count = sibs.len();
    proof {
        lemma_forest_count(s, d);
        lemma_flat_len(s, d, offset as nat, flags);
    }
    let mut i: usize = 0;
    while i < count
        invariant
            0 <= i <= count,
            count == s.len(),
            s == sibs@,
            offset == start_recs.len(),
            start_recs.len() == start_pays.len(),
            out.records@.len() == out.payloads@.len(),
            out.records@ == start_recs + heads_upto(s, d, offset as nat, flags, 0).take(i as int),
            out.payloads@.subrange(0, offset as int) == start_pays,
            out.payloads@.len() == offset + i,
            forall|k: int|
                0 <= k < i ==> payload_matches(#[trigger] out.payloads@[offset + k], s[k].facts, flags),
        decreases count - i,
    {
        let (record, payload) = pack_object(&sibs[i].facts, flags);
        out.records.push(record);
        out.payloads.push(payload);
        i = i + 1;
        proof {
            assert(out.records@ =~= start_recs + heads_upto(s, d, offset as nat, flags, 0).take(i as int));
            assert(out.payloads@.subrange(0, offset as int) =~= start_pays);
        }
    }
    proof {
        assert(heads_upto(s, d, offset as nat, flags, 0).take(count as int) =~= heads_upto(
            s,
            d,
            offset as nat,
            flags,
            0,
        ));
    }
    if depth >= MAX_FORM_DEPTH {
        proof {
            lemma_below_zero(s, d);
            lemma_blocks_len(s, d, offset as nat, flags, count as nat);
            assert(s.take(count as int) =~= s);
            assert(heads_upto(s, d, offset as nat, flags, 0) =~= heads(s, d, offset as nat, flags));
            assert(blocks(s, d, offset as nat, flags, count as nat) =~= Seq::<LiteParsePageObject>::empty());
            assert(node_blocks(s, d, count as nat) =~= Seq::<ObjectTree>::empty());
            assert(flat(s, d, offset as nat, flags) =~= heads(s, d, offset as nat, flags));
            assert forall|p: int| 0 <= p < forest_count(s, d) implies payload_matches(
                #[trigger] out.payloads@[offset + p],
                flat_nodes(s, d)[p].facts,
                flags,
            ) by {
                assert(flat_nodes(s, d)[p] == s[p]);
            }
        }
        return (offset, count);
    }
    let mut j: usize = 0;
    while j < count
        invariant
            0 <= j <= count,
            count == s.len(),
            s == sibs@,
            depth < MAX_FORM_DEPTH,
            d == depth as nat,
            offset == start_recs.len(),
            start_recs.len() == start_pays.len(),
            offset + forest_count(s, d) <= u32::MAX,
            forest_count(s, d) == s.len() + below(s, d),
            out.records@.len() == out.payloads@.len(),
            out.records@ == start_recs + heads_upto(s, d, offset as nat, flags, j as int) + blocks(
                s,
                d,
                offset as nat,
                flags,
                j as nat,
            ),
            out.payloads@.subrange(0, offset as int) == start_pays,
            forall|k: int|
                0 <= k < count + below(s.take(j as int), d) ==> payload_matches(
                    #[trigger] out.payloads@[offset + k],
                    (s + node_blocks(s, d, j as nat))[k].facts,
                    flags,
                ),
        decreases count - j,
    {
        proof {
            lemma_below_prefix(s, d, j as int);
            lemma_blocks_len(s, d, offset as nat, flags, j as nat);
        }
        let ghost mid_recs = out.records@;
        let ghost mid_pays = out.payloads@;
        if sibs[j].facts.kind == ObjectKind::Form {
            let ghost c = s[j as int].children@;
            let ghost bstart = block_start(s, d, offset as nat, j as int);
            assert(bstart == out.records@.len());
            proof {
                lemma_forest_count(c, d + 1);
                lemma_flat_len(c, d + 1, bstart, flags);
                lemma_below_prefix(s, d, j as int + 1);
                assert(tree_count(s[j as int], d) == forest_count(c, d + 1));
            }
            let (child_offset, child_count) = pack_siblings(&sibs[j].children, depth + 1, flags, out);
            let ghost after_call_recs = out.records@;
            assert(after_call_recs[offset + j as int] == mid_recs[offset + j as int]);
            let mut rec = out.records[offset + j];
            rec.child_offset = child_offset as u32;
            rec.child_count = child_count as u32;
            out.records.set(offset + j, rec);
            proof {
                assert(out.records@ =~= start_recs + heads_upto(
                    s,
                    d,
                    offset as nat,
                    flags,
                    j + 1,
                ) + blocks(s, d, offset as nat, flags, j as nat + 1));
                let pays = out.payloads@;
                assert(pays.subrange(0, offset as int) =~= start_pays) by {
                    assert(pays.subrange(0, mid_pays.len() as int) == mid_pays);
                }
                let nb = s + node_blocks(s, d, j as nat + 1);
                assert forall|k: int|
                    0 <= k < count + below(s.take(j + 1), d) implies payload_matches(
                    #[trigger] pays[offset + k],
                    nb[k].facts,
                    flags,
                ) by {
                    if k < count + below(s.take(j as int), d) {
                        assert(pays.subrange(0, mid_pays.len() as int) == mid_pays);
                        assert(pays[offset + k] == mid_pays[offset + k]);
                        assert(nb[k] == (s + node_blocks(s, d, j as nat))[k]);
                    } else {
                        let q = k - count - below(s.take(j as int), d);
                        assert(nb[k] == flat_nodes(c, d + 1)[q]);
                        assert(pays[offset + k] == pays[mid_pays.len() + q]);
                    }
                }
            }
        } else {
            proof {
                assert(out.records@ =~= start_recs + heads_upto(
                    s,
                    d,
                    offset as nat,
                    flags,
                    j + 1,
                ) + blocks(s, d, offset as nat, flags, j as nat + 1));
                assert forall|k: int|
                    0 <= k < count + below(s.take(j + 1), d) implies payload_matches(
                    #[trigger] out.payloads@[offset + k],
                    (s + node_blocks(s, d, j as nat + 1))[k].facts,
                    flags,
                ) by {
                    assert((s + node_blocks(s, d, j as nat + 1))[k] == (s + node_blocks(s, d, j as nat))[k]);
                }
            }
        }
        j = j + 1;
    }
    proof {
        assert(s.take(count as int) =~= s);
        assert(heads_upto(s, d, offset as nat, flags, count as int) =~= heads(s, d, offset as nat, flags));
        assert(out.records@ =~= start_recs + flat(s, d, offset as nat, flags));
        assert forall|p: int| 0 <= p < forest_count(s, d) implies payload_matches(
            #[trigger] out.payloads@[offset + p],
            flat_nodes(s, d)[p].facts,
            flags,
        ) by {
            assert(flat_nodes(s, d) == s + node_blocks(s, d, count as nat));
        }
    }
    (offset, count)
}

proof fn lemma_blocks_prefix(sibs: Seq<ObjectTree>, depth: nat, base: nat, flags: u32, k: nat, m: nat)
    requires
        k <= m <= sibs.len(),
    ensures
        blocks(sibs, depth, base, flags, k).len() <= blocks(sibs, depth, base, flags, m).len(),
        blocks(sibs, depth, base, flags, m).subrange(
            0,
            blocks(sibs, depth, base, flags, k).len() as int,
        ) == blocks(sibs, depth, base, flags, k),
    decreases m - k,
{
    if k < m {
        lemma_blocks_prefix(sibs, depth, base, flags, k, (m - 1) as nat);
        let a = blocks(sibs, depth, base, flags, (m - 1) as nat);
        let b = blocks(sibs, depth, base, flags, m);
        assert(b.subrange(0, a.len() as int) =~= a);
        assert(b.subrange(0, blocks(sibs, depth, base, flags, k).len() as int) =~= a.subrange(
            0,
            blocks(sibs, depth, base, flags, k).len() as int,
        ));
    } else {
        assert(blocks(sibs, depth, base, flags, m).subrange(
            0,
            blocks(sibs, depth, base, flags, m).len() as int,
        ) =~= blocks(sibs, depth, base, flags, m));
    }
}

/// The children of every packed Form XObject sit where its record's child
/// range says: the record of sibling `i` names offset `block_start` and
/// count its number of children, and the records from there on are the
/// children's own packing, itself laid out the same way.
pub proof fn lemma_form_children(sibs: Seq<ObjectTree>, depth: nat, base: nat, flags: u32, i: int)
    requires
        0 <= i < sibs.len(),
        expands(sibs[i], depth),
        base + forest_count(sibs, depth) <= u32::MAX,
    ensures
        flat(sibs, depth, base, flags)[i].child_offset == block_start(sibs, depth, base, i),
        flat(sibs, depth, base, flags)[i].child_count == sibs[i].children@.len(),
        flat(sibs, depth, base, flags).subrange(
            block_start(sibs, depth, base, i) - base,
            block_start(sibs, depth, base, i) - base + forest_count(sibs[i].children@, depth + 1),
        ) == flat(sibs[i].children@, depth + 1, block_start(sibs, depth, base, i), flags),
{
    let c = sibs[i].children@;
    let start = block_start(sibs, depth, base, i);
    let n = sibs.len();
    lemma_forest_count(sibs, depth);
    lemma_forest_count(c, depth + 1);
    lemma_below_prefix(sibs, depth, i);
    lemma_below_prefix(sibs, depth, i + 1);
    lemma_blocks_len(sibs, depth, base, flags, i as nat);
    lemma_blocks_len(sibs, depth, base, flags, (i + 1) as nat);
    lemma_blocks_prefix(sibs, depth, base, flags, (i + 1) as nat, n);
    lemma_flat_len(c, depth + 1, start, flags);
    let f = flat(sibs, depth, base, flags);
    let all = blocks(sibs, depth, base, flags, n);
    let upto = blocks(sibs, depth, base, flags, (i + 1) as nat);
    let before = blocks(sibs, depth, base, flags, i as nat);
    assert(upto == before + flat(c, depth + 1, start, flags));
    assert(f[i] == head_record(sibs, depth, base, flags, i));
    assert(c.len() <= forest_count(c, depth + 1));
    assert(f.subrange(start - base, start - base + forest_count(c, depth + 1)) =~= flat(
        c,
        depth + 1,
        start,
        flags,
    )) by {
        assert forall|q: int| 0 <= q < forest_count(c, depth + 1) implies f[start - base + q]
            == #[trigger] flat(c, depth + 1, start, flags)[q] by {
            assert(f[start - base + q] == all[below(sibs.take(i), depth) + q]);
            assert(all[below(sibs.take(i), depth) + q] == upto[below(sibs.take(i), depth) + q]);
        }
    }
}

/// One page whose objects were packed: where its top-level objects are.
pub struct ObjectPage {
    pub page_number: u32,
    pub page_label: Option<String>,
    pub page_width: u32,
    pub page_height: u32,
    pub geometry: Option<(LiteParsePageGeometry, bool)>,
    pub object_offset: usize,
    pub object_count: usize,
}

/// The arrays of a page-objects view, byte-view addresses forgotten.
#[verifier::ext_equal]
pub struct ObjectsView {
    pub pool: Seq<u8>,
    pub pages: Seq<LiteParsePageObjectPage>,
    pub objects: Seq<LiteParsePageObject>,
    pub segments: Seq<LiteParsePathSegment>,
    pub filters: Seq<LiteParseStr>,
}

pub open spec fn empty_objects_view() -> ObjectsView {
    ObjectsView {
        pool: Seq::empty(),
        pages: Seq::empty(),
        objects: Seq::empty(),
        segments: Seq::empty(),
        filters: Seq::empty(),
    }
}

/// A byte view with its address forgotten.
pub open spec fn view_len(v: LiteParseByteView) -> LiteParseByteView {
    LiteParseByteView { ptr: 0, len: v.len }
}

pub open spec fn erase_object(o: LiteParsePageObject) -> LiteParsePageObject {
    LiteParsePageObject {
        image_raw: view_len(o.image_raw),
        image_decoded: view_len(o.image_decoded),
        image_bitmap: view_len(o.image_bitmap),
        ..o
    }
}

/// The record of a packed object with its payload placed: segments from
/// `seg_at`, filters from `filter_at`, image views of the payload's bytes.
pub open spec fn placed(r: LiteParsePageObject, p: ObjectPayload, seg_at: nat, filter_at: nat) -> LiteParsePageObject {
    LiteParsePageObject {
        image_raw: LiteParseByteView { ptr: 0, len: p.image_raw@.len() as usize },
        image_decoded: LiteParseByteView { ptr: 0, len: p.image_decoded@.len() as usize },
        image_bitmap: LiteParseByteView { ptr: 0, len: p.image_bitmap@.len() as usize },
        segment_offset: seg_at as u32,
        segment_count: p.segments@.len() as u32,
        filter_offset: filter_at as u32,
        filter_count: p.filters@.len() as u32,
        ..r
    }
}

/// Placing one object: its segments, its filter names (pooled), its record.
pub open spec fn object_step(v: ObjectsView, r: LiteParsePageObject, p: ObjectPayload) -> ObjectsView {
    let names = p.filters@;
    ObjectsView {
        pool: v.pool + all_appended::<String, LiteParseStr>(names),
        objects: v.objects.push(placed(r, p, v.segments.len(), v.filters.len())),
        segments: v.segments + p.segments@,
        filters: v.filters + Seq::new(
            names.len(),
            |i: int|
                <LiteParseStr as PackFrom<String>>::packed(
                    start_of::<String, LiteParseStr>(v.pool.len(), names, i),
                    &names[i],
                ),
        ),
        ..v
    }
}

pub open spec fn objects_step(v: ObjectsView, rs: Seq<LiteParsePageObject>, ps: Seq<ObjectPayload>) -> ObjectsView
    decreases rs.len(),
{
    if rs.len() == 0 || ps.len() < rs.len() {
        v
    } else {
        object_step(
            objects_step(v, rs.drop_last(), ps),
            rs.last(),
            ps[rs.len() - 1],
        )
    }
}

pub open spec fn object_page_flags(p: ObjectPage) -> u32 {
    bit_if(p.geometry is Some, LITEPARSE_OBJECT_PAGE_FLAG_HAS_GEOMETRY) | bit_if(
        p.geometry matches Some(g) && g.1,
        LITEPARSE_OBJECT_PAGE_FLAG_HAS_ROTATION,
    )
}

/// Placing one page: its label (pooled), then its record.
pub open spec fn object_page_step(v: ObjectsView, p: ObjectPage) -> ObjectsView {
    ObjectsView {
        pool: v.pool + opt_bytes(p.page_label),
        pages: v.pages.push(
            LiteParsePageObjectPage {
                label: str_at(v.pool.len(), p.page_label),
                geometry: match p.geometry {
                    Some(g) => g.0,
                    None => crate::check::no_geometry(),
                },
                page_number: p.page_number,
                flags: object_page_flags(p),
                width: p.page_width,
                height: p.page_height,
                object_offset: p.object_offset as u32,
                object_count: p.object_count as u32,
            },
        ),
        ..v
    }
}

pub open spec fn object_pages_step(v: ObjectsView, ps: Seq<ObjectPage>) -> ObjectsView
    decreases ps.len(),
{
    if ps.len() == 0 {
        v
    } else {
        object_page_step(object_pages_step(v, ps.drop_last()), ps.last())
    }
}

/// The whole view: every object placed, then every page.
pub open spec fn objects_view_of(pages: Seq<ObjectPage>, objects: PackedObjects) -> ObjectsView {
    object_pages_step(
        objects_step(empty_objects_view(), objects.records@, objects.payloads@),
        pages,
    )
}

pub open spec fn objects_fit(v: ObjectsView) -> bool {
    &&& v.pool.len() <= u32::MAX
    &&& v.segments.len() <= u32::MAX
    &&& v.filters.len() <= u32::MAX
}

proof fn lemma_objects_grow(v: ObjectsView, rs: Seq<LiteParsePageObject>, ps: Seq<ObjectPayload>, k: int)
    requires
        0 <= k <= rs.len(),
        rs.len() <= ps.len(),
    ensures
        objects_step(v, rs.take(k), ps).pool.len() <= objects_step(v, rs, ps).pool.len(),
        objects_step(v, rs.take(k), ps).segments.len() <= objects_step(v, rs, ps).segments.len(),
        objects_step(v, rs.take(k), ps).filters.len() <= objects_step(v, rs, ps).filters.len(),
    decreases rs.len() - k,
{
    if k < rs.len() {
        lemma_objects_grow(v, rs, ps, k + 1);
        assert(rs.take(k + 1).drop_last() =~= rs.take(k));
    } else {
        assert(rs.take(k) =~= rs);
    }
}

proof fn lemma_object_pages_grow(v: ObjectsView, ps: Seq<ObjectPage>, k: int)
    requires
        0 <= k <= ps.len(),
    ensures
        object_pages_step(v, ps.take(k)).pool.len() <= object_pages_step(v, ps).pool.len(),
        v.pool.len() <= object_pages_step(v, ps.take(k)).pool.len(),
        object_pages_step(v, ps.take(k)).objects == v.objects,
        object_pages_step(v, ps.take(k)).segments == v.segments,
        object_pages_step(v, ps.take(k)).filters == v.filters,
    decreases ps.len() - k,
{
    if k < ps.len() {
        lemma_object_pages_grow(v, ps, k + 1);
        assert(ps.take(k + 1).drop_last() =~= ps.take(k));
    } else {
        assert(ps.take(k) =~= ps);
    }
    lemma_object_pages_from(v, ps.take(k));
}

proof fn lemma_object_pages_from(v: ObjectsView, ps: Seq<ObjectPage>)
    ensures
        v.pool.len() <= object_pages_step(v, ps).pool.len(),
        object_pages_step(v, ps).objects == v.objects,
        object_pages_step(v, ps).segments == v.segments,
        object_pages_step(v, ps).filters == v.filters,
    decreases ps.len(),
{
    if ps.len() > 0 {
        lemma_object_pages_from(v, ps.drop_last());
    }
}

/// The arrays of a page-objects view, with the pool behind its strings.
pub struct PageObjectsPacked {
    pub pool: Pool,
    pub pages: Vec<LiteParsePageObjectPage>,
    pub objects: Vec<LiteParsePageObject>,
    pub segments: Vec<LiteParsePathSegment>,
    pub filters: Vec<LiteParseStr>,
}

impl PageObjectsPacked {
    pub open spec fn view_of(&self) -> ObjectsView {
        ObjectsView {
            pool: self.pool.view(),
            pages: self.pages@,
            objects: self.objects@.map_values(|o: LiteParsePageObject| erase_object(o)),
            segments: self.segments@,
            filters: self.filters@,
        }
    }

    /// Place the packed objects and the pages into the arrays of a view:
    /// each object's segments and filter names appended, its image
    /// payloads viewed; then each page's record.
    pub fn pack(pages: &Vec<ObjectPage>, objects: &PackedObjects) -> (r: Self)
        requires
            objects.records@.len() == objects.payloads@.len(),
            objects_fit(objects_view_of(pages@, *objects)),
            forall|i: int|
                0 <= i < pages@.len() ==> (#[trigger] pages@[i]).object_offset <= u32::MAX
                    && pages@[i].object_count <= u32::MAX,
        ensures
            r.view_of() == objects_view_of(pages@, *objects),
            forall|k: int|
                0 <= k < r.objects@.len() ==> {
                    &&& (#[trigger] r.objects@[k]).image_raw.len == 0 ==> r.objects@[k].image_raw.ptr
                        == 0
                    &&& r.objects@[k].image_decoded.len == 0 ==> r.objects@[k].image_decoded.ptr == 0
                    &&& r.objects@[k].image_bitmap.len == 0 ==> r.objects@[k].image_bitmap.ptr == 0
                },
    {
        let ghost rs = objects.records@;
        let ghost ps = objects.payloads@;
        let ghost whole = objects_step(empty_objects_view(), rs, ps);
        let mut packed = PageObjectsPacked {
            pool: Pool::new(),
            pages: Vec::new(),
            objects: Vec::new(),
            segments: Vec::new(),
            filters: Vec::new(),
        };
        proof {
            lemma_object_pages_from(whole, pages@);
            assert(packed.view_of() =~= objects_step(empty_objects_view(), rs.take(0), ps));
        }
        let mut k: usize = 0;
        while k < objects.records.len()
            invariant
                0 <= k <= rs.len(),
                rs == objects.records@,
                ps == objects.payloads@,
                rs.len() == ps.len(),
                whole == objects_step(empty_objects_view(), rs, ps),
                objects_fit(whole),
                packed.pages@.len() == 0,
                packed.view_of() == objects_step(empty_objects_view(), rs.take(k as int), ps),
                forall|q: int|
                    0 <= q < packed.objects@.len() ==> {
                        &&& (#[trigger] packed.objects@[q]).image_raw.len == 0
                            ==> packed.objects@[q].image_raw.ptr == 0
                        &&& packed.objects@[q].image_decoded.len == 0
                            ==> packed.objects@[q].image_decoded.ptr == 0
                        &&& packed.objects@[q].image_bitmap.len == 0
                            ==> packed.objects@[q].image_bitmap.ptr == 0
                    },
            decreases rs.len() - k,
        {
            proof {
                lemma_objects_grow(empty_objects_view(), rs, ps, k as int + 1);
                assert(rs.take(k as int + 1).drop_last() =~= rs.take(k as int));
                assert(rs.take(k as int + 1).last() == rs[k as int]);
            }
            let ghost v = packed.view_of();
            let payload = &objects.payloads[k];
            let segment_offset = packed.segments.len();
            append_copies_segments(&mut packed.segments, payload.segments.as_slice());
            let filter_offset = packed.filters.len();
            let names: Vec<LiteParseStr> = pack_all(&mut packed.pool, payload.filters.as_slice());
            crate::projected::append_copies(&mut packed.filters, names.as_slice());
            let mut record = objects.records[k];
            record.image_raw = bytes_view(payload.image_raw.as_slice());
            record.image_decoded = bytes_view(payload.image_decoded.as_slice());
            record.image_bitmap = bytes_view(payload.image_bitmap.as_slice());
            record.segment_offset = segment_offset as u32;
            record.segment_count = payload.segments.len() as u32;
            record.filter_offset = filter_offset as u32;
            record.filter_count = payload.filters.len() as u32;
            let ghost before_objects = packed.objects@;
            packed.objects.push(record);
            k = k + 1;
            proof {
                assert(erase_object(record) == placed(rs[k - 1], ps[k - 1], v.segments.len(), v.filters.len()));
                assert(packed.objects@.map_values(|o: LiteParsePageObject| erase_object(o)) =~= v.objects.push(
                    erase_object(record),
                ));
                assert(packed.view_of() =~= objects_step(empty_objects_view(), rs.take(k as int), ps));
            }
        }
        proof {
            assert(rs.take(rs.len() as int) =~= rs);
        }
        let ghost v0 = packed.view_of();
        let mut i: usize = 0;
        while i < pages.len()
            invariant
                0 <= i <= pages@.len(),
                v0 == whole,
                objects_fit(object_pages_step(whole, pages@)),
                forall|j: int|
                    0 <= j < pages@.len() ==> (#[trigger] pages@[j]).object_offset <= u32::MAX
                        && pages@[j].object_count <= u32::MAX,
                packed.view_of() == object_pages_step(whole, pages@.take(i as int)),
                forall|q: int|
                    0 <= q < packed.objects@.len() ==> {
                        &&& (#[trigger] packed.objects@[q]).image_raw.len == 0
                            ==> packed.objects@[q].image_raw.ptr == 0
                        &&& packed.objects@[q].image_decoded.len == 0
                            ==> packed.objects@[q].image_decoded.ptr == 0
                        &&& packed.objects@[q].image_bitmap.len == 0
                            ==> packed.objects@[q].image_bitmap.ptr == 0
                    },
            decreases pages@.len() - i,
        {
            proof {
                lemma_object_pages_grow(whole, pages@, i as int + 1);
                assert(pages@.take(i as int + 1).drop_last() =~= pages@.take(i as int));
            }
            let ghost v = packed.view_of();
            let page = &pages[i];
            let label = push_opt_string(&mut packed.pool, &page.page_label);
            let (geometry, has_rotation) = crate::check::geometry_or_default(page.geometry);
            packed.pages.push(
                LiteParsePageObjectPage {
                    label,
                    geometry,
                    page_number: page.page_number,
                    flags: flag_if(page.geometry.is_some(), LITEPARSE_OBJECT_PAGE_FLAG_HAS_GEOMETRY)
                        | flag_if(has_rotation, LITEPARSE_OBJECT_PAGE_FLAG_HAS_ROTATION),
                    width: page.page_width,
                    height: page.page_height,
                    object_offset: page.object_offset as u32,
                    object_count: page.object_count as u32,
                },
            );
            i = i + 1;
            proof {
                assert(packed.view_of() =~= object_pages_step(whole, pages@.take(i as int)));
            }
        }
        proof {
            assert(pages@.take(pages@.len() as int) =~= pages@);
        }
        packed
    }
}

fn append_copies_segments(dst: &mut Vec<LiteParsePathSegment>, src: &[LiteParsePathSegment])
    ensures
        final(dst)@ == old(dst)@ + src@,
{
    crate::projected::append_copies(dst, src);
}


/// A packed colour holds alpha, red, green and blue from the high byte
/// down, each channel recoverable from its own byte.
pub proof fn lemma_argb_channels(c: Color)
    ensures
        argb_of(c) >> 24u32 == c.a as u32,
        (argb_of(c) >> 16u32) & 0xffu32 == c.r as u32,
        (argb_of(c) >> 8u32) & 0xffu32 == c.g as u32,
        argb_of(c) & 0xffu32 == c.b as u32,
{
    let v = argb_of(c);
    let a = c.a;
    let r = c.r;
    let g = c.g;
    let b = c.b;
    assert(v >> 24u32 == a as u32 && (v >> 16u32) & 0xffu32 == r as u32 && (v >> 8u32) & 0xffu32
        == g as u32 && v & 0xffu32 == b as u32) by (bit_vector)
        requires
            v == ((a as u32) << 24u32) | ((r as u32) << 16u32) | ((g as u32) << 8u32) | (b as u32),
    ;
}

/// A packed object's fill and stroke words carry its own fill and stroke
/// colours, alpha in the high byte down to blue in the low one, and zero
/// when it has none.
pub proof fn lemma_object_colours(f: ObjectFacts, flags: u32)
    ensures
        ({
            let r = object_record(f, flags);
            &&& match f.fill_color {
                Some(c) => r.fill_color >> 24u32 == c.a as u32 && (r.fill_color >> 16u32) & 0xffu32
                    == c.r as u32 && (r.fill_color >> 8u32) & 0xffu32 == c.g as u32 && r.fill_color
                    & 0xffu32 == c.b as u32,
                None => r.fill_color == 0,
            }
            &&& match f.stroke_color {
                Some(c) => r.stroke_color >> 24u32 == c.a as u32 && (r.stroke_color >> 16u32)
                    & 0xffu32 == c.r as u32 && (r.stroke_color >> 8u32) & 0xffu32 == c.g as u32
                    && r.stroke_color & 0xffu32 == c.b as u32,
                None => r.stroke_color == 0,
            }
        }),
{
    if let Some(c) = f.fill_color {
        lemma_argb_channels(c);
    }
    if let Some(c) = f.stroke_color {
        lemma_argb_channels(c);
    }
}

/// A packed object's kind code names its kind: 0 text, 1 path, 2 image,
/// 3 shading, 4 form XObject, 5 unknown, so distinct kinds get distinct
/// codes.
pub proof fn lemma_object_kind_codes(f: ObjectFacts, flags: u32)
    ensures
        ({
            let k = object_record(f, flags).kind;
            &&& (k == 0) == (f.kind is Text)
            &&& (k == 1) == (f.kind is Path)
            &&& (k == 2) == (f.kind is Image)
            &&& (k == 3) == (f.kind is Shading)
            &&& (k == 4) == (f.kind is Form)
            &&& (k == 5) == (f.kind is Unknown)
        }),
{
}

/// Bitmap format codes name their format: 0 unknown, 1 grey, 2 BGR,
/// 3 BGRx, 4 BGRA, 5 premultiplied BGRA; distinct formats get distinct codes.
pub proof fn lemma_bitmap_format_codes(format: BitmapFormat, other: BitmapFormat)
    ensures
        (format_value(format) == 0) == (format is Unknown),
        (format_value(format) == 1) == (format is Gray),
        (format_value(format) == 2) == (format is Bgr),
        (format_value(format) == 3) == (format is Bgrx),
        (format_value(format) == 4) == (format is Bgra),
        (format_value(format) == 5) == (format is BgraPremul),
        format_value(format) == format_value(other) ==> format == other,
{
}

/// A packed path segment names its kind (0 unknown, 1 move, 2 line,
/// 3 Bézier) and keeps its point, or reads zero without one.
pub proof fn lemma_segment_record_keeps(sf: SegmentFacts)
    ensures
        ({
            let r = segment_record(sf);
            &&& (r.kind == 0) == (sf.kind is None)
            &&& (r.kind == 1) == (sf.kind == Some(SegmentKind::MoveTo))
            &&& (r.kind == 2) == (sf.kind == Some(SegmentKind::LineTo))
            &&& (r.kind == 3) == (sf.kind == Some(SegmentKind::BezierTo))
            &&& (sf.point matches Some(p) ==> r.x == p.x && r.y == p.y)
            &&& (sf.point is None ==> r.x == 0 && r.y == 0)
        }),
{
}

/// A packed object keeps its matrix, bounds, stroke width and image
/// metadata as given, with zero where it has none.
pub proof fn lemma_object_record_keeps(f: ObjectFacts, flags: u32)
    ensures
        ({
            let r = object_record(f, flags);
            &&& (f.matrix matches Some(m) ==> r.matrix == m)
            &&& (f.bounds matches Some(b) ==> r.bounds == b)
            &&& (f.stroke_width matches Some(w) ==> r.stroke_width == w)
            &&& (f.stroke_width is None ==> r.stroke_width == 0)
            &&& (f.metadata matches Some(m) ==> r.image_width == m.width && r.image_height
                == m.height && r.image_horizontal_dpi == m.horizontal_dpi && r.image_vertical_dpi
                == m.vertical_dpi && r.image_bits_per_pixel == m.bits_per_pixel
                && r.image_colorspace == m.colorspace && r.image_marked_content_id
                == m.marked_content_id)
            &&& (f.metadata is None ==> r.image_width == 0 && r.image_height == 0)
        }),
{
}

} // verus!
