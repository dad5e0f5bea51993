//! Parser configuration as a C caller supplies it, checked and applied over
//! the parsing core's defaults.

use vstd::prelude::*;
use vstd::string::StringExecFns;
use vstd::utf8::{valid_utf8, decode_utf8};
use crate::check::{
    RawView, f32_finite, f32_positive, f32_zero, is_finite, is_positive, is_zero, only_known, optional_view_str,
    required_view_str, utf8_error_text,
};
use crate::handle::LiteParseByteView;
use crate::status::{FfiError, FfiResult, LITEPARSE_STATUS_INVALID_ARGUMENT, LITEPARSE_STATUS_INVALID_CONFIG};
use crate::text::{decimal, push_decimal};

verus! {

/// Values for `LiteParseConfig.output_format`.
pub const LITEPARSE_OUTPUT_FORMAT_JSON: u32 = 0;
pub const LITEPARSE_OUTPUT_FORMAT_TEXT: u32 = 1;
pub const LITEPARSE_OUTPUT_FORMAT_MARKDOWN: u32 = 2;
/// Values for `LiteParseConfig.image_mode`.
pub const LITEPARSE_IMAGE_MODE_OFF: u32 = 0;
pub const LITEPARSE_IMAGE_MODE_PLACEHOLDER: u32 = 1;
pub const LITEPARSE_IMAGE_MODE_EMBED: u32 = 2;
/// Keep the native default in fields where zero is not meaningful.
pub const LITEPARSE_UNSET: u32 = 0xffff_ffff;

/// `LiteParseConfig.flags`: the crop box is given.
pub const LITEPARSE_CONFIG_FLAG_HAS_CROP_BOX: u32 = 1;
/// Every `LITEPARSE_CONFIG_FLAG_*` bit.
pub const CONFIG_FLAGS: u32 = 1;

// Boolean switches; bits are ABI-stable.
pub const LITEPARSE_FLAG_CONTINUE_ON_PAGE_ERROR: u64 = 1;
pub const LITEPARSE_FLAG_DETECT_SCREENSHOT_RECTS: u64 = 2;
pub const LITEPARSE_FLAG_EMIT_WORD_BOXES: u64 = 4;
pub const LITEPARSE_FLAG_EXTRACT_ANNOTATIONS: u64 = 8;
pub const LITEPARSE_FLAG_EXTRACT_BLOCKS: u64 = 16;
pub const LITEPARSE_FLAG_EXTRACT_CONTENT_BOUNDS: u64 = 32;
pub const LITEPARSE_FLAG_EXTRACT_DOCUMENT_METADATA: u64 = 64;
pub const LITEPARSE_FLAG_EXTRACT_FORM_FIELDS: u64 = 128;
pub const LITEPARSE_FLAG_EXTRACT_IMAGES: u64 = 256;
pub const LITEPARSE_FLAG_EXTRACT_LINKS: u64 = 512;
pub const LITEPARSE_FLAG_EXTRACT_STRUCTURE_TREE: u64 = 1024;
pub const LITEPARSE_FLAG_EXTRACT_TEXT_METADATA: u64 = 2048;
pub const LITEPARSE_FLAG_EXTRACT_VECTOR_GRAPHICS: u64 = 4096;
pub const LITEPARSE_FLAG_EXTRACT_XFA_PACKETS: u64 = 8192;
pub const LITEPARSE_FLAG_INCLUDE_COMPLEXITY: u64 = 16384;
pub const LITEPARSE_FLAG_KEEP_HEADERS_FOOTERS: u64 = 32768;
pub const LITEPARSE_FLAG_OCR_ENABLED: u64 = 65536;
pub const LITEPARSE_FLAG_OCR_FAILURE_FATAL: u64 = 131072;
pub const LITEPARSE_FLAG_PRESERVE_VERY_SMALL_TEXT: u64 = 262144;
pub const LITEPARSE_FLAG_QUIET: u64 = 524288;
pub const LITEPARSE_FLAG_RENDER_FORM_FIELDS: u64 = 1048576;
pub const LITEPARSE_FLAG_SKIP_DIAGONAL_TEXT: u64 = 2097152;
pub const LITEPARSE_FLAG_EXTRACT_SCREENSHOTS: u64 = 4194304;
/// Every `LITEPARSE_FLAG_*` bit: the switches are numbered without gaps.
pub const LITEPARSE_FLAG_ALL: u64 = 8388607;

/// The core's output formats.
#[derive(Clone, Copy, Debug, PartialEq, Eq, Structural)]
pub enum OutputFormat {
    Json,
    Text,
    Markdown,
}

/// The core's image handling modes.
#[derive(Clone, Copy, Debug, PartialEq, Eq, Structural)]
pub enum ImageMode {
    Off,
    Placeholder,
    Embed,
}

/// Crop fractions (top, right, bottom, left) as `f32` bit patterns.
#[derive(Clone, Copy, Debug, PartialEq, Eq, Structural)]
pub struct CropBox {
    pub top: u32,
    pub right: u32,
    pub bottom: u32,
    pub left: u32,
}

/// The parsing core's configuration. `switches` holds the boolean
/// settings, one `LITEPARSE_FLAG_*` bit each; `dpi` is an `f32` bit
/// pattern.
pub struct ParserConfig {
    pub switches: u64,
    pub max_pages: usize,
    pub num_workers: usize,
    pub dpi: u32,
    pub output_format: OutputFormat,
    pub image_mode: ImageMode,
    pub crop_box: Option<CropBox>,
    pub ocr_language: String,
    pub ocr_server_url: Option<String>,
    pub tessdata_path: Option<String>,
    pub password: Option<String>,
    pub image_output_dir: Option<String>,
    pub ocr_server_headers: Vec<(String, String)>,
    pub ocr_hedge_delays_ms: Vec<u64>,
}

/// Switches after applying `values` to the switches selected by `set`.
pub open spec fn switched(current: u64, set: u64, values: u64) -> u64 {
    (current & !set) | (values & set)
}

/// Apply the selected switches: each bit in `set` takes its value from
/// `values`; the others keep theirs.
pub fn apply_flags(set: u64, values: u64, config: &mut ParserConfig)
    ensures
        final(config).switches == switched(old(config).switches, set, values),
        final(config).max_pages == old(config).max_pages,
        final(config).num_workers == old(config).num_workers,
        final(config).dpi == old(config).dpi,
        final(config).output_format == old(config).output_format,
        final(config).image_mode == old(config).image_mode,
        final(config).crop_box == old(config).crop_box,
        final(config).ocr_language@ == old(config).ocr_language@,
        final(config).ocr_server_url == old(config).ocr_server_url,
        final(config).tessdata_path == old(config).tessdata_path,
        final(config).password == old(config).password,
        final(config).image_output_dir == old(config).image_output_dir,
        final(config).ocr_server_headers@ == old(config).ocr_server_headers@,
        final(config).ocr_hedge_delays_ms@ == old(config).ocr_hedge_delays_ms@,
{
    config.switches = (config.switches & !set) | (values & set);
}

/// Applying switches sets exactly the selected bits to their values and
/// keeps the others; applying the same switches again changes nothing.
pub proof fn lemma_switches(current: u64, set: u64, values: u64)
    ensures
        switched(current, set, values) & set == values & set,
        switched(current, set, values) & !set == current & !set,
        switched(switched(current, set, values), set, values) == switched(current, set, values),
{
    assert(((current & !set) | (values & set)) & set == values & set) by (bit_vector);
    assert(((current & !set) | (values & set)) & !set == current & !set) by (bit_vector);
    let s1 = (current & !set) | (values & set);
    assert((s1 & !set) | (values & set) == s1) by (bit_vector)
        requires
            s1 == (current & !set) | (values & set),
    ;
}

/// Whether images are extracted: asked for, or needed to embed them.
pub open spec fn effective_extract_images(c: ParserConfig) -> bool {
    c.switches & LITEPARSE_FLAG_EXTRACT_IMAGES != 0 || c.image_mode == ImageMode::Embed
}

/// One HTTP OCR header as the C record carries it, copied by parser
/// creation.
#[derive(Clone, Copy, Debug, PartialEq, Eq, Structural)]
pub struct LiteParseHeader {
    pub name: LiteParseByteView,
    pub value: LiteParseByteView,
}

/// One OCR server header as the caller supplies it, each view resolved to
/// the bytes it points at.
pub struct RawHeader<'a> {
    pub name: RawView<'a>,
    pub value: RawView<'a>,
}

/// A `LiteParseConfig` as the C caller filled it; single-precision fields
/// are bit patterns, views are resolved to what they point at.
pub struct RawConfig<'a> {
    pub size_of_config: usize,
    pub bools_set: u64,
    pub bools_values: u64,
    pub max_pages: usize,
    pub num_workers: usize,
    pub dpi: u32,
    pub output_format: u32,
    pub image_mode: u32,
    pub crop_box: [u32; 4],
    /// `LITEPARSE_CONFIG_FLAG_*` bits.
    pub flags: u32,
    pub ocr_language: RawView<'a>,
    pub ocr_server_url: RawView<'a>,
    pub tessdata_path: RawView<'a>,
    pub password: RawView<'a>,
    pub image_output_dir: RawView<'a>,
    pub ocr_server_headers: Vec<RawHeader<'a>>,
    pub ocr_hedge_delays_ms: Vec<u64>,
    pub font_db_dir: RawView<'a>,
    pub orientation_corrections: Vec<LiteParsePageOrientationCorrection>,
}

/// A caller's correction of one page's orientation: the page and the
/// clockwise angle in degrees it is turned by.
#[derive(Clone, Copy, Debug, PartialEq, Eq, Structural)]
pub struct LiteParsePageOrientationCorrection {
    pub page: u32,
    pub angle: u32,
}

/// Whether the configuration gives a crop box.
pub open spec fn has_crop_box(raw: RawConfig) -> bool {
    raw.flags & LITEPARSE_CONFIG_FLAG_HAS_CROP_BOX != 0
}

/// An orientation correction turns a page by a whole number of quarter
/// turns.
pub open spec fn angle_ok(angle: u32) -> bool {
    angle == 0 || angle == 90 || angle == 180 || angle == 270
}

pub open spec fn correction_ok(c: LiteParsePageOrientationCorrection) -> bool {
    angle_ok(c.angle)
}

pub open spec fn corrections_ok(cs: Seq<LiteParsePageOrientationCorrection>) -> bool {
    forall|i: int| 0 <= i < cs.len() ==> #[trigger] correction_ok(cs[i])
}

/// The message for the first orientation correction of `cs` whose angle is
/// not a quarter turn.
pub open spec fn corrections_message(cs: Seq<LiteParsePageOrientationCorrection>) -> Seq<char> {
    let i = crate::content::first_fail(cs, |c: LiteParsePageOrientationCorrection| correction_ok(c));
    "orientation_corrections["@ + decimal(i as nat) + "].angle must be 0, 90, 180 or 270, not "@ + decimal(
        cs[i].angle as nat,
    )
}

/// Check the orientation corrections; each becomes `(page, angle)`.
fn check_corrections(cs: &Vec<LiteParsePageOrientationCorrection>) -> (r: FfiResult<Vec<(u32, u32)>>)
    ensures
        r is Ok <==> corrections_ok(cs@),
        r matches Ok(v) ==> v@.len() == cs@.len() && forall|i: int|
            0 <= i < cs@.len() ==> #[trigger] v@[i] == (cs@[i].page, cs@[i].angle),
        r matches Err(e) ==> e.status == LITEPARSE_STATUS_INVALID_CONFIG && e.message@ == corrections_message(
            cs@,
        ),
{
    let mut out: Vec<(u32, u32)> = Vec::new();
    let mut i: usize = 0;
    proof {
        crate::content::lemma_first_fail(cs@, |c: LiteParsePageOrientationCorrection| correction_ok(c));
    }
    while i < cs.len()
        invariant
            0 <= i <= cs@.len(),
            forall|k: int| 0 <= k < i ==> #[trigger] correction_ok(cs@[k]),
            out@.len() == i,
            forall|k: int| 0 <= k < i ==> #[trigger] out@[k] == (cs@[k].page, cs@[k].angle),
        decreases cs@.len() - i,
    {
        let c = cs[i];
        if !(c.angle == 0 || c.angle == 90 || c.angle == 180 || c.angle == 270) {
            proof {
                crate::content::lemma_first_fail(cs@, |c: LiteParsePageOrientationCorrection| correction_ok(c));
                assert(crate::content::first_fail(cs@, |c: LiteParsePageOrientationCorrection| correction_ok(c)) == i);
            }
            let mut message = String::from_str("orientation_corrections[");
            push_decimal(&mut message, i as u64);
            message.append("].angle must be 0, 90, 180 or 270, not ");
            push_decimal(&mut message, c.angle as u64);
            return Err(FfiError::invalid_config(message));
        }
        out.push((c.page, c.angle));
        i = i + 1;
    }
    Ok(out)
}

/// The crop box of caller fractions ordered top, right, bottom, left.
pub open spec fn crop_of(f: [u32; 4]) -> CropBox {
    CropBox { top: f[0], right: f[1], bottom: f[2], left: f[3] }
}

/// The configuration a parser is built from.
pub struct OwnedParserConfig {
    pub core: ParserConfig,
    /// Glyph database directory; an empty path counts as absent.
    pub font_db_dir: Option<String>,
    /// Pages whose orientation the caller corrects, with the angle.
    pub orientation_corrections: Vec<(u32, u32)>,
}

pub open spec fn format_of(code: u32) -> Option<OutputFormat> {
    if code == LITEPARSE_OUTPUT_FORMAT_JSON {
        Some(OutputFormat::Json)
    } else if code == LITEPARSE_OUTPUT_FORMAT_TEXT {
        Some(OutputFormat::Text)
    } else if code == LITEPARSE_OUTPUT_FORMAT_MARKDOWN {
        Some(OutputFormat::Markdown)
    } else {
        None
    }
}

pub open spec fn mode_of(code: u32) -> Option<ImageMode> {
    if code == LITEPARSE_IMAGE_MODE_OFF {
        Some(ImageMode::Off)
    } else if code == LITEPARSE_IMAGE_MODE_PLACEHOLDER {
        Some(ImageMode::Placeholder)
    } else if code == LITEPARSE_IMAGE_MODE_EMBED {
        Some(ImageMode::Embed)
    } else {
        None
    }
}

/// The output format a code names.
pub fn output_format(code: u32) -> (r: FfiResult<OutputFormat>)
    ensures
        r is Ok <==> format_of(code) is Some,
        r matches Ok(f) ==> format_of(code) == Some(f),
        r matches Err(e) ==> e.status == LITEPARSE_STATUS_INVALID_CONFIG && e.message@
            == "unknown output format"@,
{
    if code == LITEPARSE_OUTPUT_FORMAT_JSON {
        Ok(OutputFormat::Json)
    } else if code == LITEPARSE_OUTPUT_FORMAT_TEXT {
        Ok(OutputFormat::Text)
    } else if code == LITEPARSE_OUTPUT_FORMAT_MARKDOWN {
        Ok(OutputFormat::Markdown)
    } else {
        Err(FfiError::invalid_config(String::from_str("unknown output format")))
    }
}

/// The image mode a code names.
pub fn image_mode(code: u32) -> (r: FfiResult<ImageMode>)
    ensures
        r is Ok <==> mode_of(code) is Some,
        r matches Ok(m) ==> mode_of(code) == Some(m),
        r matches Err(e) ==> e.status == LITEPARSE_STATUS_INVALID_CONFIG && e.message@
            == "unknown image mode"@,
{
    if code == LITEPARSE_IMAGE_MODE_OFF {
        Ok(ImageMode::Off)
    } else if code == LITEPARSE_IMAGE_MODE_PLACEHOLDER {
        Ok(ImageMode::Placeholder)
    } else if code == LITEPARSE_IMAGE_MODE_EMBED {
        Ok(ImageMode::Embed)
    } else {
        Err(FfiError::invalid_config(String::from_str("unknown image mode")))
    }
}

/// The message for a record of the wrong size.
pub open spec fn size_message(name: Seq<char>, actual: usize, expected: usize) -> Seq<char> {
    name + ".size_of_"@ + name + " is "@ + decimal(actual as nat) + " but this library expects "@
        + decimal(expected as nat) + "; rebuild against the current header"@
}

/// Reject a record whose declared size is not this library's.
pub fn check_size(name: &str, actual: usize, expected: usize) -> (r: FfiResult<()>)
    ensures
        r is Ok <==> actual == expected,
        r matches Err(e) ==> e.status == LITEPARSE_STATUS_INVALID_ARGUMENT && e.message@
            == size_message(name@, actual, expected),
{
    if actual == expected {
        return Ok(());
    }
    let mut message = String::from_str(name);
    message.append(".size_of_");
    message.append(name);
    message.append(" is ");
    push_decimal(&mut message, actual as u64);
    message.append(" but this library expects ");
    push_decimal(&mut message, expected as u64);
    message.append("; rebuild against the current header");
    Err(FfiError::invalid_argument(message))
}

pub open spec fn dpi_ok(dpi: u32) -> bool {
    f32_zero(dpi) || (f32_finite(dpi) && f32_positive(dpi))
}

pub open spec fn view_text(v: RawView) -> Option<Option<Seq<char>>> {
    match v {
        RawView::Null { len } => if len == 0 {
            Some(None)
        } else {
            None
        },
        RawView::Bytes(b) => if valid_utf8(b@) {
            Some(Some(decode_utf8(b@)))
        } else {
            None
        },
    }
}

/// The message for a string view named `name` that does not read: a
/// null pointer with a length, or bytes that are not UTF-8.
pub open spec fn view_message(v: RawView, name: Seq<char>) -> Seq<char> {
    match v {
        RawView::Null { .. } => name + " must have length zero when its pointer is null"@,
        RawView::Bytes(b) => name + " is not valid UTF-8: "@ + crate::check::utf8_error_text(b@),
    }
}

/// The message for the first string setting of `raw` that does not read,
/// in the order they are read.
pub open spec fn strings_message(raw: RawConfig) -> Seq<char> {
    if view_text(raw.ocr_language) is None {
        view_message(raw.ocr_language, "ocr_language"@)
    } else if view_text(raw.ocr_server_url) is None {
        view_message(raw.ocr_server_url, "ocr_server_url"@)
    } else if view_text(raw.tessdata_path) is None {
        view_message(raw.tessdata_path, "tessdata_path"@)
    } else if view_text(raw.password) is None {
        view_message(raw.password, "password"@)
    } else if view_text(raw.image_output_dir) is None {
        view_message(raw.image_output_dir, "image_output_dir"@)
    } else {
        view_message(raw.font_db_dir, "font_db_dir"@)
    }
}

fn opt_str(v: RawView, name: &str) -> (r: FfiResult<Option<String>>)
    ensures
        r is Ok <==> view_text(v) is Some,
        r matches Ok(s) ==> view_text(v) == Some(
            match s {
                Some(t) => Some(t@),
                None => None,
            },
        ),
        r matches Err(e) ==> e.status == LITEPARSE_STATUS_INVALID_ARGUMENT && e.message@ == view_message(
            v,
            name@,
        ),
{
    optional_view_str(v, name)
}

/// The checks on the scalar settings pass: DPI, format and image mode
/// codes, and the crop box when one is given.
pub open spec fn scalars_ok(raw: RawConfig, crop_box_ok: bool) -> bool {
    &&& only_known(raw.flags, CONFIG_FLAGS)
    &&& dpi_ok(raw.dpi)
    &&& (raw.output_format == LITEPARSE_UNSET || format_of(raw.output_format) is Some)
    &&& (raw.image_mode == LITEPARSE_UNSET || mode_of(raw.image_mode) is Some)
    &&& (has_crop_box(raw) ==> crop_box_ok)
}

/// Every string setting is absent or UTF-8.
pub open spec fn strings_ok(raw: RawConfig) -> bool {
    &&& view_text(raw.ocr_language) is Some
    &&& view_text(raw.ocr_server_url) is Some
    &&& view_text(raw.tessdata_path) is Some
    &&& view_text(raw.password) is Some
    &&& view_text(raw.image_output_dir) is Some
    &&& view_text(raw.font_db_dir) is Some
}

/// An image directory is given only where images are extracted.
pub open spec fn images_ok(raw: RawConfig, defaults: ParserConfig) -> bool {
    let dir = if view_text(raw.image_output_dir) == Some(None::<Seq<char>>) {
        false
    } else {
        true
    };
    let switches = switched(defaults.switches, raw.bools_set, raw.bools_values);
    let mode = if raw.image_mode == LITEPARSE_UNSET {
        defaults.image_mode
    } else {
        or_mode(mode_of(raw.image_mode), defaults.image_mode)
    };
    dir ==> (switches & LITEPARSE_FLAG_EXTRACT_IMAGES != 0 || mode == ImageMode::Embed)
}

/// Whether the caller's configuration is accepted.
pub open spec fn config_accepted(
    raw: RawConfig,
    expected_size: usize,
    defaults: ParserConfig,
    crop_box_ok: bool,
) -> bool {
    &&& raw.size_of_config == expected_size
    &&& scalars_ok(raw, crop_box_ok)
    &&& corrections_ok(raw.orientation_corrections@)
    &&& strings_ok(raw)
    &&& headers_ok(raw.ocr_server_headers@)
    &&& images_ok(raw, defaults)
}

/// A path that is empty counts as absent.
pub open spec fn nonempty(t: Option<Seq<char>>) -> Option<Seq<char>> {
    match t {
        Some(p) => if p.len() == 0 {
            None
        } else {
            Some(p)
        },
        None => None,
    }
}

/// Check the caller's configuration and apply it over `defaults`, the
/// core's defaults. `crop_box_ok` says whether the crop fractions, when
/// given, are finite, within `[0, 1]` and leave an uncovered axis; that
/// check is single-precision arithmetic made outside.
pub fn owned_config(raw: &RawConfig, expected_size: usize, defaults: ParserConfig, crop_box_ok: bool) -> (r: FfiResult<
    OwnedParserConfig,
>)
    ensures
        raw.size_of_config != expected_size ==> (r matches Err(e) && e.status
            == LITEPARSE_STATUS_INVALID_ARGUMENT && e.message@ == size_message(
            "config"@,
            raw.size_of_config,
            expected_size,
        )),
        raw.size_of_config == expected_size && !only_known(raw.flags, CONFIG_FLAGS) ==> (r matches Err(e)
            && e.status == LITEPARSE_STATUS_INVALID_CONFIG && e.message@ == "config.flags contains unknown bits"@),
        raw.size_of_config == expected_size && only_known(raw.flags, CONFIG_FLAGS) && !dpi_ok(raw.dpi) ==> (r matches Err(e) && e.status
            == LITEPARSE_STATUS_INVALID_CONFIG && e.message@
            == "dpi must be finite and greater than zero"@),
        raw.size_of_config == expected_size && only_known(raw.flags, CONFIG_FLAGS) && dpi_ok(raw.dpi) && raw.output_format != LITEPARSE_UNSET
            && format_of(raw.output_format) is None ==> (r matches Err(e) && e.status
            == LITEPARSE_STATUS_INVALID_CONFIG && e.message@ == "unknown output format"@),
        raw.size_of_config == expected_size && only_known(raw.flags, CONFIG_FLAGS) && dpi_ok(raw.dpi) && (raw.output_format
            == LITEPARSE_UNSET || format_of(raw.output_format) is Some) && raw.image_mode
            != LITEPARSE_UNSET && mode_of(raw.image_mode) is None ==> (r matches Err(e) && e.status
            == LITEPARSE_STATUS_INVALID_CONFIG && e.message@ == "unknown image mode"@),
        raw.size_of_config == expected_size && only_known(raw.flags, CONFIG_FLAGS) && dpi_ok(raw.dpi) && (raw.output_format
            == LITEPARSE_UNSET || format_of(raw.output_format) is Some) && (raw.image_mode
            == LITEPARSE_UNSET || mode_of(raw.image_mode) is Some) && has_crop_box(*raw)
            && !crop_box_ok ==> (r matches Err(e) && e.status == LITEPARSE_STATUS_INVALID_CONFIG
            && e.message@
            == "crop_box fractions must be finite, within [0, 1], and leave at least one uncovered axis"@),
        raw.size_of_config == expected_size && scalars_ok(*raw, crop_box_ok) && !corrections_ok(
            raw.orientation_corrections@,
        ) ==> (r matches Err(e) && e.status == LITEPARSE_STATUS_INVALID_CONFIG && e.message@
            == corrections_message(raw.orientation_corrections@)),
        r is Ok <==> config_accepted(*raw, expected_size, defaults, crop_box_ok),
        raw.size_of_config == expected_size && scalars_ok(*raw, crop_box_ok) && corrections_ok(raw.orientation_corrections@)
            && !strings_ok(*raw)
            ==> (r matches Err(e) && e.status == LITEPARSE_STATUS_INVALID_ARGUMENT && e.message@
            == strings_message(*raw)),
        raw.size_of_config == expected_size && scalars_ok(*raw, crop_box_ok) && corrections_ok(raw.orientation_corrections@)
            && strings_ok(*raw)
            && !headers_ok(raw.ocr_server_headers@) ==> (r matches Err(e) && e.status
            == LITEPARSE_STATUS_INVALID_ARGUMENT && e.message@ == headers_message(raw.ocr_server_headers@)),
        raw.size_of_config == expected_size && scalars_ok(*raw, crop_box_ok) && corrections_ok(raw.orientation_corrections@)
            && strings_ok(*raw)
            && headers_ok(raw.ocr_server_headers@) && !images_ok(*raw, defaults) ==> (r matches Err(
            e,
        ) && e.status == LITEPARSE_STATUS_INVALID_CONFIG && e.message@
            == "image_output_dir requires extract_images = true or image_mode = \"embed\""@),
        r matches Ok(c) ==> (raw.size_of_config == expected_size),
        r matches Ok(c) ==> (c.orientation_corrections@.len() == raw.orientation_corrections@.len()),
        r matches Ok(c) ==> (forall|i: int|
            0 <= i < raw.orientation_corrections@.len() ==> #[trigger] c.orientation_corrections@[i] == (
                raw.orientation_corrections@[i].page,
                raw.orientation_corrections@[i].angle,
            )),
        r matches Ok(c) ==> (dpi_ok(raw.dpi)),
        r matches Ok(c) ==> (c.core.switches == switched(defaults.switches, raw.bools_set, raw.bools_values)),
        r matches Ok(c) ==> (c.core.max_pages == (if raw.max_pages != 0 {
                raw.max_pages
            } else {
                defaults.max_pages
            })),
        r matches Ok(c) ==> (c.core.num_workers == (if raw.num_workers != 0 {
                raw.num_workers
            } else {
                defaults.num_workers
            })),
        r matches Ok(c) ==> (c.core.dpi == (if f32_zero(raw.dpi) {
                defaults.dpi
            } else {
                raw.dpi
            })),
        r matches Ok(c) ==> (raw.output_format != LITEPARSE_UNSET ==> format_of(raw.output_format) == Some(
                c.core.output_format,
            )),
        r matches Ok(c) ==> (raw.output_format == LITEPARSE_UNSET ==> c.core.output_format
                == defaults.output_format),
        r matches Ok(c) ==> (raw.image_mode != LITEPARSE_UNSET ==> mode_of(raw.image_mode) == Some(
                c.core.image_mode,
            )),
        r matches Ok(c) ==> (raw.image_mode == LITEPARSE_UNSET ==> c.core.image_mode == defaults.image_mode),
        r matches Ok(c) ==> (c.core.crop_box == (if has_crop_box(*raw) {
            Some(crop_of(raw.crop_box))
        } else {
            defaults.crop_box
        })),
        r matches Ok(c) ==> ((has_crop_box(*raw) ==> crop_box_ok)),
        r matches Ok(c) ==> (view_text(raw.ocr_language) is Some),
        r matches Ok(c) ==> (c.core.ocr_language@ == (match view_text(raw.ocr_language) {
                Some(Some(t)) => t,
                _ => defaults.ocr_language@,
            })),
        r matches Ok(c) ==> (view_text(raw.ocr_server_url) is Some),
        r matches Ok(c) ==> (opt_string(c.core.ocr_server_url) == opt_text(view_text(raw.ocr_server_url))),
        r matches Ok(c) ==> (opt_string(c.core.tessdata_path) == opt_text(view_text(raw.tessdata_path))),
        r matches Ok(c) ==> (opt_string(c.core.password) == opt_text(view_text(raw.password))),
        r matches Ok(c) ==> (opt_string(c.core.image_output_dir) == opt_text(
            view_text(raw.image_output_dir),
        )),
        r matches Ok(c) ==> (opt_string(c.font_db_dir) == nonempty(opt_text(view_text(raw.font_db_dir)))),
        r matches Ok(c) ==> (view_text(raw.tessdata_path) is Some),
        r matches Ok(c) ==> (view_text(raw.password) is Some),
        r matches Ok(c) ==> (view_text(raw.image_output_dir) is Some),
        r matches Ok(c) ==> (view_text(raw.font_db_dir) is Some),
        r matches Ok(c) ==> (headers_ok(raw.ocr_server_headers@)),
        r matches Ok(c) ==> (c.core.ocr_server_headers@.len() == defaults.ocr_server_headers@.len()
                + raw.ocr_server_headers@.len()),
        r matches Ok(c) ==> (forall|k: int|
            0 <= k < defaults.ocr_server_headers@.len() ==> #[trigger] c.core.ocr_server_headers@[k]
                == defaults.ocr_server_headers@[k]),
        r matches Ok(c) ==> (forall|k: int|
            0 <= k < raw.ocr_server_headers@.len() ==> header_matches(
                #[trigger] c.core.ocr_server_headers@[defaults.ocr_server_headers@.len() + k],
                raw.ocr_server_headers@[k],
            )),
        r matches Ok(c) ==> (c.core.ocr_hedge_delays_ms@ == defaults.ocr_hedge_delays_ms@
                + raw.ocr_hedge_delays_ms@),
        r matches Ok(c) ==> ((c.core.image_output_dir is Some ==> effective_extract_images(c.core))),
{
    match check_size("config", raw.size_of_config, expected_size) {
        Ok(()) => {},
        Err(e) => return Err(e),
    }
    let mut config = match apply_scalars(raw, defaults, crop_box_ok) {
        Ok(c) => c,
        Err(e) => return Err(e),
    };
    let orientation_corrections = match check_corrections(&raw.orientation_corrections) {
        Ok(v) => v,
        Err(e) => return Err(e),
    };
    let font_db_dir = match apply_strings(raw, &mut config) {
        Ok(d) => d,
        Err(e) => return Err(e),
    };
    match apply_lists(raw, &mut config) {
        Ok(()) => {},
        Err(e) => return Err(e),
    }
    let extract_images = config.switches & LITEPARSE_FLAG_EXTRACT_IMAGES != 0 || config.image_mode
        == ImageMode::Embed;
    if config.image_output_dir.is_some() && !extract_images {
        return Err(
            FfiError::invalid_config(
                String::from_str(
                    "image_output_dir requires extract_images = true or image_mode = \"embed\"",
                ),
            ),
        );
    }
    Ok(OwnedParserConfig { core: config, font_db_dir, orientation_corrections })
}

/// The scalar settings: switches, limits, DPI, format, image mode, crop.
fn apply_scalars(raw: &RawConfig, defaults: ParserConfig, crop_box_ok: bool) -> (r: FfiResult<ParserConfig>)
    ensures
        !only_known(raw.flags, CONFIG_FLAGS) ==> (r matches Err(e) && e.status == LITEPARSE_STATUS_INVALID_CONFIG
            && e.message@ == "config.flags contains unknown bits"@),
        only_known(raw.flags, CONFIG_FLAGS) && !dpi_ok(raw.dpi) ==> (r matches Err(e) && e.status == LITEPARSE_STATUS_INVALID_CONFIG
            && e.message@ == "dpi must be finite and greater than zero"@),
        only_known(raw.flags, CONFIG_FLAGS) && dpi_ok(raw.dpi) && raw.output_format != LITEPARSE_UNSET && format_of(raw.output_format)
            is None ==> (r matches Err(e) && e.status == LITEPARSE_STATUS_INVALID_CONFIG
            && e.message@ == "unknown output format"@),
        only_known(raw.flags, CONFIG_FLAGS) && dpi_ok(raw.dpi) && (raw.output_format == LITEPARSE_UNSET || format_of(raw.output_format)
            is Some) && raw.image_mode != LITEPARSE_UNSET && mode_of(raw.image_mode) is None ==> (
        r matches Err(e) && e.status == LITEPARSE_STATUS_INVALID_CONFIG && e.message@
            == "unknown image mode"@),
        only_known(raw.flags, CONFIG_FLAGS) && dpi_ok(raw.dpi) && (raw.output_format == LITEPARSE_UNSET || format_of(raw.output_format)
            is Some) && (raw.image_mode == LITEPARSE_UNSET || mode_of(raw.image_mode) is Some)
            && has_crop_box(*raw) && !crop_box_ok ==> (r matches Err(e) && e.status
            == LITEPARSE_STATUS_INVALID_CONFIG && e.message@
            == "crop_box fractions must be finite, within [0, 1], and leave at least one uncovered axis"@),
        r is Ok <==> scalars_ok(*raw, crop_box_ok),
        r matches Ok(c) ==> scalars_applied(c, *raw, defaults),
{
    if raw.flags & !CONFIG_FLAGS != 0 {
        return Err(FfiError::invalid_config(String::from_str("config.flags contains unknown bits")));
    }
    let mut config = defaults;
    apply_flags(raw.bools_set, raw.bools_values, &mut config);
    if raw.max_pages != 0 {
        config.max_pages = raw.max_pages;
    }
    if raw.num_workers != 0 {
        config.num_workers = raw.num_workers;
    }
    if !is_zero(raw.dpi) {
        if !is_finite(raw.dpi) || !is_positive(raw.dpi) {
            return Err(
                FfiError::invalid_config(String::from_str("dpi must be finite and greater than zero")),
            );
        }
        config.dpi = raw.dpi;
    }
    if raw.output_format != LITEPARSE_UNSET {
        config.output_format = match output_format(raw.output_format) {
            Ok(f) => f,
            Err(e) => return Err(e),
        };
    }
    if raw.image_mode != LITEPARSE_UNSET {
        config.image_mode = match image_mode(raw.image_mode) {
            Ok(m) => m,
            Err(e) => return Err(e),
        };
    }
    if raw.flags & LITEPARSE_CONFIG_FLAG_HAS_CROP_BOX != 0 {
        if !crop_box_ok {
            return Err(
                FfiError::invalid_config(
                    String::from_str(
                        "crop_box fractions must be finite, within [0, 1], and leave at least one uncovered axis",
                    ),
                ),
            );
        }
        config.crop_box = Some(
            CropBox {
                top: raw.crop_box[0],
                right: raw.crop_box[1],
                bottom: raw.crop_box[2],
                left: raw.crop_box[3],
            },
        );
    }
    Ok(config)
}

/// The scalar settings of `raw` applied over `defaults`.
pub open spec fn scalars_applied(c: ParserConfig, raw: RawConfig, defaults: ParserConfig) -> bool {
    &&& c.switches == switched(defaults.switches, raw.bools_set, raw.bools_values)
    &&& c.max_pages == (if raw.max_pages != 0 {
        raw.max_pages
    } else {
        defaults.max_pages
    })
    &&& c.num_workers == (if raw.num_workers != 0 {
        raw.num_workers
    } else {
        defaults.num_workers
    })
    &&& c.dpi == (if f32_zero(raw.dpi) {
        defaults.dpi
    } else {
        raw.dpi
    })
    &&& c.output_format == (if raw.output_format == LITEPARSE_UNSET {
        defaults.output_format
    } else {
        or_format(format_of(raw.output_format), defaults.output_format)
    })
    &&& c.image_mode == (if raw.image_mode == LITEPARSE_UNSET {
        defaults.image_mode
    } else {
        or_mode(mode_of(raw.image_mode), defaults.image_mode)
    })
    &&& c.crop_box == (if has_crop_box(raw) {
        Some(crop_of(raw.crop_box))
    } else {
        defaults.crop_box
    })
    &&& c.ocr_language@ == defaults.ocr_language@
    &&& c.ocr_server_url == defaults.ocr_server_url
    &&& c.tessdata_path == defaults.tessdata_path
    &&& c.password == defaults.password
    &&& c.image_output_dir == defaults.image_output_dir
    &&& c.ocr_server_headers@ == defaults.ocr_server_headers@
    &&& c.ocr_hedge_delays_ms@ == defaults.ocr_hedge_delays_ms@
}

pub open spec fn or_format(f: Option<OutputFormat>, d: OutputFormat) -> OutputFormat {
    match f {
        Some(v) => v,
        None => d,
    }
}

pub open spec fn or_mode(m: Option<ImageMode>, d: ImageMode) -> ImageMode {
    match m {
        Some(v) => v,
        None => d,
    }
}

pub open spec fn opt_text(o: Option<Option<Seq<char>>>) -> Option<Seq<char>> {
    match o {
        Some(Some(t)) => Some(t),
        _ => None,
    }
}

pub open spec fn opt_string(s: Option<String>) -> Option<Seq<char>> {
    match s {
        Some(t) => Some(t@),
        None => None,
    }
}

/// The string settings; returns the glyph database directory.
fn apply_strings(raw: &RawConfig, config: &mut ParserConfig) -> (r: FfiResult<Option<String>>)
    ensures
        r is Ok <==> view_text(raw.ocr_language) is Some && view_text(raw.ocr_server_url) is Some
            && view_text(raw.tessdata_path) is Some && view_text(raw.password) is Some && view_text(
            raw.image_output_dir,
        ) is Some && view_text(raw.font_db_dir) is Some,
        r is Err ==> (r matches Err(e) && e.status == LITEPARSE_STATUS_INVALID_ARGUMENT && e.message@
            == strings_message(*raw)),
        r is Ok ==> {
            &&& final(config).ocr_language@ == (match opt_text(view_text(raw.ocr_language)) {
                Some(t) => t,
                None => old(config).ocr_language@,
            })
            &&& opt_string(final(config).ocr_server_url) == opt_text(view_text(raw.ocr_server_url))
            &&& opt_string(final(config).tessdata_path) == opt_text(view_text(raw.tessdata_path))
            &&& opt_string(final(config).password) == opt_text(view_text(raw.password))
            &&& opt_string(final(config).image_output_dir) == opt_text(
                view_text(raw.image_output_dir),
            )
            &&& final(config).switches == old(config).switches
            &&& final(config).image_mode == old(config).image_mode
            &&& final(config).max_pages == old(config).max_pages
            &&& final(config).num_workers == old(config).num_workers
            &&& final(config).dpi == old(config).dpi
            &&& final(config).output_format == old(config).output_format
            &&& final(config).crop_box == old(config).crop_box
            &&& final(config).ocr_server_headers@ == old(config).ocr_server_headers@
            &&& final(config).ocr_hedge_delays_ms@ == old(config).ocr_hedge_delays_ms@
        },
        r matches Ok(d) ==> opt_string(d) == (match opt_text(view_text(raw.font_db_dir)) {
            Some(t) => if t.len() == 0 {
                None
            } else {
                Some(t)
            },
            None => None,
        }),
{
    match opt_str(raw.ocr_language, "ocr_language") {
        Ok(Some(v)) => {
            config.ocr_language = v;
        },
        Ok(None) => {},
        Err(e) => return Err(e),
    }
    config.ocr_server_url = match opt_str(raw.ocr_server_url, "ocr_server_url") {
        Ok(v) => v,
        Err(e) => return Err(e),
    };
    config.tessdata_path = match opt_str(raw.tessdata_path, "tessdata_path") {
        Ok(v) => v,
        Err(e) => return Err(e),
    };
    config.password = match opt_str(raw.password, "password") {
        Ok(v) => v,
        Err(e) => return Err(e),
    };
    config.image_output_dir = match opt_str(raw.image_output_dir, "image_output_dir") {
        Ok(v) => v,
        Err(e) => return Err(e),
    };
    match opt_str(raw.font_db_dir, "font_db_dir") {
        Ok(Some(dir)) => if dir.as_str().is_empty() {
            Ok(None)
        } else {
            Ok(Some(dir))
        },
        Ok(None) => Ok(None),
        Err(e) => Err(e),
    }
}

/// Whether a required view reads as UTF-8 text.
pub open spec fn required_text(v: RawView) -> bool {
    match v {
        RawView::Bytes(b) => valid_utf8(b@),
        RawView::Null { .. } => false,
    }
}

/// The text a required view reads as.
pub open spec fn text_of(v: RawView) -> Seq<char> {
    match v {
        RawView::Bytes(b) => decode_utf8(b@),
        RawView::Null { .. } => Seq::empty(),
    }
}

/// Whether every header's name and value read as UTF-8.
/// The message for a required string view named `name` that does not
/// read.
pub open spec fn required_message(v: RawView, name: Seq<char>) -> Seq<char> {
    match v {
        RawView::Null { len } => if len == 0 {
            name + " must not be null"@
        } else {
            name + " must have length zero when its pointer is null"@
        },
        RawView::Bytes(b) => name + " is not valid UTF-8: "@ + crate::check::utf8_error_text(b@),
    }
}

/// The message for a header that does not read: its name first.
pub open spec fn header_message(h: RawHeader) -> Seq<char> {
    if !required_text(h.name) {
        required_message(h.name, "header name"@)
    } else {
        required_message(h.value, "header value"@)
    }
}

/// The message for the first header of `hs` that does not read.
pub open spec fn headers_message(hs: Seq<RawHeader>) -> Seq<char> {
    header_message(hs[crate::content::first_fail(hs, |h: RawHeader| header_ok(h))])
}

pub open spec fn headers_ok(hs: Seq<RawHeader>) -> bool {
    forall|i: int| 0 <= i < hs.len() ==> #[trigger] header_ok(hs[i])
}

pub open spec fn header_ok(h: RawHeader) -> bool {
    required_text(h.name) && required_text(h.value)
}

/// A header as the core holds it, beside the caller's views.
pub open spec fn header_matches(held: (String, String), h: RawHeader) -> bool {
    held.0@ == text_of(h.name) && held.1@ == text_of(h.value)
}

/// The OCR headers and hedge delays, appended.
fn apply_lists(raw: &RawConfig, config: &mut ParserConfig) -> (r: FfiResult<()>)
    ensures
        r is Ok <==> headers_ok(raw.ocr_server_headers@),
        r is Err ==> (r matches Err(e) && e.status == LITEPARSE_STATUS_INVALID_ARGUMENT && e.message@
            == headers_message(raw.ocr_server_headers@)),
        r is Ok ==> {
            &&& final(config).ocr_server_headers@.len() == old(config).ocr_server_headers@.len()
                + raw.ocr_server_headers@.len()
            &&& forall|k: int|
                0 <= k < old(config).ocr_server_headers@.len() ==> #[trigger] final(config).ocr_server_headers@[k]
                    == old(config).ocr_server_headers@[k]
            &&& forall|k: int|
                0 <= k < raw.ocr_server_headers@.len() ==> header_matches(
                    #[trigger] final(config).ocr_server_headers@[old(config).ocr_server_headers@.len()
                        + k],
                    raw.ocr_server_headers@[k],
                )
            &&& final(config).ocr_hedge_delays_ms@ == old(config).ocr_hedge_delays_ms@
                + raw.ocr_hedge_delays_ms@
            &&& final(config).switches == old(config).switches
            &&& final(config).image_mode == old(config).image_mode
            &&& final(config).max_pages == old(config).max_pages
            &&& final(config).num_workers == old(config).num_workers
            &&& final(config).dpi == old(config).dpi
            &&& final(config).output_format == old(config).output_format
            &&& final(config).crop_box == old(config).crop_box
            &&& final(config).ocr_language@ == old(config).ocr_language@
            &&& final(config).ocr_server_url == old(config).ocr_server_url
            &&& final(config).tessdata_path == old(config).tessdata_path
            &&& final(config).password == old(config).password
            &&& final(config).image_output_dir == old(config).image_output_dir
        },
{
    let ghost start = *config;
    let mut i: usize = 0;
    while i < raw.ocr_server_headers.len()
        invariant
            0 <= i <= raw.ocr_server_headers@.len(),
            forall|k: int| 0 <= k < i ==> #[trigger] header_ok(raw.ocr_server_headers@[k]),
            config.ocr_server_headers@.len() == start.ocr_server_headers@.len() + i,
            forall|k: int|
                0 <= k < start.ocr_server_headers@.len() ==> #[trigger] config.ocr_server_headers@[k]
                    == start.ocr_server_headers@[k],
            forall|k: int|
                0 <= k < i ==> header_matches(
                    #[trigger] config.ocr_server_headers@[start.ocr_server_headers@.len() + k],
                    raw.ocr_server_headers@[k],
                ),
            config.ocr_hedge_delays_ms@ == start.ocr_hedge_delays_ms@,
            config.switches == start.switches,
            config.image_mode == start.image_mode,
            config.max_pages == start.max_pages,
            config.num_workers == start.num_workers,
            config.dpi == start.dpi,
            config.output_format == start.output_format,
            config.crop_box == start.crop_box,
            config.ocr_language@ == start.ocr_language@,
            config.ocr_server_url == start.ocr_server_url,
            config.tessdata_path == start.tessdata_path,
            config.password == start.password,
            config.image_output_dir == start.image_output_dir,
        decreases raw.ocr_server_headers@.len() - i,
    {
        let header = &raw.ocr_server_headers[i];
        proof {
            crate::content::lemma_first_fail(raw.ocr_server_headers@, |h: RawHeader| header_ok(h));
        }
        let name = match required_view_str(header.name, "header name") {
            Ok(v) => v,
            Err(e) => {
                assert(!header_ok(raw.ocr_server_headers@[i as int]));
                assert(crate::content::first_fail(raw.ocr_server_headers@, |h: RawHeader| header_ok(h)) == i);
                return Err(e);
            },
        };
        let value = match required_view_str(header.value, "header value") {
            Ok(v) => v,
            Err(e) => {
                assert(!header_ok(raw.ocr_server_headers@[i as int]));
                assert(crate::content::first_fail(raw.ocr_server_headers@, |h: RawHeader| header_ok(h)) == i);
                return Err(e);
            },
        };
        assert(header_ok(raw.ocr_server_headers@[i as int]));
        config.ocr_server_headers.push((name, value));
        i = i + 1;
    }
    let ghost mid = *config;
    let mut k: usize = 0;
    while k < raw.ocr_hedge_delays_ms.len()
        invariant
            0 <= k <= raw.ocr_hedge_delays_ms@.len(),
            config.ocr_hedge_delays_ms@ == mid.ocr_hedge_delays_ms@ + raw.ocr_hedge_delays_ms@.take(
                k as int,
            ),
            config.ocr_server_headers@ == mid.ocr_server_headers@,
            config.switches == start.switches,
            config.image_mode == start.image_mode,
            config.max_pages == start.max_pages,
            config.num_workers == start.num_workers,
            config.dpi == start.dpi,
            config.output_format == start.output_format,
            config.crop_box == start.crop_box,
            config.ocr_language@ == start.ocr_language@,
            config.ocr_server_url == start.ocr_server_url,
            config.tessdata_path == start.tessdata_path,
            config.password == start.password,
            config.image_output_dir == start.image_output_dir,
        decreases raw.ocr_hedge_delays_ms@.len() - k,
    {
        config.ocr_hedge_delays_ms.push(raw.ocr_hedge_delays_ms[k]);
        k = k + 1;
        assert(config.ocr_hedge_delays_ms@ =~= mid.ocr_hedge_delays_ms@ + raw.ocr_hedge_delays_ms@.take(
            k as int,
        ));
    }
    assert(raw.ocr_hedge_delays_ms@.take(raw.ocr_hedge_delays_ms@.len() as int)
        =~= raw.ocr_hedge_delays_ms@);
    Ok(())
}


/// Output-format codes name the format their constant is called after:
/// code 0 is JSON, 1 is text, 2 is Markdown, every other code names none,
/// and two codes that name a format name the same one only if they are the
/// same code.
pub proof fn lemma_output_format_codes(code: u32, other: u32)
    ensures
        (format_of(code) == Some(OutputFormat::Json)) <==> code == 0,
        (format_of(code) == Some(OutputFormat::Text)) <==> code == 1,
        (format_of(code) == Some(OutputFormat::Markdown)) <==> code == 2,
        format_of(code) is None <==> code > 2,
        format_of(code) is Some && format_of(code) == format_of(other) ==> code == other,
{
}

/// Image-mode codes name the mode their constant is called after: code 0
/// is off, 1 is placeholders, 2 is embedding, every other code names none,
/// and distinct codes name distinct modes.
pub proof fn lemma_image_mode_codes(code: u32, other: u32)
    ensures
        (mode_of(code) == Some(ImageMode::Off)) <==> code == 0,
        (mode_of(code) == Some(ImageMode::Placeholder)) <==> code == 1,
        (mode_of(code) == Some(ImageMode::Embed)) <==> code == 2,
        mode_of(code) is None <==> code > 2,
        mode_of(code) is Some && mode_of(code) == mode_of(other) ==> code == other,
{
}

} // verus!
