//! Records as the JavaScript binding hands them over: plain owned copies of
//! the core's values.

use vstd::prelude::*;
use vstd::string::StringExecFns;
use crate::config::{
    CropBox, ImageMode, OutputFormat, ParserConfig, LITEPARSE_FLAG_CONTINUE_ON_PAGE_ERROR,
    LITEPARSE_FLAG_DETECT_SCREENSHOT_RECTS, LITEPARSE_FLAG_EMIT_WORD_BOXES, LITEPARSE_FLAG_EXTRACT_ANNOTATIONS,
    LITEPARSE_FLAG_EXTRACT_BLOCKS, LITEPARSE_FLAG_EXTRACT_CONTENT_BOUNDS, LITEPARSE_FLAG_EXTRACT_DOCUMENT_METADATA,
    LITEPARSE_FLAG_EXTRACT_FORM_FIELDS, LITEPARSE_FLAG_EXTRACT_IMAGES, LITEPARSE_FLAG_EXTRACT_LINKS,
    LITEPARSE_FLAG_EXTRACT_SCREENSHOTS, LITEPARSE_FLAG_EXTRACT_STRUCTURE_TREE, LITEPARSE_FLAG_EXTRACT_TEXT_METADATA,
    LITEPARSE_FLAG_EXTRACT_VECTOR_GRAPHICS, LITEPARSE_FLAG_EXTRACT_XFA_PACKETS, LITEPARSE_FLAG_INCLUDE_COMPLEXITY,
    LITEPARSE_FLAG_KEEP_HEADERS_FOOTERS, LITEPARSE_FLAG_OCR_ENABLED, LITEPARSE_FLAG_OCR_FAILURE_FATAL,
    LITEPARSE_FLAG_PRESERVE_VERY_SMALL_TEXT, LITEPARSE_FLAG_QUIET, LITEPARSE_FLAG_RENDER_FORM_FIELDS,
    LITEPARSE_FLAG_SKIP_DIAGONAL_TEXT,
};
use crate::records::{PageError, XfaPacket};
use crate::text::str_eq;

verus! {

/// The view of an optional string.
pub open spec fn opt_view(s: Option<String>) -> Option<Seq<char>> {
    match s {
        Some(t) => Some(t@),
        None => None,
    }
}

fn clone_opt(s: &Option<String>) -> (r: Option<String>)
    ensures
        opt_view(r) == opt_view(*s),
{
    match s {
        Some(t) => Some(t.clone()),
        None => None,
    }
}

/// A page that failed to parse.
pub struct JsPageError {
    pub page_num: u32,
    pub message: String,
}

impl JsPageError {
    pub fn from_rust(error: &PageError) -> (r: Self)
        ensures
            r.page_num == error.page_number,
            r.message@ == error.message@,
    {
        JsPageError { page_num: error.page_number, message: error.message.clone() }
    }
}

/// One raw packet from an XFA form document's `/XFA` array.
pub struct JsXfaPacket {
    pub index: u32,
    pub name: Option<String>,
    pub content_length: u32,
    /// Packet content (usually XML), lossily decoded as UTF-8.
    pub content: Option<String>,
}

impl JsXfaPacket {
    pub fn from_rust(packet: &XfaPacket) -> (r: Self)
        ensures
            r.index == packet.index,
            opt_view(r.name) == opt_view(packet.name),
            r.content_length == packet.content_length,
            opt_view(r.content) == opt_view(packet.content),
    {
        JsXfaPacket {
            index: packet.index,
            name: clone_opt(&packet.name),
            content_length: packet.content_length,
            content: clone_opt(&packet.content),
        }
    }
}

/// A parser configuration as JavaScript passes it: every setting optional.
/// The binding narrows `dpi` and the crop fractions to `f32` bit patterns
/// and lists the OCR headers in the order its map yields them.
pub struct JsLiteParseConfig {
    pub ocr_language: Option<String>,
    pub ocr_enabled: Option<bool>,
    pub ocr_server_url: Option<String>,
    pub ocr_server_headers: Option<Vec<(String, String)>>,
    pub tessdata_path: Option<String>,
    pub max_pages: Option<u32>,
    pub target_pages: Option<String>,
    pub extract_screenshots: Option<bool>,
    pub continue_on_page_error: Option<bool>,
    pub dpi: Option<u32>,
    pub output_format: Option<String>,
    pub preserve_very_small_text: Option<bool>,
    pub password: Option<String>,
    pub quiet: Option<bool>,
    pub num_workers: Option<u32>,
    pub image_mode: Option<String>,
    pub extract_images: Option<bool>,
    pub image_output_dir: Option<String>,
    pub extract_links: Option<bool>,
    pub keep_headers_footers: Option<bool>,
    pub extract_annotations: Option<bool>,
    pub extract_blocks: Option<bool>,
    pub extract_form_fields: Option<bool>,
    pub extract_structure_tree: Option<bool>,
    pub extract_xfa_packets: Option<bool>,
    pub extract_document_metadata: Option<bool>,
    pub extract_content_bounds: Option<bool>,
    pub detect_screenshot_rects: Option<bool>,
    pub render_form_fields: Option<bool>,
    pub ocr_failure_fatal: Option<bool>,
    pub ocr_hedge_delays_ms: Option<Vec<u32>>,
    pub emit_word_boxes: Option<bool>,
    pub extract_text_metadata: Option<bool>,
    pub crop_box: Option<CropBox>,
    pub skip_diagonal_text: Option<bool>,
    pub include_complexity: Option<bool>,
    pub extract_vector_graphics: Option<bool>,
}

/// The core configuration a JavaScript configuration gives, and the pages
/// it targets.
pub struct JsParserConfig {
    pub core: ParserConfig,
    pub target_pages: Option<String>,
}

/// Switch `bit` of `switches` set to `value` when one is given.
pub open spec fn switch_of(switches: u64, bit: u64, value: Option<bool>) -> u64 {
    match value {
        Some(true) => switches | bit,
        Some(false) => switches & !bit,
        None => switches,
    }
}

fn set_switch(switches: u64, bit: u64, value: Option<bool>) -> (r: u64)
    ensures
        r == switch_of(switches, bit, value),
{
    match value {
        Some(true) => switches | bit,
        Some(false) => switches & !bit,
        None => switches,
    }
}

/// The switches of `c` applied over `sw`, in the order the settings are
/// listed.
pub open spec fn js_switches(c: JsLiteParseConfig, sw: u64) -> u64 {
    let s1 = switch_of(sw, LITEPARSE_FLAG_OCR_ENABLED, c.ocr_enabled);
    let s2 = switch_of(s1, LITEPARSE_FLAG_EXTRACT_SCREENSHOTS, c.extract_screenshots);
    let s3 = switch_of(s2, LITEPARSE_FLAG_CONTINUE_ON_PAGE_ERROR, c.continue_on_page_error);
    let s4 = switch_of(s3, LITEPARSE_FLAG_PRESERVE_VERY_SMALL_TEXT, c.preserve_very_small_text);
    let s5 = switch_of(s4, LITEPARSE_FLAG_QUIET, c.quiet);
    let s6 = switch_of(s5, LITEPARSE_FLAG_EXTRACT_IMAGES, c.extract_images);
    let s7 = switch_of(s6, LITEPARSE_FLAG_EXTRACT_LINKS, c.extract_links);
    let s8 = switch_of(s7, LITEPARSE_FLAG_KEEP_HEADERS_FOOTERS, c.keep_headers_footers);
    let s9 = switch_of(s8, LITEPARSE_FLAG_EXTRACT_ANNOTATIONS, c.extract_annotations);
    let s10 = switch_of(s9, LITEPARSE_FLAG_EXTRACT_BLOCKS, c.extract_blocks);
    let s11 = switch_of(s10, LITEPARSE_FLAG_EXTRACT_FORM_FIELDS, c.extract_form_fields);
    let s12 = switch_of(s11, LITEPARSE_FLAG_EXTRACT_STRUCTURE_TREE, c.extract_structure_tree);
    let s13 = switch_of(s12, LITEPARSE_FLAG_EXTRACT_XFA_PACKETS, c.extract_xfa_packets);
    let s14 = switch_of(s13, LITEPARSE_FLAG_EXTRACT_DOCUMENT_METADATA, c.extract_document_metadata);
    let s15 = switch_of(s14, LITEPARSE_FLAG_EXTRACT_CONTENT_BOUNDS, c.extract_content_bounds);
    let s16 = switch_of(s15, LITEPARSE_FLAG_DETECT_SCREENSHOT_RECTS, c.detect_screenshot_rects);
    let s17 = switch_of(s16, LITEPARSE_FLAG_RENDER_FORM_FIELDS, c.render_form_fields);
    let s18 = switch_of(s17, LITEPARSE_FLAG_OCR_FAILURE_FATAL, c.ocr_failure_fatal);
    let s19 = switch_of(s18, LITEPARSE_FLAG_EMIT_WORD_BOXES, c.emit_word_boxes);
    let s20 = switch_of(s19, LITEPARSE_FLAG_EXTRACT_TEXT_METADATA, c.extract_text_metadata);
    let s21 = switch_of(s20, LITEPARSE_FLAG_SKIP_DIAGONAL_TEXT, c.skip_diagonal_text);
    let s22 = switch_of(s21, LITEPARSE_FLAG_INCLUDE_COMPLEXITY, c.include_complexity);
    switch_of(s22, LITEPARSE_FLAG_EXTRACT_VECTOR_GRAPHICS, c.extract_vector_graphics)
}

/// The output format a name selects: unknown names select JSON.
pub open spec fn js_format(name: Seq<char>) -> OutputFormat {
    if name == "text"@ {
        OutputFormat::Text
    } else if name == "markdown"@ || name == "md"@ {
        OutputFormat::Markdown
    } else {
        OutputFormat::Json
    }
}

/// The image mode a name selects: unknown names select placeholders.
pub open spec fn js_mode(name: Seq<char>) -> ImageMode {
    if name == "off"@ || name == "none"@ {
        ImageMode::Off
    } else if name == "embed"@ {
        ImageMode::Embed
    } else {
        ImageMode::Placeholder
    }
}

/// The views of a list of string pairs.
pub open spec fn pair_views(v: Seq<(String, String)>) -> Seq<(Seq<char>, Seq<char>)> {
    v.map_values(|p: (String, String)| (p.0@, p.1@))
}

fn clone_pairs(v: &Vec<(String, String)>) -> (r: Vec<(String, String)>)
    ensures
        pair_views(r@) == pair_views(v@),
{
    let mut out: Vec<(String, String)> = Vec::new();
    let mut i: usize = 0;
    while i < v.len()
        invariant
            0 <= i <= v@.len(),
            out@.len() == i,
            forall|k: int| 0 <= k < i ==> (#[trigger] out@[k]).0@ == v@[k].0@ && out@[k].1@ == v@[k].1@,
        decreases v@.len() - i,
    {
        let (a, b) = (v[i].0.clone(), v[i].1.clone());
        out.push((a, b));
        i = i + 1;
    }
    assert(pair_views(out@) =~= pair_views(v@));
    out
}

fn widen_delays(v: &Vec<u32>) -> (r: Vec<u64>)
    ensures
        r@ == v@.map_values(|d: u32| d as u64),
{
    let mut out: Vec<u64> = Vec::new();
    let mut i: usize = 0;
    while i < v.len()
        invariant
            0 <= i <= v@.len(),
            out@ == v@.take(i as int).map_values(|d: u32| d as u64),
        decreases v@.len() - i,
    {
        out.push(v[i] as u64);
        i = i + 1;
        assert(v@.take(i as int).drop_last() =~= v@.take(i - 1));
        assert(out@ =~= v@.take(i as int).map_values(|d: u32| d as u64));
    }
    assert(v@.take(v@.len() as int) =~= v@);
    out
}

/// What the core configuration holds after `c` is applied over
/// `defaults`: each given setting replaces the default, each absent one
/// keeps it.
pub open spec fn js_applied(r: ParserConfig, c: JsLiteParseConfig, d: ParserConfig) -> bool {
    &&& r.switches == js_switches(c, d.switches)
    &&& r.ocr_language@ == (match c.ocr_language {
        Some(v) => v@,
        None => d.ocr_language@,
    })
    &&& opt_view(r.ocr_server_url) == (match c.ocr_server_url {
        Some(v) => Some(v@),
        None => opt_view(d.ocr_server_url),
    })
    &&& pair_views(r.ocr_server_headers@) == (match c.ocr_server_headers {
        Some(v) => pair_views(v@),
        None => pair_views(d.ocr_server_headers@),
    })
    &&& opt_view(r.tessdata_path) == (match c.tessdata_path {
        Some(v) => Some(v@),
        None => opt_view(d.tessdata_path),
    })
    &&& r.max_pages == (match c.max_pages {
        Some(v) => v as usize,
        None => d.max_pages,
    })
    &&& r.dpi == (match c.dpi {
        Some(v) => v,
        None => d.dpi,
    })
    &&& r.output_format == (match c.output_format {
        Some(v) => js_format(v@),
        None => d.output_format,
    })
    &&& opt_view(r.password) == (match c.password {
        Some(v) => Some(v@),
        None => opt_view(d.password),
    })
    &&& r.num_workers == (match c.num_workers {
        Some(v) => v as usize,
        None => d.num_workers,
    })
    &&& r.image_mode == (match c.image_mode {
        Some(v) => js_mode(v@),
        None => d.image_mode,
    })
    &&& opt_view(r.image_output_dir) == (match c.image_output_dir {
        Some(v) => Some(v@),
        None => opt_view(d.image_output_dir),
    })
    &&& r.ocr_hedge_delays_ms@ == (match c.ocr_hedge_delays_ms {
        Some(v) => v@.map_values(|x: u32| x as u64),
        None => d.ocr_hedge_delays_ms@,
    })
    &&& r.crop_box == (match c.crop_box {
        Some(b) => Some(b),
        None => d.crop_box,
    })
}

fn take_string(o: &Option<String>, d: String) -> (r: String)
    ensures
        r@ == (match o {
            Some(v) => v@,
            None => d@,
        }),
{
    match o {
        Some(v) => v.clone(),
        None => d,
    }
}

fn take_opt_string(o: &Option<String>, d: Option<String>) -> (r: Option<String>)
    ensures
        opt_view(r) == (match o {
            Some(v) => Some(v@),
            None => opt_view(d),
        }),
{
    match o {
        Some(v) => Some(v.clone()),
        None => d,
    }
}

impl JsLiteParseConfig {
    /// Apply this configuration over the core's `defaults`.
    pub fn into_rust(&self, defaults: ParserConfig) -> (r: JsParserConfig)
        ensures
            js_applied(r.core, *self, defaults),
            opt_view(r.target_pages) == opt_view(self.target_pages),
    {
        let d = defaults;
        let mut sw = d.switches;
        sw = set_switch(sw, LITEPARSE_FLAG_OCR_ENABLED, self.ocr_enabled);
        sw = set_switch(sw, LITEPARSE_FLAG_EXTRACT_SCREENSHOTS, self.extract_screenshots);
        sw = set_switch(sw, LITEPARSE_FLAG_CONTINUE_ON_PAGE_ERROR, self.continue_on_page_error);
        sw = set_switch(sw, LITEPARSE_FLAG_PRESERVE_VERY_SMALL_TEXT, self.preserve_very_small_text);
        sw = set_switch(sw, LITEPARSE_FLAG_QUIET, self.quiet);
        sw = set_switch(sw, LITEPARSE_FLAG_EXTRACT_IMAGES, self.extract_images);
        sw = set_switch(sw, LITEPARSE_FLAG_EXTRACT_LINKS, self.extract_links);
        sw = set_switch(sw, LITEPARSE_FLAG_KEEP_HEADERS_FOOTERS, self.keep_headers_footers);
        sw = set_switch(sw, LITEPARSE_FLAG_EXTRACT_ANNOTATIONS, self.extract_annotations);
        sw = set_switch(sw, LITEPARSE_FLAG_EXTRACT_BLOCKS, self.extract_blocks);
        sw = set_switch(sw, LITEPARSE_FLAG_EXTRACT_FORM_FIELDS, self.extract_form_fields);
        sw = set_switch(sw, LITEPARSE_FLAG_EXTRACT_STRUCTURE_TREE, self.extract_structure_tree);
        sw = set_switch(sw, LITEPARSE_FLAG_EXTRACT_XFA_PACKETS, self.extract_xfa_packets);
        sw = set_switch(sw, LITEPARSE_FLAG_EXTRACT_DOCUMENT_METADATA, self.extract_document_metadata);
        sw = set_switch(sw, LITEPARSE_FLAG_EXTRACT_CONTENT_BOUNDS, self.extract_content_bounds);
        sw = set_switch(sw, LITEPARSE_FLAG_DETECT_SCREENSHOT_RECTS, self.detect_screenshot_rects);
        sw = set_switch(sw, LITEPARSE_FLAG_RENDER_FORM_FIELDS, self.render_form_fields);
        sw = set_switch(sw, LITEPARSE_FLAG_OCR_FAILURE_FATAL, self.ocr_failure_fatal);
        sw = set_switch(sw, LITEPARSE_FLAG_EMIT_WORD_BOXES, self.emit_word_boxes);
        sw = set_switch(sw, LITEPARSE_FLAG_EXTRACT_TEXT_METADATA, self.extract_text_metadata);
        sw = set_switch(sw, LITEPARSE_FLAG_SKIP_DIAGONAL_TEXT, self.skip_diagonal_text);
        sw = set_switch(sw, LITEPARSE_FLAG_INCLUDE_COMPLEXITY, self.include_complexity);
        sw = set_switch(sw, LITEPARSE_FLAG_EXTRACT_VECTOR_GRAPHICS, self.extract_vector_graphics);
        let output_format = match &self.output_format {
            Some(v) => if str_eq(v.as_str(), "text") {
                OutputFormat::Text
            } else if str_eq(v.as_str(), "markdown") || str_eq(v.as_str(), "md") {
                OutputFormat::Markdown
            } else {
                OutputFormat::Json
            },
            None => d.output_format,
        };
        let image_mode = match &self.image_mode {
            Some(v) => if str_eq(v.as_str(), "off") || str_eq(v.as_str(), "none") {
                ImageMode::Off
            } else if str_eq(v.as_str(), "embed") {
                ImageMode::Embed
            } else {
                ImageMode::Placeholder
            },
            None => d.image_mode,
        };
        let ocr_server_headers = match &self.ocr_server_headers {
            Some(v) => clone_pairs(v),
            None => d.ocr_server_headers,
        };
        let ocr_hedge_delays_ms = match &self.ocr_hedge_delays_ms {
            Some(v) => widen_delays(v),
            None => d.ocr_hedge_delays_ms,
        };
        let core = ParserConfig {
            switches: sw,
            max_pages: match self.max_pages {
                Some(v) => v as usize,
                None => d.max_pages,
            },
            num_workers: match self.num_workers {
                Some(v) => v as usize,
                None => d.num_workers,
            },
            dpi: match self.dpi {
                Some(v) => v,
                None => d.dpi,
            },
            output_format,
            image_mode,
            crop_box: match self.crop_box {
                Some(b) => Some(b),
                None => d.crop_box,
            },
            ocr_language: take_string(&self.ocr_language, d.ocr_language),
            ocr_server_url: take_opt_string(&self.ocr_server_url, d.ocr_server_url),
            tessdata_path: take_opt_string(&self.tessdata_path, d.tessdata_path),
            password: take_opt_string(&self.password, d.password),
            image_output_dir: take_opt_string(&self.image_output_dir, d.image_output_dir),
            ocr_server_headers,
            ocr_hedge_delays_ms,
        };
        JsParserConfig { core, target_pages: clone_opt(&self.target_pages) }
    }
}


/// A delay in milliseconds as JavaScript reads it: saturated to `u32`.
pub open spec fn narrow_delay(d: u64) -> u32 {
    if d <= u32::MAX {
        d as u32
    } else {
        u32::MAX
    }
}

/// The name JavaScript uses for an output format.
pub open spec fn format_name(f: OutputFormat) -> Seq<char> {
    match f {
        OutputFormat::Json => "json"@,
        OutputFormat::Text => "text"@,
        OutputFormat::Markdown => "markdown"@,
    }
}

/// The name JavaScript uses for an image mode.
pub open spec fn mode_name(m: ImageMode) -> Seq<char> {
    match m {
        ImageMode::Off => "off"@,
        ImageMode::Placeholder => "placeholder"@,
        ImageMode::Embed => "embed"@,
    }
}

/// What `from_rust` gives for `c`: every setting present, but the server
/// headers only when there are some and the optional paths only when set;
/// page and worker counts are narrowed to `u32` and delays saturated.
pub open spec fn js_of(c: JsParserConfig, j: JsLiteParseConfig) -> bool {
    let d = c.core;
    let sw = d.switches;
    &&& opt_view(j.ocr_language) == Some(d.ocr_language@)
    &&& opt_view(j.ocr_server_url) == opt_view(d.ocr_server_url)
    &&& (match j.ocr_server_headers {
        Some(v) => d.ocr_server_headers@.len() > 0 && pair_views(v@) == pair_views(
            d.ocr_server_headers@,
        ),
        None => d.ocr_server_headers@.len() == 0,
    })
    &&& opt_view(j.tessdata_path) == opt_view(d.tessdata_path)
    &&& j.max_pages == Some(d.max_pages as u32)
    &&& opt_view(j.target_pages) == opt_view(c.target_pages)
    &&& j.dpi == Some(d.dpi)
    &&& opt_view(j.output_format) == Some(format_name(d.output_format))
    &&& opt_view(j.password) == opt_view(d.password)
    &&& j.num_workers == Some(d.num_workers as u32)
    &&& opt_view(j.image_mode) == Some(mode_name(d.image_mode))
    &&& opt_view(j.image_output_dir) == opt_view(d.image_output_dir)
    &&& (match j.ocr_hedge_delays_ms {
        Some(v) => v@ == d.ocr_hedge_delays_ms@.map_values(|x: u64| narrow_delay(x)),
        None => false,
    })
    &&& j.crop_box == d.crop_box
    &&& j.ocr_enabled == Some(sw & LITEPARSE_FLAG_OCR_ENABLED != 0)
    &&& j.extract_screenshots == Some(sw & LITEPARSE_FLAG_EXTRACT_SCREENSHOTS != 0)
    &&& j.continue_on_page_error == Some(sw & LITEPARSE_FLAG_CONTINUE_ON_PAGE_ERROR != 0)
    &&& j.preserve_very_small_text == Some(sw & LITEPARSE_FLAG_PRESERVE_VERY_SMALL_TEXT != 0)
    &&& j.quiet == Some(sw & LITEPARSE_FLAG_QUIET != 0)
    &&& j.extract_images == Some(sw & LITEPARSE_FLAG_EXTRACT_IMAGES != 0)
    &&& j.extract_links == Some(sw & LITEPARSE_FLAG_EXTRACT_LINKS != 0)
    &&& j.keep_headers_footers == Some(sw & LITEPARSE_FLAG_KEEP_HEADERS_FOOTERS != 0)
    &&& j.extract_annotations == Some(sw & LITEPARSE_FLAG_EXTRACT_ANNOTATIONS != 0)
    &&& j.extract_blocks == Some(sw & LITEPARSE_FLAG_EXTRACT_BLOCKS != 0)
    &&& j.extract_form_fields == Some(sw & LITEPARSE_FLAG_EXTRACT_FORM_FIELDS != 0)
    &&& j.extract_structure_tree == Some(sw & LITEPARSE_FLAG_EXTRACT_STRUCTURE_TREE != 0)
    &&& j.extract_xfa_packets == Some(sw & LITEPARSE_FLAG_EXTRACT_XFA_PACKETS != 0)
    &&& j.extract_document_metadata == Some(sw & LITEPARSE_FLAG_EXTRACT_DOCUMENT_METADATA != 0)
    &&& j.extract_content_bounds == Some(sw & LITEPARSE_FLAG_EXTRACT_CONTENT_BOUNDS != 0)
    &&& j.detect_screenshot_rects == Some(sw & LITEPARSE_FLAG_DETECT_SCREENSHOT_RECTS != 0)
    &&& j.render_form_fields == Some(sw & LITEPARSE_FLAG_RENDER_FORM_FIELDS != 0)
    &&& j.ocr_failure_fatal == Some(sw & LITEPARSE_FLAG_OCR_FAILURE_FATAL != 0)
    &&& j.emit_word_boxes == Some(sw & LITEPARSE_FLAG_EMIT_WORD_BOXES != 0)
    &&& j.extract_text_metadata == Some(sw & LITEPARSE_FLAG_EXTRACT_TEXT_METADATA != 0)
    &&& j.skip_diagonal_text == Some(sw & LITEPARSE_FLAG_SKIP_DIAGONAL_TEXT != 0)
    &&& j.include_complexity == Some(sw & LITEPARSE_FLAG_INCLUDE_COMPLEXITY != 0)
    &&& j.extract_vector_graphics == Some(sw & LITEPARSE_FLAG_EXTRACT_VECTOR_GRAPHICS != 0)
}

fn narrow_delays(v: &Vec<u64>) -> (r: Vec<u32>)
    ensures
        r@ == v@.map_values(|x: u64| narrow_delay(x)),
{
    let mut out: Vec<u32> = Vec::new();
    let mut i: usize = 0;
    while i < v.len()
        invariant
            0 <= i <= v@.len(),
            out@ == v@.take(i as int).map_values(|x: u64| narrow_delay(x)),
        decreases v@.len() - i,
    {
        let d = v[i];
        out.push(if d <= 0xffff_ffff {
            d as u32
        } else {
            0xffff_ffff
        });
        i = i + 1;
        assert(v@.take(i as int).drop_last() =~= v@.take(i - 1));
        assert(out@ =~= v@.take(i as int).map_values(|x: u64| narrow_delay(x)));
    }
    assert(v@.take(v@.len() as int) =~= v@);
    out
}

fn format_string(f: OutputFormat) -> (r: String)
    ensures
        r@ == format_name(f),
{
    match f {
        OutputFormat::Json => String::from_str("json"),
        OutputFormat::Text => String::from_str("text"),
        OutputFormat::Markdown => String::from_str("markdown"),
    }
}

fn mode_string(m: ImageMode) -> (r: String)
    ensures
        r@ == mode_name(m),
{
    match m {
        ImageMode::Off => String::from_str("off"),
        ImageMode::Placeholder => String::from_str("placeholder"),
        ImageMode::Embed => String::from_str("embed"),
    }
}

impl JsLiteParseConfig {
    /// The JavaScript view of a core configuration and its target pages.
    pub fn from_rust(cfg: &JsParserConfig) -> (j: Self)
        ensures
            js_of(*cfg, j),
    {
        let d = &cfg.core;
        let sw = d.switches;
        JsLiteParseConfig {
            ocr_language: Some(d.ocr_language.clone()),
            ocr_server_url: clone_opt(&d.ocr_server_url),
            ocr_server_headers: if d.ocr_server_headers.len() == 0 {
                None
            } else {
                Some(clone_pairs(&d.ocr_server_headers))
            },
            tessdata_path: clone_opt(&d.tessdata_path),
            max_pages: Some(d.max_pages as u32),
            target_pages: clone_opt(&cfg.target_pages),
            dpi: Some(d.dpi),
            output_format: Some(format_string(d.output_format)),
            password: clone_opt(&d.password),
            num_workers: Some(d.num_workers as u32),
            image_mode: Some(mode_string(d.image_mode)),
            image_output_dir: clone_opt(&d.image_output_dir),
            ocr_hedge_delays_ms: Some(narrow_delays(&d.ocr_hedge_delays_ms)),
            crop_box: d.crop_box,
            ocr_enabled: Some(sw & LITEPARSE_FLAG_OCR_ENABLED != 0),
            extract_screenshots: Some(sw & LITEPARSE_FLAG_EXTRACT_SCREENSHOTS != 0),
            continue_on_page_error: Some(sw & LITEPARSE_FLAG_CONTINUE_ON_PAGE_ERROR != 0),
            preserve_very_small_text: Some(sw & LITEPARSE_FLAG_PRESERVE_VERY_SMALL_TEXT != 0),
            quiet: Some(sw & LITEPARSE_FLAG_QUIET != 0),
            extract_images: Some(sw & LITEPARSE_FLAG_EXTRACT_IMAGES != 0),
            extract_links: Some(sw & LITEPARSE_FLAG_EXTRACT_LINKS != 0),
            keep_headers_footers: Some(sw & LITEPARSE_FLAG_KEEP_HEADERS_FOOTERS != 0),
            extract_annotations: Some(sw & LITEPARSE_FLAG_EXTRACT_ANNOTATIONS != 0),
            extract_blocks: Some(sw & LITEPARSE_FLAG_EXTRACT_BLOCKS != 0),
            extract_form_fields: Some(sw & LITEPARSE_FLAG_EXTRACT_FORM_FIELDS != 0),
            extract_structure_tree: Some(sw & LITEPARSE_FLAG_EXTRACT_STRUCTURE_TREE != 0),
            extract_xfa_packets: Some(sw & LITEPARSE_FLAG_EXTRACT_XFA_PACKETS != 0),
            extract_document_metadata: Some(sw & LITEPARSE_FLAG_EXTRACT_DOCUMENT_METADATA != 0),
            extract_content_bounds: Some(sw & LITEPARSE_FLAG_EXTRACT_CONTENT_BOUNDS != 0),
            detect_screenshot_rects: Some(sw & LITEPARSE_FLAG_DETECT_SCREENSHOT_RECTS != 0),
            render_form_fields: Some(sw & LITEPARSE_FLAG_RENDER_FORM_FIELDS != 0),
            ocr_failure_fatal: Some(sw & LITEPARSE_FLAG_OCR_FAILURE_FATAL != 0),
            emit_word_boxes: Some(sw & LITEPARSE_FLAG_EMIT_WORD_BOXES != 0),
            extract_text_metadata: Some(sw & LITEPARSE_FLAG_EXTRACT_TEXT_METADATA != 0),
            skip_diagonal_text: Some(sw & LITEPARSE_FLAG_SKIP_DIAGONAL_TEXT != 0),
            include_complexity: Some(sw & LITEPARSE_FLAG_INCLUDE_COMPLEXITY != 0),
            extract_vector_graphics: Some(sw & LITEPARSE_FLAG_EXTRACT_VECTOR_GRAPHICS != 0),
        }
    }
}


/// The name `from_rust` gives an output format reads back, through
/// `into_rust`, as that format; likewise for image modes.
pub proof fn lemma_js_names_read_back(f: OutputFormat, m: ImageMode)
    ensures
        js_format(format_name(f)) == f,
        js_mode(mode_name(m)) == m,
{
    reveal_strlit("json");
    reveal_strlit("text");
    reveal_strlit("markdown");
    reveal_strlit("md");
    assert("json"@[0] != "text"@[0]);
    assert("json"@.len() != "markdown"@.len());
    assert("json"@.len() != "md"@.len());
    assert("text"@.len() != "markdown"@.len());
    assert("text"@.len() != "md"@.len());
    assert("markdown"@.len() != "md"@.len());
    reveal_strlit("off");
    reveal_strlit("none");
    reveal_strlit("placeholder");
    reveal_strlit("embed");
    assert("off"@.len() != "none"@.len());
    assert("off"@.len() != "placeholder"@.len());
    assert("off"@.len() != "embed"@.len());
    assert("none"@.len() != "placeholder"@.len());
    assert("none"@.len() != "embed"@.len());
    assert("placeholder"@.len() != "embed"@.len());
}

/// An output-format name selects text exactly when it is "text", Markdown
/// exactly when it is "markdown" or "md", and JSON otherwise.
pub proof fn lemma_js_format_names(n: Seq<char>)
    ensures
        (js_format(n) == OutputFormat::Text) == (n == "text"@),
        (js_format(n) == OutputFormat::Markdown) == (n == "markdown"@ || n == "md"@),
        (js_format(n) == OutputFormat::Json) == (n != "text"@ && n != "markdown"@ && n != "md"@),
{
    reveal_strlit("text");
    reveal_strlit("markdown");
    reveal_strlit("md");
    assert("text"@.len() != "markdown"@.len());
    assert("text"@.len() != "md"@.len());
    assert("markdown"@.len() != "md"@.len());
}

/// An image-mode name selects no images exactly when it is "off" or
/// "none", embedding exactly when it is "embed", and placeholders otherwise.
pub proof fn lemma_js_mode_names(n: Seq<char>)
    ensures
        (js_mode(n) == ImageMode::Off) == (n == "off"@ || n == "none"@),
        (js_mode(n) == ImageMode::Embed) == (n == "embed"@),
        (js_mode(n) == ImageMode::Placeholder) == (n != "off"@ && n != "none"@ && n != "embed"@),
{
    reveal_strlit("off");
    reveal_strlit("none");
    reveal_strlit("embed");
    assert("off"@.len() != "none"@.len());
    assert("off"@.len() != "embed"@.len());
    assert("none"@.len() != "embed"@.len());
}

} // verus!
