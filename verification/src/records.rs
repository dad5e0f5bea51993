//! Fixed-width records for document-level facts: metadata, per-page
//! errors, XFA packets, outline entries and complexity signals. Optional
//! values are flag bits plus a default; strings are pool ranges.

use vstd::prelude::*;
use vstd::utf8::encode_utf8;
use crate::pool::{LiteParseStr, Pool, absent_str};
use crate::flags::{
    ComplexityReason, LayoutComplexityReason, reason_mask, layout_reason_mask, reasons_from_mask,
    layout_reasons_from_mask, mask_of_indices, reason_indices, layout_reason_indices, indices_in,
    clamp_u32,
};

verus! {

pub const LITEPARSE_DOC_META_FLAG_HAS_FILE_VERSION: u32 = 1;
pub const LITEPARSE_DOC_META_FLAG_HAS_IS_ENCRYPTED: u32 = 2;
pub const LITEPARSE_DOC_META_FLAG_IS_ENCRYPTED: u32 = 4;
pub const LITEPARSE_DOC_META_FLAG_HAS_SECURITY_HANDLER_REVISION: u32 = 8;
pub const LITEPARSE_DOC_META_FLAG_HAS_PERMISSIONS: u32 = 16;
pub const LITEPARSE_DOC_META_FLAG_HAS_EOF_SECTION_COUNT: u32 = 32;
pub const LITEPARSE_DOC_META_FLAG_HAS_STARTXREF_COUNT: u32 = 64;
pub const LITEPARSE_DOC_META_FLAG_HAS_TRAILER_ID_PAIR_DIFFERS: u32 = 128;
pub const LITEPARSE_DOC_META_FLAG_TRAILER_ID_PAIR_DIFFERS: u32 = 256;
pub const LITEPARSE_DOC_META_FLAG_HAS_RAW_FILE_SIZE: u32 = 512;
pub const LITEPARSE_DOC_META_FLAG_HAS_XMP_TRUNCATED: u32 = 1024;
pub const LITEPARSE_DOC_META_FLAG_XMP_TRUNCATED: u32 = 2048;
pub const LITEPARSE_DOC_META_FLAG_HAS_SIGNATURE_COUNT: u32 = 4096;
pub const LITEPARSE_DOC_META_FLAG_HAS_SIGNATURE_BYTE_RANGE_REACHES_EOF: u32 = 8192;
pub const LITEPARSE_DOC_META_FLAG_SIGNATURE_BYTE_RANGE_REACHES_EOF: u32 = 16384;

pub const LITEPARSE_XFA_FLAG_HAS_CONTENT: u32 = 1;
pub const LITEPARSE_OUTLINE_FLAG_HAS_Y_PDF: u32 = 1;

/// `LiteParseResultView.form_type` values.
pub const LITEPARSE_FORM_TYPE_NONE: i32 = 0;
pub const LITEPARSE_FORM_TYPE_ACRO_FORM: i32 = 1;
pub const LITEPARSE_FORM_TYPE_XFA_FULL: i32 = 2;
pub const LITEPARSE_FORM_TYPE_XFA_FOREGROUND: i32 = 3;

/// An optional form type.
#[derive(Clone, Copy, Debug, PartialEq, Eq, Structural)]
pub struct LiteParseFormTypeValue {
    /// One of the `LITEPARSE_FORM_TYPE_*` values.
    pub value: i32,
    pub present: bool,
}

/// The bytes an optional string adds to the pool.
pub open spec fn opt_bytes(s: Option<String>) -> Seq<u8> {
    match s {
        Some(t) => encode_utf8(t@),
        None => Seq::empty(),
    }
}

/// The range an optional string gets when pushed onto a pool of `len` bytes.
pub open spec fn str_at(len: nat, s: Option<String>) -> LiteParseStr {
    match s {
        Some(t) => LiteParseStr { offset: len as u32, len: encode_utf8(t@).len() as u32 },
        None => absent_str(),
    }
}

/// All bytes the strings `ss` add, in order.
pub open spec fn all_bytes(ss: Seq<Option<String>>) -> Seq<u8>
    decreases ss.len(),
{
    if ss.len() == 0 {
        Seq::empty()
    } else {
        all_bytes(ss.drop_last()) + opt_bytes(ss.last())
    }
}

/// The range string `i` of `ss` gets when they are pushed in order onto a
/// pool of `len` bytes.
pub open spec fn str_in(len: nat, ss: Seq<Option<String>>, i: int) -> LiteParseStr {
    str_at(len + all_bytes(ss.take(i)).len(), ss[i])
}

pub fn push_opt_string(pool: &mut Pool, s: &Option<String>) -> (r: LiteParseStr)
    requires
        old(pool).view().len() + opt_bytes(*s).len() <= u32::MAX,
    ensures
        final(pool).view() == old(pool).view() + opt_bytes(*s),
        r == str_at(old(pool).view().len(), *s),
{
    match s {
        Some(t) => pool.push(t.as_str()),
        None => {
            let r = pool.push_opt(None);
            assert(pool.view() =~= old(pool).view() + opt_bytes(*s));
            r
        },
    }
}

proof fn lemma_all_bytes_step(ss: Seq<Option<String>>, i: int)
    requires
        0 <= i < ss.len(),
    ensures
        all_bytes(ss.take(i + 1)) == all_bytes(ss.take(i)) + opt_bytes(ss[i]),
        all_bytes(ss.take(i)).len() <= all_bytes(ss).len(),
        all_bytes(ss.take(i + 1)).len() <= all_bytes(ss).len(),
    decreases ss.len() - i,
{
    assert(ss.take(i + 1).drop_last() =~= ss.take(i));
    if i + 1 < ss.len() {
        lemma_all_bytes_step(ss, i + 1);
    } else {
        assert(ss.take(i + 1) =~= ss);
    }
}

/// `/Info` strings read at document open.
pub struct DescriptiveInfo {
    pub title: Option<String>,
    pub author: Option<String>,
    pub subject: Option<String>,
    pub keywords: Option<String>,
    pub trapped: Option<String>,
}

/// Document-level facts of a parse. Optional values are absent when the
/// file did not say.
pub struct DocumentMetadata {
    pub file_version: Option<i32>,
    pub is_encrypted: Option<bool>,
    pub security_handler_revision: Option<i32>,
    pub permissions: Option<u64>,
    pub eof_section_count: Option<u32>,
    pub startxref_count: Option<u32>,
    pub trailer_id_pair_differs: Option<bool>,
    pub raw_file_size: Option<u64>,
    pub xmp_truncated: Option<bool>,
    pub signature_count: Option<u32>,
    pub signature_byte_range_reaches_eof: Option<bool>,
    pub creation_date: Option<String>,
    pub mod_date: Option<String>,
    pub xmp: Option<String>,
}

/// Document metadata with optionals as `LITEPARSE_DOC_META_FLAG_*` bits.
#[derive(Clone, Copy, Debug, PartialEq, Eq, Structural)]
pub struct LiteParseDocumentMeta {
    pub title: LiteParseStr,
    pub author: LiteParseStr,
    pub subject: LiteParseStr,
    pub keywords: LiteParseStr,
    pub trapped: LiteParseStr,
    pub creation_date: LiteParseStr,
    pub mod_date: LiteParseStr,
    pub xmp: LiteParseStr,
    pub permissions: u64,
    pub raw_file_size: u64,
    pub file_version: i32,
    pub security_handler_revision: i32,
    pub eof_section_count: u32,
    pub startxref_count: u32,
    pub signature_count: u32,
    pub flags: u32,
}

/// Optional document metadata.
#[derive(Clone, Copy, Debug, PartialEq, Eq, Structural)]
pub struct LiteParseDocumentMetaValue {
    pub meta: LiteParseDocumentMeta,
    pub present: bool,
}

pub open spec fn bit_if(cond: bool, bit: u32) -> u32 {
    if cond {
        bit
    } else {
        0
    }
}

pub open spec fn or_zero<T>(o: Option<T>, zero: T) -> T {
    match o {
        Some(v) => v,
        None => zero,
    }
}

pub open spec fn desc_field(d: Option<&DescriptiveInfo>, k: int) -> Option<String> {
    match d {
        Some(info) => if k == 0 {
            info.title
        } else if k == 1 {
            info.author
        } else if k == 2 {
            info.subject
        } else if k == 3 {
            info.keywords
        } else {
            info.trapped
        },
        None => None,
    }
}

/// The eight strings of a metadata record, in the order they are pooled.
pub open spec fn meta_strings(meta: DocumentMetadata, d: Option<&DescriptiveInfo>) -> Seq<
    Option<String>,
> {
    seq![
        desc_field(d, 0),
        desc_field(d, 1),
        desc_field(d, 2),
        desc_field(d, 3),
        desc_field(d, 4),
        meta.creation_date,
        meta.mod_date,
        meta.xmp,
    ]
}

pub open spec fn meta_flags(meta: DocumentMetadata) -> u32 {
    bit_if(meta.file_version is Some, LITEPARSE_DOC_META_FLAG_HAS_FILE_VERSION) | bit_if(
        meta.is_encrypted is Some,
        LITEPARSE_DOC_META_FLAG_HAS_IS_ENCRYPTED,
    ) | bit_if(meta.is_encrypted == Some(true), LITEPARSE_DOC_META_FLAG_IS_ENCRYPTED) | bit_if(
        meta.security_handler_revision is Some,
        LITEPARSE_DOC_META_FLAG_HAS_SECURITY_HANDLER_REVISION,
    ) | bit_if(meta.permissions is Some, LITEPARSE_DOC_META_FLAG_HAS_PERMISSIONS) | bit_if(
        meta.eof_section_count is Some,
        LITEPARSE_DOC_META_FLAG_HAS_EOF_SECTION_COUNT,
    ) | bit_if(meta.startxref_count is Some, LITEPARSE_DOC_META_FLAG_HAS_STARTXREF_COUNT)
        | bit_if(
        meta.trailer_id_pair_differs is Some,
        LITEPARSE_DOC_META_FLAG_HAS_TRAILER_ID_PAIR_DIFFERS,
    ) | bit_if(
        meta.trailer_id_pair_differs == Some(true),
        LITEPARSE_DOC_META_FLAG_TRAILER_ID_PAIR_DIFFERS,
    ) | bit_if(meta.raw_file_size is Some, LITEPARSE_DOC_META_FLAG_HAS_RAW_FILE_SIZE) | bit_if(
        meta.xmp_truncated is Some,
        LITEPARSE_DOC_META_FLAG_HAS_XMP_TRUNCATED,
    ) | bit_if(meta.xmp_truncated == Some(true), LITEPARSE_DOC_META_FLAG_XMP_TRUNCATED) | bit_if(
        meta.signature_count is Some,
        LITEPARSE_DOC_META_FLAG_HAS_SIGNATURE_COUNT,
    ) | bit_if(
        meta.signature_byte_range_reaches_eof is Some,
        LITEPARSE_DOC_META_FLAG_HAS_SIGNATURE_BYTE_RANGE_REACHES_EOF,
    ) | bit_if(
        meta.signature_byte_range_reaches_eof == Some(true),
        LITEPARSE_DOC_META_FLAG_SIGNATURE_BYTE_RANGE_REACHES_EOF,
    )
}

pub fn flag_if(cond: bool, bit: u32) -> (r: u32)
    ensures
        r == bit_if(cond, bit),
{
    if cond {
        bit
    } else {
        0
    }
}

fn meta_flag_bits(meta: &DocumentMetadata) -> (f: u32)
    ensures
        f == meta_flags(*meta),
{
    flag_if(meta.file_version.is_some(), LITEPARSE_DOC_META_FLAG_HAS_FILE_VERSION) | flag_if(
        meta.is_encrypted.is_some(),
        LITEPARSE_DOC_META_FLAG_HAS_IS_ENCRYPTED,
    ) | flag_if(meta.is_encrypted == Some(true), LITEPARSE_DOC_META_FLAG_IS_ENCRYPTED) | flag_if(
        meta.security_handler_revision.is_some(),
        LITEPARSE_DOC_META_FLAG_HAS_SECURITY_HANDLER_REVISION,
    ) | flag_if(meta.permissions.is_some(), LITEPARSE_DOC_META_FLAG_HAS_PERMISSIONS) | flag_if(
        meta.eof_section_count.is_some(),
        LITEPARSE_DOC_META_FLAG_HAS_EOF_SECTION_COUNT,
    ) | flag_if(meta.startxref_count.is_some(), LITEPARSE_DOC_META_FLAG_HAS_STARTXREF_COUNT)
        | flag_if(
        meta.trailer_id_pair_differs.is_some(),
        LITEPARSE_DOC_META_FLAG_HAS_TRAILER_ID_PAIR_DIFFERS,
    ) | flag_if(
        meta.trailer_id_pair_differs == Some(true),
        LITEPARSE_DOC_META_FLAG_TRAILER_ID_PAIR_DIFFERS,
    ) | flag_if(meta.raw_file_size.is_some(), LITEPARSE_DOC_META_FLAG_HAS_RAW_FILE_SIZE) | flag_if(
        meta.xmp_truncated.is_some(),
        LITEPARSE_DOC_META_FLAG_HAS_XMP_TRUNCATED,
    ) | flag_if(meta.xmp_truncated == Some(true), LITEPARSE_DOC_META_FLAG_XMP_TRUNCATED)
        | flag_if(meta.signature_count.is_some(), LITEPARSE_DOC_META_FLAG_HAS_SIGNATURE_COUNT)
        | flag_if(
        meta.signature_byte_range_reaches_eof.is_some(),
        LITEPARSE_DOC_META_FLAG_HAS_SIGNATURE_BYTE_RANGE_REACHES_EOF,
    ) | flag_if(
        meta.signature_byte_range_reaches_eof == Some(true),
        LITEPARSE_DOC_META_FLAG_SIGNATURE_BYTE_RANGE_REACHES_EOF,
    )
}

fn descriptive_field(d: Option<&DescriptiveInfo>, k: usize) -> (r: &Option<String>)
    requires
        k < 5,
    ensures
        *r == desc_field(d, k as int),
{
    match d {
        Some(info) => if k == 0 {
            &info.title
        } else if k == 1 {
            &info.author
        } else if k == 2 {
            &info.subject
        } else if k == 3 {
            &info.keywords
        } else {
            &info.trapped
        },
        None => &NO_STRING,
    }
}

const NO_STRING: Option<String> = None;

impl LiteParseDocumentMeta {
    /// The metadata record: the `/Info` strings (absent without
    /// `descriptive`), then the dates and XMP, are pooled in that order.
    pub fn pack(pool: &mut Pool, meta: &DocumentMetadata, descriptive: Option<&DescriptiveInfo>) -> (r:
        Self)
        requires
            old(pool).view().len() + all_bytes(meta_strings(*meta, descriptive)).len() <= u32::MAX,
        ensures
            final(pool).view() == old(pool).view() + all_bytes(meta_strings(*meta, descriptive)),
            r.title == str_in(old(pool).view().len(), meta_strings(*meta, descriptive), 0),
            r.author == str_in(old(pool).view().len(), meta_strings(*meta, descriptive), 1),
            r.subject == str_in(old(pool).view().len(), meta_strings(*meta, descriptive), 2),
            r.keywords == str_in(old(pool).view().len(), meta_strings(*meta, descriptive), 3),
            r.trapped == str_in(old(pool).view().len(), meta_strings(*meta, descriptive), 4),
            r.creation_date == str_in(old(pool).view().len(), meta_strings(*meta, descriptive), 5),
            r.mod_date == str_in(old(pool).view().len(), meta_strings(*meta, descriptive), 6),
            r.xmp == str_in(old(pool).view().len(), meta_strings(*meta, descriptive), 7),
            r.permissions == or_zero(meta.permissions, 0u64),
            r.raw_file_size == or_zero(meta.raw_file_size, 0u64),
            r.file_version == or_zero(meta.file_version, 0i32),
            r.security_handler_revision == or_zero(meta.security_handler_revision, 0i32),
            r.eof_section_count == or_zero(meta.eof_section_count, 0u32),
            r.startxref_count == or_zero(meta.startxref_count, 0u32),
            r.signature_count == or_zero(meta.signature_count, 0u32),
            r.flags == meta_flags(*meta),
    {
        let ghost ss = meta_strings(*meta, descriptive);
        let ghost start = pool.view();
        let mut strs: Vec<LiteParseStr> = Vec::new();
        let mut k: usize = 0;
        while k < 8
            invariant
                0 <= k <= 8,
                ss == meta_strings(*meta, descriptive),
                start.len() + all_bytes(ss).len() <= u32::MAX,
                pool.view() == start + all_bytes(ss.take(k as int)),
                strs@.len() == k,
                forall|i: int| 0 <= i < k ==> strs@[i] == str_in(start.len(), ss, i),
            decreases 8 - k,
        {
            let s = if k < 5 {
                descriptive_field(descriptive, k)
            } else if k == 5 {
                &meta.creation_date
            } else if k == 6 {
                &meta.mod_date
            } else {
                &meta.xmp
            };
            assert(*s == ss[k as int]);
            proof {
                lemma_all_bytes_step(ss, k as int);
            }
            let r = push_opt_string(pool, s);
            strs.push(r);
            k = k + 1;
            assert(pool.view() =~= start + all_bytes(ss.take(k as int)));
        }
        assert(ss.take(8) =~= ss);
        LiteParseDocumentMeta {
            title: strs[0],
            author: strs[1],
            subject: strs[2],
            keywords: strs[3],
            trapped: strs[4],
            creation_date: strs[5],
            mod_date: strs[6],
            xmp: strs[7],
            permissions: match meta.permissions {
                Some(v) => v,
                None => 0,
            },
            raw_file_size: match meta.raw_file_size {
                Some(v) => v,
                None => 0,
            },
            file_version: match meta.file_version {
                Some(v) => v,
                None => 0,
            },
            security_handler_revision: match meta.security_handler_revision {
                Some(v) => v,
                None => 0,
            },
            eof_section_count: match meta.eof_section_count {
                Some(v) => v,
                None => 0,
            },
            startxref_count: match meta.startxref_count {
                Some(v) => v,
                None => 0,
            },
            signature_count: match meta.signature_count {
                Some(v) => v,
                None => 0,
            },
            flags: meta_flag_bits(meta),
        }
    }
}

} // verus!

verus! {

/// A page that failed under `continue_on_page_error`.
pub struct PageError {
    pub page_number: u32,
    pub message: String,
}

#[derive(Clone, Copy, Debug, PartialEq, Eq, Structural)]
pub struct LiteParsePageError {
    pub message: LiteParseStr,
    pub page_number: u32,
}

impl LiteParsePageError {
    pub fn pack(pool: &mut Pool, error: &PageError) -> (r: Self)
        requires
            old(pool).view().len() + encode_utf8(error.message@).len() <= u32::MAX,
        ensures
            final(pool).view() == old(pool).view() + encode_utf8(error.message@),
            r.message == str_at(old(pool).view().len(), Some(error.message)),
            r.page_number == error.page_number,
    {
        LiteParsePageError { message: pool.push(error.message.as_str()), page_number: error.page_number }
    }
}

/// One XFA packet of a form.
pub struct XfaPacket {
    pub index: u32,
    pub name: Option<String>,
    pub content_length: u32,
    /// Lossily decoded content; absent when unreadable.
    pub content: Option<String>,
}

#[derive(Clone, Copy, Debug, PartialEq, Eq, Structural)]
pub struct LiteParseXfaPacket {
    pub name: LiteParseStr,
    pub content: LiteParseStr,
    pub index: u32,
    pub content_length: u32,
    pub flags: u32,
}

impl LiteParseXfaPacket {
    /// Name then content are pooled; `LITEPARSE_XFA_FLAG_HAS_CONTENT` tells
    /// an empty content from an unreadable one.
    pub fn pack(pool: &mut Pool, packet: &XfaPacket) -> (r: Self)
        requires
            old(pool).view().len() + opt_bytes(packet.name).len() + opt_bytes(packet.content).len()
                <= u32::MAX,
        ensures
            final(pool).view() == old(pool).view() + opt_bytes(packet.name) + opt_bytes(
                packet.content,
            ),
            r.name == str_at(old(pool).view().len(), packet.name),
            r.content == str_at(old(pool).view().len() + opt_bytes(packet.name).len(), packet.content),
            r.index == packet.index,
            r.content_length == packet.content_length,
            r.flags == bit_if(packet.content is Some, LITEPARSE_XFA_FLAG_HAS_CONTENT),
    {
        let name = push_opt_string(pool, &packet.name);
        let content = push_opt_string(pool, &packet.content);
        LiteParseXfaPacket {
            name,
            content,
            index: packet.index,
            content_length: packet.content_length,
            flags: flag_if(packet.content.is_some(), LITEPARSE_XFA_FLAG_HAS_CONTENT),
        }
    }
}

/// One outline entry (bookmark); `y_pdf` is the bit pattern of an `f32`.
pub struct OutlineTarget {
    pub level: u8,
    pub title: String,
    pub page_index: i32,
    pub y_pdf: Option<u32>,
}

#[derive(Clone, Copy, Debug, PartialEq, Eq, Structural)]
pub struct LiteParseOutlineEntry {
    pub title: LiteParseStr,
    pub page_index: i32,
    pub y_pdf: u32,
    pub level: u32,
    pub flags: u32,
}

impl LiteParseOutlineEntry {
    pub fn pack(pool: &mut Pool, entry: &OutlineTarget) -> (r: Self)
        requires
            old(pool).view().len() + encode_utf8(entry.title@).len() <= u32::MAX,
        ensures
            final(pool).view() == old(pool).view() + encode_utf8(entry.title@),
            r.title == str_at(old(pool).view().len(), Some(entry.title)),
            r.page_index == entry.page_index,
            r.y_pdf == or_zero(entry.y_pdf, 0u32),
            r.level == entry.level,
            r.flags == bit_if(entry.y_pdf is Some, LITEPARSE_OUTLINE_FLAG_HAS_Y_PDF),
    {
        LiteParseOutlineEntry {
            title: pool.push(entry.title.as_str()),
            page_index: entry.page_index,
            y_pdf: match entry.y_pdf {
                Some(v) => v,
                None => 0,
            },
            level: entry.level as u32,
            flags: flag_if(entry.y_pdf.is_some(), LITEPARSE_OUTLINE_FLAG_HAS_Y_PDF),
        }
    }
}

pub const LITEPARSE_COMPLEXITY_FLAG_HAS_SUBSTANTIAL_IMAGES: u32 = 1;
pub const LITEPARSE_COMPLEXITY_FLAG_FULL_PAGE_IMAGE: u32 = 2;
pub const LITEPARSE_COMPLEXITY_FLAG_IS_GARBLED: u32 = 4;
pub const LITEPARSE_COMPLEXITY_FLAG_NEEDS_OCR: u32 = 8;
pub const LITEPARSE_COMPLEXITY_FLAG_HAS_UNCOVERED_VECTOR_AREA: u32 = 16;
pub const LITEPARSE_COMPLEXITY_FLAG_HAS_LAYOUT: u32 = 32;
pub const LITEPARSE_COMPLEXITY_FLAG_LAYOUT_IS_COMPLEX: u32 = 64;
/// Every `LITEPARSE_COMPLEXITY_FLAG_*` bit.
pub const COMPLEXITY_FLAGS: u32 = 127;

/// Layout complexity signals of a page; coverages are `f32` bit patterns.
pub struct LayoutComplexityStats {
    pub column_count: usize,
    pub ruled_table_count: usize,
    pub ruled_table_coverage: u32,
    pub text_table_run_count: usize,
    pub figure_count: usize,
    pub figure_coverage: u32,
    pub is_complex: bool,
    pub reasons: Vec<LayoutComplexityReason>,
}

/// OCR and layout complexity signals of a page; fractions and areas are
/// `f32` bit patterns.
pub struct PageComplexityStats {
    pub page_number: usize,
    pub text_length: usize,
    pub text_coverage: u32,
    pub has_substantial_images: bool,
    pub image_block_count: usize,
    pub image_coverage: u32,
    pub largest_image_coverage: u32,
    pub full_page_image: bool,
    pub uncovered_vector_area: Option<u32>,
    pub is_garbled: bool,
    pub page_area: u32,
    pub needs_ocr: bool,
    pub reasons: Vec<ComplexityReason>,
    pub layout: Option<LayoutComplexityStats>,
}

#[derive(Clone, Copy, Debug, PartialEq, Eq, Structural)]
pub struct LiteParsePageComplexity {
    pub page_number: u32,
    pub flags: u32,
    pub text_length: u32,
    pub image_block_count: u32,
    pub text_coverage: u32,
    pub image_coverage: u32,
    pub largest_image_coverage: u32,
    pub page_area: u32,
    pub uncovered_vector_area: u32,
    pub reasons: u32,
    pub layout_column_count: u32,
    pub layout_ruled_table_count: u32,
    pub layout_text_table_run_count: u32,
    pub layout_figure_count: u32,
    pub layout_ruled_table_coverage: u32,
    pub layout_figure_coverage: u32,
    pub layout_reasons: u32,
}

pub open spec fn clamp(v: usize) -> u32 {
    if v <= u32::MAX {
        v as u32
    } else {
        u32::MAX
    }
}

pub open spec fn complexity_flags(s: PageComplexityStats) -> u32 {
    bit_if(s.has_substantial_images, LITEPARSE_COMPLEXITY_FLAG_HAS_SUBSTANTIAL_IMAGES) | bit_if(
        s.full_page_image,
        LITEPARSE_COMPLEXITY_FLAG_FULL_PAGE_IMAGE,
    ) | bit_if(s.is_garbled, LITEPARSE_COMPLEXITY_FLAG_IS_GARBLED) | bit_if(
        s.needs_ocr,
        LITEPARSE_COMPLEXITY_FLAG_NEEDS_OCR,
    ) | bit_if(
        s.uncovered_vector_area is Some,
        LITEPARSE_COMPLEXITY_FLAG_HAS_UNCOVERED_VECTOR_AREA,
    ) | bit_if(s.layout is Some, LITEPARSE_COMPLEXITY_FLAG_HAS_LAYOUT) | bit_if(
        s.layout matches Some(l) && l.is_complex,
        LITEPARSE_COMPLEXITY_FLAG_LAYOUT_IS_COMPLEX,
    )
}

/// The record of a page's complexity signals.
pub open spec fn complexity_record(s: PageComplexityStats) -> LiteParsePageComplexity {
    LiteParsePageComplexity {
        page_number: clamp(s.page_number),
        flags: complexity_flags(s),
        text_length: clamp(s.text_length),
        image_block_count: clamp(s.image_block_count),
        text_coverage: s.text_coverage,
        image_coverage: s.image_coverage,
        largest_image_coverage: s.largest_image_coverage,
        page_area: s.page_area,
        uncovered_vector_area: or_zero(s.uncovered_vector_area, 0u32),
        reasons: mask_of_indices(reason_indices(s.reasons@)),
        layout_column_count: match s.layout {
            Some(l) => clamp(l.column_count),
            None => 0,
        },
        layout_ruled_table_count: match s.layout {
            Some(l) => clamp(l.ruled_table_count),
            None => 0,
        },
        layout_text_table_run_count: match s.layout {
            Some(l) => clamp(l.text_table_run_count),
            None => 0,
        },
        layout_figure_count: match s.layout {
            Some(l) => clamp(l.figure_count),
            None => 0,
        },
        layout_ruled_table_coverage: match s.layout {
            Some(l) => l.ruled_table_coverage,
            None => 0,
        },
        layout_figure_coverage: match s.layout {
            Some(l) => l.figure_coverage,
            None => 0,
        },
        layout_reasons: match s.layout {
            Some(l) => mask_of_indices(layout_reason_indices(l.reasons@)),
            None => 0,
        },
    }
}

/// `s` is what record `r` describes.
pub open spec fn stats_of_record(r: LiteParsePageComplexity, s: PageComplexityStats) -> bool {
    &&& s.page_number == r.page_number
    &&& s.text_length == r.text_length
    &&& s.image_block_count == r.image_block_count
    &&& s.text_coverage == r.text_coverage
    &&& s.image_coverage == r.image_coverage
    &&& s.largest_image_coverage == r.largest_image_coverage
    &&& s.page_area == r.page_area
    &&& s.has_substantial_images == (r.flags & LITEPARSE_COMPLEXITY_FLAG_HAS_SUBSTANTIAL_IMAGES
        != 0)
    &&& s.full_page_image == (r.flags & LITEPARSE_COMPLEXITY_FLAG_FULL_PAGE_IMAGE != 0)
    &&& s.is_garbled == (r.flags & LITEPARSE_COMPLEXITY_FLAG_IS_GARBLED != 0)
    &&& s.needs_ocr == (r.flags & LITEPARSE_COMPLEXITY_FLAG_NEEDS_OCR != 0)
    &&& s.uncovered_vector_area == (if r.flags & LITEPARSE_COMPLEXITY_FLAG_HAS_UNCOVERED_VECTOR_AREA
        != 0 {
        Some(r.uncovered_vector_area)
    } else {
        None
    })
    &&& reason_indices(s.reasons@) == indices_in(r.reasons, 7)
    &&& (r.flags & LITEPARSE_COMPLEXITY_FLAG_HAS_LAYOUT != 0) == (s.layout is Some)
    &&& s.layout matches Some(l) ==> {
        &&& l.column_count == r.layout_column_count
        &&& l.ruled_table_count == r.layout_ruled_table_count
        &&& l.text_table_run_count == r.layout_text_table_run_count
        &&& l.figure_count == r.layout_figure_count
        &&& l.ruled_table_coverage == r.layout_ruled_table_coverage
        &&& l.figure_coverage == r.layout_figure_coverage
        &&& l.is_complex == (r.flags & LITEPARSE_COMPLEXITY_FLAG_LAYOUT_IS_COMPLEX != 0)
        &&& layout_reason_indices(l.reasons@) == indices_in(r.layout_reasons, 3)
    }
}

impl LiteParsePageComplexity {
    /// Counts saturate at `u32::MAX`; optionals become flag bits.
    pub fn from_stats(stats: &PageComplexityStats) -> (r: Self)
        ensures
            r == complexity_record(*stats),
    {
        let layout_complex = match &stats.layout {
            Some(l) => l.is_complex,
            None => false,
        };
        let flags = flag_if(
            stats.has_substantial_images,
            LITEPARSE_COMPLEXITY_FLAG_HAS_SUBSTANTIAL_IMAGES,
        ) | flag_if(stats.full_page_image, LITEPARSE_COMPLEXITY_FLAG_FULL_PAGE_IMAGE) | flag_if(
            stats.is_garbled,
            LITEPARSE_COMPLEXITY_FLAG_IS_GARBLED,
        ) | flag_if(stats.needs_ocr, LITEPARSE_COMPLEXITY_FLAG_NEEDS_OCR) | flag_if(
            stats.uncovered_vector_area.is_some(),
            LITEPARSE_COMPLEXITY_FLAG_HAS_UNCOVERED_VECTOR_AREA,
        ) | flag_if(stats.layout.is_some(), LITEPARSE_COMPLEXITY_FLAG_HAS_LAYOUT) | flag_if(
            layout_complex,
            LITEPARSE_COMPLEXITY_FLAG_LAYOUT_IS_COMPLEX,
        );
        let (column_count, ruled, runs, figures, ruled_cov, fig_cov, layout_reasons) = match &stats.layout {
            Some(l) => (
                clamp_u32(l.column_count),
                clamp_u32(l.ruled_table_count),
                clamp_u32(l.text_table_run_count),
                clamp_u32(l.figure_count),
                l.ruled_table_coverage,
                l.figure_coverage,
                layout_reason_mask(l.reasons.as_slice()),
            ),
            None => (0, 0, 0, 0, 0, 0, 0),
        };
        LiteParsePageComplexity {
            page_number: clamp_u32(stats.page_number),
            flags,
            text_length: clamp_u32(stats.text_length),
            image_block_count: clamp_u32(stats.image_block_count),
            text_coverage: stats.text_coverage,
            image_coverage: stats.image_coverage,
            largest_image_coverage: stats.largest_image_coverage,
            page_area: stats.page_area,
            uncovered_vector_area: match stats.uncovered_vector_area {
                Some(v) => v,
                None => 0,
            },
            reasons: reason_mask(stats.reasons.as_slice()),
            layout_column_count: column_count,
            layout_ruled_table_count: ruled,
            layout_text_table_run_count: runs,
            layout_figure_count: figures,
            layout_ruled_table_coverage: ruled_cov,
            layout_figure_coverage: fig_cov,
            layout_reasons,
        }
    }

    /// The signals a record describes, as a caller supplies them on
    /// content input.
    pub fn to_stats(&self) -> (s: PageComplexityStats)
        ensures
            stats_of_record(*self, s),
    {
        let flags = self.flags;
        let layout = if flags & LITEPARSE_COMPLEXITY_FLAG_HAS_LAYOUT != 0 {
            Some(
                LayoutComplexityStats {
                    column_count: self.layout_column_count as usize,
                    ruled_table_count: self.layout_ruled_table_count as usize,
                    ruled_table_coverage: self.layout_ruled_table_coverage,
                    text_table_run_count: self.layout_text_table_run_count as usize,
                    figure_count: self.layout_figure_count as usize,
                    figure_coverage: self.layout_figure_coverage,
                    is_complex: flags & LITEPARSE_COMPLEXITY_FLAG_LAYOUT_IS_COMPLEX != 0,
                    reasons: layout_reasons_from_mask(self.layout_reasons),
                },
            )
        } else {
            None
        };
        PageComplexityStats {
            page_number: self.page_number as usize,
            text_length: self.text_length as usize,
            text_coverage: self.text_coverage,
            has_substantial_images: flags & LITEPARSE_COMPLEXITY_FLAG_HAS_SUBSTANTIAL_IMAGES != 0,
            image_block_count: self.image_block_count as usize,
            image_coverage: self.image_coverage,
            largest_image_coverage: self.largest_image_coverage,
            full_page_image: flags & LITEPARSE_COMPLEXITY_FLAG_FULL_PAGE_IMAGE != 0,
            uncovered_vector_area: if flags & LITEPARSE_COMPLEXITY_FLAG_HAS_UNCOVERED_VECTOR_AREA
                != 0 {
                Some(self.uncovered_vector_area)
            } else {
                None
            },
            is_garbled: flags & LITEPARSE_COMPLEXITY_FLAG_IS_GARBLED != 0,
            page_area: self.page_area,
            needs_ocr: flags & LITEPARSE_COMPLEXITY_FLAG_NEEDS_OCR != 0,
            reasons: reasons_from_mask(self.reasons),
            layout,
        }
    }
}

} // verus!

verus! {

/// Complexity signals survive packing and reading back: every count that
/// fits `u32`, every fraction, flag and optional comes back unchanged, and
/// exactly the listed reasons come back.
pub proof fn lemma_complexity_round_trip(
    s: PageComplexityStats,
    back: PageComplexityStats,
    r: ComplexityReason,
    lr: LayoutComplexityReason,
)
    requires
        s.page_number <= u32::MAX,
        s.text_length <= u32::MAX,
        s.image_block_count <= u32::MAX,
        s.layout matches Some(l) ==> l.column_count <= u32::MAX && l.ruled_table_count <= u32::MAX
            && l.text_table_run_count <= u32::MAX && l.figure_count <= u32::MAX,
        stats_of_record(complexity_record(s), back),
    ensures
        back.page_number == s.page_number,
        back.text_length == s.text_length,
        back.image_block_count == s.image_block_count,
        back.text_coverage == s.text_coverage,
        back.image_coverage == s.image_coverage,
        back.largest_image_coverage == s.largest_image_coverage,
        back.page_area == s.page_area,
        back.has_substantial_images == s.has_substantial_images,
        back.full_page_image == s.full_page_image,
        back.is_garbled == s.is_garbled,
        back.needs_ocr == s.needs_ocr,
        back.uncovered_vector_area == s.uncovered_vector_area,
        back.reasons@.contains(r) == s.reasons@.contains(r),
        back.layout is Some == s.layout is Some,
        back.layout matches Some(bl) ==> s.layout matches Some(l) && bl.column_count == l.column_count
            && bl.ruled_table_count == l.ruled_table_count && bl.text_table_run_count
            == l.text_table_run_count && bl.figure_count == l.figure_count
            && bl.ruled_table_coverage == l.ruled_table_coverage && bl.figure_coverage
            == l.figure_coverage && bl.is_complex == l.is_complex && bl.reasons@.contains(lr)
            == l.reasons@.contains(lr),
{
    let rec = complexity_record(s);
    let f = rec.flags;
    let a = s.has_substantial_images;
    let b = s.full_page_image;
    let c = s.is_garbled;
    let d = s.needs_ocr;
    let e = s.uncovered_vector_area is Some;
    let g = s.layout is Some;
    let h = s.layout matches Some(l) && l.is_complex;
    assert(f == bit_if(a, 1) | bit_if(b, 2) | bit_if(c, 4) | bit_if(d, 8) | bit_if(e, 16) | bit_if(
        g,
        32,
    ) | bit_if(h, 64));
    let fa = bit_if(a, 1);
    let fb = bit_if(b, 2);
    let fc = bit_if(c, 4);
    let fd = bit_if(d, 8);
    let fe = bit_if(e, 16);
    let fg = bit_if(g, 32);
    let fh = bit_if(h, 64);
    assert(fa == 0 || fa == 1);
    assert(fb == 0 || fb == 2);
    assert(fc == 0 || fc == 4);
    assert(fd == 0 || fd == 8);
    assert(fe == 0 || fe == 16);
    assert(fg == 0 || fg == 32);
    assert(fh == 0 || fh == 64);
    assert({
        let x = fa | fb | fc | fd | fe | fg | fh;
        &&& (x & 1 != 0) == (fa == 1)
        &&& (x & 2 != 0) == (fb == 2)
        &&& (x & 4 != 0) == (fc == 4)
        &&& (x & 8 != 0) == (fd == 8)
        &&& (x & 16 != 0) == (fe == 16)
        &&& (x & 32 != 0) == (fg == 32)
        &&& (x & 64 != 0) == (fh == 64)
    }) by (bit_vector)
        requires
            fa == 0 || fa == 1,
            fb == 0 || fb == 2,
            fc == 0 || fc == 4,
            fd == 0 || fd == 8,
            fe == 0 || fe == 16,
            fg == 0 || fg == 32,
            fh == 0 || fh == 64,
    ;
    crate::flags::lemma_reasons_survive_packing(s.reasons@, r);
    crate::flags::lemma_reason_indices_contains(back.reasons@, r);
    if let Some(l) = s.layout {
        crate::flags::lemma_layout_reasons_survive_packing(l.reasons@, lr);
        if let Some(bl) = back.layout {
            crate::flags::lemma_layout_reason_indices_contains(bl.reasons@, lr);
        }
    }
}

} // verus!
