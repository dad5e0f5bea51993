//! Reading packed records back: what the content reader gives for records
//! that packing wrote is what was packed.

use vstd::prelude::*;
use vstd::utf8::{decode_utf8, encode_utf8, encode_utf8_decode_utf8, encode_utf8_valid_utf8};
use crate::check::{all_finite, f32_finite, only_known, range_fits};
use crate::color::{hex_digits, lemma_argb_hex_round_trip};
use crate::content::{opt_view, range_of, str_ok, str_text, text_or_empty};
use crate::pack::{
    ContentView, PageParts, extends, fold, is_prefix, item_parts, item_record, item_step, item_stepper,
    lemma_extends_trans, lemma_fold_next, lemma_fold_take_extends, lemma_items_to_page, lemma_prefix_trans,
    lemma_simple_steps_extend, opt_color, page_record, page_step, pooled, text_item_flags, word_bytes,
};
use crate::packing::{PackFrom, all_appended, start_of};
use crate::page::{
    LiteParseWordBox, TextItem, WordBox, item_error, item_matches, items_error, lemma_first_bad, place_of,
    word_error, word_matches, words_error, LITEPARSE_TEXT_ITEM_FLAG_FONT_IS_BUGGY,
    LITEPARSE_TEXT_ITEM_FLAG_HAS_CONFIDENCE, LITEPARSE_TEXT_ITEM_FLAG_HAS_FILL_COLOR,
    LITEPARSE_TEXT_ITEM_FLAG_HAS_FONT_ASCENT, LITEPARSE_TEXT_ITEM_FLAG_HAS_FONT_DESCENT,
    LITEPARSE_TEXT_ITEM_FLAG_HAS_FONT_FLAGS, LITEPARSE_TEXT_ITEM_FLAG_HAS_FONT_HEIGHT,
    LITEPARSE_TEXT_ITEM_FLAG_HAS_FONT_SIZE, LITEPARSE_TEXT_ITEM_FLAG_HAS_FONT_WEIGHT,
    LITEPARSE_TEXT_ITEM_FLAG_HAS_MCID, LITEPARSE_TEXT_ITEM_FLAG_HAS_STROKE_COLOR,
    LITEPARSE_TEXT_ITEM_FLAG_HAS_TEXT_WIDTH, LITEPARSE_TEXT_ITEM_FLAG_STRIKE,
    LITEPARSE_TEXT_ITEM_FLAG_TRAILING_SPACE_GENERATED, LITEPARSE_TEXT_ITEM_FLAG_UNICODE_MAP_ERROR,
    TEXT_ITEM_FLAGS,
};
use crate::records::{bit_if, opt_bytes, str_at};

verus! {

// Strings.
/// The bytes of `pool` from `|pre|` on start with `mid` when `pre + mid`
/// starts `pool`.
proof fn lemma_slice(pool: Seq<u8>, pre: Seq<u8>, mid: Seq<u8>)
    requires
        is_prefix(pre + mid, pool),
    ensures
        pool.subrange(pre.len() as int, (pre.len() + mid.len()) as int) == mid,
{
    assert forall|i: int| 0 <= i < mid.len() implies #[trigger] pool.subrange(
        pre.len() as int,
        (pre.len() + mid.len()) as int,
    )[i] == mid[i] by {
        assert(pool[pre.len() + i] == (pre + mid)[pre.len() + i]);
    }
    assert(pool.subrange(pre.len() as int, (pre.len() + mid.len()) as int) =~= mid);
}

/// What an optional string reads back as: an empty one is absent.
pub open spec fn read_back(o: Option<String>) -> Option<Seq<char>> {
    match o {
        Some(t) => if t@.len() == 0 {
            None
        } else {
            Some(t@)
        },
        None => None,
    }
}

proof fn lemma_encode_empty(s: Seq<char>)
    ensures
        (encode_utf8(s).len() == 0) == (s.len() == 0),
{
    encode_utf8_decode_utf8(s);
    if s.len() == 0 {
        assert(encode_utf8(s) =~= Seq::<u8>::empty());
    }
    if encode_utf8(s).len() == 0 {
        assert(encode_utf8(s) =~= Seq::<u8>::empty());
        assert(decode_utf8(Seq::<u8>::empty()) =~= Seq::<char>::empty());
    }
}

/// A string pooled at `at` reads back from any pool that keeps its bytes
/// there.
pub proof fn lemma_read_str(pool: Seq<u8>, pre: Seq<u8>, o: Option<String>)
    requires
        is_prefix(pre + opt_bytes(o), pool),
        pre.len() + opt_bytes(o).len() <= u32::MAX,
    ensures
        str_ok(pool, str_at(pre.len(), o)),
        str_text(pool, str_at(pre.len(), o)) == read_back(o),
        o matches Some(t) ==> text_or_empty(pool, str_at(pre.len(), o)) == t@,
{
    match o {
        Some(t) => {
            lemma_slice(pool, pre, encode_utf8(t@));
            encode_utf8_valid_utf8(t@);
            encode_utf8_decode_utf8(t@);
            lemma_encode_empty(t@);
        },
        None => {},
    }
}

// Flags.
proof fn lemma_item_flag_bits(
    c0: bool,
    c1: bool,
    c2: bool,
    c3: bool,
    c4: bool,
    c5: bool,
    c6: bool,
    c7: bool,
    c8: bool,
    c9: bool,
    c10: bool,
    c11: bool,
    c12: bool,
    c13: bool,
    c14: bool,
    f: u32,
)
    requires
        f == bit_if(c0, LITEPARSE_TEXT_ITEM_FLAG_HAS_FONT_SIZE) | bit_if(c1, LITEPARSE_TEXT_ITEM_FLAG_HAS_CONFIDENCE) | bit_if(c2, LITEPARSE_TEXT_ITEM_FLAG_HAS_FONT_FLAGS) | bit_if(c3, LITEPARSE_TEXT_ITEM_FLAG_HAS_FONT_HEIGHT) | bit_if(c4, LITEPARSE_TEXT_ITEM_FLAG_HAS_FONT_ASCENT) | bit_if(c5, LITEPARSE_TEXT_ITEM_FLAG_HAS_FONT_DESCENT) | bit_if(c6, LITEPARSE_TEXT_ITEM_FLAG_HAS_FONT_WEIGHT) | bit_if(c7, LITEPARSE_TEXT_ITEM_FLAG_HAS_TEXT_WIDTH) | bit_if(c8, LITEPARSE_TEXT_ITEM_FLAG_HAS_MCID) | bit_if(c9, LITEPARSE_TEXT_ITEM_FLAG_HAS_FILL_COLOR) | bit_if(c10, LITEPARSE_TEXT_ITEM_FLAG_HAS_STROKE_COLOR) | bit_if(c11, LITEPARSE_TEXT_ITEM_FLAG_STRIKE) | bit_if(c12, LITEPARSE_TEXT_ITEM_FLAG_UNICODE_MAP_ERROR) | bit_if(c13, LITEPARSE_TEXT_ITEM_FLAG_FONT_IS_BUGGY) | bit_if(c14, LITEPARSE_TEXT_ITEM_FLAG_TRAILING_SPACE_GENERATED),
    ensures
        f & !32767u32 == 0,
        (f & 1 != 0) == c0,
        (f & 2 != 0) == c1,
        (f & 4 != 0) == c2,
        (f & 8 != 0) == c3,
        (f & 16 != 0) == c4,
        (f & 32 != 0) == c5,
        (f & 64 != 0) == c6,
        (f & 128 != 0) == c7,
        (f & 256 != 0) == c8,
        (f & 512 != 0) == c9,
        (f & 1024 != 0) == c10,
        (f & 2048 != 0) == c11,
        (f & 4096 != 0) == c12,
        (f & 8192 != 0) == c13,
        (f & 16384 != 0) == c14,
{
    assert(f & !32767u32 == 0 && (f & 1 != 0) == c0 && (f & 2 != 0) == c1 && (f & 4 != 0) == c2 && (f & 8 != 0) == c3 && (f & 16 != 0) == c4 && (f & 32 != 0) == c5 && (f & 64 != 0) == c6 && (f & 128 != 0) == c7 && (f & 256 != 0) == c8 && (f & 512 != 0) == c9 && (f & 1024 != 0) == c10 && (f & 2048 != 0) == c11 && (f & 4096 != 0) == c12 && (f & 8192 != 0) == c13 && (f & 16384 != 0) == c14) by (bit_vector)
        requires
            f == bit_if(c0, LITEPARSE_TEXT_ITEM_FLAG_HAS_FONT_SIZE) | bit_if(c1, LITEPARSE_TEXT_ITEM_FLAG_HAS_CONFIDENCE) | bit_if(c2, LITEPARSE_TEXT_ITEM_FLAG_HAS_FONT_FLAGS) | bit_if(c3, LITEPARSE_TEXT_ITEM_FLAG_HAS_FONT_HEIGHT) | bit_if(c4, LITEPARSE_TEXT_ITEM_FLAG_HAS_FONT_ASCENT) | bit_if(c5, LITEPARSE_TEXT_ITEM_FLAG_HAS_FONT_DESCENT) | bit_if(c6, LITEPARSE_TEXT_ITEM_FLAG_HAS_FONT_WEIGHT) | bit_if(c7, LITEPARSE_TEXT_ITEM_FLAG_HAS_TEXT_WIDTH) | bit_if(c8, LITEPARSE_TEXT_ITEM_FLAG_HAS_MCID) | bit_if(c9, LITEPARSE_TEXT_ITEM_FLAG_HAS_FILL_COLOR) | bit_if(c10, LITEPARSE_TEXT_ITEM_FLAG_HAS_STROKE_COLOR) | bit_if(c11, LITEPARSE_TEXT_ITEM_FLAG_STRIKE) | bit_if(c12, LITEPARSE_TEXT_ITEM_FLAG_UNICODE_MAP_ERROR) | bit_if(c13, LITEPARSE_TEXT_ITEM_FLAG_FONT_IS_BUGGY) | bit_if(c14, LITEPARSE_TEXT_ITEM_FLAG_TRAILING_SPACE_GENERATED),
    ;
}

// Prefixes.
/// A sequence starts any sequence that continues it.
pub proof fn lemma_prefix_add<T>(a: Seq<T>, b: Seq<T>)
    ensures
        is_prefix(a, a + b),
{
}

proof fn lemma_prefix_concat<T>(p: Seq<T>, a: Seq<T>, b: Seq<T>)
    requires
        is_prefix(a, b),
    ensures
        is_prefix(p + a, p + b),
{
    assert forall|i: int| 0 <= i < (p + a).len() implies #[trigger] (p + b)[i] == (p + a)[i] by {
        if i >= p.len() {
            assert(b[i - p.len()] == a[i - p.len()]);
        }
    }
}

/// What the first `j` items add to the pool starts what they all add.
proof fn lemma_appended_take<C, V: PackFrom<C>>(xs: Seq<C>, j: int)
    requires
        0 <= j <= xs.len(),
    ensures
        is_prefix(all_appended::<C, V>(xs.take(j)), all_appended::<C, V>(xs)),
    decreases xs.len() - j,
{
    if j < xs.len() {
        lemma_appended_take::<C, V>(xs, j + 1);
        assert(xs.take(j + 1).drop_last() =~= xs.take(j));
        lemma_prefix_add(all_appended::<C, V>(xs.take(j)), V::appended(&xs[j]));
        lemma_prefix_trans(
            all_appended::<C, V>(xs.take(j)),
            all_appended::<C, V>(xs.take(j + 1)),
            all_appended::<C, V>(xs),
        );
    } else {
        assert(xs.take(j) =~= xs);
    }
}

/// Item `k` of `xs` pooled from `pre` on has its bytes right after those
/// of the items before it.
pub proof fn lemma_appended_at<C, V: PackFrom<C>>(pre: Seq<u8>, xs: Seq<C>, k: int)
    requires
        0 <= k < xs.len(),
    ensures
        is_prefix(
            (pre + all_appended::<C, V>(xs.take(k))) + V::appended(&xs[k]),
            pre + all_appended::<C, V>(xs),
        ),
        start_of::<C, V>(pre.len(), xs, k) == (pre + all_appended::<C, V>(xs.take(k))).len(),
{
    lemma_appended_take::<C, V>(xs, k + 1);
    assert(xs.take(k + 1).drop_last() =~= xs.take(k));
    assert((pre + all_appended::<C, V>(xs.take(k))) + V::appended(&xs[k]) =~= pre + all_appended::<
        C,
        V,
    >(xs.take(k + 1)));
    lemma_prefix_concat(pre, all_appended::<C, V>(xs.take(k + 1)), all_appended::<C, V>(xs));
}

// Text items.
proof fn lemma_extends_items(a: ContentView, b: ContentView)
    requires
        extends(a, b),
    ensures
        is_prefix(a.pool, b.pool),
        is_prefix(a.words, b.words),
        is_prefix(a.char_codes, b.char_codes),
{
    reveal(extends);
}

/// A colour spelled as packing prints it: eight lowercase hex digits.
pub open spec fn canonical_color(c: Option<String>) -> bool {
    c matches Some(s) ==> exists|x: u32| s@ == hex_digits(x as nat, 8)
}

pub open spec fn metric_ok(o: Option<u32>) -> bool {
    o matches Some(x) ==> f32_finite(x)
}

/// A word reads back when its box is finite.
pub open spec fn word_readable(w: WordBox) -> bool {
    all_finite(seq![w.x, w.y, w.width, w.height])
}

/// A text item reads back as itself when its box and metrics are finite,
/// its optional strings are not empty and its colours are spelled as
/// packing prints them.
pub open spec fn item_readable(it: TextItem) -> bool {
    &&& all_finite(seq![it.x, it.y, it.width, it.height, it.rotation])
    &&& metric_ok(it.font_size)
    &&& metric_ok(it.confidence)
    &&& metric_ok(it.font_height)
    &&& metric_ok(it.font_ascent)
    &&& metric_ok(it.font_descent)
    &&& metric_ok(it.text_width)
    &&& read_back(it.font_name) == opt_view(it.font_name)
    &&& read_back(it.link) == opt_view(it.link)
    &&& canonical_color(it.fill_color)
    &&& canonical_color(it.stroke_color)
    &&& forall|k: int| 0 <= k < it.words@.len() ==> word_readable(#[trigger] it.words@[k])
}

pub open spec fn same_word(a: WordBox, b: WordBox) -> bool {
    a.text@ == b.text@ && a.x == b.x && a.y == b.y && a.width == b.width && a.height == b.height
}

/// Two text items hold the same values.
pub open spec fn same_item(a: TextItem, b: TextItem) -> bool {
    &&& a.text@ == b.text@
    &&& a.x == b.x && a.y == b.y && a.width == b.width && a.height == b.height
    &&& a.rotation == b.rotation
    &&& opt_view(a.font_name) == opt_view(b.font_name)
    &&& a.font_size == b.font_size && a.font_height == b.font_height
    &&& a.font_ascent == b.font_ascent && a.font_descent == b.font_descent
    &&& a.font_weight == b.font_weight && a.font_flags == b.font_flags
    &&& a.text_width == b.text_width && a.font_is_buggy == b.font_is_buggy
    &&& a.has_unicode_map_error == b.has_unicode_map_error && a.mcid == b.mcid
    &&& opt_view(a.fill_color) == opt_view(b.fill_color)
    &&& opt_view(a.stroke_color) == opt_view(b.stroke_color)
    &&& a.char_codes@ == b.char_codes@
    &&& a.trailing_space_generated == b.trailing_space_generated
    &&& a.confidence == b.confidence
    &&& opt_view(a.link) == opt_view(b.link)
    &&& a.strike == b.strike
    &&& a.words@.len() == b.words@.len()
    &&& forall|k: int| 0 <= k < a.words@.len() ==> same_word(#[trigger] a.words@[k], b.words@[k])
}

/// A colour spelled as packing prints it packs to the number it spells,
/// and is marked present exactly when it is there.
pub proof fn lemma_color(c: Option<String>)
    requires
        canonical_color(c),
    ensures
        opt_color(c).1 == (c is Some),
        c matches Some(s) ==> s@ == hex_digits(opt_color(c).0 as nat, 8),
{
    if let Some(s) = c {
        let x = choose|x: u32| s@ == hex_digits(x as nat, 8);
        lemma_argb_hex_round_trip(x);
    }
}

/// The words of a packed item read back as its words.
proof fn lemma_words_round_trip(v: ContentView, it: TextItem, w: ContentView, what: Seq<char>)
    requires
        extends(item_parts(v, it), w),
        item_parts(v, it).pool.len() <= u32::MAX,
        forall|k: int| 0 <= k < it.words@.len() ==> word_readable(#[trigger] it.words@[k]),
    ensures
        ({
            let ws = pooled::<WordBox, LiteParseWordBox>(v.pool.len(), it.words@);
            &&& forall|k: int| 0 <= k < ws.len() ==> word_error(w.pool, #[trigger] ws[k], what) is None
            &&& forall|k: int, o: WordBox|
                0 <= k < ws.len() && #[trigger] word_matches(o, w.pool, ws[k]) ==> same_word(o, it.words@[k])
        }),
{
    lemma_extends_items(item_parts(v, it), w);
    let ws = pooled::<WordBox, LiteParseWordBox>(v.pool.len(), it.words@);
    let xs = it.words@;
    let parts = item_parts(v, it);
    lemma_prefix_add(v.pool + word_bytes(it), encode_utf8(it.text@) + opt_bytes(it.font_name) + opt_bytes(it.link));
    assert(parts.pool =~= (v.pool + word_bytes(it)) + (encode_utf8(it.text@) + opt_bytes(it.font_name) + opt_bytes(it.link)));
    lemma_prefix_trans(v.pool + word_bytes(it), parts.pool, w.pool);
    assert forall|k: int| 0 <= k < ws.len() implies {
        &&& str_ok(w.pool, (#[trigger] ws[k]).text)
        &&& text_or_empty(w.pool, ws[k].text) == xs[k].text@
    } by {
        lemma_appended_at::<WordBox, LiteParseWordBox>(v.pool, xs, k);
        let pre = v.pool + all_appended::<WordBox, LiteParseWordBox>(xs.take(k));
        lemma_prefix_trans(pre + encode_utf8(xs[k].text@), v.pool + word_bytes(it), w.pool);
        lemma_read_str(w.pool, pre, Some(xs[k].text));
    }
    assert forall|k: int| 0 <= k < ws.len() implies word_error(w.pool, #[trigger] ws[k], what) is None by {
        assert(str_ok(w.pool, ws[k].text));
        assert(word_readable(xs[k]));
    }
}

/// Where a packed text item's strings and arrays stand in the arrays
/// that hold it.
proof fn lemma_item_facts(v: ContentView, it: TextItem, w: ContentView)
    requires
        extends(item_parts(v, it), w),
        crate::pack::fits(item_parts(v, it)),
    ensures
        ({
            let rec = item_record(v, it);
            &&& str_ok(w.pool, rec.text) && text_or_empty(w.pool, rec.text) == it.text@
            &&& str_ok(w.pool, rec.font_name) && str_text(w.pool, rec.font_name) == read_back(it.font_name)
            &&& str_ok(w.pool, rec.link) && str_text(w.pool, rec.link) == read_back(it.link)
            &&& range_fits(rec.word_offset, rec.word_count, w.words.len())
            &&& range_of(w.words, rec.word_offset, rec.word_count) == pooled::<WordBox, LiteParseWordBox>(
                v.pool.len(),
                it.words@,
            )
            &&& range_fits(rec.char_code_offset, rec.char_code_count, w.char_codes.len())
            &&& range_of(w.char_codes, rec.char_code_offset, rec.char_code_count) == it.char_codes@
        }),
{
    let rec = item_record(v, it);
    let parts = item_parts(v, it);
    let ws = pooled::<WordBox, LiteParseWordBox>(v.pool.len(), it.words@);
    lemma_extends_items(parts, w);
    let p0 = v.pool + word_bytes(it);
    let p1 = p0 + encode_utf8(it.text@);
    let p2 = p1 + opt_bytes(it.font_name);
    let p3 = p2 + opt_bytes(it.link);
    assert(parts.pool =~= p3);
    lemma_prefix_add(p1, opt_bytes(it.font_name) + opt_bytes(it.link));
    assert(p3 =~= p1 + (opt_bytes(it.font_name) + opt_bytes(it.link)));
    lemma_prefix_trans(p1, p3, w.pool);
    lemma_prefix_add(p2, opt_bytes(it.link));
    lemma_prefix_trans(p2, p3, w.pool);
    lemma_read_str(w.pool, p0, Some(it.text));
    lemma_read_str(w.pool, p1, it.font_name);
    lemma_read_str(w.pool, p2, it.link);
    assert(range_of(w.words, rec.word_offset, rec.word_count) =~= ws);
    assert(range_of(w.char_codes, rec.char_code_offset, rec.char_code_count) =~= it.char_codes@);
}

#[verifier::spinoff_prover]
#[verifier::rlimit(80)]
proof fn lemma_text_item_bits(it: TextItem)
    ensures
        ({
            let f = text_item_flags(it);
            &&& only_known(f, TEXT_ITEM_FLAGS)
            &&& (f & 1 != 0) == (it.font_size is Some)
            &&& (f & 2 != 0) == (it.confidence is Some)
            &&& (f & 4 != 0) == (it.font_flags is Some)
            &&& (f & 8 != 0) == (it.font_height is Some)
            &&& (f & 16 != 0) == (it.font_ascent is Some)
            &&& (f & 32 != 0) == (it.font_descent is Some)
            &&& (f & 64 != 0) == (it.font_weight is Some)
            &&& (f & 128 != 0) == (it.text_width is Some)
            &&& (f & 256 != 0) == (it.mcid is Some)
            &&& (f & 512 != 0) == opt_color(it.fill_color).1
            &&& (f & 1024 != 0) == opt_color(it.stroke_color).1
            &&& (f & 2048 != 0) == it.strike
            &&& (f & 4096 != 0) == it.has_unicode_map_error
            &&& (f & 8192 != 0) == it.font_is_buggy
            &&& (f & 16384 != 0) == it.trailing_space_generated
        }),
{
    lemma_item_flag_bits(
        it.font_size is Some,
        it.confidence is Some,
        it.font_flags is Some,
        it.font_height is Some,
        it.font_ascent is Some,
        it.font_descent is Some,
        it.font_weight is Some,
        it.text_width is Some,
        it.mcid is Some,
        opt_color(it.fill_color).1,
        opt_color(it.stroke_color).1,
        it.strike,
        it.has_unicode_map_error,
        it.font_is_buggy,
        it.trailing_space_generated,
        text_item_flags(it),
    );
}

/// A packed text item passes every check the reader makes, when its
/// values read back (see `item_readable`).
pub proof fn lemma_item_checks(v: ContentView, it: TextItem, w: ContentView, what: Seq<char>)
    requires
        extends(item_parts(v, it), w),
        crate::pack::fits(item_parts(v, it)),
        item_readable(it),
    ensures
        item_error(w.pool, w.words, w.char_codes, item_record(v, it), what) is None,
{
    let ws = pooled::<WordBox, LiteParseWordBox>(v.pool.len(), it.words@);
    lemma_item_facts(v, it, w);
    lemma_words_round_trip(v, it, w, what);
    lemma_text_item_bits(it);
    assert(words_error(w.pool, ws, what) is None) by {
        let ok = |x: LiteParseWordBox| word_error(w.pool, x, what) is None;
        crate::content::lemma_first_fail(ws, ok);
    }
}

/// The text item the reader gives for a packed record holds the values
/// that were packed, when those read back (see `item_readable`).
pub proof fn lemma_item_values(v: ContentView, it: TextItem, w: ContentView, o: TextItem)
    requires
        extends(item_parts(v, it), w),
        crate::pack::fits(item_parts(v, it)),
        item_readable(it),
        item_matches(o, w.pool, w.words, w.char_codes, item_record(v, it)),
    ensures
        same_item(o, it),
{
    let ws = pooled::<WordBox, LiteParseWordBox>(v.pool.len(), it.words@);
    lemma_item_facts(v, it, w);
    lemma_words_round_trip(v, it, w, Seq::empty());
    lemma_text_item_bits(it);
    lemma_color(it.fill_color);
    lemma_color(it.stroke_color);
    assert forall|k: int| 0 <= k < o.words@.len() implies same_word(#[trigger] o.words@[k], it.words@[k]) by {
        assert(word_matches(o.words@[k], w.pool, ws[k]));
    }
}

// Pages.
proof fn lemma_items_records(v: ContentView, its: Seq<TextItem>)
    ensures
        fold(v, its, item_stepper()).items.len() == v.items.len() + its.len(),
        forall|k: int|
            0 <= k < its.len() ==> #[trigger] fold(v, its, item_stepper()).items[v.items.len() + k]
                == item_record(fold(v, its.take(k), item_stepper()), its[k]),
    decreases its.len(),
{
    if its.len() > 0 {
        let pre = its.drop_last();
        lemma_items_records(v, pre);
        let x = fold(v, its, item_stepper());
        assert forall|k: int|
            0 <= k < its.len() implies #[trigger] x.items[v.items.len() + k] == item_record(
                fold(v, its.take(k), item_stepper()),
                its[k],
            ) by {
            if k < pre.len() {
                assert(pre.take(k) =~= its.take(k));
                assert(pre[k] == its[k]);
            } else {
                assert(its.take(k) =~= pre);
            }
        }
    }
}

proof fn lemma_page_item_range(v: ContentView, p: PageParts, w: ContentView)
    requires
        extends(page_step(v, p), w),
        crate::pack::fits(w),
    ensures
        page_record(v, p).item_offset == v.items.len(),
        page_record(v, p).item_count == p.text_items@.len(),
        v.items.len() + p.text_items@.len() <= w.items.len(),
{
    reveal(page_record);
    let v1 = fold(v, p.text_items@, item_stepper());
    lemma_items_records(v, p.text_items@);
    lemma_items_to_page(v, p);
    lemma_extends_trans(v1, page_step(v, p), w);
    lemma_extends_items_len(v1, w);
}

/// Text item `k` of a packed page: its record, and the arrays it was
/// packed onto, which the page's arrays extend.
proof fn lemma_page_item_at(v: ContentView, p: PageParts, w: ContentView, k: int)
    requires
        extends(page_step(v, p), w),
        crate::pack::fits(w),
        0 <= k < p.text_items@.len(),
    ensures
        ({
            let its = p.text_items@;
            let wk = fold(v, its.take(k), item_stepper());
            &&& w.items[v.items.len() + k] == item_record(wk, its[k])
            &&& extends(item_parts(wk, its[k]), w)
            &&& crate::pack::fits(item_parts(wk, its[k]))
        }),
{
    let its = p.text_items@;
    let f = item_stepper();
    let v1 = fold(v, its, f);
    let wk = fold(v, its.take(k), f);
    lemma_items_records(v, its);
    lemma_items_to_page(v, p);
    lemma_extends_trans(v1, page_step(v, p), w);
    lemma_simple_steps_extend();
    lemma_extends_item_at(v1, w, v.items.len() + k);
    crate::pack::lemma_item_parts_extends(wk, its[k]);
    lemma_fold_next(v, its, f, k);
    lemma_fold_take_extends(v, its, f, k + 1);
    lemma_extends_trans(item_parts(wk, its[k]), item_step(wk, its[k]), v1);
    lemma_extends_trans(item_parts(wk, its[k]), v1, w);
    crate::pack::lemma_extends_fits(item_parts(wk, its[k]), w);
}

/// Text item `k` of `its` was packed onto the arrays `w` extends, its
/// record at `offset + k`.
pub open spec fn item_packed_at(v: ContentView, its: Seq<TextItem>, w: ContentView, offset: nat, k: int) -> bool {
    let wk = fold(v, its.take(k), item_stepper());
    &&& w.items[offset + k] == item_record(wk, its[k])
    &&& extends(item_parts(wk, its[k]), w)
    &&& crate::pack::fits(item_parts(wk, its[k]))
}

proof fn lemma_items_range_round_trip(
    v: ContentView,
    its: Seq<TextItem>,
    w: ContentView,
    offset: u32,
    count: u32,
    where_: Seq<char>,
    os: Seq<TextItem>,
)
    requires
        count == its.len(),
        offset + count <= w.items.len(),
        forall|k: int| 0 <= k < its.len() ==> item_packed_at(v, its, w, offset as nat, k),
        forall|k: int| 0 <= k < its.len() ==> item_readable(#[trigger] its[k]),
    ensures
        items_error(w.pool, w.words, w.char_codes, w.items, offset, count, where_) is None,
        (os.len() == count && (forall|k: int|
            0 <= k < os.len() ==> item_matches(
                #[trigger] os[k],
                w.pool,
                w.words,
                w.char_codes,
                range_of(w.items, offset, count)[k],
            ))) ==> forall|k: int| 0 <= k < os.len() ==> same_item(#[trigger] os[k], its[k]),
{
    let f = item_stepper();
    let rs = range_of(w.items, offset, count);
    assert(rs.len() == its.len());
    let ok = |k: int| item_error(w.pool, w.words, w.char_codes, rs[k], place_of(where_, "items"@, k as nat)) is None;
    assert forall|k: int| 0 <= k < rs.len() implies #[trigger] ok(k) by {
        assert(item_packed_at(v, its, w, offset as nat, k));
        assert(rs[k] == w.items[offset + k]);
        lemma_item_checks(fold(v, its.take(k), f), its[k], w, place_of(where_, "items"@, k as nat));
    }
    lemma_first_bad(ok, rs.len() as int);
    if os.len() == count && (forall|k: int|
        0 <= k < os.len() ==> item_matches(#[trigger] os[k], w.pool, w.words, w.char_codes, rs[k])) {
        assert forall|k: int| 0 <= k < os.len() implies same_item(#[trigger] os[k], its[k]) by {
            assert(item_packed_at(v, its, w, offset as nat, k));
            assert(rs[k] == w.items[offset + k]);
            assert(item_matches(os[k], w.pool, w.words, w.char_codes, rs[k]));
            lemma_item_values(fold(v, its.take(k), f), its[k], w, os[k]);
        }
    }
}

/// Reading back the text items of a packed page: its item range passes
/// every check the reader makes, and the items read from it hold the
/// values of the page's text items, in order, when those read back (see
/// `item_readable`).
pub proof fn lemma_page_items_round_trip(
    v: ContentView,
    p: PageParts,
    w: ContentView,
    where_: Seq<char>,
    os: Seq<TextItem>,
)
    requires
        extends(page_step(v, p), w),
        crate::pack::fits(w),
        forall|k: int| 0 <= k < p.text_items@.len() ==> item_readable(#[trigger] p.text_items@[k]),
    ensures
        ({
            let r = page_record(v, p);
            &&& r.item_count == p.text_items@.len() && r.item_offset + r.item_count <= w.items.len()
            &&& items_error(w.pool, w.words, w.char_codes, w.items, r.item_offset, r.item_count, where_) is None
            &&& (os.len() == r.item_count && (forall|k: int|
                0 <= k < os.len() ==> item_matches(
                    #[trigger] os[k],
                    w.pool,
                    w.words,
                    w.char_codes,
                    range_of(w.items, r.item_offset, r.item_count)[k],
                ))) ==> forall|k: int| 0 <= k < os.len() ==> same_item(#[trigger] os[k], p.text_items@[k])
        }),
{
    let r = page_record(v, p);
    lemma_page_item_range(v, p, w);
    assert forall|k: int| 0 <= k < p.text_items@.len() implies item_packed_at(v, p.text_items@, w, v.items.len(), k) by {
        lemma_page_item_at(v, p, w, k);
    }
    lemma_items_range_round_trip(v, p.text_items@, w, r.item_offset, r.item_count, where_, os);
}

proof fn lemma_extends_items_len(a: ContentView, b: ContentView)
    requires
        extends(a, b),
    ensures
        a.items.len() <= b.items.len(),
{
    reveal(extends);
}

proof fn lemma_extends_item_at(a: ContentView, b: ContentView, i: int)
    requires
        extends(a, b),
        0 <= i < a.items.len(),
    ensures
        b.items[i] == a.items[i],
{
    reveal(extends);
}

/// A packed page's label reads back: absent, or its text when not empty.
pub proof fn lemma_page_label_round_trip(v: ContentView, p: PageParts, w: ContentView)
    requires
        extends(page_step(v, p), w),
        crate::pack::fits(w),
    ensures
        str_ok(w.pool, page_record(v, p).label),
        str_text(w.pool, page_record(v, p).label) == read_back(p.page_label),
{
    let w13 = crate::pack::result_parts(crate::pack::content_parts(v, p), p);
    crate::pack::lemma_page_record_head(v, p);
    let s = page_step(v, p);
    let rest = encode_utf8(p.text@) + encode_utf8(p.markdown@);
    assert(s.pool =~= (w13.pool + opt_bytes(p.page_label)) + rest);
    lemma_prefix_add(w13.pool + opt_bytes(p.page_label), rest);
    lemma_extends_items(s, w);
    lemma_prefix_trans(w13.pool + opt_bytes(p.page_label), s.pool, w.pool);
    lemma_read_str(w.pool, w13.pool, p.page_label);
}

} // verus!
