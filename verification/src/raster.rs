//! Page rasters: reading a rendered BGRA bitmap into RGBA rows, cropping a
//! window out of a raster, and encoding it as PNG.

use vstd::prelude::*;
use vstd::string::StringExecFns;
use crate::status::{FfiError, FfiResult, LITEPARSE_STATUS_PARSE_ERROR};

verus! {

/// A pixel rectangle of a raster.
#[derive(Clone, Copy, Debug, PartialEq, Eq, Structural)]
pub struct Window {
    pub x: u32,
    pub y: u32,
    pub width: u32,
    pub height: u32,
}

impl Window {
    /// The whole of a `width` by `height` raster.
    pub fn whole(width: u32, height: u32) -> (w: Self)
        ensures
            w == (Window { x: 0, y: 0, width, height }),
    {
        Window { x: 0, y: 0, width, height }
    }
}

/// Whether `w` lies inside a `width` by `height` raster.
pub open spec fn window_inside(w: Window, width: u32, height: u32) -> bool {
    w.x + w.width <= width && w.y + w.height <= height
}

/// Four bytes per pixel, rows top to bottom, no padding.
pub struct Raster {
    pub rgba: Vec<u8>,
    pub width: u32,
    pub height: u32,
}

impl Raster {
    /// Every row is present, four bytes per pixel.
    pub open spec fn well_formed(&self) -> bool {
        self.rgba@.len() == self.width * self.height * 4
    }
}

/// The `count` rows of `row_len` bytes that start at byte `col` of rows
/// `top..top + count` of a buffer whose rows are `stride` bytes apart.
pub open spec fn rows(src: Seq<u8>, stride: nat, col: nat, top: nat, row_len: nat, count: nat) -> Seq<u8>
    decreases count,
{
    if count == 0 {
        Seq::empty()
    } else {
        let r = (top + count - 1) as nat;
        rows(src, stride, col, top, row_len, (count - 1) as nat) + src.subrange(
            (r * stride + col) as int,
            (r * stride + col + row_len) as int,
        )
    }
}

/// Blue, green, red, alpha pixels as red, green, blue, alpha.
pub open spec fn bgra_to_rgba(s: Seq<u8>) -> Seq<u8> {
    Seq::new(
        s.len(),
        |i: int|
            {
                let base = i - i % 4;
                let k = i % 4;
                if k == 0 {
                    s[base + 2]
                } else if k == 2 {
                    s[base]
                } else {
                    s[i]
                }
            },
    )
}

/// The rows of a window read out of a BGRA buffer, each row converted.
pub open spec fn read_rows(src: Seq<u8>, stride: nat, col: nat, top: nat, row_len: nat, count: nat) -> Seq<
    u8,
>
    decreases count,
{
    if count == 0 {
        Seq::empty()
    } else {
        let r = (top + count - 1) as nat;
        read_rows(src, stride, col, top, row_len, (count - 1) as nat) + bgra_to_rgba(
            src.subrange((r * stride + col) as int, (r * stride + col + row_len) as int),
        )
    }
}

proof fn lemma_row_in_raster(width: nat, height: nat, w: Window, k: nat)
    requires
        w.x + w.width <= width,
        w.y + w.height <= height,
        k < w.height,
    ensures
        (w.y + k) * (width * 4) + w.x * 4 + w.width * 4 <= width * height * 4,
        (w.y + k) * (width * 4) + w.x * 4 + w.width * 4 <= (w.y + k + 1) * (width * 4),
        width * 4 <= width * height * 4,
{
    assert((w.y + k) * (width * 4) + w.x * 4 + w.width * 4 <= (w.y + k + 1) * (width * 4))
        by (nonlinear_arith)
        requires
            w.x + w.width <= width,
    ;
    assert((w.y + k + 1) * (width * 4) <= width * height * 4) by (nonlinear_arith)
        requires
            w.y + k + 1 <= height,
    ;
    assert(width * 4 <= (w.y + k + 1) * (width * 4)) by (nonlinear_arith);
}

impl Raster {
    /// The window of `self` as a raster of its own.
    pub fn crop(&self, window: Window) -> (r: Self)
        requires
            self.well_formed(),
            window_inside(window, self.width, self.height),
        ensures
            r.well_formed(),
            r.width == window.width,
            r.height == window.height,
            r.rgba@ == rows(
                self.rgba@,
                self.width as nat * 4,
                window.x as nat * 4,
                window.y as nat,
                window.width as nat * 4,
                window.height as nat,
            ),
    {
        let ghost stride = self.width as nat * 4;
        let ghost col = window.x as nat * 4;
        let ghost row_len = window.width as nat * 4;
        let mut rgba: Vec<u8> = Vec::new();
        let mut k: u32 = 0;
        while k < window.height
            invariant
                self.well_formed(),
                window_inside(window, self.width, self.height),
                0 <= k <= window.height,
                stride == self.width as nat * 4,
                col == window.x as nat * 4,
                row_len == window.width as nat * 4,
                rgba@ == rows(self.rgba@, stride, col, window.y as nat, row_len, k as nat),
                rgba@.len() == k as nat * row_len,
            decreases window.height - k,
        {
            proof {
                lemma_row_in_raster(self.width as nat, self.height as nat, window, k as nat);
            }
            let total = self.rgba.len();
            assert(self.width as nat * 4 <= total);
            let row_bytes = self.width as usize * 4;
            let start = (window.y + k) as usize * row_bytes + window.x as usize * 4;
            let end = start + window.width as usize * 4;
            let row = &self.rgba.as_slice()[start..end];
            let ghost before = rgba@;
            let mut j: usize = 0;
            while j < row.len()
                invariant
                    0 <= j <= row@.len(),
                    rgba@ == before + row@.take(j as int),
                decreases row@.len() - j,
            {
                rgba.push(row[j]);
                j = j + 1;
                assert(rgba@ =~= before + row@.take(j as int));
            }
            assert(row@.take(row@.len() as int) =~= row@);
            k = k + 1;
            proof {
                assert(rgba@.len() == k as nat * row_len) by (nonlinear_arith)
                    requires
                        rgba@.len() == (k - 1) as nat * row_len + row_len,
                        k >= 1,
                ;
            }
        }
        proof {
            assert(window.height as nat * (window.width as nat * 4) == window.width * window.height * 4)
                by (nonlinear_arith);
        }
        Raster { rgba, width: window.width, height: window.height }
    }
}

/// Whether the rows of `w` can be numbered in `u32` and every one lies
/// inside a buffer of `len` bytes whose rows are `stride` bytes apart.
pub open spec fn window_in_buffer(w: Window, stride: nat, len: nat) -> bool {
    &&& w.y + w.height <= u32::MAX
    &&& w.height > 0 ==> (w.y + w.height - 1) * stride + w.x * 4 + w.width * 4 <= len
}

proof fn lemma_pixel(s: Seq<u8>, j: int)
    requires
        0 <= j,
        4 * j + 4 <= s.len(),
    ensures
        bgra_to_rgba(s)[4 * j] == s[4 * j + 2],
        bgra_to_rgba(s)[4 * j + 1] == s[4 * j + 1],
        bgra_to_rgba(s)[4 * j + 2] == s[4 * j],
        bgra_to_rgba(s)[4 * j + 3] == s[4 * j + 3],
{
    assert((4 * j) % 4 == 0) by (nonlinear_arith) requires 0 <= j;
    assert((4 * j + 1) % 4 == 1) by (nonlinear_arith) requires 0 <= j;
    assert((4 * j + 2) % 4 == 2) by (nonlinear_arith) requires 0 <= j;
    assert((4 * j + 3) % 4 == 3) by (nonlinear_arith) requires 0 <= j;
}

proof fn lemma_row_in_buffer(w: Window, stride: nat, len: nat, k: nat)
    requires
        window_in_buffer(w, stride, len),
        k < w.height,
    ensures
        (w.y + k) * stride + w.x * 4 + w.width * 4 <= len,
{
    assert((w.y + k) * stride <= (w.y + w.height - 1) * stride) by (nonlinear_arith)
        requires
            k < w.height,
    ;
}

/// Convert one BGRA row to RGBA and append it.
fn push_row_rgba(out: &mut Vec<u8>, row: &[u8])
    requires
        row@.len() % 4 == 0,
    ensures
        final(out)@ == old(out)@ + bgra_to_rgba(row@),
{
    let ghost before = out@;
    let ghost conv = bgra_to_rgba(row@);
    let mut i: usize = 0;
    while i < row.len()
        invariant
            0 <= i <= row@.len(),
            i % 4 == 0,
            row@.len() % 4 == 0,
            conv == bgra_to_rgba(row@),
            out@ == before + conv.take(i as int),
        decreases row@.len() - i,
    {
        assert(i + 4 <= row@.len()) by (nonlinear_arith)
            requires
                i % 4 == 0,
                row@.len() % 4 == 0,
                i < row@.len(),
        ;
        proof {
            assert(4 * (i as int / 4) == i) by (nonlinear_arith) requires i % 4 == 0;
            lemma_pixel(row@, i as int / 4);
        }
        out.push(row[i + 2]);
        out.push(row[i + 1]);
        out.push(row[i]);
        out.push(row[i + 3]);
        i = i + 4;
        assert(out@ =~= before + conv.take(i as int));
    }
    assert(conv.take(row@.len() as int) =~= conv);
}

impl Raster {
    /// The window of a rendered BGRA buffer, converted to RGBA.
    pub fn read(buffer: &[u8], stride: usize, window: Window) -> (r: Self)
        requires
            window_in_buffer(window, stride as nat, buffer@.len()),
        ensures
            r.well_formed(),
            r.width == window.width,
            r.height == window.height,
            r.rgba@ == read_rows(
                buffer@,
                stride as nat,
                window.x as nat * 4,
                window.y as nat,
                window.width as nat * 4,
                window.height as nat,
            ),
    {
        let ghost col = window.x as nat * 4;
        let ghost row_len = window.width as nat * 4;
        let mut rgba: Vec<u8> = Vec::new();
        let mut k: u32 = 0;
        while k < window.height
            invariant
                window_in_buffer(window, stride as nat, buffer@.len()),
                0 <= k <= window.height,
                col == window.x as nat * 4,
                row_len == window.width as nat * 4,
                rgba@ == read_rows(buffer@, stride as nat, col, window.y as nat, row_len, k as nat),
                rgba@.len() == k as nat * row_len,
            decreases window.height - k,
        {
            proof {
                lemma_row_in_buffer(window, stride as nat, buffer@.len(), k as nat);
            }
            let total = buffer.len();
            assert((window.y + k) * stride + window.x * 4 + window.width * 4 <= total);
            let start = (window.y + k) as usize * stride + window.x as usize * 4;
            let end = start + window.width as usize * 4;
            let row = &buffer[start..end];
            assert(row@.len() == window.width * 4);
            assert((window.width * 4) % 4 == 0) by (nonlinear_arith);
            push_row_rgba(&mut rgba, row);
            k = k + 1;
            proof {
                assert(rgba@.len() == k as nat * row_len) by (nonlinear_arith)
                    requires
                        rgba@.len() == (k - 1) as nat * row_len + row_len,
                        k >= 1,
                ;
            }
        }
        proof {
            assert(window.height as nat * (window.width as nat * 4) == window.width * window.height * 4)
                by (nonlinear_arith);
        }
        Raster { rgba, width: window.width, height: window.height }
    }
}

#[verifier::external_type_specification]
#[verifier::external_body]
pub struct ExImageError(image::ImageError);

/// The PNG file the `image` crate's encoder writes for an RGBA image, with
/// its default compression and filter.
pub uninterp spec fn png_encoding(rgba: Seq<u8>, width: u32, height: u32) -> Seq<u8>;

/// Calls `image::codecs::png::PngEncoder::write_image` with 8-bit RGBA
/// into a fresh buffer. The encoder asserts that the buffer holds exactly
/// `width * height` pixels, so that is required; what it writes is named.
/// Writing to memory, it fails exactly when the width or the height is
/// zero (the `png` writer refuses an empty image).
#[verifier::external_body]
fn write_png(rgba: &[u8], width: u32, height: u32) -> (r: Result<Vec<u8>, image::ImageError>)
    requires
        rgba@.len() == width * height * 4,
    ensures
        r is Ok <==> (width > 0 && height > 0),
        r matches Ok(bytes) ==> bytes@ == png_encoding(rgba@, width, height),
{
    let mut png_buf = Vec::new();
    let encoder = image::codecs::png::PngEncoder::new(&mut png_buf);
    match image::ImageEncoder::write_image(
        encoder,
        rgba,
        width,
        height,
        image::ExtendedColorType::Rgba8,
    ) {
        Ok(()) => Ok(png_buf),
        Err(error) => Err(error),
    }
}

/// Calls `ToString::to_string` on an `image::ImageError`, its `Display`
/// text; nothing is claimed of the text.
#[verifier::external_body]
fn image_error_text(error: &image::ImageError) -> String {
    error.to_string()
}

/// Whether `s` begins with `prefix`.
pub open spec fn starts_with(s: Seq<char>, prefix: Seq<char>) -> bool {
    prefix.len() <= s.len() && s.subrange(0, prefix.len() as int) == prefix
}

/// Encode an RGBA raster as PNG; a failure of the encoder, which comes
/// exactly for an empty image, is a parse error.
pub fn encode_png(rgba: &[u8], width: u32, height: u32) -> (r: FfiResult<Vec<u8>>)
    requires
        rgba@.len() == width * height * 4,
    ensures
        r is Ok <==> (width > 0 && height > 0),
        r matches Ok(bytes) ==> bytes@ == png_encoding(rgba@, width, height),
        r matches Err(e) ==> e.status == LITEPARSE_STATUS_PARSE_ERROR && starts_with(
            e.message@,
            "PNG encode error: "@,
        ),
{
    match write_png(rgba, width, height) {
        Ok(bytes) => Ok(bytes),
        Err(error) => {
            let mut message = String::from_str("PNG encode error: ");
            let ghost prefix = message@;
            let text = image_error_text(&error);
            message.append(text.as_str());
            assert(message@.subrange(0, prefix.len() as int) =~= prefix);
            Err(FfiError::new(LITEPARSE_STATUS_PARSE_ERROR, message))
        },
    }
}

/// The DPI a render uses: the configured one when the override is zero
/// (of either sign), else the override when finite and positive.
pub open spec fn render_dpi_spec(configured: u32, dpi_override: u32) -> Option<u32> {
    if crate::check::f32_zero(dpi_override) {
        Some(configured)
    } else if crate::check::f32_finite(dpi_override) && crate::check::f32_positive(dpi_override) {
        Some(dpi_override)
    } else {
        None
    }
}

/// Choose a render's DPI; values are `f32` bits.
pub fn render_dpi(configured: u32, dpi_override: u32) -> (r: FfiResult<u32>)
    ensures
        render_dpi_spec(configured, dpi_override) matches Some(d) ==> r == FfiResult::<u32>::Ok(d),
        render_dpi_spec(configured, dpi_override) is None ==> (r matches Err(e) && e.status
            == crate::status::LITEPARSE_STATUS_INVALID_ARGUMENT && e.message@
            == "dpi_override must be finite and greater than zero; zero keeps the configured DPI"@),
{
    if crate::check::is_zero(dpi_override) {
        Ok(configured)
    } else if crate::check::is_finite(dpi_override) && crate::check::is_positive(dpi_override) {
        Ok(dpi_override)
    } else {
        Err(
            crate::status::FfiError::invalid_argument(
                String::from_str(
                    "dpi_override must be finite and greater than zero; zero keeps the configured DPI",
                ),
            ),
        )
    }
}

/// Whether a render region has a finite, non-negative origin and a
/// positive size; values are `f32` bits.
pub fn region_ok(x: u32, y: u32, width: u32, height: u32) -> (r: bool)
    ensures
        r == (crate::check::all_finite(seq![x, y, width, height]) && crate::check::f32_positive(width)
            && crate::check::f32_positive(height) && !crate::check::f32_negative(x)
            && !crate::check::f32_negative(y)),
{
    let finite = crate::check::is_finite(x) && crate::check::is_finite(y) && crate::check::is_finite(width)
        && crate::check::is_finite(height);
    proof {
        let s = seq![x, y, width, height];
        if finite {
            assert forall|i: int| 0 <= i < s.len() implies crate::check::f32_finite(#[trigger] s[i]) by {
                assert(s[0] == x && s[1] == y && s[2] == width && s[3] == height);
            }
        } else {
            assert(s[0] == x && s[1] == y && s[2] == width && s[3] == height);
        }
    }
    finite && crate::check::is_positive(width) && crate::check::is_positive(height)
        && !crate::check::is_negative(x) && !crate::check::is_negative(y)
}


proof fn lemma_rows_len(src: Seq<u8>, stride: nat, col: nat, top: nat, row_len: nat, count: nat)
    requires
        count > 0 ==> (top + count - 1) * stride + col + row_len <= src.len(),
    ensures
        rows(src, stride, col, top, row_len, count).len() == count * row_len,
    decreases count,
{
    if count > 0 {
        let c1 = (count - 1) as nat;
        if c1 > 0 {
            assert((top + c1 - 1) * stride <= (top + c1) * stride) by (nonlinear_arith);
        }
        lemma_rows_len(src, stride, col, top, row_len, c1);
        let r = (top + count - 1) as nat;
        let sub = src.subrange((r * stride + col) as int, (r * stride + col + row_len) as int);
        assert(sub.len() == row_len);
        assert(rows(src, stride, col, top, row_len, count) == rows(
            src,
            stride,
            col,
            top,
            row_len,
            c1,
        ) + sub);
        assert(c1 * row_len + row_len == count * row_len) by (nonlinear_arith)
            requires
                c1 + 1 == count,
        ;
    } else {
        assert(count * row_len == 0) by (nonlinear_arith)
            requires
                count == 0,
        ;
    }
}

proof fn lemma_rows_at(
    src: Seq<u8>,
    stride: nat,
    col: nat,
    top: nat,
    row_len: nat,
    count: nat,
    j: nat,
    i: nat,
)
    requires
        j < count,
        i < row_len,
        (top + count - 1) * stride + col + row_len <= src.len(),
    ensures
        rows(src, stride, col, top, row_len, count)[(j * row_len + i) as int] == src[((top + j)
            * stride + col + i) as int],
    decreases count,
{
    let c1 = (count - 1) as nat;
    if c1 > 0 {
        assert((top + c1 - 1) * stride <= (top + c1) * stride) by (nonlinear_arith);
    }
    lemma_rows_len(src, stride, col, top, row_len, c1);
    let prev = rows(src, stride, col, top, row_len, c1);
    if j < c1 {
        lemma_rows_at(src, stride, col, top, row_len, c1, j, i);
        assert(j * row_len + i < c1 * row_len) by (nonlinear_arith)
            requires
                j < c1,
                i < row_len,
        ;
    } else {
        assert(j * row_len + i - prev.len() == i) by (nonlinear_arith)
            requires
                j == c1,
                prev.len() == c1 * row_len,
        ;
    }
}

/// Pixel (i, j) of a window cropped out of a `width` by `height` raster is
/// pixel (x + i, y + j) of the raster: its four bytes are the four bytes
/// that start at ((y + j) * width + x + i) * 4.
pub proof fn lemma_crop_pixels(rgba: Seq<u8>, width: u32, height: u32, window: Window)
    requires
        rgba.len() == width * height * 4,
        window_inside(window, width, height),
    ensures
        forall|i: int, j: int, b: int|
            0 <= i < window.width && 0 <= j < window.height && 0 <= b < 4 ==> #[trigger] rows(
                rgba,
                width as nat * 4,
                window.x as nat * 4,
                window.y as nat,
                window.width as nat * 4,
                window.height as nat,
            )[(j * window.width + i) * 4 + b] == rgba[((window.y + j) * width + window.x + i) * 4
                + b],
{
    let stride = width as nat * 4;
    let col = window.x as nat * 4;
    let row_len = window.width as nat * 4;
    assert forall|i: int, j: int, b: int|
        0 <= i < window.width && 0 <= j < window.height && 0 <= b < 4 implies #[trigger] rows(
        rgba,
        stride,
        col,
        window.y as nat,
        row_len,
        window.height as nat,
    )[(j * window.width + i) * 4 + b] == rgba[((window.y + j) * width + window.x + i) * 4 + b] by {
        lemma_row_in_raster(
            width as nat,
            height as nat,
            window,
            (window.height - 1) as nat,
        );
        let ii = (i * 4 + b) as nat;
        assert(ii < row_len);
        lemma_rows_at(
            rgba,
            stride,
            col,
            window.y as nat,
            row_len,
            window.height as nat,
            j as nat,
            ii,
        );
        assert(j * row_len + ii == (j * window.width + i) * 4 + b) by (nonlinear_arith)
            requires
                row_len == window.width * 4,
                ii == i * 4 + b,
        ;
        assert((window.y + j) * stride + col + ii == ((window.y + j) * width + window.x + i) * 4
            + b) by (nonlinear_arith)
            requires
                stride == width * 4,
                col == window.x * 4,
                ii == i * 4 + b,
        ;
    }
}


proof fn lemma_read_rows_len(src: Seq<u8>, stride: nat, col: nat, top: nat, row_len: nat, count: nat)
    requires
        count > 0 ==> (top + count - 1) * stride + col + row_len <= src.len(),
    ensures
        read_rows(src, stride, col, top, row_len, count).len() == count * row_len,
    decreases count,
{
    if count > 0 {
        let c1 = (count - 1) as nat;
        if c1 > 0 {
            assert((top + c1 - 1) * stride <= (top + c1) * stride) by (nonlinear_arith);
        }
        lemma_read_rows_len(src, stride, col, top, row_len, c1);
        let r = (top + count - 1) as nat;
        let sub = src.subrange((r * stride + col) as int, (r * stride + col + row_len) as int);
        assert(bgra_to_rgba(sub).len() == row_len);
        assert(read_rows(src, stride, col, top, row_len, count) == read_rows(
            src,
            stride,
            col,
            top,
            row_len,
            c1,
        ) + bgra_to_rgba(sub));
        assert(c1 * row_len + row_len == count * row_len) by (nonlinear_arith)
            requires
                c1 + 1 == count,
        ;
    } else {
        assert(count * row_len == 0) by (nonlinear_arith)
            requires
                count == 0,
        ;
    }
}

proof fn lemma_read_rows_at(
    src: Seq<u8>,
    stride: nat,
    col: nat,
    top: nat,
    row_len: nat,
    count: nat,
    j: nat,
    i: nat,
)
    requires
        j < count,
        i < row_len,
        (top + count - 1) * stride + col + row_len <= src.len(),
    ensures
        read_rows(src, stride, col, top, row_len, count)[(j * row_len + i) as int] == bgra_to_rgba(
            src.subrange(
                ((top + j) * stride + col) as int,
                ((top + j) * stride + col + row_len) as int,
            ),
        )[i as int],
    decreases count,
{
    let c1 = (count - 1) as nat;
    if c1 > 0 {
        assert((top + c1 - 1) * stride <= (top + c1) * stride) by (nonlinear_arith);
    }
    lemma_read_rows_len(src, stride, col, top, row_len, c1);
    let prev = read_rows(src, stride, col, top, row_len, c1);
    if j < c1 {
        lemma_read_rows_at(src, stride, col, top, row_len, c1, j, i);
        assert(j * row_len + i < c1 * row_len) by (nonlinear_arith)
            requires
                j < c1,
                i < row_len,
        ;
    } else {
        assert(j * row_len + i - prev.len() == i) by (nonlinear_arith)
            requires
                j == c1,
                prev.len() == c1 * row_len,
        ;
    }
}

/// The window of a BGRA buffer as `Raster::read` gives it.
pub open spec fn read_window(buffer: Seq<u8>, stride: nat, window: Window) -> Seq<u8> {
    read_rows(
        buffer,
        stride,
        window.x as nat * 4,
        window.y as nat,
        window.width as nat * 4,
        window.height as nat,
    )
}

/// Pixel (i, j) of a window read out of a BGRA buffer whose rows are
/// `stride` bytes apart is the buffer's pixel at byte
/// (y + j) * stride + (x + i) * 4, with its blue and red bytes swapped.
pub proof fn lemma_read_pixels(buffer: Seq<u8>, stride: nat, window: Window)
    requires
        window_in_buffer(window, stride, buffer.len()),
    ensures
        forall|i: int, j: int|
            0 <= i < window.width && 0 <= j < window.height ==> {
                &&& #[trigger] read_window(buffer, stride, window)[(j * window.width + i) * 4]
                    == buffer[(window.y + j) * stride + (window.x + i) * 4 + 2]
                &&& read_window(buffer, stride, window)[(j * window.width + i) * 4 + 1]
                    == buffer[(window.y + j) * stride + (window.x + i) * 4 + 1]
                &&& read_window(buffer, stride, window)[(j * window.width + i) * 4 + 2]
                    == buffer[(window.y + j) * stride + (window.x + i) * 4]
                &&& read_window(buffer, stride, window)[(j * window.width + i) * 4 + 3]
                    == buffer[(window.y + j) * stride + (window.x + i) * 4 + 3]
            },
{
    let col = window.x as nat * 4;
    let row_len = window.width as nat * 4;
    let out = read_window(buffer, stride, window);
    assert forall|i: int, j: int| 0 <= i < window.width && 0 <= j < window.height implies {
        &&& #[trigger] out[(j * window.width + i) * 4] == buffer[(window.y + j) * stride + (window.x
            + i) * 4 + 2]
        &&& out[(j * window.width + i) * 4 + 1] == buffer[(window.y + j) * stride + (window.x + i)
            * 4 + 1]
        &&& out[(j * window.width + i) * 4 + 2] == buffer[(window.y + j) * stride + (window.x + i)
            * 4]
        &&& out[(j * window.width + i) * 4 + 3] == buffer[(window.y + j) * stride + (window.x + i)
            * 4 + 3]
    } by {
        let p = (j * window.width + i) * 4;
        let q = (window.y + j) * stride + (window.x + i) * 4;
        lemma_row_in_buffer(window, stride, buffer.len(), (window.height - 1) as nat);
        lemma_row_in_buffer(window, stride, buffer.len(), j as nat);
        let start = ((window.y + j) * stride + col) as int;
        let sub = buffer.subrange(start, start + row_len);
        assert(4 * i + 4 <= sub.len()) by (nonlinear_arith)
            requires
                sub.len() == row_len,
                row_len == window.width * 4,
                i < window.width,
        ;
        lemma_pixel(sub, i);
        assert(j * row_len + 4 * i == p) by (nonlinear_arith)
            requires
                row_len == window.width * 4,
                p == (j * window.width + i) * 4,
        ;
        assert(start + 4 * i == q) by (nonlinear_arith)
            requires
                start == (window.y + j) * stride + window.x * 4,
                q == (window.y + j) * stride + (window.x + i) * 4,
        ;
        lemma_read_rows_at(buffer, stride, col, window.y as nat, row_len, window.height as nat, j as nat, (4 * i) as nat);
        lemma_read_rows_at(buffer, stride, col, window.y as nat, row_len, window.height as nat, j as nat, (4 * i + 1) as nat);
        lemma_read_rows_at(buffer, stride, col, window.y as nat, row_len, window.height as nat, j as nat, (4 * i + 2) as nat);
        lemma_read_rows_at(buffer, stride, col, window.y as nat, row_len, window.height as nat, j as nat, (4 * i + 3) as nat);
    }
}

/// A render's DPI: a zero override, of either sign, keeps the configured
/// DPI; a finite, positive override replaces it; any other override
/// (negative, infinite or not a number) is refused. Concretely, +0.0 and
/// -0.0 keep it, and -1.0, infinity and NaN are refused.
pub proof fn lemma_render_dpi_choice(configured: u32, dpi_override: u32)
    ensures
        crate::check::f32_zero(dpi_override) ==> render_dpi_spec(configured, dpi_override) == Some(
            configured,
        ),
        !crate::check::f32_zero(dpi_override) ==> (render_dpi_spec(configured, dpi_override)
            == Some(dpi_override) <==> crate::check::f32_finite(dpi_override)
            && crate::check::f32_positive(dpi_override)),
        render_dpi_spec(configured, dpi_override) is None <==> !crate::check::f32_zero(dpi_override)
            && !(crate::check::f32_finite(dpi_override) && crate::check::f32_positive(dpi_override)),
        render_dpi_spec(configured, 0u32) == Some(configured),
        render_dpi_spec(configured, 0x8000_0000u32) == Some(configured),
        render_dpi_spec(configured, 0xbf80_0000u32) is None,
        render_dpi_spec(configured, 0x7f80_0000u32) is None,
        render_dpi_spec(configured, 0x7fc0_0000u32) is None,
{
    assert(0u32 & 0x7fff_ffffu32 == 0 && 0x8000_0000u32 & 0x7fff_ffffu32 == 0
        && 0xbf80_0000u32 & 0x7fff_ffffu32 != 0 && 0xbf80_0000u32 & 0x8000_0000u32 != 0
        && (0x7f80_0000u32 >> 23u32) & 0xffu32 == 0xffu32 && (0x7fc0_0000u32 >> 23u32) & 0xffu32
        == 0xffu32 && 0x7f80_0000u32 & 0x7fff_ffffu32 != 0 && 0x7fc0_0000u32 & 0x7fff_ffffu32 != 0)
        by (bit_vector);
}

} // verus!
