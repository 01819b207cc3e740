//! Page colour themes: the theme table, the brightness sampling grid, and the
//! conversion of a rendered page from BGRA to RGBA with an optional tint.
//!
//! The colour arithmetic itself (luminance and the tint formula) is floating
//! point; callers supply it as a function, and this module fixes which bytes it
//! reads and writes.

use vstd::prelude::*;
use vstd::arithmetic::div_mod::{
    lemma_fundamental_div_mod,
    lemma_mod_add_multiples_vanish,
    lemma_mod_pos_bound,
};

verus! {

/// The number of themes; theme 0 leaves the page's colours as rendered.
pub const THEME_COUNT: usize = 8;

/// The background colour (red, green, blue) of each theme.
pub open spec fn theme_color(idx: int) -> (u8, u8, u8) {
    if idx == 0 {
        (255, 255, 255)
    } else if idx == 1 {
        (0, 0, 0)
    } else if idx == 2 {
        (42, 37, 34)
    } else if idx == 3 {
        (52, 53, 65)
    } else if idx == 4 {
        (40, 35, 25)
    } else if idx == 5 {
        (25, 30, 45)
    } else if idx == 6 {
        (25, 35, 30)
    } else {
        (30, 30, 46)
    }
}

/// The display name of each theme.
pub open spec fn theme_label(idx: int) -> Seq<char> {
    if idx == 0 {
        "Original"@
    } else if idx == 1 {
        "Classic Dark"@
    } else if idx == 2 {
        "Warm Dark"@
    } else if idx == 3 {
        "ChatGPT Cool"@
    } else if idx == 4 {
        "Sepia Dark"@
    } else if idx == 5 {
        "Midnight Blue"@
    } else if idx == 6 {
        "Forest Green"@
    } else {
        "Mocha Blue"@
    }
}

/// The background colour of theme `idx`.
pub fn theme_rgb(idx: usize) -> (c: (u8, u8, u8))
    requires
        idx < THEME_COUNT,
    ensures
        c == theme_color(idx as int),
        idx == 0 ==> c == (255u8, 255u8, 255u8),
        idx == 1 ==> c == (0u8, 0u8, 0u8),
        idx >= 1 ==> c.0 < 128 && c.1 < 128 && c.2 < 128,
{
    match idx {
        0 => (255, 255, 255),
        1 => (0, 0, 0),
        2 => (42, 37, 34),
        3 => (52, 53, 65),
        4 => (40, 35, 25),
        5 => (25, 30, 45),
        6 => (25, 35, 30),
        _ => (30, 30, 46),
    }
}

/// The display name of theme `idx`.
pub fn theme_name(idx: usize) -> (name: &'static str)
    requires
        idx < THEME_COUNT,
    ensures
        name@ == theme_label(idx as int),
{
    match idx {
        0 => "Original",
        1 => "Classic Dark",
        2 => "Warm Dark",
        3 => "ChatGPT Cool",
        4 => "Sepia Dark",
        5 => "Midnight Blue",
        6 => "Forest Green",
        _ => "Mocha Blue",
    }
}

/// The spacing of the brightness sampling grid along a side of `n` pixels:
/// one twentieth of the side, and at least one pixel.
pub open spec fn sample_step(n: int) -> int {
    if n / 20 > 1 {
        n / 20
    } else {
        1
    }
}

/// Pixel (`x`, `y`) lies on the sampling grid of a `width` by `height` image.
pub open spec fn on_grid(width: int, height: int, y: int, x: int) -> bool {
    &&& 0 <= y < height
    &&& y % sample_step(height) == 0
    &&& 0 <= x < width
    &&& x % sample_step(width) == 0
}

/// Byte offset of pixel (`x`, `y`) in a buffer of four bytes per pixel.
pub open spec fn grid_offset(width: int, y: int, x: int) -> int {
    (y * width + x) * 4
}

/// Pixel (`x`, `y`) is sampled: it is on the grid and its first three bytes lie
/// inside a buffer of `len` bytes.
pub open spec fn is_sample(len: int, width: int, height: int, y: int, x: int) -> bool {
    &&& on_grid(width, height, y, x)
    &&& grid_offset(width, y, x) + 2 < len
}

/// Every entry of `offsets` is the offset of a sampled pixel.
pub open spec fn only_samples(offsets: Seq<usize>, len: int, width: int, height: int) -> bool {
    forall|k: int|
        #![trigger offsets[k]]
        0 <= k < offsets.len() ==> exists|y: int, x: int|
            #[trigger] is_sample(len, width, height, y, x) && offsets[k] == grid_offset(width, y, x)
}

proof fn lemma_next_multiple(a: int, b: int, m: int)
    requires
        m > 0,
        0 <= a < b,
        a % m == 0,
        b % m == 0,
    ensures
        a + m <= b,
{
    lemma_fundamental_div_mod(a, m);
    lemma_fundamental_div_mod(b, m);
    let qa = a / m;
    let qb = b / m;
    assert(qa < qb) by (nonlinear_arith)
        requires
            a == m * qa,
            b == m * qb,
            a < b,
            m > 0,
    ;
    assert(m * qa + m <= m * qb) by (nonlinear_arith)
        requires
            qa < qb,
            m > 0,
    ;
}

proof fn lemma_step_keeps_multiple(a: int, m: int)
    requires
        m > 0,
        a % m == 0,
    ensures
        (a + m) % m == 0,
{
    lemma_mod_add_multiples_vanish(a, m);
}

proof fn lemma_row_before(width: int, y: int, x: int, y2: int)
    requires
        0 <= x <= width,
        0 <= y < y2,
    ensures
        y * width + x <= y2 * width,
{
    assert(y * width + x <= y2 * width) by (nonlinear_arith)
        requires
            0 <= x <= width,
            0 <= y < y2,
    ;
}

proof fn lemma_row_fits(limit: int, width: int, y: int)
    requires
        width > 0,
        limit >= 0,
        y >= 0,
    ensures
        y <= limit / width <==> y * width <= limit,
{
    lemma_fundamental_div_mod(limit, width);
    lemma_mod_pos_bound(limit, width);
    let q = limit / width;
    if y <= q {
        assert(y * width <= q * width) by (nonlinear_arith)
            requires
                y <= q,
                width > 0,
        ;
        assert(width * q == q * width) by (nonlinear_arith);
    } else {
        assert(y * width >= (q + 1) * width) by (nonlinear_arith)
            requires
                y >= q + 1,
                width > 0,
        ;
        assert(width * q == q * width) by (nonlinear_arith);
        assert((q + 1) * width == q * width + width) by (nonlinear_arith);
    }
}

/// The byte offsets of the pixels that the brightness estimate reads: the
/// grid of every `sample_step(width)`-th column and `sample_step(height)`-th
/// row, row by row, keeping those whose first three bytes fit in `len` bytes.
pub fn brightness_sample_offsets(len: usize, width: usize, height: usize) -> (offsets: Vec<usize>)
    ensures
        only_samples(offsets@, len as int, width as int, height as int),
        forall|y: int, x: int|
            #[trigger] is_sample(len as int, width as int, height as int, y, x) ==> exists|k: int|
                0 <= k < offsets@.len() && offsets@[k] == grid_offset(width as int, y, x),
        forall|j: int, k: int| 0 <= j < k < offsets@.len() ==> offsets@[j] < offsets@[k],
{
    let step_x = if width / 20 > 1 { width / 20 } else { 1 };
    let step_y = if height / 20 > 1 { height / 20 } else { 1 };
    let mut offsets: Vec<usize> = Vec::new();
    if len < 3 {
        return offsets;
    }
    let limit = (len - 3) / 4;
    let ghost (l, w, h) = (len as int, width as int, height as int);
    let mut y: usize = 0;
    while y < height
        invariant
            l == len,
            w == width,
            h == height,
            len >= 3,
            limit == (len - 3) / 4,
            step_x == sample_step(w),
            step_y == sample_step(h),
            y <= height,
            y < height ==> (y as int) % (step_y as int) == 0,
            only_samples(offsets@, l, w, h),
            forall|k: int| 0 <= k < offsets@.len() ==> offsets@[k] < grid_offset(w, y as int, 0),
            forall|j: int, k: int| 0 <= j < k < offsets@.len() ==> offsets@[j] < offsets@[k],
            forall|yy: int, xx: int|
                #[trigger] is_sample(l, w, h, yy, xx) && yy < y ==> exists|k: int|
                    0 <= k < offsets@.len() && offsets@[k] == grid_offset(w, yy, xx),
        decreases height - y,
    {
        if width > 0 && y <= limit / width {
            proof {
                lemma_row_fits(limit as int, w, y as int);
            }
            let base = y * width;
            let mut x: usize = 0;
            while x < width
                invariant
                    l == len,
                    w == width,
                    h == height,
                    len >= 3,
                    limit == (len - 3) / 4,
                    step_x == sample_step(w),
                    step_y == sample_step(h),
                    y < height,
                    (y as int) % (step_y as int) == 0,
                    base == y * width,
                    base <= limit,
                    x <= width,
                    x < width ==> (x as int) % (step_x as int) == 0,
                    only_samples(offsets@, l, w, h),
                    forall|k: int| 0 <= k < offsets@.len() ==> offsets@[k] < grid_offset(w, y as int, x as int),
                    forall|j: int, k: int| 0 <= j < k < offsets@.len() ==> offsets@[j] < offsets@[k],
                    forall|yy: int, xx: int|
                        #[trigger] is_sample(l, w, h, yy, xx) && (yy < y || (yy == y && xx < x)) ==> exists|k: int|
                            0 <= k < offsets@.len() && offsets@[k] == grid_offset(w, yy, xx),
                decreases width - x,
            {
                let ghost before = offsets@;
                if x <= limit - base {
                    assert(is_sample(l, w, h, y as int, x as int));
                    offsets.push((base + x) * 4);
                    assert(offsets@[before.len() as int] == grid_offset(w, y as int, x as int));
                    assert forall|k: int|
                        #![trigger offsets@[k]]
                        0 <= k < offsets@.len() implies exists|yy: int, xx: int|
                            #[trigger] is_sample(l, w, h, yy, xx) && offsets@[k] == grid_offset(w, yy, xx) by {
                        if k < before.len() {
                            assert(offsets@[k] == before[k]);
                        } else {
                            assert(is_sample(l, w, h, y as int, x as int));
                        }
                    }
                } else {
                    assert(!is_sample(l, w, h, y as int, x as int));
                }
                let next_x = if width - x > step_x { x + step_x } else { width };
                proof {
                    if next_x < width {
                        lemma_step_keeps_multiple(x as int, step_x as int);
                    }
                    assert forall|yy: int, xx: int|
                        #[trigger] is_sample(l, w, h, yy, xx) && (yy < y || (yy == y && xx < next_x))
                            implies exists|k: int|
                            0 <= k < offsets@.len() && offsets@[k] == grid_offset(w, yy, xx) by {
                        if yy == y && xx >= x {
                            if xx > x {
                                lemma_next_multiple(x as int, xx, step_x as int);
                            }
                            assert(offsets@[before.len() as int] == grid_offset(w, yy, xx));
                        } else {
                            let k = choose|k: int|
                                0 <= k < before.len() && before[k] == grid_offset(w, yy, xx);
                            assert(offsets@[k] == before[k]);
                        }
                    }
                }
                x = next_x;
            }
        } else {
            proof {
                if width > 0 {
                    lemma_row_fits(limit as int, w, y as int);
                }
                assert forall|xx: int| !is_sample(l, w, h, y as int, xx) by {
                    if 0 <= xx < w {
                        assert(y * w + xx > limit) by (nonlinear_arith)
                            requires
                                y * w > limit,
                                xx >= 0,
                        ;
                    }
                }
            }
        }
        let next_y = if height - y > step_y { y + step_y } else { height };
        proof {
            if next_y < height {
                lemma_step_keeps_multiple(y as int, step_y as int);
            }
            lemma_row_before(w, y as int, w, next_y as int);
            assert forall|k: int| 0 <= k < offsets@.len() implies offsets@[k] < grid_offset(w, next_y as int, 0) by {
                assert(grid_offset(w, y as int, w) <= grid_offset(w, next_y as int, 0));
                assert(grid_offset(w, y as int, 0) <= grid_offset(w, next_y as int, 0));
            }
            assert forall|yy: int, xx: int|
                #[trigger] is_sample(l, w, h, yy, xx) && yy < next_y implies exists|k: int|
                    0 <= k < offsets@.len() && offsets@[k] == grid_offset(w, yy, xx) by {
                if yy > y {
                    lemma_next_multiple(y as int, yy, step_y as int);
                }
            }
        }
        y = next_y;
    }
    offsets
}

/// Number of bytes covered by whole four-byte pixels.
pub open spec fn whole_pixel_bytes(len: int) -> int {
    len - len % 4
}

/// The buffer with the first and third byte of every whole four-byte pixel
/// exchanged (BGRA to RGBA); a trailing partial pixel is left as it is.
pub open spec fn bgra_to_rgba(p: Seq<u8>) -> Seq<u8> {
    Seq::new(
        p.len(),
        |i: int|
            if i < whole_pixel_bytes(p.len() as int) {
                if i % 4 == 0 {
                    p[i + 2]
                } else if i % 4 == 2 {
                    p[i - 2]
                } else {
                    p[i]
                }
            } else {
                p[i]
            },
    )
}

/// `new` is `old` with every whole pixel replaced by what `tint` gives for the
/// background `bg` and the pixel's (red, green, blue), written in RGBA order;
/// alpha and a trailing partial pixel are kept.
pub open spec fn tinted<F: Fn((u8, u8, u8), (u8, u8, u8)) -> (u8, u8, u8)>(
    tint: F,
    bg: (u8, u8, u8),
    old: Seq<u8>,
    new: Seq<u8>,
) -> bool {
    &&& new.len() == old.len()
    &&& forall|k: int|
        0 <= k < old.len() / 4 ==> {
            &&& call_ensures(
                tint,
                (bg, (old[4 * k + 2], old[4 * k + 1], old[4 * k])),
                (#[trigger] new[4 * k], new[4 * k + 1], new[4 * k + 2]),
            )
            &&& new[4 * k + 3] == old[4 * k + 3]
        }
    &&& forall|i: int| whole_pixel_bytes(old.len() as int) <= i < old.len() ==> #[trigger] new[i] == old[i]
}

/// Exchanges the first and third byte of every whole four-byte pixel.
pub fn swap_red_blue(pixels: &mut [u8])
    ensures
        final(pixels)@ == bgra_to_rgba(old(pixels)@),
{
    let ghost start = pixels@;
    assert(start.len() == pixels.len());
    let n = pixels.len() / 4;
    let mut k: usize = 0;
    while k < n
        invariant
            n == start.len() / 4,
            start.len() <= usize::MAX,
            pixels@.len() == start.len(),
            k <= n,
            forall|i: int|
                0 <= i < 4 * k ==> #[trigger] pixels@[i] == bgra_to_rgba(start)[i],
            forall|i: int| 4 * k <= i < start.len() ==> #[trigger] pixels@[i] == start[i],
        decreases n - k,
    {
        let b = pixels[4 * k];
        let r = pixels[4 * k + 2];
        pixels[4 * k] = r;
        pixels[4 * k + 2] = b;
        k = k + 1;
    }
    assert(pixels@ =~= bgra_to_rgba(start));
}

/// Converts a rendered page from BGRA to RGBA, applying theme `theme_idx`.
/// Theme 0, and a page that already looks dark, only get the byte order
/// changed; otherwise every pixel becomes what `tint` gives for the theme's
/// background colour and the pixel's colour. `page_is_dark` is the caller's
/// brightness estimate over `brightness_sample_offsets`.
#[verifier::spinoff_prover]
pub fn apply_theme_and_convert_bgra_to_rgba<F: Fn((u8, u8, u8), (u8, u8, u8)) -> (u8, u8, u8)>(
    pixels: &mut [u8],
    theme_idx: usize,
    page_is_dark: bool,
    tint: F,
)
    requires
        theme_idx == 0 || page_is_dark || theme_idx < THEME_COUNT,
        forall|bg: (u8, u8, u8), px: (u8, u8, u8)| tint.requires((bg, px)),
    ensures
        theme_idx == 0 || page_is_dark ==> final(pixels)@ == bgra_to_rgba(old(pixels)@),
        !(theme_idx == 0 || page_is_dark) ==> tinted(
            tint,
            theme_color(theme_idx as int),
            old(pixels)@,
            final(pixels)@,
        ),
{
    if theme_idx == 0 || page_is_dark {
        swap_red_blue(pixels);
        return;
    }
    let bg = theme_rgb(theme_idx);
    let ghost start = pixels@;
    assert(start.len() == pixels.len());
    let n = pixels.len() / 4;
    let mut k: usize = 0;
    while k < n
        invariant
            n == start.len() / 4,
            start.len() <= usize::MAX,
            pixels@.len() == start.len(),
            k <= n,
            forall|bg2: (u8, u8, u8), px: (u8, u8, u8)| tint.requires((bg2, px)),
            forall|j: int|
                0 <= j < k ==> {
                    &&& call_ensures(
                        tint,
                        (bg, (start[4 * j + 2], start[4 * j + 1], start[4 * j])),
                        (#[trigger] pixels@[4 * j], pixels@[4 * j + 1], pixels@[4 * j + 2]),
                    )
                    &&& pixels@[4 * j + 3] == start[4 * j + 3]
                },
            forall|i: int| 4 * k <= i < start.len() ==> #[trigger] pixels@[i] == start[i],
        decreases n - k,
    {
        let b = pixels[4 * k];
        let g = pixels[4 * k + 1];
        let r = pixels[4 * k + 2];
        let out = tint(bg, (r, g, b));
        let ghost before = pixels@;
        pixels[4 * k] = out.0;
        pixels[4 * k + 1] = out.1;
        pixels[4 * k + 2] = out.2;
        assert(call_ensures(
            tint,
            (bg, (start[4 * k + 2], start[4 * k + 1], start[4 * k])),
            (pixels@[4 * k], pixels@[4 * k + 1], pixels@[4 * k + 2]),
        ));
        assert forall|j: int| 0 <= j < k implies #[trigger] pixels@[4 * j] == before[4 * j]
            && pixels@[4 * j + 1] == before[4 * j + 1] && pixels@[4 * j + 2] == before[4 * j + 2]
            && pixels@[4 * j + 3] == before[4 * j + 3] by {}
        k = k + 1;
    }
}

/// Converting twice gives the page back: the conversion only exchanges the
/// first and third byte within each whole pixel.
pub proof fn lemma_bgra_to_rgba_involutive(p: Seq<u8>)
    ensures
        bgra_to_rgba(bgra_to_rgba(p)) == p,
{
    let q = bgra_to_rgba(p);
    let w = whole_pixel_bytes(p.len() as int);
    assert(w % 4 == 0);
    assert forall|i: int| 0 <= i < p.len() implies #[trigger] bgra_to_rgba(q)[i] == p[i] by {
        if i < w {
            if i % 4 == 0 {
                assert(i + 2 < w);
                assert((i + 2) % 4 == 2);
            } else if i % 4 == 2 {
                assert((i - 2) % 4 == 0);
            }
        }
    }
    assert(bgra_to_rgba(q) =~= p);
}

/// The theme table: "Original" keeps white pages, and the seven dark themes
/// have the background colours (0, 0, 0), (42, 37, 34), (52, 53, 65),
/// (40, 35, 25), (25, 30, 45), (25, 35, 30) and (30, 30, 46), in that order.
/// Every theme but the first is dark: each channel of its background is
/// below 128, so a tinted page shows light text on a dark background.
pub proof fn lemma_theme_table()
    ensures
        theme_color(0) == (255u8, 255u8, 255u8),
        theme_color(1) == (0u8, 0u8, 0u8),
        theme_color(2) == (42u8, 37u8, 34u8),
        theme_color(3) == (52u8, 53u8, 65u8),
        theme_color(4) == (40u8, 35u8, 25u8),
        theme_color(5) == (25u8, 30u8, 45u8),
        theme_color(6) == (25u8, 35u8, 30u8),
        theme_color(7) == (30u8, 30u8, 46u8),
        forall|i: int|
            1 <= i < THEME_COUNT ==> {
                &&& (#[trigger] theme_color(i)).0 < 128
                &&& theme_color(i).1 < 128
                &&& theme_color(i).2 < 128
            },
{
}

} // verus!
