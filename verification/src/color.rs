//! NV12 to RGB, in BT.709 limited range.
//!
//! The conversion is the one of single precision arithmetic:
//!
//! ```text
//! yt = (y - 16) * (255 / 219)
//! ut = (u - 128) * (255 / 224)
//! vt = (v - 128) * (255 / 224)
//! r = yt + 1.5748 * vt
//! g = yt - 0.1873 * ut - 0.4681 * vt
//! b = yt + 1.8556 * ut
//! ```
//!
//! Each operation rounds to 24 significant bits, ties to even. All values
//! that occur are whole multiples of 2^-49, so they are held here as whole
//! numbers in that unit, and the roundings are done one by one. The result is
//! the same on every machine.

use vstd::arithmetic::div_mod::{lemma_fundamental_div_mod, lemma_fundamental_div_mod_converse};
use vstd::prelude::*;

verus! {

/// The distance of two neighbours among the numbers of 24 significant bits,
/// around `m`.
pub open spec fn spacing(m: nat) -> nat
    decreases m,
{
    if m < 0x100_0000 {
        1
    } else {
        2 * spacing(m / 2)
    }
}

/// `m` rounded to 24 significant bits, ties to even.
pub open spec fn round_magnitude(m: nat) -> int {
    let u = spacing(m) as int;
    let q = m as int / u;
    let rem = m as int % u;
    if 2 * rem > u || (2 * rem == u && q % 2 == 1) {
        (q + 1) * u
    } else {
        q * u
    }
}

/// `n` rounded to 24 significant bits, ties to even: the rounding of single
/// precision arithmetic.
pub open spec fn round24(n: int) -> int {
    if n < 0 {
        -round_magnitude((-n) as nat)
    } else {
        round_magnitude(n as nat)
    }
}

/// 255 / 219 in single precision, times 2^23.
pub const LUMA_SCALE: i64 = 9767557;

/// 255 / 224 in single precision, times 2^23.
pub const CHROMA_SCALE: i64 = 9549531;

/// 1.5748 in single precision, times 2^26.
pub const RED_V: i64 = 105683040;

/// 0.1873 in single precision, times 2^26.
pub const GREEN_U: i64 = 12569490;

/// 0.4681 in single precision, times 2^26.
pub const GREEN_V: i64 = 31413660;

/// 1.8556 in single precision, times 2^26.
pub const BLUE_U: i64 = 124527208;

/// 1 in units of 2^-49.
pub const ONE: i64 = 0x2_0000_0000_0000;

/// `yt`, in units of 2^-49.
pub open spec fn luma(y: int) -> int {
    round24((y - 16) * LUMA_SCALE) * 0x400_0000
}

/// `ut` or `vt`, in units of 2^-23.
pub open spec fn chroma(c: int) -> int {
    round24((c - 128) * CHROMA_SCALE)
}

/// A weight times `ut` or `vt`, in units of 2^-49.
pub open spec fn weighted(weight: int, c: int) -> int {
    round24(weight * chroma(c))
}

/// A channel value clamped to 0..=255 and cut to a whole number.
pub open spec fn channel_byte(n: int) -> u8 {
    if n <= 0 {
        0
    } else if n >= 255 * ONE {
        255
    } else {
        (n / ONE as int) as u8
    }
}

pub open spec fn red(y: u8, v: u8) -> u8 {
    channel_byte(round24(luma(y as int) + weighted(RED_V as int, v as int)))
}

pub open spec fn green(y: u8, u: u8, v: u8) -> u8 {
    channel_byte(
        round24(
            round24(luma(y as int) - weighted(GREEN_U as int, u as int)) - weighted(
                GREEN_V as int,
                v as int,
            ),
        ),
    )
}

pub open spec fn blue(y: u8, u: u8) -> u8 {
    channel_byte(round24(luma(y as int) + weighted(BLUE_U as int, u as int)))
}

proof fn lemma_spacing_eighth(q: nat)
    requires
        q >= 0x1_0000_0000,
    ensures
        spacing(q) == 256 * spacing(q / 256),
{
    assert(q / 2 / 2 / 2 / 2 / 2 / 2 / 2 / 2 == q / 256);
    reveal_with_fuel(spacing, 9);
}

/// Rounding at most doubles a number.
proof fn lemma_round_bound(m: nat, u: int)
    requires
        u == spacing(m),
        u >= 1,
        u <= m || u == 1,
    ensures
        0 <= round_magnitude(m) <= 2 * m,
{
    let q = m as int / u;
    let rem = m as int % u;
    lemma_fundamental_div_mod(m as int, u);
    assert(u * q == q * u) by (nonlinear_arith);
    assert((q + 1) * u == q * u + u) by (nonlinear_arith);
    assert(q * u >= 0) by (nonlinear_arith)
        requires
            q >= 0,
            u >= 1,
    ;
}

/// Rounds to 24 significant bits, ties to even.
pub fn round_to_24_bits(n: i64) -> (r: i64)
    requires
        -0x2000_0000_0000_0000 < n < 0x2000_0000_0000_0000,
    ensures
        r == round24(n as int),
        -2 * abs(n as int) <= r <= 2 * abs(n as int),
{
    let m: u64 = if n < 0 {
        (-n) as u64
    } else {
        n as u64
    };
    let mut q: u64 = m;
    let mut u: u64 = 1;
    assert(m / 1 == m);
    while q >= 0x1_0000_0000
        invariant
            u >= 1,
            q == m as int / u as int,
            u == 1 || u <= m,
            u <= 0x100_0000_0000_0000,
            m < 0x2000_0000_0000_0000,
            spacing(m as nat) == u * spacing(q as nat),
        decreases q,
    {
        proof {
            lemma_spacing_eighth(q as nat);
            lemma_scale_step(m as int, u as int, 256);
            let s = spacing((q / 256) as nat);
            assert(u * (256 * s) == (u * 256) * s) by (nonlinear_arith);
        }
        q = q / 256;
        u = u * 256;
    }
    while q >= 0x100_0000
        invariant
            u >= 1,
            q == m as int / u as int,
            u == 1 || u <= m,
            m < 0x2000_0000_0000_0000,
            spacing(m as nat) == u * spacing(q as nat),
        decreases q,
    {
        proof {
            lemma_scale_step(m as int, u as int, 2);
            let s = spacing((q / 2) as nat);
            assert(u * (2 * s) == (u * 2) * s) by (nonlinear_arith);
        }
        q = q / 2;
        u = u * 2;
    }
    proof {
        assert(spacing(q as nat) == 1);
        assert(u * 1 == u);
        lemma_fundamental_div_mod(m as int, u as int);
        lemma_round_bound(m as nat, u as int);
        assert(u * q == q * u) by (nonlinear_arith);
        assert((q + 1) * u == q * u + u) by (nonlinear_arith);
    }
    let low: u64 = q * u;
    let rem: u64 = m - low;
    let rounded: u64 = if 2 * rem > u || (2 * rem == u && q % 2 == 1) {
        low + u
    } else {
        low
    };
    if n < 0 {
        -(rounded as i64)
    } else {
        rounded as i64
    }
}

pub open spec fn abs(n: int) -> int {
    if n < 0 {
        -n
    } else {
        n
    }
}

proof fn lemma_scale_step(m: int, u: int, k: int)
    requires
        u >= 1,
        0 <= m,
        k == 2 || k == 256,
        m / u >= 0x100_0000,
        k == 256 ==> m / u >= 0x1_0000_0000,
    ensures
        m / u / k == m / (u * k),
        u * k <= m,
        u * 0x100_0000 <= m,
        k == 256 ==> u * 0x1_0000_0000 <= m,
{
    vstd::arithmetic::div_mod::lemma_div_denominator(m, u, k);
    lemma_fundamental_div_mod(m, u);
    let q = m / u;
    assert(u * q >= u * 0x100_0000) by (nonlinear_arith)
        requires
            q >= 0x100_0000,
            u >= 1,
    ;
    if k == 256 {
        assert(u * q >= u * 0x1_0000_0000) by (nonlinear_arith)
            requires
                q >= 0x1_0000_0000,
                u >= 1,
        ;
    }
}

/// The products that only depend on one of the three samples.
pub struct ColorTables {
    luma: Vec<i64>,
    red_v: Vec<i64>,
    green_u: Vec<i64>,
    green_v: Vec<i64>,
    blue_u: Vec<i64>,
}

/// A bound on every product, in units of 2^-49.
spec fn product_bound() -> int {
    630_000_000_000_000_000
}

/// A table of 256 products.
spec fn table_holds(t: Seq<i64>, f: spec_fn(int) -> int) -> bool {
    t.len() == 256 && forall|i: int|
        0 <= i < 256 ==> #[trigger] t[i] == f(i) && -product_bound() <= t[i] <= product_bound()
}

fn luma_table() -> (r: Vec<i64>)
    ensures
        table_holds(r@, |y: int| luma(y)),
        forall|i: int|
            0 <= i < 256 ==> -320_000_000_000_000_000 <= #[trigger] r@[i]
                <= 320_000_000_000_000_000,
{
    let mut t: Vec<i64> = Vec::with_capacity(256);
    let mut y: i64 = 0;
    while y < 256
        invariant
            0 <= y <= 256,
            t@.len() == y,
            forall|i: int|
                0 <= i < y ==> #[trigger] t@[i] == luma(i) && -320_000_000_000_000_000 <= t@[i]
                    <= 320_000_000_000_000_000,
        decreases 256 - y,
    {
        let yt: i64 = round_to_24_bits((y - 16) * LUMA_SCALE);
        t.push(yt * 0x400_0000);
        y = y + 1;
    }
    t
}

fn weighted_table(weight: i64) -> (r: Vec<i64>)
    requires
        0 <= weight <= BLUE_U,
    ensures
        table_holds(r@, |c: int| weighted(weight as int, c)),
        forall|i: int|
            0 <= i < 256 ==> -5_000_000_000 * weight <= #[trigger] r@[i] <= 5_000_000_000 * weight,
{
    let mut t: Vec<i64> = Vec::with_capacity(256);
    let mut c: i64 = 0;
    while c < 256
        invariant
            0 <= c <= 256,
            0 <= weight <= BLUE_U,
            t@.len() == c,
            forall|i: int|
                0 <= i < c ==> #[trigger] t@[i] == weighted(weight as int, i) && -5_000_000_000
                    * weight <= t@[i] <= 5_000_000_000 * weight,
        decreases 256 - c,
    {
        let ct: i64 = round_to_24_bits((c - 128) * CHROMA_SCALE);
        assert(-2_500_000_000 <= ct <= 2_500_000_000);
        assert(-2_500_000_000 * weight <= weight * ct <= 2_500_000_000 * weight)
            by (nonlinear_arith)
            requires
                -2_500_000_000 <= ct <= 2_500_000_000,
                0 <= weight,
        ;
        t.push(round_to_24_bits(weight * ct));
        c = c + 1;
    }
    t
}

impl ColorTables {
    pub closed spec fn well_formed(&self) -> bool {
        &&& table_holds(self.luma@, |y: int| luma(y))
        &&& table_holds(self.red_v@, |c: int| weighted(RED_V as int, c))
        &&& table_holds(self.green_u@, |c: int| weighted(GREEN_U as int, c))
        &&& table_holds(self.green_v@, |c: int| weighted(GREEN_V as int, c))
        &&& table_holds(self.blue_u@, |c: int| weighted(BLUE_U as int, c))
        &&& forall|i: int|
            0 <= i < 256 ==> -320_000_000_000_000_000 <= #[trigger] self.luma@[i]
                <= 320_000_000_000_000_000
        &&& forall|i: int|
            0 <= i < 256 ==> -70_000_000_000_000_000 <= #[trigger] self.green_u@[i]
                <= 70_000_000_000_000_000
    }

    /// Fills the tables.
    pub fn new() -> (r: Self)
        ensures
            r.well_formed(),
    {
        ColorTables {
            luma: luma_table(),
            red_v: weighted_table(RED_V),
            green_u: weighted_table(GREEN_U),
            green_v: weighted_table(GREEN_V),
            blue_u: weighted_table(BLUE_U),
        }
    }

    /// One pixel.
    pub fn rgb(&self, y: u8, u: u8, v: u8) -> (r: (u8, u8, u8))
        requires
            self.well_formed(),
        ensures
            r == (red(y, v), green(y, u, v), blue(y, u)),
    {
        let yt: i64 = self.luma[y as usize];
        let r: i64 = round_to_24_bits(yt + self.red_v[v as usize]);
        let g: i64 = round_to_24_bits(
            round_to_24_bits(yt - self.green_u[u as usize]) - self.green_v[v as usize],
        );
        let b: i64 = round_to_24_bits(yt + self.blue_u[u as usize]);
        (clamp_channel(r), clamp_channel(g), clamp_channel(b))
    }
}

fn clamp_channel(n: i64) -> (r: u8)
    ensures
        r == channel_byte(n as int),
{
    if n <= 0 {
        0
    } else if n >= 255 * ONE {
        255
    } else {
        (n / ONE) as u8
    }
}

/// The number of bytes that an NV12 picture needs at least to be converted.
pub open spec fn nv12_len(w: int, h: int) -> int {
    w * h * 3 / 2
}

/// Where the chroma pair of a pixel starts.
pub open spec fn chroma_index(w: int, h: int, row: int, col: int) -> int {
    w * h + row / 2 * w + (col - col % 2)
}

/// Whether every chroma pair lies in a buffer of `len` bytes. With an odd
/// width or height the last pair can reach past `nv12_len`.
pub open spec fn nv12_readable(len: int, w: int, h: int) -> bool {
    w == 0 || h == 0 || len < nv12_len(w, h) || chroma_index(w, h, h - 1, w - 1) + 1 < len
}

/// Channel `k` (red, green, blue) of pixel `p`.
pub open spec fn nv12_channel(nv12: Seq<u8>, w: int, h: int, p: int, k: int) -> u8 {
    let y = nv12[p];
    let c = chroma_index(w, h, p / w, p % w);
    let u = nv12[c];
    let v = nv12[c + 1];
    if k == 0 {
        red(y, v)
    } else if k == 1 {
        green(y, u, v)
    } else {
        blue(y, u)
    }
}

/// An NV12 picture as packed RGB; black where the buffer is too short.
pub open spec fn nv12_rgb(nv12: Seq<u8>, w: int, h: int) -> Seq<u8> {
    if nv12.len() < nv12_len(w, h) {
        Seq::new((w * h * 3) as nat, |i: int| 0u8)
    } else {
        Seq::new((w * h * 3) as nat, |i: int| nv12_channel(nv12, w, h, i / 3, i % 3))
    }
}

/// Whether `nv12_to_rgb` can convert a buffer of `len` bytes.
pub fn can_convert(len: usize, width: u32, height: u32) -> (r: bool)
    ensures
        r == (width * height * 3 <= usize::MAX && nv12_readable(
            len as int,
            width as int,
            height as int,
        )),
{
    let w: u128 = width as u128;
    let h: u128 = height as u128;
    assert(w * h <= 0xFFFF_FFFFu128 * 0xFFFF_FFFFu128) by (nonlinear_arith)
        requires
            w <= 0xFFFF_FFFF,
            h <= 0xFFFF_FFFF,
    ;
    let area: u128 = w * h;
    if area * 3 > usize::MAX as u128 {
        return false;
    }
    if width == 0 || height == 0 || (len as u128) < area * 3 / 2 {
        return true;
    }
    assert((h - 1) / 2 * w <= h * w) by (nonlinear_arith)
        requires
            h >= 1,
            w >= 0,
    ;
    assert(h * w == w * h) by (nonlinear_arith);
    let last: u128 = area + (h - 1) / 2 * w + (w - 1 - (w - 1) % 2) + 1;
    last < len as u128
}

proof fn lemma_pixel_position(w: int, h: int, row: int, col: int)
    requires
        0 <= row < h,
        0 <= col < w,
    ensures
        (row * w + col) / w == row,
        (row * w + col) % w == col,
        0 <= row * w + col < w * h,
        (row + 1) * w <= w * h,
        chroma_index(w, h, row, col) <= chroma_index(w, h, h - 1, w - 1),
        w * h <= chroma_index(w, h, row, col),
{
    lemma_fundamental_div_mod_converse(row * w + col, w, row, col);
    assert(row * w + w <= w * h) by (nonlinear_arith)
        requires
            row + 1 <= h,
            w > 0,
    ;
    assert((row + 1) * w == row * w + w) by (nonlinear_arith);
    assert(row * w >= 0) by (nonlinear_arith)
        requires
            row >= 0,
            w > 0,
    ;
    assert(row / 2 * w <= (h - 1) / 2 * w) by (nonlinear_arith)
        requires
            row / 2 <= (h - 1) / 2,
            w > 0,
    ;
    assert(row / 2 * w >= 0) by (nonlinear_arith)
        requires
            row / 2 >= 0,
            w > 0,
    ;
}

/// Converts an NV12 picture to packed RGB. A buffer that is too short gives
/// black.
pub fn nv12_to_rgb(nv12: &[u8], width: u32, height: u32) -> (r: Vec<u8>)
    requires
        width * height * 3 <= usize::MAX,
        nv12_readable(nv12@.len() as int, width as int, height as int),
    ensures
        r@ == nv12_rgb(nv12@, width as int, height as int),
{
    let w: usize = width as usize;
    let h: usize = height as usize;
    assert(w * h >= 0) by (nonlinear_arith);
    let area: usize = w * h;
    let mut rgb: Vec<u8> = Vec::with_capacity(area * 3);
    if nv12.len() < area * 3 / 2 {
        crate::bytes::push_copies(&mut rgb, 0, area * 3);
        assert(rgb@ =~= nv12_rgb(nv12@, width as int, height as int));
        return rgb;
    }
    let tables = ColorTables::new();
    let mut row: usize = 0;
    let mut p: usize = 0;
    assert(0 * w == 0);
    while row < h
        invariant
            row <= h,
            w == width,
            h == height,
            area == w * h,
            area * 3 <= usize::MAX,
            area * 3 / 2 <= nv12@.len(),
            nv12@.len() <= usize::MAX,
            nv12_readable(nv12@.len() as int, w as int, h as int),
            tables.well_formed(),
            p == row * w,
            rgb@.len() == 3 * p,
            forall|i: int|
                0 <= i < rgb@.len() ==> #[trigger] rgb@[i] == nv12_channel(
                    nv12@,
                    w as int,
                    h as int,
                    i / 3,
                    i % 3,
                ),
        decreases h - row,
    {
        let mut col: usize = 0;
        while col < w
            invariant
                row < h,
                col <= w,
                w == width,
                h == height,
                area == w * h,
                area * 3 <= usize::MAX,
                area * 3 / 2 <= nv12@.len(),
                nv12@.len() <= usize::MAX,
                nv12_readable(nv12@.len() as int, w as int, h as int),
                tables.well_formed(),
                p == row * w + col,
                rgb@.len() == 3 * p,
                forall|i: int|
                    0 <= i < rgb@.len() ==> #[trigger] rgb@[i] == nv12_channel(
                        nv12@,
                        w as int,
                        h as int,
                        i / 3,
                        i % 3,
                    ),
            decreases w - col,
        {
            proof {
                lemma_pixel_position(w as int, h as int, row as int, col as int);
                assert(row / 2 * w >= 0) by (nonlinear_arith);
            }
            let c: usize = area + row / 2 * w + (col - col % 2);
            let ghost before = rgb@;
            let (r, g, b) = tables.rgb(nv12[p], nv12[c], nv12[c + 1]);
            rgb.push(r);
            rgb.push(g);
            rgb.push(b);
            proof {
                assert forall|i: int| 0 <= i < rgb@.len() implies #[trigger] rgb@[i]
                    == nv12_channel(nv12@, w as int, h as int, i / 3, i % 3) by {
                    if i < before.len() {
                        assert(rgb@[i] == before[i]);
                    } else {
                        assert(i / 3 == p);
                    }
                }
            }
            p = p + 1;
            col = col + 1;
        }
        assert((row + 1) * w == row * w + w) by (nonlinear_arith);
        row = row + 1;
    }
    assert(h * w == w * h) by (nonlinear_arith);
    assert(rgb@ =~= nv12_rgb(nv12@, width as int, height as int));
    rgb
}

/// Every pixel has the colour of its own luma byte and of the chroma pair of
/// its own 2x2 block: block rows follow the luma plane, one row of `w` bytes
/// each.
pub proof fn lemma_pixel_color(nv12: Seq<u8>, w: int, h: int, row: int, col: int)
    requires
        0 <= row < h,
        0 <= col < w,
        nv12.len() >= w * h * 3 / 2,
    ensures
        ({
            let rgb = nv12_rgb(nv12, w, h);
            let at = 3 * (row * w + col);
            let y = nv12[row * w + col];
            let u = nv12[w * h + (row / 2) * w + 2 * (col / 2)];
            let v = nv12[w * h + (row / 2) * w + 2 * (col / 2) + 1];
            &&& rgb.len() == 3 * (w * h)
            &&& 0 <= at && at + 2 < rgb.len()
            &&& rgb[at] == red(y, v)
            &&& rgb[at + 1] == green(y, u, v)
            &&& rgb[at + 2] == blue(y, u)
        }),
{
    let p = row * w + col;
    lemma_pixel_position(w, h, row, col);
    assert((3 * p) / 3 == p && (3 * p + 1) / 3 == p && (3 * p + 2) / 3 == p);
    assert((3 * p) % 3 == 0 && (3 * p + 1) % 3 == 1 && (3 * p + 2) % 3 == 2);
    assert(col - col % 2 == 2 * (col / 2));
}

/// A buffer that is too short for the picture gives black, of the right size.
pub proof fn lemma_short_is_black(nv12: Seq<u8>, w: int, h: int, i: int)
    requires
        w >= 0 && h >= 0,
        nv12.len() < w * h * 3 / 2,
        0 <= i < w * h * 3,
    ensures
        nv12_rgb(nv12, w, h).len() == w * h * 3,
        nv12_rgb(nv12, w, h)[i] == 0,
{
}

/// Two pixels share their chroma pair exactly when they lie in the same 2x2
/// block; a pair lies behind the luma plane, and with even sides it lies
/// within one and a half bytes per pixel.
pub proof fn lemma_blocks_share_chroma(w: int, h: int, r1: int, c1: int, r2: int, c2: int)
    requires
        0 <= r1 < h && 0 <= r2 < h,
        0 <= c1 < w && 0 <= c2 < w,
    ensures
        chroma_index(w, h, r1, c1) == chroma_index(w, h, r2, c2) <==> (r1 / 2 == r2 / 2 && c1 / 2
            == c2 / 2),
        w * h <= chroma_index(w, h, r1, c1),
        w % 2 == 0 && h % 2 == 0 ==> chroma_index(w, h, r1, c1) + 2 <= w * h + w * h / 2,
{
    lemma_pixel_position(w, h, r1, c1);
    let (a, b) = (2 * (c1 / 2), 2 * (c2 / 2));
    assert(c1 - c1 % 2 == a && c2 - c2 % 2 == b);
    lemma_fundamental_div_mod_converse(r1 / 2 * w + a, w, r1 / 2, a);
    lemma_fundamental_div_mod_converse(r2 / 2 * w + b, w, r2 / 2, b);
    if w % 2 == 0 && h % 2 == 0 {
        assert((r1 / 2 + 1) * w <= h / 2 * w) by (nonlinear_arith)
            requires
                r1 / 2 + 1 <= h / 2,
                w > 0,
        ;
        assert((r1 / 2 + 1) * w == r1 / 2 * w + w) by (nonlinear_arith);
        assert(2 * (h / 2) == h);
        assert(2 * (h / 2 * w) == w * (2 * (h / 2))) by (nonlinear_arith);
    }
}

/// The last pixel's chroma pair stands behind all others.
pub proof fn lemma_last_pair(w: int, h: int, row: int, col: int)
    requires
        0 <= row < h,
        0 <= col < w,
    ensures
        w * h + (row / 2) * w + 2 * (col / 2) == chroma_index(w, h, row, col),
        chroma_index(w, h, row, col) <= chroma_index(w, h, h - 1, w - 1),
{
    lemma_pixel_position(w, h, row, col);
    assert(col - col % 2 == 2 * (col / 2));
}

} // verus!
