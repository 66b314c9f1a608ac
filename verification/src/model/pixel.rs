//! In-memory pixel representation, independent of any codec library.
//!
//! This is the only image data that filters handle: an RGBA 8-bit buffer,
//! alpha not premultiplied, laid out row by row.

use vstd::prelude::*;

use crate::model::error::FiltroError;
use crate::rounding::{
    lemma_rounded_close, lemma_two_to_53, lemma_two_to_84, lemma_two_to_grows, lemma_two_to_mono, nearest, nearest_u128, round_significant,
    rounded, two_to,
};
use crate::text::{
    decimal, decimal_string, hex_value, is_hex_digit, trim, trim_str,
};

verus! {

/// The single-precision luminance weights 0.299, 0.587 and 0.114, in units
/// of `2^-27`.
pub const LUMA_RED: u64 = 40131100;

pub const LUMA_GREEN: u64 = 78785808;

pub const LUMA_BLUE: u64 = 15300821;

/// `n` rounded to the 24 significant bits of a single-precision number.
pub open spec fn single(n: nat) -> nat {
    rounded(n, 24)
}

/// Bytes per pixel (RGBA, 8 bits each).
pub const CHANNELS: usize = 4;

/// An RGBA 8-bit pixel, alpha not premultiplied.
#[derive(Debug, Clone, Copy, PartialEq, Eq, Structural)]
pub struct Rgba8 {
    pub r: u8,
    pub g: u8,
    pub b: u8,
    pub a: u8,
}

/// One channel of `fg` composited over `bg` with coverage `a / 255`,
/// rounded to the nearest integer (halves away from zero). For every
/// channel value and coverage this is also what the single-precision
/// computation `fg * (a / 255) + bg * (1 - a / 255)` rounds to.
pub open spec fn mix(fg: u8, bg: u8, a: u8) -> u8 {
    ((2 * (fg * a + bg * (255 - a)) + 255) / 510) as u8
}

/// Removes every leading `#`.
pub open spec fn strip_hashes(s: Seq<char>) -> Seq<char>
    decreases s.len(),
{
    if s.len() > 0 && s[0] == '#' {
        strip_hashes(s.drop_first())
    } else {
        s
    }
}

/// The byte written by the two hexadecimal digits `s[i]`, `s[i + 1]`.
pub open spec fn hex_byte(s: Seq<char>, i: int) -> u8 {
    (hex_value(s[i]) * 16 + hex_value(s[i + 1])) as u8
}

/// The colour written `fefe01`, `#fefe01` or `fefe01ff`.
pub open spec fn parse_hex_color(raw: Seq<char>) -> Option<Rgba8> {
    let h = strip_hashes(trim(raw));
    if !(forall|i: int| 0 <= i < h.len() ==> is_hex_digit(#[trigger] h[i])) {
        None
    } else if h.len() == 6 {
        Some(Rgba8 { r: hex_byte(h, 0), g: hex_byte(h, 2), b: hex_byte(h, 4), a: 255 })
    } else if h.len() == 8 {
        Some(Rgba8 { r: hex_byte(h, 0), g: hex_byte(h, 2), b: hex_byte(h, 4), a: hex_byte(h, 6) })
    } else {
        None
    }
}

fn hex_digit_value(c: char) -> (v: u8)
    requires
        is_hex_digit(c),
    ensures
        v == hex_value(c),
        v < 16,
{
    if '0' <= c && c <= '9' {
        (c as u32 - '0' as u32) as u8
    } else if 'a' <= c && c <= 'f' {
        (c as u32 - 'a' as u32 + 10) as u8
    } else {
        (c as u32 - 'A' as u32 + 10) as u8
    }
}

fn hex_pair(h: &str, i: usize) -> (v: u8)
    requires
        i <= 6,
        i + 1 < h@.len(),
        is_hex_digit(h@[i as int]),
        is_hex_digit(h@[i + 1]),
    ensures
        v == hex_byte(h@, i as int),
{
    let hi = hex_digit_value(h.get_char(i));
    let lo = hex_digit_value(h.get_char(i + 1));
    hi * 16 + lo
}

proof fn lemma_strip_hashes_skip(s: Seq<char>, i: int)
    requires
        0 <= i <= s.len(),
        forall|j: int| 0 <= j < i ==> #[trigger] s[j] == '#',
    ensures
        strip_hashes(s) == strip_hashes(s.subrange(i, s.len() as int)),
    decreases i,
{
    if i > 0 {
        assert(s.drop_first().subrange(i - 1, s.drop_first().len() as int) =~= s.subrange(
            i,
            s.len() as int,
        ));
        lemma_strip_hashes_skip(s.drop_first(), i - 1);
    } else {
        assert(s.subrange(0, s.len() as int) =~= s);
    }
}

impl Rgba8 {
    /// Fully transparent pixel.
    #[allow(non_snake_case)]
    pub fn TRANSPARENT() -> (p: Self)
        ensures
            p == (Rgba8 { r: 0, g: 0, b: 0, a: 0 }),
    {
        Rgba8 { r: 0, g: 0, b: 0, a: 0 }
    }

    /// Opaque white (default background when alpha is flattened).
    #[allow(non_snake_case)]
    pub fn WHITE() -> (p: Self)
        ensures
            p == (Rgba8 { r: 255, g: 255, b: 255, a: 255 }),
    {
        Rgba8 { r: 255, g: 255, b: 255, a: 255 }
    }

    /// Opaque black.
    #[allow(non_snake_case)]
    pub fn BLACK() -> (p: Self)
        ensures
            p == (Rgba8 { r: 0, g: 0, b: 0, a: 255 }),
    {
        Rgba8 { r: 0, g: 0, b: 0, a: 255 }
    }

    pub fn new(r: u8, g: u8, b: u8, a: u8) -> (p: Self)
        ensures
            p == (Rgba8 { r, g, b, a }),
    {
        Rgba8 { r, g, b, a }
    }

    /// Reads a hexadecimal colour: `fefe01`, `#fefe01`, `fefe01ff`.
    ///
    /// Returns `None` when the text is not a valid colour.
    pub fn from_hex(raw: &str) -> (r: Option<Self>)
        ensures
            r == parse_hex_color(raw@),
    {
        let t = trim_str(raw);
        let n = t.unicode_len();
        let mut i: usize = 0;
        while i < n && t.get_char(i) == '#'
            invariant
                n == t@.len(),
                i <= n,
                forall|j: int| 0 <= j < i ==> #[trigger] t@[j] == '#',
            decreases n - i,
        {
            i = i + 1;
        }
        proof {
            lemma_strip_hashes_skip(t@, i as int);
            let rest = t@.subrange(i as int, n as int);
            if rest.len() > 0 {
                assert(rest[0] != '#');
            }
        }
        let h = t.substring_char(i, n);
        assert(h@ == strip_hashes(trim(raw@)));
        let m = h.unicode_len();
        let mut k: usize = 0;
        while k < m
            invariant
                m == h@.len(),
                h@ == strip_hashes(trim(raw@)),
                k <= m,
                forall|j: int| 0 <= j < k ==> is_hex_digit(#[trigger] h@[j]),
            decreases m - k,
        {
            let c = h.get_char(k);
            if !(('0' <= c && c <= '9') || ('a' <= c && c <= 'f') || ('A' <= c && c <= 'F')) {
                assert(!is_hex_digit(h@[k as int]));
                return None;
            }
            k = k + 1;
        }
        if m == 6 {
            Some(Rgba8 { r: hex_pair(h, 0), g: hex_pair(h, 2), b: hex_pair(h, 4), a: 255 })
        } else if m == 8 {
            Some(
                Rgba8 {
                    r: hex_pair(h, 0),
                    g: hex_pair(h, 2),
                    b: hex_pair(h, 4),
                    a: hex_pair(h, 6),
                },
            )
        } else {
            None
        }
    }

    /// Perceived luminance (Rec. 601 weights 0.299, 0.587, 0.114), as
    /// single-precision arithmetic computes `0.299 r + 0.587 g + 0.114 b`:
    /// each weight is the nearest single-precision number, each product and
    /// each sum is rounded to 24 significant bits, and the total is rounded
    /// to the nearest integer, halves upwards, at most 255. Quantities are
    /// counted in units of `2^-27`, in which the three weights are whole.
    pub open spec fn spec_luminance(self) -> u8 {
        let red = single((LUMA_RED * self.r) as nat);
        let green = single((LUMA_GREEN * self.g) as nat);
        let blue = single((LUMA_BLUE * self.b) as nat);
        let y = single(single(red + green) + blue);
        let v = (y + 0x400_0000) / 0x800_0000;
        if v > 255 {
            255
        } else {
            v as u8
        }
    }

    /// Perceived luminance (Rec. 601), used by the threshold filters.
    pub fn luminance(self) -> (y: u8)
        ensures
            y == self.spec_luminance(),
    {
        let red = round_significant((LUMA_RED * (self.r as u64)) as u128, 24);
        let green = round_significant((LUMA_GREEN * (self.g as u64)) as u128, 24);
        let blue = round_significant((LUMA_BLUE * (self.b as u64)) as u128, 24);
        let partial = round_significant(red + green, 24);
        let y = round_significant(partial + blue, 24);
        let v = (y + 0x400_0000) / 0x800_0000;
        if v > 255 {
            255
        } else {
            v as u8
        }
    }

    /// This pixel composited over an opaque background.
    pub open spec fn spec_over(self, background: Rgba8) -> Rgba8 {
        if self.a == 255 {
            self
        } else {
            Rgba8 {
                r: mix(self.r, background.r, self.a),
                g: mix(self.g, background.g, self.a),
                b: mix(self.b, background.b, self.a),
                a: 255,
            }
        }
    }

    /// Composites this pixel over an opaque background; the result is opaque.
    pub fn over(self, background: Rgba8) -> (p: Rgba8)
        ensures
            p == self.spec_over(background),
    {
        if self.a == 255 {
            return self;
        }
        Rgba8 {
            r: mix_channel(self.r, background.r, self.a),
            g: mix_channel(self.g, background.g, self.a),
            b: mix_channel(self.b, background.b, self.a),
            a: 255,
        }
    }
}

fn mix_channel(fg: u8, bg: u8, a: u8) -> (v: u8)
    ensures
        v == mix(fg, bg, a),
{
    let f = fg as u32;
    let b = bg as u32;
    let k = a as u32;
    assert(f * k + b * (255 - k) <= 255 * 255) by (nonlinear_arith)
        requires
            k <= 255,
            f <= 255,
            b <= 255,
    ;
    assert(f * k <= 255 * 255) by (nonlinear_arith)
        requires
            k <= 255,
            f <= 255,
    ;
    let num: u32 = f * k + b * (255 - k);
    ((2 * num + 255) / 510) as u8
}

/// Image dimensions (`Dimensions::new` only builds positive ones).
#[derive(Debug, Clone, Copy, PartialEq, Eq, Structural)]
pub struct Dimensions {
    pub width: u32,
    pub height: u32,
}

/// The binary exponent of the double nearest to `num / den`, searched from
/// `from` on: the first `e` with `num * 2^e >= 2^52 * den`, so that the
/// ratio is a whole number of units of `2^-e` with 53 significant bits.
pub open spec fn ratio_exponent(num: nat, den: nat, from: nat) -> nat
    decreases 128 - from,
{
    if from >= 128 || num * two_to(from) >= 0x10_0000_0000_0000 * den {
        from
    } else {
        ratio_exponent(num, den, from + 1)
    }
}

/// `side * (max_side / longest)` as double-precision arithmetic computes
/// it: the ratio is the double nearest to `max_side / longest`, the product
/// is rounded to 53 significant bits, and the result to the nearest
/// integer, halves upwards, then brought between 1 and `u32::MAX`.
/// Quantities are counted in units of `2^-e`, `e` the ratio's exponent.
pub open spec fn scaled_side(side: u32, max_side: u32, longest: u32) -> u32 {
    let unit = two_to(ratio_exponent(max_side as nat, longest as nat, 0));
    let ratio = nearest(max_side as nat * unit, longest as nat);
    let product = rounded(side as nat * ratio, 53);
    let v = (product + unit / 2) / unit;
    if v < 1 {
        1
    } else if v > u32::MAX {
        u32::MAX
    } else {
        v as u32
    }
}

impl Dimensions {
    /// `width x height`, as displayed in messages.
    pub open spec fn text(self) -> Seq<char> {
        decimal(self.width as nat) + "x"@ + decimal(self.height as nat)
    }

    pub fn new(width: u32, height: u32) -> (r: Result<Self, FiltroError>)
        ensures
            r is Ok <==> width > 0 && height > 0,
            r matches Ok(d) ==> d == (Dimensions { width, height }),
            r matches Err(e) ==> e matches FiltroError::InvalidImage(m) && m@ == "dimensions nulles ("@
                + (Dimensions { width, height }).text() + ")"@,
    {
        if width == 0 || height == 0 {
            let mut m = String::from_str("dimensions nulles (");
            let t = (Dimensions { width, height }).to_text();
            m.append(t.as_str());
            m.append(")");
            return Err(FiltroError::InvalidImage(m));
        }
        Ok(Dimensions { width, height })
    }

    /// `width x height`, as displayed in messages.
    pub fn to_text(self) -> (s: String)
        ensures
            s@ == self.text(),
    {
        let mut s = decimal_string(self.width as u64);
        s.append("x");
        let h = decimal_string(self.height as u64);
        s.append(h.as_str());
        s
    }

    /// Total number of pixels, computed on 64 bits.
    pub fn pixel_count(self) -> (n: u64)
        ensures
            n == self.width * self.height,
    {
        assert(self.width * self.height <= u32::MAX * u32::MAX) by (nonlinear_arith)
            requires
                self.width <= u32::MAX,
                self.height <= u32::MAX,
        ;
        (self.width as u64) * (self.height as u64)
    }

    pub open spec fn spec_longest_side(self) -> u32 {
        if self.width >= self.height {
            self.width
        } else {
            self.height
        }
    }

    /// Longest side, base of the Formatter's size variants.
    pub fn longest_side(self) -> (n: u32)
        ensures
            n == self.spec_longest_side(),
    {
        if self.width >= self.height {
            self.width
        } else {
            self.height
        }
    }

    /// The dimensions shrunk, proportionally, to fit a `max_side` square;
    /// `None` when the image already fits.
    pub open spec fn spec_scaled_to_fit(self, max_side: u32) -> Option<Dimensions> {
        let longest = self.spec_longest_side();
        if max_side == 0 || longest <= max_side {
            None
        } else {
            Some(
                Dimensions {
                    width: scaled_side(self.width, max_side, longest),
                    height: scaled_side(self.height, max_side, longest),
                },
            )
        }
    }

    /// Dimensions shrunk to fit a box of `max_side` pixels.
    /// Returns `None` when the image already fits the box.
    pub fn scaled_to_fit(self, max_side: u32) -> (r: Option<Dimensions>)
        ensures
            r == self.spec_scaled_to_fit(max_side),
    {
        let longest = self.longest_side();
        if max_side == 0 || longest <= max_side {
            return None;
        }
        Some(
            Dimensions {
                width: scale_side(self.width, max_side, longest),
                height: scale_side(self.height, max_side, longest),
            },
        )
    }
}

/// The ratio's exponent exists below 85: `max_side * 2^e` reaches
/// `2^52 * longest`, which `max_side * 2^(e - 1)` does not.
proof fn lemma_ratio_exponent(num: nat, den: nat, from: nat)
    requires
        1 <= num < den <= u32::MAX,
        from <= 84,
        from >= 1 ==> num * two_to((from - 1) as nat) < 0x10_0000_0000_0000 * den,
    ensures
        1 <= ratio_exponent(num, den, from) <= 84,
        num * two_to(ratio_exponent(num, den, from)) >= 0x10_0000_0000_0000 * den,
        num * two_to((ratio_exponent(num, den, from) - 1) as nat) < 0x10_0000_0000_0000 * den,
    decreases 84 - from,
{
    let p = two_to(from);
    lemma_two_to_grows(from);
    assert(num * p >= p) by (nonlinear_arith)
        requires
            num >= 1,
            p >= 1,
    ;
    if num * p < 0x10_0000_0000_0000 * den {
        if from == 84 {
            lemma_two_to_84();
            assert(false);
        }
        lemma_ratio_exponent(num, den, from + 1);
    } else if from == 0 {
        assert(p == 1);
        assert(num * p == num) by (nonlinear_arith)
            requires
                p == 1,
        ;
    }
}

/// Bounds of a scaled side: it never passes the box, nor the side itself,
/// and the longest side lands on the box exactly.
proof fn lemma_scaled_side(side: u32, max_side: u32, longest: u32)
    requires
        0 < max_side < longest,
        side <= longest,
    ensures
        1 <= scaled_side(side, max_side, longest) <= max_side,
        side == longest ==> scaled_side(side, max_side, longest) == max_side,
        side >= 1 ==> scaled_side(side, max_side, longest) <= side,
{
    let mx = max_side as nat;
    let l = longest as nat;
    let s = side as nat;
    let e = ratio_exponent(mx, l, 0);
    lemma_ratio_exponent(mx, l, 0);
    let u = two_to(e);
    let half = two_to((e - 1) as nat);
    assert(u == 2 * half);
    let m = nearest(mx * u, l);
    let p = rounded(s * m, 53);
    lemma_rounded_close(s * m, 53);
    lemma_two_to_53();
    let t: nat = 0x20_0000_0000_0000;
    // The ratio's numerator a = max_side * u lies in [2^52 l, 2^53 l).
    let a = mx * u;
    assert(a < t * l) by (nonlinear_arith)
        requires
            mx * half < 0x10_0000_0000_0000 * l,
            u == 2 * half,
            a == mx * u,
            t == 0x20_0000_0000_0000,
    ;
    assert(0x1_0000_0000 * u > a) by (nonlinear_arith)
        requires
            mx < 0x1_0000_0000,
            a == mx * u,
            u >= 1,
    ;
    // The double ratio m: l * m is within l / 2 of a.
    let q = a / l;
    let r = a % l;
    let b = l * m;
    assert(a == q * l + r && 0 <= r < l) by (nonlinear_arith)
        requires
            l > 0,
            q == a / l,
            r == a % l,
    ;
    assert(2 * b <= 2 * a + l && 2 * a <= 2 * b + l) by (nonlinear_arith)
        requires
            a == q * l + r,
            0 <= r < l,
            m == q || m == q + 1,
            m == q + 1 ==> 2 * r >= l,
            m == q ==> 2 * r <= l,
            b == l * m,
    ;
    let c = s * m;
    assert(c <= b) by (nonlinear_arith)
        requires
            s <= l,
            c == s * m,
            b == l * m,
    ;
    assert(0x20_0000_0000_0000 * p <= 0x20_0000_0000_0001 * c);
    assert(0x1F_FFFF_FFFF_FFFF * c <= 0x20_0000_0000_0000 * p);
    // Upper bound: p + u / 2 < (max_side + 1) * u.
    assert(2 * p < 2 * a + u) by (nonlinear_arith)
        requires
            0x20_0000_0000_0000 * p <= 0x20_0000_0000_0001 * c,
            c <= b,
            2 * b <= 2 * a + l,
            a < 0x20_0000_0000_0000 * l,
            0x1_0000_0000 * u > a,
            a >= 0x10_0000_0000_0000 * l,
            l > 0,
    ;
    assert((p + u / 2) / u <= mx) by (nonlinear_arith)
        requires
            2 * p < 2 * a + u,
            a == mx * u,
            u == 2 * half,
            half >= 1,
    ;
    if s == l {
        assert(c == b);
        assert(2 * p + u >= 2 * a) by (nonlinear_arith)
            requires
                0x1F_FFFF_FFFF_FFFF * c <= 0x20_0000_0000_0000 * p,
                c == b,
                2 * a <= 2 * b + l,
                a < 0x20_0000_0000_0000 * l,
                0x1_0000_0000 * u > a,
                a >= 0x10_0000_0000_0000 * l,
                l > 0,
        ;
        assert((p + u / 2) / u >= mx) by (nonlinear_arith)
            requires
                2 * p + u >= 2 * a,
                a == mx * u,
                u == 2 * half,
                half >= 1,
        ;
    }
    if s >= 1 {
        // The ratio stays below 1: m < u.
        assert(a <= l * u - u) by (nonlinear_arith)
            requires
                a == mx * u,
                mx + 1 <= l,
        ;
        assert(m < u) by (nonlinear_arith)
            requires
                2 * b <= 2 * a + l,
                a <= l * u - u,
                0x1_0000_0000 * u > a,
                a >= 0x10_0000_0000_0000 * l,
                b == l * m,
                l > 0,
        ;
        let w = s * u;
        assert(c <= w - s) by (nonlinear_arith)
            requires
                m + 1 <= u,
                c == s * m,
                w == s * u,
        ;
        assert(w <= 0x1_0000_0000 * u) by (nonlinear_arith)
            requires
                s < 0x1_0000_0000,
                w == s * u,
        ;
        assert(2 * p < 2 * w + u) by (nonlinear_arith)
            requires
                0x20_0000_0000_0000 * p <= 0x20_0000_0000_0001 * c,
                c <= w - s,
                w <= 0x1_0000_0000 * u,
                s >= 1,
                u >= 2,
        ;
        assert((p + u / 2) / u <= s) by (nonlinear_arith)
            requires
                2 * p < 2 * w + u,
                w == s * u,
                u == 2 * half,
                half >= 1,
        ;
    }
}

/// `scaled_side` in machine integers: the exponent of the ratio is found by
/// doubling the unit until `max_side` units reach `2^52 * longest`.
fn scale_side(side: u32, max_side: u32, longest: u32) -> (v: u32)
    requires
        0 < max_side < longest,
    ensures
        v == scaled_side(side, max_side, longest),
{
    let num = max_side as u128;
    let den = longest as u128;
    let target: u128 = den * 0x10_0000_0000_0000;
    let mut unit: u128 = 1;
    let mut e: u32 = 0;
    proof {
        lemma_two_to_84();
    }
    while num * unit < target
        invariant
            1 <= num < den,
            den <= u32::MAX,
            target == den * 0x10_0000_0000_0000,
            unit == two_to(e as nat),
            unit >= 1,
            e <= 84,
            num * unit < 2 * target,
            e > 0 ==> num * (unit / 2) < target,
            ratio_exponent(num as nat, den as nat, 0) == ratio_exponent(num as nat, den as nat, e as nat),
            two_to(84) == 0x10_0000_0000_0000_0000_0000,
        decreases 0x20_0000_0000_0000_0000_0000 - unit,
    {
        assert(num * unit >= unit) by (nonlinear_arith)
            requires
                num >= 1,
                unit >= 1,
        ;
        if e >= 84 {
            proof {
                lemma_two_to_mono(84, e as nat);
            }
            assert(false);
        }
        assert(num * (2 * unit) == 2 * (num * unit)) by (nonlinear_arith);
        assert((2 * unit) / 2 == unit);
        unit = 2 * unit;
        e = e + 1;
    }
    assert(ratio_exponent(num as nat, den as nat, e as nat) == e);
    assert(((num * unit) as int / (den as int)) < 0x20_0000_0000_0000) by (nonlinear_arith)
        requires
            num * unit < 2 * target,
            target == den * 0x10_0000_0000_0000,
            den >= 1,
    ;
    let ratio = nearest_u128(num * unit, den);
    assert(ratio <= 0x20_0000_0000_0000);
    assert(side * ratio <= 0x1_0000_0000 * 0x20_0000_0000_0000) by (nonlinear_arith)
        requires
            side <= u32::MAX,
            ratio <= 0x20_0000_0000_0000,
    ;
    let product = round_significant(side as u128 * ratio, 53);
    let v = (product + unit / 2) / unit;
    if v < 1 {
        1
    } else if v > 0xFFFF_FFFF {
        0xFFFF_FFFF
    } else {
        v as u32
    }
}

/// The pixel whose four bytes start at `4 * i`.
pub open spec fn pixel_of(bytes: Seq<u8>, i: int) -> Rgba8 {
    Rgba8 { r: bytes[4 * i], g: bytes[4 * i + 1], b: bytes[4 * i + 2], a: bytes[4 * i + 3] }
}

/// Channel `k` (0 = red … 3 = alpha) of a pixel.
pub open spec fn channel(p: Rgba8, k: int) -> u8 {
    if k == 0 {
        p.r
    } else if k == 1 {
        p.g
    } else if k == 2 {
        p.b
    } else {
        p.a
    }
}

/// The bytes of an image whose every pixel is composited over `background`.
pub open spec fn flattened(bytes: Seq<u8>, background: Rgba8) -> Seq<u8> {
    Seq::new(bytes.len(), |j: int| channel(pixel_of(bytes, j / 4).spec_over(background), j % 4))
}

/// The bytes of an image whose every pixel `p` becomes `g(p)`.
pub open spec fn mapped(bytes: Seq<u8>, g: spec_fn(Rgba8) -> Rgba8) -> Seq<u8> {
    Seq::new(bytes.len(), |j: int| channel(g(pixel_of(bytes, j / 4)), j % 4))
}

/// Pixel `i` of a mapped image is `g` of pixel `i` of the source.
pub proof fn lemma_pixel_of_mapped(bytes: Seq<u8>, g: spec_fn(Rgba8) -> Rgba8, i: int)
    requires
        0 <= i < bytes.len() / 4,
    ensures
        pixel_of(mapped(bytes, g), i) == g(pixel_of(bytes, i)),
{
    let m = mapped(bytes, g);
    assert(4 * i + 3 < bytes.len());
    assert((4 * i) / 4 == i && (4 * i) % 4 == 0);
    assert((4 * i + 1) / 4 == i && (4 * i + 1) % 4 == 1);
    assert((4 * i + 2) / 4 == i && (4 * i + 2) % 4 == 2);
    assert((4 * i + 3) / 4 == i && (4 * i + 3) % 4 == 3);
}

/// Bytes whose every pixel is `g` of the pixel at the same index in `before`
/// are `mapped(before, g)`.
pub proof fn lemma_mapped(before: Seq<u8>, after: Seq<u8>, g: spec_fn(Rgba8) -> Rgba8)
    requires
        after.len() == before.len(),
        before.len() % 4 == 0,
        forall|i: int|
            0 <= i < before.len() / 4 ==> #[trigger] pixel_of(after, i) == g(pixel_of(before, i)),
    ensures
        after == mapped(before, g),
{
    assert forall|j: int| 0 <= j < after.len() implies #[trigger] after[j] == channel(
        g(pixel_of(before, j / 4)),
        j % 4,
    ) by {
        let i = j / 4;
        assert(pixel_of(after, i) == g(pixel_of(before, i)));
    }
    assert(after =~= mapped(before, g));
}

/// `bytes` with the pixel at index `i` replaced by `p`.
pub open spec fn with_pixel(bytes: Seq<u8>, i: int, p: Rgba8) -> Seq<u8> {
    bytes.update(4 * i, p.r).update(4 * i + 1, p.g).update(4 * i + 2, p.b).update(4 * i + 3, p.a)
}

/// Column of the pixel at index `i` in a row of `width` pixels; the index is
/// taken on 32 bits, as `map_pixels` computes it.
pub open spec fn column_of(i: int, width: u32) -> u32 {
    ((i as u32) % width) as u32
}

/// Row of the pixel at index `i` (index taken on 32 bits).
pub open spec fn row_of(i: int, width: u32) -> u32 {
    ((i as u32) / width) as u32
}

/// `min(max(v, lo), hi)`, as `i64::clamp`.
pub open spec fn clamp_i64(v: i64, lo: i64, hi: i64) -> i64 {
    if v < lo {
        lo
    } else if v > hi {
        hi
    } else {
        v
    }
}

/// Contiguous RGBA8 pixel buffer, row after row.
#[derive(Debug, Clone, PartialEq, Eq)]
pub struct PixelBuffer {
    dimensions: Dimensions,
    data: Vec<u8>,
}

impl PixelBuffer {
    pub closed spec fn dims(&self) -> Dimensions {
        self.dimensions
    }

    /// The interleaved RGBA bytes.
    pub closed spec fn bytes(&self) -> Seq<u8> {
        self.data@
    }

    /// The buffer holds exactly four bytes per pixel of its dimensions.
    pub open spec fn wf(&self) -> bool {
        self.bytes().len() == self.dims().width * self.dims().height * 4
    }

    /// Number of pixels held.
    pub open spec fn count(&self) -> nat {
        (self.dims().width * self.dims().height) as nat
    }

    /// The pixel at `(x, y)`, or `None` outside the image.
    pub open spec fn spec_pixel(&self, x: u32, y: u32) -> Option<Rgba8> {
        if x < self.dims().width && y < self.dims().height {
            Some(pixel_of(self.bytes(), y * self.dims().width + x))
        } else {
            None
        }
    }

    /// Whether some pixel is not fully opaque.
    pub open spec fn spec_has_transparency(&self) -> bool {
        exists|i: int| 0 <= i < self.count() && (#[trigger] pixel_of(self.bytes(), i)).a != 255
    }

    /// Size in bytes of a buffer of `dimensions`, when it fits in memory.
    pub open spec fn byte_len(dimensions: Dimensions) -> Option<usize> {
        let n = dimensions.width * dimensions.height * 4;
        if n <= usize::MAX {
            Some(n as usize)
        } else {
            None
        }
    }

    fn checked_len(dimensions: Dimensions) -> (r: Option<usize>)
        ensures
            r == Self::byte_len(dimensions),
    {
        let count = dimensions.pixel_count();
        if count > (usize::MAX as u64) / 4 {
            return None;
        }
        Some((count as usize) * 4)
    }

    /// The error of an image too large for memory.
    pub(crate) fn too_large(dimensions: Dimensions) -> (e: FiltroError)
        ensures
            e matches FiltroError::InvalidImage(m) && m@ == "image trop grande : "@
                + dimensions.text(),
    {
        let mut m = String::from_str("image trop grande : ");
        let t = dimensions.to_text();
        m.append(t.as_str());
        FiltroError::InvalidImage(m)
    }

    /// A fully transparent buffer.
    pub fn new(dimensions: Dimensions) -> (r: Result<Self, FiltroError>)
        ensures
            r is Ok <==> Self::byte_len(dimensions) is Some,
            r matches Ok(b) ==> b.wf() && b.dims() == dimensions && forall|i: int|
                0 <= i < b.bytes().len() ==> #[trigger] b.bytes()[i] == 0,
            r matches Err(e) ==> e matches FiltroError::InvalidImage(m) && m@
                == "image trop grande : "@ + dimensions.text(),
    {
        match Self::checked_len(dimensions) {
            None => Err(Self::too_large(dimensions)),
            Some(len) => {
                let data = vec![0u8; len];
                assert forall|i: int| 0 <= i < data@.len() implies #[trigger] data@[i] == 0 by {
                    assert(cloned(0u8, data@[i]));
                }
                Ok(PixelBuffer { dimensions, data })
            },
        }
    }

    /// The message of a buffer whose size does not match its dimensions.
    pub open spec fn size_mismatch_text(dimensions: Dimensions, got: nat, expected: nat) -> Seq<
        char,
    > {
        "tampon de "@ + decimal(got) + " octets pour "@ + dimensions.text() + " (attendu : "@
            + decimal(expected) + ")"@
    }

    /// Builds a buffer from raw RGBA8 bytes.
    ///
    /// Fails with `InvalidImage` when the byte count does not match the
    /// dimensions.
    pub fn from_raw(dimensions: Dimensions, data: Vec<u8>) -> (r: Result<Self, FiltroError>)
        ensures
            r is Ok <==> Self::byte_len(dimensions) == Some(data@.len() as usize),
            r matches Ok(b) ==> b.wf() && b.dims() == dimensions && b.bytes() == data@,
            r matches Err(e) ==> e matches FiltroError::InvalidImage(m) && (match Self::byte_len(
                dimensions,
            ) {
                None => m@ == "image trop grande : "@ + dimensions.text(),
                Some(expected) => m@ == Self::size_mismatch_text(
                    dimensions,
                    data@.len(),
                    expected as nat,
                ),
            }),
    {
        match Self::checked_len(dimensions) {
            None => Err(Self::too_large(dimensions)),
            Some(expected) => {
                if data.len() != expected {
                    let mut m = String::from_str("tampon de ");
                    let got = decimal_string(data.len() as u64);
                    m.append(got.as_str());
                    m.append(" octets pour ");
                    let t = dimensions.to_text();
                    m.append(t.as_str());
                    m.append(" (attendu : ");
                    let e = decimal_string(expected as u64);
                    m.append(e.as_str());
                    m.append(")");
                    return Err(FiltroError::InvalidImage(m));
                }
                Ok(PixelBuffer { dimensions, data })
            },
        }
    }

    /// A buffer equal to this one.
    pub fn duplicate(&self) -> (r: Self)
        ensures
            r.dims() == self.dims(),
            r.bytes() == self.bytes(),
    {
        PixelBuffer { dimensions: self.dimensions, data: self.data.clone() }
    }

    pub fn dimensions(&self) -> (d: Dimensions)
        ensures
            d == self.dims(),
    {
        self.dimensions
    }

    pub fn width(&self) -> (w: u32)
        ensures
            w == self.dims().width,
    {
        self.dimensions.width
    }

    pub fn height(&self) -> (h: u32)
        ensures
            h == self.dims().height,
    {
        self.dimensions.height
    }

    /// Read access to the raw interleaved RGBA bytes.
    pub fn as_bytes(&self) -> (s: &[u8])
        ensures
            s@ == self.bytes(),
    {
        self.data.as_slice()
    }

    /// Write access to the raw bytes, for vectorised filters.
    ///
    /// The slice cannot change length, so the buffer stays well formed; the
    /// contract states it in that form.
    pub fn as_bytes_mut(&mut self) -> (s: &mut [u8])
        ensures
            s@ == old(self).bytes(),
            final(self).bytes() == final(s)@,
            final(self).dims() == old(self).dims(),
            old(self).wf() && final(s)@.len() == s@.len() ==> final(self).wf(),
    {
        self.data.as_mut_slice()
    }

    /// Consumes the buffer and returns its raw bytes.
    pub fn into_raw(self) -> (v: Vec<u8>)
        ensures
            v@ == self.bytes(),
    {
        self.data
    }

    fn offset(&self, x: u32, y: u32) -> (r: Option<usize>)
        requires
            self.wf(),
        ensures
            r is Some <==> x < self.dims().width && y < self.dims().height,
            r matches Some(o) ==> o == 4 * (y * self.dims().width + x) && o + 3 < self.bytes().len(),
    {
        if x >= self.dimensions.width || y >= self.dimensions.height {
            return None;
        }
        let len = self.data.len();
        let w = self.dimensions.width as u64;
        let h = self.dimensions.height as u64;
        proof {
            assert(y * w + x < w * h) by (nonlinear_arith)
                requires
                    x < w,
                    y < h,
            ;
            assert(w * h <= u32::MAX * u32::MAX) by (nonlinear_arith)
                requires
                    w <= u32::MAX,
                    h <= u32::MAX,
            ;
            assert(w * h * 4 == self.bytes().len());
        }
        let index = (y as u64) * w + (x as u64);
        Some((index as usize) * 4)
    }

    /// Reads a pixel, or `None` outside the image.
    pub fn pixel(&self, x: u32, y: u32) -> (r: Option<Rgba8>)
        requires
            self.wf(),
        ensures
            r == self.spec_pixel(x, y),
    {
        match self.offset(x, y) {
            None => None,
            Some(o) => Some(
                Rgba8 {
                    r: self.data[o],
                    g: self.data[o + 1],
                    b: self.data[o + 2],
                    a: self.data[o + 3],
                },
            ),
        }
    }

    /// Reads a pixel, folding the coordinates onto the nearest edge; handy
    /// for convolution kernels.
    pub fn pixel_clamped(&self, x: i64, y: i64) -> (p: Rgba8)
        requires
            self.wf(),
            self.dims().width > 0,
            self.dims().height > 0,
        ensures
            p == pixel_of(
                self.bytes(),
                clamp_i64(y, 0, (self.dims().height - 1) as i64) * self.dims().width + clamp_i64(
                    x,
                    0,
                    (self.dims().width - 1) as i64,
                ),
            ),
    {
        let wmax = (self.dimensions.width - 1) as i64;
        let hmax = (self.dimensions.height - 1) as i64;
        let cx = if x < 0 {
            0
        } else if x > wmax {
            wmax
        } else {
            x
        };
        let cy = if y < 0 {
            0
        } else if y > hmax {
            hmax
        } else {
            y
        };
        match self.pixel(cx as u32, cy as u32) {
            Some(p) => p,
            None => Rgba8::TRANSPARENT(),
        }
    }

    /// Writes a pixel; no effect outside the image.
    pub fn set_pixel(&mut self, x: u32, y: u32, pixel: Rgba8)
        requires
            old(self).wf(),
        ensures
            final(self).wf(),
            final(self).dims() == old(self).dims(),
            final(self).bytes() == (if x < old(self).dims().width && y < old(self).dims().height {
                with_pixel(old(self).bytes(), y * old(self).dims().width + x, pixel)
            } else {
                old(self).bytes()
            }),
    {
        if let Some(o) = self.offset(x, y) {
            self.data.set(o, pixel.r);
            self.data.set(o + 1, pixel.g);
            self.data.set(o + 2, pixel.b);
            self.data.set(o + 3, pixel.a);
        }
    }

    /// The pixels in reading order.
    pub fn pixels(&self) -> (v: Vec<Rgba8>)
        requires
            self.wf(),
        ensures
            v@.len() == self.count(),
            forall|i: int| 0 <= i < v@.len() ==> #[trigger] v@[i] == pixel_of(self.bytes(), i),
    {
        let len = self.data.len();
        let n = len / 4;
        let mut out: Vec<Rgba8> = Vec::new();
        let mut i: usize = 0;
        while i < n
            invariant
                n == self.count(),
                len == self.bytes().len(),
                self.wf(),
                i <= n,
                out@.len() == i,
                forall|j: int| 0 <= j < i ==> #[trigger] out@[j] == pixel_of(self.bytes(), j),
            decreases n - i,
        {
            let o = 4 * i;
            out.push(
                Rgba8 {
                    r: self.data[o],
                    g: self.data[o + 1],
                    b: self.data[o + 2],
                    a: self.data[o + 3],
                },
            );
            i = i + 1;
        }
        out
    }

    /// Applies a per-pixel transformation in place; `f` receives the column,
    /// the row and the current pixel.
    pub fn map_pixels<F: Fn(u32, u32, Rgba8) -> Rgba8>(&mut self, f: F)
        requires
            old(self).wf(),
            forall|x: u32, y: u32, p: Rgba8| call_requires(f, (x, y, p)),
        ensures
            final(self).wf(),
            final(self).dims() == old(self).dims(),
            forall|i: int|
                0 <= i < old(self).count() ==> call_ensures(
                    f,
                    (
                        column_of(i, old(self).dims().width),
                        row_of(i, old(self).dims().width),
                        pixel_of(old(self).bytes(), i),
                    ),
                    #[trigger] pixel_of(final(self).bytes(), i),
                ),
    {
        let width = self.dimensions.width;
        let len = self.data.len();
        let n = len / 4;
        let ghost h = self.dimensions.height as nat;
        assert(n == width * h);
        let mut i: usize = 0;
        while i < n
            invariant
                n == old(self).count(),
                n == width * h,
                n * 4 == self.data@.len(),
                len == self.data@.len(),
                self.dimensions == old(self).dimensions,
                width == self.dimensions.width,
                i <= n,
                forall|x: u32, y: u32, p: Rgba8| call_requires(f, (x, y, p)),
                forall|j: int|
                    0 <= j < i ==> call_ensures(
                        f,
                        (column_of(j, width), row_of(j, width), pixel_of(old(self).bytes(), j)),
                        #[trigger] pixel_of(self.data@, j),
                    ),
                forall|j: int| 4 * i <= j < 4 * n ==> self.data@[j] == old(self).bytes()[j],
            decreases n - i,
        {
            assert(width > 0) by {
                if width == 0 {
                    assert(n == 0) by (nonlinear_arith)
                        requires
                            width == 0,
                            n == width * h,
                    ;
                }
            }
            let index = #[verifier::truncate] (i as u32);
            let x = index % width;
            let y = index / width;
            let o = 4 * i;
            let current = Rgba8 {
                r: self.data[o],
                g: self.data[o + 1],
                b: self.data[o + 2],
                a: self.data[o + 3],
            };
            assert(current == pixel_of(old(self).bytes(), i as int));
            let out = f(x, y, current);
            let ghost before = self.data@;
            self.data.set(o, out.r);
            self.data.set(o + 1, out.g);
            self.data.set(o + 2, out.b);
            self.data.set(o + 3, out.a);
            assert forall|j: int| 0 <= j < i + 1 implies call_ensures(
                f,
                (column_of(j, width), row_of(j, width), pixel_of(old(self).bytes(), j)),
                #[trigger] pixel_of(self.data@, j),
            ) by {
                if j < i {
                    assert(pixel_of(self.data@, j) == pixel_of(before, j));
                } else {
                    assert(pixel_of(self.data@, j) == out);
                }
            }
            i = i + 1;
        }
    }

    /// Whether at least one pixel is not fully opaque.
    pub fn has_transparency(&self) -> (r: bool)
        requires
            self.wf(),
        ensures
            r == self.spec_has_transparency(),
    {
        let len = self.data.len();
        let n = len / 4;
        let mut i: usize = 0;
        while i < n
            invariant
                n == self.count(),
                len == self.bytes().len(),
                self.wf(),
                i <= n,
                forall|j: int| 0 <= j < i ==> (#[trigger] pixel_of(self.bytes(), j)).a == 255,
            decreases n - i,
        {
            if self.data[4 * i + 3] != 255 {
                assert(pixel_of(self.bytes(), i as int).a != 255);
                return true;
            }
            i = i + 1;
        }
        false
    }

    /// Flattens transparency onto an opaque background (formats without an
    /// alpha channel).
    pub fn flatten_onto(&mut self, background: Rgba8)
        requires
            old(self).wf(),
        ensures
            final(self).wf(),
            final(self).dims() == old(self).dims(),
            forall|i: int|
                0 <= i < old(self).count() ==> #[trigger] pixel_of(final(self).bytes(), i)
                    == pixel_of(old(self).bytes(), i).spec_over(background),
            final(self).bytes() == flattened(old(self).bytes(), background),
    {
        let ghost before = self.bytes();
        if !self.has_transparency() {
            assert(self.bytes() =~= flattened(before, background)) by {
                assert forall|j: int| 0 <= j < before.len() implies #[trigger] before[j] == channel(
                    pixel_of(before, j / 4).spec_over(background),
                    j % 4,
                ) by {
                    let i = j / 4;
                    assert(0 <= i < self.count());
                    assert(pixel_of(before, i).a == 255);
                }
            }
            return;
        }
        self.map_pixels(
            |x: u32, y: u32, p: Rgba8| -> (q: Rgba8) ensures q == p.spec_over(background) { p.over(background) },
        );
        assert(self.bytes() =~= flattened(before, background)) by {
            assert forall|j: int| 0 <= j < before.len() implies #[trigger] self.bytes()[j] == channel(
                pixel_of(before, j / 4).spec_over(background),
                j % 4,
            ) by {
                let i = j / 4;
                assert(0 <= i < self.count());
                assert(pixel_of(self.bytes(), i) == pixel_of(before, i).spec_over(background));
            }
        }
    }
}

// ---------------------------------------------------------------------------
// Laws
// ---------------------------------------------------------------------------

/// A pixel written at `(x, y)` is read back there; every other pixel keeps
/// its value.
pub proof fn pixel_read_after_write(
    before: PixelBuffer,
    after: PixelBuffer,
    x: u32,
    y: u32,
    p: Rgba8,
    u: u32,
    v: u32,
)
    requires
        before.wf(),
        after.dims() == before.dims(),
        x < before.dims().width,
        y < before.dims().height,
        after.bytes() == with_pixel(before.bytes(), y * before.dims().width + x, p),
    ensures
        after.spec_pixel(u, v) == (if u == x && v == y {
            Some(p)
        } else {
            before.spec_pixel(u, v)
        }),
{
    let w = before.dims().width;
    let h = before.dims().height;
    if u < w && v < h {
        let i = v * w + u;
        let k = y * w + x;
        assert(0 <= k < w * h && 0 <= i < w * h) by (nonlinear_arith)
            requires
                x < w,
                y < h,
                u < w,
                v < h,
                i == v * w + u,
                k == y * w + x,
        ;
        if u != x || v != y {
            assert(i != k) by (nonlinear_arith)
                requires
                    x < w,
                    u < w,
                    i == v * w + u,
                    k == y * w + x,
                    u != x || v != y,
            ;
            assert(pixel_of(after.bytes(), i) == pixel_of(before.bytes(), i));
        }
    }
}

/// A flattened image is fully opaque.
pub proof fn flattened_is_opaque(bytes: Seq<u8>, background: Rgba8, i: int)
    requires
        bytes.len() % 4 == 0,
        0 <= i < bytes.len() / 4,
    ensures
        pixel_of(flattened(bytes, background), i).a == 255,
{
    assert(flattened(bytes, background)[4 * i + 3] == channel(
        pixel_of(bytes, (4 * i + 3) / 4).spec_over(background),
        (4 * i + 3) % 4,
    ));
}

/// Flattening an image a second time changes nothing.
pub proof fn flatten_is_idempotent(bytes: Seq<u8>, background: Rgba8)
    requires
        bytes.len() % 4 == 0,
    ensures
        flattened(flattened(bytes, background), background) == flattened(bytes, background),
{
    let once = flattened(bytes, background);
    assert forall|j: int| 0 <= j < once.len() implies #[trigger] flattened(once, background)[j]
        == once[j] by {
        let i = j / 4;
        assert(pixel_of(once, i) == pixel_of(bytes, i).spec_over(background)) by {
            assert(once[4 * i] == channel(pixel_of(bytes, i).spec_over(background), 0));
            assert(once[4 * i + 1] == channel(pixel_of(bytes, i).spec_over(background), 1));
            assert(once[4 * i + 2] == channel(pixel_of(bytes, i).spec_over(background), 2));
            assert(once[4 * i + 3] == channel(pixel_of(bytes, i).spec_over(background), 3));
        }
    }
    assert(flattened(once, background) =~= once);
}

/// An opaque pixel is unchanged by compositing.
pub proof fn opaque_over_is_unchanged(p: Rgba8, background: Rgba8)
    requires
        p.a == 255,
    ensures
        p.spec_over(background) == p,
{
}

/// A fully transparent pixel takes the colour of the background, opaque.
pub proof fn transparent_over_shows_background(p: Rgba8, background: Rgba8)
    requires
        p.a == 0,
    ensures
        p.spec_over(background) == (Rgba8 { r: background.r, g: background.g, b: background.b, a: 255 }),
{
}

/// The luminance of a grey is its level.
pub proof fn grey_luminance_is_its_level(level: u8, a: u8)
    ensures
        (Rgba8 { r: level, g: level, b: level, a }).spec_luminance() == level,
{
    let l = level as nat;
    let red = single((LUMA_RED * l) as nat);
    let green = single((LUMA_GREEN * l) as nat);
    let blue = single((LUMA_BLUE * l) as nat);
    let partial = single(red + green);
    let y = single(partial + blue);
    lemma_single_close((LUMA_RED * l) as nat);
    lemma_single_close((LUMA_GREEN * l) as nat);
    lemma_single_close((LUMA_BLUE * l) as nat);
    lemma_single_close(red + green);
    lemma_single_close(partial + blue);
    // The weights add up to 2^27 + 1, and five roundings of relative size
    // 2^-24 move the total by far less than half a unit.
    assert(l * 0x800_0000 <= y + 0x400_0000 < (l + 1) * 0x800_0000);
}

/// Single-precision rounding moves a number by at most `n / 2^24`.
proof fn lemma_single_close(n: nat)
    ensures
        16777216 * single(n) <= 16777217 * n,
        16777215 * n <= 16777216 * single(n),
{
    lemma_rounded_close(n, 24);
    reveal_with_fuel(two_to, 25);
}

/// Shrinking to fit a box brings the longest side to the box exactly and
/// keeps both sides between 1 and the box.
pub proof fn scaled_to_fit_fills_the_box(d: Dimensions, max_side: u32)
    requires
        d.width > 0,
        d.height > 0,
        d.spec_scaled_to_fit(max_side) is Some,
    ensures
        d.spec_scaled_to_fit(max_side)->0.spec_longest_side() == max_side,
        1 <= d.spec_scaled_to_fit(max_side)->0.width <= max_side,
        1 <= d.spec_scaled_to_fit(max_side)->0.height <= max_side,
{
    let l = d.spec_longest_side();
    lemma_scaled_side(d.width, max_side, l);
    lemma_scaled_side(d.height, max_side, l);
}

/// Shrinking to fit a box never makes a positive side longer.
pub proof fn shrinking_never_enlarges(dims: Dimensions, max_side: u32)
    requires
        dims.width > 0,
        dims.height > 0,
        dims.spec_scaled_to_fit(max_side) is Some,
    ensures
        dims.spec_scaled_to_fit(max_side)->0.width <= dims.width,
        dims.spec_scaled_to_fit(max_side)->0.height <= dims.height,
{
    let l = dims.spec_longest_side();
    lemma_scaled_side(dims.width, max_side, l);
    lemma_scaled_side(dims.height, max_side, l);
}

} // verus!
