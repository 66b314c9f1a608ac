//! The red filter on a bare RGB image (three bytes per pixel, row after
//! row), without alpha and without parameters.

use vstd::prelude::*;

use crate::filters::color::{default_orders, letters, recolored, Channel};
use crate::model::pixel::Rgba8;

verus! {

/// What the red filter makes of one RGB pixel: white becomes red
/// `(254, 1, 1)`, any other pixel has its colours permuted to `(b, r, g)`.
pub open spec fn reddened(r: u8, g: u8, b: u8, niveau_blanc: u8) -> (u8, u8, u8) {
    if r > niveau_blanc && g > niveau_blanc && b > niveau_blanc {
        (254, 1, 1)
    } else {
        (b, r, g)
    }
}

/// Component `k` (0, 1 or 2) of a colour triple.
pub open spec fn component(c: (u8, u8, u8), k: int) -> u8 {
    if k == 0 {
        c.0
    } else if k == 1 {
        c.1
    } else {
        c.2
    }
}

/// The bytes of an RGB image whose every pixel went through the red filter.
pub open spec fn reddened_bytes(bytes: Seq<u8>, niveau_blanc: u8) -> Seq<u8> {
    Seq::new(
        bytes.len(),
        |j: int|
            component(
                reddened(
                    bytes[3 * (j / 3)],
                    bytes[3 * (j / 3) + 1],
                    bytes[3 * (j / 3) + 2],
                    niveau_blanc,
                ),
                j % 3,
            ),
    )
}

/// Applies the red filter to every pixel of an RGB image of
/// `largeur_img × hauteur_img` pixels.
pub fn filtre_rouge(img: &mut Vec<u8>, largeur_img: u32, hauteur_img: u32, niveau_blanc: u8)
    requires
        old(img)@.len() == largeur_img * hauteur_img * 3,
    ensures
        final(img)@ == reddened_bytes(old(img)@, niveau_blanc),
{
    let ghost before = img@;
    let n = img.len();
    let w = largeur_img as usize;
    let h = hauteur_img as usize;
    let mut y: usize = 0;
    while y < h
        invariant
            w == largeur_img,
            h == hauteur_img,
            before.len() == w * h * 3,
            img@.len() == before.len(),
            n == before.len(),
            y <= h,
            forall|j: int| 0 <= j < 3 * (y * w) ==> #[trigger] img@[j] == reddened_bytes(before, niveau_blanc)[j],
            forall|j: int| 3 * (y * w) <= j < img@.len() ==> #[trigger] img@[j] == before[j],
        decreases h - y,
    {
        let mut x: usize = 0;
        proof {
            assert((y + 1) * w <= h * w) by (nonlinear_arith)
                requires
                    y < h,
            ;
            assert((y + 1) * w == y * w + w) by (nonlinear_arith);
            assert(h * w == w * h) by (nonlinear_arith);
        }
        while x < w
            invariant
                w == largeur_img,
                h == hauteur_img,
                before.len() == w * h * 3,
                img@.len() == before.len(),
                n == before.len(),
                y < h,
                x <= w,
                (y + 1) * w <= w * h,
                (y + 1) * w == y * w + w,
                forall|j: int| 0 <= j < 3 * (y * w + x) ==> #[trigger] img@[j] == reddened_bytes(before, niveau_blanc)[j],
                forall|j: int| 3 * (y * w + x) <= j < img@.len() ==> #[trigger] img@[j] == before[j],
            decreases w - x,
        {
            proof {
                assert(y * w + x < w * h);
                assert(3 * (y * w + x) + 2 < img@.len()) by (nonlinear_arith)
                    requires
                        y * w + x < w * h,
                        img@.len() == w * h * 3,
                ;
            }
            let o = 3 * (y * w + x);
            let r = img[o];
            let v = img[o + 1];
            let b = img[o + 2];
            let (nr, nv, nb) = if r > niveau_blanc && v > niveau_blanc && b > niveau_blanc {
                (254u8, 1u8, 1u8)
            } else {
                (b, r, v)
            };
            img.set(o, nr);
            img.set(o + 1, nv);
            img.set(o + 2, nb);
            proof {
                assert forall|j: int| 0 <= j < 3 * (y * w + x + 1) implies #[trigger] img@[j]
                    == reddened_bytes(before, niveau_blanc)[j] by {
                    if j >= o {
                        assert(j / 3 == y * w + x);
                    }
                }
            }
            x = x + 1;
        }
        y = y + 1;
    }
    proof {
        assert(3 * (h * w) == img@.len()) by (nonlinear_arith)
            requires
                img@.len() == w * h * 3,
        ;
        assert(img@ =~= reddened_bytes(before, niveau_blanc));
    }
}

/// On every pixel, the RGB red filter does what the `rouge` filter does
/// with its defaults (colour `fe0101`, word `brv`), alpha aside.
pub proof fn rgb_red_agrees_with_rouge(r: u8, g: u8, b: u8, a: u8, niveau_blanc: u8)
    ensures
        letters("brv"@) == Some((Channel::B, Channel::R, Channel::V)),
        ({
            let q = recolored(
                Rgba8 { r, g, b, a },
                niveau_blanc,
                Rgba8 { r: 254, g: 1, b: 1, a: 255 },
                (Channel::B, Channel::R, Channel::V),
            );
            (q.r, q.g, q.b)
        }) == reddened(r, g, b, niveau_blanc),
{
    default_orders();
}

} // verus!
