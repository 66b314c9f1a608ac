//! Filter `noir-blanc` — binary threshold.
//!
//! ```text
//! if r > white_level and g > white_level and b > white_level:
//!     pixel <- (255, 255, 255)
//! else:
//!     pixel <- (0, 0, 0)
//! ```
//!
//! The default mode compares the three components separately. The parameter
//! `mode=luminance` offers the usual variant in image processing: comparing
//! the perceived luminance of the pixel.

use vstd::prelude::*;

use crate::model::error::FiltroError;
use crate::model::filter::contract::{
    boxed_filter, spec_boxed, Filter, FilterContext, FilterRequirements,
};
use crate::model::filter::registry::{is_invalid, not_a_text, FilterFactory, FilterParams, ParamSpec};
use crate::model::pixel::{
    grey_luminance_is_its_level, lemma_mapped, lemma_pixel_of_mapped, mapped, pixel_of, Dimensions,
    PixelBuffer, Rgba8,
};
use crate::text::{lowercase, str_eq, str_to_string, to_lowercase, trim, trim_str};

verus! {

/// How to decide whether a pixel is light.
#[derive(Debug, Clone, Copy, PartialEq, Eq, Structural)]
pub enum ThresholdMode {
    /// The three components must exceed the threshold (default mode).
    Channels,
    /// The perceived luminance must exceed the threshold.
    Luminance,
}

/// The mode a word names, once trimmed and lower-cased: `canaux` or
/// `channels`, `luminance`.
pub open spec fn mode_named(raw: Seq<char>) -> Option<ThresholdMode> {
    let w = lowercase(trim(raw));
    if w == "canaux"@ || w == "channels"@ {
        Some(ThresholdMode::Channels)
    } else if w == "luminance"@ {
        Some(ThresholdMode::Luminance)
    } else {
        None
    }
}

impl ThresholdMode {
    /// Whether `pixel` is light for the threshold `level`.
    pub open spec fn spec_is_light(self, pixel: Rgba8, level: u8) -> bool {
        match self {
            ThresholdMode::Channels => pixel.r > level && pixel.g > level && pixel.b > level,
            ThresholdMode::Luminance => pixel.spec_luminance() > level,
        }
    }

    fn parse(raw: &str) -> (r: Option<Self>)
        ensures
            r == mode_named(raw@),
    {
        let lowered = to_lowercase(trim_str(raw));
        let w = lowered.as_str();
        if str_eq(w, "canaux") || str_eq(w, "channels") {
            Some(ThresholdMode::Channels)
        } else if str_eq(w, "luminance") {
            Some(ThresholdMode::Luminance)
        } else {
            None
        }
    }

    fn is_light(self, pixel: Rgba8, level: u8) -> (b: bool)
        ensures
            b == self.spec_is_light(pixel, level),
    {
        match self {
            ThresholdMode::Channels => pixel.r > level && pixel.g > level && pixel.b > level,
            ThresholdMode::Luminance => pixel.luminance() > level,
        }
    }
}

/// What the threshold makes of one pixel: `light` or `dark` according to
/// `mode`, the alpha kept.
pub open spec fn thresholded(p: Rgba8, level: u8, mode: ThresholdMode, light: Rgba8, dark: Rgba8) -> Rgba8 {
    let chosen = if mode.spec_is_light(p, level) {
        light
    } else {
        dark
    };
    Rgba8 { r: chosen.r, g: chosen.g, b: chosen.b, a: p.a }
}

/// [`thresholded`] as a function of the pixel.
pub open spec fn thresholding(level: u8, mode: ThresholdMode, light: Rgba8, dark: Rgba8) -> spec_fn(
    Rgba8,
) -> Rgba8 {
    |p: Rgba8| thresholded(p, level, mode, light, dark)
}

/// Binary threshold: each pixel becomes light or dark.
#[derive(Debug, Clone)]
pub struct BlackAndWhiteFilter {
    level: u8,
    mode: ThresholdMode,
    light: Rgba8,
    dark: Rgba8,
}

impl BlackAndWhiteFilter {
    /// The threshold.
    pub closed spec fn spec_level(&self) -> u8 {
        self.level
    }

    /// How lightness is decided.
    pub closed spec fn spec_mode(&self) -> ThresholdMode {
        self.mode
    }

    /// The colour of the light pixels.
    pub closed spec fn spec_light(&self) -> Rgba8 {
        self.light
    }

    /// The colour of the dark pixels.
    pub closed spec fn spec_dark(&self) -> Rgba8 {
        self.dark
    }

    fn threshold(&self, pixel: Rgba8) -> (q: Rgba8)
        ensures
            q == thresholded(
                pixel,
                self.spec_level(),
                self.spec_mode(),
                self.spec_light(),
                self.spec_dark(),
            ),
    {
        let chosen = if self.mode.is_light(pixel, self.level) {
            self.light
        } else {
            self.dark
        };
        Rgba8 { r: chosen.r, g: chosen.g, b: chosen.b, a: pixel.a }
    }
}

impl Filter for BlackAndWhiteFilter {
    open spec fn spec_id(&self) -> Seq<char> {
        "noir-blanc"@
    }

    open spec fn spec_requirements(&self) -> FilterRequirements {
        FilterRequirements::none()
    }

    open spec fn spec_output(&self, dims: Dimensions, bytes: Seq<u8>, ctx: FilterContext) -> (
        Dimensions,
        Seq<u8>,
    ) {
        (
            dims,
            mapped(
                bytes,
                thresholding(self.spec_level(), self.spec_mode(), self.spec_light(), self.spec_dark()),
            ),
        )
    }

    fn id(&self) -> (s: &str) {
        "noir-blanc"
    }

    fn requirements(&self) -> (r: FilterRequirements) {
        FilterRequirements::default()
    }

    fn apply(&self, canvas: &mut PixelBuffer, ctx: &FilterContext) -> (r: Result<(), FiltroError>) {
        let ghost before = canvas.bytes();
        canvas.map_pixels(
            |x: u32, y: u32, p: Rgba8| -> (q: Rgba8) ensures q == thresholded(p, self.spec_level(), self.spec_mode(), self.spec_light(), self.spec_dark()) { self.threshold(p) },
        );
        proof {
            lemma_mapped(
                before,
                canvas.bytes(),
                thresholding(self.spec_level(), self.spec_mode(), self.spec_light(), self.spec_dark()),
            );
        }
        Ok(())
    }
}

/// The parameters of the `noir-blanc` filter.
pub open spec fn threshold_param_specs() -> Seq<ParamSpec> {
    seq![
        ParamSpec { name: "niveau", default: "180", help: "seuil (0-255) séparant le clair du sombre" },
        ParamSpec {
            name: "mode",
            default: "canaux",
            help: "canaux (comparaison composante par composante) ou luminance",
        },
        ParamSpec {
            name: "clair",
            default: "ffffff",
            help: "couleur hexadécimale des pixels au-dessus du seuil",
        },
        ParamSpec {
            name: "sombre",
            default: "000000",
            help: "couleur hexadécimale des pixels en dessous du seuil",
        },
    ]
}

fn threshold_params() -> (p: &'static [ParamSpec])
    ensures
        p@ == threshold_param_specs(),
{
    let specs: &'static [ParamSpec; 4] = &[
        ParamSpec { name: "niveau", default: "180", help: "seuil (0-255) séparant le clair du sombre" },
        ParamSpec {
            name: "mode",
            default: "canaux",
            help: "canaux (comparaison composante par composante) ou luminance",
        },
        ParamSpec {
            name: "clair",
            default: "ffffff",
            help: "couleur hexadécimale des pixels au-dessus du seuil",
        },
        ParamSpec {
            name: "sombre",
            default: "000000",
            help: "couleur hexadécimale des pixels en dessous du seuil",
        },
    ];
    specs.as_slice()
}

/// The level, mode, light and dark colours the threshold takes from
/// `params`, when all four are valid.
pub open spec fn threshold_configured(params: FilterParams) -> Option<
    (u8, ThresholdMode, Rgba8, Rgba8),
> {
    match (
        mode_named(params.spec_text("mode"@, "canaux"@)),
        params.spec_unsigned("niveau"@, 180, 255),
        params.spec_color("clair"@, Rgba8 { r: 255, g: 255, b: 255, a: 255 }),
        params.spec_color("sombre"@, Rgba8 { r: 0, g: 0, b: 0, a: 255 }),
    ) {
        (Some(m), Some(l), Some(c), Some(d)) => Some((l as u8, m, c, d)),
        _ => None,
    }
}

/// The error with which `params` are refused: the first invalid of `mode`,
/// `niveau`, `clair` and `sombre`, in that order.
pub open spec fn threshold_refused_with(params: FilterParams, e: FiltroError) -> bool {
    if mode_named(params.spec_text("mode"@, "canaux"@)) is None {
        is_invalid(
            e,
            "noir-blanc"@,
            "mode"@,
            "« "@ + params.spec_text("mode"@, "canaux"@)
                + " » inconnu (attendu : canaux ou luminance)"@,
        )
    } else if params.spec_unsigned("niveau"@, 180, 255) is None {
        is_invalid(
            e,
            params.spec_filter(),
            "niveau"@,
            not_a_text(params.lookup("niveau"@)->0, "un entier entre 0 et 255"@),
        )
    } else if params.spec_color("clair"@, Rgba8 { r: 255, g: 255, b: 255, a: 255 }) is None {
        is_invalid(
            e,
            params.spec_filter(),
            "clair"@,
            "« "@ + params.lookup("clair"@)->0 + " » n'est pas une couleur hexadécimale (ex. fefe01)"@,
        )
    } else {
        is_invalid(
            e,
            params.spec_filter(),
            "sombre"@,
            "« "@ + params.lookup("sombre"@)->0
                + " » n'est pas une couleur hexadécimale (ex. fefe01)"@,
        )
    }
}

/// Factory of the `noir-blanc` filter.
#[derive(Debug, Clone, Copy)]
pub struct BlackAndWhiteFactory;

impl BlackAndWhiteFactory {
    /// Reads the parameters and configures the filter: `mode` (default
    /// `canaux`), `niveau` (default 180), `clair` (default white) and
    /// `sombre` (default black).
    pub fn configure(&self, params: &FilterParams) -> (r: Result<BlackAndWhiteFilter, FiltroError>)
        ensures
            r is Ok <==> threshold_configured(*params) is Some,
            r matches Ok(f) ==> (f.spec_level(), f.spec_mode(), f.spec_light(), f.spec_dark())
                == threshold_configured(*params)->0,
            r matches Ok(f) ==> f == threshold_filter(*params),
            r matches Err(e) ==> threshold_refused_with(*params, e),
    {
        let raw_mode = params.text("mode", "canaux");
        let mode = match ThresholdMode::parse(raw_mode) {
            Some(m) => m,
            None => {
                let mut reason = str_to_string("« ");
                reason.append(raw_mode);
                reason.append(" » inconnu (attendu : canaux ou luminance)");
                return Err(
                    FiltroError::InvalidParameter {
                        filter: str_to_string("noir-blanc"),
                        name: str_to_string("mode"),
                        reason,
                    },
                );
            },
        };
        let level = match params.u8("niveau", 180) {
            Ok(v) => v,
            Err(e) => return Err(e),
        };
        let light = match params.color("clair", Rgba8::WHITE()) {
            Ok(c) => c,
            Err(e) => return Err(e),
        };
        let dark = match params.color("sombre", Rgba8::BLACK()) {
            Ok(c) => c,
            Err(e) => return Err(e),
        };
        Ok(BlackAndWhiteFilter { level, mode, light, dark })
    }
}

/// The threshold filter configured from accepted `params`.
pub closed spec fn threshold_filter(params: FilterParams) -> BlackAndWhiteFilter {
    let t = threshold_configured(params)->0;
    BlackAndWhiteFilter { level: t.0, mode: t.1, light: t.2, dark: t.3 }
}

/// What the configured threshold filter holds: the level, mode, light and
/// dark colours read from the parameters (or their defaults).
pub proof fn lemma_threshold_filter(params: FilterParams)
    requires
        threshold_configured(params) is Some,
    ensures
        threshold_configured(params) == Some(
            (
                threshold_filter(params).spec_level(),
                threshold_filter(params).spec_mode(),
                threshold_filter(params).spec_light(),
                threshold_filter(params).spec_dark(),
            ),
        ),
{
}

impl FilterFactory for BlackAndWhiteFactory {
    open spec fn spec_id(&self) -> Seq<char> {
        "noir-blanc"@
    }

    open spec fn spec_parameters(&self) -> Seq<ParamSpec> {
        threshold_param_specs()
    }

    open spec fn spec_accepts(&self, params: FilterParams) -> bool {
        threshold_configured(params) is Some
    }

    fn id(&self) -> (s: &'static str) {
        "noir-blanc"
    }

    fn description(&self) -> (s: &'static str)
        ensures
            s@ == "Seuillage binaire : chaque pixel devient clair ou sombre"@,
    {
        "Seuillage binaire : chaque pixel devient clair ou sombre"
    }

    fn parameters(&self) -> (p: &'static [ParamSpec]) {
        threshold_params()
    }

    fn build(&self, params: &FilterParams) -> (r: Result<Box<dyn Filter>, FiltroError>)
        ensures
            r is Ok ==> r == Ok::<Box<dyn Filter>, FiltroError>(
                spec_boxed(threshold_filter(*params)),
            ),
            r matches Err(e) ==> threshold_refused_with(*params, e),
    {
        match self.configure(params) {
            Ok(f) => Ok(boxed_filter(f)),
            Err(e) => Err(e),
        }
    }
}

// ---------------------------------------------------------------------------
// Laws
// ---------------------------------------------------------------------------

/// The threshold keeps the alpha of every pixel and gives it the colour of
/// `light` or of `dark`.
pub proof fn threshold_is_binary(p: Rgba8, level: u8, mode: ThresholdMode, light: Rgba8, dark: Rgba8)
    ensures
        thresholded(p, level, mode, light, dark).a == p.a,
        ({
            let q = thresholded(p, level, mode, light, dark);
            (q.r, q.g, q.b) == (light.r, light.g, light.b) || (q.r, q.g, q.b) == (
                dark.r,
                dark.g,
                dark.b,
            )
        }),
{
}

/// A grey is light, in either mode, exactly when its level exceeds the
/// threshold.
pub proof fn grey_threshold_is_mode_free(v: u8, a: u8, level: u8)
    ensures
        ThresholdMode::Channels.spec_is_light(Rgba8 { r: v, g: v, b: v, a }, level) == (v > level),
        ThresholdMode::Luminance.spec_is_light(Rgba8 { r: v, g: v, b: v, a }, level) == (v > level),
{
    grey_luminance_is_its_level(v, a);
}

/// In channel mode a pixel turns light exactly when each of its red, green
/// and blue components exceeds the level: one component at or below it
/// makes the pixel dark. The alpha is kept either way.
pub proof fn channel_threshold_needs_every_component(p: Rgba8, level: u8, light: Rgba8, dark: Rgba8)
    ensures
        p.r > level && p.g > level && p.b > level ==> thresholded(
            p,
            level,
            ThresholdMode::Channels,
            light,
            dark,
        ) == (Rgba8 { r: light.r, g: light.g, b: light.b, a: p.a }),
        p.r <= level || p.g <= level || p.b <= level ==> thresholded(
            p,
            level,
            ThresholdMode::Channels,
            light,
            dark,
        ) == (Rgba8 { r: dark.r, g: dark.g, b: dark.b, a: p.a }),
{
}

/// A threshold filter in channel mode gives, at every pixel of the image,
/// the dark colour wherever one of the pixel's red, green or blue
/// components is at or below its level, and the light colour elsewhere.
pub proof fn channel_threshold_filter_on_images(
    f: BlackAndWhiteFilter,
    dims: Dimensions,
    bytes: Seq<u8>,
    ctx: FilterContext,
    i: int,
)
    requires
        f.spec_mode() == ThresholdMode::Channels,
        0 <= i < bytes.len() / 4,
    ensures
        ({
            let p = pixel_of(bytes, i);
            let q = pixel_of(f.spec_output(dims, bytes, ctx).1, i);
            let chosen = if p.r > f.spec_level() && p.g > f.spec_level() && p.b > f.spec_level() {
                f.spec_light()
            } else {
                f.spec_dark()
            };
            q == (Rgba8 { r: chosen.r, g: chosen.g, b: chosen.b, a: p.a })
        }),
{
    let g = thresholding(f.spec_level(), f.spec_mode(), f.spec_light(), f.spec_dark());
    lemma_pixel_of_mapped(bytes, g, i);
    channel_threshold_needs_every_component(
        pixel_of(bytes, i),
        f.spec_level(),
        f.spec_light(),
        f.spec_dark(),
    );
}

} // verus!
