//! Colour filters: `jaune`, `vert`, `rouge`.
//!
//! The three filters do the same thing up to two constants:
//!
//! ```text
//! if r > white_level and g > white_level and b > white_level:
//!     pixel <- (254, 254, 1)     // white becomes a colour
//! else:
//!     pixel <- (b, g, r)         // the other pixels are permuted
//! ```
//!
//! One type covers the three filters: only the replacement colour and the
//! default permutation change.

use vstd::prelude::*;

use crate::model::error::FiltroError;
use crate::model::filter::contract::{boxed_filter, spec_boxed, Filter, FilterContext, FilterRequirements};
use crate::model::filter::registry::{is_invalid, not_a_text, FilterFactory, FilterParams, ParamSpec};
use crate::model::pixel::{lemma_mapped, mapped, Dimensions, PixelBuffer, Rgba8};
use crate::text::{lemma_plain_word, lowercase, str_to_string, to_lowercase, trim, trim_str};

verus! {

// ---------------------------------------------------------------------------
// Channel permutation
// ---------------------------------------------------------------------------

/// A source channel.
#[derive(Debug, Clone, Copy, PartialEq, Eq, Structural)]
pub enum Channel {
    R,
    V,
    B,
}

/// The channel a letter names: `r`, `v` or `g`, `b`.
pub open spec fn channel_named(c: char) -> Option<Channel> {
    if c == 'r' {
        Some(Channel::R)
    } else if c == 'v' || c == 'g' {
        Some(Channel::V)
    } else if c == 'b' {
        Some(Channel::B)
    } else {
        None
    }
}

/// The value of `channel` in `p`.
pub open spec fn take(channel: Channel, p: Rgba8) -> u8 {
    match channel {
        Channel::R => p.r,
        Channel::V => p.g,
        Channel::B => p.b,
    }
}

/// The three channels a word names, once trimmed and lower-cased: exactly
/// three letters among `r`, `v`/`g`, `b`.
pub open spec fn letters(raw: Seq<char>) -> Option<(Channel, Channel, Channel)> {
    let w = lowercase(trim(raw));
    if w.len() == 3 && channel_named(w[0]) is Some && channel_named(w[1]) is Some && channel_named(
        w[2],
    ) is Some {
        Some((channel_named(w[0])->0, channel_named(w[1])->0, channel_named(w[2])->0))
    } else {
        None
    }
}

/// `p` with its red, green and blue taken from the channels of `order`; the
/// alpha is kept.
pub open spec fn permuted(order: (Channel, Channel, Channel), p: Rgba8) -> Rgba8 {
    Rgba8 { r: take(order.0, p), g: take(order.1, p), b: take(order.2, p), a: p.a }
}

fn channel_of(c: char) -> (r: Option<Channel>)
    ensures
        r == channel_named(c),
{
    if c == 'r' {
        Some(Channel::R)
    } else if c == 'v' || c == 'g' {
        Some(Channel::V)
    } else if c == 'b' {
        Some(Channel::B)
    } else {
        None
    }
}

fn take_channel(channel: Channel, p: Rgba8) -> (v: u8)
    ensures
        v == take(channel, p),
{
    match channel {
        Channel::R => p.r,
        Channel::V => p.g,
        Channel::B => p.b,
    }
}

/// A reassignment of the three channels, written as a three-letter word.
///
/// `bvr` means: the output red takes the input blue, green stays green, blue
/// takes red — the pixel `(b, g, r)`.
#[derive(Debug, Clone, Copy, PartialEq, Eq, Structural)]
pub struct ChannelOrder(Channel, Channel, Channel);

impl View for ChannelOrder {
    type V = (Channel, Channel, Channel);

    closed spec fn view(&self) -> (Channel, Channel, Channel) {
        (self.0, self.1, self.2)
    }
}

impl ChannelOrder {
    /// No permutation (`rvb`).
    #[allow(non_snake_case)]
    pub fn IDENTITY() -> (o: Self)
        ensures
            o@ == (Channel::R, Channel::V, Channel::B),
    {
        ChannelOrder(Channel::R, Channel::V, Channel::B)
    }

    /// Reads a word of three letters among `r`, `v`/`g`, `b`.
    pub fn parse(raw: &str) -> (r: Option<Self>)
        ensures
            match letters(raw@) {
                Some(t) => r matches Some(o) && o@ == t,
                None => r is None,
            },
    {
        let lowered = to_lowercase(trim_str(raw));
        let w = lowered.as_str();
        if w.unicode_len() != 3 {
            return None;
        }
        let first = channel_of(w.get_char(0));
        let second = channel_of(w.get_char(1));
        let third = channel_of(w.get_char(2));
        match (first, second, third) {
            (Some(a), Some(b), Some(c)) => Some(ChannelOrder(a, b, c)),
            _ => None,
        }
    }

    /// Applies the permutation; the alpha is always kept.
    pub fn apply(self, pixel: Rgba8) -> (q: Rgba8)
        ensures
            q == permuted(self@, pixel),
    {
        Rgba8::new(
            take_channel(self.0, pixel),
            take_channel(self.1, pixel),
            take_channel(self.2, pixel),
            pixel.a,
        )
    }
}

// ---------------------------------------------------------------------------
// The filter
// ---------------------------------------------------------------------------

/// Whether the three components of `p` exceed `level`.
pub open spec fn whiter_than(p: Rgba8, level: u8) -> bool {
    p.r > level && p.g > level && p.b > level
}

/// What a colour filter makes of one pixel: a white pixel takes `color`
/// (its alpha kept), any other is permuted by `order`.
pub open spec fn recolored(p: Rgba8, level: u8, color: Rgba8, order: (Channel, Channel, Channel)) -> Rgba8 {
    if whiter_than(p, level) {
        Rgba8 { r: color.r, g: color.g, b: color.b, a: p.a }
    } else {
        permuted(order, p)
    }
}

/// [`recolored`] as a function of the pixel.
pub open spec fn recoloring(level: u8, color: Rgba8, order: (Channel, Channel, Channel)) -> spec_fn(
    Rgba8,
) -> Rgba8 {
    |p: Rgba8| recolored(p, level, color, order)
}

/// Replaces the light pixels by a colour, permutes the others.
#[derive(Debug, Clone)]
pub struct ColorFilter {
    id: &'static str,
    /// Threshold above which a pixel is seen as white.
    level: u8,
    /// The colour that replaces white.
    color: Rgba8,
    /// The permutation applied to the other pixels.
    order: ChannelOrder,
}

impl ColorFilter {
    /// The white threshold.
    pub closed spec fn spec_level(&self) -> u8 {
        self.level
    }

    /// The colour that replaces white.
    pub closed spec fn spec_color(&self) -> Rgba8 {
        self.color
    }

    /// The permutation of the other pixels.
    pub closed spec fn spec_order(&self) -> (Channel, Channel, Channel) {
        self.order@
    }

    /// The identifier of the filter.
    pub closed spec fn spec_name(&self) -> Seq<char> {
        self.id@
    }

    /// True when the three components exceed the threshold.
    fn is_white(&self, pixel: Rgba8) -> (b: bool)
        ensures
            b == whiter_than(pixel, self.spec_level()),
    {
        pixel.r > self.level && pixel.g > self.level && pixel.b > self.level
    }

    fn recolor(&self, pixel: Rgba8) -> (q: Rgba8)
        ensures
            q == recolored(pixel, self.spec_level(), self.spec_color(), self.spec_order()),
    {
        if self.is_white(pixel) {
            Rgba8 { r: self.color.r, g: self.color.g, b: self.color.b, a: pixel.a }
        } else {
            self.order.apply(pixel)
        }
    }
}

impl Filter for ColorFilter {
    open spec fn spec_id(&self) -> Seq<char> {
        self.spec_name()
    }

    open spec fn spec_requirements(&self) -> FilterRequirements {
        FilterRequirements::none()
    }

    open spec fn spec_output(&self, dims: Dimensions, bytes: Seq<u8>, ctx: FilterContext) -> (
        Dimensions,
        Seq<u8>,
    ) {
        (dims, mapped(bytes, recoloring(self.spec_level(), self.spec_color(), self.spec_order())))
    }

    fn id(&self) -> (s: &str) {
        self.id
    }

    fn requirements(&self) -> (r: FilterRequirements) {
        FilterRequirements::default()
    }

    fn apply(&self, canvas: &mut PixelBuffer, ctx: &FilterContext) -> (r: Result<(), FiltroError>) {
        let ghost before = canvas.bytes();
        canvas.map_pixels(
            |x: u32, y: u32, p: Rgba8| -> (q: Rgba8) ensures q == recolored(p, self.spec_level(), self.spec_color(), self.spec_order()) { self.recolor(p) },
        );
        proof {
            lemma_mapped(
                before,
                canvas.bytes(),
                recoloring(self.spec_level(), self.spec_color(), self.spec_order()),
            );
        }
        Ok(())
    }
}

// ---------------------------------------------------------------------------
// Factory
// ---------------------------------------------------------------------------

/// The parameters of a colour filter whose default colour is written
/// `couleur` and default permutation `permutation`.
pub open spec fn color_param_specs(couleur: &'static str, permutation: &'static str) -> Seq<
    ParamSpec,
> {
    seq![
        ParamSpec {
            name: "niveau",
            default: "180",
            help: "seuil (0-255) au-delà duquel un pixel est vu comme blanc",
        },
        ParamSpec {
            name: "couleur",
            default: couleur,
            help: "couleur hexadécimale remplaçant le blanc",
        },
        ParamSpec {
            name: "permutation",
            default: permutation,
            help: "réaffectation des canaux des autres pixels (ex. bvr)",
        },
    ]
}

/// The level, colour and permutation a colour filter takes from `params`,
/// when all three are valid.
pub open spec fn configured(params: FilterParams, default_color: Rgba8, default_order: Seq<char>) -> Option<
    (u8, Rgba8, (Channel, Channel, Channel)),
> {
    match (
        params.spec_unsigned("niveau"@, 180, 255),
        params.spec_color("couleur"@, default_color),
        letters(params.spec_text("permutation"@, default_order)),
    ) {
        (Some(l), Some(c), Some(o)) => Some((l as u8, c, o)),
        _ => None,
    }
}

/// The factory shared by the three colour filters.
///
/// Each filter is only a set of default values.
#[derive(Debug, Clone, Copy)]
pub struct ColorFilterFactory {
    id: &'static str,
    description: &'static str,
    color: Rgba8,
    order: &'static str,
    params: &'static [ParamSpec],
}

impl ColorFilterFactory {
    /// The identifier of the filters built.
    pub closed spec fn spec_name(&self) -> Seq<char> {
        self.id@
    }

    /// The one-line summary of the factory.
    pub closed spec fn spec_description(&self) -> Seq<char> {
        self.description@
    }

    /// The colour that replaces white when `couleur` is not given.
    pub closed spec fn spec_default_color(&self) -> Rgba8 {
        self.color
    }

    /// The permutation used when `permutation` is not given.
    pub closed spec fn spec_default_order(&self) -> Seq<char> {
        self.order@
    }

    /// The declared parameters.
    pub closed spec fn spec_param_specs(&self) -> Seq<ParamSpec> {
        self.params@
    }

    /// The error with which `params` are refused: the first invalid of
    /// `niveau`, `couleur` and `permutation`, in that order.
    pub open spec fn refused_with(&self, params: FilterParams, e: FiltroError) -> bool {
        if params.spec_unsigned("niveau"@, 180, 255) is None {
            is_invalid(
                e,
                params.spec_filter(),
                "niveau"@,
                not_a_text(params.lookup("niveau"@)->0, "un entier entre 0 et 255"@),
            )
        } else if params.spec_color("couleur"@, self.spec_default_color()) is None {
            is_invalid(
                e,
                params.spec_filter(),
                "couleur"@,
                "« "@ + params.lookup("couleur"@)->0
                    + " » n'est pas une couleur hexadécimale (ex. fefe01)"@,
            )
        } else {
            is_invalid(
                e,
                self.spec_name(),
                "permutation"@,
                "« "@ + params.spec_text("permutation"@, self.spec_default_order())
                    + " » n'est pas un mot de trois lettres parmi r, v, b"@,
            )
        }
    }

    /// Reads the parameters and configures the filter: `niveau` (default
    /// 180), `couleur` and `permutation` (defaults of the factory).
    pub fn configure(&self, params: &FilterParams) -> (r: Result<ColorFilter, FiltroError>)
        ensures
            r is Ok <==> configured(
                *params,
                self.spec_default_color(),
                self.spec_default_order(),
            ) is Some,
            r matches Ok(f) ==> f.spec_name() == self.spec_name() && (
                f.spec_level(),
                f.spec_color(),
                f.spec_order(),
            ) == configured(*params, self.spec_default_color(), self.spec_default_order())->0,
            r matches Ok(f) ==> f == self.configured_filter(*params),
            r matches Err(e) ==> self.refused_with(*params, e),
    {
        let level = match params.u8("niveau", 180) {
            Ok(v) => v,
            Err(e) => return Err(e),
        };
        let color = match params.color("couleur", self.color) {
            Ok(c) => c,
            Err(e) => return Err(e),
        };
        let raw_order = params.text("permutation", self.order);
        let order = match ChannelOrder::parse(raw_order) {
            Some(o) => o,
            None => {
                let mut reason = str_to_string("« ");
                reason.append(raw_order);
                reason.append(" » n'est pas un mot de trois lettres parmi r, v, b");
                return Err(
                    FiltroError::InvalidParameter {
                        filter: str_to_string(self.id),
                        name: str_to_string("permutation"),
                        reason,
                    },
                );
            },
        };
        Ok(ColorFilter { id: self.id, level, color, order })
    }
}

impl ColorFilterFactory {
    /// The colour filter this factory configures from accepted `params`:
    /// the factory's identifier, with the level, colour and permutation
    /// read from the parameters (or the factory's defaults).
    pub closed spec fn configured_filter(&self, params: FilterParams) -> ColorFilter {
        let t = configured(params, self.spec_default_color(), self.spec_default_order())->0;
        ColorFilter { id: self.id, level: t.0, color: t.1, order: ChannelOrder(t.2.0, t.2.1, t.2.2) }
    }

    /// What the configured filter holds: the factory's identifier and the
    /// configured level, colour and permutation.
    pub proof fn lemma_configured_filter(&self, params: FilterParams)
        requires
            configured(params, self.spec_default_color(), self.spec_default_order()) is Some,
        ensures
            self.configured_filter(params).spec_name() == self.spec_name(),
            configured(params, self.spec_default_color(), self.spec_default_order()) == Some(
                (
                    self.configured_filter(params).spec_level(),
                    self.configured_filter(params).spec_color(),
                    self.configured_filter(params).spec_order(),
                ),
            ),
    {
    }
}

impl FilterFactory for ColorFilterFactory {
    open spec fn spec_id(&self) -> Seq<char> {
        self.spec_name()
    }


    open spec fn spec_parameters(&self) -> Seq<ParamSpec> {
        self.spec_param_specs()
    }

    open spec fn spec_accepts(&self, params: FilterParams) -> bool {
        configured(params, self.spec_default_color(), self.spec_default_order()) is Some
    }

    fn id(&self) -> (s: &'static str) {
        self.id
    }

    fn description(&self) -> (s: &'static str)
        ensures
            s@ == self.spec_description(),
    {
        self.description
    }

    fn parameters(&self) -> (p: &'static [ParamSpec]) {
        self.params
    }

    fn build(&self, params: &FilterParams) -> (r: Result<Box<dyn Filter>, FiltroError>)
        ensures
            r is Ok ==> r == Ok::<Box<dyn Filter>, FiltroError>(
                spec_boxed(self.configured_filter(*params)),
            ),
            r matches Err(e) ==> self.refused_with(*params, e),
    {
        match self.configure(params) {
            Ok(f) => Ok(boxed_filter(f)),
            Err(e) => Err(e),
        }
    }
}

proof fn lemma_accepts_no_parameter(color: Rgba8, order: &'static str)
    requires
        letters(order@) is Some,
    ensures
        forall|p: FilterParams| p.entries().len() == 0 ==> #[trigger] configured(p, color, order@) is Some,
{
}

fn yellow_params() -> (p: &'static [ParamSpec])
    ensures
        p@ == color_param_specs("fefe01", "bvr"),
{
    let specs: &'static [ParamSpec; 3] = &[
        ParamSpec {
            name: "niveau",
            default: "180",
            help: "seuil (0-255) au-delà duquel un pixel est vu comme blanc",
        },
        ParamSpec { name: "couleur", default: "fefe01", help: "couleur hexadécimale remplaçant le blanc" },
        ParamSpec {
            name: "permutation",
            default: "bvr",
            help: "réaffectation des canaux des autres pixels (ex. bvr)",
        },
    ];
    specs.as_slice()
}

fn green_params() -> (p: &'static [ParamSpec])
    ensures
        p@ == color_param_specs("91fe01", "rbv"),
{
    let specs: &'static [ParamSpec; 3] = &[
        ParamSpec {
            name: "niveau",
            default: "180",
            help: "seuil (0-255) au-delà duquel un pixel est vu comme blanc",
        },
        ParamSpec { name: "couleur", default: "91fe01", help: "couleur hexadécimale remplaçant le blanc" },
        ParamSpec {
            name: "permutation",
            default: "rbv",
            help: "réaffectation des canaux des autres pixels (ex. bvr)",
        },
    ];
    specs.as_slice()
}

fn red_params() -> (p: &'static [ParamSpec])
    ensures
        p@ == color_param_specs("fe0101", "brv"),
{
    let specs: &'static [ParamSpec; 3] = &[
        ParamSpec {
            name: "niveau",
            default: "180",
            help: "seuil (0-255) au-delà duquel un pixel est vu comme blanc",
        },
        ParamSpec { name: "couleur", default: "fe0101", help: "couleur hexadécimale remplaçant le blanc" },
        ParamSpec {
            name: "permutation",
            default: "brv",
            help: "réaffectation des canaux des autres pixels (ex. bvr)",
        },
    ];
    specs.as_slice()
}

/// Filter `jaune` — white → yellow, channels permuted to `bvr`.
pub fn yellow() -> (f: ColorFilterFactory)
    ensures
        f.spec_name() == "jaune"@,
        f.spec_description() == "Remplace le blanc par du jaune et échange rouge et bleu"@,
        f.spec_default_color() == (Rgba8 { r: 254, g: 254, b: 1, a: 255 }),
        f.spec_default_order() == "bvr"@,
        forall|p: FilterParams| p.entries().len() == 0 ==> #[trigger] f.spec_accepts(p),
        f.spec_param_specs() == color_param_specs("fefe01", "bvr"),
{
    proof {
        reveal_strlit("bvr");
        lemma_plain_word("bvr"@);
        lemma_accepts_no_parameter(Rgba8 { r: 254, g: 254, b: 1, a: 255 }, "bvr");
    }
    ColorFilterFactory {
        id: "jaune",
        description: "Remplace le blanc par du jaune et échange rouge et bleu",
        color: Rgba8::new(254, 254, 1, 255),
        order: "bvr",
        params: yellow_params(),
    }
}

/// Filter `vert` — white → green, channels permuted to `rbv`.
pub fn green() -> (f: ColorFilterFactory)
    ensures
        f.spec_name() == "vert"@,
        f.spec_description() == "Remplace le blanc par du vert et échange vert et bleu"@,
        f.spec_default_color() == (Rgba8 { r: 145, g: 254, b: 1, a: 255 }),
        f.spec_default_order() == "rbv"@,
        forall|p: FilterParams| p.entries().len() == 0 ==> #[trigger] f.spec_accepts(p),
        f.spec_param_specs() == color_param_specs("91fe01", "rbv"),
{
    proof {
        reveal_strlit("rbv");
        lemma_plain_word("rbv"@);
        lemma_accepts_no_parameter(Rgba8 { r: 145, g: 254, b: 1, a: 255 }, "rbv");
    }
    ColorFilterFactory {
        id: "vert",
        description: "Remplace le blanc par du vert et échange vert et bleu",
        color: Rgba8::new(145, 254, 1, 255),
        order: "rbv",
        params: green_params(),
    }
}

/// Filter `rouge` — white → red, channels rotated to `brv`.
pub fn red() -> (f: ColorFilterFactory)
    ensures
        f.spec_name() == "rouge"@,
        f.spec_description() == "Remplace le blanc par du rouge et fait tourner les canaux"@,
        f.spec_default_color() == (Rgba8 { r: 254, g: 1, b: 1, a: 255 }),
        f.spec_default_order() == "brv"@,
        forall|p: FilterParams| p.entries().len() == 0 ==> #[trigger] f.spec_accepts(p),
        f.spec_param_specs() == color_param_specs("fe0101", "brv"),
{
    proof {
        reveal_strlit("brv");
        lemma_plain_word("brv"@);
        lemma_accepts_no_parameter(Rgba8 { r: 254, g: 1, b: 1, a: 255 }, "brv");
    }
    ColorFilterFactory {
        id: "rouge",
        description: "Remplace le blanc par du rouge et fait tourner les canaux",
        color: Rgba8::new(254, 1, 1, 255),
        order: "brv",
        params: red_params(),
    }
}

// ---------------------------------------------------------------------------
// Laws
// ---------------------------------------------------------------------------

/// The word `rvb` (or `rgb`) leaves every pixel as it is.
pub proof fn identity_order_changes_nothing(p: Rgba8)
    ensures
        permuted((Channel::R, Channel::V, Channel::B), p) == p,
{
}

/// A colour filter keeps the alpha of every pixel.
pub proof fn recoloring_keeps_alpha(
    p: Rgba8,
    level: u8,
    color: Rgba8,
    order: (Channel, Channel, Channel),
)
    ensures
        recolored(p, level, color, order).a == p.a,
{
}

/// The default words of the three colour filters name the permutations
/// `(b, g, r)`, `(r, b, g)` and `(b, r, g)`.
pub proof fn default_orders()
    ensures
        letters("bvr"@) == Some((Channel::B, Channel::V, Channel::R)),
        letters("rbv"@) == Some((Channel::R, Channel::B, Channel::V)),
        letters("brv"@) == Some((Channel::B, Channel::R, Channel::V)),
{
    reveal_strlit("bvr");
    reveal_strlit("rbv");
    reveal_strlit("brv");
    lemma_plain_word("bvr"@);
    lemma_plain_word("rbv"@);
    lemma_plain_word("brv"@);
}

/// A colour factory builds, from accepted parameters, the filter whose
/// level, colour and permutation are those the parameters name (`niveau`,
/// `couleur`, `permutation`, each defaulting to the factory's own), under
/// the factory's identifier: it whitens into that colour every pixel above
/// the level and permutes the channels of the others with that order.
pub proof fn colour_build_follows_its_parameters(
    factory: ColorFilterFactory,
    params: FilterParams,
    dims: Dimensions,
    bytes: Seq<u8>,
    ctx: FilterContext,
)
    requires
        factory.spec_accepts(params),
    ensures
        ({
            let cf = factory.configured_filter(params);
            &&& cf.spec_name() == factory.spec_name()
            &&& params.spec_unsigned("niveau"@, 180, 255) == Some(cf.spec_level() as nat)
            &&& params.spec_color("couleur"@, factory.spec_default_color()) == Some(cf.spec_color())
            &&& letters(params.spec_text("permutation"@, factory.spec_default_order())) == Some(
                cf.spec_order(),
            )
            &&& cf.spec_output(dims, bytes, ctx) == (
                dims,
                mapped(bytes, recoloring(cf.spec_level(), cf.spec_color(), cf.spec_order())),
            )
        }),
{
    factory.lemma_configured_filter(params);
}

} // verus!
