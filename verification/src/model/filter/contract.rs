//! **The filter contract** — and nothing else.
//!
//! From the core's point of view a filter carries an identifier
//! ([`Filter::id`]), may declare what it expects of the image
//! ([`FilterRequirements`]) and transforms pixels ([`Filter::apply`]).

use vstd::prelude::*;

use crate::model::error::FiltroError;
use crate::model::pipeline::analyzer::ImageMetadata;
use crate::model::pipeline::formatter::OutputTarget;
use crate::model::pixel::{Dimensions, PixelBuffer};

verus! {

/// The stricter of two optional bounds.
pub open spec fn stricter(a: Option<u32>, b: Option<u32>) -> Option<u32> {
    match (a, b) {
        (Some(x), Some(y)) => Some(
            if x <= y {
                x
            } else {
                y
            },
        ),
        (Some(v), None) => Some(v),
        (None, Some(v)) => Some(v),
        (None, None) => None,
    }
}

/// The stricter of two optional bounds.
pub fn stricter_bound(a: Option<u32>, b: Option<u32>) -> (r: Option<u32>)
    ensures
        r == stricter(a, b),
{
    match (a, b) {
        (Some(x), Some(y)) => Some(
            if x <= y {
                x
            } else {
                y
            },
        ),
        (Some(v), None) => Some(v),
        (None, Some(v)) => Some(v),
        (None, None) => None,
    }
}

/// What a filter expects of the image it is given.
///
/// This is the **only** channel through which a filter influences the
/// preparation: the Constructor reads it, never the filter itself.
#[derive(Debug, Clone, Copy, PartialEq, Eq, Structural)]
pub struct FilterRequirements {
    /// The filter needs a meaningful alpha channel.
    pub needs_alpha: bool,
    /// Longest side tolerated; the Constructor shrinks the image if needed.
    pub max_dimension: Option<u32>,
}

impl Default for FilterRequirements {
    fn default() -> (r: Self)
        ensures
            r == (FilterRequirements { needs_alpha: false, max_dimension: None }),
    {
        FilterRequirements { needs_alpha: false, max_dimension: None }
    }
}

impl FilterRequirements {
    /// No requirement at all.
    pub open spec fn none() -> Self {
        FilterRequirements { needs_alpha: false, max_dimension: None }
    }

    /// The combination of two sets of requirements, keeping the stricter
    /// constraint of each.
    pub open spec fn spec_merge(self, other: Self) -> Self {
        FilterRequirements {
            needs_alpha: self.needs_alpha || other.needs_alpha,
            max_dimension: stricter(self.max_dimension, other.max_dimension),
        }
    }

    /// Combines two sets of requirements, keeping the stricter constraint.
    pub fn merge(self, other: Self) -> (r: Self)
        ensures
            r == self.spec_merge(other),
    {
        FilterRequirements {
            needs_alpha: self.needs_alpha || other.needs_alpha,
            max_dimension: stricter_bound(self.max_dimension, other.max_dimension),
        }
    }
}

/// Merging requirements does not depend on their order.
pub proof fn merge_is_commutative(a: FilterRequirements, b: FilterRequirements)
    ensures
        a.spec_merge(b) == b.spec_merge(a),
{
}

/// Merging requirements does not depend on how they are grouped.
pub proof fn merge_is_associative(a: FilterRequirements, b: FilterRequirements, c: FilterRequirements)
    ensures
        a.spec_merge(b).spec_merge(c) == a.spec_merge(b.spec_merge(c)),
{
}

/// The default (empty) requirements change nothing when merged in.
pub proof fn merge_with_none_is_identity(a: FilterRequirements)
    ensures
        a.spec_merge(FilterRequirements::none()) == a,
        FilterRequirements::none().spec_merge(a) == a,
{
}

/// Merging a set of requirements with itself changes nothing.
pub proof fn merge_is_idempotent(a: FilterRequirements)
    ensures
        a.spec_merge(a) == a,
{
}

/// The merged requirements are at least as strict as each input.
pub proof fn merge_is_stricter(a: FilterRequirements, b: FilterRequirements)
    ensures
        a.needs_alpha ==> a.spec_merge(b).needs_alpha,
        a.max_dimension matches Some(x) ==> a.spec_merge(b).max_dimension matches Some(y) && y
            <= x,
{
}

/// What a filter knows of the current processing.
///
/// The Renderer calls the filters once per variant, so a filter may adapt to
/// the output format or dimensions.
#[derive(Debug, Clone, Copy)]
pub struct FilterContext<'a> {
    /// Description of the source image.
    pub metadata: &'a ImageMetadata,
    /// The variant being rendered.
    pub target: &'a OutputTarget,
    /// Rank of the filter in the chain (0 = first).
    pub position: usize,
}

/// A configured filter, ready to process pixels.
///
/// `Send + Sync` to allow rendering variants in parallel.
pub trait Filter: Send + Sync {
    /// The identifier, as written on the command line.
    open spec fn spec_id(&self) -> Seq<char> {
        Seq::empty()
    }

    /// Requirements on the input image.
    open spec fn spec_requirements(&self) -> FilterRequirements {
        FilterRequirements::none()
    }

    /// The image (dimensions and RGBA bytes) the filter produces from an
    /// image in a context.
    open spec fn spec_output(&self, dims: Dimensions, bytes: Seq<u8>, ctx: FilterContext) -> (
        Dimensions,
        Seq<u8>,
    ) {
        (dims, bytes)
    }

    /// Whether the filter succeeds on an image in a context.
    open spec fn spec_succeeds(&self, dims: Dimensions, bytes: Seq<u8>, ctx: FilterContext) -> bool {
        true
    }

    /// The error the filter reports on an image in a context where it does
    /// not succeed.
    open spec fn spec_error(&self, dims: Dimensions, bytes: Seq<u8>, ctx: FilterContext) -> FiltroError {
        vstd::pervasive::arbitrary()
    }

    /// Identifier of the filter, as written on the command line.
    fn id(&self) -> (s: &str)
        ensures
            s@ == self.spec_id(),
    ;

    /// Requirements on the input image (`FilterRequirements::default()`
    /// when the filter has none).
    fn requirements(&self) -> (r: FilterRequirements)
        ensures
            r == self.spec_requirements(),
    ;

    /// Transforms the pixels in place.
    ///
    /// A filter that changes the dimensions (crop, rotation) replaces the
    /// content of `canvas` by a new [`PixelBuffer`].
    fn apply(&self, canvas: &mut PixelBuffer, ctx: &FilterContext) -> (r: Result<(), FiltroError>)
        requires
            old(canvas).wf(),
        ensures
            final(canvas).wf(),
            r is Ok <==> self.spec_succeeds(old(canvas).dims(), old(canvas).bytes(), *ctx),
            r is Ok ==> (final(canvas).dims(), final(canvas).bytes()) == self.spec_output(
                old(canvas).dims(),
                old(canvas).bytes(),
                *ctx,
            ),
            r matches Err(e) ==> e == self.spec_error(old(canvas).dims(), old(canvas).bytes(), *ctx),
    ;
}

/// A concrete filter as a trait object.
pub open spec fn spec_boxed<F: Filter + 'static>(filter: F) -> Box<dyn Filter> {
    Box::new(filter)
}

/// Boxes a concrete filter as a trait object.
pub(crate) fn boxed_filter<F: Filter + 'static>(filter: F) -> (b: Box<dyn Filter>)
    ensures
        b == spec_boxed(filter),
{
    let b: Box<dyn Filter> = Box::new(filter);
    return b;
}

/// The requirements of the first `n` filters, merged from the first.
pub open spec fn chain_requirements(filters: Seq<Box<dyn Filter>>, n: int) -> FilterRequirements
    decreases n,
{
    if n <= 0 {
        FilterRequirements::none()
    } else {
        chain_requirements(filters, n - 1).spec_merge(filters[n - 1].spec_requirements())
    }
}

/// The image the first `n` filters produce, applied in order, the filter at
/// rank `i` receiving a context of position `i`.
pub open spec fn chain_output(
    filters: Seq<Box<dyn Filter>>,
    n: int,
    dims: Dimensions,
    bytes: Seq<u8>,
    metadata: ImageMetadata,
    target: OutputTarget,
) -> (Dimensions, Seq<u8>)
    decreases n,
{
    if n <= 0 {
        (dims, bytes)
    } else {
        let prev = chain_output(filters, n - 1, dims, bytes, metadata, target);
        filters[n - 1].spec_output(
            prev.0,
            prev.1,
            FilterContext { metadata: &metadata, target: &target, position: (n - 1) as usize },
        )
    }
}

/// Without any filter, the image comes out as it went in.
pub proof fn empty_chain_changes_nothing(
    filters: Seq<Box<dyn Filter>>,
    dims: Dimensions,
    bytes: Seq<u8>,
    metadata: ImageMetadata,
    target: OutputTarget,
)
    ensures
        chain_output(filters, 0, dims, bytes, metadata, target) == (dims, bytes),
{
}

/// Whether the first `n` filters, applied in order, all succeed.
pub open spec fn chain_succeeds(
    filters: Seq<Box<dyn Filter>>,
    n: int,
    dims: Dimensions,
    bytes: Seq<u8>,
    metadata: ImageMetadata,
    target: OutputTarget,
) -> bool
    decreases n,
{
    if n <= 0 {
        true
    } else {
        let prev = chain_output(filters, n - 1, dims, bytes, metadata, target);
        chain_succeeds(filters, n - 1, dims, bytes, metadata, target) && filters[n - 1].spec_succeeds(
            prev.0,
            prev.1,
            FilterContext { metadata: &metadata, target: &target, position: (n - 1) as usize },
        )
    }
}

/// The error of the first of the first `n` filters that fails, applied in
/// order to the output of those before it.
pub open spec fn chain_error(
    filters: Seq<Box<dyn Filter>>,
    n: int,
    dims: Dimensions,
    bytes: Seq<u8>,
    metadata: ImageMetadata,
    target: OutputTarget,
) -> FiltroError
    decreases n,
{
    if n <= 0 {
        vstd::pervasive::arbitrary()
    } else if !chain_succeeds(filters, n - 1, dims, bytes, metadata, target) {
        chain_error(filters, n - 1, dims, bytes, metadata, target)
    } else {
        let prev = chain_output(filters, n - 1, dims, bytes, metadata, target);
        filters[n - 1].spec_error(
            prev.0,
            prev.1,
            FilterContext { metadata: &metadata, target: &target, position: (n - 1) as usize },
        )
    }
}

/// Once the filter of rank `i` is the first to fail, the error of every
/// longer prefix is its error.
proof fn lemma_chain_error_settles(
    filters: Seq<Box<dyn Filter>>,
    i: int,
    n: int,
    dims: Dimensions,
    bytes: Seq<u8>,
    metadata: ImageMetadata,
    target: OutputTarget,
)
    requires
        0 <= i < n,
        !chain_succeeds(filters, i + 1, dims, bytes, metadata, target),
    ensures
        chain_error(filters, n, dims, bytes, metadata, target) == chain_error(
            filters,
            i + 1,
            dims,
            bytes,
            metadata,
            target,
        ),
    decreases n - i,
{
    if n > i + 1 {
        if chain_succeeds(filters, n - 1, dims, bytes, metadata, target) {
            lemma_chain_succeeds_prefix(filters, i + 1, n - 1, dims, bytes, metadata, target);
        }
        lemma_chain_error_settles(filters, i, n - 1, dims, bytes, metadata, target);
    }
}

proof fn lemma_chain_succeeds_prefix(
    filters: Seq<Box<dyn Filter>>,
    m: int,
    n: int,
    dims: Dimensions,
    bytes: Seq<u8>,
    metadata: ImageMetadata,
    target: OutputTarget,
)
    requires
        0 <= m <= n,
        chain_succeeds(filters, n, dims, bytes, metadata, target),
    ensures
        chain_succeeds(filters, m, dims, bytes, metadata, target),
    decreases n - m,
{
    if m < n {
        lemma_chain_succeeds_prefix(filters, m, n - 1, dims, bytes, metadata, target);
    }
}

/// An ordered sequence of filters, applied as is by the Renderer.
pub struct FilterChain {
    filters: Vec<Box<dyn Filter>>,
}

impl FilterChain {
    /// The filters, in order.
    pub closed spec fn filters(&self) -> Seq<Box<dyn Filter>> {
        self.filters@
    }

    /// The empty chain: the pipeline then behaves as a format converter.
    pub fn empty() -> (c: Self)
        ensures
            c.filters().len() == 0,
            c.filters() == Seq::<Box<dyn Filter>>::empty(),
    {
        FilterChain { filters: Vec::new() }
    }

    pub fn new(filters: Vec<Box<dyn Filter>>) -> (c: Self)
        ensures
            c.filters() == filters@,
    {
        FilterChain { filters }
    }

    pub fn is_empty(&self) -> (b: bool)
        ensures
            b == (self.filters().len() == 0),
    {
        self.filters.len() == 0
    }

    pub fn len(&self) -> (n: usize)
        ensures
            n == self.filters().len(),
    {
        self.filters.len()
    }

    /// Identifiers of the filters, in application order.
    pub fn ids(&self) -> (v: Vec<&str>)
        ensures
            v@.len() == self.filters().len(),
            forall|i: int| 0 <= i < v@.len() ==> #[trigger] v@[i]@ == self.filters()[i].spec_id(),
    {
        let n = self.filters.len();
        let mut out: Vec<&str> = Vec::new();
        let mut i: usize = 0;
        while i < n
            invariant
                n == self.filters().len(),
                i <= n,
                out@.len() == i,
                forall|j: int| 0 <= j < i ==> #[trigger] out@[j]@ == self.filters()[j].spec_id(),
            decreases n - i,
        {
            out.push(self.filters[i].id());
            i = i + 1;
        }
        out
    }

    /// The merged requirements of the chain, read by the Constructor.
    pub fn requirements(&self) -> (r: FilterRequirements)
        ensures
            r == chain_requirements(self.filters(), self.filters().len() as int),
    {
        let n = self.filters.len();
        let mut acc = FilterRequirements::default();
        let mut i: usize = 0;
        while i < n
            invariant
                n == self.filters().len(),
                i <= n,
                acc == chain_requirements(self.filters(), i as int),
            decreases n - i,
        {
            acc = acc.merge(self.filters[i].requirements());
            i = i + 1;
        }
        acc
    }

    /// Applies every filter, in order; stops at the first failure.
    pub fn apply(&self, canvas: &mut PixelBuffer, metadata: &ImageMetadata, target: &OutputTarget) -> (r:
        Result<(), FiltroError>)
        requires
            old(canvas).wf(),
        ensures
            final(canvas).wf(),
            r is Ok <==> chain_succeeds(
                self.filters(),
                self.filters().len() as int,
                old(canvas).dims(),
                old(canvas).bytes(),
                *metadata,
                *target,
            ),
            r is Ok ==> (final(canvas).dims(), final(canvas).bytes()) == chain_output(
                self.filters(),
                self.filters().len() as int,
                old(canvas).dims(),
                old(canvas).bytes(),
                *metadata,
                *target,
            ),
            r matches Err(e) ==> e == chain_error(
                self.filters(),
                self.filters().len() as int,
                old(canvas).dims(),
                old(canvas).bytes(),
                *metadata,
                *target,
            ),
    {
        let n = self.filters.len();
        let mut i: usize = 0;
        while i < n
            invariant
                n == self.filters().len(),
                i <= n,
                canvas.wf(),
                chain_succeeds(
                    self.filters(),
                    i as int,
                    old(canvas).dims(),
                    old(canvas).bytes(),
                    *metadata,
                    *target,
                ),
                (canvas.dims(), canvas.bytes()) == chain_output(
                    self.filters(),
                    i as int,
                    old(canvas).dims(),
                    old(canvas).bytes(),
                    *metadata,
                    *target,
                ),
            decreases n - i,
        {
            let ctx = FilterContext { metadata, target, position: i };
            match self.filters[i].apply(canvas, &ctx) {
                Ok(()) => {},
                Err(e) => {
                    proof {
                        lemma_chain_error_settles(
                            self.filters(),
                            i as int,
                            n as int,
                            old(canvas).dims(),
                            old(canvas).bytes(),
                            *metadata,
                            *target,
                        );
                        if chain_succeeds(
                            self.filters(),
                            n as int,
                            old(canvas).dims(),
                            old(canvas).bytes(),
                            *metadata,
                            *target,
                        ) {
                            lemma_chain_succeeds_prefix(
                                self.filters(),
                                i + 1,
                                n as int,
                                old(canvas).dims(),
                                old(canvas).bytes(),
                                *metadata,
                                *target,
                            );
                        }
                    }
                    return Err(e);
                },
            }
            i = i + 1;
        }
        Ok(())
    }
}

} // verus!
