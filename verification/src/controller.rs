//! The **Controller** decisions: what the command line asks for, turned into
//! a configuration of the core. Reading the arguments, the files and the
//! terminal output stay with the program around the library.

use std::path::PathBuf;

use vstd::prelude::*;

use crate::filters::register_all;
use crate::model::error::FiltroError;
use crate::model::filter::contract::FilterChain;
use crate::model::filter::registry::{request_expression, reads_as, FilterRegistry, FilterRequest};
use crate::model::pipeline::constructor::ConstructionPolicy;
use crate::model::pipeline::formatter::{
    dedup, format_named, size_expression, FormatOptions, Formatter, OutputFormat, SizeVariant,
};
use crate::model::pixel::Rgba8;
use crate::model::pipeline::orchestrator::{Pipeline, PipelineBuilder};
use crate::text::{lemma_find_bounds, lowercase, split_once, split_once_str, str_to_string, trim, trim_str};

verus! {

// ---------------------------------------------------------------------------
// Composite values of the command line
// ---------------------------------------------------------------------------

/// What one item of a format list adds in front of what the rest of the
/// list gives: nothing when blank, its format, or the error of its name.
pub open spec fn item_formats(item: Seq<char>, rest: Result<Seq<OutputFormat>, Seq<char>>) -> Result<
    Seq<OutputFormat>,
    Seq<char>,
> {
    if trim(item).len() == 0 {
        rest
    } else {
        match format_named(lowercase(trim(item))) {
            None => Err(lowercase(trim(item))),
            Some(f) => match rest {
                Ok(fs) => Ok(seq![f] + fs),
                Err(e) => Err(e),
            },
        }
    }
}

/// The formats of a comma-separated list, blank items skipped, or the first
/// name that is not a format.
pub open spec fn formats_in(raw: Seq<char>) -> Result<Seq<OutputFormat>, Seq<char>>
    decreases raw.len(),
{
    match split_once(raw, ',') {
        Some((item, rest)) => {
            proof {
                lemma_find_bounds(raw, ',');
            }
            item_formats(item, formats_in(rest))
        },
        None => item_formats(raw, Ok(Seq::empty())),
    }
}

/// `Ok(done + x)` for `Ok(x)`.
pub open spec fn after_formats(done: Seq<OutputFormat>, r: Result<Seq<OutputFormat>, Seq<char>>) -> Result<
    Seq<OutputFormat>,
    Seq<char>,
> {
    match r {
        Ok(x) => Ok(done + x),
        Err(e) => Err(e),
    }
}

/// Reads the comma-separated list of formats.
pub fn parse_formats(raw: &str) -> (r: Result<Vec<OutputFormat>, FiltroError>)
    ensures
        match formats_in(raw@) {
            Err(name) => r matches Err(FiltroError::UnknownFormat(s)) && s@ == name,
            Ok(fs) => if fs.len() == 0 {
                r matches Err(FiltroError::Config(m)) && m@ == "la liste de formats est vide"@
            } else {
                r matches Ok(v) && v@ == fs
            },
        },
{
    let mut formats: Vec<OutputFormat> = Vec::new();
    let mut rest: &str = raw;
    let mut done = false;
    while !done
        invariant
            !done ==> formats_in(raw@) == after_formats(formats@, formats_in(rest@)),
            done ==> formats_in(raw@) == Ok::<Seq<OutputFormat>, Seq<char>>(formats@),
        decreases rest@.len() + (if done { 0int } else { 1int }),
    {
        let ghost before = formats@;
        let (item, next, more) = match split_once_str(rest, ',') {
            Some((item, next)) => (item, next, true),
            None => (rest, "", false),
        };
        proof {
            lemma_find_bounds(rest@, ',');
        }
        if trim_str(item).unicode_len() > 0 {
            match OutputFormat::parse(item) {
                Ok(f) => {
                    formats.push(f);
                    proof {
                        let tail = if more {
                            formats_in(next@)
                        } else {
                            Ok(Seq::empty())
                        };
                        match tail {
                            Ok(fs) => {
                                assert(before + (seq![f] + fs) =~= formats@ + fs);
                            },
                            Err(_) => {},
                        }
                    }
                },
                Err(e) => {
                    return Err(e);
                },
            }
        }
        if more {
            rest = next;
        } else {
            proof {
                assert(formats@ + Seq::<OutputFormat>::empty() =~= formats@);
            }
            done = true;
        }
    }
    if formats.len() == 0 {
        return Err(FiltroError::Config(str_to_string("la liste de formats est vide")));
    }
    Ok(formats)
}

/// `v` is the bounded variant the expression `e` describes.
pub open spec fn sized(v: SizeVariant, e: Seq<char>) -> bool {
    match size_expression(e) {
        Ok((l, m)) => v matches SizeVariant::Bounded { label, max_side } && label@ == l && max_side
            == m,
        Err(_) => false,
    }
}

/// `e` is the configuration error whose message `r` holds.
pub open spec fn refused_as<T>(r: Result<T, Seq<char>>, e: FiltroError) -> bool {
    match r {
        Ok(_) => false,
        Err(msg) => e matches FiltroError::Config(m) && m@ == msg,
    }
}

/// `v` is what the size expressions `exprs` describe: `Original` first,
/// then one bounded variant per expression.
pub open spec fn sized_list(v: Seq<SizeVariant>, exprs: Seq<String>) -> bool {
    &&& v.len() == exprs.len() + 1
    &&& v[0] == SizeVariant::Original
    &&& forall|i: int|
        0 <= i < exprs.len() ==> sized(v[i + 1], #[trigger] exprs[i]@)
}

/// Every size expression is well formed.
pub open spec fn all_sized(exprs: Seq<String>) -> bool {
    forall|i: int| 0 <= i < exprs.len() ==> size_expression(#[trigger] exprs[i]@) is Ok
}

/// `e` is the error of the first malformed size expression.
pub open spec fn size_error(e: FiltroError, exprs: Seq<String>) -> bool {
    exists|i: int|
        0 <= i < exprs.len() && (forall|j: int|
            0 <= j < i ==> size_expression(#[trigger] exprs[j]@) is Ok) && refused_as(
            size_expression(#[trigger] exprs[i]@),
            e,
        )
}

/// Reads the size variants; `Original` always comes first.
pub fn parse_sizes(raw: &[String]) -> (r: Result<Vec<SizeVariant>, FiltroError>)
    ensures
        r is Ok <==> all_sized(raw@),
        r matches Ok(v) ==> sized_list(v@, raw@),
        r matches Err(e) ==> size_error(e, raw@),
{
    let mut sizes: Vec<SizeVariant> = Vec::new();
    sizes.push(SizeVariant::Original);
    let n = raw.len();
    let mut i: usize = 0;
    while i < n
        invariant
            n == raw@.len(),
            i <= n,
            sizes@.len() == i + 1,
            sizes@[0] == SizeVariant::Original,
            forall|j: int|
                0 <= j < i ==> sized(sizes@[j + 1], #[trigger] raw@[j]@),
        decreases n - i,
    {
        match SizeVariant::parse(raw[i].as_str()) {
            Ok(v) => {
                sizes.push(v);
            },
            Err(e) => {
                proof {
                    assert(size_expression(raw@[i as int]@) is Err);
                    assert(forall|j: int| 0 <= j < i ==> size_expression(#[trigger] raw@[j]@) is Ok);
                }
                return Err(e);
            },
        }
        i = i + 1;
    }
    Ok(sizes)
}

// ---------------------------------------------------------------------------
// Filter expressions
// ---------------------------------------------------------------------------

/// Every filter expression is well formed.
pub open spec fn all_read(exprs: Seq<String>) -> bool {
    forall|i: int| 0 <= i < exprs.len() ==> request_expression(#[trigger] exprs[i]@) is Ok
}

/// `requests` are what the expressions `exprs` read as, one for one.
pub open spec fn read_all(exprs: Seq<String>, requests: Seq<FilterRequest>) -> bool {
    requests.len() == exprs.len() && forall|i: int|
        0 <= i < exprs.len() ==> reads_as(exprs[i]@, #[trigger] requests[i])
}

/// `e` is the error of the first malformed filter expression.
pub open spec fn request_error(e: FiltroError, exprs: Seq<String>) -> bool {
    exists|i: int|
        0 <= i < exprs.len() && (forall|j: int|
            0 <= j < i ==> request_expression(#[trigger] exprs[j]@) is Ok) && refused_as(
            request_expression(#[trigger] exprs[i]@),
            e,
        )
}

/// Reads the filter expressions, in order; stops at the first malformed one.
pub fn parse_requests(exprs: &[String]) -> (r: Result<Vec<FilterRequest>, FiltroError>)
    ensures
        r is Ok <==> all_read(exprs@),
        r matches Ok(v) ==> read_all(exprs@, v@),
        r matches Err(e) ==> request_error(e, exprs@),
{
    let mut requests: Vec<FilterRequest> = Vec::new();
    let n = exprs.len();
    let mut i: usize = 0;
    while i < n
        invariant
            n == exprs@.len(),
            i <= n,
            requests@.len() == i,
            forall|j: int| 0 <= j < i ==> reads_as(exprs@[j]@, #[trigger] requests@[j]),
        decreases n - i,
    {
        match FilterRequest::parse(exprs[i].as_str()) {
            Ok(request) => {
                requests.push(request);
            },
            Err(e) => {
                proof {
                    assert(request_expression(exprs@[i as int]@) is Err);
                    assert forall|j: int| 0 <= j < i implies request_expression(
                        #[trigger] exprs@[j]@,
                    ) is Ok by {
                        assert(reads_as(exprs@[j]@, requests@[j]));
                    }
                }
                return Err(e);
            },
        }
        i = i + 1;
    }
    proof {
        assert forall|j: int| 0 <= j < n implies request_expression(#[trigger] exprs@[j]@) is Ok by {
            assert(reads_as(exprs@[j]@, requests@[j]));
        }
    }
    Ok(requests)
}

// ---------------------------------------------------------------------------
// The run
// ---------------------------------------------------------------------------

/// The values of the command line.
#[derive(Debug)]
pub struct Cli {
    /// Image to process.
    pub input: Option<PathBuf>,
    /// Filter expressions, in order: `id` or `id:key=value,key=value`.
    pub filters: Vec<String>,
    /// Output formats, separated by commas.
    pub formats: String,
    /// Size variants, `label:pixels`.
    pub sizes: Vec<String>,
    /// Output directory.
    pub out: PathBuf,
    /// Quality of the lossy formats (1–100).
    pub quality: u8,
    /// Bound on the longest side of the working image.
    pub max_dimension: Option<u32>,
    /// List the available filters, then stop.
    pub list_filters: bool,
}

/// What the tool has to do once the command line is read.
pub enum Command {
    /// Print the catalogue of filters.
    ListFilters,
    /// Process the image at `input` with `chain` through `pipeline`, writing
    /// the variants into `out`.
    Process { input: PathBuf, chain: FilterChain, pipeline: Pipeline, out: PathBuf },
}

/// **The one place where the filters are plugged in.**
///
/// The filters live outside the core, in the module `filters`.
pub fn register_filters(registry: &mut FilterRegistry) -> (r: Result<(), FiltroError>)
    ensures
        r is Ok <==> crate::filters::first_taken(old(registry).ids()) is None,
        r is Ok ==> forall|x: Seq<char>|
            #[trigger] final(registry).ids().contains(x) <==> old(registry).ids().contains(x)
                || crate::filters::shipped_ids().contains(x),
{
    register_all(registry)
}

/// Whether the requests read from `exprs`, whichever they are, all build.
pub open spec fn chain_builds(registry: FilterRegistry, exprs: Seq<String>) -> bool {
    forall|requests: Seq<FilterRequest>|
        #[trigger] read_all(exprs, requests) ==> forall|i: int|
            0 <= i < requests.len() ==> registry.spec_builds(#[trigger] requests[i])
}

/// Whether some requests read from `exprs` all build.
pub open spec fn chain_may_build(registry: FilterRegistry, exprs: Seq<String>) -> bool {
    exists|requests: Seq<FilterRequest>|
        #[trigger] read_all(exprs, requests) && forall|i: int|
            0 <= i < requests.len() ==> registry.spec_builds(#[trigger] requests[i])
}

/// `e` is the error with which the registry refuses the first request, read
/// from `exprs`, that does not build.
pub open spec fn chain_refused(registry: FilterRegistry, exprs: Seq<String>, e: FiltroError) -> bool {
    exists|requests: Seq<FilterRequest>|
        #[trigger] read_all(exprs, requests) && exists|i: int|
            0 <= i < requests.len() && (forall|j: int|
                0 <= j < i ==> registry.spec_builds(#[trigger] requests[j]))
                && !registry.spec_builds(#[trigger] requests[i]) && registry.refused(requests[i], e)
}

/// `p` is the pipeline set up with these formats, sizes, quality and bound,
/// the other settings left to their defaults.
pub open spec fn set_up(
    p: Pipeline,
    formats: Seq<OutputFormat>,
    sizes: Seq<SizeVariant>,
    quality: u8,
    max_dimension: Option<u32>,
) -> bool {
    &&& p.analyzer.limit() == Some(100_000_000u64)
    &&& p.constructor.spec_policy() == (ConstructionPolicy {
        max_dimension,
        background: Rgba8 { r: 255, g: 255, b: 255, a: 255 },
    })
    &&& p.formatter.spec_formats() == dedup(formats)
    &&& p.formatter.spec_sizes() == sizes
    &&& p.formatter.spec_options() == (FormatOptions {
        quality,
        background: Rgba8 { r: 255, g: 255, b: 255, a: 255 },
    })
    &&& p.renderer.spec_stem() is None
}

/// What a run whose requests build ends in: the first error among the
/// formats, the sizes and the quality, or the processing.
pub open spec fn settled(cli: Cli, r: Result<Command, FiltroError>) -> bool {
    match formats_in(cli.formats@) {
        Err(name) => r matches Err(FiltroError::UnknownFormat(s)) && s@ == name,
        Ok(fs) => if fs.len() == 0 {
            r matches Err(FiltroError::Config(m)) && m@ == "la liste de formats est vide"@
        } else if !all_sized(cli.sizes@) {
            r matches Err(e) && size_error(e, cli.sizes@)
        } else if !(1 <= cli.quality <= 100) {
            r matches Err(FiltroError::Config(m)) && m@ == Formatter::quality_text(cli.quality)
        } else {
            r matches Ok(Command::Process { .. })
        },
    }
}

/// Decides what the command line asks for: the catalogue of filters, or the
/// processing of an image with its chain of filters and its pipeline.
pub fn plan(cli: Cli, registry: &FilterRegistry) -> (r: Result<Command, FiltroError>)
    ensures
        cli.list_filters ==> r matches Ok(Command::ListFilters),
        !cli.list_filters && cli.input is None ==> (r matches Err(FiltroError::Config(m)) && m@
            == "aucune image fournie"@),
        !cli.list_filters && cli.input is Some && !all_read(cli.filters@) ==> (r matches Err(e)
            && request_error(e, cli.filters@)),
        !cli.list_filters && cli.input is Some && all_read(cli.filters@) && chain_builds(
            *registry,
            cli.filters@,
        ) ==> settled(cli, r),
        !cli.list_filters && cli.input is Some && all_read(cli.filters@) && !chain_may_build(
            *registry,
            cli.filters@,
        ) ==> (r matches Err(e) && chain_refused(*registry, cli.filters@, e)),
        r matches Ok(Command::Process { input, chain, pipeline, out }) ==> {
            &&& !cli.list_filters
            &&& cli.input == Some(input)
            &&& out == cli.out
            &&& all_read(cli.filters@)
            &&& chain_may_build(*registry, cli.filters@)
            &&& chain.filters().len() == cli.filters@.len()
            &&& exists|requests: Seq<FilterRequest>|
                #[trigger] read_all(cli.filters@, requests) && registry.made_in_order(
                    requests,
                    chain.filters(),
                )
            &&& formats_in(cli.formats@) matches Ok(fs) && fs.len() > 0 && set_up(
                pipeline,
                fs,
                pipeline.formatter.spec_sizes(),
                cli.quality,
                cli.max_dimension,
            )
            &&& sized_list(pipeline.formatter.spec_sizes(), cli.sizes@)
            &&& 1 <= cli.quality <= 100
        },
{
    if cli.list_filters {
        return Ok(Command::ListFilters);
    }
    let input = match cli.input {
        Some(path) => path,
        None => {
            return Err(FiltroError::Config(str_to_string("aucune image fournie")));
        },
    };
    let requests = match parse_requests(cli.filters.as_slice()) {
        Ok(v) => v,
        Err(e) => return Err(e),
    };
    proof {
        assert(read_all(cli.filters@, requests@));
    }
    let chain = if requests.len() == 0 {
        FilterChain::empty()
    } else {
        match registry.build_chain(requests.as_slice()) {
            Ok(c) => {
                assert(registry.made_in_order(requests@, c.filters()));
                c
            },
            Err(e) => {
                assert(chain_refused(*registry, cli.filters@, e));
                return Err(e);
            },
        }
    };
    assert(registry.made_in_order(requests@, chain.filters()));
    let formats = match parse_formats(cli.formats.as_str()) {
        Ok(v) => v,
        Err(e) => return Err(e),
    };
    let sizes = match parse_sizes(cli.sizes.as_slice()) {
        Ok(v) => v,
        Err(e) => return Err(e),
    };
    let builder = Pipeline::builder().formats(formats).sizes(sizes).quality(cli.quality).max_dimension(
        cli.max_dimension,
    );
    let pipeline = match builder.build() {
        Ok(p) => p,
        Err(e) => return Err(e),
    };
    Ok(Command::Process { input, chain, pipeline, out: cli.out })
}

} // verus!
