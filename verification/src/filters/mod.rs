//! The filters shipped with the project — **outside the core**.
//!
//! This module only uses the public API of the library ([`Filter`],
//! [`FilterFactory`]). No stage of the pipeline knows it.
//!
//! | Identifier | Effect |
//! |------------|--------|
//! | `jaune` | white → yellow, channels permuted to `bvr` |
//! | `vert` | white → green, channels permuted to `rbv` |
//! | `rouge` | white → red, channels permuted to `brv` |
//! | `noir-blanc` | binary threshold |
//!
//! [`Filter`]: crate::model::filter::contract::Filter
//! [`FilterFactory`]: crate::model::filter::registry::FilterFactory

pub mod color;
pub mod threshold;

use vstd::prelude::*;

use crate::model::error::FiltroError;
use crate::model::filter::registry::{
    duplicate_id_text, valid_id, FilterFactory, FilterParams, FilterRegistry,
};
use crate::text::lemma_plain_word;

verus! {

/// The identifiers of the shipped filters, in registration order.
pub open spec fn shipped_ids() -> Seq<Seq<char>> {
    seq!["jaune"@, "vert"@, "rouge"@, "noir-blanc"@]
}

/// The first shipped identifier already among `ids`, if any.
pub open spec fn first_taken(ids: Seq<Seq<char>>) -> Option<Seq<char>> {
    if ids.contains("jaune"@) {
        Some("jaune"@)
    } else if ids.contains("vert"@) {
        Some("vert"@)
    } else if ids.contains("rouge"@) {
        Some("rouge"@)
    } else if ids.contains("noir-blanc"@) {
        Some("noir-blanc"@)
    } else {
        None
    }
}

proof fn lemma_word_is_valid_id(w: Seq<char>)
    requires
        w.len() > 0,
        forall|i: int| 0 <= i < w.len() ==> ('a' <= #[trigger] w[i] <= 'z' || w[i] == '-'),
    ensures
        valid_id(w),
{
}

/// The `noir-blanc` filter builds without any parameter (the colour filters
/// state it at their construction).
pub proof fn threshold_needs_no_parameter(params: FilterParams)
    requires
        params.entries().len() == 0,
    ensures
        threshold::BlackAndWhiteFactory.spec_accepts(params),
{
    reveal_strlit("canaux");
    lemma_plain_word("canaux"@);
}

/// Registers all the filters shipped with the project.
///
/// This is the only coupling point between the application and the
/// filters: adding a filter is one line here.
pub fn register_all(registry: &mut FilterRegistry) -> (r: Result<(), FiltroError>)
    ensures
        r is Ok <==> first_taken(old(registry).ids()) is None,
        r matches Err(e) ==> (e matches FiltroError::Config(m) && m@ == duplicate_id_text(
            first_taken(old(registry).ids())->0,
        )),
        r is Ok ==> final(registry).ids().len() == old(registry).ids().len() + 4,
        r is Ok ==> forall|x: Seq<char>|
            #[trigger] final(registry).ids().contains(x) <==> old(registry).ids().contains(x)
                || shipped_ids().contains(x),
{
    proof {
        reveal_strlit("jaune");
        reveal_strlit("vert");
        reveal_strlit("rouge");
        reveal_strlit("noir-blanc");
        lemma_word_is_valid_id("jaune"@);
        lemma_word_is_valid_id("vert"@);
        lemma_word_is_valid_id("rouge"@);
        lemma_word_is_valid_id("noir-blanc"@);
        assert("vert"@[0] != "jaune"@[0]);
        assert("rouge"@[0] != "jaune"@[0] && "rouge"@[0] != "vert"@[0]);
        assert("noir-blanc"@[0] != "jaune"@[0] && "noir-blanc"@[0] != "vert"@[0] && "noir-blanc"@[0]
            != "rouge"@[0]);
    }
    match registry.register(color::yellow()) {
        Ok(()) => {},
        Err(e) => return Err(e),
    }
    match registry.register(color::green()) {
        Ok(()) => {},
        Err(e) => return Err(e),
    }
    match registry.register(color::red()) {
        Ok(()) => {},
        Err(e) => return Err(e),
    }
    match registry.register(threshold::BlackAndWhiteFactory) {
        Ok(()) => {},
        Err(e) => return Err(e),
    }
    Ok(())
}

} // verus!
