//! Key provisioning: the decision between reusing the cached keypair and
//! invoking the external generation primitives, and the trimming applied
//! to key material wherever it is read or produced.
//!
//! The cache files and the generation tools live outside the library: the
//! caller reads the cache and feeds the observed contents in; the library
//! decides, deterministically, what to do with them.

use vstd::prelude::*;

verus! {

/// What provisioning does with the observed cache contents: the trimmed
/// cached pair when both files were readable, or nothing — meaning the
/// generation primitives must be invoked.
pub open spec fn spec_provision_decision(
    cached_private: Option<Seq<char>>,
    cached_public: Option<Seq<char>>,
) -> Option<(Seq<char>, Seq<char>)> {
    match (cached_private, cached_public) {
        (Some(p), Some(q)) => Some((crate::text::spec_trim(p), crate::text::spec_trim(q))),
        _ => None,
    }
}

/// The step provisioning takes after looking at the cache.
pub enum ProvisionDecision {
    /// Both cache files were readable: return this pair, generate nothing.
    UseCached {
        /// The trimmed cached private key.
        private_key: String,
        /// The trimmed cached public key.
        public_key: String,
    },
    /// The cache is incomplete: the generation primitives must be run.
    Generate,
}

/// Decides what provisioning does with the cache, as
/// [`spec_provision_decision`] describes.
pub fn provision_decide(cached_private: Option<String>, cached_public: Option<String>) -> (r:
    ProvisionDecision)
    ensures
        cached_private is Some && cached_public is Some ==> (r
            matches ProvisionDecision::UseCached { private_key, public_key }
            && Some((private_key@, public_key@)) == spec_provision_decision(
            cached_private.deep_view(),
            cached_public.deep_view(),
        )),
        cached_private is None || cached_public is None ==> r is Generate,
{
    match (cached_private, cached_public) {
        (Some(p), Some(q)) => ProvisionDecision::UseCached {
            private_key: String::from_str(crate::text::trim(p.as_str())),
            public_key: String::from_str(crate::text::trim(q.as_str())),
        },
        _ => ProvisionDecision::Generate,
    }
}

/// Trims the raw output of the two generation primitives into the keypair
/// that is returned and cached.
pub fn provision_finish(raw_private: &str, raw_public: &str) -> (r: (String, String))
    ensures
        r.0@ == crate::text::spec_trim(raw_private@),
        r.1@ == crate::text::spec_trim(raw_public@),
{
    (
        String::from_str(crate::text::trim(raw_private)),
        String::from_str(crate::text::trim(raw_public)),
    )
}

/// With a readable cached pair, provisioning reuses the cache and never
/// generates; the decision is a function of the cache contents alone, so
/// two calls over the unchanged cache return the identical keypair.
pub proof fn lemma_provision_cached_stable(p: Seq<char>, q: Seq<char>)
    ensures
        spec_provision_decision(Some(p), Some(q)) == Some(
            (crate::text::spec_trim(p), crate::text::spec_trim(q)),
        ),
        spec_provision_decision(Some(p), Some(q)) is Some,
{
}

} // verus!
