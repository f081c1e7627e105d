//! The archive cache's stage-then-publish protocol, modelled over the two
//! files a release can leave on disk: the canonical `<tag>.zip` and the
//! `<tag>.zip.partial` staging file a download writes before an atomic
//! rename publishes it. A canonical file is therefore never half-written,
//! and only the canonical file ever counts as cached.

use vstd::prelude::*;

verus! {

/// What is on disk for one release: whether the canonical archive path is
/// a regular file, and whether a staging file is lying around.
#[derive(Clone, Copy, Debug, PartialEq, Eq, Structural)]
pub struct CacheView {
    pub canonical_is_file: bool,
    pub staging_present: bool,
}

/// What an ensure-cached run must do next.
#[derive(Clone, Copy, Debug, PartialEq, Eq, Structural)]
pub enum CachePlan {
    UseCached,
    Download,
}

/// The plan as a function of the disk state: a hit exactly when the
/// canonical file exists.
pub open spec fn plan_spec(v: CacheView) -> CachePlan {
    if v.canonical_is_file {
        CachePlan::UseCached
    } else {
        CachePlan::Download
    }
}

/// A release is cached exactly when its canonical archive file exists; a
/// staging file left behind by an interrupted download never counts.
pub fn is_cached(v: &CacheView) -> (r: bool)
    ensures
        r == v.canonical_is_file,
{
    v.canonical_is_file
}

/// Decide whether an ensure-cached run may return the existing archive or
/// must download: a hit if and only if the canonical file exists.
pub fn ensure_cached_plan(v: &CacheView) -> (r: CachePlan)
    ensures
        r == plan_spec(*v),
        r is UseCached <==> v.canonical_is_file,
{
    if v.canonical_is_file {
        CachePlan::UseCached
    } else {
        CachePlan::Download
    }
}

/// The disk state after a completed download: the staging file has been
/// renamed onto the canonical path in one step.
pub open spec fn after_publish(v: CacheView) -> CacheView {
    CacheView { canonical_is_file: true, staging_present: false }
}

/// Publish a finished download: the staging file is renamed onto the
/// canonical path, so the canonical file now exists and no staging file
/// remains.
pub fn publish(v: &CacheView) -> (r: CacheView)
    ensures
        r == after_publish(*v),
{
    CacheView { canonical_is_file: true, staging_present: false }
}

/// The disk state after one successful ensure-cached run: untouched on a
/// hit, published after a download.
pub open spec fn after_ensure(v: CacheView) -> CacheView {
    if v.canonical_is_file {
        v
    } else {
        after_publish(v)
    }
}

/// Two ensure-cached runs in a row download at most once: whatever the
/// starting state, the second run finds the canonical file and is a pure
/// cache hit.
pub proof fn lemma_second_ensure_is_hit(v: CacheView)
    ensures
        plan_spec(after_ensure(v)) is UseCached,
{
}

/// An interrupted download leaves only the staging file behind, and that
/// state is not cached: the canonical path decides alone.
pub proof fn lemma_staging_never_cached(v: CacheView)
    requires
        !v.canonical_is_file,
    ensures
        plan_spec(v) is Download,
{
}

} // verus!
