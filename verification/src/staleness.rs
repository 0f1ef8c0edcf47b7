//! The staleness oracle: decides whether an existing thumbnail is still
//! valid for its source file.
//!
//! The application reads both files' metadata and hands the timestamps in as
//! plain values; the decision itself is made and verified here.

use vstd::prelude::*;

verus! {

/// The timestamps of one file that the oracle looks at.
///
/// `modified` is the modification time in nanoseconds since the Unix epoch.
/// `change` is the platform's inode change time in whole seconds, where the
/// platform exposes one (it guards against copy/rename operations that
/// preserve the modification time).
#[derive(Clone, Copy, Debug, PartialEq, Eq, Structural)]
pub struct FileTimes {
    pub modified: u64,
    pub change: Option<i64>,
}

/// The oracle's verdict for one source file.
#[derive(Clone, Copy, Debug, PartialEq, Eq, Structural)]
pub enum Freshness {
    UpToDate,
    NeedsGeneration,
}

/// A thumbnail is fresh when it was modified at or after its source and,
/// where both change times are available, also changed at or after it.
pub open spec fn spec_fresh(orig: FileTimes, thumb: FileTimes) -> bool {
    &&& orig.modified <= thumb.modified
    &&& match (orig.change, thumb.change) {
        (Some(oc), Some(tc)) => oc <= tc,
        _ => true,
    }
}

/// Decides whether the thumbnail with times `thumb` (or none, when no
/// thumbnail file exists) must be regenerated for a source with times `orig`.
pub fn needs_regeneration(orig: &FileTimes, thumb: &Option<FileTimes>) -> (r: Freshness)
    ensures
        r == Freshness::UpToDate <==> (thumb is Some && spec_fresh(*orig, thumb->0)),
{
    match thumb {
        None => Freshness::NeedsGeneration,
        Some(t) => {
            let mut fresh = orig.modified <= t.modified;
            match (orig.change, t.change) {
                (Some(oc), Some(tc)) => {
                    fresh = fresh && oc <= tc;
                }
                _ => {}
            }
            if fresh {
                Freshness::UpToDate
            } else {
                Freshness::NeedsGeneration
            }
        }
    }
}

/// Staleness is decided exactly by the timestamps: a thumbnail whose
/// modification and change times lie strictly after the source's is reported
/// up to date, and one whose times lie strictly before is regenerated.
/// (When a time of the source and the thumbnail coincide exactly, the
/// thumbnail counts as fresh; the strict hypotheses below avoid that
/// boundary.)
pub proof fn lemma_staleness_correct(orig: FileTimes, thumb: FileTimes)
    requires
        orig.change is Some <==> thumb.change is Some,
        orig.modified != thumb.modified,
        orig.change is Some ==> orig.change->0 != thumb.change->0,
    ensures
        (orig.modified < thumb.modified && (orig.change is Some ==> orig.change->0
            < thumb.change->0)) ==> spec_fresh(orig, thumb),
        (orig.modified > thumb.modified || (orig.change is Some && orig.change->0
            > thumb.change->0)) ==> !spec_fresh(orig, thumb),
{
}

} // verus!
