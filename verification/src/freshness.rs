//! The freshness oracle: decides, from plain timestamp values, whether a
//! cached artifact may be reused or must be regenerated.

use vstd::prelude::*;

verus! {

/// When regeneration is required: the artifact is missing, either
/// modification time could not be read, or the source is strictly newer
/// than the artifact.
pub open spec fn spec_should_generate(
    artifact_exists: bool,
    source_mtime: Option<u128>,
    artifact_mtime: Option<u128>,
) -> bool {
    if !artifact_exists {
        true
    } else {
        match (source_mtime, artifact_mtime) {
            (Some(s), Some(a)) => s > a,
            _ => true,
        }
    }
}

/// Decides whether the artifact must be regenerated. Timestamps are
/// nanoseconds since an arbitrary fixed epoch; `None` means the
/// modification time could not be read, which conservatively forces
/// regeneration.
pub fn should_generate(
    artifact_exists: bool,
    source_mtime: Option<u128>,
    artifact_mtime: Option<u128>,
) -> (regenerate: bool)
    ensures
        regenerate == spec_should_generate(artifact_exists, source_mtime, artifact_mtime),
{
    if !artifact_exists {
        return true;
    }
    match (source_mtime, artifact_mtime) {
        (Some(s), Some(a)) => s > a,
        _ => true,
    }
}

} // verus!
