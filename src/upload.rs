use vstd::prelude::*;
use crate::error::RegistryError;
use crate::filename::{is_artifact, is_artifact_name, parse_filename, separator_free, splits_as};

verus! {

/// What to do with one named part of an upload.
#[derive(Debug, Clone, PartialEq, Eq)]
pub enum PartAction {
    /// The part is not an artifact: pass over it.
    Skip,
    /// Store the part's bytes as a blob and record a release of `version`
    /// under the package `name`.
    Register { name: String, version: String },
}

/// Decides what becomes of an uploaded part with this filename (`None`
/// for a part that has none). Parts without a filename, or whose filename
/// lacks the artifact extension, are skipped; an artifact whose filename
/// has no separator fails the whole upload with `InvalidFormat`; any other
/// artifact is registered under the name and version its filename gives.
pub fn classify_part(filename: Option<&str>) -> (r: Result<PartAction, RegistryError>)
    ensures
        filename is None ==> r matches Ok(PartAction::Skip),
        filename matches Some(f) ==> if is_artifact_name(f@) {
            &&& (r is Err <==> separator_free(f@))
            &&& (r matches Err(e) ==> e is InvalidFormat)
            &&& (r matches Ok(a) ==> (a matches PartAction::Register { name, version } && splits_as(
                f@,
                name@,
                version@,
            )))
        } else {
            r matches Ok(PartAction::Skip)
        },
{
    match filename {
        None => Ok(PartAction::Skip),
        Some(f) => {
            if !is_artifact(f) {
                return Ok(PartAction::Skip);
            }
            match parse_filename(f) {
                Ok((name, version)) => Ok(PartAction::Register { name, version }),
                Err(e) => Err(e),
            }
        },
    }
}

} // verus!
