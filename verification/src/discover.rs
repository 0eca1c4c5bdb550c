//! Installation-path discovery.
//!
//! The game's install root comes either from the `TF_DIR` environment
//! override — which must name an existing directory, or discovery fails
//! outright — or from the platform's game-distribution-client metadata
//! for the game's numeric application id.

use vstd::prelude::*;
use crate::LoaderError;

verus! {

/// Relies on `envmnt::exists` and `envmnt::get_or`: the value of the
/// `TF_DIR` environment override when it is set. The result depends on
/// the process environment, so nothing is promised of it.
#[verifier::external_body]
fn env_override() -> Option<String> {
    if envmnt::exists("TF_DIR") {
        Some(envmnt::get_or("TF_DIR", ""))
    } else {
        None
    }
}

/// Relies on `fs_err::metadata`: whether the path names an existing
/// directory on disk. The result depends on the filesystem, so nothing
/// is promised of it.
#[verifier::external_body]
fn dir_on_disk(path: &str) -> bool {
    fs_err::metadata(path).map(|m| m.is_dir()).unwrap_or(false)
}

/// Relies on `steamlocate::SteamDir::locate`, `SteamDir::find_app` and
/// `Library::resolve_app_dir`: the installed location of the app with
/// id 440 in the platform client's library, if every step of that query
/// succeeds. Any failure collapses to nothing here.
#[verifier::external_body]
fn steam_tf2_dir() -> Option<String> {
    let dir = steamlocate::SteamDir::locate().ok()?;
    let (app, library) = dir.find_app(440).ok()??;
    library.resolve_app_dir(&app).to_str().map(|s| s.to_string())
}

/// Decide what an explicit install-directory override yields: the
/// override is authoritative, so it is taken exactly when it names an
/// existing directory, and anything else fails with
/// [`LoaderError::Tf2NotFound`] with no further fallback.
pub fn resolve_override(path: String, names_directory: bool) -> (r: Result<String, LoaderError>)
    ensures
        names_directory ==> (r matches Ok(p) && p == path),
        !names_directory ==> (r matches Err(e) && e is Tf2NotFound),
{
    if names_directory {
        Ok(path)
    } else {
        Err(LoaderError::Tf2NotFound)
    }
}

/// Discover the game's install root: the `TF_DIR` override when set
/// (validated, never falling back), otherwise the platform client's
/// metadata. Every failure is [`LoaderError::Tf2NotFound`].
pub fn tf2_path() -> (r: Result<String, LoaderError>)
    ensures
        r matches Err(e) ==> e is Tf2NotFound,
{
    match env_override() {
        Some(path) => {
            let present = dir_on_disk(path.as_str());
            resolve_override(path, present)
        },
        None => match steam_tf2_dir() {
            Some(path) => Ok(path),
            None => Err(LoaderError::Tf2NotFound),
        },
    }
}

} // verus!
