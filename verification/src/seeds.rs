//! The seed list, as a view over the session settings: reading it, and
//! the read-modify-write edits that add or remove one seed.

use vstd::prelude::*;

use crate::agent::Client;
use crate::error::ApiError;
use crate::session;

verus! {

/// The seeds configured in the current session's settings: one session
/// GET, every outcome pinned by `session::session_of`, handing out the
/// settings' seed list.
pub fn list(client: &Client) -> (r: Result<Vec<Vec<u8>>, ApiError>)
    ensures
        r matches Err(e) ==> !(e is UrlConstruction),
{
    match session::get(client) {
        Ok(s) => Ok(s.settings.coco.seeds),
        Err(e) => Err(e),
    }
}

/// Adds a seed: reads the settings (pinned by `session::session_of`),
/// inserts the seed as `insert_seed` pins down, and writes the settings
/// back in full through `session::update_settings`. Not atomic against a
/// concurrent writer: the last write wins.
pub fn add(client: &Client, seed: Vec<u8>) -> (r: Result<(), ApiError>)
    ensures
        r matches Err(e) ==> !(e is UrlConstruction),
{
    let mut settings = match session::get(client) {
        Ok(s) => s.settings,
        Err(e) => {
            return Err(e);
        },
    };
    session::insert_seed(&mut settings, seed);
    session::update_settings(client, &settings)
}

/// Removes a seed: reads the settings (pinned by `session::session_of`),
/// removes the seed as `remove_seed` pins down, and writes the settings
/// back in full through `session::update_settings`. Not atomic against a
/// concurrent writer: the last write wins.
pub fn remove(client: &Client, seed: &[u8]) -> (r: Result<(), ApiError>)
    ensures
        r matches Err(e) ==> !(e is UrlConstruction),
{
    let mut settings = match session::get(client) {
        Ok(s) => s.settings,
        Err(e) => {
            return Err(e);
        },
    };
    session::remove_seed(&mut settings, seed);
    session::update_settings(client, &settings)
}

} // verus!
