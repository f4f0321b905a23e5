//! Library adapter seam.
use vstd::prelude::*;

use crate::ids::LibraryAssetId;

verus! {

/// Host-neutral access to assets admitted into the Studio Library.
pub trait LibraryAdapter {
    /// Return assets admitted for the current Designer session.
    fn admitted(&self) -> Vec<LibraryAssetId>;

    /// Return safe provenance text for an admitted asset.
    fn provenance(&self, id: &LibraryAssetId) -> Option<String>;

    /// Admit an already-validated asset identity into the session library,
    /// or return a safe message when it cannot be admitted.
    fn admit_asset(&mut self, id: LibraryAssetId) -> Result<(), String>;

    /// Insert and bind an admitted asset through the command engine, or
    /// return a safe message when it is unavailable or the bind is rejected.
    fn insert_bind(&mut self, id: LibraryAssetId) -> Result<(), String>;

    /// Build the stable diagnostic code and safe detail for a rejected format.
    fn unsupported_format(&self, detail: &str) -> (String, String);
}

} // verus!
