//! Library snapshots and projection diagnostics shared with the Runtime
//! projection host.
use vstd::prelude::*;

use crate::ids::{LibraryAssetId, NodeId};
use crate::model::RevisionId;
use crate::ordered_map::{MapKey, OrderedMap};

verus! {

/// One admitted Library asset visible to projection.
#[derive(Clone, Debug, PartialEq, Eq)]
pub struct LibraryAsset {
    /// Stable source identity.
    pub id: LibraryAssetId,
    /// Normalized package path, normally under `assets/`.
    pub path: String,
}

/// Minimal immutable Library snapshot accepted by Runtime projection.
#[derive(Debug, PartialEq, Eq)]
pub struct LibrarySnapshot {
    /// Assets keyed by their source identity for deterministic lookup.
    pub assets: OrderedMap<LibraryAssetId, LibraryAsset>,
}

impl LibrarySnapshot {
    /// Construct a snapshot from an ordered asset map.
    pub fn new(assets: OrderedMap<LibraryAssetId, LibraryAsset>) -> (r: Self)
        ensures
            r.assets == assets,
    {
        LibrarySnapshot { assets }
    }

    /// Add or replace one asset in the snapshot, keyed by its identity.
    pub fn insert(&mut self, asset: LibraryAsset)
        ensures
            final(self).assets@ == old(self).assets@.insert(asset.id@, asset),
    {
        let id = asset.id.copy();
        self.assets.insert(id, asset);
    }

    /// Resolve an asset identity to its package path.
    pub fn path(&self, id: &LibraryAssetId) -> (r: Option<&str>)
        ensures
            match r {
                Some(p) => self.assets@.contains_key(id@) && p@ == self.assets@[id@].path@,
                None => !self.assets@.contains_key(id@),
            },
    {
        match self.assets.get(id.as_str()) {
            Some(asset) => Some(asset.path.as_str()),
            None => None,
        }
    }
}

/// Inserting an asset and resolving its identity gives back its path.
pub proof fn lemma_insert_then_path(before: Map<Seq<char>, LibraryAsset>, asset: LibraryAsset)
    ensures
        before.insert(asset.id@, asset).contains_key(asset.id@),
        before.insert(asset.id@, asset)[asset.id@].path == asset.path,
{
}

/// A diagnostic tied to the source node and property that caused it.
#[derive(Clone, Debug, PartialEq, Eq)]
pub struct ProjectionDiagnostic {
    /// Stable machine-readable code.
    pub code: String,
    /// Safe developer-facing explanation.
    pub message: String,
    /// Source node, when the issue is node-local.
    pub node_id: Option<NodeId>,
    /// Source property, when the issue is property-local.
    pub property: Option<String>,
    /// Source revision that produced this diagnostic.
    pub revision_id: RevisionId,
}

/// A failed strict projection, retaining the complete ordered diagnostics.
#[derive(Clone, Debug, PartialEq, Eq)]
pub struct ProjectionError {
    /// Diagnostics collected during the failed attempt.
    pub diagnostics: Vec<ProjectionDiagnostic>,
}

} // verus!
