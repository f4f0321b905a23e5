//! Settings, template, plugin catalog and import review vocabulary.
use vstd::prelude::*;

use crate::command::ParentPlacement;
use crate::ids::{ProjectId, TokenId};
use crate::model::{DiagnosticSeverity, TokenKind};

verus! {

/// A settings value could not be applied to a plugin descriptor field.
#[derive(Debug, PartialEq, Eq)]
pub enum SettingsError {
    FieldMissing(String),
    TypeMismatch { field: String },
    ValueInvalid { field: String },
}

/// One brand slot of a template, bound to a token of a kind.
#[derive(Clone, Debug, PartialEq, Eq)]
pub struct BrandSlot {
    pub id: String,
    pub label: String,
    pub token_id: TokenId,
    pub kind: TokenKind,
}

/// A template could not be loaded or instantiated.
#[derive(Debug, PartialEq, Eq)]
pub enum TemplateError {
    Missing(String),
    Invalid(String),
    TokenInvalid(String),
    NodeKindInvalid(String),
    BrandSlotMissing { template: String, slot: String },
    BrandSlotKindMismatch { slot: String, expected: TokenKind },
}

/// One plugin as shown in the browse view.
#[derive(Clone, Debug, PartialEq, Eq)]
pub struct PluginBrowseCard {
    pub plugin_id: String,
    pub name: String,
    pub version: String,
    pub publisher: String,
    pub settings_group_count: usize,
    pub template_ids: Vec<String>,
}

/// The plugins available to browse.
#[derive(Clone, Debug, PartialEq, Eq)]
pub struct PluginCatalog {
    pub plugins: Vec<PluginBrowseCard>,
}

/// A warning raised while reviewing an import.
#[derive(Clone, Debug, PartialEq, Eq)]
pub struct ImportWarning {
    pub code: String,
    pub message: String,
    pub severity: DiagnosticSeverity,
}

/// Where imported nodes are inserted.
#[derive(Clone, Debug, PartialEq, Eq)]
pub struct ImportDestination {
    pub project_id: ProjectId,
    pub parent: ParentPlacement,
}

/// The lifecycle of an import review.
#[derive(Clone, Copy, Debug, PartialEq, Eq, Structural)]
pub enum ImportReviewStatus {
    Pending,
    Approved,
    Applied,
    Rejected,
}

/// Import review rejection family.
#[derive(Debug, PartialEq, Eq)]
pub enum ImportReviewError {
    NotApproved,
    InvalidStatus(ImportReviewStatus),
    SourceMissing(String),
    EntityMissing(String),
}

/// The status after approving a review: only a pending review moves, to
/// approved; any other status is refused as it stands.
pub open spec fn approved(status: ImportReviewStatus) -> Result<ImportReviewStatus, ImportReviewStatus> {
    if status == ImportReviewStatus::Pending {
        Ok(ImportReviewStatus::Approved)
    } else {
        Err(status)
    }
}

/// Approve a pending review status.
pub fn approve_status(status: &mut ImportReviewStatus) -> (r: Result<(), ImportReviewError>)
    ensures
        match approved(*old(status)) {
            Ok(s) => r is Ok && *final(status) == s,
            Err(s) => r == Err::<(), ImportReviewError>(ImportReviewError::InvalidStatus(s)) && *final(status) == *old(status),
        },
{
    if *status != ImportReviewStatus::Pending {
        return Err(ImportReviewError::InvalidStatus(*status));
    }
    *status = ImportReviewStatus::Approved;
    Ok(())
}

/// Reject a pending review status.
pub fn reject_status(status: &mut ImportReviewStatus) -> (r: Result<(), ImportReviewError>)
    ensures
        *old(status) == ImportReviewStatus::Pending ==> r is Ok && *final(status) == ImportReviewStatus::Rejected,
        *old(status) != ImportReviewStatus::Pending ==> r == Err::<(), ImportReviewError>(ImportReviewError::InvalidStatus(*old(status)))
            && *final(status) == *old(status),
{
    if *status != ImportReviewStatus::Pending {
        return Err(ImportReviewError::InvalidStatus(*status));
    }
    *status = ImportReviewStatus::Rejected;
    Ok(())
}

/// A review is decided once: after approval or rejection, neither applies
/// again.
pub proof fn lemma_review_decided_once(status: ImportReviewStatus)
    requires
        status == ImportReviewStatus::Approved || status == ImportReviewStatus::Rejected,
    ensures
        approved(status) is Err,
{
}

} // verus!
