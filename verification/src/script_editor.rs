//! Script editor vocabulary: edits, syntax tokens, outline entries and
//! commit metadata.
use vstd::prelude::*;

use crate::ids::{OperationId, UndoGroupId};
use crate::model::Actor;

verus! {

/// One UTF-8 byte-range replacement.
#[derive(Clone, Debug, PartialEq, Eq)]
pub struct ScriptEdit {
    /// Inclusive UTF-8 byte offset of the edit.
    pub start: usize,
    /// Exclusive UTF-8 byte offset of the edit.
    pub end: usize,
    /// Replacement text.
    pub replacement: String,
}

impl ScriptEdit {
    /// Construct a byte-range replacement.
    pub fn replace(start: usize, end: usize, replacement: &str) -> (r: Self)
        ensures
            r.start == start,
            r.end == end,
            r.replacement@ == replacement@,
    {
        ScriptEdit { start, end, replacement: replacement.to_owned() }
    }
}

/// Lexical categories consumed by a syntax-highlighting view.
#[derive(Clone, Copy, Debug, PartialEq, Eq, Structural)]
pub enum SyntaxTokenKind {
    Keyword,
    Tag,
    Attribute,
    String,
    Number,
    Binding,
    Token,
    Comment,
    Punctuation,
    Identifier,
    Text,
}

/// One lexical token with source location.
#[derive(Clone, Debug, PartialEq, Eq)]
pub struct SyntaxToken {
    /// Token category.
    pub kind: SyntaxTokenKind,
    /// Zero-based inclusive source byte offset.
    pub start: usize,
    /// Zero-based exclusive source byte offset.
    pub end: usize,
    /// One-based source line.
    pub line: usize,
    /// One-based source column.
    pub column: usize,
    /// Token text.
    pub text: String,
}

/// A stable tree entry for the hierarchy or outline pane.
#[derive(Debug, PartialEq, Eq)]
pub struct OutlineNode {
    /// Element identity.
    pub id: String,
    /// Element kind as authored.
    pub kind: String,
    /// One-based source line of the opening tag.
    pub line: usize,
    /// One-based source column of the opening tag.
    pub column: usize,
    /// Nesting depth, where top-level elements are zero.
    pub depth: usize,
    /// Nested outline entries.
    pub children: Vec<OutlineNode>,
}

/// Attribution and undo-group metadata for one script commit.
#[derive(Clone, Debug, PartialEq, Eq)]
pub struct ScriptCommitMetadata {
    /// Operation identity used for idempotency.
    pub operation_id: OperationId,
    /// Human or agent actor attribution.
    pub actor: Actor,
    /// Named undo group identity.
    pub undo_group_id: UndoGroupId,
    /// User-facing undo group name.
    pub undo_group_name: String,
}

impl ScriptCommitMetadata {
    /// Construct commit metadata.
    pub fn new(operation_id: OperationId, actor: Actor, undo_group_id: UndoGroupId, undo_group_name: &str) -> (r: Self)
        ensures
            r.operation_id == operation_id,
            r.actor == actor,
            r.undo_group_id == undo_group_id,
            r.undo_group_name@ == undo_group_name@,
    {
        ScriptCommitMetadata { operation_id, actor, undo_group_id, undo_group_name: undo_group_name.to_owned() }
    }
}

} // verus!
