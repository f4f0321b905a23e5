//! Bounded opaque identities.
use vstd::prelude::*;
use vstd::utf8::encode_utf8;

use crate::ordered_map::MapKey;
use crate::text::{contains_control, has_control};

verus! {

/// A stable identifier failed the bounded opaque-identity contract.
#[derive(Clone, Copy, Debug, PartialEq, Eq, Structural)]
pub struct InvalidIdentity;

impl InvalidIdentity {
    /// Safe explanation of the identity rule.
    pub fn message(&self) -> (r: String)
        ensures
            r@ == "identity must be 1..=128 bytes and contain no control characters"@,
    {
        String::from_str("identity must be 1..=128 bytes and contain no control characters")
    }
}

/// The identity rule: `1..=128` UTF-8 bytes and no control characters.
pub open spec fn valid_identity(s: Seq<char>) -> bool {
    &&& s.len() > 0
    &&& encode_utf8(s).len() <= 128
    &&& !has_control(s)
}

pub proof fn lemma_utf8_len_bounds(s: Seq<char>)
    ensures
        s.len() <= encode_utf8(s).len() <= 4 * s.len(),
    decreases s.len(),
{
    if s.len() > 0 {
        lemma_utf8_len_bounds(s.drop_first());
        let e = vstd::utf8::encode_scalar(s[0] as u32);
        assert(1 <= e.len() <= 4);
    }
}

/// Check the identity rule on a string.
pub fn is_valid_identity(value: &str) -> (r: bool)
    ensures
        r == valid_identity(value@),
{
    let n = value.unicode_len();
    if n == 0 {
        return false;
    }
    proof {
        lemma_utf8_len_bounds(value@);
    }
    if n > 128 {
        return false;
    }
    if value.len() > 128 {
        return false;
    }
    !contains_control(value)
}

/// A bounded opaque identity tagged with the kind of thing it names.
#[derive(Debug, PartialEq, Eq, Hash, PartialOrd, Ord)]
pub struct Id<T> {
    value: String,
    tag: core::marker::PhantomData<T>,
}

impl<T> View for Id<T> {
    type V = Seq<char>;

    closed spec fn view(&self) -> Seq<char> {
        self.value@
    }
}

impl<T> Id<T> {
    /// Create a bounded opaque identity.
    pub fn new(value: &str) -> (r: Result<Self, InvalidIdentity>)
        ensures
            r is Ok <==> valid_identity(value@),
            r matches Ok(id) ==> id@ == value@,
    {
        if !is_valid_identity(value) {
            return Err(InvalidIdentity);
        }
        Ok(Id { value: value.to_owned(), tag: core::marker::PhantomData })
    }

    /// Borrow the opaque wire value.
    pub fn as_str(&self) -> (r: &str)
        ensures
            r@ == self@,
    {
        self.value.as_str()
    }

    /// A copy of this identity.
    pub fn copy(&self) -> (r: Self)
        ensures
            r == *self,
            r@ == self@,
    {
        Id { value: self.value.clone(), tag: core::marker::PhantomData }
    }

    /// Whether two identities are the same.
    pub fn same(&self, other: &Self) -> (r: bool)
        ensures
            r == (self@ == other@),
    {
        crate::text::str_eq(self.value.as_str(), other.value.as_str())
    }
}

impl<T> Clone for Id<T> {
    fn clone(&self) -> (r: Self)
        ensures
            r == *self,
    {
        self.copy()
    }
}

impl<T> MapKey for Id<T> {
    open spec fn key_view(&self) -> Seq<char> {
        self@
    }

    fn key_str(&self) -> (r: &str) {
        self.as_str()
    }

    fn key_clone(&self) -> (r: Self) {
        self.copy()
    }
}

/// Copy an optional identity.
pub fn copy_opt_id<T>(id: &Option<Id<T>>) -> (r: Option<Id<T>>)
    ensures
        r == *id,
{
    match id {
        Some(v) => Some(v.copy()),
        None => None,
    }
}

#[derive(Clone, Copy, Debug, PartialEq, Eq, Hash, PartialOrd, Ord)]
pub struct ProjectTag;

#[derive(Clone, Copy, Debug, PartialEq, Eq, Hash, PartialOrd, Ord)]
pub struct NodeTag;

#[derive(Clone, Copy, Debug, PartialEq, Eq, Hash, PartialOrd, Ord)]
pub struct ScreenTag;

#[derive(Clone, Copy, Debug, PartialEq, Eq, Hash, PartialOrd, Ord)]
pub struct CompositionTag;

#[derive(Clone, Copy, Debug, PartialEq, Eq, Hash, PartialOrd, Ord)]
pub struct TokenTag;

#[derive(Clone, Copy, Debug, PartialEq, Eq, Hash, PartialOrd, Ord)]
pub struct ResponsiveVariantTag;

#[derive(Clone, Copy, Debug, PartialEq, Eq, Hash, PartialOrd, Ord)]
pub struct InteractionTag;

#[derive(Clone, Copy, Debug, PartialEq, Eq, Hash, PartialOrd, Ord)]
pub struct LibraryAssetTag;

#[derive(Clone, Copy, Debug, PartialEq, Eq, Hash, PartialOrd, Ord)]
pub struct ActorTag;

#[derive(Clone, Copy, Debug, PartialEq, Eq, Hash, PartialOrd, Ord)]
pub struct OperationTag;

#[derive(Clone, Copy, Debug, PartialEq, Eq, Hash, PartialOrd, Ord)]
pub struct UndoGroupTag;

#[derive(Clone, Copy, Debug, PartialEq, Eq, Hash, PartialOrd, Ord)]
pub struct CollectionTag;

#[derive(Clone, Copy, Debug, PartialEq, Eq, Hash, PartialOrd, Ord)]
pub struct BindingTag;

#[derive(Clone, Copy, Debug, PartialEq, Eq, Hash, PartialOrd, Ord)]
pub struct FormTag;

#[derive(Clone, Copy, Debug, PartialEq, Eq, Hash, PartialOrd, Ord)]
pub struct RecordTag;

#[derive(Clone, Copy, Debug, PartialEq, Eq, Hash, PartialOrd, Ord)]
pub struct DeviceProfileTag;

/// Stable Studio Project identity.
pub type ProjectId = Id<ProjectTag>;

/// Stable visual-node identity.
pub type NodeId = Id<NodeTag>;

/// Stable screen identity.
pub type ScreenId = Id<ScreenTag>;

/// Stable Reusable Composition identity.
pub type CompositionId = Id<CompositionTag>;

/// Stable design-token identity.
pub type TokenId = Id<TokenTag>;

/// Stable responsive-variant identity.
pub type ResponsiveVariantId = Id<ResponsiveVariantTag>;

/// Stable interaction identity.
pub type InteractionId = Id<InteractionTag>;

/// Stable admitted Library asset identity.
pub type LibraryAssetId = Id<LibraryAssetTag>;

/// Stable actor identity.
pub type ActorId = Id<ActorTag>;

/// Stable command-operation identity.
pub type OperationId = Id<OperationTag>;

/// Stable named undo-group identity.
pub type UndoGroupId = Id<UndoGroupTag>;

/// Stable content-collection identity.
pub type CollectionId = Id<CollectionTag>;

/// Stable content-binding identity.
pub type BindingId = Id<BindingTag>;

/// Stable form identity.
pub type FormId = Id<FormTag>;

/// Stable content-record identity.
pub type RecordId = Id<RecordTag>;

/// Stable device-profile identity.
pub type DeviceProfileId = Id<DeviceProfileTag>;

} // verus!
