//! Closed, versioned Studio Design source-model schemas.
use vstd::prelude::*;

use crate::ids::{
    ActorId, BindingId, CollectionId, CompositionId, FormId, Id, InteractionId, LibraryAssetId, NodeId,
    OperationId, ProjectId, RecordId, ResponsiveVariantId, ScreenId, TokenId, UndoGroupId,
    copy_opt_id,
};
use crate::ordered_map::OrderedMap;
use crate::text::chars_before;

verus! {

/// The only Studio Design schema version accepted by this crate.
pub const STUDIO_DESIGN_SCHEMA_VERSION: u16 = 1;

/// Catalog primitive kinds a node may instantiate.
#[derive(Clone, Copy, Debug, PartialEq, Eq, Hash, Structural)]
pub enum NodeKind {
    Box,
    Text,
    Image,
    Row,
    Column,
    Stack,
    Grid,
}

/// Monotonic immutable revision identity within one project.
#[derive(Clone, Copy, Debug, PartialEq, Eq, Hash, PartialOrd, Ord, Structural)]
pub struct RevisionId(pub u64);

impl RevisionId {
    /// The initial persisted project revision.
    pub fn initial() -> (r: Self)
        ensures
            r.0 == 0,
    {
        RevisionId(0)
    }

    /// Construct a revision identity from its durable sequence.
    pub fn new(value: u64) -> (r: Self)
        ensures
            r.0 == value,
    {
        RevisionId(value)
    }

    /// Return the durable sequence.
    pub fn get(self) -> (r: u64)
        ensures
            r == self.0,
    {
        self.0
    }

    /// Return the next sequence, or `None` if the sequence is exhausted.
    pub fn checked_next(self) -> (r: Option<Self>)
        ensures
            self.0 < u64::MAX ==> r == Some(RevisionId((self.0 + 1) as u64)),
            self.0 == u64::MAX ==> r is None,
    {
        if self.0 < u64::MAX {
            Some(RevisionId(self.0 + 1))
        } else {
            None
        }
    }
}

/// The authority that submitted an operation.
#[derive(Clone, Copy, Debug, PartialEq, Eq, Structural)]
pub enum ActorKind {
    Human,
    Agent,
    Mcp,
    Ingestion,
    Extension,
    System,
}

/// Safe actor provenance recorded on every revision.
#[derive(Clone, Debug, PartialEq, Eq)]
pub struct Actor {
    pub id: ActorId,
    pub kind: ActorKind,
    pub display_name: String,
}

impl Actor {
    /// A copy of this actor.
    pub fn copy(&self) -> (r: Self)
        ensures
            r == *self,
    {
        Actor { id: self.id.copy(), kind: self.kind, display_name: self.display_name.clone() }
    }
}

/// The complete Studio Design source document at one revision.
#[derive(Clone, Debug, PartialEq)]
pub struct StudioDesign {
    pub schema_version: u16,
    pub project_id: ProjectId,
    pub name: String,
    pub nodes: OrderedMap<NodeId, DesignNode>,
    pub parents: OrderedMap<NodeId, NodeParent>,
    pub screens: OrderedMap<ScreenId, Screen>,
    pub screen_order: Vec<ScreenId>,
    pub compositions: OrderedMap<CompositionId, ReusableComposition>,
    pub tokens: OrderedMap<TokenId, DesignToken>,
    pub responsive_variants: OrderedMap<ResponsiveVariantId, ResponsiveVariant>,
    pub interactions: OrderedMap<InteractionId, Interaction>,
    pub collections: OrderedMap<CollectionId, ContentCollection>,
    pub bindings: OrderedMap<BindingId, ContentBinding>,
    pub forms: OrderedMap<FormId, FormDefinition>,
}

impl StudioDesign {
    /// Create an empty version-1 source document.
    pub fn empty(project_id: ProjectId, name: &str) -> (r: Self)
        ensures
            r.schema_version == STUDIO_DESIGN_SCHEMA_VERSION,
            r.project_id == project_id,
            r.name@ == name@,
            r.nodes@.is_empty(),
            r.parents@.is_empty(),
            r.screens@.is_empty(),
            r.screen_order@.len() == 0,
            r.compositions@.is_empty(),
            r.tokens@.is_empty(),
            r.responsive_variants@.is_empty(),
            r.interactions@.is_empty(),
            r.collections@.is_empty(),
            r.bindings@.is_empty(),
            r.forms@.is_empty(),
    {
        StudioDesign {
            schema_version: STUDIO_DESIGN_SCHEMA_VERSION,
            project_id,
            name: name.to_owned(),
            nodes: OrderedMap::new(),
            parents: OrderedMap::new(),
            screens: OrderedMap::new(),
            screen_order: Vec::new(),
            compositions: OrderedMap::new(),
            tokens: OrderedMap::new(),
            responsive_variants: OrderedMap::new(),
            interactions: OrderedMap::new(),
            collections: OrderedMap::new(),
            bindings: OrderedMap::new(),
            forms: OrderedMap::new(),
        }
    }
}

/// One entry in the global flat stable-ID node map.
#[derive(Clone, Debug, PartialEq)]
pub struct DesignNode {
    pub schema_version: u16,
    pub id: NodeId,
    pub name: String,
    pub source: DesignNodeSource,
    pub children: Vec<NodeId>,
    pub properties: OrderedMap<String, PropertyValue>,
    pub layout: LayoutProperties,
    pub style: StyleProperties,
    pub accessibility: AccessibilityProperties,
    pub responsive_overrides: OrderedMap<ResponsiveVariantId, ResponsiveNodeOverride>,
    pub interaction_ids: Vec<InteractionId>,
}

impl DesignNode {
    /// Create a version-1 primitive with no children or authored properties.
    pub fn primitive(id: NodeId, name: &str, kind: NodeKind) -> (r: Self)
        ensures
            r.schema_version == STUDIO_DESIGN_SCHEMA_VERSION,
            r.id == id,
            r.name@ == name@,
            r.source == (DesignNodeSource::Primitive { kind }),
            r.children@.len() == 0,
            r.properties@.is_empty(),
            r.layout == LayoutProperties::spec_default(),
            r.style == StyleProperties::spec_default(),
            r.accessibility == AccessibilityProperties::spec_default(),
            r.responsive_overrides@.is_empty(),
            r.interaction_ids@.len() == 0,
    {
        DesignNode {
            schema_version: STUDIO_DESIGN_SCHEMA_VERSION,
            id,
            name: name.to_owned(),
            source: DesignNodeSource::Primitive { kind },
            children: Vec::new(),
            properties: OrderedMap::new(),
            layout: LayoutProperties::default(),
            style: StyleProperties::default(),
            accessibility: AccessibilityProperties::default(),
            responsive_overrides: OrderedMap::new(),
            interaction_ids: Vec::new(),
        }
    }

    /// Resolve this node's sparse layout override for a responsive variant.
    pub fn layout_for_variant(&self, variant_id: Option<&ResponsiveVariantId>) -> (r:
        LayoutProperties)
        ensures
            r == node_layout_for(*self, match variant_id {
                Some(v) => Some(v@),
                None => None,
            }),
    {
        match variant_id {
            Some(id) => match self.responsive_overrides.get(id.as_str()) {
                Some(o) => self.layout.merged_with(&o.layout),
                None => self.layout.copy(),
            },
            None => self.layout.copy(),
        }
    }
}

/// The layout of `node` under an optional responsive variant key.
pub open spec fn node_layout_for(node: DesignNode, variant: Option<Seq<char>>) -> LayoutProperties {
    match variant {
        Some(v) => if node.responsive_overrides@.contains_key(v) {
            merged_layout(node.layout, node.responsive_overrides@[v].layout)
        } else {
            node.layout
        },
        None => node.layout,
    }
}

/// Whether a node is a catalog primitive or a project-owned composition instance.
#[derive(Clone, Debug, PartialEq)]
pub enum DesignNodeSource {
    Primitive { kind: NodeKind },
    CompositionInstance {
        composition_id: CompositionId,
        definition_version: u32,
        inputs: OrderedMap<String, PropertyValue>,
        admitted_overrides: OrderedMap<String, PropertyValue>,
    },
}

/// The validated owner of one node in the flat parent index.
#[derive(Clone, Debug, PartialEq, Eq)]
pub enum NodeParent {
    Screen { screen_id: ScreenId },
    Node { node_id: NodeId },
    Composition { composition_id: CompositionId },
}

impl NodeParent {
    /// A copy of this parent reference.
    pub fn copy(&self) -> (r: Self)
        ensures
            r == *self,
    {
        match self {
            NodeParent::Screen { screen_id } => NodeParent::Screen { screen_id: screen_id.copy() },
            NodeParent::Node { node_id } => NodeParent::Node { node_id: node_id.copy() },
            NodeParent::Composition { composition_id } => NodeParent::Composition {
                composition_id: composition_id.copy(),
            },
        }
    }
}

/// One routable screen whose root is stored in the global node map.
#[derive(Clone, Debug, PartialEq, Eq)]
pub struct Screen {
    pub schema_version: u16,
    pub id: ScreenId,
    pub name: String,
    pub route: String,
    pub root_node_id: NodeId,
}

/// One project-owned Reusable Composition definition.
#[derive(Clone, Debug, PartialEq)]
pub struct ReusableComposition {
    pub schema_version: u16,
    pub id: CompositionId,
    pub name: String,
    pub definition_version: u32,
    pub root_node_id: NodeId,
    pub inputs: OrderedMap<String, CompositionInput>,
    pub slots: OrderedMap<String, SlotDefinition>,
}

#[derive(Clone, Debug, PartialEq)]
pub struct CompositionInput {
    pub value_kind: ValueKind,
    pub required: bool,
    pub default: Option<PropertyValue>,
    pub overridable: bool,
}

#[derive(Clone, Copy, Debug, PartialEq, Eq, Structural)]
pub struct SlotDefinition {
    pub required: bool,
    pub accepts_multiple: bool,
}

/// Closed property-value categories used by composition contracts.
#[derive(Clone, Copy, Debug, PartialEq, Eq, Structural)]
pub enum ValueKind {
    String,
    Boolean,
    Integer,
    Decimal,
    Length,
    Color,
    Token,
    Binding,
    Node,
    Asset,
    List,
}

/// One closed typed authored property value.
#[derive(Debug, PartialEq)]
pub enum PropertyValue {
    String(String),
    Boolean(bool),
    Integer(i64),
    Decimal(String),
    Length(Length),
    Color(ColorValue),
    Token(TokenId),
    Binding(BindingPath),
    Node(NodeId),
    Asset(LibraryAssetId),
    List(Vec<PropertyValue>),
}

#[derive(Clone, Debug, PartialEq, Eq)]
pub struct BindingPath {
    pub collection: String,
    pub segments: Vec<String>,
}

impl BindingPath {
    /// A copy of this path.
    pub fn copy(&self) -> (r: Self)
        ensures
            r.collection == self.collection,
            r.segments@ == self.segments@,
    {
        let mut segments: Vec<String> = Vec::new();
        let mut i: usize = 0;
        while i < self.segments.len()
            invariant
                i <= self.segments@.len(),
                segments@ == self.segments@.subrange(0, i as int),
            decreases self.segments@.len() - i,
        {
            segments.push(self.segments[i].clone());
            i = i + 1;
        }
        assert(segments@ =~= self.segments@);
        BindingPath { collection: self.collection.clone(), segments }
    }
}

/// Equality of property values up to the contents of their vectors: binding
/// paths compare by collection and segments, lists compare element by element
/// (a nested list element compares by its own length and contents of the
/// same shallow kind).
pub open spec fn same_value(a: PropertyValue, b: PropertyValue) -> bool {
    match a {
        PropertyValue::List(xs) => match b {
            PropertyValue::List(ys) => xs@.len() == ys@.len() && forall|i: int|
                0 <= i < xs@.len() ==> #[trigger] same_item(xs@[i], ys@[i]),
            _ => false,
        },
        _ => same_item(a, b),
    }
}

/// One level of value equality: scalars by value, binding paths by contents,
/// lists by length.
pub open spec fn same_item(a: PropertyValue, b: PropertyValue) -> bool {
    match a {
        PropertyValue::List(xs) => match b {
            PropertyValue::List(ys) => xs@.len() == ys@.len(),
            _ => false,
        },
        PropertyValue::Binding(x) => match b {
            PropertyValue::Binding(y) => x.collection == y.collection && x.segments@
                == y.segments@,
            _ => false,
        },
        _ => a == b,
    }
}

impl PropertyValue {
    /// A deep copy of this value.
    pub fn copy(&self) -> (r: Self)
        ensures
            same_value(*self, r),
        decreases self,
    {
        match self {
            PropertyValue::String(s) => {
                let c = s.clone();
                assert(c == *s);
                let r = PropertyValue::String(c);
                assert(*self == r);
                r
            },
            PropertyValue::Boolean(b) => PropertyValue::Boolean(*b),
            PropertyValue::Integer(v) => PropertyValue::Integer(*v),
            PropertyValue::Decimal(s) => PropertyValue::Decimal(s.clone()),
            PropertyValue::Length(l) => PropertyValue::Length(l.copy()),
            PropertyValue::Color(c) => PropertyValue::Color(c.copy()),
            PropertyValue::Token(t) => PropertyValue::Token(t.copy()),
            PropertyValue::Binding(b) => PropertyValue::Binding(b.copy()),
            PropertyValue::Node(n) => PropertyValue::Node(n.copy()),
            PropertyValue::Asset(a) => PropertyValue::Asset(a.copy()),
            PropertyValue::List(items) => {
                let mut out: Vec<PropertyValue> = Vec::new();
                let mut i: usize = 0;
                while i < items.len()
                    invariant
                        *self == PropertyValue::List(*items),
                        i <= items@.len(),
                        out@.len() == i,
                        forall|j: int| 0 <= j < i ==> #[trigger] same_item(items@[j], out@[j]),
                    decreases items@.len() - i,
                {
                    proof {
                        vstd::std_specs::vec::axiom_vec_index_decreases(*items, i as int);
                        assert(decreases_to!(*self => (*self)->List_0));
                        assert(decreases_to!(*self => (*self)->List_0@[i as int]));
                    }
                    let c = items[i].copy();
                    let ghost prev = out@;
                    out.push(c);
                    assert forall|j: int| 0 <= j < i + 1 implies #[trigger] same_item(
                        items@[j],
                        out@[j],
                    ) by {
                        if j < i {
                            assert(same_item(items@[j], prev[j]));
                            assert(out@[j] == prev[j]);
                        }
                    }
                    i = i + 1;
                }
                let r = PropertyValue::List(out);
                assert(out@.len() == items@.len());
                assert(forall|j: int| 0 <= j < items@.len() ==> #[trigger] same_item(items@[j], out@[j]));
                r
            },
        }
    }
}

/// Equality of colors by kind and text.
pub open spec fn color_eq(a: ColorValue, b: ColorValue) -> bool {
    match a {
        ColorValue::SrgbHex(x) => b matches ColorValue::SrgbHex(y) && x@ == y@,
        ColorValue::Semantic(x) => b matches ColorValue::Semantic(y) && x@ == y@,
    }
}

/// Equality of string sequences by text.
pub open spec fn strings_eq(a: Seq<String>, b: Seq<String>) -> bool {
    a.len() == b.len() && forall|i: int| 0 <= i < a.len() ==> (#[trigger] a[i])@ == b[i]@
}

/// Structural equality of property values, comparing text by its
/// characters and lists element by element.
pub open spec fn value_eq(a: PropertyValue, b: PropertyValue) -> bool
    decreases a,
{
    match a {
        PropertyValue::String(x) => b matches PropertyValue::String(y) && x@ == y@,
        PropertyValue::Boolean(x) => b matches PropertyValue::Boolean(y) && x == y,
        PropertyValue::Integer(x) => b matches PropertyValue::Integer(y) && x == y,
        PropertyValue::Decimal(x) => b matches PropertyValue::Decimal(y) && x@ == y@,
        PropertyValue::Length(x) => b matches PropertyValue::Length(y) && x.value@ == y.value@ && x.unit == y.unit,
        PropertyValue::Color(x) => b matches PropertyValue::Color(y) && color_eq(x, y),
        PropertyValue::Token(x) => b matches PropertyValue::Token(y) && x@ == y@,
        PropertyValue::Binding(x) => b matches PropertyValue::Binding(y) && x.collection@ == y.collection@
            && strings_eq(x.segments@, y.segments@),
        PropertyValue::Node(x) => b matches PropertyValue::Node(y) && x@ == y@,
        PropertyValue::Asset(x) => b matches PropertyValue::Asset(y) && x@ == y@,
        PropertyValue::List(xs) => match b {
            PropertyValue::List(ys) => {
                proof {
                    vstd::std_specs::vec::axiom_vec_decreases_to_view(xs);
                }
                list_eq(xs@, ys@)
            },
            _ => false,
        },
    }
}

/// Element-wise structural equality of value sequences.
pub open spec fn list_eq(xs: Seq<PropertyValue>, ys: Seq<PropertyValue>) -> bool
    decreases xs,
{
    if xs.len() != ys.len() {
        false
    } else if xs.len() == 0 {
        true
    } else {
        value_eq(xs[0], ys[0]) && list_eq(xs.drop_first(), ys.drop_first())
    }
}

fn color_equals(a: &ColorValue, b: &ColorValue) -> (r: bool)
    ensures
        r == color_eq(*a, *b),
{
    match (a, b) {
        (ColorValue::SrgbHex(x), ColorValue::SrgbHex(y)) => crate::text::str_eq(x.as_str(), y.as_str()),
        (ColorValue::Semantic(x), ColorValue::Semantic(y)) => crate::text::str_eq(x.as_str(), y.as_str()),
        _ => false,
    }
}

fn strings_equal(a: &Vec<String>, b: &Vec<String>) -> (r: bool)
    ensures
        r == strings_eq(a@, b@),
{
    if a.len() != b.len() {
        return false;
    }
    let mut i: usize = 0;
    while i < a.len()
        invariant
            i <= a@.len(),
            a@.len() == b@.len(),
            forall|j: int| 0 <= j < i ==> (#[trigger] a@[j])@ == b@[j]@,
        decreases a@.len() - i,
    {
        if !crate::text::str_eq(a[i].as_str(), b[i].as_str()) {
            return false;
        }
        i = i + 1;
    }
    true
}

impl PropertyValue {
    /// Structural equality with another value.
    pub fn equals(&self, other: &PropertyValue) -> (r: bool)
        ensures
            r == value_eq(*self, *other),
        decreases self,
    {
        match (self, other) {
            (PropertyValue::String(x), PropertyValue::String(y)) => crate::text::str_eq(x.as_str(), y.as_str()),
            (PropertyValue::Boolean(x), PropertyValue::Boolean(y)) => *x == *y,
            (PropertyValue::Integer(x), PropertyValue::Integer(y)) => *x == *y,
            (PropertyValue::Decimal(x), PropertyValue::Decimal(y)) => crate::text::str_eq(x.as_str(), y.as_str()),
            (PropertyValue::Length(x), PropertyValue::Length(y)) => crate::text::str_eq(x.value.as_str(), y.value.as_str()) && x.unit == y.unit,
            (PropertyValue::Color(x), PropertyValue::Color(y)) => color_equals(x, y),
            (PropertyValue::Token(x), PropertyValue::Token(y)) => x.same(y),
            (PropertyValue::Binding(x), PropertyValue::Binding(y)) => crate::text::str_eq(x.collection.as_str(), y.collection.as_str()) && strings_equal(&x.segments, &y.segments),
            (PropertyValue::Node(x), PropertyValue::Node(y)) => x.same(y),
            (PropertyValue::Asset(x), PropertyValue::Asset(y)) => x.same(y),
            (PropertyValue::List(xs), PropertyValue::List(ys)) => {
                if xs.len() != ys.len() {
                    return false;
                }
                let mut i: usize = 0;
                assert(xs@.skip(0) =~= xs@);
                assert(ys@.skip(0) =~= ys@);
                while i < xs.len()
                    invariant
                        *self == PropertyValue::List(*xs),
                        *other == PropertyValue::List(*ys),
                        i <= xs@.len(),
                        xs@.len() == ys@.len(),
                        value_eq(*self, *other) == list_eq(xs@.skip(i as int), ys@.skip(i as int)),
                    decreases xs@.len() - i,
                {
                    proof {
                        vstd::std_specs::vec::axiom_vec_index_decreases(*xs, i as int);
                        assert(decreases_to!(*self => (*self)->List_0));
                        assert(decreases_to!(*self => (*self)->List_0@[i as int]));
                    }
                    let ghost sx = xs@.skip(i as int);
                    let ghost sy = ys@.skip(i as int);
                    assert(sx[0] == xs@[i as int]);
                    assert(sy[0] == ys@[i as int]);
                    assert(sx.drop_first() =~= xs@.skip(i + 1));
                    assert(sy.drop_first() =~= ys@.skip(i + 1));
                    if !xs[i].equals(&ys[i]) {
                        return false;
                    }
                    i = i + 1;
                }
                true
            },
            _ => false,
        }
    }
}

/// A copy of a property-value map with the same keys, in the same order,
/// and values equal by [`same_value`].
pub fn copy_value_map(m: &OrderedMap<String, PropertyValue>) -> (r: OrderedMap<String, PropertyValue>)
    ensures
        same_value_map(*m, r),
{
    m.reveal_entries();
    let mut r: OrderedMap<String, PropertyValue> = OrderedMap::new();
    let n = m.len();
    let mut i: usize = 0;
    while i < n
        invariant
            n == m.entry_seq().len(),
            i <= n,
            crate::ordered_map::strictly_sorted(m.key_seq()),
            r.entry_seq().len() == i,
            forall|j: int| 0 <= j < i ==> #[trigger] r.entry_seq()[j].0 == m.entry_seq()[j].0,
            forall|j: int| 0 <= j < i ==> same_value(m.entry_seq()[j].1, #[trigger] r.entry_seq()[j].1),
        decreases n - i,
    {
        let k = m.key_at(i).clone();
        let v = m.value_at(i).copy();
        proof {
            assert(m.key_seq()[i as int] == k@);
            if i > 0 {
                assert(r.key_seq().last() == r.entry_seq()[i - 1].0@);
                assert(r.key_seq().last() == m.key_seq()[i - 1]);
                assert(chars_before(m.key_seq()[i - 1], m.key_seq()[i as int]));
            }
        }
        r.push_last(k, v);
        i = i + 1;
    }
    assert(r.key_seq() =~= m.key_seq());
    r
}

/// Two value maps with the same keys in the same order and equal values.
pub open spec fn same_value_map(a: OrderedMap<String, PropertyValue>, b: OrderedMap<String, PropertyValue>) -> bool {
    &&& a.key_seq() == b.key_seq()
    &&& a.entry_seq().len() == b.entry_seq().len()
    &&& forall|j: int| 0 <= j < a.entry_seq().len() ==> same_value(a.entry_seq()[j].1, #[trigger] b.entry_seq()[j].1)
}

impl Clone for PropertyValue {
    fn clone(&self) -> (r: Self)
        ensures
            same_value(*self, r),
    {
        self.copy()
    }
}

#[derive(Clone, Debug, PartialEq, Eq)]
pub struct Length {
    pub value: String,
    pub unit: LengthUnit,
}

impl Length {
    /// A copy of this length.
    pub fn copy(&self) -> (r: Self)
        ensures
            r == *self,
    {
        Length { value: self.value.clone(), unit: self.unit }
    }
}

/// Copy an optional length.
pub fn copy_opt_length(v: &Option<Length>) -> (r: Option<Length>)
    ensures
        r == *v,
{
    match v {
        Some(l) => Some(l.copy()),
        None => None,
    }
}

#[derive(Clone, Copy, Debug, PartialEq, Eq, Structural)]
pub enum LengthUnit {
    Pixels,
    Percent,
    ViewportWidth,
    ViewportHeight,
    Rem,
    Auto,
}

#[derive(Clone, Debug, PartialEq, Eq)]
pub enum ColorValue {
    SrgbHex(String),
    Semantic(String),
}

impl ColorValue {
    /// A copy of this color.
    pub fn copy(&self) -> (r: Self)
        ensures
            r == *self,
    {
        match self {
            ColorValue::SrgbHex(s) => ColorValue::SrgbHex(s.clone()),
            ColorValue::Semantic(s) => ColorValue::Semantic(s.clone()),
        }
    }
}

#[derive(Clone, Debug, PartialEq, Eq)]
pub enum Paint {
    Color(ColorValue),
    Token(TokenId),
    NoPaint,
}

impl Paint {
    /// A copy of this paint.
    pub fn copy(&self) -> (r: Self)
        ensures
            r == *self,
    {
        match self {
            Paint::Color(c) => Paint::Color(c.copy()),
            Paint::Token(t) => Paint::Token(t.copy()),
            Paint::NoPaint => Paint::NoPaint,
        }
    }
}

/// Copy an optional paint.
pub fn copy_opt_paint(v: &Option<Paint>) -> (r: Option<Paint>)
    ensures
        r == *v,
{
    match v {
        Some(p) => Some(p.copy()),
        None => None,
    }
}

/// Copy an optional string.
pub fn copy_opt_string(v: &Option<String>) -> (r: Option<String>)
    ensures
        r == *v,
{
    match v {
        Some(s) => Some(s.clone()),
        None => None,
    }
}

/// `a` when present, otherwise `b`.
pub open spec fn or_else<T>(a: Option<T>, b: Option<T>) -> Option<T> {
    if a is Some {
        a
    } else {
        b
    }
}

#[derive(Clone, Debug, PartialEq, Eq)]
pub struct LayoutProperties {
    pub schema_version: u16,
    pub width: Option<Length>,
    pub height: Option<Length>,
    pub min_width: Option<Length>,
    pub max_width: Option<Length>,
    pub min_height: Option<Length>,
    pub max_height: Option<Length>,
    pub gap: Option<Length>,
    pub row_gap: Option<Length>,
    pub column_gap: Option<Length>,
    pub padding: Option<Length>,
    pub placement: Option<Placement>,
    pub position: Option<LayoutPosition>,
    pub alignment: Option<Alignment>,
    pub grid_columns: Option<u16>,
}

/// Sparse merge of a breakpoint override over a base layout: every field the
/// override authors wins, every omitted field keeps the base value, and a flow
/// placement clears any edge position.
pub open spec fn merged_layout(base: LayoutProperties, over: LayoutProperties) -> LayoutProperties {
    LayoutProperties {
        schema_version: base.schema_version,
        width: or_else(over.width, base.width),
        height: or_else(over.height, base.height),
        min_width: or_else(over.min_width, base.min_width),
        max_width: or_else(over.max_width, base.max_width),
        min_height: or_else(over.min_height, base.min_height),
        max_height: or_else(over.max_height, base.max_height),
        gap: or_else(over.gap, base.gap),
        row_gap: or_else(over.row_gap, base.row_gap),
        column_gap: or_else(over.column_gap, base.column_gap),
        padding: or_else(over.padding, base.padding),
        placement: or_else(over.placement, base.placement),
        position: if over.placement == Some(Placement::Flow) {
            None
        } else {
            or_else(over.position, base.position)
        },
        alignment: or_else(over.alignment, base.alignment),
        grid_columns: or_else(over.grid_columns, base.grid_columns),
    }
}

/// A breakpoint layout override wins field by field: every layout field the
/// override sets is the resolved value and every field it leaves unset keeps
/// the base value, except that an override placing the node in flow drops
/// any overlay position.
pub proof fn lemma_override_layout_wins(base: LayoutProperties, over: LayoutProperties)
    ensures
        merged_layout(base, over).schema_version == base.schema_version,
        over.width is Some ==> merged_layout(base, over).width == over.width,
        over.width is None ==> merged_layout(base, over).width == base.width,
        over.height is Some ==> merged_layout(base, over).height == over.height,
        over.height is None ==> merged_layout(base, over).height == base.height,
        over.min_width is Some ==> merged_layout(base, over).min_width == over.min_width,
        over.min_width is None ==> merged_layout(base, over).min_width == base.min_width,
        over.max_width is Some ==> merged_layout(base, over).max_width == over.max_width,
        over.max_width is None ==> merged_layout(base, over).max_width == base.max_width,
        over.min_height is Some ==> merged_layout(base, over).min_height == over.min_height,
        over.min_height is None ==> merged_layout(base, over).min_height == base.min_height,
        over.max_height is Some ==> merged_layout(base, over).max_height == over.max_height,
        over.max_height is None ==> merged_layout(base, over).max_height == base.max_height,
        over.gap is Some ==> merged_layout(base, over).gap == over.gap,
        over.gap is None ==> merged_layout(base, over).gap == base.gap,
        over.row_gap is Some ==> merged_layout(base, over).row_gap == over.row_gap,
        over.row_gap is None ==> merged_layout(base, over).row_gap == base.row_gap,
        over.column_gap is Some ==> merged_layout(base, over).column_gap == over.column_gap,
        over.column_gap is None ==> merged_layout(base, over).column_gap == base.column_gap,
        over.padding is Some ==> merged_layout(base, over).padding == over.padding,
        over.padding is None ==> merged_layout(base, over).padding == base.padding,
        over.placement is Some ==> merged_layout(base, over).placement == over.placement,
        over.placement is None ==> merged_layout(base, over).placement == base.placement,
        over.alignment is Some ==> merged_layout(base, over).alignment == over.alignment,
        over.alignment is None ==> merged_layout(base, over).alignment == base.alignment,
        over.grid_columns is Some ==> merged_layout(base, over).grid_columns == over.grid_columns,
        over.grid_columns is None ==> merged_layout(base, over).grid_columns == base.grid_columns,
        over.placement == Some(Placement::Flow) ==> merged_layout(base, over).position is None,
        over.placement != Some(Placement::Flow) && over.position is Some ==> merged_layout(base, over).position == over.position,
        over.placement != Some(Placement::Flow) && over.position is None ==> merged_layout(base, over).position == base.position,
{
}

impl LayoutProperties {
    pub open spec fn spec_default() -> Self {
        LayoutProperties {
            schema_version: STUDIO_DESIGN_SCHEMA_VERSION,
            width: None,
            height: None,
            min_width: None,
            max_width: None,
            min_height: None,
            max_height: None,
            gap: None,
            row_gap: None,
            column_gap: None,
            padding: None,
            placement: None,
            position: None,
            alignment: None,
            grid_columns: None,
        }
    }

    /// Return a flow layout with no authored constraints.
    pub fn flow() -> (r: Self)
        ensures
            r == Self::spec_default(),
    {
        Self::default()
    }

    /// Return an overlay layout suitable for a child of a Stack.
    pub fn overlay() -> (r: Self)
        ensures
            r == (LayoutProperties { placement: Some(Placement::Overlay), ..Self::spec_default() }),
    {
        let mut r = Self::default();
        r.placement = Some(Placement::Overlay);
        r
    }

    /// Return an absolute layout suitable for a child of a Stack.
    pub fn absolute() -> (r: Self)
        ensures
            r == (LayoutProperties { placement: Some(Placement::Absolute), ..Self::spec_default() }),
    {
        let mut r = Self::default();
        r.placement = Some(Placement::Absolute);
        r
    }

    /// A copy of this layout.
    pub fn copy(&self) -> (r: Self)
        ensures
            r == *self,
    {
        LayoutProperties {
            schema_version: self.schema_version,
            width: copy_opt_length(&self.width),
            height: copy_opt_length(&self.height),
            min_width: copy_opt_length(&self.min_width),
            max_width: copy_opt_length(&self.max_width),
            min_height: copy_opt_length(&self.min_height),
            max_height: copy_opt_length(&self.max_height),
            gap: copy_opt_length(&self.gap),
            row_gap: copy_opt_length(&self.row_gap),
            column_gap: copy_opt_length(&self.column_gap),
            padding: copy_opt_length(&self.padding),
            placement: self.placement,
            position: match &self.position {
                Some(p) => Some(p.copy()),
                None => None,
            },
            alignment: self.alignment,
            grid_columns: self.grid_columns,
        }
    }

    /// Merge a breakpoint override over the base layout.
    ///
    /// Overrides are sparse: an omitted field keeps the base value.
    pub fn merged_with(&self, override_layout: &Self) -> (r: Self)
        ensures
            r == merged_layout(*self, *override_layout),
    {
        let placement = match override_layout.placement {
            Some(p) => Some(p),
            None => self.placement,
        };
        let position = match override_layout.placement {
            Some(Placement::Flow) => None,
            _ => match &override_layout.position {
                Some(p) => Some(p.copy()),
                None => match &self.position {
                    Some(p) => Some(p.copy()),
                    None => None,
                },
            },
        };
        LayoutProperties {
            schema_version: self.schema_version,
            width: pick_length(&override_layout.width, &self.width),
            height: pick_length(&override_layout.height, &self.height),
            min_width: pick_length(&override_layout.min_width, &self.min_width),
            max_width: pick_length(&override_layout.max_width, &self.max_width),
            min_height: pick_length(&override_layout.min_height, &self.min_height),
            max_height: pick_length(&override_layout.max_height, &self.max_height),
            gap: pick_length(&override_layout.gap, &self.gap),
            row_gap: pick_length(&override_layout.row_gap, &self.row_gap),
            column_gap: pick_length(&override_layout.column_gap, &self.column_gap),
            padding: pick_length(&override_layout.padding, &self.padding),
            placement,
            position,
            alignment: match override_layout.alignment {
                Some(a) => Some(a),
                None => self.alignment,
            },
            grid_columns: match override_layout.grid_columns {
                Some(g) => Some(g),
                None => self.grid_columns,
            },
        }
    }
}

/// The override length when present, otherwise the base length.
pub fn pick_length(over: &Option<Length>, base: &Option<Length>) -> (r: Option<Length>)
    ensures
        r == or_else(*over, *base),
{
    match over {
        Some(l) => Some(l.copy()),
        None => copy_opt_length(base),
    }
}

impl Default for LayoutProperties {
    fn default() -> (r: Self)
        ensures
            r == Self::spec_default(),
    {
        LayoutProperties {
            schema_version: STUDIO_DESIGN_SCHEMA_VERSION,
            width: None,
            height: None,
            min_width: None,
            max_width: None,
            min_height: None,
            max_height: None,
            gap: None,
            row_gap: None,
            column_gap: None,
            padding: None,
            placement: None,
            position: None,
            alignment: None,
            grid_columns: None,
        }
    }
}

/// Explicit edge placement for an overlay or absolute child.
#[derive(Clone, Debug, PartialEq, Eq)]
pub struct LayoutPosition {
    pub schema_version: u16,
    pub top: Option<Length>,
    pub right: Option<Length>,
    pub bottom: Option<Length>,
    pub left: Option<Length>,
}

impl Default for LayoutPosition {
    fn default() -> (r: Self)
        ensures
            r.schema_version == STUDIO_DESIGN_SCHEMA_VERSION,
            r.top is None,
            r.right is None,
            r.bottom is None,
            r.left is None,
    {
        LayoutPosition {
            schema_version: STUDIO_DESIGN_SCHEMA_VERSION,
            top: None,
            right: None,
            bottom: None,
            left: None,
        }
    }
}

impl LayoutPosition {
    /// Return whether at least one edge was authored.
    pub fn has_edges(&self) -> (r: bool)
        ensures
            r == (self.top is Some || self.right is Some || self.bottom is Some
                || self.left is Some),
    {
        self.top.is_some() || self.right.is_some() || self.bottom.is_some() || self.left.is_some()
    }

    /// A copy of this position.
    pub fn copy(&self) -> (r: Self)
        ensures
            r == *self,
    {
        LayoutPosition {
            schema_version: self.schema_version,
            top: copy_opt_length(&self.top),
            right: copy_opt_length(&self.right),
            bottom: copy_opt_length(&self.bottom),
            left: copy_opt_length(&self.left),
        }
    }
}

#[derive(Clone, Copy, Debug, PartialEq, Eq, Structural)]
pub enum Placement {
    Flow,
    Overlay,
    Absolute,
}

#[derive(Clone, Copy, Debug, PartialEq, Eq, Structural)]
pub enum Alignment {
    Start,
    Center,
    End,
    Stretch,
    SpaceBetween,
}

#[derive(Clone, Debug, PartialEq, Eq)]
pub struct StyleProperties {
    pub schema_version: u16,
    pub background: Option<Paint>,
    pub foreground: Option<Paint>,
    pub opacity: Option<String>,
    pub corner_radius: Option<Length>,
    pub border_width: Option<Length>,
    pub border_color: Option<Paint>,
}

impl StyleProperties {
    pub open spec fn spec_default() -> Self {
        StyleProperties {
            schema_version: STUDIO_DESIGN_SCHEMA_VERSION,
            background: None,
            foreground: None,
            opacity: None,
            corner_radius: None,
            border_width: None,
            border_color: None,
        }
    }

    /// A copy of this style.
    pub fn copy(&self) -> (r: Self)
        ensures
            r == *self,
    {
        StyleProperties {
            schema_version: self.schema_version,
            background: copy_opt_paint(&self.background),
            foreground: copy_opt_paint(&self.foreground),
            opacity: copy_opt_string(&self.opacity),
            corner_radius: copy_opt_length(&self.corner_radius),
            border_width: copy_opt_length(&self.border_width),
            border_color: copy_opt_paint(&self.border_color),
        }
    }
}

impl Default for StyleProperties {
    fn default() -> (r: Self)
        ensures
            r == Self::spec_default(),
    {
        StyleProperties {
            schema_version: STUDIO_DESIGN_SCHEMA_VERSION,
            background: None,
            foreground: None,
            opacity: None,
            corner_radius: None,
            border_width: None,
            border_color: None,
        }
    }
}

#[derive(Clone, Debug, PartialEq, Eq)]
pub struct AccessibilityProperties {
    pub schema_version: u16,
    pub label: Option<String>,
    pub hint: Option<String>,
    pub role: Option<AccessibilityRole>,
    pub hidden: bool,
}

impl AccessibilityProperties {
    pub open spec fn spec_default() -> Self {
        AccessibilityProperties {
            schema_version: STUDIO_DESIGN_SCHEMA_VERSION,
            label: None,
            hint: None,
            role: None,
            hidden: false,
        }
    }
}

impl Default for AccessibilityProperties {
    fn default() -> (r: Self)
        ensures
            r == Self::spec_default(),
    {
        AccessibilityProperties {
            schema_version: STUDIO_DESIGN_SCHEMA_VERSION,
            label: None,
            hint: None,
            role: None,
            hidden: false,
        }
    }
}

#[derive(Clone, Copy, Debug, PartialEq, Eq, Structural)]
pub enum AccessibilityRole {
    Button,
    Checkbox,
    Heading,
    Image,
    Link,
    List,
    ListItem,
    Navigation,
    Text,
    TextInput,
}

/// One named base-plus-breakpoint profile.
#[derive(Clone, Debug, PartialEq, Eq)]
pub struct ResponsiveVariant {
    pub schema_version: u16,
    pub id: ResponsiveVariantId,
    pub name: String,
    pub minimum_width: Option<u32>,
    pub maximum_width: Option<u32>,
    pub input: InputEnvironment,
}

#[derive(Clone, Copy, Debug, PartialEq, Eq, Structural)]
pub enum InputEnvironment {
    Any,
    Pointer,
    Touch,
}

#[derive(Clone, Debug, PartialEq)]
pub struct ResponsiveNodeOverride {
    pub schema_version: u16,
    pub properties: OrderedMap<String, PropertyValue>,
    pub layout: LayoutProperties,
    pub style: StyleProperties,
}

impl StudioDesign {
    /// Resolve a node's authored layout for a responsive variant identity.
    pub fn layout_for_variant(
        &self,
        node_id: &NodeId,
        variant_id: Option<&ResponsiveVariantId>,
    ) -> (r: Option<LayoutProperties>)
        ensures
            r == (if self.nodes@.contains_key(node_id@) {
                Some(node_layout_for(self.nodes@[node_id@], match variant_id {
                    Some(v) => Some(v@),
                    None => None,
                }))
            } else {
                None
            }),
    {
        match self.nodes.get(node_id.as_str()) {
            Some(node) => Some(node.layout_for_variant(variant_id)),
            None => None,
        }
    }

    /// Resolve a node's authored layout by the session-facing profile name.
    ///
    /// Both the stable variant ID and its display name are accepted; an
    /// unknown profile falls back to the base layout.
    pub fn layout_for_profile(&self, node_id: &NodeId, profile: Option<&str>) -> (r: Option<
        LayoutProperties,
    >)
        ensures
            r == (if self.nodes@.contains_key(node_id@) {
                Some(node_layout_for(self.nodes@[node_id@], match profile {
                    Some(p) => profile_variant(self.responsive_variants.entry_seq(), p@),
                    None => None,
                }))
            } else {
                None
            }),
    {
        let variant = match profile {
            Some(p) => self.find_profile_variant(p),
            None => None,
        };
        match variant {
            Some(i) => {
                let id = &self.responsive_variants.value_at(i).id;
                self.layout_for_variant(node_id, Some(id))
            },
            None => self.layout_for_variant(node_id, None),
        }
    }

    /// Resolve a complete node for a session-facing profile name: the node
    /// with its layout resolved for the profile.
    pub fn node_for_profile(&self, node_id: &NodeId, profile: Option<&str>) -> (r: Option<DesignNode>)
        ensures
            r is Some <==> self.nodes@.contains_key(node_id@),
            r matches Some(n) ==> {
                let node = self.nodes@[node_id@];
                &&& n.layout == node_layout_for(node, match profile {
                    Some(p) => profile_variant(self.responsive_variants.entry_seq(), p@),
                    None => None,
                })
                &&& n.schema_version == node.schema_version
                &&& n.id == node.id
                &&& n.name@ == node.name@
                &&& n.children@ == node.children@
                &&& same_value_map(node.properties, n.properties)
                &&& n.style == node.style
                &&& n.interaction_ids@ == node.interaction_ids@
            },
    {
        let layout = match self.layout_for_profile(node_id, profile) {
            Some(l) => l,
            None => {
                return None;
            },
        };
        match self.nodes.get(node_id.as_str()) {
            Some(node) => Some(
                DesignNode {
                    schema_version: node.schema_version,
                    id: node.id.copy(),
                    name: node.name.clone(),
                    source: node.source.clone(),
                    children: copy_ids(&node.children),
                    properties: copy_value_map(&node.properties),
                    layout,
                    style: node.style.copy(),
                    accessibility: node.accessibility.clone(),
                    responsive_overrides: node.responsive_overrides.clone(),
                    interaction_ids: copy_ids(&node.interaction_ids),
                },
            ),
            None => None,
        }
    }

    fn find_profile_variant(&self, profile: &str) -> (r: Option<usize>)
        ensures
            match r {
                Some(i) => i < self.responsive_variants.entry_seq().len() && profile_variant(
                    self.responsive_variants.entry_seq(),
                    profile@,
                ) == Some(self.responsive_variants.entry_seq()[i as int].1.id@),
                None => profile_variant(self.responsive_variants.entry_seq(), profile@) is None,
            },
    {
        let n = self.responsive_variants.len();
        let mut i: usize = 0;
        assert(self.responsive_variants.entry_seq().skip(0) =~= self.responsive_variants.entry_seq());
        while i < n
            invariant
                n == self.responsive_variants.entry_seq().len(),
                i <= n,
                profile_variant(self.responsive_variants.entry_seq(), profile@)
                    == profile_variant(self.responsive_variants.entry_seq().skip(i as int), profile@),
            decreases n - i,
        {
            let v = self.responsive_variants.value_at(i);
            let ghost s = self.responsive_variants.entry_seq().skip(i as int);
            assert(s[0] == self.responsive_variants.entry_seq()[i as int]);
            if crate::text::str_eq(v.id.as_str(), profile) || crate::text::str_eq(
                v.name.as_str(),
                profile,
            ) {
                return Some(i);
            }
            assert(s.drop_first() =~= self.responsive_variants.entry_seq().skip(i + 1));
            i = i + 1;
        }
        None
    }
}

/// The first variant (in identity order) whose identity or display name is `profile`.
pub open spec fn profile_variant(
    entries: Seq<(ResponsiveVariantId, ResponsiveVariant)>,
    profile: Seq<char>,
) -> Option<Seq<char>>
    decreases entries.len(),
{
    if entries.len() == 0 {
        None
    } else if entries[0].1.id@ == profile || entries[0].1.name@ == profile {
        Some(entries[0].1.id@)
    } else {
        profile_variant(entries.drop_first(), profile)
    }
}

/// One versioned project-owned design token.
#[derive(Clone, Debug, PartialEq, Eq)]
pub struct DesignToken {
    pub schema_version: u16,
    pub id: TokenId,
    pub name: String,
    pub kind: TokenKind,
    pub value: TokenValue,
}

#[derive(Clone, Copy, Debug, PartialEq, Eq, Structural)]
pub enum TokenKind {
    Color,
    Length,
    Number,
    String,
    Typography,
}

#[derive(Clone, Debug, PartialEq, Eq)]
pub enum TokenValue {
    Color(ColorValue),
    Length(Length),
    Number(String),
    String(String),
    Typography(TypographyToken),
}

#[derive(Clone, Debug, PartialEq, Eq)]
pub struct TypographyToken {
    pub family: String,
    pub weight: u16,
    pub size: String,
    pub line_height: String,
}

/// A typed declarative interaction reference graph entry.
#[derive(Clone, Debug, PartialEq)]
pub struct Interaction {
    pub schema_version: u16,
    pub id: InteractionId,
    pub source: InteractionSource,
    pub action: InteractionAction,
}

#[derive(Clone, Debug, PartialEq, Eq)]
pub struct InteractionSource {
    pub node_id: NodeId,
    pub event: InteractionEvent,
}

#[derive(Clone, Copy, Debug, PartialEq, Eq, Structural)]
pub enum InteractionEvent {
    Pressed,
    Changed,
    Submitted,
    Focused,
    Blurred,
}

#[derive(Clone, Debug, PartialEq)]
pub enum InteractionAction {
    Navigate { screen_id: ScreenId, mode: NavigationMode },
    SetProperty { node_id: NodeId, property: String, value: PropertyValue },
    ToggleVisibility { node_id: NodeId },
    Emit { event: String },
    Sequence { interaction_ids: Vec<InteractionId> },
}

/// Equality of interaction actions up to the contents of their vectors.
pub open spec fn same_action(a: InteractionAction, b: InteractionAction) -> bool {
    match a {
        InteractionAction::SetProperty { node_id, property, value } => match b {
            InteractionAction::SetProperty { node_id: n2, property: p2, value: v2 } => node_id
                == n2 && property == p2 && same_value(value, v2),
            _ => false,
        },
        InteractionAction::Sequence { interaction_ids } => match b {
            InteractionAction::Sequence { interaction_ids: i2 } => interaction_ids@ == i2@,
            _ => false,
        },
        _ => a == b,
    }
}

/// The interactions nested in a sequence action; empty for other actions.
pub open spec fn sequence_of(action: InteractionAction) -> Seq<InteractionId> {
    match action {
        InteractionAction::Sequence { interaction_ids } => interaction_ids@,
        _ => Seq::empty(),
    }
}

/// A copy of a vector of identities.
pub fn copy_ids<T>(ids: &Vec<Id<T>>) -> (r: Vec<Id<T>>)
    ensures
        r@ == ids@,
{
    let mut out: Vec<Id<T>> = Vec::new();
    let mut i: usize = 0;
    while i < ids.len()
        invariant
            i <= ids@.len(),
            out@ == ids@.subrange(0, i as int),
        decreases ids@.len() - i,
    {
        out.push(ids[i].copy());
        i = i + 1;
    }
    assert(out@ =~= ids@);
    out
}

impl InteractionAction {
    /// A deep copy of this action.
    pub fn copy(&self) -> (r: Self)
        ensures
            same_action(*self, r),
    {
        match self {
            InteractionAction::Navigate { screen_id, mode } => InteractionAction::Navigate {
                screen_id: screen_id.copy(),
                mode: *mode,
            },
            InteractionAction::SetProperty { node_id, property, value } => {
                InteractionAction::SetProperty {
                    node_id: node_id.copy(),
                    property: property.clone(),
                    value: value.copy(),
                }
            },
            InteractionAction::ToggleVisibility { node_id } => {
                InteractionAction::ToggleVisibility { node_id: node_id.copy() }
            },
            InteractionAction::Emit { event } => InteractionAction::Emit { event: event.clone() },
            InteractionAction::Sequence { interaction_ids } => InteractionAction::Sequence {
                interaction_ids: copy_ids(interaction_ids),
            },
        }
    }
}

#[derive(Clone, Copy, Debug, PartialEq, Eq, Structural)]
pub enum NavigationMode {
    Push,
    Replace,
    Reset,
    PopTo,
}

/// Metadata describing why one immutable revision exists.
#[derive(Clone, Debug, PartialEq, Eq)]
pub struct RevisionMetadata {
    pub id: RevisionId,
    pub parent_id: Option<RevisionId>,
    pub operation_id: OperationId,
    pub actor: Actor,
    pub undo_group_id: UndoGroupId,
    pub undo_group_name: String,
    pub reason: RevisionReason,
}

#[derive(Clone, Copy, Debug, PartialEq, Eq, Structural)]
pub enum RevisionReason {
    Initial,
    Command,
    Undo,
    Redo,
}

/// An owned snapshot that cannot mutate session state.
#[derive(Clone, Debug, PartialEq)]
pub struct StudioDesignSnapshot {
    pub revision: RevisionMetadata,
    pub design: StudioDesign,
    pub tombstones: OrderedMap<NodeId, DeletionTombstone>,
}

/// A deleted subtree plus placement and reference context sufficient for restore.
#[derive(Clone, Debug, PartialEq)]
pub struct DeletionTombstone {
    pub schema_version: u16,
    pub root_node_id: NodeId,
    pub nodes: OrderedMap<NodeId, DesignNode>,
    pub parents: OrderedMap<NodeId, NodeParent>,
    pub detached_from: NodeParent,
    pub detached_index: usize,
    pub deleted_in_revision: Option<RevisionId>,
    pub references: Vec<TombstoneReference>,
}

#[derive(Clone, Debug, PartialEq, Eq)]
pub struct TombstoneReference {
    pub owner: String,
    pub field: String,
    pub target_node_id: NodeId,
}

/// Session-owned node selection returned as an immutable value.
#[derive(Clone, Debug, PartialEq, Eq)]
pub struct SelectionSnapshot {
    pub node_ids: Vec<NodeId>,
    pub primary: Option<NodeId>,
}

impl Default for SelectionSnapshot {
    fn default() -> (r: Self)
        ensures
            r.node_ids@.len() == 0,
            r.primary is None,
    {
        SelectionSnapshot { node_ids: Vec::new(), primary: None }
    }
}

/// Severity of a safe authoring diagnostic.
#[derive(Clone, Copy, Debug, PartialEq, Eq, Structural)]
pub enum DiagnosticSeverity {
    Info,
    Warning,
    Error,
}

/// Stable, safe diagnostic returned by the Designer seam.
#[derive(Clone, Debug, PartialEq, Eq)]
pub struct DesignerDiagnostic {
    pub code: String,
    pub severity: DiagnosticSeverity,
    pub message: String,
    pub node_id: Option<NodeId>,
    pub interaction_id: Option<InteractionId>,
    pub collection_id: Option<CollectionId>,
    pub binding_id: Option<BindingId>,
    pub form_id: Option<FormId>,
    pub record_id: Option<RecordId>,
}

impl DesignerDiagnostic {
    /// A copy of this diagnostic.
    pub fn copy(&self) -> (r: Self)
        ensures
            r == *self,
    {
        DesignerDiagnostic {
            code: self.code.clone(),
            severity: self.severity,
            message: self.message.clone(),
            node_id: copy_opt_id(&self.node_id),
            interaction_id: copy_opt_id(&self.interaction_id),
            collection_id: copy_opt_id(&self.collection_id),
            binding_id: copy_opt_id(&self.binding_id),
            form_id: copy_opt_id(&self.form_id),
            record_id: copy_opt_id(&self.record_id),
        }
    }
}

/// The closed value kinds a content field may hold.
#[derive(Clone, Copy, Debug, PartialEq, Eq, Structural)]
pub enum ContentFieldKind {
    String,
    Integer,
    Decimal,
    Boolean,
    Color,
    Length,
    Asset,
}

/// One declared field of a content collection.
#[derive(Clone, Copy, Debug, PartialEq, Eq, Structural)]
pub struct ContentFieldSchema {
    pub kind: ContentFieldKind,
    pub required: bool,
}

/// The declared fields of a content collection.
#[derive(Clone, Debug, PartialEq, Eq)]
pub struct ContentCollectionSchema {
    pub schema_version: u16,
    pub fields: OrderedMap<String, ContentFieldSchema>,
}

/// One authored content record.
#[derive(Clone, Debug, PartialEq)]
pub struct ContentRecord {
    pub schema_version: u16,
    pub id: RecordId,
    pub values: OrderedMap<String, PropertyValue>,
}

/// The preview states a collection fixture can present.
#[derive(Clone, Copy, Debug, PartialEq, Eq, Structural)]
pub enum FixtureKind {
    Empty,
    Loading,
    Error,
    Populated,
    Edge,
}

/// A collection's preview fixture declaration.
#[derive(Clone, Debug, PartialEq)]
pub struct ContentFixture {
    pub schema_version: u16,
    pub kind: FixtureKind,
    pub edge_records: Vec<ContentRecord>,
    pub error_message: Option<String>,
}

/// A schema-aware content collection.
#[derive(Clone, Debug, PartialEq)]
pub struct ContentCollection {
    pub schema_version: u16,
    pub id: CollectionId,
    pub name: String,
    pub schema: ContentCollectionSchema,
    pub records: OrderedMap<RecordId, ContentRecord>,
    pub fixture: ContentFixture,
}

/// The collection field a binding reads.
#[derive(Clone, Debug, PartialEq, Eq)]
pub struct BindingSource {
    pub collection_id: CollectionId,
    pub field: String,
}

/// A typed binding of a node property to a collection field.
#[derive(Clone, Debug, PartialEq)]
pub struct ContentBinding {
    pub schema_version: u16,
    pub id: BindingId,
    pub node_id: NodeId,
    pub property: String,
    pub source: BindingSource,
    pub expected_kind: ContentFieldKind,
    pub fallback: Option<PropertyValue>,
    pub repeated: bool,
}

/// One declaratively validated form field.
#[derive(Clone, Debug, PartialEq, Eq)]
pub struct FormFieldSchema {
    pub kind: ContentFieldKind,
    pub required: bool,
    pub minimum_length: Option<usize>,
    pub maximum_length: Option<usize>,
    pub pattern: Option<String>,
    pub minimum_value: Option<String>,
    pub maximum_value: Option<String>,
}

/// A declarative form definition.
#[derive(Clone, Debug, PartialEq, Eq)]
pub struct FormDefinition {
    pub schema_version: u16,
    pub id: FormId,
    pub name: String,
    pub target_collection_id: Option<CollectionId>,
    pub fields: OrderedMap<String, FormFieldSchema>,
}

/// The outcome of validating submitted form values.
#[derive(Clone, Debug, PartialEq, Eq)]
pub struct FormValidationResult {
    pub valid: bool,
    pub field_errors: OrderedMap<String, String>,
}

/// A deterministic preview of a collection under one fixture state.
#[derive(Clone, Debug, PartialEq)]
pub struct CollectionPreview {
    pub collection_id: CollectionId,
    pub fixture: FixtureKind,
    pub records: Vec<ContentRecord>,
    pub is_loading: bool,
    pub is_error: bool,
    pub error_message: Option<String>,
}

} // verus!

verus! {

/// Merging an override that authors nothing leaves the base layout unchanged.
pub proof fn lemma_merge_with_empty_override(base: LayoutProperties)
    ensures
        merged_layout(base, LayoutProperties::spec_default()) == base,
{
}

/// Applying the same sparse override twice is the same as applying it once.
pub proof fn lemma_merge_idempotent(base: LayoutProperties, over: LayoutProperties)
    ensures
        merged_layout(merged_layout(base, over), over) == merged_layout(base, over),
{
}

/// Every field the override authors wins over the base.
pub proof fn lemma_merge_override_wins(base: LayoutProperties, over: LayoutProperties)
    ensures
        over.width is Some ==> merged_layout(base, over).width == over.width,
        over.height is Some ==> merged_layout(base, over).height == over.height,
        over.placement is Some ==> merged_layout(base, over).placement == over.placement,
        over.alignment is Some ==> merged_layout(base, over).alignment == over.alignment,
        over.placement != Some(Placement::Flow) && over.position is Some ==> merged_layout(
            base,
            over,
        ).position == over.position,
        merged_layout(base, over).schema_version == base.schema_version,
{
}

} // verus!
