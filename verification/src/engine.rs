//! Validated application of typed commands to a design snapshot.
//!
//! Every edit either applies completely and returns the command that undoes
//! it, or leaves the design untouched and returns one diagnostic.
use vstd::prelude::*;
use vstd::string::StringExecFns;
use vstd::utf8::encode_utf8;

use crate::command::{Command, CommandBatch, CommandPrecondition, ParentPlacement};
use crate::content::{
    DiagView, diag_view, is_blank, longer_than_256_bytes, push_diagnostic, valid_field_name, views,
};
use crate::ids::{InteractionId, NodeId, ResponsiveVariantId, TokenId, is_valid_identity};
use crate::model::{
    DesignNode, DesignNodeSource, DesignerDiagnostic, DiagnosticSeverity, LayoutProperties,
    NodeKind, NodeParent, PropertyValue, ResponsiveNodeOverride, STUDIO_DESIGN_SCHEMA_VERSION,
    StudioDesign, StyleProperties, TokenValue, value_eq, DesignToken, TokenKind, ResponsiveVariant,
    Interaction, InteractionAction,
};
use crate::ordered_map::{MapKey, OrderedMap};
use crate::text::{has_control, str_eq, trim_whitespace};

verus! {

/// An error diagnostic carrying at most a node link.
pub open spec fn error_view(code: Seq<char>, message: Seq<char>, node_id: Option<NodeId>) -> DiagView {
    (code, DiagnosticSeverity::Error, message, node_id, None, None, None, None, None)
}

/// Build an error diagnostic with an optional node link.
pub fn diagnostic(code: &str, message: &str, node_id: Option<NodeId>) -> (r: DesignerDiagnostic)
    ensures
        diag_view(r) == error_view(code@, message@, node_id),
{
    DesignerDiagnostic {
        code: String::from_str(code),
        severity: DiagnosticSeverity::Error,
        message: String::from_str(message),
        node_id,
        interaction_id: None,
        collection_id: None,
        binding_id: None,
        form_id: None,
        record_id: None,
    }
}

/// Build an error diagnostic linked to one node.
pub fn node_diagnostic(code: &str, message: &str, node_id: &NodeId) -> (r: DesignerDiagnostic)
    ensures
        diag_view(r) == error_view(code@, message@, Some(*node_id)),
{
    diagnostic(code, message, Some(node_id.copy()))
}

/// The diagnostic for a command that names an unknown node.
pub open spec fn missing_node_view(node_id: NodeId) -> DiagView {
    error_view("DESIGN_NODE_MISSING"@, "the command references an unknown node identity"@, Some(node_id))
}

/// The diagnostic for a command that names an unknown node.
pub fn missing_node(node_id: &NodeId) -> (r: DesignerDiagnostic)
    ensures
        diag_view(r) == missing_node_view(*node_id),
{
    node_diagnostic("DESIGN_NODE_MISSING", "the command references an unknown node identity", node_id)
}

/// The diagnostic for an invalid parent placement.
pub fn invalid_parent(node_id: &NodeId, message: &str) -> (r: DesignerDiagnostic)
    ensures
        diag_view(r) == error_view("DESIGN_PARENT_INVALID"@, message@, Some(*node_id)),
{
    node_diagnostic("DESIGN_PARENT_INVALID", message, node_id)
}

/// A property or field name holds `1..=128` UTF-8 bytes and no control characters.
pub fn is_valid_field_name(value: &str) -> (r: bool)
    ensures
        r == valid_field_name(value@),
{
    is_valid_identity(value)
}

/// The layout fields that only typed layout commands may edit.
pub open spec fn typed_layout_property(p: Seq<char>) -> bool {
    p == "width"@ || p == "height"@ || p == "min_width"@ || p == "max_width"@ || p == "min_height"@
        || p == "max_height"@ || p == "gap"@ || p == "row_gap"@ || p == "column_gap"@ || p
        == "padding"@ || p == "placement"@ || p == "position"@ || p == "alignment"@ || p
        == "grid_columns"@ || p == "top"@ || p == "right"@ || p == "bottom"@ || p == "left"@
}

/// Whether a property name belongs to the typed layout fields.
pub fn is_typed_layout_property(property: &str) -> (r: bool)
    ensures
        r == typed_layout_property(property@),
{
    str_eq(property, "width") || str_eq(property, "height") || str_eq(property, "min_width")
        || str_eq(property, "max_width") || str_eq(property, "min_height") || str_eq(
        property,
        "max_height",
    ) || str_eq(property, "gap") || str_eq(property, "row_gap") || str_eq(property, "column_gap")
        || str_eq(property, "padding") || str_eq(property, "placement") || str_eq(
        property,
        "position",
    ) || str_eq(property, "alignment") || str_eq(property, "grid_columns") || str_eq(
        property,
        "top",
    ) || str_eq(property, "right") || str_eq(property, "bottom") || str_eq(property, "left")
}

/// The primitive kind of a node; composition instances have none.
pub open spec fn kind_of(node: DesignNode) -> Option<NodeKind> {
    match node.source {
        DesignNodeSource::Primitive { kind } => Some(kind),
        DesignNodeSource::CompositionInstance { .. } => None,
    }
}

/// The primitive kind of a node.
pub fn node_kind(node: &DesignNode) -> (r: Option<NodeKind>)
    ensures
        r == kind_of(*node),
{
    match &node.source {
        DesignNodeSource::Primitive { kind } => Some(*kind),
        DesignNodeSource::CompositionInstance { .. } => None,
    }
}

/// The primitive kind of a node's parent node, when its owner is a node.
pub open spec fn parent_kind_of(design: &StudioDesign, node: Seq<char>) -> Option<NodeKind> {
    if !design.parents@.contains_key(node) {
        None
    } else {
        match design.parents@[node] {
            NodeParent::Node { node_id } => if design.nodes@.contains_key(node_id@) {
                kind_of(design.nodes@[node_id@])
            } else {
                None
            },
            _ => None,
        }
    }
}

/// The primitive kind of a node's parent node.
pub fn parent_kind(design: &StudioDesign, node_id: &NodeId) -> (r: Option<NodeKind>)
    ensures
        r == parent_kind_of(design, node_id@),
{
    match design.parents.get(node_id.as_str()) {
        Some(NodeParent::Node { node_id: parent_id }) => match design.nodes.get(parent_id.as_str()) {
            Some(parent) => node_kind(parent),
            None => None,
        },
        _ => None,
    }
}

/// The identities of a child list, as text.
pub open spec fn ids(s: Seq<NodeId>) -> Seq<Seq<char>> {
    s.map_values(|n: NodeId| n@)
}

/// The first position of identity `x` in a list of identities.
pub open spec fn first_position(s: Seq<Seq<char>>, x: Seq<char>) -> Option<int>
    decreases s.len(),
{
    if s.len() == 0 {
        None
    } else if s[0] == x {
        Some(0)
    } else {
        match first_position(s.drop_first(), x) {
            Some(i) => Some(i + 1),
            None => None,
        }
    }
}

/// `first_position` is the least index holding `x`.
pub proof fn lemma_first_position(s: Seq<Seq<char>>, x: Seq<char>)
    ensures
        match first_position(s, x) {
            Some(i) => 0 <= i < s.len() && s[i] == x && forall|j: int| 0 <= j < i ==> s[j] != x,
            None => forall|j: int| 0 <= j < s.len() ==> s[j] != x,
        },
    decreases s.len(),
{
    if s.len() > 0 {
        lemma_first_position(s.drop_first(), x);
        if s[0] != x {
            match first_position(s.drop_first(), x) {
                Some(i) => {
                    assert forall|j: int| 0 <= j < i + 1 implies s[j] != x by {
                        if j > 0 {
                            assert(s[j] == s.drop_first()[j - 1]);
                        }
                    }
                },
                None => {
                    assert forall|j: int| 0 <= j < s.len() implies s[j] != x by {
                        if j > 0 {
                            assert(s[j] == s.drop_first()[j - 1]);
                        }
                    }
                },
            }
        }
    }
}

/// A position that is the least index holding `x` is `first_position`.
pub proof fn lemma_first_position_at(s: Seq<Seq<char>>, x: Seq<char>, i: int)
    requires
        0 <= i < s.len(),
        s[i] == x,
        forall|j: int| 0 <= j < i ==> s[j] != x,
    ensures
        first_position(s, x) == Some(i),
{
    lemma_first_position(s, x);
}

/// The first position of a child identity in a list.
pub fn position_of(children: &Vec<NodeId>, node_id: &NodeId) -> (r: Option<usize>)
    ensures
        match r {
            Some(i) => first_position(ids(children@), node_id@) == Some(i as int),
            None => first_position(ids(children@), node_id@) is None,
        },
{
    let ghost s = ids(children@);
    proof {
        lemma_first_position(s, node_id@);
    }
    let mut i: usize = 0;
    while i < children.len()
        invariant
            i <= children@.len(),
            s == ids(children@),
            forall|j: int| 0 <= j < i ==> s[j] != node_id@,
        decreases children@.len() - i,
    {
        if children[i].same(node_id) {
            proof {
                lemma_first_position_at(s, node_id@, i as int);
            }
            return Some(i);
        }
        i = i + 1;
    }
    None
}

/// The position of a node under its indexed owner: its child index under a
/// node parent, and `0` for the root of a screen or composition.
pub open spec fn child_index_of(design: &StudioDesign, node: Seq<char>) -> Option<int> {
    if !design.parents@.contains_key(node) {
        None
    } else {
        match design.parents@[node] {
            NodeParent::Node { node_id } => if design.nodes@.contains_key(node_id@) {
                first_position(ids(design.nodes@[node_id@].children@), node)
            } else {
                None
            },
            NodeParent::Screen { screen_id } => if design.screens@.contains_key(screen_id@)
                && design.screens@[screen_id@].root_node_id@ == node {
                Some(0)
            } else {
                None
            },
            NodeParent::Composition { composition_id } => if design.compositions@.contains_key(
                composition_id@,
            ) && design.compositions@[composition_id@].root_node_id@ == node {
                Some(0)
            } else {
                None
            },
        }
    }
}

/// The position of a node under its indexed owner.
pub fn child_index(design: &StudioDesign, node_id: &NodeId) -> (r: Option<usize>)
    ensures
        match r {
            Some(i) => child_index_of(design, node_id@) == Some(i as int),
            None => child_index_of(design, node_id@) is None,
        },
{
    match design.parents.get(node_id.as_str()) {
        None => None,
        Some(NodeParent::Node { node_id: parent_id }) => match design.nodes.get(parent_id.as_str()) {
            Some(parent) => position_of(&parent.children, node_id),
            None => None,
        },
        Some(NodeParent::Screen { screen_id }) => match design.screens.get(screen_id.as_str()) {
            Some(screen) => if screen.root_node_id.same(node_id) {
                Some(0)
            } else {
                None
            },
            None => None,
        },
        Some(NodeParent::Composition { composition_id }) => match design.compositions.get(
            composition_id.as_str(),
        ) {
            Some(composition) => if composition.root_node_id.same(node_id) {
                Some(0)
            } else {
                None
            },
            None => None,
        },
    }
}

/// Equality of parent references by identity text.
pub open spec fn same_parent(a: NodeParent, b: NodeParent) -> bool {
    match a {
        NodeParent::Screen { screen_id: x } => b matches NodeParent::Screen { screen_id: y } && x@ == y@,
        NodeParent::Node { node_id: x } => b matches NodeParent::Node { node_id: y } && x@ == y@,
        NodeParent::Composition { composition_id: x } => b matches NodeParent::Composition {
            composition_id: y,
        } && x@ == y@,
    }
}

/// Whether two parent references name the same owner.
pub fn parents_equal(a: &NodeParent, b: &NodeParent) -> (r: bool)
    ensures
        r == same_parent(*a, *b),
{
    match (a, b) {
        (NodeParent::Screen { screen_id: x }, NodeParent::Screen { screen_id: y }) => x.same(y),
        (NodeParent::Node { node_id: x }, NodeParent::Node { node_id: y }) => x.same(y),
        (
            NodeParent::Composition { composition_id: x },
            NodeParent::Composition { composition_id: y },
        ) => x.same(y),
        _ => false,
    }
}

/// Only nodes owned by another node may be moved, reordered or deleted.
pub fn require_nested_parent(node_id: &NodeId, parent: &NodeParent) -> (r: Result<(), DesignerDiagnostic>)
    ensures
        r is Ok <==> parent is Node,
        r matches Err(d) ==> diag_view(d) == error_view(
            "DESIGN_PARENT_INVALID"@,
            "screen and composition roots are not movable or deletable"@,
            Some(*node_id),
        ),
{
    match parent {
        NodeParent::Node { .. } => Ok(()),
        _ => Err(invalid_parent(node_id, "screen and composition roots are not movable or deletable")),
    }
}

/// Equality of token values by kind and text.
pub open spec fn token_value_eq(a: TokenValue, b: TokenValue) -> bool {
    match a {
        TokenValue::Color(x) => b matches TokenValue::Color(y) && crate::model::color_eq(x, y),
        TokenValue::Length(x) => b matches TokenValue::Length(y) && x.value@ == y.value@ && x.unit
            == y.unit,
        TokenValue::Number(x) => b matches TokenValue::Number(y) && x@ == y@,
        TokenValue::String(x) => b matches TokenValue::String(y) && x@ == y@,
        TokenValue::Typography(x) => b matches TokenValue::Typography(y) && x.family@ == y.family@
            && x.weight == y.weight && x.size@ == y.size@ && x.line_height@ == y.line_height@,
    }
}

/// Whether two token values are equal.
pub fn token_values_equal(a: &TokenValue, b: &TokenValue) -> (r: bool)
    ensures
        r == token_value_eq(*a, *b),
{
    match (a, b) {
        (TokenValue::Color(x), TokenValue::Color(y)) => {
            let p = PropertyValue::Color(x.copy());
            let q = PropertyValue::Color(y.copy());
            p.equals(&q)
        },
        (TokenValue::Length(x), TokenValue::Length(y)) => str_eq(x.value.as_str(), y.value.as_str())
            && x.unit == y.unit,
        (TokenValue::Number(x), TokenValue::Number(y)) => str_eq(x.as_str(), y.as_str()),
        (TokenValue::String(x), TokenValue::String(y)) => str_eq(x.as_str(), y.as_str()),
        (TokenValue::Typography(x), TokenValue::Typography(y)) => str_eq(
            x.family.as_str(),
            y.family.as_str(),
        ) && x.weight == y.weight && str_eq(x.size.as_str(), y.size.as_str()) && str_eq(
            x.line_height.as_str(),
            y.line_height.as_str(),
        ),
        _ => false,
    }
}

/// Equality of optional property values.
pub open spec fn opt_value_eq(a: Option<PropertyValue>, b: Option<PropertyValue>) -> bool {
    match a {
        Some(x) => b matches Some(y) && value_eq(x, y),
        None => b is None,
    }
}

/// The value a map holds for a key, if any.
pub open spec fn value_in(m: Map<Seq<char>, PropertyValue>, key: Seq<char>) -> Option<PropertyValue> {
    if m.contains_key(key) {
        Some(m[key])
    } else {
        None
    }
}

fn opt_values_equal(a: Option<&PropertyValue>, b: &Option<PropertyValue>) -> (r: bool)
    ensures
        r == opt_value_eq(
            match a {
                Some(x) => Some(*x),
                None => None,
            },
            *b,
        ),
{
    match (a, b) {
        (Some(x), Some(y)) => x.equals(y),
        (None, None) => true,
        _ => false,
    }
}

/// Whether one precondition fails against a design.
pub open spec fn precondition_fails(design: &StudioDesign, c: CommandPrecondition) -> bool {
    match c {
        CommandPrecondition::NodeExists { node_id } => !design.nodes@.contains_key(node_id@),
        CommandPrecondition::NodeMissing { node_id } => design.nodes@.contains_key(node_id@),
        CommandPrecondition::ParentEquals { node_id, parent } => !(design.parents@.contains_key(
            node_id@,
        ) && same_parent(design.parents@[node_id@], parent)),
        CommandPrecondition::ChildIndexEquals { node_id, index } => child_index_of(design, node_id@)
            != Some(index as int),
        CommandPrecondition::PropertyEquals { node_id, property, value } => !design.nodes@.contains_key(
            node_id@,
        ) || !opt_value_eq(value_in(design.nodes@[node_id@].properties@, property@), value),
        CommandPrecondition::BreakpointPropertyEquals { node_id, variant_id, property, value } => {
            let current = if design.nodes@.contains_key(node_id@)
                && design.nodes@[node_id@].responsive_overrides@.contains_key(variant_id@) {
                value_in(
                    design.nodes@[node_id@].responsive_overrides@[variant_id@].properties@,
                    property@,
                )
            } else {
                None
            };
            !opt_value_eq(current, value)
        },
        CommandPrecondition::TokenExists { token_id } => !design.tokens@.contains_key(token_id@),
        CommandPrecondition::TokenMissing { token_id } => design.tokens@.contains_key(token_id@),
        CommandPrecondition::TokenValueEquals { token_id, value } => !design.tokens@.contains_key(
            token_id@,
        ) || !token_value_eq(design.tokens@[token_id@].value, value),
    }
}

/// A property precondition compares the node's current value with the
/// expected one: it fails when exactly one of them is absent, when the
/// values are of different kinds, and when two texts or two integers
/// differ; it holds when both are absent or both are the same text or the
/// same integer. A precondition on a node that does not exist fails.
pub proof fn lemma_property_precondition(design: &StudioDesign, node_id: NodeId, property: String, value: Option<PropertyValue>)
    ensures
        !design.nodes@.contains_key(node_id@) ==> precondition_fails(
            design,
            CommandPrecondition::PropertyEquals { node_id, property, value },
        ),
        design.nodes@.contains_key(node_id@) ==> {
            let props = design.nodes@[node_id@].properties@;
            let fails = precondition_fails(design, CommandPrecondition::PropertyEquals { node_id, property, value });
            &&& !props.contains_key(property@) && value is None ==> !fails
            &&& !props.contains_key(property@) && value is Some ==> fails
            &&& props.contains_key(property@) && value is None ==> fails
            &&& props.contains_key(property@) && value is Some ==> {
                let v = props[property@];
                let w = value->0;
                &&& (v is String && w is String) ==> (fails <==> v->String_0@ != w->String_0@)
                &&& (v is Integer && w is Integer) ==> (fails <==> v->Integer_0 != w->Integer_0)
                &&& (v is Boolean && w is Boolean) ==> (fails <==> v->Boolean_0 != w->Boolean_0)
                &&& (v is String && !(w is String)) ==> fails
                &&& (v is Integer && !(w is Integer)) ==> fails
            }
        },
{
}

/// The structural preconditions read the design directly: `NodeExists`
/// fails exactly when the node is absent and `NodeMissing` exactly when it
/// is present; `ParentEquals` holds exactly when the node's recorded parent
/// is a node parent with the same identity as the expected node parent;
/// `ChildIndexEquals` holds for the position at which the node first
/// occurs among its parent's children, and fails for a position holding
/// another node; the token preconditions read the token map, and a token
/// value precondition on texts or numbers compares their text.
pub proof fn lemma_structural_preconditions(design: &StudioDesign, node_id: NodeId, other: NodeId, index: usize)
    ensures
        precondition_fails(design, CommandPrecondition::NodeExists { node_id }) <==> !design.nodes@.contains_key(node_id@),
        precondition_fails(design, CommandPrecondition::NodeMissing { node_id }) <==> design.nodes@.contains_key(node_id@),
        design.parents@.contains_key(node_id@) && design.parents@[node_id@] is Node ==> (precondition_fails(
            design,
            CommandPrecondition::ParentEquals { node_id, parent: NodeParent::Node { node_id: other } },
        ) <==> design.parents@[node_id@]->Node_node_id@ != other@),
        !design.parents@.contains_key(node_id@) ==> precondition_fails(
            design,
            CommandPrecondition::ParentEquals { node_id, parent: NodeParent::Node { node_id: other } },
        ),
        ({
            let p = design.parents@[node_id@];
            let kids = design.nodes@[p->Node_node_id@].children@;
            design.parents@.contains_key(node_id@) && p is Node && design.nodes@.contains_key(p->Node_node_id@)
                && index < kids.len() && kids[index as int]@ != node_id@ ==> precondition_fails(
                design,
                CommandPrecondition::ChildIndexEquals { node_id, index },
            )
        }),
        ({
            let p = design.parents@[node_id@];
            let kids = design.nodes@[p->Node_node_id@].children@;
            design.parents@.contains_key(node_id@) && p is Node && design.nodes@.contains_key(p->Node_node_id@)
                && index < kids.len() && kids[index as int]@ == node_id@ && (forall|j: int| 0 <= j < index ==> kids[j]@ != node_id@)
                ==> !precondition_fails(design, CommandPrecondition::ChildIndexEquals { node_id, index })
        }),
{
    if design.parents@.contains_key(node_id@) && design.parents@[node_id@] is Node {
        let p = design.parents@[node_id@]->Node_node_id@;
        if design.nodes@.contains_key(p) {
            let s = ids(design.nodes@[p].children@);
            lemma_first_position(s, node_id@);
            if index < s.len() {
                assert(s[index as int] == design.nodes@[p].children@[index as int]@);
                if design.nodes@[p].children@[index as int]@ == node_id@ && (forall|j: int|
                    0 <= j < index ==> design.nodes@[p].children@[j]@ != node_id@) {
                    assert forall|j: int| 0 <= j < index implies s[j] != node_id@ by {
                        assert(s[j] == design.nodes@[p].children@[j]@);
                    }
                    lemma_first_position_at(s, node_id@, index as int);
                }
            }
        }
    }
}

/// Token preconditions: `TokenExists` and `TokenMissing` read the token map,
/// and `TokenValueEquals` on a text, number or colour value fails exactly
/// when the token is absent or its value differs in kind or text.
pub proof fn lemma_token_preconditions(design: &StudioDesign, token_id: crate::ids::TokenId, value: TokenValue)
    ensures
        precondition_fails(design, CommandPrecondition::TokenExists { token_id }) <==> !design.tokens@.contains_key(token_id@),
        precondition_fails(design, CommandPrecondition::TokenMissing { token_id }) <==> design.tokens@.contains_key(token_id@),
        !design.tokens@.contains_key(token_id@) ==> precondition_fails(
            design,
            CommandPrecondition::TokenValueEquals { token_id, value },
        ),
        design.tokens@.contains_key(token_id@) && value is String ==> (precondition_fails(
            design,
            CommandPrecondition::TokenValueEquals { token_id, value },
        ) <==> !(design.tokens@[token_id@].value is String && design.tokens@[token_id@].value->String_0@ == value->String_0@)),
        design.tokens@.contains_key(token_id@) && value is Number ==> (precondition_fails(
            design,
            CommandPrecondition::TokenValueEquals { token_id, value },
        ) <==> !(design.tokens@[token_id@].value is Number && design.tokens@[token_id@].value->Number_0@ == value->Number_0@)),
{
}

/// A breakpoint property precondition compares the value the node's
/// override for the variant holds: it fails when exactly one of the current
/// and expected values is absent, and for two texts exactly when they
/// differ.
pub proof fn lemma_breakpoint_precondition(
    design: &StudioDesign,
    node_id: NodeId,
    variant_id: crate::ids::ResponsiveVariantId,
    property: String,
    value: Option<PropertyValue>,
)
    ensures
        ({
            let present = design.nodes@.contains_key(node_id@) && design.nodes@[node_id@].responsive_overrides@.contains_key(variant_id@)
                && design.nodes@[node_id@].responsive_overrides@[variant_id@].properties@.contains_key(property@);
            let fails = precondition_fails(
                design,
                CommandPrecondition::BreakpointPropertyEquals { node_id, variant_id, property, value },
            );
            &&& !present && value is None ==> !fails
            &&& !present && value is Some ==> fails
            &&& present && value is None ==> fails
            &&& present && value is Some ==> {
                let v = design.nodes@[node_id@].responsive_overrides@[variant_id@].properties@[property@];
                let w = value->0;
                (v is String && w is String) ==> (fails <==> v->String_0@ != w->String_0@)
            }
        }),
{
}

/// Whether one precondition fails against a design.
pub fn precondition_failed(design: &StudioDesign, condition: &CommandPrecondition) -> (r: bool)
    ensures
        r == precondition_fails(design, *condition),
{
    match condition {
        CommandPrecondition::NodeExists { node_id } => !design.nodes.contains_key(node_id.as_str()),
        CommandPrecondition::NodeMissing { node_id } => design.nodes.contains_key(node_id.as_str()),
        CommandPrecondition::ParentEquals { node_id, parent } => match design.parents.get(
            node_id.as_str(),
        ) {
            Some(current) => !parents_equal(current, parent),
            None => true,
        },
        CommandPrecondition::ChildIndexEquals { node_id, index } => match child_index(design, node_id) {
            Some(i) => i != *index,
            None => true,
        },
        CommandPrecondition::PropertyEquals { node_id, property, value } => match design.nodes.get(
            node_id.as_str(),
        ) {
            Some(node) => !opt_values_equal(node.properties.get(property.as_str()), value),
            None => true,
        },
        CommandPrecondition::BreakpointPropertyEquals { node_id, variant_id, property, value } => {
            let current = match design.nodes.get(node_id.as_str()) {
                Some(node) => match node.responsive_overrides.get(variant_id.as_str()) {
                    Some(o) => o.properties.get(property.as_str()),
                    None => None,
                },
                None => None,
            };
            !opt_values_equal(current, value)
        },
        CommandPrecondition::TokenExists { token_id } => !design.tokens.contains_key(token_id.as_str()),
        CommandPrecondition::TokenMissing { token_id } => design.tokens.contains_key(token_id.as_str()),
        CommandPrecondition::TokenValueEquals { token_id, value } => match design.tokens.get(
            token_id.as_str(),
        ) {
            Some(token) => !token_values_equal(&token.value, value),
            None => true,
        },
    }
}

/// The index of the first precondition that no longer holds, if any.
pub fn failed_precondition(design: &StudioDesign, conditions: &Vec<CommandPrecondition>) -> (r: Option<usize>)
    ensures
        match r {
            Some(i) => i < conditions@.len() && precondition_fails(design, conditions@[i as int])
                && forall|j: int| 0 <= j < i ==> !precondition_fails(design, #[trigger] conditions@[j]),
            None => forall|j: int|
                0 <= j < conditions@.len() ==> !precondition_fails(design, #[trigger] conditions@[j]),
        },
{
    let mut i: usize = 0;
    while i < conditions.len()
        invariant
            i <= conditions@.len(),
            forall|j: int| 0 <= j < i ==> !precondition_fails(design, #[trigger] conditions@[j]),
        decreases conditions@.len() - i,
    {
        if precondition_failed(design, &conditions[i]) {
            return Some(i);
        }
        i = i + 1;
    }
    None
}

/// The shape problems of a command batch, in the order they are reported.
pub open spec fn batch_shape_issues(batch: CommandBatch, design: &StudioDesign) -> Seq<DiagView> {
    let a = if batch.schema_version != STUDIO_DESIGN_SCHEMA_VERSION {
        seq![error_view("DESIGN_SCHEMA_UNSUPPORTED"@, "the command batch schema version is unsupported"@, None)]
    } else {
        Seq::empty()
    };
    let b = if batch.project_id@ != design.project_id@ {
        seq![error_view("DESIGN_PROJECT_MISMATCH"@, "the command batch targets a different project"@, None)]
    } else {
        Seq::empty()
    };
    let c = if batch.commands@.len() == 0 {
        seq![error_view("DESIGN_BATCH_EMPTY"@, "an atomic command batch must contain at least one command"@, None)]
    } else {
        Seq::empty()
    };
    let d = if trim_whitespace(batch.undo_group_name@).len() == 0 || encode_utf8(
        batch.undo_group_name@,
    ).len() > 256 {
        seq![error_view("DESIGN_UNDO_NAME_INVALID"@, "an undo group name must contain 1..=256 bytes"@, None)]
    } else {
        Seq::empty()
    };
    a + b + c + d
}

/// Check the envelope of a command batch against the design it targets.
pub fn validate_batch_shape(batch: &CommandBatch, design: &StudioDesign) -> (r: Vec<DesignerDiagnostic>)
    ensures
        views(r@) == batch_shape_issues(*batch, design),
{
    let mut ds: Vec<DesignerDiagnostic> = Vec::new();
    if batch.schema_version != STUDIO_DESIGN_SCHEMA_VERSION {
        push_diagnostic(
            &mut ds,
            diagnostic("DESIGN_SCHEMA_UNSUPPORTED", "the command batch schema version is unsupported", None),
        );
    }
    if !batch.project_id.same(&design.project_id) {
        push_diagnostic(
            &mut ds,
            diagnostic("DESIGN_PROJECT_MISMATCH", "the command batch targets a different project", None),
        );
    }
    if batch.commands.len() == 0 {
        push_diagnostic(
            &mut ds,
            diagnostic(
                "DESIGN_BATCH_EMPTY",
                "an atomic command batch must contain at least one command",
                None,
            ),
        );
    }
    if is_blank(batch.undo_group_name.as_str()) || longer_than_256_bytes(batch.undo_group_name.as_str()) {
        push_diagnostic(
            &mut ds,
            diagnostic("DESIGN_UNDO_NAME_INVALID", "an undo group name must contain 1..=256 bytes", None),
        );
    }
    assert(views(ds@) =~= batch_shape_issues(*batch, design));
    ds
}

/// `b` is `a` with at most its child list changed.
pub open spec fn same_but_children(a: DesignNode, b: DesignNode) -> bool {
    &&& a.schema_version == b.schema_version
    &&& a.id == b.id
    &&& a.name == b.name
    &&& a.source == b.source
    &&& a.properties == b.properties
    &&& a.layout == b.layout
    &&& a.style == b.style
    &&& a.accessibility == b.accessibility
    &&& a.responsive_overrides == b.responsive_overrides
    &&& a.interaction_ids == b.interaction_ids
}

/// `b` is `a` with at most its node map changed.
pub open spec fn same_but_nodes(a: StudioDesign, b: StudioDesign) -> bool {
    &&& a.schema_version == b.schema_version
    &&& a.project_id == b.project_id
    &&& a.name == b.name
    &&& a.parents == b.parents
    &&& a.screens == b.screens
    &&& a.screen_order == b.screen_order
    &&& a.compositions == b.compositions
    &&& a.tokens == b.tokens
    &&& a.responsive_variants == b.responsive_variants
    &&& a.interactions == b.interactions
    &&& a.collections == b.collections
    &&& a.bindings == b.bindings
    &&& a.forms == b.forms
}

/// `b` is `a` with at most its node map and parent index changed.
pub open spec fn same_but_tree(a: StudioDesign, b: StudioDesign) -> bool {
    &&& a.schema_version == b.schema_version
    &&& a.project_id == b.project_id
    &&& a.name == b.name
    &&& a.screens == b.screens
    &&& a.screen_order == b.screen_order
    &&& a.compositions == b.compositions
    &&& a.tokens == b.tokens
    &&& a.responsive_variants == b.responsive_variants
    &&& a.interactions == b.interactions
    &&& a.collections == b.collections
    &&& a.bindings == b.bindings
    &&& a.forms == b.forms
}

/// The node map `b` is `a` with only node `key` replaced by a node that
/// differs in its child list, whose identities become `kids`.
pub open spec fn children_set(
    a: Map<Seq<char>, DesignNode>,
    b: Map<Seq<char>, DesignNode>,
    key: Seq<char>,
    kids: Seq<Seq<char>>,
) -> bool {
    &&& a.contains_key(key)
    &&& b == a.insert(key, b[key])
    &&& same_but_children(a[key], b[key])
    &&& ids(b[key].children@) == kids
}

/// Put `child` at `placement.index` among the children of the placement's node.
pub fn insert_child(design: &mut StudioDesign, placement: &ParentPlacement, child: NodeId) -> (r: Result<(), DesignerDiagnostic>)
    ensures
        match placement.parent {
            NodeParent::Node { node_id: p } => if !old(design).nodes@.contains_key(p@) {
                r matches Err(d) && diag_view(d) == missing_node_view(p)
            } else if placement.index > old(design).nodes@[p@].children@.len() {
                r matches Err(d) && diag_view(d) == error_view(
                    "DESIGN_CHILD_INDEX_INVALID"@,
                    "the requested child index is outside the destination parent"@,
                    Some(child),
                )
            } else {
                r is Ok
            },
            _ => r matches Err(d) && diag_view(d) == error_view(
                "DESIGN_PARENT_INVALID"@,
                "screen and composition roots cannot be replaced by structural commands"@,
                Some(child),
            ),
        },
        r is Err ==> *final(design) == *old(design),
        r is Ok ==> {
            let p = placement.parent->node_id@;
            &&& same_but_nodes(*old(design), *final(design))
            &&& children_set(
                old(design).nodes@,
                final(design).nodes@,
                p,
                ids(old(design).nodes@[p].children@).insert(placement.index as int, child@),
            )
        },
{
    let p = match &placement.parent {
        NodeParent::Node { node_id } => node_id,
        _ => {
            return Err(
                invalid_parent(&child, "screen and composition roots cannot be replaced by structural commands"),
            );
        },
    };
    match design.nodes.get(p.as_str()) {
        None => {
            return Err(missing_node(p));
        },
        Some(n) => {
            if placement.index > n.children.len() {
                return Err(
                    node_diagnostic(
                        "DESIGN_CHILD_INDEX_INVALID",
                        "the requested child index is outside the destination parent",
                        &child,
                    ),
                );
            }
        },
    }
    let ghost old_nodes = design.nodes@;
    let ghost child_view = child@;
    let mut node = design.nodes.remove(p.as_str()).unwrap();
    let ghost before = node;
    node.children.insert(placement.index, child);
    assert(ids(node.children@) =~= ids(before.children@).insert(placement.index as int, child_view));
    design.nodes.insert(p.copy(), node);
    assert(design.nodes@ =~= old_nodes.insert(p@, design.nodes@[p@]));
    Ok(())
}

/// Take `node_id` out of the child list of its node parent, returning the
/// removed entry.
pub fn remove_child(design: &mut StudioDesign, node_id: &NodeId, parent: &NodeParent) -> (r: Result<NodeId, DesignerDiagnostic>)
    ensures
        match *parent {
            NodeParent::Node { node_id: p } => if !old(design).nodes@.contains_key(p@) {
                r matches Err(d) && diag_view(d) == missing_node_view(p)
            } else {
                match first_position(ids(old(design).nodes@[p@].children@), node_id@) {
                    None => r matches Err(d) && diag_view(d) == error_view(
                        "DESIGN_PARENT_INVALID"@,
                        "the indexed parent does not contain the node"@,
                        Some(*node_id),
                    ),
                    Some(i) => r matches Ok(x) && x@ == node_id@ && same_but_nodes(*old(design), *final(design))
                        && children_set(
                        old(design).nodes@,
                        final(design).nodes@,
                        p@,
                        ids(old(design).nodes@[p@].children@).remove(i),
                    ),
                }
            },
            _ => r matches Err(d) && diag_view(d) == error_view(
                "DESIGN_PARENT_INVALID"@,
                "screen and composition roots cannot be removed"@,
                Some(*node_id),
            ),
        },
        r is Err ==> *final(design) == *old(design),
{
    let p = match parent {
        NodeParent::Node { node_id } => node_id,
        _ => {
            return Err(invalid_parent(node_id, "screen and composition roots cannot be removed"));
        },
    };
    let index = match design.nodes.get(p.as_str()) {
        None => {
            return Err(missing_node(p));
        },
        Some(n) => match position_of(&n.children, node_id) {
            None => {
                return Err(invalid_parent(node_id, "the indexed parent does not contain the node"));
            },
            Some(i) => i,
        },
    };
    proof {
        lemma_first_position(ids(design.nodes@[p@].children@), node_id@);
    }
    let ghost old_nodes = design.nodes@;
    let mut node = design.nodes.remove(p.as_str()).unwrap();
    let ghost before = node;
    let removed = node.children.remove(index);
    assert(ids(node.children@) =~= ids(before.children@).remove(index as int));
    design.nodes.insert(p.copy(), node);
    assert(design.nodes@ =~= old_nodes.insert(p@, design.nodes@[p@]));
    Ok(removed)
}

/// `b` is `a` with at most its authored properties changed.
pub open spec fn same_but_properties(a: DesignNode, b: DesignNode) -> bool {
    &&& a.schema_version == b.schema_version
    &&& a.id == b.id
    &&& a.name == b.name
    &&& a.source == b.source
    &&& a.children == b.children
    &&& a.layout == b.layout
    &&& a.style == b.style
    &&& a.accessibility == b.accessibility
    &&& a.responsive_overrides == b.responsive_overrides
    &&& a.interaction_ids == b.interaction_ids
}

/// `b` is `a` with at most its name changed.
pub open spec fn same_but_name(a: DesignNode, b: DesignNode) -> bool {
    &&& a.schema_version == b.schema_version
    &&& a.id == b.id
    &&& a.source == b.source
    &&& a.children == b.children
    &&& a.properties == b.properties
    &&& a.layout == b.layout
    &&& a.style == b.style
    &&& a.accessibility == b.accessibility
    &&& a.responsive_overrides == b.responsive_overrides
    &&& a.interaction_ids == b.interaction_ids
}

/// `b` is `a` with at most its base layout changed.
pub open spec fn same_but_layout(a: DesignNode, b: DesignNode) -> bool {
    &&& a.schema_version == b.schema_version
    &&& a.id == b.id
    &&& a.name == b.name
    &&& a.source == b.source
    &&& a.children == b.children
    &&& a.properties == b.properties
    &&& a.style == b.style
    &&& a.accessibility == b.accessibility
    &&& a.responsive_overrides == b.responsive_overrides
    &&& a.interaction_ids == b.interaction_ids
}

/// `b` is `a` with at most its responsive overrides changed.
pub open spec fn same_but_overrides(a: DesignNode, b: DesignNode) -> bool {
    &&& a.schema_version == b.schema_version
    &&& a.id == b.id
    &&& a.name == b.name
    &&& a.source == b.source
    &&& a.children == b.children
    &&& a.properties == b.properties
    &&& a.layout == b.layout
    &&& a.style == b.style
    &&& a.accessibility == b.accessibility
    &&& a.interaction_ids == b.interaction_ids
}

/// Design `b` is `a` with only the node at `key` replaced.
pub open spec fn node_replaced(a: StudioDesign, b: StudioDesign, key: Seq<char>) -> bool {
    &&& same_but_nodes(a, b)
    &&& a.nodes@.contains_key(key)
    &&& b.nodes@ == a.nodes@.insert(key, b.nodes@[key])
}

/// A map with `key` set to `v`, or removed when `v` is `None`.
pub open spec fn with_value(m: Map<Seq<char>, PropertyValue>, key: Seq<char>, v: Option<PropertyValue>) -> Map<Seq<char>, PropertyValue> {
    match v {
        Some(x) => m.insert(key, x),
        None => m.remove(key),
    }
}

/// Writing a property value and then writing back the value it replaced
/// restores the map; writing back what was written reads it again.
pub proof fn lemma_property_write_undo(m: Map<Seq<char>, PropertyValue>, key: Seq<char>, v: Option<PropertyValue>)
    ensures
        with_value(with_value(m, key, v), key, value_in(m, key)) == m,
        value_in(with_value(m, key, v), key) == v,
{
    assert(with_value(with_value(m, key, v), key, value_in(m, key)) =~= m);
}

/// Take a node out of the map, apply nothing, and return it for editing.
pub(crate) fn take_node(design: &mut StudioDesign, node_id: &NodeId) -> (r: DesignNode)
    requires
        old(design).nodes@.contains_key(node_id@),
    ensures
        r == old(design).nodes@[node_id@],
        final(design).nodes@ == old(design).nodes@.remove(node_id@),
        same_but_nodes(*old(design), *final(design)),
{
    design.nodes.remove(node_id.as_str()).unwrap()
}

/// Put an edited node back under its identity.
pub(crate) fn put_node(design: &mut StudioDesign, node_id: &NodeId, node: DesignNode)
    ensures
        final(design).nodes@ == old(design).nodes@.insert(node_id@, node),
        same_but_nodes(*old(design), *final(design)),
{
    design.nodes.insert(node_id.copy(), node);
}

/// Set or clear one authored property, returning the command that restores it.
/// What writing one authored property does: `d0` is the design before,
/// `d1` the design after, `r` the inverse command or the refusal.
pub open spec fn property_set(
    d0: StudioDesign,
    node_id: NodeId,
    property: Seq<char>,
    value: Option<PropertyValue>,
    d1: StudioDesign,
    r: Result<Command, DesignerDiagnostic>,
) -> bool {
    &&& (!valid_field_name(property) ==> (r matches Err(d) && diag_view(d) == error_view(
            "DESIGN_PROPERTY_INVALID"@,
            "a property name must contain 1..=128 safe bytes"@,
            Some(node_id),
        )))
    &&& (valid_field_name(property) && typed_layout_property(property) ==> (r matches Err(d)
            && diag_view(d) == error_view(
            "DESIGN_LAYOUT_TYPED_REQUIRED"@,
            "layout fields must be edited through a typed layout command"@,
            Some(node_id),
        )))
    &&& (valid_field_name(property) && !typed_layout_property(property) && !(&d0).nodes@.contains_key(node_id@) ==> (r matches Err(d) && diag_view(d) == missing_node_view(
            node_id,
        )))
    &&& (r is Ok <==> valid_field_name(property) && !typed_layout_property(property) && (&d0).nodes@.contains_key(node_id@))
    &&& (r is Err ==> d1 == d0)
    &&& (r matches Ok(c) ==> {
            let before = (&d0).nodes@[node_id@];
            let after = (&d1).nodes@[node_id@];
            &&& c matches Command::SetProperty { node_id: n, property: q, value: prior } && n == node_id
                && q@ == property && prior == value_in(before.properties@, property)
            &&& node_replaced(d0, d1, node_id@)
            &&& same_but_properties(before, after)
            &&& after.properties@ == with_value(before.properties@, property, value)
        })
}

pub fn set_property(design: &mut StudioDesign, node_id: &NodeId, property: &str, value: Option<PropertyValue>) -> (r: Result<Command, DesignerDiagnostic>)
    ensures
        property_set(*old(design), *node_id, property@, value, *final(design), r),
{
    if !is_valid_field_name(property) {
        return Err(node_diagnostic("DESIGN_PROPERTY_INVALID", "a property name must contain 1..=128 safe bytes", node_id));
    }
    if is_typed_layout_property(property) {
        return Err(
            node_diagnostic(
                "DESIGN_LAYOUT_TYPED_REQUIRED",
                "layout fields must be edited through a typed layout command",
                node_id,
            ),
        );
    }
    if !design.nodes.contains_key(node_id.as_str()) {
        return Err(missing_node(node_id));
    }
    let ghost old_nodes = design.nodes@;
    let mut node = take_node(design, node_id);
    let ghost before = node;
    let prior = match value {
        Some(v) => node.properties.insert(String::from_str(property), v),
        None => node.properties.remove(property),
    };
    put_node(design, node_id, node);
    assert(design.nodes@ =~= old_nodes.insert(node_id@, design.nodes@[node_id@]));
    Ok(Command::SetProperty { node_id: node_id.copy(), property: String::from_str(property), value: prior })
}

/// A node name holds `1..=256` UTF-8 bytes, is not blank and has no control characters.
pub open spec fn valid_node_name(name: Seq<char>) -> bool {
    trim_whitespace(name).len() != 0 && encode_utf8(name).len() <= 256 && !has_control(name)
}

/// Rename a node, returning the command that restores its previous name.
#[verifier::spinoff_prover]
pub fn rename_node(design: &mut StudioDesign, node_id: &NodeId, name: &str) -> (r: Result<Command, DesignerDiagnostic>)
    ensures
        !valid_node_name(name@) ==> (r matches Err(d) && diag_view(d) == error_view(
            "DESIGN_NODE_NAME_INVALID"@,
            "a node name must contain 1..=256 safe bytes"@,
            Some(*node_id),
        )),
        valid_node_name(name@) && !old(design).nodes@.contains_key(node_id@) ==> (r matches Err(d)
            && diag_view(d) == missing_node_view(*node_id)),
        r is Ok <==> valid_node_name(name@) && old(design).nodes@.contains_key(node_id@),
        r is Err ==> *final(design) == *old(design),
        r matches Ok(c) ==> {
            let before = old(design).nodes@[node_id@];
            let after = final(design).nodes@[node_id@];
            &&& c matches Command::RenameNode { node_id: n, name: prior } && n == *node_id && prior
                == before.name
            &&& node_replaced(*old(design), *final(design), node_id@)
            &&& same_but_name(before, after)
            &&& after.name@ == name@
        },
{
    if is_blank(name) || longer_than_256_bytes(name) || crate::text::contains_control(name) {
        return Err(node_diagnostic("DESIGN_NODE_NAME_INVALID", "a node name must contain 1..=256 safe bytes", node_id));
    }
    if !design.nodes.contains_key(node_id.as_str()) {
        return Err(missing_node(node_id));
    }
    let ghost old_nodes = design.nodes@;
    let mut node = take_node(design, node_id);
    let mut prior = String::from_str(name);
    std::mem::swap(&mut node.name, &mut prior);
    put_node(design, node_id, node);
    assert(design.nodes@ =~= old_nodes.insert(node_id@, design.nodes@[node_id@]));
    Ok(Command::RenameNode { node_id: node_id.copy(), name: prior })
}

/// Replace a node's base layout, returning the command that restores it.
pub fn set_layout(design: &mut StudioDesign, node_id: &NodeId, layout: LayoutProperties) -> (r: Result<Command, DesignerDiagnostic>)
    ensures
        !old(design).nodes@.contains_key(node_id@) ==> (r matches Err(d) && diag_view(d)
            == missing_node_view(*node_id)),
        r is Ok <==> old(design).nodes@.contains_key(node_id@),
        r is Err ==> *final(design) == *old(design),
        r matches Ok(c) ==> {
            let before = old(design).nodes@[node_id@];
            let after = final(design).nodes@[node_id@];
            &&& c == (Command::SetLayout { node_id: *node_id, layout: before.layout })
            &&& node_replaced(*old(design), *final(design), node_id@)
            &&& same_but_layout(before, after)
            &&& after.layout == layout
        },
{
    if !design.nodes.contains_key(node_id.as_str()) {
        return Err(missing_node(node_id));
    }
    let ghost old_nodes = design.nodes@;
    let mut node = take_node(design, node_id);
    let mut prior = layout;
    std::mem::swap(&mut node.layout, &mut prior);
    put_node(design, node_id, node);
    assert(design.nodes@ =~= old_nodes.insert(node_id@, design.nodes@[node_id@]));
    Ok(Command::SetLayout { node_id: node_id.copy(), layout: prior })
}

/// A node changed in one field and then changed back in the same field is
/// the node it was: renaming, relayouting or rewriting properties and then
/// applying the returned inverse restores the node exactly.
pub proof fn lemma_node_edit_undo(a: DesignNode, b: DesignNode, c: DesignNode)
    ensures
        same_but_name(a, b) && same_but_name(b, c) && c.name == a.name ==> c == a,
        same_but_layout(a, b) && same_but_layout(b, c) && c.layout == a.layout ==> c == a,
        same_but_properties(a, b) && same_but_properties(b, c) && c.properties == a.properties
            ==> c == a,
        same_but_children(a, b) && same_but_children(b, c) && c.children == a.children ==> c == a,
        same_but_overrides(a, b) && same_but_overrides(b, c) && c.responsive_overrides
            == a.responsive_overrides ==> c == a,
{
}

/// The override a responsive layout edit leaves behind: the existing override
/// with its layout replaced, or a fresh override holding only the layout.
pub open spec fn override_with_layout(
    before: Map<Seq<char>, ResponsiveNodeOverride>,
    variant: Seq<char>,
    after: ResponsiveNodeOverride,
    layout: LayoutProperties,
) -> bool {
    &&& after.layout == layout
    &&& if before.contains_key(variant) {
        &&& after.schema_version == before[variant].schema_version
        &&& after.properties == before[variant].properties
        &&& after.style == before[variant].style
    } else {
        &&& after.schema_version == STUDIO_DESIGN_SCHEMA_VERSION
        &&& after.properties@.is_empty()
        &&& after.style == StyleProperties::spec_default()
    }
}

/// Set a node's layout for one device profile, returning the command that
/// restores the previous breakpoint layout or removes the new one.
pub fn set_responsive_layout(
    design: &mut StudioDesign,
    node_id: &NodeId,
    variant_id: &ResponsiveVariantId,
    layout: LayoutProperties,
) -> (r: Result<Command, DesignerDiagnostic>)
    ensures
        !old(design).responsive_variants@.contains_key(variant_id@) ==> (r matches Err(d) && diag_view(d)
            == error_view(
            "DESIGN_RESPONSIVE_VARIANT_MISSING"@,
            "the responsive layout references an unknown device profile"@,
            Some(*node_id),
        )),
        old(design).responsive_variants@.contains_key(variant_id@) && !old(design).nodes@.contains_key(
            node_id@,
        ) ==> (r matches Err(d) && diag_view(d) == missing_node_view(*node_id)),
        r is Ok <==> old(design).responsive_variants@.contains_key(variant_id@) && old(
            design,
        ).nodes@.contains_key(node_id@),
        r is Err ==> *final(design) == *old(design),
        r matches Ok(c) ==> {
            let before = old(design).nodes@[node_id@];
            let after = final(design).nodes@[node_id@];
            let o = after.responsive_overrides@[variant_id@];
            &&& c == if before.responsive_overrides@.contains_key(variant_id@) {
                Command::SetResponsiveLayout {
                    node_id: *node_id,
                    variant_id: *variant_id,
                    layout: before.responsive_overrides@[variant_id@].layout,
                }
            } else {
                Command::RemoveResponsiveLayout { node_id: *node_id, variant_id: *variant_id }
            }
            &&& node_replaced(*old(design), *final(design), node_id@)
            &&& same_but_overrides(before, after)
            &&& after.responsive_overrides@ == before.responsive_overrides@.insert(variant_id@, o)
            &&& override_with_layout(before.responsive_overrides@, variant_id@, o, layout)
        },
{
    if !design.responsive_variants.contains_key(variant_id.as_str()) {
        return Err(
            node_diagnostic(
                "DESIGN_RESPONSIVE_VARIANT_MISSING",
                "the responsive layout references an unknown device profile",
                node_id,
            ),
        );
    }
    if !design.nodes.contains_key(node_id.as_str()) {
        return Err(missing_node(node_id));
    }
    let ghost old_nodes = design.nodes@;
    let mut node = take_node(design, node_id);
    let ghost before = node;
    let (entry, inverse) = match node.responsive_overrides.remove(variant_id.as_str()) {
        Some(mut o) => {
            let mut prior = layout;
            std::mem::swap(&mut o.layout, &mut prior);
            (o, Command::SetResponsiveLayout { node_id: node_id.copy(), variant_id: variant_id.copy(), layout: prior })
        },
        None => (
            ResponsiveNodeOverride {
                schema_version: STUDIO_DESIGN_SCHEMA_VERSION,
                properties: OrderedMap::new(),
                layout,
                style: StyleProperties::default(),
            },
            Command::RemoveResponsiveLayout { node_id: node_id.copy(), variant_id: variant_id.copy() },
        ),
    };
    let ghost o = entry;
    node.responsive_overrides.insert(variant_id.copy(), entry);
    assert(node.responsive_overrides@ =~= before.responsive_overrides@.insert(variant_id@, o));
    put_node(design, node_id, node);
    assert(design.nodes@ =~= old_nodes.insert(node_id@, design.nodes@[node_id@]));
    Ok(inverse)
}

/// Remove a node's override for one device profile, returning the command
/// that sets its layout back.
pub fn remove_responsive_layout(design: &mut StudioDesign, node_id: &NodeId, variant_id: &ResponsiveVariantId) -> (r: Result<Command, DesignerDiagnostic>)
    ensures
        !old(design).nodes@.contains_key(node_id@) ==> (r matches Err(d) && diag_view(d)
            == missing_node_view(*node_id)),
        old(design).nodes@.contains_key(node_id@) && !old(design).nodes@[node_id@].responsive_overrides@.contains_key(
            variant_id@,
        ) ==> (r matches Err(d) && diag_view(d) == error_view(
            "DESIGN_RESPONSIVE_LAYOUT_MISSING"@,
            "the responsive layout override does not exist"@,
            Some(*node_id),
        )),
        r is Ok <==> old(design).nodes@.contains_key(node_id@) && old(design).nodes@[node_id@].responsive_overrides@.contains_key(
            variant_id@,
        ),
        r is Err ==> *final(design) == *old(design),
        r matches Ok(c) ==> {
            let before = old(design).nodes@[node_id@];
            let after = final(design).nodes@[node_id@];
            &&& c == (Command::SetResponsiveLayout {
                node_id: *node_id,
                variant_id: *variant_id,
                layout: before.responsive_overrides@[variant_id@].layout,
            })
            &&& node_replaced(*old(design), *final(design), node_id@)
            &&& same_but_overrides(before, after)
            &&& after.responsive_overrides@ == before.responsive_overrides@.remove(variant_id@)
        },
{
    match design.nodes.get(node_id.as_str()) {
        None => {
            return Err(missing_node(node_id));
        },
        Some(n) => {
            if !n.responsive_overrides.contains_key(variant_id.as_str()) {
                return Err(
                    node_diagnostic(
                        "DESIGN_RESPONSIVE_LAYOUT_MISSING",
                        "the responsive layout override does not exist",
                        node_id,
                    ),
                );
            }
        },
    }
    let ghost old_nodes = design.nodes@;
    let mut node = take_node(design, node_id);
    let removed = node.responsive_overrides.remove(variant_id.as_str()).unwrap();
    put_node(design, node_id, node);
    assert(design.nodes@ =~= old_nodes.insert(node_id@, design.nodes@[node_id@]));
    Ok(Command::SetResponsiveLayout { node_id: node_id.copy(), variant_id: variant_id.copy(), layout: removed.layout })
}

/// Setting a breakpoint layout and then applying the returned inverse
/// restores the node's overrides: a fresh override is removed again, and an
/// existing one gets its layout back.
pub proof fn lemma_responsive_layout_undo(
    m: Map<Seq<char>, ResponsiveNodeOverride>,
    variant: Seq<char>,
    o: ResponsiveNodeOverride,
    layout: LayoutProperties,
    o2: ResponsiveNodeOverride,
)
    requires
        override_with_layout(m, variant, o, layout),
    ensures
        !m.contains_key(variant) ==> m.insert(variant, o).remove(variant) == m,
        m.contains_key(variant) && override_with_layout(m.insert(variant, o), variant, o2, m[variant].layout)
            ==> m.insert(variant, o).insert(variant, o2) == m,
{
    if !m.contains_key(variant) {
        assert(m.insert(variant, o).remove(variant) =~= m);
    } else if override_with_layout(m.insert(variant, o), variant, o2, m[variant].layout) {
        assert(o2 == m[variant]);
        assert(m.insert(variant, o).insert(variant, o2) =~= m);
    }
}

/// The node map `b` is `a` with two distinct nodes replaced by nodes that
/// differ only in their child lists.
pub open spec fn two_children_set(
    a: Map<Seq<char>, DesignNode>,
    b: Map<Seq<char>, DesignNode>,
    k1: Seq<char>,
    kids1: Seq<Seq<char>>,
    k2: Seq<char>,
    kids2: Seq<Seq<char>>,
) -> bool {
    &&& k1 != k2
    &&& a.contains_key(k1)
    &&& a.contains_key(k2)
    &&& b == a.insert(k1, b[k1]).insert(k2, b[k2])
    &&& same_but_children(a[k1], b[k1])
    &&& same_but_children(a[k2], b[k2])
    &&& ids(b[k1].children@) == kids1
    &&& ids(b[k2].children@) == kids2
}

/// The first problem that stops a reorder, if any.
pub open spec fn reorder_error(design: &StudioDesign, node_id: NodeId, index: usize) -> Option<DiagView> {
    if !design.parents@.contains_key(node_id@) {
        Some(missing_node_view(node_id))
    } else if !(design.parents@[node_id@] is Node) {
        Some(error_view(
            "DESIGN_PARENT_INVALID"@,
            "screen and composition roots are not movable or deletable"@,
            Some(node_id),
        ))
    } else if child_index_of(design, node_id@) is None {
        Some(error_view(
            "DESIGN_PARENT_INVALID"@,
            "the parent index does not contain the node"@,
            Some(node_id),
        ))
    } else if index >= design.nodes@[design.parents@[node_id@]->node_id@].children@.len() {
        Some(error_view(
            "DESIGN_CHILD_INDEX_INVALID"@,
            "the requested child index is outside the destination parent"@,
            Some(node_id),
        ))
    } else {
        None
    }
}

/// A sibling list with the entry at `i` moved to position `j`.
pub open spec fn reordered(s: Seq<Seq<char>>, i: int, j: int) -> Seq<Seq<char>> {
    s.remove(i).insert(j, s[i])
}

/// Move a node to another position among its siblings, returning the
/// command that moves it back.
pub fn reorder_node(design: &mut StudioDesign, node_id: &NodeId, index: usize) -> (r: Result<Command, DesignerDiagnostic>)
    ensures
        match reorder_error(old(design), *node_id, index) {
            Some(v) => r matches Err(d) && diag_view(d) == v && *final(design) == *old(design),
            None => r matches Ok(c) && {
                let p = old(design).parents@[node_id@]->node_id@;
                let i = child_index_of(old(design), node_id@)->0;
                &&& c == (Command::ReorderNode { node_id: *node_id, index: i as usize })
                &&& same_but_nodes(*old(design), *final(design))
                &&& children_set(
                    old(design).nodes@,
                    final(design).nodes@,
                    p,
                    reordered(ids(old(design).nodes@[p].children@), i, index as int),
                )
            },
        },
{
    let parent = match design.parents.get(node_id.as_str()) {
        None => {
            return Err(missing_node(node_id));
        },
        Some(p) => p.copy(),
    };
    match require_nested_parent(node_id, &parent) {
        Err(e) => {
            return Err(e);
        },
        Ok(()) => {},
    }
    let old_index = match child_index(design, node_id) {
        None => {
            return Err(invalid_parent(node_id, "the parent index does not contain the node"));
        },
        Some(i) => i,
    };
    let len = match &parent {
        NodeParent::Node { node_id: p } => design.nodes.get(p.as_str()).unwrap().children.len(),
        _ => 0,
    };
    if index >= len {
        return Err(
            node_diagnostic(
                "DESIGN_CHILD_INDEX_INVALID",
                "the requested child index is outside the destination parent",
                node_id,
            ),
        );
    }
    let ghost old_design = *design;
    let ghost p = parent->node_id@;
    proof {
        lemma_first_position(ids(old_design.nodes@[p].children@), node_id@);
    }
    let removed = match remove_child(design, node_id, &parent) {
        Ok(x) => x,
        Err(e) => {
            return Err(e);
        },
    };
    let ghost mid = *design;
    proof {
        assert(ids(mid.nodes@[p].children@).len() == mid.nodes@[p].children@.len());
        assert(ids(old_design.nodes@[p].children@).len() == old_design.nodes@[p].children@.len());
        assert(mid.nodes@[p].children@.len() + 1 == old_design.nodes@[p].children@.len());
    }
    let placement = ParentPlacement { parent, index };
    match insert_child(design, &placement, removed) {
        Ok(()) => {},
        Err(e) => {
            return Err(e);
        },
    }
    proof {
        let s = ids(old_design.nodes@[p].children@);
        assert(s[old_index as int] == node_id@);
        assert(design.nodes@ =~= old_design.nodes@.insert(p, design.nodes@[p]));
    }
    Ok(Command::ReorderNode { node_id: node_id.copy(), index: old_index })
}

/// Moving a uniquely listed child from `i` to `j` and then from `j` back to
/// `i` restores the sibling order, and the second move finds the child at `j`.
pub proof fn lemma_reorder_undo(s: Seq<Seq<char>>, i: int, j: int)
    requires
        0 <= i < s.len(),
        0 <= j < s.len(),
        forall|k: int| 0 <= k < s.len() && k != i ==> s[k] != s[i],
    ensures
        first_position(reordered(s, i, j), s[i]) == Some(j),
        reordered(reordered(s, i, j), j, i) == s,
{
    let t = reordered(s, i, j);
    assert forall|k: int| 0 <= k < j implies t[k] != s[i] by {
        if k < i {
            assert(t[k] == s[k]);
        } else {
            assert(t[k] == s[k + 1]);
        }
    }
    lemma_first_position_at(t, s[i], j);
    assert(t.remove(j) =~= s.remove(i));
    assert(reordered(t, j, i) =~= s);
}

/// The first problem that stops a move, if any.
pub open spec fn move_error(design: &StudioDesign, node_id: NodeId, destination: ParentPlacement) -> Option<DiagView> {
    if !design.parents@.contains_key(node_id@) {
        Some(missing_node_view(node_id))
    } else if child_index_of(design, node_id@) is None {
        Some(error_view(
            "DESIGN_PARENT_INVALID"@,
            "the parent index does not contain the node"@,
            Some(node_id),
        ))
    } else if !(design.parents@[node_id@] is Node) || !(destination.parent is Node) {
        Some(error_view(
            "DESIGN_PARENT_INVALID"@,
            "screen and composition roots are not movable or deletable"@,
            Some(node_id),
        ))
    } else if crate::access::in_subtree(design, destination.parent->node_id@, node_id@) {
        Some(error_view(
            "DESIGN_MOVE_CYCLE"@,
            "a node cannot move under itself or one of its descendants"@,
            Some(node_id),
        ))
    } else if !design.nodes@.contains_key(destination.parent->node_id@) {
        Some(missing_node_view(destination.parent->node_id))
    } else if destination.index > design.nodes@[destination.parent->node_id@].children@.len() - if destination.parent->node_id@
        == design.parents@[node_id@]->node_id@ {
        1int
    } else {
        0int
    } {
        Some(error_view(
            "DESIGN_CHILD_INDEX_INVALID"@,
            "the requested child index is outside the destination parent"@,
            Some(node_id),
        ))
    } else {
        None
    }
}

/// Move a node under another node parent, returning the command that moves
/// it back to its previous parent and position.
pub fn move_node(design: &mut StudioDesign, node_id: &NodeId, destination: &ParentPlacement) -> (r: Result<Command, DesignerDiagnostic>)
    ensures
        match move_error(old(design), *node_id, *destination) {
            Some(v) => r matches Err(d) && diag_view(d) == v && *final(design) == *old(design),
            None => r matches Ok(c) && {
                let p = old(design).parents@[node_id@]->node_id@;
                let q = destination.parent->node_id@;
                let i = child_index_of(old(design), node_id@)->0;
                let j = destination.index as int;
                &&& c == (Command::MoveNode {
                    node_id: *node_id,
                    destination: ParentPlacement { parent: old(design).parents@[node_id@], index: i as usize },
                })
                &&& same_but_tree(*old(design), *final(design))
                &&& final(design).parents@ == old(design).parents@.insert(node_id@, destination.parent)
                &&& if p == q {
                    children_set(
                        old(design).nodes@,
                        final(design).nodes@,
                        p,
                        reordered(ids(old(design).nodes@[p].children@), i, j),
                    )
                } else {
                    two_children_set(
                        old(design).nodes@,
                        final(design).nodes@,
                        p,
                        ids(old(design).nodes@[p].children@).remove(i),
                        q,
                        ids(old(design).nodes@[q].children@).insert(j, node_id@),
                    )
                }
            },
        },
{
    let old_parent = match design.parents.get(node_id.as_str()) {
        None => {
            return Err(missing_node(node_id));
        },
        Some(p) => p.copy(),
    };
    let old_index = match child_index(design, node_id) {
        None => {
            return Err(invalid_parent(node_id, "the parent index does not contain the node"));
        },
        Some(i) => i,
    };
    match require_nested_parent(node_id, &old_parent) {
        Err(e) => {
            return Err(e);
        },
        Ok(()) => {},
    }
    match require_nested_parent(node_id, &destination.parent) {
        Err(e) => {
            return Err(e);
        },
        Ok(()) => {},
    }
    let (p, q) = match (&old_parent, &destination.parent) {
        (NodeParent::Node { node_id: p }, NodeParent::Node { node_id: q }) => (p, q),
        _ => {
            return Err(invalid_parent(node_id, "screen and composition roots are not movable or deletable"));
        },
    };
    if crate::access::is_in_subtree(design, q, node_id.as_str()) {
        return Err(
            node_diagnostic(
                "DESIGN_MOVE_CYCLE",
                "a node cannot move under itself or one of its descendants",
                node_id,
            ),
        );
    }
    let room = match design.nodes.get(q.as_str()) {
        None => {
            return Err(missing_node(q));
        },
        Some(n) => n.children.len(),
    };
    let same = p.same(q);
    let room = if same {
        room - 1
    } else {
        room
    };
    if destination.index > room {
        return Err(
            node_diagnostic(
                "DESIGN_CHILD_INDEX_INVALID",
                "the requested child index is outside the destination parent",
                node_id,
            ),
        );
    }
    let ghost old_design = *design;
    proof {
        lemma_first_position(ids(old_design.nodes@[p@].children@), node_id@);
    }
    let removed = match remove_child(design, node_id, &old_parent) {
        Ok(x) => x,
        Err(e) => {
            return Err(e);
        },
    };
    let ghost mid = *design;
    match insert_child(design, destination, removed) {
        Ok(()) => {},
        Err(e) => {
            return Err(e);
        },
    }
    let ghost before_parents = design.parents@;
    design.parents.insert(node_id.copy(), destination.parent.copy());
    proof {
        let s = ids(old_design.nodes@[p@].children@);
        assert(s[old_index as int] == node_id@);
        if same {
            assert(design.nodes@ =~= old_design.nodes@.insert(p@, design.nodes@[p@]));
        } else {
            assert(design.nodes@ =~= old_design.nodes@.insert(p@, design.nodes@[p@]).insert(
                q@,
                design.nodes@[q@],
            ));
        }
    }
    Ok(
        Command::MoveNode {
            node_id: node_id.copy(),
            destination: ParentPlacement { parent: old_parent, index: old_index },
        },
    )
}

/// Moving a child from one parent list to a different one and back restores
/// both lists, and the way back finds the child where it was put.
pub proof fn lemma_move_undo(from: Seq<Seq<char>>, i: int, to: Seq<Seq<char>>, j: int)
    requires
        0 <= i < from.len(),
        0 <= j <= to.len(),
        forall|k: int| 0 <= k < to.len() ==> to[k] != from[i],
    ensures
        first_position(to.insert(j, from[i]), from[i]) == Some(j),
        to.insert(j, from[i]).remove(j) == to,
        from.remove(i).insert(i, from[i]) == from,
{
    let t = to.insert(j, from[i]);
    assert forall|k: int| 0 <= k < j implies t[k] != from[i] by {
        assert(t[k] == to[k]);
    }
    lemma_first_position_at(t, from[i], j);
    assert(t.remove(j) =~= to);
    assert(from.remove(i).insert(i, from[i]) =~= from);
}

/// Whether a value is, or lists at any depth, a reference to token `t`.
pub open spec fn value_has_token(v: PropertyValue, t: Seq<char>) -> bool
    decreases v,
{
    match v {
        PropertyValue::Token(id) => id@ == t,
        PropertyValue::List(xs) => {
            proof {
                vstd::std_specs::vec::axiom_vec_decreases_to_view(xs);
            }
            list_has_token(xs@, t)
        },
        _ => false,
    }
}

/// Whether some value of a sequence refers to token `t`.
pub open spec fn list_has_token(xs: Seq<PropertyValue>, t: Seq<char>) -> bool
    decreases xs,
{
    if xs.len() == 0 {
        false
    } else {
        value_has_token(xs[0], t) || list_has_token(xs.drop_first(), t)
    }
}

/// Whether a value refers to a token.
pub fn property_contains_token(value: &PropertyValue, token_id: &TokenId) -> (r: bool)
    ensures
        r == value_has_token(*value, token_id@),
    decreases value,
{
    match value {
        PropertyValue::Token(id) => id.same(token_id),
        PropertyValue::List(xs) => {
            let mut i: usize = 0;
            assert(xs@.skip(0) =~= xs@);
            while i < xs.len()
                invariant
                    *value == PropertyValue::List(*xs),
                    i <= xs@.len(),
                    value_has_token(*value, token_id@) == list_has_token(xs@.skip(i as int), token_id@),
                decreases xs@.len() - i,
            {
                proof {
                    vstd::std_specs::vec::axiom_vec_index_decreases(*xs, i as int);
                    assert(decreases_to!(*value => (*value)->List_0));
                    assert(decreases_to!(*value => (*value)->List_0@[i as int]));
                }
                let ghost sx = xs@.skip(i as int);
                assert(sx[0] == xs@[i as int]);
                assert(sx.drop_first() =~= xs@.skip(i + 1));
                if property_contains_token(&xs[i], token_id) {
                    return true;
                }
                i = i + 1;
            }
            false
        },
        _ => false,
    }
}

/// Whether a map of values refers to token `t` in some value.
pub open spec fn map_has_token(m: Map<Seq<char>, PropertyValue>, t: Seq<char>) -> bool {
    exists|k: Seq<char>| #[trigger] m.contains_key(k) && value_has_token(m[k], t)
}

fn values_contain_token(m: &OrderedMap<String, PropertyValue>, token_id: &TokenId) -> (r: bool)
    ensures
        r == map_has_token(m@, token_id@),
{
    m.reveal_entries();
    let n = m.len();
    let mut i: usize = 0;
    while i < n
        invariant
            n == m.entry_seq().len(),
            i <= n,
            forall|j: int| 0 <= j < i ==> !value_has_token(#[trigger] m.entry_seq()[j].1, token_id@),
        decreases n - i,
    {
        if property_contains_token(m.value_at(i), token_id) {
            m.reveal_entries();
            assert(m@.contains_key(m.entry_seq()[i as int].0@)) by {
                assert(m.key_seq()[i as int] == m.entry_seq()[i as int].0@);
            }
            assert(m@[m.entry_seq()[i as int].0.key_view()] == m.entry_seq()[i as int].1);
            return true;
        }
        i = i + 1;
    }
    assert forall|k: Seq<char>| #[trigger] m@.contains_key(k) implies !value_has_token(m@[k], token_id@) by {
        let j = m.key_seq().index_of(k);
        assert(m.key_seq()[j] == m.entry_seq()[j].0@);
    }
    false
}

/// Whether an optional paint is token `t`.
pub open spec fn paint_is_token(p: Option<crate::model::Paint>, t: Seq<char>) -> bool {
    p matches Some(crate::model::Paint::Token(id)) && id@ == t
}

fn paint_uses(p: &Option<crate::model::Paint>, token_id: &TokenId) -> (r: bool)
    ensures
        r == paint_is_token(*p, token_id@),
{
    match p {
        Some(crate::model::Paint::Token(id)) => id.same(token_id),
        _ => false,
    }
}

/// Whether a style paints with token `t`.
pub open spec fn style_has_token(s: StyleProperties, t: Seq<char>) -> bool {
    paint_is_token(s.background, t) || paint_is_token(s.foreground, t) || paint_is_token(s.border_color, t)
}

fn style_uses(s: &StyleProperties, token_id: &TokenId) -> (r: bool)
    ensures
        r == style_has_token(*s, token_id@),
{
    paint_uses(&s.background, token_id) || paint_uses(&s.foreground, token_id) || paint_uses(&s.border_color, token_id)
}

/// Whether a node refers to token `t`: in its properties or style, in a
/// responsive override's properties or style, or in its composition inputs
/// and admitted overrides.
pub open spec fn node_has_token(node: DesignNode, t: Seq<char>) -> bool {
    ||| map_has_token(node.properties@, t)
    ||| style_has_token(node.style, t)
    ||| exists|k: Seq<char>| #[trigger] node.responsive_overrides@.contains_key(k) && (map_has_token(
        node.responsive_overrides@[k].properties@,
        t,
    ) || style_has_token(node.responsive_overrides@[k].style, t))
    ||| match node.source {
        DesignNodeSource::CompositionInstance { inputs, admitted_overrides, .. } => map_has_token(
            inputs@,
            t,
        ) || map_has_token(admitted_overrides@, t),
        _ => false,
    }
}

fn overrides_use(node: &DesignNode, token_id: &TokenId) -> (r: bool)
    ensures
        r == exists|k: Seq<char>| #[trigger] node.responsive_overrides@.contains_key(k) && (map_has_token(
            node.responsive_overrides@[k].properties@,
            token_id@,
        ) || style_has_token(node.responsive_overrides@[k].style, token_id@)),
{
    let m = &node.responsive_overrides;
    m.reveal_entries();
    let n = m.len();
    let mut i: usize = 0;
    while i < n
        invariant
            *m == node.responsive_overrides,
            n == m.entry_seq().len(),
            i <= n,
            forall|j: int| 0 <= j < i ==> !(map_has_token((#[trigger] m.entry_seq()[j]).1.properties@, token_id@)
                || style_has_token(m.entry_seq()[j].1.style, token_id@)),
        decreases n - i,
    {
        let o = m.value_at(i);
        if values_contain_token(&o.properties, token_id) || style_uses(&o.style, token_id) {
            m.reveal_entries();
            assert(m@.contains_key(m.entry_seq()[i as int].0@)) by {
                assert(m.key_seq()[i as int] == m.entry_seq()[i as int].0@);
            }
            assert(m@[m.entry_seq()[i as int].0.key_view()] == m.entry_seq()[i as int].1);
            return true;
        }
        i = i + 1;
    }
    assert forall|k: Seq<char>| #[trigger] m@.contains_key(k) implies !(map_has_token(m@[k].properties@, token_id@)
        || style_has_token(m@[k].style, token_id@)) by {
        let j = m.key_seq().index_of(k);
        assert(m.key_seq()[j] == m.entry_seq()[j].0@);
    }
    false
}

fn node_uses(node: &DesignNode, token_id: &TokenId) -> (r: bool)
    ensures
        r == node_has_token(*node, token_id@),
{
    if values_contain_token(&node.properties, token_id) || style_uses(&node.style, token_id) {
        return true;
    }
    if overrides_use(node, token_id) {
        return true;
    }
    match &node.source {
        DesignNodeSource::CompositionInstance { inputs, admitted_overrides, .. } => values_contain_token(
            inputs,
            token_id,
        ) || values_contain_token(admitted_overrides, token_id),
        _ => false,
    }
}

/// Whether an optional default value refers to token `t`.
pub open spec fn default_has_token(d: Option<PropertyValue>, t: Seq<char>) -> bool {
    match d {
        Some(v) => value_has_token(v, t),
        None => false,
    }
}

/// Whether a composition's input defaults refer to token `t`.
pub open spec fn composition_has_token(c: crate::model::ReusableComposition, t: Seq<char>) -> bool {
    exists|k: Seq<char>| #[trigger] c.inputs@.contains_key(k) && default_has_token(c.inputs@[k].default, t)
}

fn composition_uses(c: &crate::model::ReusableComposition, token_id: &TokenId) -> (r: bool)
    ensures
        r == composition_has_token(*c, token_id@),
{
    let m = &c.inputs;
    m.reveal_entries();
    let n = m.len();
    let mut i: usize = 0;
    while i < n
        invariant
            *m == c.inputs,
            n == m.entry_seq().len(),
            i <= n,
            forall|j: int| 0 <= j < i ==> !default_has_token((#[trigger] m.entry_seq()[j]).1.default, token_id@),
        decreases n - i,
    {
        let used = match &m.value_at(i).default {
            Some(v) => property_contains_token(v, token_id),
            None => false,
        };
        if used {
            m.reveal_entries();
            assert(m@.contains_key(m.entry_seq()[i as int].0@)) by {
                assert(m.key_seq()[i as int] == m.entry_seq()[i as int].0@);
            }
            assert(m@[m.entry_seq()[i as int].0.key_view()] == m.entry_seq()[i as int].1);
            return true;
        }
        i = i + 1;
    }
    assert forall|k: Seq<char>| #[trigger] m@.contains_key(k) implies !default_has_token(m@[k].default, token_id@) by {
        let j = m.key_seq().index_of(k);
        assert(m.key_seq()[j] == m.entry_seq()[j].0@);
    }
    false
}

/// Whether any node or composition default refers to token `t`.
pub open spec fn design_has_token(design: &StudioDesign, t: Seq<char>) -> bool {
    (exists|k: Seq<char>| #[trigger] design.nodes@.contains_key(k) && node_has_token(design.nodes@[k], t))
        || (exists|k: Seq<char>| #[trigger] design.compositions@.contains_key(k) && composition_has_token(
        design.compositions@[k],
        t,
    ))
}

/// Whether the design still refers to a token anywhere.
pub fn design_references_token(design: &StudioDesign, token_id: &TokenId) -> (r: bool)
    ensures
        r == design_has_token(design, token_id@),
{
    let m = &design.nodes;
    m.reveal_entries();
    let n = m.len();
    let mut i: usize = 0;
    while i < n
        invariant
            *m == design.nodes,
            n == m.entry_seq().len(),
            i <= n,
            forall|j: int| 0 <= j < i ==> !node_has_token((#[trigger] m.entry_seq()[j]).1, token_id@),
        decreases n - i,
    {
        if node_uses(m.value_at(i), token_id) {
            m.reveal_entries();
            assert(m@.contains_key(m.entry_seq()[i as int].0@)) by {
                assert(m.key_seq()[i as int] == m.entry_seq()[i as int].0@);
            }
            assert(m@[m.entry_seq()[i as int].0.key_view()] == m.entry_seq()[i as int].1);
            return true;
        }
        i = i + 1;
    }
    assert forall|k: Seq<char>| #[trigger] m@.contains_key(k) implies !node_has_token(m@[k], token_id@) by {
        let j = m.key_seq().index_of(k);
        assert(m.key_seq()[j] == m.entry_seq()[j].0@);
    }
    let c = &design.compositions;
    c.reveal_entries();
    let nc = c.len();
    let mut i: usize = 0;
    while i < nc
        invariant
            *c == design.compositions,
            nc == c.entry_seq().len(),
            i <= nc,
            forall|j: int| 0 <= j < i ==> !composition_has_token((#[trigger] c.entry_seq()[j]).1, token_id@),
        decreases nc - i,
    {
        if composition_uses(c.value_at(i), token_id) {
            c.reveal_entries();
            assert(c@.contains_key(c.entry_seq()[i as int].0@)) by {
                assert(c.key_seq()[i as int] == c.entry_seq()[i as int].0@);
            }
            assert(c@[c.entry_seq()[i as int].0.key_view()] == c.entry_seq()[i as int].1);
            return true;
        }
        i = i + 1;
    }
    assert forall|k: Seq<char>| #[trigger] c@.contains_key(k) implies !composition_has_token(c@[k], token_id@) by {
        let j = c.key_seq().index_of(k);
        assert(c.key_seq()[j] == c.entry_seq()[j].0@);
    }
    false
}

/// Whether a token value has the shape its kind requires.
pub open spec fn kind_accepts(kind: TokenKind, value: TokenValue) -> bool {
    match kind {
        TokenKind::Color => value is Color,
        TokenKind::Typography => value is Typography,
        TokenKind::Length => value is Length,
        TokenKind::Number => value is Number,
        TokenKind::String => value is String,
    }
}

/// Check that a token value matches its kind.
pub fn validate_token_value(kind: TokenKind, value: &TokenValue) -> (r: Result<(), DesignerDiagnostic>)
    ensures
        r is Ok <==> kind_accepts(kind, *value),
        r matches Err(d) ==> diag_view(d) == error_view(
            "DESIGN_TOKEN_VALUE_KIND_MISMATCH"@,
            "the token value does not match the token kind"@,
            None,
        ),
{
    let compatible = match kind {
        TokenKind::Color => matches!(value, TokenValue::Color(_)),
        TokenKind::Typography => matches!(value, TokenValue::Typography(_)),
        TokenKind::Length => matches!(value, TokenValue::Length(_)),
        TokenKind::Number => matches!(value, TokenValue::Number(_)),
        TokenKind::String => matches!(value, TokenValue::String(_)),
    };
    if compatible {
        Ok(())
    } else {
        Err(diagnostic("DESIGN_TOKEN_VALUE_KIND_MISMATCH", "the token value does not match the token kind", None))
    }
}

/// The first problem of a token record, if any.
pub open spec fn token_error(token: DesignToken) -> Option<DiagView> {
    if token.schema_version != STUDIO_DESIGN_SCHEMA_VERSION {
        Some(error_view("DESIGN_TOKEN_INVALID"@, "a token schema version is unsupported"@, None))
    } else if !valid_node_name(token.name@) {
        Some(error_view("DESIGN_TOKEN_NAME_INVALID"@, "a token name must contain 1..=256 safe bytes"@, None))
    } else if !kind_accepts(token.kind, token.value) {
        Some(error_view(
            "DESIGN_TOKEN_VALUE_KIND_MISMATCH"@,
            "the token value does not match the token kind"@,
            None,
        ))
    } else {
        None
    }
}

fn name_is_valid(name: &str) -> (r: bool)
    ensures
        r == valid_node_name(name@),
{
    !(is_blank(name) || longer_than_256_bytes(name) || crate::text::contains_control(name))
}

/// Check a token's schema version, name and value kind.
pub fn validate_token(token: &DesignToken) -> (r: Result<(), DesignerDiagnostic>)
    ensures
        match token_error(*token) {
            Some(v) => r matches Err(d) && diag_view(d) == v,
            None => r is Ok,
        },
{
    if token.schema_version != STUDIO_DESIGN_SCHEMA_VERSION {
        return Err(diagnostic("DESIGN_TOKEN_INVALID", "a token schema version is unsupported", None));
    }
    if !name_is_valid(token.name.as_str()) {
        return Err(diagnostic("DESIGN_TOKEN_NAME_INVALID", "a token name must contain 1..=256 safe bytes", None));
    }
    validate_token_value(token.kind, &token.value)
}

/// `b` is `a` with at most its tokens changed.
pub open spec fn same_but_tokens(a: StudioDesign, b: StudioDesign) -> bool {
    &&& a.schema_version == b.schema_version
    &&& a.project_id == b.project_id
    &&& a.name == b.name
    &&& a.nodes == b.nodes
    &&& a.parents == b.parents
    &&& a.screens == b.screens
    &&& a.screen_order == b.screen_order
    &&& a.compositions == b.compositions
    &&& a.responsive_variants == b.responsive_variants
    &&& a.interactions == b.interactions
    &&& a.collections == b.collections
    &&& a.bindings == b.bindings
    &&& a.forms == b.forms
}

/// The diagnostic for a command that names an unknown token.
pub open spec fn token_missing_view(token_id: TokenId) -> DiagView {
    error_view("DESIGN_TOKEN_MISSING"@, "the command references unknown token "@ + token_id@, None)
}

fn token_missing(token_id: &TokenId) -> (r: DesignerDiagnostic)
    ensures
        diag_view(r) == token_missing_view(*token_id),
{
    let mut message = String::from_str("the command references unknown token ");
    message.append(token_id.as_str());
    DesignerDiagnostic {
        code: String::from_str("DESIGN_TOKEN_MISSING"),
        severity: DiagnosticSeverity::Error,
        message,
        node_id: None,
        interaction_id: None,
        collection_id: None,
        binding_id: None,
        form_id: None,
        record_id: None,
    }
}

/// Define a new token, returning the command that removes it.
pub fn define_token(design: &mut StudioDesign, token: DesignToken) -> (r: Result<Command, DesignerDiagnostic>)
    ensures
        match token_error(token) {
            Some(v) => r matches Err(d) && diag_view(d) == v,
            None => if old(design).tokens@.contains_key(token.id@) {
                r matches Err(d) && diag_view(d) == error_view(
                    "DESIGN_TOKEN_EXISTS"@,
                    "the token identity already exists"@,
                    None,
                )
            } else {
                &&& r == Ok::<Command, DesignerDiagnostic>(Command::RemoveToken { token_id: token.id })
                &&& final(design).tokens@ == old(design).tokens@.insert(token.id@, token)
                &&& same_but_tokens(*old(design), *final(design))
            },
        },
        r is Err ==> *final(design) == *old(design),
{
    match validate_token(&token) {
        Err(e) => {
            return Err(e);
        },
        Ok(()) => {},
    }
    if design.tokens.contains_key(token.id.as_str()) {
        return Err(diagnostic("DESIGN_TOKEN_EXISTS", "the token identity already exists", None));
    }
    let id = token.id.copy();
    design.tokens.insert(token.id.copy(), token);
    Ok(Command::RemoveToken { token_id: id })
}

/// Replace a token record, returning the command that puts the previous record back.
pub fn update_token(design: &mut StudioDesign, token: DesignToken) -> (r: Result<Command, DesignerDiagnostic>)
    ensures
        match token_error(token) {
            Some(v) => r matches Err(d) && diag_view(d) == v,
            None => if !old(design).tokens@.contains_key(token.id@) {
                r matches Err(d) && diag_view(d) == error_view(
                    "DESIGN_TOKEN_MISSING"@,
                    "the token does not exist"@,
                    None,
                )
            } else {
                &&& r == Ok::<Command, DesignerDiagnostic>(
                    Command::UpdateToken { token: old(design).tokens@[token.id@] },
                )
                &&& final(design).tokens@ == old(design).tokens@.insert(token.id@, token)
                &&& same_but_tokens(*old(design), *final(design))
            },
        },
        r is Err ==> *final(design) == *old(design),
{
    match validate_token(&token) {
        Err(e) => {
            return Err(e);
        },
        Ok(()) => {},
    }
    if !design.tokens.contains_key(token.id.as_str()) {
        return Err(diagnostic("DESIGN_TOKEN_MISSING", "the token does not exist", None));
    }
    let prior = design.tokens.insert(token.id.copy(), token);
    match prior {
        Some(p) => Ok(Command::UpdateToken { token: p }),
        None => Err(diagnostic("DESIGN_TOKEN_MISSING", "the token does not exist", None)),
    }
}

/// Remove a token that nothing refers to, returning the command that defines it again.
pub fn remove_token(design: &mut StudioDesign, token_id: &TokenId) -> (r: Result<Command, DesignerDiagnostic>)
    ensures
        !old(design).tokens@.contains_key(token_id@) ==> (r matches Err(d) && diag_view(d) == error_view(
            "DESIGN_TOKEN_MISSING"@,
            "the token does not exist"@,
            None,
        )),
        old(design).tokens@.contains_key(token_id@) && design_has_token(old(design), token_id@) ==> (r matches Err(
            d,
        ) && diag_view(d) == error_view(
            "DESIGN_TOKEN_IN_USE"@,
            "clear every token reference before removing the token"@,
            None,
        )),
        r is Ok <==> old(design).tokens@.contains_key(token_id@) && !design_has_token(old(design), token_id@),
        r is Err ==> *final(design) == *old(design),
        r is Ok ==> {
            &&& r == Ok::<Command, DesignerDiagnostic>(
                Command::DefineToken { token: old(design).tokens@[token_id@] },
            )
            &&& final(design).tokens@ == old(design).tokens@.remove(token_id@)
            &&& same_but_tokens(*old(design), *final(design))
        },
{
    if !design.tokens.contains_key(token_id.as_str()) {
        return Err(diagnostic("DESIGN_TOKEN_MISSING", "the token does not exist", None));
    }
    if design_references_token(design, token_id) {
        return Err(diagnostic("DESIGN_TOKEN_IN_USE", "clear every token reference before removing the token", None));
    }
    match design.tokens.remove(token_id.as_str()) {
        Some(token) => Ok(Command::DefineToken { token }),
        None => Err(diagnostic("DESIGN_TOKEN_MISSING", "the token does not exist", None)),
    }
}

/// The message for creating a token whose identity exists.
pub open spec fn token_exists_message(token_id: TokenId) -> Seq<char> {
    "token identity "@ + token_id@ + " already exists"@
}

/// Add a project-owned token, returning the command that deletes it.
pub fn create_token(design: &mut StudioDesign, token: DesignToken) -> (r: Result<Command, DesignerDiagnostic>)
    ensures
        match token_error(token) {
            Some(v) => r matches Err(d) && diag_view(d) == v,
            None => if old(design).tokens@.contains_key(token.id@) {
                r matches Err(d) && diag_view(d) == error_view(
                    "DESIGN_TOKEN_EXISTS"@,
                    token_exists_message(token.id),
                    None,
                )
            } else {
                &&& r == Ok::<Command, DesignerDiagnostic>(
                    Command::DeleteToken { token_id: token.id, confirm: true },
                )
                &&& final(design).tokens@ == old(design).tokens@.insert(token.id@, token)
                &&& same_but_tokens(*old(design), *final(design))
            },
        },
        r is Err ==> *final(design) == *old(design),
{
    match validate_token(&token) {
        Err(e) => {
            return Err(e);
        },
        Ok(()) => {},
    }
    if design.tokens.contains_key(token.id.as_str()) {
        let mut message = String::from_str("token identity ");
        message.append(token.id.as_str());
        message.append(" already exists");
        return Err(
            DesignerDiagnostic {
                code: String::from_str("DESIGN_TOKEN_EXISTS"),
                severity: DiagnosticSeverity::Error,
                message,
                node_id: None,
                interaction_id: None,
                collection_id: None,
                binding_id: None,
                form_id: None,
                record_id: None,
            },
        );
    }
    let id = token.id.copy();
    design.tokens.insert(token.id.copy(), token);
    Ok(Command::DeleteToken { token_id: id, confirm: true })
}

/// Change a token's shared value, returning the command that restores it.
pub fn edit_token(design: &mut StudioDesign, token_id: &TokenId, value: TokenValue) -> (r: Result<Command, DesignerDiagnostic>)
    ensures
        !old(design).tokens@.contains_key(token_id@) ==> (r matches Err(d) && diag_view(d) == token_missing_view(
            *token_id,
        )),
        old(design).tokens@.contains_key(token_id@) && !kind_accepts(old(design).tokens@[token_id@].kind, value)
            ==> (r matches Err(d) && diag_view(d) == error_view(
            "DESIGN_TOKEN_VALUE_KIND_MISMATCH"@,
            "the token value does not match the token kind"@,
            None,
        )),
        r is Ok <==> old(design).tokens@.contains_key(token_id@) && kind_accepts(
            old(design).tokens@[token_id@].kind,
            value,
        ),
        r is Err ==> *final(design) == *old(design),
        r is Ok ==> {
            let before = old(design).tokens@[token_id@];
            &&& r == Ok::<Command, DesignerDiagnostic>(Command::EditToken { token_id: *token_id, value: before.value })
            &&& final(design).tokens@ == old(design).tokens@.insert(token_id@, DesignToken { value, ..before })
            &&& same_but_tokens(*old(design), *final(design))
        },
{
    let kind = match design.tokens.get(token_id.as_str()) {
        None => {
            return Err(token_missing(token_id));
        },
        Some(t) => t.kind,
    };
    match validate_token_value(kind, &value) {
        Err(e) => {
            return Err(e);
        },
        Ok(()) => {},
    }
    let ghost old_tokens = design.tokens@;
    let ghost v = value;
    let mut token = design.tokens.remove(token_id.as_str()).unwrap();
    let ghost before = token;
    let mut prior = value;
    std::mem::swap(&mut token.value, &mut prior);
    assert(token == DesignToken { value: v, ..before });
    design.tokens.insert(token_id.copy(), token);
    assert(design.tokens@ =~= old_tokens.insert(token_id@, DesignToken { value: v, ..before }));
    Ok(Command::EditToken { token_id: token_id.copy(), value: prior })
}

/// Rename a token, returning the command that restores its name; consumers
/// keep referring to its identity.
pub fn rename_token(design: &mut StudioDesign, token_id: &TokenId, name: &str) -> (r: Result<Command, DesignerDiagnostic>)
    ensures
        !valid_node_name(name@) ==> (r matches Err(d) && diag_view(d) == error_view(
            "DESIGN_TOKEN_NAME_INVALID"@,
            "a token name must contain 1..=256 safe bytes"@,
            None,
        )),
        valid_node_name(name@) && !old(design).tokens@.contains_key(token_id@) ==> (r matches Err(d)
            && diag_view(d) == token_missing_view(*token_id)),
        r is Ok <==> valid_node_name(name@) && old(design).tokens@.contains_key(token_id@),
        r is Err ==> *final(design) == *old(design),
        r is Ok ==> {
            let before = old(design).tokens@[token_id@];
            let after = final(design).tokens@[token_id@];
            &&& r == Ok::<Command, DesignerDiagnostic>(Command::RenameToken { token_id: *token_id, name: before.name })
            &&& final(design).tokens@ == old(design).tokens@.insert(token_id@, after)
            &&& after == DesignToken { name: after.name, ..before }
            &&& after.name@ == name@
            &&& same_but_tokens(*old(design), *final(design))
        },
{
    if !name_is_valid(name) {
        return Err(diagnostic("DESIGN_TOKEN_NAME_INVALID", "a token name must contain 1..=256 safe bytes", None));
    }
    if !design.tokens.contains_key(token_id.as_str()) {
        return Err(token_missing(token_id));
    }
    let ghost old_tokens = design.tokens@;
    let mut token = design.tokens.remove(token_id.as_str()).unwrap();
    let mut prior = String::from_str(name);
    std::mem::swap(&mut token.name, &mut prior);
    design.tokens.insert(token_id.copy(), token);
    assert(design.tokens@ =~= old_tokens.insert(token_id@, design.tokens@[token_id@]));
    Ok(Command::RenameToken { token_id: token_id.copy(), name: prior })
}

/// Keyed record edits undo: adding a record under a new key and removing
/// it, removing a record and adding it back, and replacing a record and
/// putting the previous one back each leave the map as it was. This is the
/// undo law of token and device-profile definitions, updates and removals
/// and of whole breakpoint overrides.
pub proof fn lemma_keyed_edit_undo<V>(m: Map<Seq<char>, V>, k: Seq<char>, t: V)
    ensures
        !m.contains_key(k) ==> m.insert(k, t).remove(k) == m,
        m.contains_key(k) ==> m.remove(k).insert(k, m[k]) == m,
        m.contains_key(k) ==> m.insert(k, t).insert(k, m[k]) == m,
{
    if !m.contains_key(k) {
        assert(m.insert(k, t).remove(k) =~= m);
    } else {
        assert(m.remove(k).insert(k, m[k]) =~= m);
        assert(m.insert(k, t).insert(k, m[k]) =~= m);
    }
}

/// The first problem of a responsive variant record, if any.
pub open spec fn variant_error(variant: ResponsiveVariant) -> Option<DiagView> {
    if variant.schema_version != STUDIO_DESIGN_SCHEMA_VERSION {
        Some(error_view(
            "DESIGN_RESPONSIVE_INVALID"@,
            "the responsive variant schema version is unsupported"@,
            None,
        ))
    } else if trim_whitespace(variant.name@).len() == 0 || encode_utf8(variant.name@).len() > 128 || has_control(
        variant.name@,
    ) {
        Some(error_view(
            "DESIGN_RESPONSIVE_INVALID"@,
            "a responsive variant name must contain 1..=128 safe bytes"@,
            None,
        ))
    } else if match (variant.minimum_width, variant.maximum_width) {
        (Some(lo), Some(hi)) => lo > hi,
        _ => false,
    } {
        Some(error_view(
            "DESIGN_RESPONSIVE_INVALID"@,
            "a responsive variant minimum width cannot exceed its maximum width"@,
            None,
        ))
    } else {
        None
    }
}

/// Check a responsive variant's schema version, name and width bounds.
pub fn validate_responsive_variant(variant: &ResponsiveVariant) -> (r: Result<(), DesignerDiagnostic>)
    ensures
        match variant_error(*variant) {
            Some(v) => r matches Err(d) && diag_view(d) == v,
            None => r is Ok,
        },
{
    if variant.schema_version != STUDIO_DESIGN_SCHEMA_VERSION {
        return Err(
            diagnostic("DESIGN_RESPONSIVE_INVALID", "the responsive variant schema version is unsupported", None),
        );
    }
    if is_blank(variant.name.as_str()) || crate::text::utf8_byte_len(variant.name.as_str()) > 128
        || crate::text::contains_control(variant.name.as_str()) {
        return Err(
            diagnostic(
                "DESIGN_RESPONSIVE_INVALID",
                "a responsive variant name must contain 1..=128 safe bytes",
                None,
            ),
        );
    }
    let inverted = match (variant.minimum_width, variant.maximum_width) {
        (Some(lo), Some(hi)) => lo > hi,
        _ => false,
    };
    if inverted {
        return Err(
            diagnostic(
                "DESIGN_RESPONSIVE_INVALID",
                "a responsive variant minimum width cannot exceed its maximum width",
                None,
            ),
        );
    }
    Ok(())
}

/// `b` is `a` with at most its responsive variants changed.
pub open spec fn same_but_variants(a: StudioDesign, b: StudioDesign) -> bool {
    &&& a.schema_version == b.schema_version
    &&& a.project_id == b.project_id
    &&& a.name == b.name
    &&& a.nodes == b.nodes
    &&& a.parents == b.parents
    &&& a.screens == b.screens
    &&& a.screen_order == b.screen_order
    &&& a.compositions == b.compositions
    &&& a.tokens == b.tokens
    &&& a.interactions == b.interactions
    &&& a.collections == b.collections
    &&& a.bindings == b.bindings
    &&& a.forms == b.forms
}

/// Define a device profile variant, returning the command that removes it.
pub fn define_responsive_variant(design: &mut StudioDesign, variant: ResponsiveVariant) -> (r: Result<Command, DesignerDiagnostic>)
    ensures
        match variant_error(variant) {
            Some(v) => r matches Err(d) && diag_view(d) == v,
            None => if old(design).responsive_variants@.contains_key(variant.id@) {
                r matches Err(d) && diag_view(d) == error_view(
                    "DESIGN_RESPONSIVE_EXISTS"@,
                    "the responsive variant identity already exists"@,
                    None,
                )
            } else {
                &&& r == Ok::<Command, DesignerDiagnostic>(
                    Command::RemoveResponsiveVariant { variant_id: variant.id },
                )
                &&& final(design).responsive_variants@ == old(design).responsive_variants@.insert(
                    variant.id@,
                    variant,
                )
                &&& same_but_variants(*old(design), *final(design))
            },
        },
        r is Err ==> *final(design) == *old(design),
{
    match validate_responsive_variant(&variant) {
        Err(e) => {
            return Err(e);
        },
        Ok(()) => {},
    }
    if design.responsive_variants.contains_key(variant.id.as_str()) {
        return Err(diagnostic("DESIGN_RESPONSIVE_EXISTS", "the responsive variant identity already exists", None));
    }
    let id = variant.id.copy();
    design.responsive_variants.insert(variant.id.copy(), variant);
    Ok(Command::RemoveResponsiveVariant { variant_id: id })
}

/// Replace a device profile variant, returning the command that restores it.
pub fn update_responsive_variant(design: &mut StudioDesign, variant: ResponsiveVariant) -> (r: Result<Command, DesignerDiagnostic>)
    ensures
        match variant_error(variant) {
            Some(v) => r matches Err(d) && diag_view(d) == v,
            None => if !old(design).responsive_variants@.contains_key(variant.id@) {
                r matches Err(d) && diag_view(d) == error_view(
                    "DESIGN_RESPONSIVE_MISSING"@,
                    "the responsive variant does not exist"@,
                    None,
                )
            } else {
                &&& r == Ok::<Command, DesignerDiagnostic>(
                    Command::UpdateResponsiveVariant {
                        variant: old(design).responsive_variants@[variant.id@],
                    },
                )
                &&& final(design).responsive_variants@ == old(design).responsive_variants@.insert(
                    variant.id@,
                    variant,
                )
                &&& same_but_variants(*old(design), *final(design))
            },
        },
        r is Err ==> *final(design) == *old(design),
{
    match validate_responsive_variant(&variant) {
        Err(e) => {
            return Err(e);
        },
        Ok(()) => {},
    }
    if !design.responsive_variants.contains_key(variant.id.as_str()) {
        return Err(diagnostic("DESIGN_RESPONSIVE_MISSING", "the responsive variant does not exist", None));
    }
    match design.responsive_variants.insert(variant.id.copy(), variant) {
        Some(p) => Ok(Command::UpdateResponsiveVariant { variant: p }),
        None => Err(diagnostic("DESIGN_RESPONSIVE_MISSING", "the responsive variant does not exist", None)),
    }
}

/// Whether some node still overrides a device profile variant.
pub open spec fn variant_in_use(design: &StudioDesign, variant: Seq<char>) -> bool {
    exists|k: Seq<char>| #[trigger] design.nodes@.contains_key(k) && design.nodes@[k].responsive_overrides@.contains_key(
        variant,
    )
}

fn overrides_variant(design: &StudioDesign, variant_id: &ResponsiveVariantId) -> (r: bool)
    ensures
        r == variant_in_use(design, variant_id@),
{
    let m = &design.nodes;
    m.reveal_entries();
    let n = m.len();
    let mut i: usize = 0;
    while i < n
        invariant
            *m == design.nodes,
            n == m.entry_seq().len(),
            i <= n,
            forall|j: int| 0 <= j < i ==> !(#[trigger] m.entry_seq()[j]).1.responsive_overrides@.contains_key(variant_id@),
        decreases n - i,
    {
        if m.value_at(i).responsive_overrides.contains_key(variant_id.as_str()) {
            m.reveal_entries();
            assert(m@.contains_key(m.entry_seq()[i as int].0@)) by {
                assert(m.key_seq()[i as int] == m.entry_seq()[i as int].0@);
            }
            assert(m@[m.entry_seq()[i as int].0.key_view()] == m.entry_seq()[i as int].1);
            return true;
        }
        i = i + 1;
    }
    assert forall|k: Seq<char>| #[trigger] m@.contains_key(k) implies !m@[k].responsive_overrides@.contains_key(variant_id@) by {
        let j = m.key_seq().index_of(k);
        assert(m.key_seq()[j] == m.entry_seq()[j].0@);
    }
    false
}

/// Remove a device profile variant that no node overrides, returning the
/// command that defines it again.
pub fn remove_responsive_variant(design: &mut StudioDesign, variant_id: &ResponsiveVariantId) -> (r: Result<Command, DesignerDiagnostic>)
    ensures
        !old(design).responsive_variants@.contains_key(variant_id@) ==> (r matches Err(d) && diag_view(d)
            == error_view("DESIGN_RESPONSIVE_MISSING"@, "the responsive variant does not exist"@, None)),
        old(design).responsive_variants@.contains_key(variant_id@) && variant_in_use(old(design), variant_id@)
            ==> (r matches Err(d) && diag_view(d) == error_view(
            "DESIGN_RESPONSIVE_IN_USE"@,
            "clear responsive overrides before removing the variant"@,
            None,
        )),
        r is Ok <==> old(design).responsive_variants@.contains_key(variant_id@) && !variant_in_use(
            old(design),
            variant_id@,
        ),
        r is Err ==> *final(design) == *old(design),
        r is Ok ==> {
            &&& r == Ok::<Command, DesignerDiagnostic>(
                Command::DefineResponsiveVariant { variant: old(design).responsive_variants@[variant_id@] },
            )
            &&& final(design).responsive_variants@ == old(design).responsive_variants@.remove(variant_id@)
            &&& same_but_variants(*old(design), *final(design))
        },
{
    if !design.responsive_variants.contains_key(variant_id.as_str()) {
        return Err(diagnostic("DESIGN_RESPONSIVE_MISSING", "the responsive variant does not exist", None));
    }
    if overrides_variant(design, variant_id) {
        return Err(
            diagnostic("DESIGN_RESPONSIVE_IN_USE", "clear responsive overrides before removing the variant", None),
        );
    }
    match design.responsive_variants.remove(variant_id.as_str()) {
        Some(variant) => Ok(Command::DefineResponsiveVariant { variant }),
        None => Err(diagnostic("DESIGN_RESPONSIVE_MISSING", "the responsive variant does not exist", None)),
    }
}

/// Replace or clear a node's complete override for one device profile,
/// returning the command that restores the previous override.
pub fn set_breakpoint_override(
    design: &mut StudioDesign,
    node_id: &NodeId,
    variant_id: &ResponsiveVariantId,
    value: Option<ResponsiveNodeOverride>,
) -> (r: Result<Command, DesignerDiagnostic>)
    ensures
        !old(design).responsive_variants@.contains_key(variant_id@) ==> (r matches Err(d) && diag_view(d)
            == error_view(
            "DESIGN_RESPONSIVE_VARIANT_MISSING"@,
            "the breakpoint override references an unknown responsive variant"@,
            Some(*node_id),
        )),
        old(design).responsive_variants@.contains_key(variant_id@) && (value matches Some(o)
            && o.schema_version != STUDIO_DESIGN_SCHEMA_VERSION) ==> (r matches Err(d) && diag_view(d)
            == error_view(
            "DESIGN_RESPONSIVE_INVALID"@,
            "a breakpoint override has an unsupported schema version"@,
            Some(*node_id),
        )),
        r is Ok <==> old(design).responsive_variants@.contains_key(variant_id@) && !(value matches Some(o)
            && o.schema_version != STUDIO_DESIGN_SCHEMA_VERSION) && old(design).nodes@.contains_key(node_id@),
        r is Err ==> *final(design) == *old(design),
        r is Ok ==> {
            let before = old(design).nodes@[node_id@];
            let after = final(design).nodes@[node_id@];
            let prior = if before.responsive_overrides@.contains_key(variant_id@) {
                Some(before.responsive_overrides@[variant_id@])
            } else {
                None
            };
            &&& r matches Ok(Command::SetBreakpointOverride { node_id: n, variant_id: v, value: p }) && n
                == *node_id && v == *variant_id && match p {
                Some(b) => prior == Some(*b),
                None => prior is None,
            }
            &&& node_replaced(*old(design), *final(design), node_id@)
            &&& same_but_overrides(before, after)
            &&& after.responsive_overrides@ == match value {
                Some(o) => before.responsive_overrides@.insert(variant_id@, o),
                None => before.responsive_overrides@.remove(variant_id@),
            }
        },
{
    if !design.responsive_variants.contains_key(variant_id.as_str()) {
        return Err(
            node_diagnostic(
                "DESIGN_RESPONSIVE_VARIANT_MISSING",
                "the breakpoint override references an unknown responsive variant",
                node_id,
            ),
        );
    }
    let unsupported = match &value {
        Some(o) => o.schema_version != STUDIO_DESIGN_SCHEMA_VERSION,
        None => false,
    };
    if unsupported {
        return Err(
            node_diagnostic(
                "DESIGN_RESPONSIVE_INVALID",
                "a breakpoint override has an unsupported schema version",
                node_id,
            ),
        );
    }
    if !design.nodes.contains_key(node_id.as_str()) {
        return Err(missing_node(node_id));
    }
    let ghost old_nodes = design.nodes@;
    let mut node = take_node(design, node_id);
    let prior = match value {
        Some(o) => node.responsive_overrides.insert(variant_id.copy(), o),
        None => node.responsive_overrides.remove(variant_id.as_str()),
    };
    put_node(design, node_id, node);
    assert(design.nodes@ =~= old_nodes.insert(node_id@, design.nodes@[node_id@]));
    let boxed = match prior {
        Some(p) => Some(Box::new(p)),
        None => None,
    };
    Ok(Command::SetBreakpointOverride { node_id: node_id.copy(), variant_id: variant_id.copy(), value: boxed })
}

/// The override a breakpoint property edit starts from: the node's current
/// override for the variant, or an empty one.
pub open spec fn override_base(before: DesignNode, variant: Seq<char>) -> (u16, Map<Seq<char>, PropertyValue>, LayoutProperties, StyleProperties) {
    if before.responsive_overrides@.contains_key(variant) {
        let o = before.responsive_overrides@[variant];
        (o.schema_version, o.properties@, o.layout, o.style)
    } else {
        (STUDIO_DESIGN_SCHEMA_VERSION, Map::empty(), LayoutProperties::spec_default(), StyleProperties::spec_default())
    }
}

fn layout_is_default(l: &LayoutProperties) -> (r: bool)
    ensures
        r == (*l == LayoutProperties::spec_default()),
{
    l.schema_version == STUDIO_DESIGN_SCHEMA_VERSION && l.width.is_none() && l.height.is_none() && l.min_width.is_none()
        && l.max_width.is_none() && l.min_height.is_none() && l.max_height.is_none() && l.gap.is_none()
        && l.row_gap.is_none() && l.column_gap.is_none() && l.padding.is_none() && l.placement.is_none()
        && l.position.is_none() && l.alignment.is_none() && l.grid_columns.is_none()
}

fn style_is_default(s: &StyleProperties) -> (r: bool)
    ensures
        r == (*s == StyleProperties::spec_default()),
{
    s.schema_version == STUDIO_DESIGN_SCHEMA_VERSION && s.background.is_none() && s.foreground.is_none()
        && s.opacity.is_none() && s.corner_radius.is_none() && s.border_width.is_none() && s.border_color.is_none()
}

/// Set or clear one sparse property override of a node at a breakpoint. An
/// override left with no properties and default layout and style is
/// dropped. The inverse restores the value it replaced.
pub fn set_breakpoint_property(
    design: &mut StudioDesign,
    node_id: &NodeId,
    variant_id: &ResponsiveVariantId,
    property: &str,
    value: Option<PropertyValue>,
) -> (r: Result<Command, DesignerDiagnostic>)
    ensures
        !valid_field_name(property@) ==> (r matches Err(d) && diag_view(d) == error_view(
            "DESIGN_PROPERTY_INVALID"@,
            "a property name must contain 1..=128 safe bytes"@,
            Some(*node_id),
        ) && *final(design) == *old(design)),
        valid_field_name(property@) && !old(design).responsive_variants@.contains_key(variant_id@) ==> (r matches Err(d)
            && diag_view(d) == error_view(
            "DESIGN_RESPONSIVE_VARIANT_MISSING"@,
            "the breakpoint override references an unknown responsive variant"@,
            Some(*node_id),
        ) && *final(design) == *old(design)),
        valid_field_name(property@) && old(design).responsive_variants@.contains_key(variant_id@)
            && !old(design).nodes@.contains_key(node_id@) ==> (r matches Err(d) && diag_view(d) == missing_node_view(*node_id)
            && *final(design) == *old(design)),
        valid_field_name(property@) && old(design).responsive_variants@.contains_key(variant_id@)
            && old(design).nodes@.contains_key(node_id@) ==> {
            let before = old(design).nodes@[node_id@];
            let after = final(design).nodes@[node_id@];
            let base = override_base(before, variant_id@);
            let props = with_value(base.1, property@, value);
            &&& r matches Ok(Command::SetBreakpointProperty { node_id: n, variant_id: v, property: q, value: prior })
                && n == *node_id && v == *variant_id && q@ == property@ && prior == value_in(base.1, property@)
            &&& node_replaced(*old(design), *final(design), node_id@)
            &&& same_but_overrides(before, after)
            &&& if props == Map::<Seq<char>, PropertyValue>::empty() && base.2 == LayoutProperties::spec_default()
                && base.3 == StyleProperties::spec_default() {
                after.responsive_overrides@ == before.responsive_overrides@.remove(variant_id@)
            } else {
                let e = after.responsive_overrides@[variant_id@];
                &&& after.responsive_overrides@ == before.responsive_overrides@.insert(variant_id@, e)
                &&& e.schema_version == base.0
                &&& e.properties@ == props
                &&& e.layout == base.2
                &&& e.style == base.3
            }
        },
{
    if !is_valid_field_name(property) {
        return Err(node_diagnostic("DESIGN_PROPERTY_INVALID", "a property name must contain 1..=128 safe bytes", node_id));
    }
    if !design.responsive_variants.contains_key(variant_id.as_str()) {
        return Err(node_diagnostic(
            "DESIGN_RESPONSIVE_VARIANT_MISSING",
            "the breakpoint override references an unknown responsive variant",
            node_id,
        ));
    }
    if !design.nodes.contains_key(node_id.as_str()) {
        return Err(missing_node(node_id));
    }
    let ghost old_nodes = design.nodes@;
    let mut node = take_node(design, node_id);
    let ghost before = node;
    let mut entry = match node.responsive_overrides.remove(variant_id.as_str()) {
        Some(e) => e,
        None => ResponsiveNodeOverride {
            schema_version: STUDIO_DESIGN_SCHEMA_VERSION,
            properties: OrderedMap::new(),
            layout: LayoutProperties::default(),
            style: StyleProperties::default(),
        },
    };
    let ghost base_props = entry.properties@;
    let prior = entry.properties.remove(property);
    match value {
        Some(v) => {
            entry.properties.insert(String::from_str(property), v);
        },
        None => {},
    }
    assert(entry.properties@ =~= with_value(base_props, property@, value));
    entry.properties.reveal_entries();
    let empty = entry.properties.is_empty() && layout_is_default(&entry.layout) && style_is_default(&entry.style);
    proof {
        if entry.properties.entry_seq().len() == 0 {
            assert(entry.properties@ =~= Map::<Seq<char>, PropertyValue>::empty());
        } else {
            let k0 = entry.properties.key_seq()[0];
            assert(entry.properties.key_seq().contains(k0));
            assert(entry.properties@.contains_key(k0));
            assert(!Map::<Seq<char>, PropertyValue>::empty().contains_key(k0));
            assert(entry.properties@ != Map::<Seq<char>, PropertyValue>::empty());
        }
        assert(empty == (entry.properties@ == Map::<Seq<char>, PropertyValue>::empty() && entry.layout
            == LayoutProperties::spec_default() && entry.style == StyleProperties::spec_default()));
    }
    let ghost e = entry;
    if !empty {
        node.responsive_overrides.insert(variant_id.copy(), entry);
        assert(node.responsive_overrides@ =~= before.responsive_overrides@.insert(variant_id@, e));
    }
    assert(prior == value_in(override_base(before, variant_id@).1, property@));
    assert(e.properties@ == with_value(override_base(before, variant_id@).1, property@, value));
    assert(e.layout == override_base(before, variant_id@).2);
    assert(e.style == override_base(before, variant_id@).3);
    assert(e.schema_version == override_base(before, variant_id@).0);
    put_node(design, node_id, node);
    assert(design.nodes@ =~= old_nodes.insert(node_id@, design.nodes@[node_id@]));
    Ok(Command::SetBreakpointProperty {
        node_id: node_id.copy(),
        variant_id: variant_id.copy(),
        property: String::from_str(property),
        value: prior,
    })
}

/// Set or clear the complete responsive override of a node for a variant,
/// checked as a whole; the inverse restores the override it replaced.
pub fn set_responsive_override(
    design: &mut StudioDesign,
    node_id: &NodeId,
    variant_id: &ResponsiveVariantId,
    value: Option<ResponsiveNodeOverride>,
) -> (r: Result<Command, DesignerDiagnostic>)
    ensures
        !old(design).responsive_variants@.contains_key(variant_id@) ==> (r matches Err(d) && diag_view(d) == error_view(
            "DESIGN_RESPONSIVE_MISSING"@,
            "the responsive override references an unknown variant"@,
            None,
        ) && *final(design) == *old(design)),
        old(design).responsive_variants@.contains_key(variant_id@) ==> match value {
            Some(o) if crate::design_rules::override_problem(old(design), *node_id, o) is Some => r matches Err(d) && reports(
                d,
                crate::design_rules::override_problem(old(design), *node_id, o)->0,
            ) && *final(design) == *old(design),
            _ => if !old(design).nodes@.contains_key(node_id@) {
                r matches Err(d) && diag_view(d) == missing_node_view(*node_id) && *final(design) == *old(design)
            } else {
                let before = old(design).nodes@[node_id@];
                let after = final(design).nodes@[node_id@];
                &&& r == Ok::<Command, DesignerDiagnostic>(Command::SetResponsiveOverride {
                    node_id: *node_id,
                    variant_id: *variant_id,
                    value: if before.responsive_overrides@.contains_key(variant_id@) {
                        Some(before.responsive_overrides@[variant_id@])
                    } else {
                        None
                    },
                })
                &&& node_replaced(*old(design), *final(design), node_id@)
                &&& same_but_overrides(before, after)
                &&& after.responsive_overrides@ == match value {
                    Some(o) => before.responsive_overrides@.insert(variant_id@, o),
                    None => before.responsive_overrides@.remove(variant_id@),
                }
            },
        },
{
    if !design.responsive_variants.contains_key(variant_id.as_str()) {
        return Err(diagnostic("DESIGN_RESPONSIVE_MISSING", "the responsive override references an unknown variant", None));
    }
    match &value {
        Some(o) => match crate::design_rules::validate_responsive_override(design, node_id, o) {
            Err(d) => {
                return Err(d);
            },
            Ok(()) => {},
        },
        None => {},
    }
    if !design.nodes.contains_key(node_id.as_str()) {
        return Err(missing_node(node_id));
    }
    let ghost old_nodes = design.nodes@;
    let mut node = take_node(design, node_id);
    let prior = match value {
        Some(o) => node.responsive_overrides.insert(variant_id.copy(), o),
        None => node.responsive_overrides.remove(variant_id.as_str()),
    };
    put_node(design, node_id, node);
    assert(design.nodes@ =~= old_nodes.insert(node_id@, design.nodes@[node_id@]));
    Ok(Command::SetResponsiveOverride { node_id: node_id.copy(), variant_id: variant_id.copy(), value: prior })
}

/// A problem as its code, message and the text of its linked node.
pub type Problem = (Seq<char>, Seq<char>, Option<Seq<char>>);

/// Whether a diagnostic is an error reporting `p` with no other link.
pub open spec fn reports(d: DesignerDiagnostic, p: Problem) -> bool {
    &&& d.code@ == p.0
    &&& d.severity == DiagnosticSeverity::Error
    &&& d.message@ == p.1
    &&& match p.2 {
        Some(n) => d.node_id matches Some(id) && id@ == n,
        None => d.node_id is None,
    }
    &&& d.interaction_id is None
    &&& d.collection_id is None
    &&& d.binding_id is None
    &&& d.form_id is None
    &&& d.record_id is None
}

/// Whether a binding path lacks a safe collection or a safe, non-empty path.
pub open spec fn binding_bad(b: crate::model::BindingPath) -> bool {
    !valid_field_name(b.collection@) || b.segments@.len() == 0 || exists|i: int|
        0 <= i < b.segments@.len() && !valid_field_name((#[trigger] b.segments@[i])@)
}

/// The problem of a binding path used by a property.
pub open spec fn binding_problem(node: Seq<char>) -> Problem {
    (
        "DESIGN_BINDING_INVALID"@,
        "a binding requires a safe collection and at least one safe path segment"@,
        Some(node),
    )
}

/// Check a binding path, linking a problem to `node_id`.
pub fn validate_binding(binding: &crate::model::BindingPath, node_id: &NodeId) -> (r: Result<(), DesignerDiagnostic>)
    ensures
        r is Ok <==> !binding_bad(*binding),
        r matches Err(d) ==> reports(d, binding_problem(node_id@)),
{
    let mut bad = !is_valid_field_name(binding.collection.as_str()) || binding.segments.len() == 0;
    let mut i: usize = 0;
    while i < binding.segments.len() && !bad
        invariant
            i <= binding.segments@.len(),
            !bad ==> valid_field_name(binding.collection@) && binding.segments@.len() > 0 && forall|j: int|
                0 <= j < i ==> valid_field_name((#[trigger] binding.segments@[j])@),
            bad ==> binding_bad(*binding),
        decreases binding.segments@.len() - i,
    {
        if !is_valid_field_name(binding.segments[i].as_str()) {
            bad = true;
        }
        i = i + 1;
    }
    if bad {
        Err(node_diagnostic(
            "DESIGN_BINDING_INVALID",
            "a binding requires a safe collection and at least one safe path segment",
            node_id,
        ))
    } else {
        Ok(())
    }
}

/// The text of an optional node link.
pub open spec fn node_text(node_id: Option<NodeId>) -> Option<Seq<char>> {
    match node_id {
        Some(n) => Some(n@),
        None => None,
    }
}

/// The first problem of a property value: an unknown token or node, a
/// malformed binding (linked to the placeholder node `binding` when no node
/// is given), or the first problem of a listed value.
pub open spec fn value_problem(design: &StudioDesign, v: PropertyValue, node_id: Option<NodeId>) -> Option<Problem>
    decreases v,
{
    match v {
        PropertyValue::Token(t) => if !design.tokens@.contains_key(t@) {
            Some(("DESIGN_TOKEN_MISSING"@, "a property references an unknown token"@, node_text(node_id)))
        } else {
            None
        },
        PropertyValue::Binding(b) => if binding_bad(b) {
            Some(binding_problem(
                match node_id {
                    Some(n) => n@,
                    None => "binding"@,
                },
            ))
        } else {
            None
        },
        PropertyValue::Node(t) => if !design.nodes@.contains_key(t@) {
            Some(("DESIGN_NODE_MISSING"@, "a property references an unknown node"@, node_text(node_id)))
        } else {
            None
        },
        PropertyValue::List(xs) => {
            proof {
                vstd::std_specs::vec::axiom_vec_decreases_to_view(xs);
            }
            list_problem(design, xs@, node_id)
        },
        _ => None,
    }
}

/// The first problem among listed values.
pub open spec fn list_problem(design: &StudioDesign, xs: Seq<PropertyValue>, node_id: Option<NodeId>) -> Option<Problem>
    decreases xs,
{
    if xs.len() == 0 {
        None
    } else {
        match value_problem(design, xs[0], node_id) {
            Some(p) => Some(p),
            None => list_problem(design, xs.drop_first(), node_id),
        }
    }
}

fn placeholder_node() -> (r: NodeId)
    ensures
        r@ == "binding"@,
{
    proof {
        reveal_strlit("binding");
        crate::ids::lemma_utf8_len_bounds("binding"@);
        assert(!has_control("binding"@));
    }
    NodeId::new("binding").unwrap()
}

/// Check a property value against the design it lives in.
pub fn validate_property_value(design: &StudioDesign, value: &PropertyValue, node_id: Option<&NodeId>) -> (r: Result<(), DesignerDiagnostic>)
    ensures
        match value_problem(
            design,
            *value,
            match node_id {
                Some(n) => Some(*n),
                None => None,
            },
        ) {
            Some(p) => r matches Err(d) && reports(d, p),
            None => r is Ok,
        },
    decreases value,
{
    let ghost nid: Option<NodeId> = match node_id {
        Some(n) => Some(*n),
        None => None,
    };
    match value {
        PropertyValue::Token(token_id) => {
            if !design.tokens.contains_key(token_id.as_str()) {
                let link = match node_id {
                    Some(n) => Some(n.copy()),
                    None => None,
                };
                return Err(diagnostic("DESIGN_TOKEN_MISSING", "a property references an unknown token", link));
            }
            Ok(())
        },
        PropertyValue::Binding(binding) => {
            let link = match node_id {
                Some(n) => n.copy(),
                None => placeholder_node(),
            };
            validate_binding(binding, &link)
        },
        PropertyValue::Node(target) => {
            if !design.nodes.contains_key(target.as_str()) {
                let link = match node_id {
                    Some(n) => Some(n.copy()),
                    None => None,
                };
                return Err(diagnostic("DESIGN_NODE_MISSING", "a property references an unknown node", link));
            }
            Ok(())
        },
        PropertyValue::List(xs) => {
            let mut i: usize = 0;
            assert(xs@.skip(0) =~= xs@);
            while i < xs.len()
                invariant
                    *value == PropertyValue::List(*xs),
                    i <= xs@.len(),
                    nid == match node_id {
                        Some(n) => Some(*n),
                        None => None::<NodeId>,
                    },
                    value_problem(design, *value, nid) == list_problem(design, xs@.skip(i as int), nid),
                decreases xs@.len() - i,
            {
                proof {
                    vstd::std_specs::vec::axiom_vec_index_decreases(*xs, i as int);
                    assert(decreases_to!(*value => (*value)->List_0));
                    assert(decreases_to!(*value => (*value)->List_0@[i as int]));
                }
                let ghost sx = xs@.skip(i as int);
                assert(sx[0] == xs@[i as int]);
                assert(sx.drop_first() =~= xs@.skip(i + 1));
                match validate_property_value(design, &xs[i], node_id) {
                    Err(e) => {
                        return Err(e);
                    },
                    Ok(()) => {},
                }
                i = i + 1;
            }
            Ok(())
        },
        _ => Ok(()),
    }
}

/// An error diagnostic linked to one interaction.
pub open spec fn interaction_view(code: Seq<char>, message: Seq<char>, id: InteractionId) -> DiagView {
    (code, DiagnosticSeverity::Error, message, None, Some(id), None, None, None, None)
}

/// Build an error diagnostic linked to one interaction.
pub fn interaction_diagnostic(code: &str, message: &str, interaction_id: &InteractionId) -> (r: DesignerDiagnostic)
    ensures
        diag_view(r) == interaction_view(code@, message@, *interaction_id),
{
    DesignerDiagnostic {
        code: String::from_str(code),
        severity: DiagnosticSeverity::Error,
        message: String::from_str(message),
        node_id: None,
        interaction_id: Some(interaction_id.copy()),
        collection_id: None,
        binding_id: None,
        form_id: None,
        record_id: None,
    }
}

/// Whether a sequence names its own interaction or an unknown one.
pub open spec fn sequence_bad(design: &StudioDesign, ids: Seq<InteractionId>, own: Seq<char>) -> bool {
    exists|i: int| 0 <= i < ids.len() && ((#[trigger] ids[i])@ == own || !design.interactions@.contains_key(ids[i]@))
}

/// The problem of an interaction's action, as a code and message.
pub open spec fn action_problem(design: &StudioDesign, id: Seq<char>, action: InteractionAction) -> Option<(Seq<char>, Seq<char>)> {
    match action {
        InteractionAction::Navigate { screen_id, .. } => if !design.screens@.contains_key(screen_id@) {
            Some(("DESIGN_INTERACTION_TARGET_MISSING"@, "a navigation interaction references an unknown screen"@))
        } else {
            None
        },
        InteractionAction::SetProperty { node_id, property, value } => if !design.nodes@.contains_key(node_id@) {
            Some(("DESIGN_INTERACTION_TARGET_MISSING"@, "a property interaction references an unknown node"@))
        } else if !valid_field_name(property@) {
            Some(("DESIGN_PROPERTY_INVALID"@, "an interaction property name must contain 1..=128 safe bytes"@))
        } else if value_problem(design, value, None) is Some {
            Some(("DESIGN_INTERACTION_VALUE_INVALID"@, "an interaction property value is invalid"@))
        } else {
            None
        },
        InteractionAction::ToggleVisibility { node_id } => if !design.nodes@.contains_key(node_id@) {
            Some(("DESIGN_INTERACTION_TARGET_MISSING"@, "a visibility interaction references an unknown node"@))
        } else {
            None
        },
        InteractionAction::Emit { event } => if !valid_field_name(event@) {
            Some(("DESIGN_INTERACTION_EVENT_INVALID"@, "an emitted event name must contain 1..=128 safe bytes"@))
        } else {
            None
        },
        InteractionAction::Sequence { interaction_ids } => if sequence_bad(design, interaction_ids@, id) {
            Some((
                "DESIGN_INTERACTION_TARGET_MISSING"@,
                "an interaction sequence contains an unknown or self-referencing interaction"@,
            ))
        } else {
            None
        },
    }
}

/// The first problem of an interaction record, as a code and message.
pub open spec fn interaction_problem(design: &StudioDesign, interaction: Interaction) -> Option<(Seq<char>, Seq<char>)> {
    if interaction.schema_version != STUDIO_DESIGN_SCHEMA_VERSION || !design.nodes@.contains_key(
        interaction.source.node_id@,
    ) {
        Some(("DESIGN_INTERACTION_INVALID"@, "an interaction requires a valid source node and schema version"@))
    } else {
        action_problem(design, interaction.id@, interaction.action)
    }
}

fn sequence_invalid(design: &StudioDesign, ids: &Vec<InteractionId>, own: &InteractionId) -> (r: bool)
    ensures
        r == sequence_bad(design, ids@, own@),
{
    let mut i: usize = 0;
    while i < ids.len()
        invariant
            i <= ids@.len(),
            forall|j: int| 0 <= j < i ==> !((#[trigger] ids@[j])@ == own@ || !design.interactions@.contains_key(ids@[j]@)),
        decreases ids@.len() - i,
    {
        if ids[i].same(own) || !design.interactions.contains_key(ids[i].as_str()) {
            return true;
        }
        i = i + 1;
    }
    false
}

/// Check an interaction's action against the design.
pub fn validate_interaction_action(design: &StudioDesign, interaction_id: &InteractionId, action: &InteractionAction) -> (r: Result<(), DesignerDiagnostic>)
    ensures
        match action_problem(design, interaction_id@, *action) {
            Some(p) => r matches Err(d) && diag_view(d) == interaction_view(p.0, p.1, *interaction_id),
            None => r is Ok,
        },
{
    match action {
        InteractionAction::Navigate { screen_id, .. } => {
            if !design.screens.contains_key(screen_id.as_str()) {
                return Err(interaction_diagnostic(
                    "DESIGN_INTERACTION_TARGET_MISSING",
                    "a navigation interaction references an unknown screen",
                    interaction_id,
                ));
            }
            Ok(())
        },
        InteractionAction::SetProperty { node_id, property, value } => {
            if !design.nodes.contains_key(node_id.as_str()) {
                return Err(interaction_diagnostic(
                    "DESIGN_INTERACTION_TARGET_MISSING",
                    "a property interaction references an unknown node",
                    interaction_id,
                ));
            }
            if !is_valid_field_name(property.as_str()) {
                return Err(interaction_diagnostic(
                    "DESIGN_PROPERTY_INVALID",
                    "an interaction property name must contain 1..=128 safe bytes",
                    interaction_id,
                ));
            }
            match validate_property_value(design, value, None) {
                Err(_) => Err(interaction_diagnostic(
                    "DESIGN_INTERACTION_VALUE_INVALID",
                    "an interaction property value is invalid",
                    interaction_id,
                )),
                Ok(()) => Ok(()),
            }
        },
        InteractionAction::ToggleVisibility { node_id } => {
            if !design.nodes.contains_key(node_id.as_str()) {
                return Err(interaction_diagnostic(
                    "DESIGN_INTERACTION_TARGET_MISSING",
                    "a visibility interaction references an unknown node",
                    interaction_id,
                ));
            }
            Ok(())
        },
        InteractionAction::Emit { event } => {
            if !is_valid_field_name(event.as_str()) {
                return Err(interaction_diagnostic(
                    "DESIGN_INTERACTION_EVENT_INVALID",
                    "an emitted event name must contain 1..=128 safe bytes",
                    interaction_id,
                ));
            }
            Ok(())
        },
        InteractionAction::Sequence { interaction_ids } => {
            if sequence_invalid(design, interaction_ids, interaction_id) {
                return Err(interaction_diagnostic(
                    "DESIGN_INTERACTION_TARGET_MISSING",
                    "an interaction sequence contains an unknown or self-referencing interaction",
                    interaction_id,
                ));
            }
            Ok(())
        },
    }
}

/// Check an interaction record against the design.
pub fn validate_interaction(design: &StudioDesign, interaction: &Interaction) -> (r: Result<(), DesignerDiagnostic>)
    ensures
        match interaction_problem(design, *interaction) {
            Some(p) => r matches Err(d) && diag_view(d) == interaction_view(p.0, p.1, interaction.id),
            None => r is Ok,
        },
{
    if interaction.schema_version != STUDIO_DESIGN_SCHEMA_VERSION || !design.nodes.contains_key(
        interaction.source.node_id.as_str(),
    ) {
        return Err(interaction_diagnostic(
            "DESIGN_INTERACTION_INVALID",
            "an interaction requires a valid source node and schema version",
            &interaction.id,
        ));
    }
    validate_interaction_action(design, &interaction.id, &interaction.action)
}

/// The identities of an interaction list, as text.
pub open spec fn iids(s: Seq<InteractionId>) -> Seq<Seq<char>> {
    s.map_values(|i: InteractionId| i@)
}

/// An attachment list with `x` appended unless it is already listed.
pub open spec fn attached(s: Seq<Seq<char>>, x: Seq<char>) -> Seq<Seq<char>> {
    if s.contains(x) {
        s
    } else {
        s.push(x)
    }
}

/// An attachment list without any entry `x`.
pub open spec fn detached(s: Seq<Seq<char>>, x: Seq<char>) -> Seq<Seq<char>>
    decreases s.len(),
{
    if s.len() == 0 {
        Seq::empty()
    } else if s.last() == x {
        detached(s.drop_last(), x)
    } else {
        detached(s.drop_last(), x).push(s.last())
    }
}

/// Removing an entry that is not listed changes nothing.
pub proof fn lemma_detached_absent(s: Seq<Seq<char>>, x: Seq<char>)
    requires
        !s.contains(x),
    ensures
        detached(s, x) == s,
    decreases s.len(),
{
    if s.len() > 0 {
        assert(!s.drop_last().contains(x)) by {
            if s.drop_last().contains(x) {
                let i = choose|i: int| 0 <= i < s.drop_last().len() && s.drop_last()[i] == x;
                assert(s[i] == x);
            }
        }
        lemma_detached_absent(s.drop_last(), x);
        assert(s.last() != x) by {
            assert(s[s.len() - 1] == s.last());
        }
        assert(s.drop_last().push(s.last()) =~= s);
    }
}

/// Attaching an interaction that was not attached and then detaching it
/// restores the attachment list.
pub proof fn lemma_attach_detach(s: Seq<Seq<char>>, x: Seq<char>)
    requires
        !s.contains(x),
    ensures
        detached(attached(s, x), x) == s,
{
    assert(s.push(x).drop_last() =~= s);
    lemma_detached_absent(s, x);
}

/// `b` is `a` with at most its interaction attachments changed.
pub open spec fn same_but_interaction_ids(a: DesignNode, b: DesignNode) -> bool {
    &&& a.schema_version == b.schema_version
    &&& a.id == b.id
    &&& a.name == b.name
    &&& a.source == b.source
    &&& a.children == b.children
    &&& a.properties == b.properties
    &&& a.layout == b.layout
    &&& a.style == b.style
    &&& a.accessibility == b.accessibility
    &&& a.responsive_overrides == b.responsive_overrides
}

/// `b` is `a` with at most its nodes and interactions changed.
pub open spec fn same_but_interactions(a: StudioDesign, b: StudioDesign) -> bool {
    &&& a.schema_version == b.schema_version
    &&& a.project_id == b.project_id
    &&& a.name == b.name
    &&& a.parents == b.parents
    &&& a.screens == b.screens
    &&& a.screen_order == b.screen_order
    &&& a.compositions == b.compositions
    &&& a.tokens == b.tokens
    &&& a.responsive_variants == b.responsive_variants
    &&& a.collections == b.collections
    &&& a.bindings == b.bindings
    &&& a.forms == b.forms
}

/// Node map `b` is `a` with node `key`'s attachment list set to `list`.
pub open spec fn attachments_set(
    a: Map<Seq<char>, DesignNode>,
    b: Map<Seq<char>, DesignNode>,
    key: Seq<char>,
    list: Seq<Seq<char>>,
) -> bool {
    &&& a.contains_key(key)
    &&& b == a.insert(key, b[key])
    &&& same_but_interaction_ids(a[key], b[key])
    &&& iids(b[key].interaction_ids@) == list
}

fn attach_to(design: &mut StudioDesign, node_id: &NodeId, interaction_id: &InteractionId)
    requires
        old(design).nodes@.contains_key(node_id@),
    ensures
        same_but_nodes(*old(design), *final(design)),
        attachments_set(
            old(design).nodes@,
            final(design).nodes@,
            node_id@,
            attached(iids(old(design).nodes@[node_id@].interaction_ids@), interaction_id@),
        ),
{
    let ghost old_nodes = design.nodes@;
    let mut node = take_node(design, node_id);
    let ghost before = iids(node.interaction_ids@);
    let mut found = false;
    let mut i: usize = 0;
    while i < node.interaction_ids.len()
        invariant
            i <= node.interaction_ids@.len(),
            before == iids(node.interaction_ids@),
            found <==> exists|j: int| 0 <= j < i && node.interaction_ids@[j]@ == interaction_id@,
        decreases node.interaction_ids@.len() - i,
    {
        if node.interaction_ids[i].same(interaction_id) {
            found = true;
        }
        i = i + 1;
    }
    assert(found <==> before.contains(interaction_id@)) by {
        if before.contains(interaction_id@) {
            let j = choose|j: int| 0 <= j < before.len() && before[j] == interaction_id@;
            assert(node.interaction_ids@[j]@ == interaction_id@);
        }
        if found {
            let j = choose|j: int| 0 <= j < i && node.interaction_ids@[j]@ == interaction_id@;
            assert(before[j] == interaction_id@);
        }
    }
    if !found {
        node.interaction_ids.push(interaction_id.copy());
        assert(iids(node.interaction_ids@) =~= before.push(interaction_id@));
    }
    put_node(design, node_id, node);
    assert(design.nodes@ =~= old_nodes.insert(node_id@, design.nodes@[node_id@]));
}

fn detach_from(design: &mut StudioDesign, node_id: &NodeId, interaction_id: &InteractionId)
    ensures
        same_but_nodes(*old(design), *final(design)),
        old(design).nodes@.contains_key(node_id@) ==> attachments_set(
            old(design).nodes@,
            final(design).nodes@,
            node_id@,
            detached(iids(old(design).nodes@[node_id@].interaction_ids@), interaction_id@),
        ),
        !old(design).nodes@.contains_key(node_id@) ==> *final(design) == *old(design),
{
    if !design.nodes.contains_key(node_id.as_str()) {
        return;
    }
    let ghost old_nodes = design.nodes@;
    let mut node = take_node(design, node_id);
    let ghost all = iids(node.interaction_ids@);
    let mut kept: Vec<InteractionId> = Vec::new();
    let mut i: usize = 0;
    assert(all.take(0) =~= Seq::<Seq<char>>::empty());
    while i < node.interaction_ids.len()
        invariant
            i <= node.interaction_ids@.len(),
            all == iids(node.interaction_ids@),
            iids(kept@) == detached(all.take(i as int), interaction_id@),
        decreases node.interaction_ids@.len() - i,
    {
        assert(all.take(i + 1).drop_last() =~= all.take(i as int));
        assert(all.take(i + 1).last() == all[i as int]);
        if !node.interaction_ids[i].same(interaction_id) {
            let ghost prior = kept@;
            kept.push(node.interaction_ids[i].copy());
            assert(iids(kept@) =~= iids(prior).push(all[i as int]));
        }
        i = i + 1;
    }
    assert(all.take(all.len() as int) =~= all);
    node.interaction_ids = kept;
    put_node(design, node_id, node);
    assert(design.nodes@ =~= old_nodes.insert(node_id@, design.nodes@[node_id@]));
}

/// Add an interaction and attach it to its source node, returning the
/// command that removes it.
pub fn define_interaction(design: &mut StudioDesign, interaction: Interaction) -> (r: Result<Command, DesignerDiagnostic>)
    ensures
        match interaction_problem(old(design), interaction) {
            Some(p) => r matches Err(d) && diag_view(d) == interaction_view(p.0, p.1, interaction.id),
            None => if old(design).interactions@.contains_key(interaction.id@) {
                r matches Err(d) && diag_view(d) == interaction_view(
                    "DESIGN_INTERACTION_EXISTS"@,
                    "the interaction identity already exists"@,
                    interaction.id,
                )
            } else {
                let src = interaction.source.node_id@;
                &&& r == Ok::<Command, DesignerDiagnostic>(
                    Command::RemoveInteraction { interaction_id: interaction.id },
                )
                &&& final(design).interactions@ == old(design).interactions@.insert(interaction.id@, interaction)
                &&& same_but_interactions(*old(design), *final(design))
                &&& attachments_set(
                    old(design).nodes@,
                    final(design).nodes@,
                    src,
                    attached(iids(old(design).nodes@[src].interaction_ids@), interaction.id@),
                )
            },
        },
        r is Err ==> *final(design) == *old(design),
{
    match validate_interaction(design, &interaction) {
        Err(e) => {
            return Err(e);
        },
        Ok(()) => {},
    }
    if design.interactions.contains_key(interaction.id.as_str()) {
        return Err(interaction_diagnostic(
            "DESIGN_INTERACTION_EXISTS",
            "the interaction identity already exists",
            &interaction.id,
        ));
    }
    let id = interaction.id.copy();
    let source = interaction.source.node_id.copy();
    attach_to(design, &source, &id);
    design.interactions.insert(id.copy(), interaction);
    Ok(Command::RemoveInteraction { interaction_id: id })
}

/// Remove an interaction and detach it from its source node, returning the
/// command that defines it again.
pub fn remove_interaction(design: &mut StudioDesign, interaction_id: &InteractionId) -> (r: Result<Command, DesignerDiagnostic>)
    ensures
        !old(design).interactions@.contains_key(interaction_id@) ==> (r matches Err(d) && diag_view(d)
            == interaction_view("DESIGN_INTERACTION_MISSING"@, "the interaction does not exist"@, *interaction_id)),
        r is Ok <==> old(design).interactions@.contains_key(interaction_id@),
        r is Err ==> *final(design) == *old(design),
        r is Ok ==> {
            let before = old(design).interactions@[interaction_id@];
            let src = before.source.node_id@;
            &&& r == Ok::<Command, DesignerDiagnostic>(Command::DefineInteraction { interaction: before })
            &&& final(design).interactions@ == old(design).interactions@.remove(interaction_id@)
            &&& same_but_interactions(*old(design), *final(design))
            &&& if old(design).nodes@.contains_key(src) {
                attachments_set(
                    old(design).nodes@,
                    final(design).nodes@,
                    src,
                    detached(iids(old(design).nodes@[src].interaction_ids@), interaction_id@),
                )
            } else {
                final(design).nodes == old(design).nodes
            }
        },
{
    let source = match design.interactions.get(interaction_id.as_str()) {
        None => {
            return Err(interaction_diagnostic(
                "DESIGN_INTERACTION_MISSING",
                "the interaction does not exist",
                interaction_id,
            ));
        },
        Some(i) => i.source.node_id.copy(),
    };
    detach_from(design, &source, interaction_id);
    match design.interactions.remove(interaction_id.as_str()) {
        Some(interaction) => Ok(Command::DefineInteraction { interaction }),
        None => Err(interaction_diagnostic("DESIGN_INTERACTION_MISSING", "the interaction does not exist", interaction_id)),
    }
}

/// Replace an interaction, moving its attachment from the previous source
/// node to the new one, and return the command that restores it.
pub fn update_interaction(design: &mut StudioDesign, interaction: Interaction) -> (r: Result<Command, DesignerDiagnostic>)
    ensures
        match interaction_problem(old(design), interaction) {
            Some(p) => r matches Err(d) && diag_view(d) == interaction_view(p.0, p.1, interaction.id),
            None => if !old(design).interactions@.contains_key(interaction.id@) {
                r matches Err(d) && diag_view(d) == interaction_view(
                    "DESIGN_INTERACTION_MISSING"@,
                    "the interaction does not exist"@,
                    interaction.id,
                )
            } else {
                let prior = old(design).interactions@[interaction.id@];
                let from = prior.source.node_id@;
                let to = interaction.source.node_id@;
                &&& r == Ok::<Command, DesignerDiagnostic>(Command::UpdateInteraction { interaction: prior })
                &&& final(design).interactions@ == old(design).interactions@.insert(interaction.id@, interaction)
                &&& same_but_interactions(*old(design), *final(design))
                &&& exists|mid: Map<Seq<char>, DesignNode>| {
                    &&& (if old(design).nodes@.contains_key(from) {
                        attachments_set(
                            old(design).nodes@,
                            mid,
                            from,
                            detached(iids(old(design).nodes@[from].interaction_ids@), interaction.id@),
                        )
                    } else {
                        mid == old(design).nodes@
                    })
                    &&& #[trigger] attachments_set(
                        mid,
                        final(design).nodes@,
                        to,
                        attached(iids(mid[to].interaction_ids@), interaction.id@),
                    )
                }
            },
        },
        r is Err ==> *final(design) == *old(design),
{
    match validate_interaction(design, &interaction) {
        Err(e) => {
            return Err(e);
        },
        Ok(()) => {},
    }
    let from = match design.interactions.get(interaction.id.as_str()) {
        None => {
            return Err(interaction_diagnostic(
                "DESIGN_INTERACTION_MISSING",
                "the interaction does not exist",
                &interaction.id,
            ));
        },
        Some(p) => p.source.node_id.copy(),
    };
    let id = interaction.id.copy();
    let to = interaction.source.node_id.copy();
    let ghost old_nodes = design.nodes@;
    detach_from(design, &from, &id);
    let ghost mid = design.nodes@;
    attach_to(design, &to, &id);
    assert(attachments_set(mid, design.nodes@, to@, attached(iids(mid[to@].interaction_ids@), id@)));
    assert(if old_nodes.contains_key(from@) {
        attachments_set(old_nodes, mid, from@, detached(iids(old_nodes[from@].interaction_ids@), id@))
    } else {
        mid == old_nodes
    });
    let ghost new_nodes = design.nodes@;
    let prior = design.interactions.insert(id.copy(), interaction);
    assert(design.nodes@ == new_nodes);
    assert(exists|m: Map<Seq<char>, DesignNode>| {
        &&& (if old_nodes.contains_key(from@) {
            attachments_set(old_nodes, m, from@, detached(iids(old_nodes[from@].interaction_ids@), id@))
        } else {
            m == old_nodes
        })
        &&& #[trigger] attachments_set(m, design.nodes@, to@, attached(iids(m[to@].interaction_ids@), id@))
    });
    match prior {
        Some(p) => Ok(Command::UpdateInteraction { interaction: p }),
        None => Err(interaction_diagnostic("DESIGN_INTERACTION_MISSING", "the interaction does not exist", &id)),
    }
}

} // verus!
