//! Whole-document validation of a design: identities, schema versions, the
//! parent index, composition contracts, responsive overrides, tokens,
//! interactions, content collections, bindings and forms.
use vstd::prelude::*;
use vstd::string::StringExecFns;

use crate::content::{DiagView, diag_view, push_diagnostic, views};
use crate::engine::{
    Problem, diagnostic, error_view, node_diagnostic, reports, same_parent, validate_property_value,
    value_problem,
};
use crate::ids::NodeId;
use crate::model::{
    DesignerDiagnostic, DiagnosticSeverity, LayoutProperties, NodeParent, Paint, PropertyValue,
    ResponsiveNodeOverride, ReusableComposition, STUDIO_DESIGN_SCHEMA_VERSION, StudioDesign, StyleProperties,
    ValueKind,
};
use crate::ordered_map::{MapKey, OrderedMap};
use crate::content::valid_field_name;

verus! {

/// A problem linked to one node.
pub open spec fn at(code: Seq<char>, message: Seq<char>, node: NodeId) -> Problem {
    (code, message, Some(node@))
}

/// Whether a paint names a token the design lacks.
pub open spec fn paint_unknown(design: &StudioDesign, p: Option<Paint>) -> bool {
    p matches Some(Paint::Token(t)) && !design.tokens@.contains_key(t@)
}

/// The problem of a layout and style pair: unsupported schema versions, or a
/// style paint naming an unknown token.
pub open spec fn layout_style_problem(design: &StudioDesign, layout: LayoutProperties, style: StyleProperties, node: NodeId) -> Option<Problem> {
    if layout.schema_version != STUDIO_DESIGN_SCHEMA_VERSION || style.schema_version != STUDIO_DESIGN_SCHEMA_VERSION {
        Some(at(
            "DESIGN_STYLE_SCHEMA_INVALID"@,
            "layout and style values must use the supported schema version"@,
            node,
        ))
    } else if paint_unknown(design, style.background) || paint_unknown(design, style.foreground) || paint_unknown(
        design,
        style.border_color,
    ) {
        Some(at("DESIGN_TOKEN_MISSING"@, "a style references an unknown token"@, node))
    } else {
        None
    }
}

fn paint_is_unknown(design: &StudioDesign, p: &Option<Paint>) -> (r: bool)
    ensures
        r == paint_unknown(design, *p),
{
    match p {
        Some(Paint::Token(t)) => !design.tokens.contains_key(t.as_str()),
        _ => false,
    }
}

/// Check a layout and style pair authored on a node.
pub fn validate_layout_style(design: &StudioDesign, layout: &LayoutProperties, style: &StyleProperties, node_id: &NodeId) -> (r: Result<(), DesignerDiagnostic>)
    ensures
        match layout_style_problem(design, *layout, *style, *node_id) {
            Some(p) => r matches Err(d) && reports(d, p),
            None => r is Ok,
        },
{
    if layout.schema_version != STUDIO_DESIGN_SCHEMA_VERSION || style.schema_version != STUDIO_DESIGN_SCHEMA_VERSION {
        return Err(node_diagnostic(
            "DESIGN_STYLE_SCHEMA_INVALID",
            "layout and style values must use the supported schema version",
            node_id,
        ));
    }
    if paint_is_unknown(design, &style.background) || paint_is_unknown(design, &style.foreground)
        || paint_is_unknown(design, &style.border_color) {
        return Err(node_diagnostic("DESIGN_TOKEN_MISSING", "a style references an unknown token", node_id));
    }
    Ok(())
}

/// The first problem among responsive override properties: a malformed name,
/// or a value problem.
pub open spec fn override_props_problem(design: &StudioDesign, s: Seq<(String, PropertyValue)>, node: NodeId) -> Option<Problem>
    decreases s.len(),
{
    if s.len() == 0 {
        None
    } else if !valid_field_name(s[0].0@) {
        Some(at(
            "DESIGN_PROPERTY_INVALID"@,
            "a responsive property name must contain 1..=128 safe bytes"@,
            node,
        ))
    } else {
        match value_problem(design, s[0].1, Some(node)) {
            Some(p) => Some(p),
            None => override_props_problem(design, s.drop_first(), node),
        }
    }
}

/// The first problem of a responsive override.
pub open spec fn override_problem(design: &StudioDesign, node: NodeId, o: ResponsiveNodeOverride) -> Option<Problem> {
    if o.schema_version != STUDIO_DESIGN_SCHEMA_VERSION || o.layout.schema_version != STUDIO_DESIGN_SCHEMA_VERSION
        || o.style.schema_version != STUDIO_DESIGN_SCHEMA_VERSION {
        Some(at(
            "DESIGN_RESPONSIVE_INVALID"@,
            "a responsive override has an unsupported schema version"@,
            node,
        ))
    } else {
        match override_props_problem(design, o.properties.entry_seq(), node) {
            Some(p) => Some(p),
            None => layout_style_problem(design, o.layout, o.style, node),
        }
    }
}

/// Check a responsive override of a node.
pub fn validate_responsive_override(design: &StudioDesign, node_id: &NodeId, value: &ResponsiveNodeOverride) -> (r: Result<(), DesignerDiagnostic>)
    ensures
        match override_problem(design, *node_id, *value) {
            Some(p) => r matches Err(d) && reports(d, p),
            None => r is Ok,
        },
{
    if value.schema_version != STUDIO_DESIGN_SCHEMA_VERSION || value.layout.schema_version
        != STUDIO_DESIGN_SCHEMA_VERSION || value.style.schema_version != STUDIO_DESIGN_SCHEMA_VERSION {
        return Err(node_diagnostic(
            "DESIGN_RESPONSIVE_INVALID",
            "a responsive override has an unsupported schema version",
            node_id,
        ));
    }
    let ghost s = value.properties.entry_seq();
    let n = value.properties.len();
    let mut i: usize = 0;
    assert(s.skip(0) =~= s);
    while i < n
        invariant
            n == s.len(),
            s == value.properties.entry_seq(),
            i <= n,
            override_props_problem(design, s, *node_id) == override_props_problem(design, s.skip(i as int), *node_id),
            value.schema_version == STUDIO_DESIGN_SCHEMA_VERSION,
            value.layout.schema_version == STUDIO_DESIGN_SCHEMA_VERSION,
            value.style.schema_version == STUDIO_DESIGN_SCHEMA_VERSION,
        decreases n - i,
    {
        let ghost t = s.skip(i as int);
        assert(t[0] == s[i as int]);
        assert(t.drop_first() =~= s.skip(i + 1));
        let name = value.properties.key_at(i);
        if !crate::engine::is_valid_field_name(name.as_str()) {
            return Err(node_diagnostic(
                "DESIGN_PROPERTY_INVALID",
                "a responsive property name must contain 1..=128 safe bytes",
                node_id,
            ));
        }
        match validate_property_value(design, value.properties.value_at(i), Some(node_id)) {
            Err(e) => {
                return Err(e);
            },
            Ok(()) => {},
        }
        i = i + 1;
    }
    validate_layout_style(design, &value.layout, &value.style, node_id)
}

/// Whether a value has the kind a contract declares, with a token value
/// naming a known token.
pub open spec fn matches_kind(design: &StudioDesign, v: PropertyValue, kind: ValueKind) -> bool {
    let shape = match v {
        PropertyValue::String(_) => kind == ValueKind::String,
        PropertyValue::Boolean(_) => kind == ValueKind::Boolean,
        PropertyValue::Integer(_) => kind == ValueKind::Integer,
        PropertyValue::Decimal(_) => kind == ValueKind::Decimal,
        PropertyValue::Length(_) => kind == ValueKind::Length,
        PropertyValue::Color(_) => kind == ValueKind::Color,
        PropertyValue::Token(_) => kind == ValueKind::Token,
        PropertyValue::Binding(_) => kind == ValueKind::Binding,
        PropertyValue::Node(_) => kind == ValueKind::Node,
        PropertyValue::Asset(_) => kind == ValueKind::Asset,
        PropertyValue::List(_) => kind == ValueKind::List,
    };
    shape && !(v matches PropertyValue::Token(t) && !design.tokens@.contains_key(t@))
}

/// Whether a value has the kind a contract declares.
pub fn value_matches_kind(design: &StudioDesign, value: &PropertyValue, kind: ValueKind) -> (r: bool)
    ensures
        r == matches_kind(design, *value, kind),
{
    let shape = match value {
        PropertyValue::String(_) => kind == ValueKind::String,
        PropertyValue::Boolean(_) => kind == ValueKind::Boolean,
        PropertyValue::Integer(_) => kind == ValueKind::Integer,
        PropertyValue::Decimal(_) => kind == ValueKind::Decimal,
        PropertyValue::Length(_) => kind == ValueKind::Length,
        PropertyValue::Color(_) => kind == ValueKind::Color,
        PropertyValue::Token(_) => kind == ValueKind::Token,
        PropertyValue::Binding(_) => kind == ValueKind::Binding,
        PropertyValue::Node(_) => kind == ValueKind::Node,
        PropertyValue::Asset(_) => kind == ValueKind::Asset,
        PropertyValue::List(_) => kind == ValueKind::List,
    };
    let unknown_token = match value {
        PropertyValue::Token(t) => !design.tokens.contains_key(t.as_str()),
        _ => false,
    };
    shape && !unknown_token
}

/// Whether some entry of a value map has a malformed name.
pub open spec fn some_name_bad(s: Seq<(String, PropertyValue)>) -> bool {
    exists|i: int| 0 <= i < s.len() && !valid_field_name((#[trigger] s[i]).0@)
}

/// The first problem among an instance's supplied inputs.
pub open spec fn inputs_problem(design: &StudioDesign, c: ReusableComposition, s: Seq<(String, PropertyValue)>, node: NodeId) -> Option<Problem>
    decreases s.len(),
{
    if s.len() == 0 {
        None
    } else if !c.inputs@.contains_key(s[0].0@) {
        Some(at(
            "DESIGN_COMPOSITION_INPUT_UNKNOWN"@,
            "the instance supplies an input not declared by the composition"@,
            node,
        ))
    } else {
        match value_problem(design, s[0].1, Some(node)) {
            Some(p) => Some(p),
            None => if !matches_kind(design, s[0].1, c.inputs@[s[0].0@].value_kind) {
                Some(at(
                    "DESIGN_COMPOSITION_INPUT_TYPE"@,
                    "an instance input does not match the composition contract"@,
                    node,
                ))
            } else {
                inputs_problem(design, c, s.drop_first(), node)
            },
        }
    }
}

/// The first problem among an instance's admitted overrides.
pub open spec fn overrides_problem(design: &StudioDesign, c: ReusableComposition, s: Seq<(String, PropertyValue)>, node: NodeId) -> Option<Problem>
    decreases s.len(),
{
    if s.len() == 0 {
        None
    } else if !c.inputs@.contains_key(s[0].0@) {
        Some(at(
            "DESIGN_COMPOSITION_INPUT_UNKNOWN"@,
            "the instance overrides an input not declared by the composition"@,
            node,
        ))
    } else if !c.inputs@[s[0].0@].overridable {
        Some(at(
            "DESIGN_COMPOSITION_OVERRIDE_FORBIDDEN"@,
            "the composition contract does not admit an override for this input"@,
            node,
        ))
    } else {
        match value_problem(design, s[0].1, Some(node)) {
            Some(p) => Some(p),
            None => if !matches_kind(design, s[0].1, c.inputs@[s[0].0@].value_kind) {
                Some(at(
                    "DESIGN_COMPOSITION_INPUT_TYPE"@,
                    "an instance override does not match the composition contract"@,
                    node,
                ))
            } else {
                overrides_problem(design, c, s.drop_first(), node)
            },
        }
    }
}

/// Whether a required input without a default is missing from the supplied inputs.
pub open spec fn required_missing(c: ReusableComposition, inputs: Map<Seq<char>, PropertyValue>) -> bool {
    exists|k: Seq<char>| #[trigger] c.inputs@.contains_key(k) && c.inputs@[k].required && c.inputs@[k].default is None
        && !inputs.contains_key(k)
}

/// The first problem of an instance's inputs and overrides against its composition.
pub open spec fn composition_values_problem(
    design: &StudioDesign,
    c: ReusableComposition,
    inputs: OrderedMap<String, PropertyValue>,
    overrides: OrderedMap<String, PropertyValue>,
    node: NodeId,
) -> Option<Problem> {
    if some_name_bad(inputs.entry_seq()) || some_name_bad(overrides.entry_seq()) {
        Some(at(
            "DESIGN_COMPOSITION_INPUT_INVALID"@,
            "a composition input name must contain 1..=128 safe bytes"@,
            node,
        ))
    } else {
        match inputs_problem(design, c, inputs.entry_seq(), node) {
            Some(p) => Some(p),
            None => match overrides_problem(design, c, overrides.entry_seq(), node) {
                Some(p) => Some(p),
                None => if required_missing(c, inputs@) {
                    Some(at(
                        "DESIGN_COMPOSITION_INPUT_REQUIRED"@,
                        "a required composition input has no supplied value or default"@,
                        node,
                    ))
                } else {
                    None
                },
            },
        }
    }
}

fn names_bad(m: &OrderedMap<String, PropertyValue>) -> (r: bool)
    ensures
        r == some_name_bad(m.entry_seq()),
{
    let n = m.len();
    let mut i: usize = 0;
    while i < n
        invariant
            n == m.entry_seq().len(),
            i <= n,
            forall|j: int| 0 <= j < i ==> valid_field_name((#[trigger] m.entry_seq()[j]).0@),
        decreases n - i,
    {
        if !crate::engine::is_valid_field_name(m.key_at(i).as_str()) {
            return true;
        }
        i = i + 1;
    }
    false
}

fn check_inputs(
    design: &StudioDesign,
    c: &ReusableComposition,
    inputs: &OrderedMap<String, PropertyValue>,
    node_id: &NodeId,
) -> (r: Result<(), DesignerDiagnostic>)
    ensures
        match inputs_problem(design, *c, inputs.entry_seq(), *node_id) {
            Some(p) => r matches Err(d) && reports(d, p),
            None => r is Ok,
        },
{
    let ghost s = inputs.entry_seq();
    let n = inputs.len();
    let mut i: usize = 0;
    assert(s.skip(0) =~= s);
    while i < n
        invariant
            n == s.len(),
            s == inputs.entry_seq(),
            i <= n,
            inputs_problem(design, *c, s, *node_id) == inputs_problem(design, *c, s.skip(i as int), *node_id),
        decreases n - i,
    {
        let ghost t = s.skip(i as int);
        assert(t[0] == s[i as int]);
        assert(t.drop_first() =~= s.skip(i + 1));
        let key = inputs.key_at(i);
        let value = inputs.value_at(i);
        let contract = match c.inputs.get(key.as_str()) {
            None => {
                return Err(node_diagnostic(
                    "DESIGN_COMPOSITION_INPUT_UNKNOWN",
                    "the instance supplies an input not declared by the composition",
                    node_id,
                ));
            },
            Some(x) => x,
        };
        match validate_property_value(design, value, Some(node_id)) {
            Err(e) => {
                return Err(e);
            },
            Ok(()) => {},
        }
        if !value_matches_kind(design, value, contract.value_kind) {
            return Err(node_diagnostic(
                "DESIGN_COMPOSITION_INPUT_TYPE",
                "an instance input does not match the composition contract",
                node_id,
            ));
        }
        i = i + 1;
    }
    Ok(())
}

fn check_overrides(
    design: &StudioDesign,
    c: &ReusableComposition,
    overrides: &OrderedMap<String, PropertyValue>,
    node_id: &NodeId,
) -> (r: Result<(), DesignerDiagnostic>)
    ensures
        match overrides_problem(design, *c, overrides.entry_seq(), *node_id) {
            Some(p) => r matches Err(d) && reports(d, p),
            None => r is Ok,
        },
{
    let ghost s = overrides.entry_seq();
    let n = overrides.len();
    let mut i: usize = 0;
    assert(s.skip(0) =~= s);
    while i < n
        invariant
            n == s.len(),
            s == overrides.entry_seq(),
            i <= n,
            overrides_problem(design, *c, s, *node_id) == overrides_problem(design, *c, s.skip(i as int), *node_id),
        decreases n - i,
    {
        let ghost t = s.skip(i as int);
        assert(t[0] == s[i as int]);
        assert(t.drop_first() =~= s.skip(i + 1));
        let key = overrides.key_at(i);
        let value = overrides.value_at(i);
        let contract = match c.inputs.get(key.as_str()) {
            None => {
                return Err(node_diagnostic(
                    "DESIGN_COMPOSITION_INPUT_UNKNOWN",
                    "the instance overrides an input not declared by the composition",
                    node_id,
                ));
            },
            Some(x) => x,
        };
        if !contract.overridable {
            return Err(node_diagnostic(
                "DESIGN_COMPOSITION_OVERRIDE_FORBIDDEN",
                "the composition contract does not admit an override for this input",
                node_id,
            ));
        }
        match validate_property_value(design, value, Some(node_id)) {
            Err(e) => {
                return Err(e);
            },
            Ok(()) => {},
        }
        if !value_matches_kind(design, value, contract.value_kind) {
            return Err(node_diagnostic(
                "DESIGN_COMPOSITION_INPUT_TYPE",
                "an instance override does not match the composition contract",
                node_id,
            ));
        }
        i = i + 1;
    }
    Ok(())
}

fn missing_required(c: &ReusableComposition, inputs: &OrderedMap<String, PropertyValue>) -> (r: bool)
    ensures
        r == required_missing(*c, inputs@),
{
    let m = &c.inputs;
    m.reveal_entries();
    let n = m.len();
    let mut i: usize = 0;
    while i < n
        invariant
            *m == c.inputs,
            n == m.entry_seq().len(),
            i <= n,
            forall|j: int| 0 <= j < i ==> !((#[trigger] m.entry_seq()[j]).1.required && m.entry_seq()[j].1.default is None
                && !inputs@.contains_key(m.entry_seq()[j].0@)),
        decreases n - i,
    {
        let contract = m.value_at(i);
        if contract.required && contract.default.is_none() && !inputs.contains_key(m.key_at(i).as_str()) {
            m.reveal_entries();
            assert(m@.contains_key(m.entry_seq()[i as int].0@)) by {
                assert(m.key_seq()[i as int] == m.entry_seq()[i as int].0@);
            }
            assert(m@[m.entry_seq()[i as int].0.key_view()] == m.entry_seq()[i as int].1);
            return true;
        }
        i = i + 1;
    }
    assert forall|k: Seq<char>| #[trigger] m@.contains_key(k) implies !(m@[k].required && m@[k].default is None
        && !inputs@.contains_key(k)) by {
        let j = m.key_seq().index_of(k);
        assert(m.key_seq()[j] == m.entry_seq()[j].0@);
    }
    false
}

/// Check a composition instance's inputs and admitted overrides against the
/// composition's contract.
pub fn validate_composition_values(
    design: &StudioDesign,
    composition: &ReusableComposition,
    inputs: &OrderedMap<String, PropertyValue>,
    overrides: &OrderedMap<String, PropertyValue>,
    node_id: &NodeId,
) -> (r: Result<(), DesignerDiagnostic>)
    ensures
        match composition_values_problem(design, *composition, *inputs, *overrides, *node_id) {
            Some(p) => r matches Err(d) && reports(d, p),
            None => r is Ok,
        },
{
    if names_bad(inputs) || names_bad(overrides) {
        return Err(node_diagnostic(
            "DESIGN_COMPOSITION_INPUT_INVALID",
            "a composition input name must contain 1..=128 safe bytes",
            node_id,
        ));
    }
    match check_inputs(design, composition, inputs, node_id) {
        Err(e) => {
            return Err(e);
        },
        Ok(()) => {},
    }
    match check_overrides(design, composition, overrides, node_id) {
        Err(e) => {
            return Err(e);
        },
        Ok(()) => {},
    }
    if missing_required(composition, inputs) {
        return Err(node_diagnostic(
            "DESIGN_COMPOSITION_INPUT_REQUIRED",
            "a required composition input has no supplied value or default",
            node_id,
        ));
    }
    Ok(())
}

/// The `k`-th node of the parent chain from `node`, through node parents.
pub open spec fn chain_at(design: &StudioDesign, node: Seq<char>, k: nat) -> Option<Seq<char>> {
    crate::access::ancestor(design, node, k)
}

/// Whether the parent chain from `node` revisits a node within as many steps
/// as the parent index has entries; a chain that repeats at all repeats
/// within that many steps, since every node before the first repetition has
/// an entry of its own in the index.
pub open spec fn chain_cycles(design: &StudioDesign, node: Seq<char>) -> bool {
    exists|i: nat, j: nat|
        i < j <= design.parents.entry_seq().len() && #[trigger] chain_at(design, node, i) is Some && chain_at(
            design,
            node,
            i,
        ) == #[trigger] chain_at(design, node, j)
}

/// Whether the parent index leads from a node back to a node already passed.
pub fn parent_chain_cycles(design: &StudioDesign, start: &NodeId) -> (r: bool)
    ensures
        r == chain_cycles(design, start@),
{
    let bound = design.parents.len();
    let mut seen: Vec<NodeId> = Vec::new();
    let mut cursor: NodeId = start.copy();
    let mut k: usize = 0;
    loop
        invariant
            bound == design.parents.entry_seq().len(),
            k <= bound,
            seen@.len() == k,
            crate::access::ancestor(design, start@, k as nat) == Some(cursor@),
            forall|a: int| 0 <= a < k ==> crate::access::ancestor(design, start@, a as nat) == Some((#[trigger] seen@[a])@),
            forall|a: nat, b: nat| a < b < k ==> #[trigger] chain_at(design, start@, a) != #[trigger] chain_at(design, start@, b),
        decreases bound - k,
    {
        let mut a: usize = 0;
        while a < seen.len()
            invariant
                a <= seen@.len(),
                seen@.len() == k,
                k <= bound,
                bound == design.parents.entry_seq().len(),
                crate::access::ancestor(design, start@, k as nat) == Some(cursor@),
                forall|x: int| 0 <= x < k ==> crate::access::ancestor(design, start@, x as nat) == Some((#[trigger] seen@[x])@),
                forall|x: int| 0 <= x < a ==> (#[trigger] seen@[x])@ != cursor@,
            decreases seen@.len() - a,
        {
            if seen[a].same(&cursor) {
                assert(crate::access::ancestor(design, start@, a as nat) == Some(seen@[a as int]@));
                assert(chain_at(design, start@, a as nat) == chain_at(design, start@, k as nat));
                assert(chain_at(design, start@, a as nat) is Some);
                return true;
            }
            a = a + 1;
        }
        assert forall|x: nat| x < k implies #[trigger] chain_at(design, start@, x) != chain_at(design, start@, k as nat) by {
            assert(crate::access::ancestor(design, start@, x) == Some(seen@[x as int]@));
        }
        assert forall|x: nat, y: nat| x < y <= k implies #[trigger] chain_at(design, start@, x) != #[trigger] chain_at(design, start@, y) by {
            if y == k {
                assert(chain_at(design, start@, x) != chain_at(design, start@, k as nat));
            }
        }
        let next = match design.parents.get(cursor.as_str()) {
            Some(NodeParent::Node { node_id }) => Some(node_id.copy()),
            _ => None,
        };
        match next {
            None => {
                proof {
                    assert(chain_at(design, start@, (k + 1) as nat) is None);
                    assert forall|i: nat, j: nat| i < j <= bound implies !(chain_at(design, start@, i) is Some
                        && chain_at(design, start@, i) == chain_at(design, start@, j)) by {
                        if j > k {
                            crate::access::lemma_ancestor_stays_none(design, start@, (k + 1) as nat, j);
                        }
                    }
                }
                return false;
            },
            Some(p) => {
                if k == bound {
                    proof {
                        assert forall|i: nat, j: nat| i < j <= bound implies !(chain_at(design, start@, i) is Some
                            && chain_at(design, start@, i) == chain_at(design, start@, j)) by {}
                    }
                    return false;
                }
                seen.push(cursor);
                cursor = p;
                k = k + 1;
            },
        }
    }
}

/// Every observable field of a diagnostic, with identities as text.
pub type DiagText = (
    Seq<char>,
    DiagnosticSeverity,
    Seq<char>,
    Option<Seq<char>>,
    Option<Seq<char>>,
    Option<Seq<char>>,
    Option<Seq<char>>,
    Option<Seq<char>>,
    Option<Seq<char>>,
);

/// The text of an optional identity.
pub open spec fn id_text<T>(x: Option<crate::ids::Id<T>>) -> Option<Seq<char>> {
    match x {
        Some(i) => Some(i@),
        None => None,
    }
}

/// The observable fields of a diagnostic, identities as text.
pub open spec fn dtext(d: DesignerDiagnostic) -> DiagText {
    (
        d.code@,
        d.severity,
        d.message@,
        id_text(d.node_id),
        id_text(d.interaction_id),
        id_text(d.collection_id),
        id_text(d.binding_id),
        id_text(d.form_id),
        id_text(d.record_id),
    )
}

/// A diagnostic view with identities as text.
pub open spec fn vtext(v: DiagView) -> DiagText {
    (v.0, v.1, v.2, id_text(v.3), id_text(v.4), id_text(v.5), id_text(v.6), id_text(v.7), id_text(v.8))
}

/// The texts of a sequence of diagnostics.
pub open spec fn dtexts(ds: Seq<DesignerDiagnostic>) -> Seq<DiagText> {
    ds.map_values(|d: DesignerDiagnostic| dtext(d))
}

/// The texts of a sequence of diagnostic views.
pub open spec fn vtexts(vs: Seq<DiagView>) -> Seq<DiagText> {
    vs.map_values(|v: DiagView| vtext(v))
}

/// An error reporting a problem.
pub open spec fn ptext(p: Problem) -> DiagText {
    (p.0, DiagnosticSeverity::Error, p.1, p.2, None, None, None, None, None)
}

/// An error with no link.
pub open spec fn plain(code: Seq<char>, message: Seq<char>) -> DiagText {
    (code, DiagnosticSeverity::Error, message, None, None, None, None, None, None)
}

/// The error when `cond` holds.
pub open spec fn one_if(cond: bool, t: DiagText) -> Seq<DiagText> {
    if cond {
        seq![t]
    } else {
        Seq::empty()
    }
}

proof fn lemma_texts_of_views(ds: Seq<DesignerDiagnostic>)
    ensures
        vtexts(views(ds)) == dtexts(ds),
{
    assert(vtexts(views(ds)) =~= dtexts(ds));
}

proof fn lemma_text_assoc(a: Seq<DiagText>, b: Seq<DiagText>, c: Seq<DiagText>)
    ensures
        (a + b) + c == a + (b + c),
{
    assert((a + b) + c =~= a + (b + c));
}

fn push_text(ds: &mut Vec<DesignerDiagnostic>, d: DesignerDiagnostic)
    ensures
        dtexts(final(ds)@) == dtexts(old(ds)@).push(dtext(d)),
{
    let ghost before = ds@;
    ds.push(d);
    assert(dtexts(ds@) =~= dtexts(before).push(dtext(d)));
}

fn push_when(ds: &mut Vec<DesignerDiagnostic>, cond: bool, d: DesignerDiagnostic)
    ensures
        dtexts(final(ds)@) == dtexts(old(ds)@) + one_if(cond, dtext(d)),
{
    if cond {
        push_text(ds, d);
        assert(dtexts(ds@) =~= dtexts(old(ds)@) + one_if(cond, dtext(d)));
    } else {
        assert(dtexts(ds@) =~= dtexts(old(ds)@) + one_if(cond, dtext(d)));
    }
}

fn append_texts(ds: &mut Vec<DesignerDiagnostic>, more: Vec<DesignerDiagnostic>)
    ensures
        dtexts(final(ds)@) == dtexts(old(ds)@) + dtexts(more@),
{
    let ghost given = more@;
    let mut more = more;
    ds.append(&mut more);
    assert(dtexts(ds@) =~= dtexts(old(ds)@) + dtexts(given));
}

/// Whether the screen order lists some screen twice, or lists a set of
/// screens other than the screen map's.
pub open spec fn screen_order_bad(design: &StudioDesign) -> bool {
    let order = design.screen_order@;
    ||| exists|i: int, j: int| 0 <= i < j < order.len() && (#[trigger] order[i])@ == (#[trigger] order[j])@
    ||| exists|i: int| 0 <= i < order.len() && !design.screens@.contains_key((#[trigger] order[i])@)
    ||| exists|k: Seq<char>| #[trigger] design.screens@.contains_key(k) && !(exists|i: int|
        0 <= i < order.len() && (#[trigger] order[i])@ == k)
}

/// The document-level problems: schema version, name, screen order and
/// parent index.
pub open spec fn header_issues(design: &StudioDesign) -> Seq<DiagText> {
    one_if(
        design.schema_version != STUDIO_DESIGN_SCHEMA_VERSION,
        plain("DESIGN_SCHEMA_UNSUPPORTED"@, "the Studio Design schema version is unsupported"@),
    ) + one_if(
        crate::text::trim_whitespace(design.name@).len() == 0,
        plain("DESIGN_NAME_INVALID"@, "a Studio Design name cannot be empty"@),
    ) + one_if(
        screen_order_bad(design),
        plain("DESIGN_SCREEN_ORDER_INVALID"@, "screen_order must contain every screen identity exactly once"@),
    ) + one_if(
        design.nodes@.dom() != design.parents@.dom(),
        plain("DESIGN_PARENT_INDEX_INVALID"@, "the parent index must contain exactly one owner for every node"@),
    )
}

fn order_is_bad(design: &StudioDesign) -> (r: bool)
    ensures
        r == screen_order_bad(design),
{
    let order = &design.screen_order;
    let n = order.len();
    let mut i: usize = 0;
    while i < n
        invariant
            *order == design.screen_order,
            n == order@.len(),
            i <= n,
            forall|a: int, b: int| 0 <= a < b < n && a < i ==> (#[trigger] order@[a])@ != (#[trigger] order@[b])@,
            forall|a: int| 0 <= a < i ==> design.screens@.contains_key((#[trigger] order@[a])@),
        decreases n - i,
    {
        if !design.screens.contains_key(order[i].as_str()) {
            return true;
        }
        let mut j: usize = i + 1;
        while j < n
            invariant
                *order == design.screen_order,
                n == order@.len(),
                i < n,
                i < j <= n,
                forall|b: int| i < b < j ==> order@[i as int]@ != (#[trigger] order@[b])@,
            decreases n - j,
        {
            if order[i].same(&order[j]) {
                return true;
            }
            j = j + 1;
        }
        i = i + 1;
    }
    let m = &design.screens;
    let count = m.len();
    let mut k: usize = 0;
    m.reveal_entries();
    while k < count
        invariant
            *m == design.screens,
            *order == design.screen_order,
            n == order@.len(),
            count == m.entry_seq().len(),
            k <= count,
            forall|a: int| 0 <= a < k ==> exists|b: int| 0 <= b < n && (#[trigger] order@[b])@ == (#[trigger] m.entry_seq()[a]).0@,
        decreases count - k,
    {
        let key = m.key_at(k);
        let mut found = false;
        let mut b: usize = 0;
        while b < n
            invariant
                *order == design.screen_order,
                n == order@.len(),
                b <= n,
                found ==> exists|c: int| 0 <= c < n && (#[trigger] order@[c])@ == key@,
                !found ==> forall|c: int| 0 <= c < b ==> (#[trigger] order@[c])@ != key@,
            decreases n - b,
        {
            if order[b].same(key) {
                found = true;
            }
            b = b + 1;
        }
        if !found {
            m.reveal_entries();
            assert(m@.contains_key(m.entry_seq()[k as int].0@)) by {
                assert(m.key_seq()[k as int] == m.entry_seq()[k as int].0@);
            }
            return true;
        }
        k = k + 1;
    }
    m.reveal_entries();
    assert forall|key: Seq<char>| #[trigger] m@.contains_key(key) implies exists|c: int| 0 <= c < n && (#[trigger] order@[c])@ == key by {
        let a = m.key_seq().index_of(key);
        assert(m.key_seq()[a] == m.entry_seq()[a].0@);
    }
    false
}

fn same_keys(design: &StudioDesign) -> (r: bool)
    ensures
        r == (design.nodes@.dom() == design.parents@.dom()),
{
    let nodes = &design.nodes;
    let parents = &design.parents;
    nodes.reveal_entries();
    parents.reveal_entries();
    let n = nodes.len();
    let mut i: usize = 0;
    while i < n
        invariant
            *nodes == design.nodes,
            *parents == design.parents,
            n == nodes.entry_seq().len(),
            i <= n,
            forall|a: int| 0 <= a < i ==> design.parents@.contains_key((#[trigger] nodes.entry_seq()[a]).0@),
        decreases n - i,
    {
        if !parents.contains_key(nodes.key_at(i).as_str()) {
            nodes.reveal_entries();
            assert(nodes@.contains_key(nodes.entry_seq()[i as int].0@)) by {
                assert(nodes.key_seq()[i as int] == nodes.entry_seq()[i as int].0@);
            }
            return false;
        }
        i = i + 1;
    }
    let p = parents.len();
    let mut j: usize = 0;
    while j < p
        invariant
            *nodes == design.nodes,
            *parents == design.parents,
            p == parents.entry_seq().len(),
            j <= p,
            forall|a: int| 0 <= a < j ==> design.nodes@.contains_key((#[trigger] parents.entry_seq()[a]).0@),
        decreases p - j,
    {
        if !nodes.contains_key(parents.key_at(j).as_str()) {
            parents.reveal_entries();
            assert(parents@.contains_key(parents.entry_seq()[j as int].0@)) by {
                assert(parents.key_seq()[j as int] == parents.entry_seq()[j as int].0@);
            }
            return false;
        }
        j = j + 1;
    }
    nodes.reveal_entries();
    parents.reveal_entries();
    assert(design.nodes@.dom() =~= design.parents@.dom()) by {
        assert forall|k: Seq<char>| design.nodes@.contains_key(k) implies design.parents@.contains_key(k) by {
            let a = nodes.key_seq().index_of(k);
            assert(nodes.key_seq()[a] == nodes.entry_seq()[a].0@);
        }
        assert forall|k: Seq<char>| design.parents@.contains_key(k) implies design.nodes@.contains_key(k) by {
            let a = parents.key_seq().index_of(k);
            assert(parents.key_seq()[a] == parents.entry_seq()[a].0@);
        }
    }
    true
}

fn check_header(design: &StudioDesign) -> (r: Vec<DesignerDiagnostic>)
    ensures
        dtexts(r@) == header_issues(design),
{
    let mut ds: Vec<DesignerDiagnostic> = Vec::new();
    assert(dtexts(ds@) =~= Seq::<DiagText>::empty());
    push_when(
        &mut ds,
        design.schema_version != STUDIO_DESIGN_SCHEMA_VERSION,
        diagnostic("DESIGN_SCHEMA_UNSUPPORTED", "the Studio Design schema version is unsupported", None),
    );
    push_when(
        &mut ds,
        crate::content::is_blank(design.name.as_str()),
        diagnostic("DESIGN_NAME_INVALID", "a Studio Design name cannot be empty", None),
    );
    push_when(
        &mut ds,
        order_is_bad(design),
        diagnostic("DESIGN_SCREEN_ORDER_INVALID", "screen_order must contain every screen identity exactly once", None),
    );
    push_when(
        &mut ds,
        !same_keys(design),
        diagnostic("DESIGN_PARENT_INDEX_INVALID", "the parent index must contain exactly one owner for every node", None),
    );
    assert(dtexts(ds@) =~= header_issues(design));
    ds
}

/// Whether a node's indexed owner is `owner`.
pub open spec fn owned_by(design: &StudioDesign, node: Seq<char>, owner: NodeParent) -> bool {
    design.parents@.contains_key(node) && same_parent(design.parents@[node], owner)
}

pub(crate) fn is_owned_by(design: &StudioDesign, node: &NodeId, owner: &NodeParent) -> (r: bool)
    ensures
        r == owned_by(design, node@, *owner),
{
    match design.parents.get(node.as_str()) {
        Some(p) => crate::engine::parents_equal(p, owner),
        None => false,
    }
}

/// Whether a screen record is malformed under its key.
pub open spec fn screen_bad(design: &StudioDesign, key: crate::ids::ScreenId, screen: crate::model::Screen) -> bool {
    ||| screen.schema_version != STUDIO_DESIGN_SCHEMA_VERSION
    ||| screen.id@ != key@
    ||| !(screen.route@.len() > 0 && screen.route@[0] == '/')
    ||| !design.nodes@.contains_key(screen.root_node_id@)
    ||| !owned_by(design, screen.root_node_id@, NodeParent::Screen { screen_id: key })
}

/// The screen record problems, in screen order.
pub open spec fn screens_issues(design: &StudioDesign, s: Seq<(crate::ids::ScreenId, crate::model::Screen)>) -> Seq<DiagText>
    decreases s.len(),
{
    if s.len() == 0 {
        Seq::empty()
    } else {
        screens_issues(design, s.drop_last()) + one_if(
            screen_bad(design, s.last().0, s.last().1),
            ptext(at(
                "DESIGN_SCREEN_INVALID"@,
                "a screen record, route, root, or root parent is invalid"@,
                s.last().1.root_node_id,
            )),
        )
    }
}

fn check_screens(design: &StudioDesign) -> (r: Vec<DesignerDiagnostic>)
    ensures
        dtexts(r@) == screens_issues(design, design.screens.entry_seq()),
{
    let ghost entries = design.screens.entry_seq();
    let mut ds: Vec<DesignerDiagnostic> = Vec::new();
    let n = design.screens.len();
    let mut i: usize = 0;
    assert(entries.take(0) =~= Seq::<(crate::ids::ScreenId, crate::model::Screen)>::empty());
    assert(dtexts(ds@) =~= Seq::<DiagText>::empty());
    while i < n
        invariant
            n == entries.len(),
            entries == design.screens.entry_seq(),
            i <= n,
            dtexts(ds@) == screens_issues(design, entries.take(i as int)),
        decreases n - i,
    {
        let key = design.screens.key_at(i);
        let screen = design.screens.value_at(i);
        let route_ok = screen.route.unicode_len() > 0 && screen.route.get_char(0) == '/';
        let owner = NodeParent::Screen { screen_id: key.copy() };
        let bad = screen.schema_version != STUDIO_DESIGN_SCHEMA_VERSION || !screen.id.same(key) || !route_ok
            || !design.nodes.contains_key(screen.root_node_id.as_str()) || !is_owned_by(
            design,
            &screen.root_node_id,
            &owner,
        );
        push_when(
            &mut ds,
            bad,
            node_diagnostic(
                "DESIGN_SCREEN_INVALID",
                "a screen record, route, root, or root parent is invalid",
                &screen.root_node_id,
            ),
        );
        assert(entries.take(i + 1).drop_last() =~= entries.take(i as int));
        assert(entries.take(i + 1).last() == entries[i as int]);
        i = i + 1;
    }
    assert(entries.take(n as int) =~= entries);
    ds
}

/// Whether a composition record is malformed under its key.
pub open spec fn composition_record_bad(design: &StudioDesign, key: crate::ids::CompositionId, c: ReusableComposition) -> bool {
    ||| c.schema_version != STUDIO_DESIGN_SCHEMA_VERSION
    ||| c.id@ != key@
    ||| !design.nodes@.contains_key(c.root_node_id@)
    ||| !owned_by(design, c.root_node_id@, NodeParent::Composition { composition_id: key })
}

/// The composition record problems, in composition order.
pub open spec fn compositions_issues(design: &StudioDesign, s: Seq<(crate::ids::CompositionId, ReusableComposition)>) -> Seq<DiagText>
    decreases s.len(),
{
    if s.len() == 0 {
        Seq::empty()
    } else {
        compositions_issues(design, s.drop_last()) + one_if(
            composition_record_bad(design, s.last().0, s.last().1),
            ptext(at(
                "DESIGN_COMPOSITION_INVALID"@,
                "a composition record, root, or root parent is invalid"@,
                s.last().1.root_node_id,
            )),
        )
    }
}

fn check_compositions(design: &StudioDesign) -> (r: Vec<DesignerDiagnostic>)
    ensures
        dtexts(r@) == compositions_issues(design, design.compositions.entry_seq()),
{
    let ghost entries = design.compositions.entry_seq();
    let mut ds: Vec<DesignerDiagnostic> = Vec::new();
    let n = design.compositions.len();
    let mut i: usize = 0;
    assert(entries.take(0) =~= Seq::<(crate::ids::CompositionId, ReusableComposition)>::empty());
    assert(dtexts(ds@) =~= Seq::<DiagText>::empty());
    while i < n
        invariant
            n == entries.len(),
            entries == design.compositions.entry_seq(),
            i <= n,
            dtexts(ds@) == compositions_issues(design, entries.take(i as int)),
        decreases n - i,
    {
        let key = design.compositions.key_at(i);
        let c = design.compositions.value_at(i);
        let owner = NodeParent::Composition { composition_id: key.copy() };
        let bad = c.schema_version != STUDIO_DESIGN_SCHEMA_VERSION || !c.id.same(key) || !design.nodes.contains_key(
            c.root_node_id.as_str(),
        ) || !is_owned_by(design, &c.root_node_id, &owner);
        push_when(
            &mut ds,
            bad,
            node_diagnostic(
                "DESIGN_COMPOSITION_INVALID",
                "a composition record, root, or root parent is invalid",
                &c.root_node_id,
            ),
        );
        assert(entries.take(i + 1).drop_last() =~= entries.take(i as int));
        assert(entries.take(i + 1).last() == entries[i as int]);
        i = i + 1;
    }
    assert(entries.take(n as int) =~= entries);
    ds
}

/// The text of a problem found in a node property, prefixed with the property's name.
pub open spec fn property_text(name: Seq<char>, p: Problem) -> DiagText {
    (p.0, DiagnosticSeverity::Error, "invalid node property "@ + name + ": "@ + p.1, p.2, None, None, None, None, None)
}

/// The optional problem as a sequence of zero or one texts.
pub open spec fn opt_problem(p: Option<Problem>) -> Seq<DiagText> {
    match p {
        Some(x) => seq![ptext(x)],
        None => Seq::empty(),
    }
}

/// Whether a node's identity or a nested schema version is malformed.
pub open spec fn node_schema_bad(key: NodeId, node: crate::model::DesignNode) -> bool {
    ||| node.schema_version != STUDIO_DESIGN_SCHEMA_VERSION
    ||| node.layout.schema_version != STUDIO_DESIGN_SCHEMA_VERSION
    ||| node.style.schema_version != STUDIO_DESIGN_SCHEMA_VERSION
    ||| node.accessibility.schema_version != STUDIO_DESIGN_SCHEMA_VERSION
    ||| node.id@ != key@
}

/// Whether a child list names some identity twice.
pub open spec fn children_repeat(cs: Seq<NodeId>) -> bool {
    exists|i: int, j: int| 0 <= i < j < cs.len() && (#[trigger] cs[i])@ == (#[trigger] cs[j])@
}

/// The child index problems of a node, one per inconsistent child.
pub open spec fn children_issues(design: &StudioDesign, key: NodeId, cs: Seq<NodeId>) -> Seq<DiagText>
    decreases cs.len(),
{
    if cs.len() == 0 {
        Seq::empty()
    } else {
        children_issues(design, key, cs.drop_last()) + one_if(
            !design.nodes@.contains_key(cs.last()@) || !owned_by(design, cs.last()@, NodeParent::Node { node_id: key }),
            ptext(at(
                "DESIGN_CHILD_INDEX_INVALID"@,
                "a child identity or its indexed parent is inconsistent"@,
                cs.last(),
            )),
        )
    }
}

/// The composition instance problems of a node.
pub open spec fn instance_issues(design: &StudioDesign, key: NodeId, node: crate::model::DesignNode) -> Seq<DiagText> {
    match node.source {
        crate::model::DesignNodeSource::CompositionInstance {
            composition_id,
            definition_version,
            inputs,
            admitted_overrides,
        } => if !design.compositions@.contains_key(composition_id@) {
            seq![ptext(at("DESIGN_COMPOSITION_MISSING"@, "a composition instance references an unknown definition"@, key))]
        } else {
            let c = design.compositions@[composition_id@];
            one_if(
                definition_version != c.definition_version,
                ptext(at(
                    "DESIGN_COMPOSITION_VERSION_STALE"@,
                    "a composition instance does not match its definition version"@,
                    key,
                )),
            ) + opt_problem(composition_values_problem(design, c, inputs, admitted_overrides, key))
        },
        _ => Seq::empty(),
    }
}

/// One problem per malformed responsive property name.
pub open spec fn override_name_issues(key: NodeId, s: Seq<(String, PropertyValue)>) -> Seq<DiagText>
    decreases s.len(),
{
    if s.len() == 0 {
        Seq::empty()
    } else {
        override_name_issues(key, s.drop_last()) + one_if(
            !valid_field_name(s.last().0@),
            ptext(at(
                "DESIGN_PROPERTY_INVALID"@,
                "a responsive property name must contain 1..=128 safe bytes"@,
                key,
            )),
        )
    }
}

/// The problems of one responsive override of a node.
pub open spec fn override_issue(
    design: &StudioDesign,
    key: NodeId,
    variant: crate::ids::ResponsiveVariantId,
    o: ResponsiveNodeOverride,
) -> Seq<DiagText> {
    (if !design.responsive_variants@.contains_key(variant@) {
        seq![ptext(at("DESIGN_RESPONSIVE_INVALID"@, "a responsive override references an unknown variant"@, key))]
    } else {
        opt_problem(override_problem(design, key, o))
    }) + override_name_issues(key, o.properties.entry_seq())
}

/// The problems of a node's responsive overrides, in profile order.
pub open spec fn overrides_issues(
    design: &StudioDesign,
    key: NodeId,
    s: Seq<(crate::ids::ResponsiveVariantId, ResponsiveNodeOverride)>,
) -> Seq<DiagText>
    decreases s.len(),
{
    if s.len() == 0 {
        Seq::empty()
    } else {
        overrides_issues(design, key, s.drop_last()) + override_issue(design, key, s.last().0, s.last().1)
    }
}

/// The problems of a node's authored property values, in property order.
pub open spec fn properties_issues(design: &StudioDesign, key: NodeId, s: Seq<(String, PropertyValue)>) -> Seq<DiagText>
    decreases s.len(),
{
    if s.len() == 0 {
        Seq::empty()
    } else {
        properties_issues(design, key, s.drop_last()) + match value_problem(design, s.last().1, Some(key)) {
            Some(p) => seq![property_text(s.last().0@, p)],
            None => Seq::empty(),
        }
    }
}

/// One problem per attached interaction whose source is another node.
pub open spec fn source_issues(design: &StudioDesign, key: NodeId, ids: Seq<crate::ids::InteractionId>) -> Seq<DiagText>
    decreases ids.len(),
{
    if ids.len() == 0 {
        Seq::empty()
    } else {
        source_issues(design, key, ids.drop_last()) + one_if(
            design.interactions@.contains_key(ids.last()@) && design.interactions@[ids.last()@].source.node_id@
                != key@,
            ptext(at(
                "DESIGN_INTERACTION_SOURCE_INVALID"@,
                "a node interaction attachment does not match the interaction source"@,
                key,
            )),
        )
    }
}

/// Every problem of one node, in reporting order.
pub open spec fn node_issue(design: &StudioDesign, key: NodeId, node: crate::model::DesignNode) -> Seq<DiagText> {
    Seq::<DiagText>::empty() + one_if(
        node_schema_bad(key, node),
        ptext(at("DESIGN_NODE_SCHEMA_INVALID"@, "a node identity or nested schema version is invalid"@, key)),
    ) + one_if(
        children_repeat(node.children@),
        ptext(at("DESIGN_CHILD_DUPLICATE"@, "a node child list contains a duplicate identity"@, key)),
    ) + children_issues(design, key, node.children@) + instance_issues(design, key, node) + overrides_issues(
        design,
        key,
        node.responsive_overrides.entry_seq(),
    ) + opt_problem(layout_style_problem(design, node.layout, node.style, key)) + properties_issues(
        design,
        key,
        node.properties.entry_seq(),
    ) + one_if(
        exists|i: int| 0 <= i < node.interaction_ids@.len() && !design.interactions@.contains_key(
            (#[trigger] node.interaction_ids@[i])@,
        ),
        ptext(at("DESIGN_INTERACTION_MISSING"@, "a node references an unknown interaction"@, key)),
    ) + source_issues(design, key, node.interaction_ids@) + one_if(
        chain_cycles(design, key@),
        ptext(at("DESIGN_PARENT_CYCLE"@, "the parent index contains a cycle"@, key)),
    )
}

fn push_problem(ds: &mut Vec<DesignerDiagnostic>, r: Result<(), DesignerDiagnostic>, Ghost(p): Ghost<Option<Problem>>)
    requires
        match p {
            Some(x) => r matches Err(d) && reports(d, x),
            None => r is Ok,
        },
    ensures
        dtexts(final(ds)@) == dtexts(old(ds)@) + opt_problem(p),
{
    match r {
        Err(d) => {
            push_text(ds, d);
            assert(dtexts(ds@) =~= dtexts(old(ds)@) + opt_problem(p));
        },
        Ok(()) => {
            assert(dtexts(ds@) =~= dtexts(old(ds)@) + opt_problem(p));
        },
    }
}

fn children_repeated(cs: &Vec<NodeId>) -> (r: bool)
    ensures
        r == children_repeat(cs@),
{
    let n = cs.len();
    let mut i: usize = 0;
    while i < n
        invariant
            n == cs@.len(),
            i <= n,
            forall|a: int, b: int| 0 <= a < b < n && a < i ==> (#[trigger] cs@[a])@ != (#[trigger] cs@[b])@,
        decreases n - i,
    {
        let mut j: usize = i + 1;
        while j < n
            invariant
                n == cs@.len(),
                i < n,
                i < j <= n,
                forall|b: int| i < b < j ==> cs@[i as int]@ != (#[trigger] cs@[b])@,
            decreases n - j,
        {
            if cs[i].same(&cs[j]) {
                return true;
            }
            j = j + 1;
        }
        i = i + 1;
    }
    false
}

fn check_children(ds: &mut Vec<DesignerDiagnostic>, design: &StudioDesign, key: &NodeId, cs: &Vec<NodeId>)
    ensures
        dtexts(final(ds)@) == dtexts(old(ds)@) + children_issues(design, *key, cs@),
{
    let ghost base = dtexts(ds@);
    let owner = NodeParent::Node { node_id: key.copy() };
    let n = cs.len();
    let mut i: usize = 0;
    assert(cs@.take(0) =~= Seq::<NodeId>::empty());
    assert(dtexts(ds@) =~= base + children_issues(design, *key, cs@.take(0)));
    while i < n
        invariant
            n == cs@.len(),
            i <= n,
            owner == (NodeParent::Node { node_id: *key }),
            dtexts(ds@) == base + children_issues(design, *key, cs@.take(i as int)),
        decreases n - i,
    {
        let ghost prior = children_issues(design, *key, cs@.take(i as int));
        let child = &cs[i];
        let bad = !design.nodes.contains_key(child.as_str()) || !is_owned_by(design, child, &owner);
        let d = node_diagnostic(
            "DESIGN_CHILD_INDEX_INVALID",
            "a child identity or its indexed parent is inconsistent",
            child,
        );
        let ghost t = dtext(d);
        push_when(ds, bad, d);
        proof {
            assert(cs@.take(i + 1).drop_last() =~= cs@.take(i as int));
            assert(cs@.take(i + 1).last() == cs@[i as int]);
            lemma_text_assoc(base, prior, one_if(bad, t));
        }
        i = i + 1;
    }
    assert(cs@.take(n as int) =~= cs@);
}

fn check_instance(ds: &mut Vec<DesignerDiagnostic>, design: &StudioDesign, key: &NodeId, node: &crate::model::DesignNode)
    ensures
        dtexts(final(ds)@) == dtexts(old(ds)@) + instance_issues(design, *key, *node),
{
    match &node.source {
        crate::model::DesignNodeSource::CompositionInstance {
            composition_id,
            definition_version,
            inputs,
            admitted_overrides,
        } => {
            match design.compositions.get(composition_id.as_str()) {
                None => {
                    push_text(
                        ds,
                        node_diagnostic(
                            "DESIGN_COMPOSITION_MISSING",
                            "a composition instance references an unknown definition",
                            key,
                        ),
                    );
                    assert(dtexts(ds@) =~= dtexts(old(ds)@) + instance_issues(design, *key, *node));
                },
                Some(c) => {
                    let ghost base = dtexts(ds@);
                    let d = node_diagnostic(
                        "DESIGN_COMPOSITION_VERSION_STALE",
                        "a composition instance does not match its definition version",
                        key,
                    );
                    let ghost t = dtext(d);
                    let stale = *definition_version != c.definition_version;
                    push_when(ds, stale, d);
                    let ghost p = composition_values_problem(design, *c, *inputs, *admitted_overrides, *key);
                    let r = validate_composition_values(design, c, inputs, admitted_overrides, key);
                    push_problem(ds, r, Ghost(p));
                    proof {
                        lemma_text_assoc(base, one_if(stale, t), opt_problem(p));
                    }
                },
            }
        },
        _ => {
            assert(dtexts(ds@) =~= dtexts(old(ds)@) + instance_issues(design, *key, *node));
        },
    }
}

fn check_override_names(ds: &mut Vec<DesignerDiagnostic>, key: &NodeId, props: &OrderedMap<String, PropertyValue>)
    ensures
        dtexts(final(ds)@) == dtexts(old(ds)@) + override_name_issues(*key, props.entry_seq()),
{
    let ghost base = dtexts(ds@);
    let ghost s = props.entry_seq();
    let n = props.len();
    let mut i: usize = 0;
    assert(s.take(0) =~= Seq::<(String, PropertyValue)>::empty());
    assert(dtexts(ds@) =~= base + override_name_issues(*key, s.take(0)));
    while i < n
        invariant
            n == s.len(),
            s == props.entry_seq(),
            i <= n,
            dtexts(ds@) == base + override_name_issues(*key, s.take(i as int)),
        decreases n - i,
    {
        let ghost prior = override_name_issues(*key, s.take(i as int));
        let bad = !crate::engine::is_valid_field_name(props.key_at(i).as_str());
        let d = node_diagnostic(
            "DESIGN_PROPERTY_INVALID",
            "a responsive property name must contain 1..=128 safe bytes",
            key,
        );
        let ghost t = dtext(d);
        push_when(ds, bad, d);
        proof {
            assert(s.take(i + 1).drop_last() =~= s.take(i as int));
            assert(s.take(i + 1).last() == s[i as int]);
            lemma_text_assoc(base, prior, one_if(bad, t));
        }
        i = i + 1;
    }
    assert(s.take(n as int) =~= s);
}

fn check_node_overrides(ds: &mut Vec<DesignerDiagnostic>, design: &StudioDesign, key: &NodeId, node: &crate::model::DesignNode)
    ensures
        dtexts(final(ds)@) == dtexts(old(ds)@) + overrides_issues(design, *key, node.responsive_overrides.entry_seq()),
{
    let ghost base = dtexts(ds@);
    let ghost s = node.responsive_overrides.entry_seq();
    let n = node.responsive_overrides.len();
    let mut i: usize = 0;
    assert(s.take(0) =~= Seq::<(crate::ids::ResponsiveVariantId, ResponsiveNodeOverride)>::empty());
    assert(dtexts(ds@) =~= base + overrides_issues(design, *key, s.take(0)));
    while i < n
        invariant
            n == s.len(),
            s == node.responsive_overrides.entry_seq(),
            i <= n,
            dtexts(ds@) == base + overrides_issues(design, *key, s.take(i as int)),
        decreases n - i,
    {
        let ghost prior = overrides_issues(design, *key, s.take(i as int));
        let ghost mid = dtexts(ds@);
        let variant_id = node.responsive_overrides.key_at(i);
        let o = node.responsive_overrides.value_at(i);
        if !design.responsive_variants.contains_key(variant_id.as_str()) {
            push_text(
                ds,
                node_diagnostic("DESIGN_RESPONSIVE_INVALID", "a responsive override references an unknown variant", key),
            );
        } else {
            let ghost p = override_problem(design, *key, *o);
            let r = validate_responsive_override(design, key, o);
            push_problem(ds, r, Ghost(p));
        }
        let ghost first = if !design.responsive_variants@.contains_key(s[i as int].0@) {
            seq![ptext(at("DESIGN_RESPONSIVE_INVALID"@, "a responsive override references an unknown variant"@, *key))]
        } else {
            opt_problem(override_problem(design, *key, s[i as int].1))
        };
        assert(dtexts(ds@) =~= mid + first);
        check_override_names(ds, key, &o.properties);
        proof {
            let names = override_name_issues(*key, s[i as int].1.properties.entry_seq());
            lemma_text_assoc(mid, first, names);
            lemma_text_assoc(base, prior, first + names);
            assert(s.take(i + 1).drop_last() =~= s.take(i as int));
            assert(s.take(i + 1).last() == s[i as int]);
        }
        i = i + 1;
    }
    assert(s.take(n as int) =~= s);
}

fn prefixed_message(name: &str, message: &str) -> (r: String)
    ensures
        r@ == "invalid node property "@ + name@ + ": "@ + message@,
{
    let mut m = String::from_str("invalid node property ");
    m.append(name);
    m.append(": ");
    m.append(message);
    m
}

fn check_properties(ds: &mut Vec<DesignerDiagnostic>, design: &StudioDesign, key: &NodeId, props: &OrderedMap<String, PropertyValue>)
    ensures
        dtexts(final(ds)@) == dtexts(old(ds)@) + properties_issues(design, *key, props.entry_seq()),
{
    let ghost base = dtexts(ds@);
    let ghost s = props.entry_seq();
    let n = props.len();
    let mut i: usize = 0;
    assert(s.take(0) =~= Seq::<(String, PropertyValue)>::empty());
    assert(dtexts(ds@) =~= base + properties_issues(design, *key, s.take(0)));
    while i < n
        invariant
            n == s.len(),
            s == props.entry_seq(),
            i <= n,
            dtexts(ds@) == base + properties_issues(design, *key, s.take(i as int)),
        decreases n - i,
    {
        let ghost prior = properties_issues(design, *key, s.take(i as int));
        let name = props.key_at(i);
        let ghost piece = match value_problem(design, s[i as int].1, Some(*key)) {
            Some(p) => seq![property_text(s[i as int].0@, p)],
            None => Seq::<DiagText>::empty(),
        };
        match validate_property_value(design, props.value_at(i), Some(key)) {
            Err(e) => {
                let d = DesignerDiagnostic {
                    code: e.code,
                    severity: e.severity,
                    message: prefixed_message(name.as_str(), e.message.as_str()),
                    node_id: e.node_id,
                    interaction_id: e.interaction_id,
                    collection_id: e.collection_id,
                    binding_id: e.binding_id,
                    form_id: e.form_id,
                    record_id: e.record_id,
                };
                push_text(ds, d);
                assert(dtexts(ds@) =~= base + prior + piece);
            },
            Ok(()) => {
                assert(dtexts(ds@) =~= base + prior + piece);
            },
        }
        proof {
            lemma_text_assoc(base, prior, piece);
            assert(s.take(i + 1).drop_last() =~= s.take(i as int));
            assert(s.take(i + 1).last() == s[i as int]);
        }
        i = i + 1;
    }
    assert(s.take(n as int) =~= s);
}

fn some_interaction_unknown(design: &StudioDesign, ids: &Vec<crate::ids::InteractionId>) -> (r: bool)
    ensures
        r == exists|i: int| 0 <= i < ids@.len() && !design.interactions@.contains_key((#[trigger] ids@[i])@),
{
    let mut i: usize = 0;
    while i < ids.len()
        invariant
            i <= ids@.len(),
            forall|j: int| 0 <= j < i ==> design.interactions@.contains_key((#[trigger] ids@[j])@),
        decreases ids@.len() - i,
    {
        if !design.interactions.contains_key(ids[i].as_str()) {
            return true;
        }
        i = i + 1;
    }
    false
}

fn check_sources(ds: &mut Vec<DesignerDiagnostic>, design: &StudioDesign, key: &NodeId, ids: &Vec<crate::ids::InteractionId>)
    ensures
        dtexts(final(ds)@) == dtexts(old(ds)@) + source_issues(design, *key, ids@),
{
    let ghost base = dtexts(ds@);
    let n = ids.len();
    let mut i: usize = 0;
    assert(ids@.take(0) =~= Seq::<crate::ids::InteractionId>::empty());
    assert(dtexts(ds@) =~= base + source_issues(design, *key, ids@.take(0)));
    while i < n
        invariant
            n == ids@.len(),
            i <= n,
            dtexts(ds@) == base + source_issues(design, *key, ids@.take(i as int)),
        decreases n - i,
    {
        let ghost prior = source_issues(design, *key, ids@.take(i as int));
        let bad = match design.interactions.get(ids[i].as_str()) {
            Some(interaction) => !interaction.source.node_id.same(key),
            None => false,
        };
        let d = node_diagnostic(
            "DESIGN_INTERACTION_SOURCE_INVALID",
            "a node interaction attachment does not match the interaction source",
            key,
        );
        let ghost t = dtext(d);
        push_when(ds, bad, d);
        proof {
            assert(ids@.take(i + 1).drop_last() =~= ids@.take(i as int));
            assert(ids@.take(i + 1).last() == ids@[i as int]);
            lemma_text_assoc(base, prior, one_if(bad, t));
        }
        i = i + 1;
    }
    assert(ids@.take(n as int) =~= ids@);
}

/// Check one node of a design under its key.
pub fn check_node(design: &StudioDesign, key: &NodeId, node: &crate::model::DesignNode) -> (r: Vec<DesignerDiagnostic>)
    ensures
        dtexts(r@) == node_issue(design, *key, *node),
{
    let mut ds: Vec<DesignerDiagnostic> = Vec::new();
    assert(dtexts(ds@) =~= Seq::<DiagText>::empty());
    let schema_bad = node.schema_version != STUDIO_DESIGN_SCHEMA_VERSION || node.layout.schema_version
        != STUDIO_DESIGN_SCHEMA_VERSION || node.style.schema_version != STUDIO_DESIGN_SCHEMA_VERSION
        || node.accessibility.schema_version != STUDIO_DESIGN_SCHEMA_VERSION || !node.id.same(key);
    push_when(
        &mut ds,
        schema_bad,
        node_diagnostic("DESIGN_NODE_SCHEMA_INVALID", "a node identity or nested schema version is invalid", key),
    );
    push_when(
        &mut ds,
        children_repeated(&node.children),
        node_diagnostic("DESIGN_CHILD_DUPLICATE", "a node child list contains a duplicate identity", key),
    );
    check_children(&mut ds, design, key, &node.children);
    check_instance(&mut ds, design, key, node);
    check_node_overrides(&mut ds, design, key, node);
    let ghost ls = layout_style_problem(design, node.layout, node.style, *key);
    let r = validate_layout_style(design, &node.layout, &node.style, key);
    push_problem(&mut ds, r, Ghost(ls));
    check_properties(&mut ds, design, key, &node.properties);
    push_when(
        &mut ds,
        some_interaction_unknown(design, &node.interaction_ids),
        node_diagnostic("DESIGN_INTERACTION_MISSING", "a node references an unknown interaction", key),
    );
    check_sources(&mut ds, design, key, &node.interaction_ids);
    push_when(
        &mut ds,
        parent_chain_cycles(design, key),
        node_diagnostic("DESIGN_PARENT_CYCLE", "the parent index contains a cycle", key),
    );
    ds
}

/// The problems of a sequence of nodes, in order.
pub open spec fn nodes_issues(design: &StudioDesign, s: Seq<(NodeId, crate::model::DesignNode)>) -> Seq<DiagText>
    decreases s.len(),
{
    if s.len() == 0 {
        Seq::empty()
    } else {
        nodes_issues(design, s.drop_last()) + node_issue(design, s.last().0, s.last().1)
    }
}

fn check_nodes(design: &StudioDesign) -> (r: Vec<DesignerDiagnostic>)
    ensures
        dtexts(r@) == nodes_issues(design, design.nodes.entry_seq()),
{
    let ghost entries = design.nodes.entry_seq();
    let mut ds: Vec<DesignerDiagnostic> = Vec::new();
    let n = design.nodes.len();
    let mut i: usize = 0;
    assert(entries.take(0) =~= Seq::<(NodeId, crate::model::DesignNode)>::empty());
    assert(dtexts(ds@) =~= Seq::<DiagText>::empty());
    while i < n
        invariant
            n == entries.len(),
            entries == design.nodes.entry_seq(),
            i <= n,
            dtexts(ds@) == nodes_issues(design, entries.take(i as int)),
        decreases n - i,
    {
        let more = check_node(design, design.nodes.key_at(i), design.nodes.value_at(i));
        append_texts(&mut ds, more);
        assert(entries.take(i + 1).drop_last() =~= entries.take(i as int));
        assert(entries.take(i + 1).last() == entries[i as int]);
        i = i + 1;
    }
    assert(entries.take(n as int) =~= entries);
    ds
}

/// The optional view as a sequence of zero or one texts.
pub open spec fn opt_view(v: Option<DiagView>) -> Seq<DiagText> {
    match v {
        Some(x) => seq![vtext(x)],
        None => Seq::empty(),
    }
}

/// The error-severity entries of a sequence of texts.
pub open spec fn errors_only(ts: Seq<DiagText>) -> Seq<DiagText>
    decreases ts.len(),
{
    if ts.len() == 0 {
        Seq::empty()
    } else {
        errors_only(ts.drop_last()) + if ts.last().1 == DiagnosticSeverity::Error {
            seq![ts.last()]
        } else {
            Seq::empty()
        }
    }
}

/// The error-severity entries of a sequence of texts, linked to a collection.
pub open spec fn errors_for_collection(ts: Seq<DiagText>, c: Seq<char>) -> Seq<DiagText>
    decreases ts.len(),
{
    if ts.len() == 0 {
        Seq::empty()
    } else {
        let t = ts.last();
        errors_for_collection(ts.drop_last(), c) + if t.1 == DiagnosticSeverity::Error {
            seq![(t.0, t.1, t.2, t.3, t.4, Some(c), t.6, t.7, t.8)]
        } else {
            Seq::empty()
        }
    }
}

fn append_errors(ds: &mut Vec<DesignerDiagnostic>, more: Vec<DesignerDiagnostic>)
    ensures
        dtexts(final(ds)@) == dtexts(old(ds)@) + errors_only(dtexts(more@)),
{
    let ghost base = dtexts(ds@);
    let ghost all = dtexts(more@);
    let mut more = more;
    let n = more.len();
    let mut i: usize = 0;
    let ghost src = more@;
    assert(all.take(0) =~= Seq::<DiagText>::empty());
    assert(dtexts(ds@) =~= base + errors_only(all.take(0)));
    while i < n
        invariant
            n == src.len(),
            all == dtexts(src),
            i <= n,
            more@.len() == n - i,
            forall|j: int| 0 <= j < more@.len() ==> more@[j] == src[i + j],
            dtexts(ds@) == base + errors_only(all.take(i as int)),
        decreases n - i,
    {
        let d = more.remove(0);
        let ghost prior = errors_only(all.take(i as int));
        let ghost piece = if all[i as int].1 == DiagnosticSeverity::Error {
            seq![all[i as int]]
        } else {
            Seq::<DiagText>::empty()
        };
        if d.severity == DiagnosticSeverity::Error {
            push_text(ds, d);
        }
        assert(dtexts(ds@) =~= (base + prior) + piece);
        proof {
            lemma_text_assoc(base, prior, piece);
            assert(all.take(i + 1).drop_last() =~= all.take(i as int));
            assert(all.take(i + 1).last() == all[i as int]);
        }
        i = i + 1;
    }
    assert(all.take(n as int) =~= all);
}

fn append_collection_errors(ds: &mut Vec<DesignerDiagnostic>, more: Vec<DesignerDiagnostic>, c: &crate::ids::CollectionId)
    ensures
        dtexts(final(ds)@) == dtexts(old(ds)@) + errors_for_collection(dtexts(more@), c@),
{
    let ghost base = dtexts(ds@);
    let ghost all = dtexts(more@);
    let mut more = more;
    let n = more.len();
    let mut i: usize = 0;
    let ghost src = more@;
    assert(all.take(0) =~= Seq::<DiagText>::empty());
    assert(dtexts(ds@) =~= base + errors_for_collection(all.take(0), c@));
    while i < n
        invariant
            n == src.len(),
            all == dtexts(src),
            i <= n,
            more@.len() == n - i,
            forall|j: int| 0 <= j < more@.len() ==> more@[j] == src[i + j],
            dtexts(ds@) == base + errors_for_collection(all.take(i as int), c@),
        decreases n - i,
    {
        let d = more.remove(0);
        let ghost prior = errors_for_collection(all.take(i as int), c@);
        let ghost t = all[i as int];
        let ghost piece = if t.1 == DiagnosticSeverity::Error {
            seq![(t.0, t.1, t.2, t.3, t.4, Some(c@), t.6, t.7, t.8)]
        } else {
            Seq::<DiagText>::empty()
        };
        if d.severity == DiagnosticSeverity::Error {
            let linked = DesignerDiagnostic {
                code: d.code,
                severity: d.severity,
                message: d.message,
                node_id: d.node_id,
                interaction_id: d.interaction_id,
                collection_id: Some(c.copy()),
                binding_id: d.binding_id,
                form_id: d.form_id,
                record_id: d.record_id,
            };
            push_text(ds, linked);
        }
        assert(dtexts(ds@) =~= (base + prior) + piece);
        proof {
            lemma_text_assoc(base, prior, piece);
            assert(all.take(i + 1).drop_last() =~= all.take(i as int));
            assert(all.take(i + 1).last() == all[i as int]);
        }
        i = i + 1;
    }
    assert(all.take(n as int) =~= all);
}

/// The token record problems, in token order.
pub open spec fn tokens_issues(s: Seq<(crate::ids::TokenId, crate::model::DesignToken)>) -> Seq<DiagText>
    decreases s.len(),
{
    if s.len() == 0 {
        Seq::empty()
    } else {
        tokens_issues(s.drop_last()) + token_issue(s.last().0, s.last().1)
    }
}

/// The problems of one token record under its key.
#[verifier::opaque]
pub open spec fn token_issue(k: crate::ids::TokenId, t: crate::model::DesignToken) -> Seq<DiagText> {
    if t.schema_version != STUDIO_DESIGN_SCHEMA_VERSION || t.id@ != k@ {
        seq![plain("DESIGN_TOKEN_INVALID"@, "a token identity or schema version is invalid"@)]
    } else {
        opt_view(crate::engine::token_error(t))
    }
}

fn check_token(ds: &mut Vec<DesignerDiagnostic>, key: &crate::ids::TokenId, t: &crate::model::DesignToken)
    ensures
        dtexts(final(ds)@) == dtexts(old(ds)@) + token_issue(*key, *t),
{
    reveal(token_issue);
    if t.schema_version != STUDIO_DESIGN_SCHEMA_VERSION || !t.id.same(key) {
        push_text(ds, diagnostic("DESIGN_TOKEN_INVALID", "a token identity or schema version is invalid", None));
    } else {
        match crate::engine::validate_token(t) {
            Err(d) => push_text(ds, d),
            Ok(()) => {},
        }
    }
    assert(dtexts(ds@) =~= dtexts(old(ds)@) + token_issue(*key, *t));
}

fn check_tokens(design: &StudioDesign) -> (r: Vec<DesignerDiagnostic>)
    ensures
        dtexts(r@) == tokens_issues(design.tokens.entry_seq()),
{
    let ghost entries = design.tokens.entry_seq();
    let mut ds: Vec<DesignerDiagnostic> = Vec::new();
    let n = design.tokens.len();
    let mut i: usize = 0;
    assert(entries.take(0) =~= Seq::<(crate::ids::TokenId, crate::model::DesignToken)>::empty());
    assert(dtexts(ds@) =~= Seq::<DiagText>::empty());
    while i < n
        invariant
            n == entries.len(),
            entries == design.tokens.entry_seq(),
            i <= n,
            dtexts(ds@) == tokens_issues(entries.take(i as int)),
        decreases n - i,
    {
        check_token(&mut ds, design.tokens.key_at(i), design.tokens.value_at(i));
        assert(entries.take(i + 1).drop_last() =~= entries.take(i as int));
        assert(entries.take(i + 1).last() == entries[i as int]);
        i = i + 1;
    }
    assert(entries.take(n as int) =~= entries);
    ds
}

/// The device profile variant problems, in variant order.
pub open spec fn variants_issues(s: Seq<(crate::ids::ResponsiveVariantId, crate::model::ResponsiveVariant)>) -> Seq<DiagText>
    decreases s.len(),
{
    if s.len() == 0 {
        Seq::empty()
    } else {
        variants_issues(s.drop_last()) + variant_issue(s.last().0, s.last().1)
    }
}

/// The problems of one device profile variant under its key.
#[verifier::opaque]
pub open spec fn variant_issue(k: crate::ids::ResponsiveVariantId, v: crate::model::ResponsiveVariant) -> Seq<DiagText> {
    if v.schema_version != STUDIO_DESIGN_SCHEMA_VERSION || v.id@ != k@ {
        seq![plain(
            "DESIGN_RESPONSIVE_INVALID"@,
            "a responsive variant identity, bounds, or schema version is invalid"@,
        )]
    } else {
        opt_view(crate::engine::variant_error(v))
    }
}

fn check_variant(ds: &mut Vec<DesignerDiagnostic>, key: &crate::ids::ResponsiveVariantId, v: &crate::model::ResponsiveVariant)
    ensures
        dtexts(final(ds)@) == dtexts(old(ds)@) + variant_issue(*key, *v),
{
    reveal(variant_issue);
    if v.schema_version != STUDIO_DESIGN_SCHEMA_VERSION || !v.id.same(key) {
        push_text(
            ds,
            diagnostic("DESIGN_RESPONSIVE_INVALID", "a responsive variant identity, bounds, or schema version is invalid", None),
        );
    } else {
        match crate::engine::validate_responsive_variant(v) {
            Err(d) => push_text(ds, d),
            Ok(()) => {},
        }
    }
    assert(dtexts(ds@) =~= dtexts(old(ds)@) + variant_issue(*key, *v));
}

fn check_variants(design: &StudioDesign) -> (r: Vec<DesignerDiagnostic>)
    ensures
        dtexts(r@) == variants_issues(design.responsive_variants.entry_seq()),
{
    let ghost entries = design.responsive_variants.entry_seq();
    let mut ds: Vec<DesignerDiagnostic> = Vec::new();
    let n = design.responsive_variants.len();
    let mut i: usize = 0;
    assert(entries.take(0) =~= Seq::<(crate::ids::ResponsiveVariantId, crate::model::ResponsiveVariant)>::empty());
    assert(dtexts(ds@) =~= Seq::<DiagText>::empty());
    while i < n
        invariant
            n == entries.len(),
            entries == design.responsive_variants.entry_seq(),
            i <= n,
            dtexts(ds@) == variants_issues(entries.take(i as int)),
        decreases n - i,
    {
        check_variant(&mut ds, design.responsive_variants.key_at(i), design.responsive_variants.value_at(i));
        assert(entries.take(i + 1).drop_last() =~= entries.take(i as int));
        assert(entries.take(i + 1).last() == entries[i as int]);
        i = i + 1;
    }
    assert(entries.take(n as int) =~= entries);
    ds
}

/// The interaction record problems, in interaction order.
pub open spec fn interactions_issues(design: &StudioDesign, s: Seq<(crate::ids::InteractionId, crate::model::Interaction)>) -> Seq<DiagText>
    decreases s.len(),
{
    if s.len() == 0 {
        Seq::empty()
    } else {
        let (k, it) = s.last();
        interactions_issues(design, s.drop_last()) + if it.schema_version != STUDIO_DESIGN_SCHEMA_VERSION || it.id@
            != k@ {
            seq![plain("DESIGN_INTERACTION_INVALID"@, "an interaction identity or schema version is invalid"@)]
        } else {
            match crate::engine::interaction_problem(design, it) {
                Some(p) => seq![vtext(crate::engine::interaction_view(p.0, p.1, it.id))],
                None => Seq::empty(),
            }
        }
    }
}

fn check_interactions(design: &StudioDesign) -> (r: Vec<DesignerDiagnostic>)
    ensures
        dtexts(r@) == interactions_issues(design, design.interactions.entry_seq()),
{
    let ghost entries = design.interactions.entry_seq();
    let mut ds: Vec<DesignerDiagnostic> = Vec::new();
    let n = design.interactions.len();
    let mut i: usize = 0;
    assert(entries.take(0) =~= Seq::<(crate::ids::InteractionId, crate::model::Interaction)>::empty());
    assert(dtexts(ds@) =~= Seq::<DiagText>::empty());
    while i < n
        invariant
            n == entries.len(),
            entries == design.interactions.entry_seq(),
            i <= n,
            dtexts(ds@) == interactions_issues(design, entries.take(i as int)),
        decreases n - i,
    {
        let key = design.interactions.key_at(i);
        let it = design.interactions.value_at(i);
        if it.schema_version != STUDIO_DESIGN_SCHEMA_VERSION || !it.id.same(key) {
            push_text(
                &mut ds,
                diagnostic("DESIGN_INTERACTION_INVALID", "an interaction identity or schema version is invalid", None),
            );
        } else {
            match crate::engine::validate_interaction(design, it) {
                Err(d) => push_text(&mut ds, d),
                Ok(()) => {},
            }
        }
        assert(entries.take(i + 1).drop_last() =~= entries.take(i as int));
        assert(entries.take(i + 1).last() == entries[i as int]);
        assert(dtexts(ds@) =~= interactions_issues(design, entries.take(i + 1)));
        i = i + 1;
    }
    assert(entries.take(n as int) =~= entries);
    ds
}

/// The problems of records under their keys.
pub open spec fn records_issues(
    c: crate::model::ContentCollection,
    cid: crate::ids::CollectionId,
    s: Seq<(crate::ids::RecordId, crate::model::ContentRecord)>,
) -> Seq<DiagText>
    decreases s.len(),
{
    if s.len() == 0 {
        Seq::empty()
    } else {
        let (rid, r) = s.last();
        records_issues(c, cid, s.drop_last()) + one_if(
            r.id@ != rid@,
            (
                "CONTENT_RECORD_ID_MISMATCH"@,
                DiagnosticSeverity::Error,
                "a record identity does not match its map key"@,
                None,
                None,
                Some(cid@),
                None,
                None,
                Some(rid@),
            ),
        ) + vtexts(crate::content::record_issues(c, r))
    }
}

/// The problems of a fixture's edge records.
pub open spec fn edges_issues(c: crate::model::ContentCollection, s: Seq<crate::model::ContentRecord>) -> Seq<DiagText>
    decreases s.len(),
{
    if s.len() == 0 {
        Seq::empty()
    } else {
        edges_issues(c, s.drop_last()) + vtexts(crate::content::record_issues(c, s.last()))
    }
}

/// The problems of one collection under its key.
#[verifier::opaque]
pub open spec fn collection_issue(cid: crate::ids::CollectionId, c: crate::model::ContentCollection) -> Seq<DiagText> {
    one_if(
        c.schema_version != STUDIO_DESIGN_SCHEMA_VERSION || c.id@ != cid@,
        (
            "CONTENT_COLLECTION_SCHEMA_INVALID"@,
            DiagnosticSeverity::Error,
            "a collection identity or schema version is invalid"@,
            None,
            None,
            Some(cid@),
            None,
            None,
            None,
        ),
    ) + errors_for_collection(vtexts(crate::content::schema_issues(c.schema)), cid@) + errors_for_collection(
        vtexts(crate::content::fixture_issues(c.fixture)),
        cid@,
    ) + records_issues(c, cid, c.records.entry_seq()) + edges_issues(c, c.fixture.edge_records@)
}

fn check_records(ds: &mut Vec<DesignerDiagnostic>, c: &crate::model::ContentCollection, cid: &crate::ids::CollectionId)
    ensures
        dtexts(final(ds)@) == dtexts(old(ds)@) + records_issues(*c, *cid, c.records.entry_seq()),
{
    let ghost base = dtexts(ds@);
    let ghost s = c.records.entry_seq();
    let n = c.records.len();
    let mut i: usize = 0;
    assert(s.take(0) =~= Seq::<(crate::ids::RecordId, crate::model::ContentRecord)>::empty());
    assert(dtexts(ds@) =~= base + records_issues(*c, *cid, s.take(0)));
    while i < n
        invariant
            n == s.len(),
            s == c.records.entry_seq(),
            i <= n,
            dtexts(ds@) == base + records_issues(*c, *cid, s.take(i as int)),
        decreases n - i,
    {
        let ghost prior = records_issues(*c, *cid, s.take(i as int));
        let rid = c.records.key_at(i);
        let r = c.records.value_at(i);
        let d = DesignerDiagnostic {
            code: String::from_str("CONTENT_RECORD_ID_MISMATCH"),
            severity: DiagnosticSeverity::Error,
            message: String::from_str("a record identity does not match its map key"),
            node_id: None,
            interaction_id: None,
            collection_id: Some(cid.copy()),
            binding_id: None,
            form_id: None,
            record_id: Some(rid.copy()),
        };
        let ghost t = dtext(d);
        let mismatch = !r.id.same(rid);
        push_when(ds, mismatch, d);
        let more = crate::content::validate_record(c, r);
        let ghost m = dtexts(more@);
        proof {
            lemma_texts_of_views(more@);
        }
        append_texts(ds, more);
        proof {
            lemma_text_assoc(base, prior, one_if(mismatch, t));
            lemma_text_assoc(base, prior + one_if(mismatch, t), m);
            assert(s.take(i + 1).drop_last() =~= s.take(i as int));
            assert(s.take(i + 1).last() == s[i as int]);
        }
        i = i + 1;
    }
    assert(s.take(n as int) =~= s);
}

fn check_edges(ds: &mut Vec<DesignerDiagnostic>, c: &crate::model::ContentCollection)
    ensures
        dtexts(final(ds)@) == dtexts(old(ds)@) + edges_issues(*c, c.fixture.edge_records@),
{
    let ghost base = dtexts(ds@);
    let ghost s = c.fixture.edge_records@;
    let n = c.fixture.edge_records.len();
    let mut i: usize = 0;
    assert(s.take(0) =~= Seq::<crate::model::ContentRecord>::empty());
    assert(dtexts(ds@) =~= base + edges_issues(*c, s.take(0)));
    while i < n
        invariant
            n == s.len(),
            s == c.fixture.edge_records@,
            i <= n,
            dtexts(ds@) == base + edges_issues(*c, s.take(i as int)),
        decreases n - i,
    {
        let ghost prior = edges_issues(*c, s.take(i as int));
        let more = crate::content::validate_record(c, &c.fixture.edge_records[i]);
        let ghost m = dtexts(more@);
        proof {
            lemma_texts_of_views(more@);
        }
        append_texts(ds, more);
        proof {
            lemma_text_assoc(base, prior, m);
            assert(s.take(i + 1).drop_last() =~= s.take(i as int));
            assert(s.take(i + 1).last() == s[i as int]);
        }
        i = i + 1;
    }
    assert(s.take(n as int) =~= s);
}

fn check_collection(ds: &mut Vec<DesignerDiagnostic>, cid: &crate::ids::CollectionId, c: &crate::model::ContentCollection)
    ensures
        dtexts(final(ds)@) == dtexts(old(ds)@) + collection_issue(*cid, *c),
{
    reveal(collection_issue);
    let ghost base = dtexts(ds@);
    let d = DesignerDiagnostic {
        code: String::from_str("CONTENT_COLLECTION_SCHEMA_INVALID"),
        severity: DiagnosticSeverity::Error,
        message: String::from_str("a collection identity or schema version is invalid"),
        node_id: None,
        interaction_id: None,
        collection_id: Some(cid.copy()),
        binding_id: None,
        form_id: None,
        record_id: None,
    };
    let ghost t = dtext(d);
    let bad = c.schema_version != STUDIO_DESIGN_SCHEMA_VERSION || !c.id.same(cid);
    push_when(ds, bad, d);
    let ghost a = one_if(bad, t);
    let schema = crate::content::validate_collection_schema(&c.schema);
    proof {
        lemma_texts_of_views(schema@);
    }
    let ghost b = errors_for_collection(dtexts(schema@), cid@);
    append_collection_errors(ds, schema, cid);
    let fixture = crate::content::validate_fixture(&c.fixture);
    proof {
        lemma_texts_of_views(fixture@);
    }
    let ghost f = errors_for_collection(dtexts(fixture@), cid@);
    append_collection_errors(ds, fixture, cid);
    let ghost before_records = dtexts(ds@);
    check_records(ds, c, cid);
    let ghost rr = records_issues(*c, *cid, c.records.entry_seq());
    check_edges(ds, c);
    let ghost ee = edges_issues(*c, c.fixture.edge_records@);
    proof {
        lemma_text_assoc(base, a, b);
        lemma_text_assoc(base, a + b, f);
        lemma_text_assoc(base, a + b + f, rr);
        lemma_text_assoc(base, a + b + f + rr, ee);
    }
}

/// The problems of collections in collection order.
pub open spec fn collections_issues(s: Seq<(crate::ids::CollectionId, crate::model::ContentCollection)>) -> Seq<DiagText>
    decreases s.len(),
{
    if s.len() == 0 {
        Seq::empty()
    } else {
        collections_issues(s.drop_last()) + collection_issue(s.last().0, s.last().1)
    }
}

fn check_collections(design: &StudioDesign) -> (r: Vec<DesignerDiagnostic>)
    ensures
        dtexts(r@) == collections_issues(design.collections.entry_seq()),
{
    let ghost entries = design.collections.entry_seq();
    let mut ds: Vec<DesignerDiagnostic> = Vec::new();
    let n = design.collections.len();
    let mut i: usize = 0;
    assert(entries.take(0) =~= Seq::<(crate::ids::CollectionId, crate::model::ContentCollection)>::empty());
    assert(dtexts(ds@) =~= Seq::<DiagText>::empty());
    while i < n
        invariant
            n == entries.len(),
            entries == design.collections.entry_seq(),
            i <= n,
            dtexts(ds@) == collections_issues(entries.take(i as int)),
        decreases n - i,
    {
        check_collection(&mut ds, design.collections.key_at(i), design.collections.value_at(i));
        assert(entries.take(i + 1).drop_last() =~= entries.take(i as int));
        assert(entries.take(i + 1).last() == entries[i as int]);
        i = i + 1;
    }
    assert(entries.take(n as int) =~= entries);
    ds
}

/// The problems of one binding record under its key.
#[verifier::opaque]
pub open spec fn binding_issue(bid: crate::ids::BindingId, b: crate::model::ContentBinding) -> Seq<DiagText> {
    one_if(
        b.schema_version != STUDIO_DESIGN_SCHEMA_VERSION || b.id@ != bid@,
        (
            "CONTENT_BINDING_SCHEMA_INVALID"@,
            DiagnosticSeverity::Error,
            "a binding identity or schema version is invalid"@,
            Some(b.node_id@),
            None,
            Some(b.source.collection_id@),
            Some(bid@),
            None,
            None,
        ),
    ) + errors_only(vtexts(crate::content::binding_shape_issues(b)))
}

fn check_binding(ds: &mut Vec<DesignerDiagnostic>, bid: &crate::ids::BindingId, b: &crate::model::ContentBinding)
    ensures
        dtexts(final(ds)@) == dtexts(old(ds)@) + binding_issue(*bid, *b),
{
    reveal(binding_issue);
    let ghost base = dtexts(ds@);
    let d = DesignerDiagnostic {
        code: String::from_str("CONTENT_BINDING_SCHEMA_INVALID"),
        severity: DiagnosticSeverity::Error,
        message: String::from_str("a binding identity or schema version is invalid"),
        node_id: Some(b.node_id.copy()),
        interaction_id: None,
        collection_id: Some(b.source.collection_id.copy()),
        binding_id: Some(bid.copy()),
        form_id: None,
        record_id: None,
    };
    let ghost t = dtext(d);
    let bad = b.schema_version != STUDIO_DESIGN_SCHEMA_VERSION || !b.id.same(bid);
    push_when(ds, bad, d);
    let shape = crate::content::validate_binding_shape(b);
    proof {
        lemma_texts_of_views(shape@);
    }
    let ghost e = errors_only(dtexts(shape@));
    append_errors(ds, shape);
    proof {
        lemma_text_assoc(base, one_if(bad, t), e);
    }
}

/// The problems of binding records in binding order.
pub open spec fn bindings_issues(s: Seq<(crate::ids::BindingId, crate::model::ContentBinding)>) -> Seq<DiagText>
    decreases s.len(),
{
    if s.len() == 0 {
        Seq::empty()
    } else {
        bindings_issues(s.drop_last()) + binding_issue(s.last().0, s.last().1)
    }
}

fn check_bindings(design: &StudioDesign) -> (r: Vec<DesignerDiagnostic>)
    ensures
        dtexts(r@) == bindings_issues(design.bindings.entry_seq()),
{
    let ghost entries = design.bindings.entry_seq();
    let mut ds: Vec<DesignerDiagnostic> = Vec::new();
    let n = design.bindings.len();
    let mut i: usize = 0;
    assert(entries.take(0) =~= Seq::<(crate::ids::BindingId, crate::model::ContentBinding)>::empty());
    assert(dtexts(ds@) =~= Seq::<DiagText>::empty());
    while i < n
        invariant
            n == entries.len(),
            entries == design.bindings.entry_seq(),
            i <= n,
            dtexts(ds@) == bindings_issues(entries.take(i as int)),
        decreases n - i,
    {
        check_binding(&mut ds, design.bindings.key_at(i), design.bindings.value_at(i));
        assert(entries.take(i + 1).drop_last() =~= entries.take(i as int));
        assert(entries.take(i + 1).last() == entries[i as int]);
        i = i + 1;
    }
    assert(entries.take(n as int) =~= entries);
    ds
}

/// The problems of one form under its key.
#[verifier::opaque]
pub open spec fn form_issue(fid: crate::ids::FormId, f: crate::model::FormDefinition) -> Seq<DiagText> {
    one_if(
        f.schema_version != STUDIO_DESIGN_SCHEMA_VERSION || f.id@ != fid@,
        (
            "FORM_SCHEMA_INVALID"@,
            DiagnosticSeverity::Error,
            "a form identity or schema version is invalid"@,
            None,
            None,
            id_text(f.target_collection_id),
            None,
            Some(fid@),
            None,
        ),
    ) + errors_only(vtexts(crate::content::form_shape_issues(f, crate::content::pattern_validity(f))))
}

fn check_form(ds: &mut Vec<DesignerDiagnostic>, fid: &crate::ids::FormId, f: &crate::model::FormDefinition)
    ensures
        dtexts(final(ds)@) == dtexts(old(ds)@) + form_issue(*fid, *f),
{
    reveal(form_issue);
    let ghost base = dtexts(ds@);
    let d = DesignerDiagnostic {
        code: String::from_str("FORM_SCHEMA_INVALID"),
        severity: DiagnosticSeverity::Error,
        message: String::from_str("a form identity or schema version is invalid"),
        node_id: None,
        interaction_id: None,
        collection_id: crate::ids::copy_opt_id(&f.target_collection_id),
        binding_id: None,
        form_id: Some(fid.copy()),
        record_id: None,
    };
    let ghost t = dtext(d);
    let bad = f.schema_version != STUDIO_DESIGN_SCHEMA_VERSION || !f.id.same(fid);
    push_when(ds, bad, d);
    let shape = crate::content::validate_form_shape(f);
    proof {
        lemma_texts_of_views(shape@);
    }
    let ghost e = errors_only(dtexts(shape@));
    append_errors(ds, shape);
    proof {
        lemma_text_assoc(base, one_if(bad, t), e);
    }
}

/// The problems of forms in form order.
pub open spec fn forms_issues(s: Seq<(crate::ids::FormId, crate::model::FormDefinition)>) -> Seq<DiagText>
    decreases s.len(),
{
    if s.len() == 0 {
        Seq::empty()
    } else {
        forms_issues(s.drop_last()) + form_issue(s.last().0, s.last().1)
    }
}

fn check_forms(design: &StudioDesign) -> (r: Vec<DesignerDiagnostic>)
    ensures
        dtexts(r@) == forms_issues(design.forms.entry_seq()),
{
    let ghost entries = design.forms.entry_seq();
    let mut ds: Vec<DesignerDiagnostic> = Vec::new();
    let n = design.forms.len();
    let mut i: usize = 0;
    assert(entries.take(0) =~= Seq::<(crate::ids::FormId, crate::model::FormDefinition)>::empty());
    assert(dtexts(ds@) =~= Seq::<DiagText>::empty());
    while i < n
        invariant
            n == entries.len(),
            entries == design.forms.entry_seq(),
            i <= n,
            dtexts(ds@) == forms_issues(entries.take(i as int)),
        decreases n - i,
    {
        check_form(&mut ds, design.forms.key_at(i), design.forms.value_at(i));
        assert(entries.take(i + 1).drop_last() =~= entries.take(i as int));
        assert(entries.take(i + 1).last() == entries[i as int]);
        i = i + 1;
    }
    assert(entries.take(n as int) =~= entries);
    ds
}

/// Every problem of a design, in reporting order: the document header, the
/// layout rules, screens, compositions, nodes, tokens, device profiles,
/// interactions, collections, bindings (their records, then their
/// references), and forms. `numbers` is the numeric reading of the design's
/// length text, as `layout_rules::validate_layout` takes it.
pub open spec fn design_issues(design: &StudioDesign, numbers: Map<Seq<char>, i64>) -> Seq<DiagText> {
    header_issues(design) + vtexts(crate::layout_rules::nodes_layout_issues(design, design.nodes.entry_seq(), numbers))
        + screens_issues(design, design.screens.entry_seq()) + compositions_issues(
        design,
        design.compositions.entry_seq(),
    ) + nodes_issues(design, design.nodes.entry_seq()) + tokens_issues(design.tokens.entry_seq()) + variants_issues(
        design.responsive_variants.entry_seq(),
    ) + interactions_issues(design, design.interactions.entry_seq()) + collections_issues(
        design.collections.entry_seq(),
    ) + bindings_issues(design.bindings.entry_seq()) + vtexts(
        crate::content::all_binding_issues(design, design.bindings.entry_seq()),
    ) + forms_issues(design.forms.entry_seq())
}

/// Validate a whole design; an empty result is a valid design.
pub fn validate_design(design: &StudioDesign, numbers: &OrderedMap<String, i64>) -> (r: Vec<DesignerDiagnostic>)
    ensures
        dtexts(r@) == design_issues(design, numbers@),
{
    let mut ds = check_header(design);
    let layout = crate::layout_rules::validate_layout(design, numbers);
    proof {
        lemma_texts_of_views(layout@);
    }
    append_texts(&mut ds, layout);
    append_texts(&mut ds, check_screens(design));
    append_texts(&mut ds, check_compositions(design));
    append_texts(&mut ds, check_nodes(design));
    append_texts(&mut ds, check_tokens(design));
    append_texts(&mut ds, check_variants(design));
    append_texts(&mut ds, check_interactions(design));
    append_texts(&mut ds, check_collections(design));
    append_texts(&mut ds, check_bindings(design));
    let refs = crate::content::binding_diagnostics(design);
    proof {
        lemma_texts_of_views(refs@);
    }
    append_texts(&mut ds, refs);
    append_texts(&mut ds, check_forms(design));
    ds
}

} // verus!
