//! Answers to the session's typed queries.
//!
//! A query reads the current snapshot, the history, the session state, the
//! profile matrix and the diagnostics the session holds. Lookups hand back
//! the stored values themselves, borrowed from what the session holds, so
//! that a caller that keeps one takes its own copy; derived reads (profile
//! resolution, previews, form validation, provenance, comparisons, node
//! diagnostics) are computed by the library's verified functions.
use vstd::prelude::*;
use vstd::string::StringExecFns;

use crate::content::{pattern_outcomes, preview_matches, result_matches, preview_collection, validate_form_values};
use crate::model::{
    node_layout_for, profile_variant, same_value_map, CollectionPreview, ContentBinding, ContentCollection, DesignNode, DesignToken, DesignerDiagnostic, FormDefinition,
    FixtureKind, FormValidationResult, PropertyValue, StudioDesign, StudioDesignSnapshot,
};
use crate::ordered_map::{MapKey, OrderedMap};
use crate::responsive::{
    CompareReport, DeviceProfileMatrix, PropertyProvenance, compare_profiles, compared, inspect_node, inspected, rows_by_key,
    profile_is, selected, standard_profile,
};
use crate::ids::{CollectionId, DeviceProfileId, FormId, NodeId, ResponsiveVariantId, TokenId};
use crate::session::{DesignerQuery, HistorySnapshot, SessionStateSnapshot};

verus! {

/// The answer to one typed query.
#[derive(Debug)]
pub enum DesignerQueryResult<'a> {
    Snapshot(&'a StudioDesignSnapshot),
    Node(Option<&'a DesignNode>),
    /// A node with its layout resolved for a profile.
    ProfileNode(Option<DesignNode>),
    Tokens(Vec<&'a DesignToken>),
    Token(Option<&'a DesignToken>),
    Collection(Option<&'a ContentCollection>),
    Collections(Vec<&'a ContentCollection>),
    Bindings(Vec<&'a ContentBinding>),
    Forms(Vec<&'a FormDefinition>),
    Preview(Option<CollectionPreview>),
    FormValidation(FormValidationResult),
    Diagnostics(Vec<DesignerDiagnostic>),
    History(&'a HistorySnapshot),
    SessionState(&'a SessionStateSnapshot),
    ResponsiveProfiles(DeviceProfileMatrix),
    ResponsiveInspector(Vec<PropertyProvenance>),
    ProfileComparison(CompareReport),
    /// Token usage and token value inspection are not answered.
    Unavailable,
}

/// Whether borrowed values are the values of a map, in key order.
pub open spec fn values_in_order<K: MapKey, V>(r: Seq<&V>, m: OrderedMap<K, V>) -> bool {
    &&& r.len() == m.entry_seq().len()
    &&& forall|i: int| 0 <= i < r.len() ==> *#[trigger] r[i] == m.entry_seq()[i].1
}

/// Whether a borrowed lookup is the value stored under a key.
pub open spec fn found_in<K: MapKey, V>(r: Option<&V>, m: OrderedMap<K, V>, key: Seq<char>) -> bool {
    match r {
        Some(v) => m@.contains_key(key) && *v == m@[key],
        None => !m@.contains_key(key),
    }
}

/// Whether a node is the stored node with its layout resolved for a profile.
pub open spec fn profile_node(design: &StudioDesign, node_id: NodeId, profile: Option<String>, r: Option<DesignNode>) -> bool {
    &&& (r is Some <==> design.nodes@.contains_key(node_id@))
    &&& r matches Some(n) ==> {
        let node = design.nodes@[node_id@];
        &&& n.layout == node_layout_for(node, match profile {
            Some(p) => profile_variant(design.responsive_variants.entry_seq(), p@),
            None => None,
        })
        &&& n.schema_version == node.schema_version
        &&& n.id == node.id
        &&& n.name@ == node.name@
        &&& n.children@ == node.children@
        &&& same_value_map(node.properties, n.properties)
        &&& n.style == node.style
        &&& n.interaction_ids@ == node.interaction_ids@
    }
}

/// Whether a matrix holds exactly the standard device profiles.
pub open spec fn standard_matrix(m: DeviceProfileMatrix) -> bool {
    &&& forall|k: Seq<char>| #[trigger] m.profiles@.contains_key(k) <==> exists|i: int| 0 <= i < 16 && k == #[trigger] standard_profile(i).0
    &&& forall|i: int| 0 <= i < 16 ==> m.profiles@.contains_key(#[trigger] standard_profile(i).0) && profile_is(m.profiles@[standard_profile(i).0], standard_profile(i))
}

/// The diagnostics that name a node, in order.
pub open spec fn for_node(ds: Seq<DesignerDiagnostic>, node: Seq<char>) -> Seq<DesignerDiagnostic>
    decreases ds.len(),
{
    if ds.len() == 0 {
        Seq::empty()
    } else if ds.last().node_id matches Some(n) && n@ == node {
        for_node(ds.drop_last(), node).push(ds.last())
    } else {
        for_node(ds.drop_last(), node)
    }
}

/// The diagnostics that name a node.
pub fn diagnostics_for_node(ds: &Vec<DesignerDiagnostic>, node_id: &NodeId) -> (r: Vec<DesignerDiagnostic>)
    ensures
        r@ == for_node(ds@, node_id@),
{
    let mut out: Vec<DesignerDiagnostic> = Vec::new();
    let mut i: usize = 0;
    while i < ds.len()
        invariant
            i <= ds@.len(),
            out@ == for_node(ds@.take(i as int), node_id@),
        decreases ds@.len() - i,
    {
        assert(ds@.take(i + 1).drop_last() =~= ds@.take(i as int));
        let hit = match &ds[i].node_id {
            Some(n) => n.same(node_id),
            None => false,
        };
        if hit {
            out.push(ds[i].copy());
        }
        i = i + 1;
    }
    assert(ds@.take(i as int) =~= ds@);
    out
}

fn copy_diagnostics(ds: &Vec<DesignerDiagnostic>) -> (r: Vec<DesignerDiagnostic>)
    ensures
        r@ == ds@,
{
    let mut out: Vec<DesignerDiagnostic> = Vec::new();
    let mut i: usize = 0;
    while i < ds.len()
        invariant
            i <= ds@.len(),
            out@ == ds@.take(i as int),
        decreases ds@.len() - i,
    {
        out.push(ds[i].copy());
        assert(out@ =~= ds@.take(i + 1));
        i = i + 1;
    }
    assert(ds@.take(i as int) =~= ds@);
    out
}

fn values_of<'a, K: MapKey, V>(m: &'a OrderedMap<K, V>) -> (r: Vec<&'a V>)
    ensures
        values_in_order(r@, *m),
{
    let mut out: Vec<&'a V> = Vec::new();
    let mut i: usize = 0;
    while i < m.len()
        invariant
            i <= m.entry_seq().len(),
            out@.len() == i,
            forall|j: int| 0 <= j < i ==> *#[trigger] out@[j] == m.entry_seq()[j].1,
        decreases m.entry_seq().len() - i,
    {
        out.push(m.value_at(i));
        i = i + 1;
    }
    out
}

fn preview_answer(design: &StudioDesign, collection_id: &CollectionId, fixture: Option<FixtureKind>) -> (r: Option<CollectionPreview>)
    ensures
        r is Some <==> design.collections@.contains_key(collection_id@),
        r matches Some(p) ==> {
            let c = design.collections@[collection_id@];
            preview_matches(c, match fixture {
                Some(k) => k,
                None => c.fixture.kind,
            }, p)
        },
{
    match design.collections.get(collection_id.as_str()) {
        Some(c) => Some(preview_collection(c, fixture)),
        None => None,
    }
}

fn form_answer(design: &StudioDesign, form_id: &FormId, values: &OrderedMap<String, PropertyValue>) -> (res: FormValidationResult)
    ensures
        if design.forms@.contains_key(form_id@) {
            let form = design.forms@[form_id@];
            result_matches(res, form, *values, pattern_outcomes(form, *values))
        } else {
            &&& !res.valid
            &&& res.field_errors@.dom() == set!["form"@]
            &&& res.field_errors@["form"@]@ == "the form does not exist"@
        },
{
    match design.forms.get(form_id.as_str()) {
        Some(form) => validate_form_values(form, values),
        None => {
            let mut field_errors: OrderedMap<String, String> = OrderedMap::new();
            field_errors.insert(String::from_str("form"), String::from_str("the form does not exist"));
            assert(field_errors@.dom() =~= set!["form"@]);
            FormValidationResult { valid: false, field_errors }
        },
    }
}

fn inspector_answer(design: &StudioDesign, profiles: &DeviceProfileMatrix, node_id: &NodeId, profile_id: &DeviceProfileId) -> (rows: Vec<PropertyProvenance>)
    ensures
        if design.nodes@.contains_key(node_id@) && profiles.profiles@.contains_key(profile_id@) {
            exists|variant: Option<ResponsiveVariantId>| #[trigger] selected(design, profiles.profiles@[profile_id@], variant)
                && inspected(rows@, design.nodes@[node_id@], variant)
        } else {
            rows@.len() == 0
        },
{
    match design.nodes.get(node_id.as_str()) {
        Some(node) => match profiles.profiles.get(profile_id.as_str()) {
            Some(profile) => inspect_node(design, node, profile),
            None => Vec::new(),
        },
        None => Vec::new(),
    }
}

/// Whether a node and two profiles all exist.
pub open spec fn found_all(design: &StudioDesign, profiles: &DeviceProfileMatrix, node_id: NodeId, left: DeviceProfileId, right: DeviceProfileId) -> bool {
    design.nodes@.contains_key(node_id@) && profiles.profiles@.contains_key(left@) && profiles.profiles@.contains_key(right@)
}

/// The comparison answer for a node and two profiles: the library's
/// comparison where all three exist, else an empty report naming them.
pub open spec fn compared_answer(
    design: &StudioDesign,
    profiles: &DeviceProfileMatrix,
    node_id: NodeId,
    left_profile_id: DeviceProfileId,
    right_profile_id: DeviceProfileId,
    report: CompareReport,
) -> bool {
    &&& (found_all(design, profiles, node_id, left_profile_id, right_profile_id) ==> {
            let node = design.nodes@[node_id@];
            let left = profiles.profiles@[left_profile_id@];
            let right = profiles.profiles@[right_profile_id@];
            &&& report.node_id == node.id
            &&& report.left_profile == left.id
            &&& report.right_profile == right.id
            &&& exists|ls: Seq<PropertyProvenance>, rs: Seq<PropertyProvenance>, lv: Option<ResponsiveVariantId>, rv: Option<ResponsiveVariantId>|
                #![trigger inspected(ls, node, lv), inspected(rs, node, rv)]
                selected(design, left, lv) && inspected(ls, node, lv) && selected(design, right, rv) && inspected(rs, node, rv)
                    && compared(report.differences@, rows_by_key(ls), rows_by_key(rs))
        })
    &&& (!found_all(design, profiles, node_id, left_profile_id, right_profile_id) ==> {
            &&& report.node_id == node_id
            &&& report.left_profile == left_profile_id
            &&& report.right_profile == right_profile_id
            &&& report.differences@.len() == 0
        })
}

fn comparison_answer(
    design: &StudioDesign,
    profiles: &DeviceProfileMatrix,
    node_id: &NodeId,
    left_profile_id: &DeviceProfileId,
    right_profile_id: &DeviceProfileId,
) -> (report: CompareReport)
    ensures
        compared_answer(design, profiles, *node_id, *left_profile_id, *right_profile_id, report),
{
    let found = match design.nodes.get(node_id.as_str()) {
        Some(node) => match profiles.profiles.get(left_profile_id.as_str()) {
            Some(left) => match profiles.profiles.get(right_profile_id.as_str()) {
                Some(right) => Some(compare_profiles(design, node, left, right)),
                None => None,
            },
            None => None,
        },
        None => None,
    };
    match found {
        Some(report) => report,
        None => CompareReport {
            node_id: node_id.copy(),
            left_profile: left_profile_id.copy(),
            right_profile: right_profile_id.copy(),
            differences: Vec::new(),
        },
    }
}

/// Answer one query. Lookups hand back the stored values themselves; the
/// profile node, form, preview, diagnostic, provenance and comparison
/// answers are exactly what the library computes for them; a missing form
/// is reported as an invalid submission of the form, and a provenance or
/// comparison read of a missing node or profile as empty.
pub fn query_result<'a>(
    snapshot: &'a StudioDesignSnapshot,
    history: &'a HistorySnapshot,
    session_state: &'a SessionStateSnapshot,
    profiles: &DeviceProfileMatrix,
    diagnostics: &Vec<DesignerDiagnostic>,
    query: &DesignerQuery,
) -> (r: DesignerQueryResult<'a>)
    ensures
        match *query {
            DesignerQuery::Snapshot => r == DesignerQueryResult::Snapshot(snapshot),
            DesignerQuery::Node { node_id } => r matches DesignerQueryResult::Node(o) && found_in(o, snapshot.design.nodes, node_id@),
            DesignerQuery::NodeForProfile { node_id, profile } => r matches DesignerQueryResult::ProfileNode(o)
                && profile_node(&snapshot.design, node_id, profile, o),
            DesignerQuery::Tokens => r matches DesignerQueryResult::Tokens(v) && values_in_order(v@, snapshot.design.tokens),
            DesignerQuery::Token { token_id } => r matches DesignerQueryResult::Token(o) && found_in(o, snapshot.design.tokens, token_id@),
            DesignerQuery::TokenUsages { .. } => r is Unavailable,
            DesignerQuery::NodeTokenValues { .. } => r is Unavailable,
            DesignerQuery::Collection { collection_id } => r matches DesignerQueryResult::Collection(o)
                && found_in(o, snapshot.design.collections, collection_id@),
            DesignerQuery::Collections => r matches DesignerQueryResult::Collections(v) && values_in_order(v@, snapshot.design.collections),
            DesignerQuery::Bindings => r matches DesignerQueryResult::Bindings(v) && values_in_order(v@, snapshot.design.bindings),
            DesignerQuery::Forms => r matches DesignerQueryResult::Forms(v) && values_in_order(v@, snapshot.design.forms),
            DesignerQuery::Preview { collection_id, fixture } => r matches DesignerQueryResult::Preview(o)
                && (o is Some <==> snapshot.design.collections@.contains_key(collection_id@))
                && (o matches Some(p) ==> {
                    let c = snapshot.design.collections@[collection_id@];
                    preview_matches(c, match fixture {
                        Some(k) => k,
                        None => c.fixture.kind,
                    }, p)
                }),
            DesignerQuery::ValidateForm { form_id, values } => r matches DesignerQueryResult::FormValidation(res) && if snapshot.design.forms@.contains_key(form_id@) {
                let form = snapshot.design.forms@[form_id@];
                result_matches(res, form, values, pattern_outcomes(form, values))
            } else {
                &&& !res.valid
                &&& res.field_errors@.dom() == set!["form"@]
                &&& res.field_errors@["form"@]@ == "the form does not exist"@
            },
            DesignerQuery::Diagnostics => r matches DesignerQueryResult::Diagnostics(v) && v@ == diagnostics@,
            DesignerQuery::DiagnosticsForNode { node_id } => r matches DesignerQueryResult::Diagnostics(v)
                && v@ == for_node(diagnostics@, node_id@),
            DesignerQuery::History => r == DesignerQueryResult::History(history),
            DesignerQuery::SessionState => r == DesignerQueryResult::SessionState(session_state),
            DesignerQuery::ResponsiveProfiles => r matches DesignerQueryResult::ResponsiveProfiles(m) && standard_matrix(m),
            DesignerQuery::ResponsiveInspector { node_id, profile_id } => r matches DesignerQueryResult::ResponsiveInspector(rows)
                && if snapshot.design.nodes@.contains_key(node_id@) && profiles.profiles@.contains_key(profile_id@) {
                exists|variant: Option<ResponsiveVariantId>| #[trigger] selected(
                    &snapshot.design,
                    profiles.profiles@[profile_id@],
                    variant,
                ) && inspected(rows@, snapshot.design.nodes@[node_id@], variant)
            } else {
                rows@.len() == 0
            },
            DesignerQuery::CompareProfiles { node_id, left_profile_id, right_profile_id } => r matches DesignerQueryResult::ProfileComparison(
                report,
            ) && compared_answer(&snapshot.design, profiles, node_id, left_profile_id, right_profile_id, report),
        },
{
    let design = &snapshot.design;
    match query {
        DesignerQuery::Snapshot => DesignerQueryResult::Snapshot(snapshot),
        DesignerQuery::Node { node_id } => DesignerQueryResult::Node(design.nodes.get(node_id.as_str())),
        DesignerQuery::NodeForProfile { node_id, profile } => DesignerQueryResult::ProfileNode(design.node_for_profile(
            node_id,
            match profile {
                Some(p) => Some(p.as_str()),
                None => None,
            },
        )),
        DesignerQuery::Tokens => DesignerQueryResult::Tokens(values_of(&design.tokens)),
        DesignerQuery::Token { token_id } => DesignerQueryResult::Token(design.tokens.get(token_id.as_str())),
        DesignerQuery::TokenUsages { .. } => DesignerQueryResult::Unavailable,
        DesignerQuery::NodeTokenValues { .. } => DesignerQueryResult::Unavailable,
        DesignerQuery::Collection { collection_id } => DesignerQueryResult::Collection(design.collections.get(collection_id.as_str())),
        DesignerQuery::Collections => DesignerQueryResult::Collections(values_of(&design.collections)),
        DesignerQuery::Bindings => DesignerQueryResult::Bindings(values_of(&design.bindings)),
        DesignerQuery::Forms => DesignerQueryResult::Forms(values_of(&design.forms)),
        DesignerQuery::Preview { collection_id, fixture } => DesignerQueryResult::Preview(preview_answer(design, collection_id, *fixture)),
        DesignerQuery::ValidateForm { form_id, values } => DesignerQueryResult::FormValidation(form_answer(design, form_id, values)),
        DesignerQuery::Diagnostics => DesignerQueryResult::Diagnostics(copy_diagnostics(diagnostics)),
        DesignerQuery::DiagnosticsForNode { node_id } => DesignerQueryResult::Diagnostics(
            diagnostics_for_node(diagnostics, node_id),
        ),
        DesignerQuery::History => DesignerQueryResult::History(history),
        DesignerQuery::SessionState => DesignerQueryResult::SessionState(session_state),
        DesignerQuery::ResponsiveProfiles => DesignerQueryResult::ResponsiveProfiles(DeviceProfileMatrix::standard()),
        DesignerQuery::ResponsiveInspector { node_id, profile_id } => DesignerQueryResult::ResponsiveInspector(
            inspector_answer(design, profiles, node_id, profile_id),
        ),
        DesignerQuery::CompareProfiles { node_id, left_profile_id, right_profile_id } => DesignerQueryResult::ProfileComparison(
            comparison_answer(design, profiles, node_id, left_profile_id, right_profile_id),
        ),
    }
}

} // verus!
