//! The command engine's dispatcher: one typed command applied to a design,
//! giving back the command that undoes it, or the diagnostic that refused it
//! with the design left as it was.
use vstd::prelude::*;

use crate::command::{Command, ParentPlacement};
use crate::compositions::{
    composition_in_use, composition_missing_view, composition_problem, composition_updated, define_composition,
    edited_map, input_edit_problem, input_edited, remove_composition, same_but_compositions, set_composition_input,
    update_composition,
};
use crate::content::{
    binding_shape_issues, diag_view, fixture_issues, form_shape_issues, pattern_validity, record_issues, schema_issues,
    valid_field_name,
};
use crate::content_commands::{
    bindings_without, collection_missing, collection_problem, collection_replaced, collection_view, create_collection,
    create_record, delete_collection, delete_record, edge_invalid, first_error, record_view, remove_binding, remove_form,
    same_but_bindings, same_but_collections, same_but_forms, same_but_records, schema_break, set_fixture,
    update_collection_schema, update_record, upsert_binding, upsert_form,
};
use crate::design_rules::override_problem;
use crate::engine::{
    attached, attachments_set, child_index_of, children_set, create_token, define_interaction, define_responsive_variant,
    define_token, design_has_token, detached, diagnostic, edit_token, error_view, ids, iids, interaction_problem,
    binding_bad, binding_problem, property_set, validate_binding, interaction_view, kind_accepts, lemma_first_position, lemma_property_write_undo, lemma_reorder_undo, missing_node_view, move_error, move_node, node_replaced, override_with_layout,
    remove_interaction, remove_responsive_layout, remove_responsive_variant, remove_token, rename_node, rename_token,
    reorder_error, reorder_node, reordered, reports, same_but_children, same_but_interactions, same_but_layout, same_but_name,
    same_but_nodes, same_but_overrides, same_but_properties, same_but_tokens, same_but_tree, same_but_variants,
    override_base, set_breakpoint_override, set_breakpoint_property, set_layout, set_property, set_responsive_layout, set_responsive_override, token_error, token_exists_message,
    token_missing_view, two_children_set, typed_layout_property, update_interaction, update_responsive_variant,
    update_token, valid_node_name, value_in, variant_error, variant_in_use, with_value,
};
use crate::ids::{BindingId, CollectionId, FormId, NodeId, RecordId};
use crate::model::{BindingPath, ContentCollection, ContentRecord, DiagnosticSeverity, LayoutProperties, StyleProperties, PropertyValue, DesignNode, DesignToken, DesignerDiagnostic, ResponsiveNodeOverride, STUDIO_DESIGN_SCHEMA_VERSION, StudioDesign};

verus! {

/// The override a boxed breakpoint override holds.
pub open spec fn unboxed_override(v: Option<Box<ResponsiveNodeOverride>>) -> Option<ResponsiveNodeOverride> {
    match v {
        Some(b) => Some(*b),
        None => None,
    }
}

/// The property value a binding writes.
pub open spec fn binding_value(binding: Option<BindingPath>) -> Option<PropertyValue> {
    match binding {
        Some(b) => Some(PropertyValue::Binding(b)),
        None => None,
    }
}

/// Set or clear a content binding on a node property: a malformed binding
/// is refused, otherwise the binding is written as the property's value.
pub fn set_binding(design: &mut StudioDesign, node_id: &NodeId, property: String, binding: Option<BindingPath>) -> (r: Result<Command, DesignerDiagnostic>)
    ensures
        (binding matches Some(b) && binding_bad(b)) ==> (r matches Err(d) && reports(d, binding_problem(node_id@)) && *final(design) == *old(design)),
        !(binding matches Some(b) && binding_bad(b)) ==> property_set(*old(design), *node_id, property@, binding_value(binding), *final(design), r),
{
    match &binding {
        Some(b) => match validate_binding(b, node_id) {
            Err(d) => {
                return Err(d);
            },
            Ok(()) => {},
        },
        None => {},
    }
    let value = match binding {
        Some(b) => Some(PropertyValue::Binding(b)),
        None => None,
    };
    set_property(design, node_id, property.as_str(), value)
}

/// Whether a command is one the engine has a handler for.
pub open spec fn handled(command: Command) -> bool {
    match command {
        Command::SetProperty { .. } | Command::RenameNode { .. } | Command::SetLayout { .. } | Command::SetResponsiveLayout { .. } | Command::RemoveResponsiveLayout { .. } | Command::ReorderNode { .. } | Command::MoveNode { .. } | Command::SetBreakpointOverride { .. } | Command::DefineResponsiveVariant { .. } | Command::UpdateResponsiveVariant { .. } | Command::RemoveResponsiveVariant { .. } | Command::DefineToken { .. } | Command::UpdateToken { .. } | Command::RemoveToken { .. } | Command::CreateToken { .. } | Command::EditToken { .. } | Command::RenameToken { .. } | Command::DefineInteraction { .. } | Command::UpdateInteraction { .. } | Command::RemoveInteraction { .. } | Command::DefineComposition { .. } | Command::UpdateComposition { .. } | Command::RemoveComposition { .. } | Command::SetCompositionInput { .. } | Command::SetBreakpointProperty { .. } | Command::SetResponsiveOverride { .. } | Command::CreateCollection { .. } | Command::UpdateCollectionSchema { .. } | Command::DeleteCollection { .. } | Command::CreateRecord { .. } | Command::UpdateRecord { .. } | Command::DeleteRecord { .. } | Command::SetFixture { .. } | Command::UpsertBinding { .. } | Command::RemoveBinding { .. } | Command::UpsertForm { .. } | Command::RemoveForm { .. } | Command::SetBinding { .. } | Command::SetCompositionOverride { .. } => true,
        _ => false,
    }
}

/// What applying one command does: `d0` is the design before, `d1` the
/// design after, and `r` the inverse command or the refusal. Each handled
/// command behaves as its handler states. Commands that work on the
/// snapshot's deletion tombstones (insert, delete, duplicate and restore of
/// nodes, composition instances), token application and overrides, token
/// deletion, screens, standalone tokens and canvas frames have no handler on
/// a design and are refused with the design unchanged.
#[verifier::opaque]
pub open spec fn command_applied(d0: StudioDesign, command: Command, d1: StudioDesign, r: Result<Command, DesignerDiagnostic>) -> bool {
    match command {
        Command::SetProperty { node_id, property, value } => {
            &&& (property_set(d0, node_id, property@, value, d1, r))
        },
        Command::RenameNode { node_id, name } => {
            &&& (!valid_node_name(name@) ==> (r matches Err(d) && diag_view(d) == error_view( "DESIGN_NODE_NAME_INVALID"@, "a node name must contain 1..=256 safe bytes"@, Some(node_id), )))
            &&& (valid_node_name(name@) && !(&d0).nodes@.contains_key(node_id@) ==> (r matches Err(d) && diag_view(d) == missing_node_view(node_id)))
            &&& (r is Ok <==> valid_node_name(name@) && (&d0).nodes@.contains_key(node_id@))
            &&& (r is Err ==> d1 == d0)
            &&& (r matches Ok(c) ==> { let before = (&d0).nodes@[node_id@]; let after = (&d1).nodes@[node_id@]; &&& c matches Command::RenameNode { node_id: n, name: prior } && n == node_id && prior == before.name &&& node_replaced(d0, d1, node_id@) &&& same_but_name(before, after) &&& after.name@ == name@ })
        },
        Command::SetLayout { node_id, layout } => {
            &&& (!(&d0).nodes@.contains_key(node_id@) ==> (r matches Err(d) && diag_view(d) == missing_node_view(node_id)))
            &&& (r is Ok <==> (&d0).nodes@.contains_key(node_id@))
            &&& (r is Err ==> d1 == d0)
            &&& (r matches Ok(c) ==> { let before = (&d0).nodes@[node_id@]; let after = (&d1).nodes@[node_id@]; &&& c == (Command::SetLayout { node_id: node_id, layout: before.layout }) &&& node_replaced(d0, d1, node_id@) &&& same_but_layout(before, after) &&& after.layout == layout })
        },
        Command::SetResponsiveLayout { node_id, variant_id, layout } => {
            &&& (!(&d0).responsive_variants@.contains_key(variant_id@) ==> (r matches Err(d) && diag_view(d) == error_view( "DESIGN_RESPONSIVE_VARIANT_MISSING"@, "the responsive layout references an unknown device profile"@, Some(node_id), )))
            &&& ((&d0).responsive_variants@.contains_key(variant_id@) && !(&d0).nodes@.contains_key( node_id@, ) ==> (r matches Err(d) && diag_view(d) == missing_node_view(node_id)))
            &&& (r is Ok <==> (&d0).responsive_variants@.contains_key(variant_id@) && (&d0).nodes@.contains_key(node_id@))
            &&& (r is Err ==> d1 == d0)
            &&& (r matches Ok(c) ==> { let before = (&d0).nodes@[node_id@]; let after = (&d1).nodes@[node_id@]; let o = after.responsive_overrides@[variant_id@]; &&& c == if before.responsive_overrides@.contains_key(variant_id@) { Command::SetResponsiveLayout { node_id: node_id, variant_id: variant_id, layout: before.responsive_overrides@[variant_id@].layout, } } else { Command::RemoveResponsiveLayout { node_id: node_id, variant_id: variant_id } } &&& node_replaced(d0, d1, node_id@) &&& same_but_overrides(before, after) &&& after.responsive_overrides@ == before.responsive_overrides@.insert(variant_id@, o) &&& override_with_layout(before.responsive_overrides@, variant_id@, o, layout) })
        },
        Command::RemoveResponsiveLayout { node_id, variant_id } => {
            &&& (!(&d0).nodes@.contains_key(node_id@) ==> (r matches Err(d) && diag_view(d) == missing_node_view(node_id)))
            &&& ((&d0).nodes@.contains_key(node_id@) && !(&d0).nodes@[node_id@].responsive_overrides@.contains_key( variant_id@, ) ==> (r matches Err(d) && diag_view(d) == error_view( "DESIGN_RESPONSIVE_LAYOUT_MISSING"@, "the responsive layout override does not exist"@, Some(node_id), )))
            &&& (r is Ok <==> (&d0).nodes@.contains_key(node_id@) && (&d0).nodes@[node_id@].responsive_overrides@.contains_key( variant_id@, ))
            &&& (r is Err ==> d1 == d0)
            &&& (r matches Ok(c) ==> { let before = (&d0).nodes@[node_id@]; let after = (&d1).nodes@[node_id@]; &&& c == (Command::SetResponsiveLayout { node_id: node_id, variant_id: variant_id, layout: before.responsive_overrides@[variant_id@].layout, }) &&& node_replaced(d0, d1, node_id@) &&& same_but_overrides(before, after) &&& after.responsive_overrides@ == before.responsive_overrides@.remove(variant_id@) })
        },
        Command::ReorderNode { node_id, index } => {
            &&& (match reorder_error((&d0), node_id, index) { Some(v) => r matches Err(d) && diag_view(d) == v && d1 == d0, None => r matches Ok(c) && { let p = (&d0).parents@[node_id@]->node_id@; let i = child_index_of((&d0), node_id@)->0; &&& c == (Command::ReorderNode { node_id: node_id, index: i as usize }) &&& same_but_nodes(d0, d1) &&& children_set( (&d0).nodes@, (&d1).nodes@, p, reordered(ids((&d0).nodes@[p].children@), i, index as int), ) }, })
        },
        Command::MoveNode { node_id, destination } => {
            &&& (match move_error((&d0), node_id, destination) { Some(v) => r matches Err(d) && diag_view(d) == v && d1 == d0, None => r matches Ok(c) && { let p = (&d0).parents@[node_id@]->node_id@; let q = destination.parent->node_id@; let i = child_index_of((&d0), node_id@)->0; let j = destination.index as int; &&& c == (Command::MoveNode { node_id: node_id, destination: ParentPlacement { parent: (&d0).parents@[node_id@], index: i as usize }, }) &&& same_but_tree(d0, d1) &&& (&d1).parents@ == (&d0).parents@.insert(node_id@, destination.parent) &&& if p == q { children_set( (&d0).nodes@, (&d1).nodes@, p, reordered(ids((&d0).nodes@[p].children@), i, j), ) } else { two_children_set( (&d0).nodes@, (&d1).nodes@, p, ids((&d0).nodes@[p].children@).remove(i), q, ids((&d0).nodes@[q].children@).insert(j, node_id@), ) } }, })
        },
        Command::SetBreakpointOverride { node_id, variant_id, value } => {
            &&& (!(&d0).responsive_variants@.contains_key(variant_id@) ==> (r matches Err(d) && diag_view(d) == error_view( "DESIGN_RESPONSIVE_VARIANT_MISSING"@, "the breakpoint override references an unknown responsive variant"@, Some(node_id), )))
            &&& ((&d0).responsive_variants@.contains_key(variant_id@) && (unboxed_override(value) matches Some(o) && o.schema_version != STUDIO_DESIGN_SCHEMA_VERSION) ==> (r matches Err(d) && diag_view(d) == error_view( "DESIGN_RESPONSIVE_INVALID"@, "a breakpoint override has an unsupported schema version"@, Some(node_id), )))
            &&& (r is Ok <==> (&d0).responsive_variants@.contains_key(variant_id@) && !(unboxed_override(value) matches Some(o) && o.schema_version != STUDIO_DESIGN_SCHEMA_VERSION) && (&d0).nodes@.contains_key(node_id@))
            &&& (r is Err ==> d1 == d0)
            &&& (r is Ok ==> { let before = (&d0).nodes@[node_id@]; let after = (&d1).nodes@[node_id@]; let prior = if before.responsive_overrides@.contains_key(variant_id@) { Some(before.responsive_overrides@[variant_id@]) } else { None }; &&& r matches Ok(Command::SetBreakpointOverride { node_id: n, variant_id: v, value: p }) && n == node_id && v == variant_id && match p { Some(b) => prior == Some(*b), None => prior is None, } &&& node_replaced(d0, d1, node_id@) &&& same_but_overrides(before, after) &&& after.responsive_overrides@ == match unboxed_override(value) { Some(o) => before.responsive_overrides@.insert(variant_id@, o), None => before.responsive_overrides@.remove(variant_id@), } })
        },
        Command::DefineResponsiveVariant { variant } => {
            &&& (match variant_error(variant) { Some(v) => r matches Err(d) && diag_view(d) == v, None => if (&d0).responsive_variants@.contains_key(variant.id@) { r matches Err(d) && diag_view(d) == error_view( "DESIGN_RESPONSIVE_EXISTS"@, "the responsive variant identity already exists"@, None, ) } else { &&& r == Ok::<Command, DesignerDiagnostic>( Command::RemoveResponsiveVariant { variant_id: variant.id }, ) &&& (&d1).responsive_variants@ == (&d0).responsive_variants@.insert( variant.id@, variant, ) &&& same_but_variants(d0, d1) }, })
            &&& (r is Err ==> d1 == d0)
        },
        Command::UpdateResponsiveVariant { variant } => {
            &&& (match variant_error(variant) { Some(v) => r matches Err(d) && diag_view(d) == v, None => if !(&d0).responsive_variants@.contains_key(variant.id@) { r matches Err(d) && diag_view(d) == error_view( "DESIGN_RESPONSIVE_MISSING"@, "the responsive variant does not exist"@, None, ) } else { &&& r == Ok::<Command, DesignerDiagnostic>( Command::UpdateResponsiveVariant { variant: (&d0).responsive_variants@[variant.id@], }, ) &&& (&d1).responsive_variants@ == (&d0).responsive_variants@.insert( variant.id@, variant, ) &&& same_but_variants(d0, d1) }, })
            &&& (r is Err ==> d1 == d0)
        },
        Command::RemoveResponsiveVariant { variant_id } => {
            &&& (!(&d0).responsive_variants@.contains_key(variant_id@) ==> (r matches Err(d) && diag_view(d) == error_view("DESIGN_RESPONSIVE_MISSING"@, "the responsive variant does not exist"@, None)))
            &&& ((&d0).responsive_variants@.contains_key(variant_id@) && variant_in_use((&d0), variant_id@) ==> (r matches Err(d) && diag_view(d) == error_view( "DESIGN_RESPONSIVE_IN_USE"@, "clear responsive overrides before removing the variant"@, None, )))
            &&& (r is Ok <==> (&d0).responsive_variants@.contains_key(variant_id@) && !variant_in_use( (&d0), variant_id@, ))
            &&& (r is Err ==> d1 == d0)
            &&& (r is Ok ==> { &&& r == Ok::<Command, DesignerDiagnostic>( Command::DefineResponsiveVariant { variant: (&d0).responsive_variants@[variant_id@] }, ) &&& (&d1).responsive_variants@ == (&d0).responsive_variants@.remove(variant_id@) &&& same_but_variants(d0, d1) })
        },
        Command::DefineToken { token } => {
            &&& (match token_error(token) { Some(v) => r matches Err(d) && diag_view(d) == v, None => if (&d0).tokens@.contains_key(token.id@) { r matches Err(d) && diag_view(d) == error_view( "DESIGN_TOKEN_EXISTS"@, "the token identity already exists"@, None, ) } else { &&& r == Ok::<Command, DesignerDiagnostic>(Command::RemoveToken { token_id: token.id }) &&& (&d1).tokens@ == (&d0).tokens@.insert(token.id@, token) &&& same_but_tokens(d0, d1) }, })
            &&& (r is Err ==> d1 == d0)
        },
        Command::UpdateToken { token } => {
            &&& (match token_error(token) { Some(v) => r matches Err(d) && diag_view(d) == v, None => if !(&d0).tokens@.contains_key(token.id@) { r matches Err(d) && diag_view(d) == error_view( "DESIGN_TOKEN_MISSING"@, "the token does not exist"@, None, ) } else { &&& r == Ok::<Command, DesignerDiagnostic>( Command::UpdateToken { token: (&d0).tokens@[token.id@] }, ) &&& (&d1).tokens@ == (&d0).tokens@.insert(token.id@, token) &&& same_but_tokens(d0, d1) }, })
            &&& (r is Err ==> d1 == d0)
        },
        Command::RemoveToken { token_id } => {
            &&& (!(&d0).tokens@.contains_key(token_id@) ==> (r matches Err(d) && diag_view(d) == error_view( "DESIGN_TOKEN_MISSING"@, "the token does not exist"@, None, )))
            &&& ((&d0).tokens@.contains_key(token_id@) && design_has_token((&d0), token_id@) ==> (r matches Err( d, ) && diag_view(d) == error_view( "DESIGN_TOKEN_IN_USE"@, "clear every token reference before removing the token"@, None, )))
            &&& (r is Ok <==> (&d0).tokens@.contains_key(token_id@) && !design_has_token((&d0), token_id@))
            &&& (r is Err ==> d1 == d0)
            &&& (r is Ok ==> { &&& r == Ok::<Command, DesignerDiagnostic>( Command::DefineToken { token: (&d0).tokens@[token_id@] }, ) &&& (&d1).tokens@ == (&d0).tokens@.remove(token_id@) &&& same_but_tokens(d0, d1) })
        },
        Command::CreateToken { token } => {
            &&& (match token_error((*token)) { Some(v) => r matches Err(d) && diag_view(d) == v, None => if (&d0).tokens@.contains_key((*token).id@) { r matches Err(d) && diag_view(d) == error_view( "DESIGN_TOKEN_EXISTS"@, token_exists_message((*token).id), None, ) } else { &&& r == Ok::<Command, DesignerDiagnostic>( Command::DeleteToken { token_id: (*token).id, confirm: true }, ) &&& (&d1).tokens@ == (&d0).tokens@.insert((*token).id@, (*token)) &&& same_but_tokens(d0, d1) }, })
            &&& (r is Err ==> d1 == d0)
        },
        Command::EditToken { token_id, value } => {
            &&& (!(&d0).tokens@.contains_key(token_id@) ==> (r matches Err(d) && diag_view(d) == token_missing_view( token_id, )))
            &&& ((&d0).tokens@.contains_key(token_id@) && !kind_accepts((&d0).tokens@[token_id@].kind, value) ==> (r matches Err(d) && diag_view(d) == error_view( "DESIGN_TOKEN_VALUE_KIND_MISMATCH"@, "the token value does not match the token kind"@, None, )))
            &&& (r is Ok <==> (&d0).tokens@.contains_key(token_id@) && kind_accepts( (&d0).tokens@[token_id@].kind, value, ))
            &&& (r is Err ==> d1 == d0)
            &&& (r is Ok ==> { let before = (&d0).tokens@[token_id@]; &&& r == Ok::<Command, DesignerDiagnostic>(Command::EditToken { token_id: token_id, value: before.value }) &&& (&d1).tokens@ == (&d0).tokens@.insert(token_id@, DesignToken { value, ..before }) &&& same_but_tokens(d0, d1) })
        },
        Command::RenameToken { token_id, name } => {
            &&& (!valid_node_name(name@) ==> (r matches Err(d) && diag_view(d) == error_view( "DESIGN_TOKEN_NAME_INVALID"@, "a token name must contain 1..=256 safe bytes"@, None, )))
            &&& (valid_node_name(name@) && !(&d0).tokens@.contains_key(token_id@) ==> (r matches Err(d) && diag_view(d) == token_missing_view(token_id)))
            &&& (r is Ok <==> valid_node_name(name@) && (&d0).tokens@.contains_key(token_id@))
            &&& (r is Err ==> d1 == d0)
            &&& (r is Ok ==> { let before = (&d0).tokens@[token_id@]; let after = (&d1).tokens@[token_id@]; &&& r == Ok::<Command, DesignerDiagnostic>(Command::RenameToken { token_id: token_id, name: before.name }) &&& (&d1).tokens@ == (&d0).tokens@.insert(token_id@, after) &&& after == DesignToken { name: after.name, ..before } &&& after.name@ == name@ &&& same_but_tokens(d0, d1) })
        },
        Command::DefineInteraction { interaction } => {
            &&& (match interaction_problem((&d0), interaction) { Some(p) => r matches Err(d) && diag_view(d) == interaction_view(p.0, p.1, interaction.id), None => if (&d0).interactions@.contains_key(interaction.id@) { r matches Err(d) && diag_view(d) == interaction_view( "DESIGN_INTERACTION_EXISTS"@, "the interaction identity already exists"@, interaction.id, ) } else { let src = interaction.source.node_id@; &&& r == Ok::<Command, DesignerDiagnostic>( Command::RemoveInteraction { interaction_id: interaction.id }, ) &&& (&d1).interactions@ == (&d0).interactions@.insert(interaction.id@, interaction) &&& same_but_interactions(d0, d1) &&& attachments_set( (&d0).nodes@, (&d1).nodes@, src, attached(iids((&d0).nodes@[src].interaction_ids@), interaction.id@), ) }, })
            &&& (r is Err ==> d1 == d0)
        },
        Command::UpdateInteraction { interaction } => {
            &&& (match interaction_problem((&d0), interaction) { Some(p) => r matches Err(d) && diag_view(d) == interaction_view(p.0, p.1, interaction.id), None => if !(&d0).interactions@.contains_key(interaction.id@) { r matches Err(d) && diag_view(d) == interaction_view( "DESIGN_INTERACTION_MISSING"@, "the interaction does not exist"@, interaction.id, ) } else { let prior = (&d0).interactions@[interaction.id@]; let from = prior.source.node_id@; let to = interaction.source.node_id@; &&& r == Ok::<Command, DesignerDiagnostic>(Command::UpdateInteraction { interaction: prior }) &&& (&d1).interactions@ == (&d0).interactions@.insert(interaction.id@, interaction) &&& same_but_interactions(d0, d1) &&& exists|mid: Map<Seq<char>, DesignNode>| { &&& (if (&d0).nodes@.contains_key(from) { attachments_set( (&d0).nodes@, mid, from, detached(iids((&d0).nodes@[from].interaction_ids@), interaction.id@), ) } else { mid == (&d0).nodes@ }) &&& #[trigger] attachments_set( mid, (&d1).nodes@, to, attached(iids(mid[to].interaction_ids@), interaction.id@), ) } }, })
            &&& (r is Err ==> d1 == d0)
        },
        Command::RemoveInteraction { interaction_id } => {
            &&& (!(&d0).interactions@.contains_key(interaction_id@) ==> (r matches Err(d) && diag_view(d) == interaction_view("DESIGN_INTERACTION_MISSING"@, "the interaction does not exist"@, interaction_id)))
            &&& (r is Ok <==> (&d0).interactions@.contains_key(interaction_id@))
            &&& (r is Err ==> d1 == d0)
            &&& (r is Ok ==> { let before = (&d0).interactions@[interaction_id@]; let src = before.source.node_id@; &&& r == Ok::<Command, DesignerDiagnostic>(Command::DefineInteraction { interaction: before }) &&& (&d1).interactions@ == (&d0).interactions@.remove(interaction_id@) &&& same_but_interactions(d0, d1) &&& if (&d0).nodes@.contains_key(src) { attachments_set( (&d0).nodes@, (&d1).nodes@, src, detached(iids((&d0).nodes@[src].interaction_ids@), interaction_id@), ) } else { (&d1).nodes == (&d0).nodes } })
        },
        Command::DefineComposition { composition } => {
            &&& (match composition_problem((&d0), composition) { Some(p) => r matches Err(d) && reports(d, p), None => if (&d0).compositions@.contains_key(composition.id@) { r matches Err(d) && diag_view(d) == error_view( "DESIGN_COMPOSITION_EXISTS"@, "the composition identity already exists"@, None, ) } else { &&& r == Ok::<Command, DesignerDiagnostic>(Command::RemoveComposition { composition_id: composition.id }) &&& (&d1).compositions@ == (&d0).compositions@.insert(composition.id@, composition) &&& same_but_compositions(d0, d1) }, })
            &&& (r is Err ==> d1 == d0)
        },
        Command::UpdateComposition { composition } => {
            &&& (match composition_problem((&d0), composition) { Some(p) => r matches Err(d) && reports(d, p), None => if !(&d0).compositions@.contains_key(composition.id@) { r matches Err(d) && diag_view(d) == composition_missing_view() } else { let prior = (&d0).compositions@[composition.id@]; if composition.root_node_id@ != prior.root_node_id@ { r matches Err(d) && diag_view(d) == error_view( "DESIGN_COMPOSITION_ROOT_IMMUTABLE"@, "a composition definition cannot change its root identity"@, Some(prior.root_node_id), ) } else if composition.definition_version == prior.definition_version { r matches Err(d) && diag_view(d) == error_view( "DESIGN_COMPOSITION_VERSION_INVALID"@, "a composition update must change definition_version"@, Some(composition.root_node_id), ) } else { &&& r == Ok::<Command, DesignerDiagnostic>(Command::UpdateComposition { composition: prior }) &&& composition_updated(d0, d1, composition) } }, })
            &&& (r is Err ==> d1 == d0)
        },
        Command::RemoveComposition { composition_id } => {
            &&& (!(&d0).compositions@.contains_key(composition_id@) ==> (r matches Err(d) && diag_view(d) == composition_missing_view()))
            &&& ((&d0).compositions@.contains_key(composition_id@) && composition_in_use((&d0), composition_id@) ==> (r matches Err(d) && diag_view(d) == error_view( "DESIGN_COMPOSITION_IN_USE"@, "remove every composition instance before removing the definition"@, Some((&d0).compositions@[composition_id@].root_node_id), )))
            &&& (r is Ok <==> (&d0).compositions@.contains_key(composition_id@) && !composition_in_use( (&d0), composition_id@, ))
            &&& (r is Err ==> d1 == d0)
            &&& (r is Ok ==> { &&& r == Ok::<Command, DesignerDiagnostic>( Command::DefineComposition { composition: (&d0).compositions@[composition_id@] }, ) &&& (&d1).compositions@ == (&d0).compositions@.remove(composition_id@) &&& same_but_compositions(d0, d1) })
        },
        Command::SetCompositionInput { node_id, input, value } => {
            &&& (match input_edit_problem((&d0), node_id, input@, value, false) { Some(p) => r matches Err(d) && reports(d, p), None => { let before = (&d0).nodes@[node_id@]; let after = (&d1).nodes@[node_id@]; let prior = value_in(edited_map(before.source, false), input@); &&& r matches Ok(c) && if false { c matches Command::SetCompositionOverride { node_id: n, input: q, value: v } && n == node_id && q@ == input@ && v == prior } else { c matches Command::SetCompositionInput { node_id: n, input: q, value: v } && n == node_id && q@ == input@ && v == prior } &&& crate::engine::node_replaced(d0, d1, node_id@) &&& input_edited(before, after, input@, value, false) }, })
            &&& (r is Err ==> d1 == d0)
        },
        Command::SetBreakpointProperty { node_id, variant_id, property, value } => {
            &&& (!valid_field_name(property@) ==> (r matches Err(d) && diag_view(d) == error_view( "DESIGN_PROPERTY_INVALID"@, "a property name must contain 1..=128 safe bytes"@, Some(node_id), ) && d1 == d0))
            &&& (valid_field_name(property@) && !(&d0).responsive_variants@.contains_key(variant_id@) ==> (r matches Err(d) && diag_view(d) == error_view( "DESIGN_RESPONSIVE_VARIANT_MISSING"@, "the breakpoint override references an unknown responsive variant"@, Some(node_id), ) && d1 == d0))
            &&& (valid_field_name(property@) && (&d0).responsive_variants@.contains_key(variant_id@) && !(&d0).nodes@.contains_key(node_id@) ==> (r matches Err(d) && diag_view(d) == missing_node_view(node_id) && d1 == d0))
            &&& (valid_field_name(property@) && (&d0).responsive_variants@.contains_key(variant_id@) && (&d0).nodes@.contains_key(node_id@) ==> { let before = (&d0).nodes@[node_id@]; let after = (&d1).nodes@[node_id@]; let base = override_base(before, variant_id@); let props = with_value(base.1, property@, value); &&& r matches Ok(Command::SetBreakpointProperty { node_id: n, variant_id: v, property: q, value: prior }) && n == node_id && v == variant_id && q@ == property@ && prior == value_in(base.1, property@) &&& node_replaced(d0, d1, node_id@) &&& same_but_overrides(before, after) &&& if props == Map::<Seq<char>, PropertyValue>::empty() && base.2 == LayoutProperties::spec_default() && base.3 == StyleProperties::spec_default() { after.responsive_overrides@ == before.responsive_overrides@.remove(variant_id@) } else { let e = after.responsive_overrides@[variant_id@]; &&& after.responsive_overrides@ == before.responsive_overrides@.insert(variant_id@, e) &&& e.schema_version == base.0 &&& e.properties@ == props &&& e.layout == base.2 &&& e.style == base.3 } })
        },
        Command::SetResponsiveOverride { node_id, variant_id, value } => {
            &&& (!(&d0).responsive_variants@.contains_key(variant_id@) ==> (r matches Err(d) && diag_view(d) == error_view( "DESIGN_RESPONSIVE_MISSING"@, "the responsive override references an unknown variant"@, None, ) && d1 == d0))
            &&& ((&d0).responsive_variants@.contains_key(variant_id@) ==> match value { Some(o) if crate::design_rules::override_problem((&d0), node_id, o) is Some => r matches Err(d) && reports( d, crate::design_rules::override_problem((&d0), node_id, o)->0, ) && d1 == d0, _ => if !(&d0).nodes@.contains_key(node_id@) { r matches Err(d) && diag_view(d) == missing_node_view(node_id) && d1 == d0 } else { let before = (&d0).nodes@[node_id@]; let after = (&d1).nodes@[node_id@]; &&& r == Ok::<Command, DesignerDiagnostic>(Command::SetResponsiveOverride { node_id: node_id, variant_id: variant_id, value: if before.responsive_overrides@.contains_key(variant_id@) { Some(before.responsive_overrides@[variant_id@]) } else { None }, }) &&& node_replaced(d0, d1, node_id@) &&& same_but_overrides(before, after) &&& after.responsive_overrides@ == match value { Some(o) => before.responsive_overrides@.insert(variant_id@, o), None => before.responsive_overrides@.remove(variant_id@), } }, })
        },
        Command::CreateCollection { collection } => {
            &&& ((&d0).collections@.contains_key(collection.id@) ==> (r matches Err(d) && diag_view(d) == collection_view( "CONTENT_COLLECTION_EXISTS"@, "a collection with this identity already exists"@, collection.id, ) && d1 == d0))
            &&& (!(&d0).collections@.contains_key(collection.id@) ==> match collection_problem(collection) { Some(v) => r matches Err(d) && diag_view(d) == v && d1 == d0, None => { &&& r == Ok::<Command, DesignerDiagnostic>(Command::DeleteCollection { collection_id: collection.id }) &&& collection_replaced(d0, d1, collection.id@, collection) }, })
        },
        Command::UpdateCollectionSchema { collection_id, schema } => {
            &&& (first_error(schema_issues(schema)) is Some ==> (r matches Err(d) && Some(diag_view(d)) == first_error(schema_issues(schema)) && d1 == d0))
            &&& (first_error(schema_issues(schema)) is None ==> if !(&d0).collections@.contains_key(collection_id@) { r matches Err(d) && diag_view(d) == collection_missing(collection_id) && d1 == d0 } else { let c = (&d0).collections@[collection_id@]; let temp = ContentCollection { schema, ..c }; match schema_break(collection_id, temp, c.records.entry_seq()) { Some(v) => r matches Err(d) && diag_view(d) == v && (&d1).collections@ == (&d0).collections@ && same_but_collections(d0, d1), None => { &&& r == Ok::<Command, DesignerDiagnostic>(Command::UpdateCollectionSchema { collection_id: collection_id, schema: c.schema }) &&& collection_replaced(d0, d1, collection_id@, temp) }, } })
        },
        Command::DeleteCollection { collection_id } => {
            &&& (!(&d0).collections@.contains_key(collection_id@) ==> (r matches Err(d) && diag_view(d) == collection_missing(collection_id) && d1 == d0))
            &&& ((&d0).collections@.contains_key(collection_id@) ==> { &&& r == Ok::<Command, DesignerDiagnostic>(Command::CreateCollection { collection: (&d0).collections@[collection_id@] }) &&& (&d1).collections@ == (&d0).collections@.remove(collection_id@) &&& (&d1).bindings@ == bindings_without((&d0).bindings@, collection_id@) &&& (&d1).nodes == (&d0).nodes &&& (&d1).parents == (&d0).parents &&& (&d1).screens == (&d0).screens &&& (&d1).screen_order == (&d0).screen_order &&& (&d1).compositions == (&d0).compositions &&& (&d1).tokens == (&d0).tokens &&& (&d1).responsive_variants == (&d0).responsive_variants &&& (&d1).interactions == (&d0).interactions &&& (&d1).forms == (&d0).forms &&& (&d1).schema_version == (&d0).schema_version &&& (&d1).project_id == (&d0).project_id &&& (&d1).name == (&d0).name })
        },
        Command::CreateRecord { collection_id, record } => {
            &&& (!(&d0).collections@.contains_key(collection_id@) ==> (r matches Err(d) && diag_view(d) == collection_missing(collection_id) && d1 == d0))
            &&& ((&d0).collections@.contains_key(collection_id@) ==> { let c = (&d0).collections@[collection_id@]; if c.records@.contains_key(record.id@) { r matches Err(d) && diag_view(d) == record_view( "CONTENT_RECORD_EXISTS"@, "a record with this identity already exists"@, collection_id, record.id, ) && d1 == d0 } else if first_error(record_issues(c, record)) is Some { r matches Err(d) && Some(diag_view(d)) == first_error(record_issues(c, record)) && d1 == d0 } else { let c2 = (&d1).collections@[collection_id@]; &&& r == Ok::<Command, DesignerDiagnostic>(Command::DeleteRecord { collection_id: collection_id, record_id: record.id }) &&& collection_replaced(d0, d1, collection_id@, c2) &&& same_but_records(c, c2) &&& c2.records@ == c.records@.insert(record.id@, record) } })
        },
        Command::UpdateRecord { collection_id, record_id, values } => {
            &&& (!(&d0).collections@.contains_key(collection_id@) ==> (r matches Err(d) && diag_view(d) == collection_missing(collection_id) && d1 == d0))
            &&& ((&d0).collections@.contains_key(collection_id@) ==> { let c = (&d0).collections@[collection_id@]; let existing = c.records@[record_id@]; let candidate = ContentRecord { schema_version: existing.schema_version, id: record_id, values }; if !c.records@.contains_key(record_id@) { r matches Err(d) && diag_view(d) == record_view( "CONTENT_RECORD_MISSING"@, "the record does not exist"@, collection_id, record_id, ) && d1 == d0 } else if first_error(record_issues(c, candidate)) is Some { r matches Err(d) && Some(diag_view(d)) == first_error(record_issues(c, candidate)) && d1 == d0 } else { let c2 = (&d1).collections@[collection_id@]; &&& r == Ok::<Command, DesignerDiagnostic>(Command::UpdateRecord { collection_id: collection_id, record_id: record_id, values: existing.values, }) &&& collection_replaced(d0, d1, collection_id@, c2) &&& same_but_records(c, c2) &&& c2.records@ == c.records@.insert(record_id@, ContentRecord { values, ..existing }) } })
        },
        Command::DeleteRecord { collection_id, record_id } => {
            &&& (!(&d0).collections@.contains_key(collection_id@) ==> (r matches Err(d) && diag_view(d) == collection_missing(collection_id) && d1 == d0))
            &&& ((&d0).collections@.contains_key(collection_id@) ==> { let c = (&d0).collections@[collection_id@]; if !c.records@.contains_key(record_id@) { r matches Err(d) && diag_view(d) == record_view( "CONTENT_RECORD_MISSING"@, "the record does not exist"@, collection_id, record_id, ) && d1 == d0 } else { let c2 = (&d1).collections@[collection_id@]; &&& r == Ok::<Command, DesignerDiagnostic>(Command::CreateRecord { collection_id: collection_id, record: c.records@[record_id@] }) &&& collection_replaced(d0, d1, collection_id@, c2) &&& same_but_records(c, c2) &&& c2.records@ == c.records@.remove(record_id@) } })
        },
        Command::SetFixture { collection_id, fixture } => {
            &&& (first_error(fixture_issues(fixture)) is Some ==> (r matches Err(d) && Some(diag_view(d)) == first_error(fixture_issues(fixture)) && d1 == d0))
            &&& (first_error(fixture_issues(fixture)) is None ==> if !(&d0).collections@.contains_key(collection_id@) { r matches Err(d) && diag_view(d) == collection_missing(collection_id) && d1 == d0 } else { let c = (&d0).collections@[collection_id@]; if edge_invalid(c, fixture.edge_records@) { r matches Err(d) && diag_view(d) == collection_view( "CONTENT_FIXTURE_EDGE_INVALID"@, "an edge record does not match the collection schema"@, collection_id, ) && d1 == d0 } else { &&& r == Ok::<Command, DesignerDiagnostic>(Command::SetFixture { collection_id: collection_id, fixture: c.fixture }) &&& collection_replaced(d0, d1, collection_id@, ContentCollection { fixture, ..c }) } })
        },
        Command::UpsertBinding { binding } => {
            &&& (match first_error(binding_shape_issues(binding)) { Some(v) => r matches Err(d) && diag_view(d) == v && d1 == d0, None => if !(&d0).nodes@.contains_key(binding.node_id@) { r matches Err(d) && diag_view(d) == error_view( "CONTENT_BINDING_NODE_MISSING"@, "binding target node does not exist"@, Some(binding.node_id), ) && d1 == d0 } else if !valid_field_name(binding.property@) { r matches Err(d) && diag_view(d) == error_view( "CONTENT_BINDING_PROPERTY_INVALID"@, "binding property name is invalid"@, Some(binding.node_id), ) && d1 == d0 } else { &&& r == Ok::<Command, DesignerDiagnostic>(if (&d0).bindings@.contains_key(binding.id@) { Command::UpsertBinding { binding: (&d0).bindings@[binding.id@] } } else { Command::RemoveBinding { binding_id: binding.id } }) &&& (&d1).bindings@ == (&d0).bindings@.insert(binding.id@, binding) &&& same_but_bindings(d0, d1) }, })
        },
        Command::RemoveBinding { binding_id } => {
            &&& ((&d0).bindings@.contains_key(binding_id@) ==> { &&& r == Ok::<Command, DesignerDiagnostic>(Command::UpsertBinding { binding: (&d0).bindings@[binding_id@] }) &&& (&d1).bindings@ == (&d0).bindings@.remove(binding_id@) &&& same_but_bindings(d0, d1) })
            &&& (!(&d0).bindings@.contains_key(binding_id@) ==> (r matches Err(d) && diag_view(d) == ( "CONTENT_BINDING_MISSING"@, DiagnosticSeverity::Error, "the binding does not exist"@, None::<crate::ids::NodeId>, None::<crate::ids::InteractionId>, None::<CollectionId>, Some(binding_id), None::<FormId>, None::<RecordId>, ) && d1 == d0))
        },
        Command::UpsertForm { form } => {
            &&& (match first_error(form_shape_issues(form, pattern_validity(form))) { Some(v) => r matches Err(d) && diag_view(d) == v && d1 == d0, None => if form.target_collection_id matches Some(t) && !(&d0).collections@.contains_key(t@) { r matches Err(d) && diag_view(d) == collection_view( "FORM_TARGET_COLLECTION_MISSING"@, "form target collection does not exist"@, form.target_collection_id->0, ) && d1 == d0 } else { &&& r == Ok::<Command, DesignerDiagnostic>(if (&d0).forms@.contains_key(form.id@) { Command::UpsertForm { form: (&d0).forms@[form.id@] } } else { Command::RemoveForm { form_id: form.id } }) &&& (&d1).forms@ == (&d0).forms@.insert(form.id@, form) &&& same_but_forms(d0, d1) }, })
        },
        Command::RemoveForm { form_id } => {
            &&& ((&d0).forms@.contains_key(form_id@) ==> { &&& r == Ok::<Command, DesignerDiagnostic>(Command::UpsertForm { form: (&d0).forms@[form_id@] }) &&& (&d1).forms@ == (&d0).forms@.remove(form_id@) &&& same_but_forms(d0, d1) })
            &&& (!(&d0).forms@.contains_key(form_id@) ==> (r matches Err(d) && diag_view(d) == ( "FORM_MISSING"@, DiagnosticSeverity::Error, "the form does not exist"@, None::<crate::ids::NodeId>, None::<crate::ids::InteractionId>, None::<CollectionId>, None::<BindingId>, Some(form_id), None::<RecordId>, ) && d1 == d0))
        },
        Command::SetBinding { node_id, property, binding } => {
            &&& ((binding matches Some(b) && binding_bad(b)) ==> (r matches Err(d) && reports(d, binding_problem(node_id@)) && d1 == d0))
            &&& (!(binding matches Some(b) && binding_bad(b)) ==> property_set(d0, node_id, property@, binding_value(binding), d1, r))
        },
        Command::SetCompositionOverride { node_id, input, value } => {
            &&& (match input_edit_problem((&d0), node_id, input@, value, true) { Some(p) => r matches Err(d) && reports(d, p), None => { let before = (&d0).nodes@[node_id@]; let after = (&d1).nodes@[node_id@]; let prior = value_in(edited_map(before.source, true), input@); &&& r matches Ok(c) && if true { c matches Command::SetCompositionOverride { node_id: n, input: q, value: v } && n == node_id && q@ == input@ && v == prior } else { c matches Command::SetCompositionInput { node_id: n, input: q, value: v } && n == node_id && q@ == input@ && v == prior } &&& crate::engine::node_replaced(d0, d1, node_id@) &&& input_edited(before, after, input@, value, true) }, })
            &&& (r is Err ==> d1 == d0)
        },
        _ => {
            &&& r matches Err(e) && diag_view(e) == error_view(
                "DESIGN_COMMAND_UNSUPPORTED"@,
                "the command engine has no handler for this command"@,
                None,
            )
            &&& d1 == d0
        },
    }
}

/// Apply one command to a design. On success the design holds the edit and
/// the result is the inverse command; on refusal the design is unchanged.
#[verifier::rlimit(50)]
pub fn apply_command(design: &mut StudioDesign, command: Command) -> (r: Result<Command, DesignerDiagnostic>)
    ensures
        command_applied(*old(design), command, *final(design), r),
{
    reveal(command_applied);
    match command {
        Command::SetProperty { node_id, property, value } => set_property(design, &node_id, property.as_str(), value),
        Command::RenameNode { node_id, name } => rename_node(design, &node_id, name.as_str()),
        Command::SetLayout { node_id, layout } => set_layout(design, &node_id, layout),
        Command::SetResponsiveLayout { node_id, variant_id, layout } => set_responsive_layout(design, &node_id, &variant_id, layout),
        Command::RemoveResponsiveLayout { node_id, variant_id } => remove_responsive_layout(design, &node_id, &variant_id),
        Command::ReorderNode { node_id, index } => reorder_node(design, &node_id, index),
        Command::MoveNode { node_id, destination } => move_node(design, &node_id, &destination),
        Command::SetBreakpointOverride { node_id, variant_id, value } => set_breakpoint_override(design, &node_id, &variant_id, match value {
            Some(b) => Some(*b),
            None => None,
        }),
        Command::DefineResponsiveVariant { variant } => define_responsive_variant(design, variant),
        Command::UpdateResponsiveVariant { variant } => update_responsive_variant(design, variant),
        Command::RemoveResponsiveVariant { variant_id } => remove_responsive_variant(design, &variant_id),
        Command::DefineToken { token } => define_token(design, token),
        Command::UpdateToken { token } => update_token(design, token),
        Command::RemoveToken { token_id } => remove_token(design, &token_id),
        Command::CreateToken { token } => create_token(design, *token),
        Command::EditToken { token_id, value } => edit_token(design, &token_id, value),
        Command::RenameToken { token_id, name } => rename_token(design, &token_id, name.as_str()),
        Command::DefineInteraction { interaction } => define_interaction(design, interaction),
        Command::UpdateInteraction { interaction } => update_interaction(design, interaction),
        Command::RemoveInteraction { interaction_id } => remove_interaction(design, &interaction_id),
        Command::DefineComposition { composition } => define_composition(design, composition),
        Command::UpdateComposition { composition } => update_composition(design, composition),
        Command::RemoveComposition { composition_id } => remove_composition(design, &composition_id),
        Command::SetCompositionInput { node_id, input, value } => set_composition_input(design, &node_id, input.as_str(), value, false),
        Command::SetBreakpointProperty { node_id, variant_id, property, value } => set_breakpoint_property(design, &node_id, &variant_id, property.as_str(), value),
        Command::SetResponsiveOverride { node_id, variant_id, value } => set_responsive_override(design, &node_id, &variant_id, value),
        Command::CreateCollection { collection } => create_collection(design, collection),
        Command::UpdateCollectionSchema { collection_id, schema } => update_collection_schema(design, &collection_id, schema),
        Command::DeleteCollection { collection_id } => delete_collection(design, &collection_id),
        Command::CreateRecord { collection_id, record } => create_record(design, &collection_id, record),
        Command::UpdateRecord { collection_id, record_id, values } => update_record(design, &collection_id, &record_id, values),
        Command::DeleteRecord { collection_id, record_id } => delete_record(design, &collection_id, &record_id),
        Command::SetFixture { collection_id, fixture } => set_fixture(design, &collection_id, fixture),
        Command::UpsertBinding { binding } => upsert_binding(design, binding),
        Command::RemoveBinding { binding_id } => remove_binding(design, &binding_id),
        Command::UpsertForm { form } => upsert_form(design, form),
        Command::RemoveForm { form_id } => remove_form(design, &form_id),
        Command::SetBinding { node_id, property, binding } => set_binding(design, &node_id, property, binding),
        Command::SetCompositionOverride { node_id, input, value } => set_composition_input(design, &node_id, input.as_str(), value, true),
        _ => Err(diagnostic("DESIGN_COMMAND_UNSUPPORTED", "the command engine has no handler for this command", None)),
    }
}

/// Renaming a node and then applying the inverse command it gave back, when
/// that inverse is accepted, gives the node its old name back and leaves
/// every other part of the design unchanged.
pub proof fn lemma_rename_round_trip(
    d0: StudioDesign,
    node_id: NodeId,
    name: String,
    d1: StudioDesign,
    inv: Command,
    d2: StudioDesign,
    back: Command,
)
    requires
        command_applied(d0, Command::RenameNode { node_id, name }, d1, Ok(inv)),
        command_applied(d1, inv, d2, Ok(back)),
    ensures
        same_but_nodes(d0, d2),
        d2.nodes@.dom() == d0.nodes@.dom(),
        forall|k: Seq<char>| k != node_id@ ==> d2.nodes@[k] == d0.nodes@[k],
        same_but_name(d0.nodes@[node_id@], d2.nodes@[node_id@]),
        d2.nodes@[node_id@].name@ == d0.nodes@[node_id@].name@,
{
    let before = d0.nodes@[node_id@];
    assert(inv == Command::RenameNode { node_id, name: before.name } && node_replaced(d0, d1, node_id@)
        && same_but_name(before, d1.nodes@[node_id@])) by {
        reveal(command_applied);
    }
    assert(node_replaced(d1, d2, node_id@) && same_but_name(d1.nodes@[node_id@], d2.nodes@[node_id@])
        && d2.nodes@[node_id@].name@ == before.name@) by {
        reveal(command_applied);
    }
    assert(d2.nodes@.dom() =~= d0.nodes@.dom());
}

/// Setting a node's base layout and then applying the inverse command it
/// gave back restores the node map and leaves the rest of the design
/// unchanged.
pub proof fn lemma_layout_round_trip(
    d0: StudioDesign,
    node_id: NodeId,
    layout: LayoutProperties,
    d1: StudioDesign,
    inv: Command,
    d2: StudioDesign,
    r2: Result<Command, DesignerDiagnostic>,
)
    requires
        command_applied(d0, Command::SetLayout { node_id, layout }, d1, Ok(inv)),
        command_applied(d1, inv, d2, r2),
    ensures
        r2 is Ok,
        same_but_nodes(d0, d2),
        d2.nodes@ == d0.nodes@,
{
    reveal(command_applied);
    assert(d2.nodes@ =~= d0.nodes@);
}

/// Writing a node property and then applying the inverse command it gave
/// back restores that node's properties and leaves every other part of the
/// design unchanged.
pub proof fn lemma_property_round_trip(
    d0: StudioDesign,
    node_id: NodeId,
    property: String,
    value: Option<PropertyValue>,
    d1: StudioDesign,
    inv: Command,
    d2: StudioDesign,
    r2: Result<Command, DesignerDiagnostic>,
)
    requires
        command_applied(d0, Command::SetProperty { node_id, property, value }, d1, Ok(inv)),
        command_applied(d1, inv, d2, r2),
    ensures
        r2 is Ok,
        same_but_nodes(d0, d2),
        d2.nodes@.dom() == d0.nodes@.dom(),
        forall|k: Seq<char>| k != node_id@ ==> d2.nodes@[k] == d0.nodes@[k],
        same_but_properties(d0.nodes@[node_id@], d2.nodes@[node_id@]),
        d2.nodes@[node_id@].properties@ == d0.nodes@[node_id@].properties@,
{
    reveal(command_applied);
    let before = d0.nodes@[node_id@];
    lemma_property_write_undo(before.properties@, property@, value);
    assert(d2.nodes@.dom() =~= d0.nodes@.dom());
}

/// Defining a token and then applying the inverse command it gave back
/// removes the token again and leaves the rest of the design unchanged.
pub proof fn lemma_define_token_round_trip(
    d0: StudioDesign,
    token: DesignToken,
    d1: StudioDesign,
    inv: Command,
    d2: StudioDesign,
    r2: Result<Command, DesignerDiagnostic>,
)
    requires
        command_applied(d0, Command::DefineToken { token }, d1, Ok(inv)),
        command_applied(d1, inv, d2, r2),
        !design_has_token(&d0, token.id@),
    ensures
        r2 is Ok,
        same_but_tokens(d0, d2),
        d2.tokens@ == d0.tokens@,
{
    assert(inv == Command::RemoveToken { token_id: token.id } && same_but_tokens(d0, d1)
        && d1.tokens@ == d0.tokens@.insert(token.id@, token) && !d0.tokens@.contains_key(token.id@)) by {
        reveal(command_applied);
    }
    assert(!design_has_token(&d1, token.id@));
    assert(r2 is Ok && d2.tokens@ == d1.tokens@.remove(token.id@) && same_but_tokens(d1, d2)) by {
        reveal(command_applied);
    }
    assert(d2.tokens@ =~= d0.tokens@);
}

proof fn lemma_reorder_applied(d0: StudioDesign, node_id: NodeId, index: usize, d1: StudioDesign, r: Result<Command, DesignerDiagnostic>)
    requires
        command_applied(d0, Command::ReorderNode { node_id, index }, d1, r),
    ensures
        reorder_error(&d0, node_id, index) is Some ==> r is Err,
        reorder_error(&d0, node_id, index) is None ==> {
            let p = d0.parents@[node_id@]->node_id@;
            let i = child_index_of(&d0, node_id@)->0;
            &&& r == Ok::<Command, DesignerDiagnostic>(Command::ReorderNode { node_id, index: i as usize })
            &&& same_but_nodes(d0, d1)
            &&& children_set(d0.nodes@, d1.nodes@, p, reordered(ids(d0.nodes@[p].children@), i, index as int))
        },
{
    reveal(command_applied);
}

/// Moving a node to another position among its siblings and then applying
/// the inverse command it gave back restores the sibling order, where the
/// node occurs once among its siblings; nothing else changes.
pub proof fn lemma_reorder_round_trip(
    d0: StudioDesign,
    node_id: NodeId,
    index: usize,
    d1: StudioDesign,
    inv: Command,
    d2: StudioDesign,
    r2: Result<Command, DesignerDiagnostic>,
)
    requires
        command_applied(d0, Command::ReorderNode { node_id, index }, d1, Ok(inv)),
        command_applied(d1, inv, d2, r2),
        d0.parents@.contains_key(node_id@),
        d0.parents@[node_id@] is Node,
        d0.nodes@.contains_key(d0.parents@[node_id@]->node_id@),
        d0.nodes@[d0.parents@[node_id@]->node_id@].children@.len() <= usize::MAX,
        ({
            let s = ids(d0.nodes@[d0.parents@[node_id@]->node_id@].children@);
            forall|a: int, b: int| 0 <= a < b < s.len() ==> s[a] != s[b]
        }),
    ensures
        r2 is Ok,
        same_but_nodes(d0, d2),
        d2.nodes@.dom() == d0.nodes@.dom(),
        forall|k: Seq<char>| k != d0.parents@[node_id@]->node_id@ ==> d2.nodes@[k] == d0.nodes@[k],
        ({
            let p = d0.parents@[node_id@]->node_id@;
            &&& same_but_children(d0.nodes@[p], d2.nodes@[p])
            &&& ids(d2.nodes@[p].children@) == ids(d0.nodes@[p].children@)
        }),
{
    let p = d0.parents@[node_id@]->node_id@;
    let s = ids(d0.nodes@[p].children@);
    lemma_reorder_applied(d0, node_id, index, d1, Ok(inv));
    let i = child_index_of(&d0, node_id@)->0;
    lemma_first_position(s, node_id@);
    assert(s[i] == node_id@);
    lemma_reorder_undo(s, i, index as int);
    let t = reordered(s, i, index as int);
    assert(ids(d1.nodes@[p].children@) == t);
    assert(d1.parents@ == d0.parents@);
    assert(child_index_of(&d1, node_id@) == Some(index as int));
    lemma_reorder_applied(d1, node_id, i as usize, d2, r2);
    assert(reorder_error(&d1, node_id, i as usize) is None);
    assert(d1.parents@[node_id@]->node_id@ == p);
    assert(child_index_of(&d1, node_id@)->0 == index as int);
    assert((i as usize) as int == i);
    assert(ids(d2.nodes@[p].children@) == reordered(t, index as int, i));
    assert(reordered(t, index as int, i) == s);
    assert(same_but_children(d1.nodes@[p], d2.nodes@[p]));
    assert(same_but_children(d0.nodes@[p], d1.nodes@[p]));
    assert(d2.nodes@.dom() =~= d0.nodes@.dom());
}

/// The command a successful result holds.
pub open spec fn inverse_of(r: Result<Command, DesignerDiagnostic>) -> Command {
    match r {
        Ok(c) => c,
        Err(_) => arbitrary(),
    }
}

/// The inverses of a run of successful commands, last command first.
pub open spec fn inverses_of(results: Seq<Result<Command, DesignerDiagnostic>>) -> Seq<Command> {
    Seq::new(results.len(), |i: int| inverse_of(results[results.len() - 1 - i]))
}

/// A run of commands: `designs[i]` is the design before command `i` and
/// `designs[i + 1]` the design after it, with `results[i]` what it gave
/// back; every command but the last of the run succeeded.
pub open spec fn steps(d0: StudioDesign, cmds: Seq<Command>, designs: Seq<StudioDesign>, results: Seq<Result<Command, DesignerDiagnostic>>) -> bool {
    &&& designs.len() == results.len() + 1
    &&& designs[0] == d0
    &&& results.len() <= cmds.len()
    &&& forall|i: int| #![trigger results[i]] 0 <= i < results.len() ==> command_applied(designs[i], cmds[i], designs[i + 1], results[i])
    &&& forall|i: int| #![trigger results[i]] 0 <= i < results.len() - 1 ==> results[i] is Ok
}

/// What applying a list of commands in order does: each command applies as
/// [`command_applied`] states, and the first refusal stops the run with the
/// design as the commands before it left it. On success the inverses come in
/// reverse order, so that applying them in turn undoes the list.
pub open spec fn commands_applied(
    d0: StudioDesign,
    cmds: Seq<Command>,
    d1: StudioDesign,
    r: Result<Seq<Command>, DesignerDiagnostic>,
) -> bool {
    exists|designs: Seq<StudioDesign>, results: Seq<Result<Command, DesignerDiagnostic>>|
        #![trigger steps(d0, cmds, designs, results)]
        steps(d0, cmds, designs, results) && d1 == designs.last() && if results.len() > 0 && results.last() is Err {
            r == Err::<Seq<Command>, DesignerDiagnostic>(results.last()->Err_0)
        } else {
            results.len() == cmds.len() && r == Ok::<Seq<Command>, DesignerDiagnostic>(inverses_of(results))
        }
}

fn apply_in_order(design: &mut StudioDesign, commands: Vec<Command>) -> (r: Result<Vec<Command>, DesignerDiagnostic>)
    ensures
        commands_applied(*old(design), commands@, *final(design), match r {
            Ok(v) => Ok(v@),
            Err(e) => Err(e),
        }),
{
    let ghost cmds = commands@;
    let ghost d0 = *design;
    let mut rest = commands;
    let mut inverses: Vec<Command> = Vec::new();
    let ghost mut designs: Seq<StudioDesign> = seq![*design];
    let ghost mut results: Seq<Result<Command, DesignerDiagnostic>> = Seq::empty();
    while rest.len() > 0
        invariant
            d0 == *old(design),
            cmds == commands@,
            steps(d0, cmds, designs, results),
            designs.last() == *design,
            forall|i: int| #![trigger results[i]] 0 <= i < results.len() ==> results[i] is Ok,
            rest@ == cmds.subrange(results.len() as int, cmds.len() as int),
            inverses@ == inverses_of(results),
        decreases rest@.len(),
    {
        let ghost k = results.len();
        let first = rest.remove(0);
        assert(first == cmds[k as int]);
        let ghost before = *design;
        let res = apply_command(design, first);
        proof {
            let old_designs = designs;
            let old_results = results;
            designs = designs.push(*design);
            results = results.push(res);
            assert forall|i: int| #![trigger results[i]] 0 <= i < results.len() implies command_applied(designs[i], cmds[i], designs[i + 1], results[i]) by {
                if i < k {
                    assert(old_results[i] == results[i]);
                    assert(designs[i] == old_designs[i]);
                    assert(designs[i + 1] == old_designs[i + 1]);
                }
            }
        }
        match res {
            Ok(inv) => {
                inverses.insert(0, inv);
                assert(inverses@ =~= inverses_of(results));
                assert(rest@ =~= cmds.subrange(results.len() as int, cmds.len() as int));
            },
            Err(e) => {
                assert(steps(d0, cmds, designs, results));
                assert(results.last() == Err::<Command, DesignerDiagnostic>(e));
                assert(designs.last() == *design);
                assert(results.last()->Err_0 == e);
                return Err(e);
            },
        }
    }
    assert(steps(d0, cmds, designs, results));
    Ok(inverses)
}

/// Apply a list of commands in order, stopping at the first refusal, whose
/// diagnostic is the only one returned. On success the result holds the
/// inverse commands in reverse order.
pub fn apply_commands(design: &mut StudioDesign, commands: Vec<Command>) -> (r: Result<Vec<Command>, Vec<DesignerDiagnostic>>)
    ensures
        commands_applied(*old(design), commands@, *final(design), match r {
            Ok(v) => Ok(v@),
            Err(es) => Err(es@[0]),
        }),
        r matches Err(es) ==> es@.len() == 1,
{
    match apply_in_order(design, commands) {
        Ok(v) => Ok(v),
        Err(e) => {
            let mut es: Vec<DesignerDiagnostic> = Vec::new();
            es.push(e);
            Err(es)
        },
    }
}

} // verus!
