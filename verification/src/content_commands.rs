//! Command handlers for content: collections, records, fixtures, bindings
//! and forms. Each handler either applies its edit and returns the command
//! that undoes it, or refuses with a diagnostic and leaves the design as it
//! was.
use vstd::prelude::*;
use vstd::string::StringExecFns;

use crate::command::Command;
use crate::content::{
    DiagView, binding_shape_issues, schema_issues, diag_view, fixture_issues, form_shape_issues, pattern_validity, record_issues,
    valid_field_name, validate_binding_shape, validate_fixture, validate_form_shape, validate_record, views,
};
use crate::engine::{error_view, is_valid_field_name, node_diagnostic};
use crate::ids::{BindingId, CollectionId, FormId, RecordId};
use crate::model::{
    ContentBinding, ContentCollection, ContentCollectionSchema, ContentFixture, ContentRecord, DesignerDiagnostic, DiagnosticSeverity,
    FormDefinition, PropertyValue, StudioDesign,
};
use crate::ordered_map::{MapKey, OrderedMap, keys_of};

verus! {

/// The first error among diagnostic views, if any.
pub open spec fn first_error(vs: Seq<DiagView>) -> Option<DiagView>
    decreases vs.len(),
{
    if vs.len() == 0 {
        None
    } else if vs[0].1 == DiagnosticSeverity::Error {
        Some(vs[0])
    } else {
        first_error(vs.drop_first())
    }
}

/// Take the first error out of a list of diagnostics.
pub fn take_first_error(diagnostics: Vec<DesignerDiagnostic>) -> (r: Option<DesignerDiagnostic>)
    ensures
        match first_error(views(diagnostics@)) {
            Some(v) => r matches Some(d) && diag_view(d) == v,
            None => r is None,
        },
{
    let ghost all = views(diagnostics@);
    let mut ds = diagnostics;
    let mut i: usize = 0;
    assert(all.skip(0) =~= all);
    while i < ds.len()
        invariant
            i <= ds@.len(),
            views(ds@) == all,
            all == views(diagnostics@),
            first_error(all) == first_error(all.skip(i as int)),
        decreases ds@.len() - i,
    {
        assert(all.skip(i as int).drop_first() =~= all.skip(i + 1));
        assert(all.skip(i as int)[0] == diag_view(ds@[i as int]));
        if ds[i].severity == DiagnosticSeverity::Error {
            let ghost dv = diag_view(ds@[i as int]);
            assert(first_error(all.skip(i as int)) == Some(dv));
            let d = ds.swap_remove(i);
            assert(diag_view(d) == dv);
            return Some(d);
        }
        i = i + 1;
    }
    assert(all.skip(i as int) =~= Seq::<DiagView>::empty());
    None
}

/// A diagnostic about a collection.
pub open spec fn collection_view(code: Seq<char>, message: Seq<char>, collection_id: CollectionId) -> DiagView {
    (code, DiagnosticSeverity::Error, message, None, None, Some(collection_id), None, None, None)
}

/// A diagnostic about a record of a collection.
pub open spec fn record_view(code: Seq<char>, message: Seq<char>, collection_id: CollectionId, record_id: RecordId) -> DiagView {
    (code, DiagnosticSeverity::Error, message, None, None, Some(collection_id), None, None, Some(record_id))
}

fn content_diagnostic(
    code: &str,
    message: &str,
    collection_id: Option<CollectionId>,
    binding_id: Option<BindingId>,
    form_id: Option<FormId>,
    record_id: Option<RecordId>,
) -> (r: DesignerDiagnostic)
    ensures
        diag_view(r) == (code@, DiagnosticSeverity::Error, message@, None::<crate::ids::NodeId>, None::<crate::ids::InteractionId>, collection_id, binding_id, form_id, record_id),
{
    DesignerDiagnostic {
        code: String::from_str(code),
        severity: DiagnosticSeverity::Error,
        message: String::from_str(message),
        node_id: None,
        interaction_id: None,
        collection_id,
        binding_id,
        form_id,
        record_id,
    }
}

/// `b` is `a` with at most its bindings changed.
pub open spec fn same_but_bindings(a: StudioDesign, b: StudioDesign) -> bool {
    &&& a.schema_version == b.schema_version
    &&& a.project_id == b.project_id
    &&& a.name == b.name
    &&& a.nodes == b.nodes
    &&& a.parents == b.parents
    &&& a.screens == b.screens
    &&& a.screen_order == b.screen_order
    &&& a.compositions == b.compositions
    &&& a.tokens == b.tokens
    &&& a.responsive_variants == b.responsive_variants
    &&& a.interactions == b.interactions
    &&& a.collections == b.collections
    &&& a.forms == b.forms
}

/// `b` is `a` with at most its forms changed.
pub open spec fn same_but_forms(a: StudioDesign, b: StudioDesign) -> bool {
    &&& a.schema_version == b.schema_version
    &&& a.project_id == b.project_id
    &&& a.name == b.name
    &&& a.nodes == b.nodes
    &&& a.parents == b.parents
    &&& a.screens == b.screens
    &&& a.screen_order == b.screen_order
    &&& a.compositions == b.compositions
    &&& a.tokens == b.tokens
    &&& a.responsive_variants == b.responsive_variants
    &&& a.interactions == b.interactions
    &&& a.collections == b.collections
    &&& a.bindings == b.bindings
}

/// `b` is `a` with at most its collections changed.
pub open spec fn same_but_collections(a: StudioDesign, b: StudioDesign) -> bool {
    &&& a.schema_version == b.schema_version
    &&& a.project_id == b.project_id
    &&& a.name == b.name
    &&& a.nodes == b.nodes
    &&& a.parents == b.parents
    &&& a.screens == b.screens
    &&& a.screen_order == b.screen_order
    &&& a.compositions == b.compositions
    &&& a.tokens == b.tokens
    &&& a.responsive_variants == b.responsive_variants
    &&& a.interactions == b.interactions
    &&& a.bindings == b.bindings
    &&& a.forms == b.forms
}

/// Remove a binding; its inverse puts it back.
pub fn remove_binding(design: &mut StudioDesign, binding_id: &BindingId) -> (r: Result<Command, DesignerDiagnostic>)
    ensures
        old(design).bindings@.contains_key(binding_id@) ==> {
            &&& r == Ok::<Command, DesignerDiagnostic>(Command::UpsertBinding { binding: old(design).bindings@[binding_id@] })
            &&& final(design).bindings@ == old(design).bindings@.remove(binding_id@)
            &&& same_but_bindings(*old(design), *final(design))
        },
        !old(design).bindings@.contains_key(binding_id@) ==> (r matches Err(d) && diag_view(d) == (
            "CONTENT_BINDING_MISSING"@,
            DiagnosticSeverity::Error,
            "the binding does not exist"@,
            None::<crate::ids::NodeId>,
            None::<crate::ids::InteractionId>,
            None::<CollectionId>,
            Some(*binding_id),
            None::<FormId>,
            None::<RecordId>,
        ) && *final(design) == *old(design)),
{
    if !design.bindings.contains_key(binding_id.as_str()) {
        return Err(content_diagnostic(
            "CONTENT_BINDING_MISSING",
            "the binding does not exist",
            None,
            Some(binding_id.copy()),
            None,
            None,
        ));
    }
    let mut bindings = OrderedMap::new();
    std::mem::swap(&mut bindings, &mut design.bindings);
    let removed = bindings.remove(binding_id.as_str());
    design.bindings = bindings;
    match removed {
        Some(binding) => Ok(Command::UpsertBinding { binding }),
        None => Err(content_diagnostic(
            "CONTENT_BINDING_MISSING",
            "the binding does not exist",
            None,
            Some(binding_id.copy()),
            None,
            None,
        )),
    }
}

/// Add or replace a binding of a node property to a collection field. Its
/// inverse removes it, or puts back the binding it replaced.
pub fn upsert_binding(design: &mut StudioDesign, binding: ContentBinding) -> (r: Result<Command, DesignerDiagnostic>)
    ensures
        match first_error(binding_shape_issues(binding)) {
            Some(v) => r matches Err(d) && diag_view(d) == v && *final(design) == *old(design),
            None => if !old(design).nodes@.contains_key(binding.node_id@) {
                r matches Err(d) && diag_view(d) == error_view(
                    "CONTENT_BINDING_NODE_MISSING"@,
                    "binding target node does not exist"@,
                    Some(binding.node_id),
                ) && *final(design) == *old(design)
            } else if !valid_field_name(binding.property@) {
                r matches Err(d) && diag_view(d) == error_view(
                    "CONTENT_BINDING_PROPERTY_INVALID"@,
                    "binding property name is invalid"@,
                    Some(binding.node_id),
                ) && *final(design) == *old(design)
            } else {
                &&& r == Ok::<Command, DesignerDiagnostic>(if old(design).bindings@.contains_key(binding.id@) {
                    Command::UpsertBinding { binding: old(design).bindings@[binding.id@] }
                } else {
                    Command::RemoveBinding { binding_id: binding.id }
                })
                &&& final(design).bindings@ == old(design).bindings@.insert(binding.id@, binding)
                &&& same_but_bindings(*old(design), *final(design))
            },
        },
{
    match take_first_error(validate_binding_shape(&binding)) {
        Some(d) => {
            return Err(d);
        },
        None => {},
    }
    if !design.nodes.contains_key(binding.node_id.as_str()) {
        return Err(node_diagnostic("CONTENT_BINDING_NODE_MISSING", "binding target node does not exist", &binding.node_id));
    }
    if !is_valid_field_name(binding.property.as_str()) {
        return Err(node_diagnostic("CONTENT_BINDING_PROPERTY_INVALID", "binding property name is invalid", &binding.node_id));
    }
    let id = binding.id.copy();
    let key = binding.id.copy();
    let mut bindings = OrderedMap::new();
    std::mem::swap(&mut bindings, &mut design.bindings);
    let prior = bindings.insert(key, binding);
    design.bindings = bindings;
    match prior {
        Some(p) => Ok(Command::UpsertBinding { binding: p }),
        None => Ok(Command::RemoveBinding { binding_id: id }),
    }
}

/// Remove a form; its inverse puts it back.
pub fn remove_form(design: &mut StudioDesign, form_id: &FormId) -> (r: Result<Command, DesignerDiagnostic>)
    ensures
        old(design).forms@.contains_key(form_id@) ==> {
            &&& r == Ok::<Command, DesignerDiagnostic>(Command::UpsertForm { form: old(design).forms@[form_id@] })
            &&& final(design).forms@ == old(design).forms@.remove(form_id@)
            &&& same_but_forms(*old(design), *final(design))
        },
        !old(design).forms@.contains_key(form_id@) ==> (r matches Err(d) && diag_view(d) == (
            "FORM_MISSING"@,
            DiagnosticSeverity::Error,
            "the form does not exist"@,
            None::<crate::ids::NodeId>,
            None::<crate::ids::InteractionId>,
            None::<CollectionId>,
            None::<BindingId>,
            Some(*form_id),
            None::<RecordId>,
        ) && *final(design) == *old(design)),
{
    if !design.forms.contains_key(form_id.as_str()) {
        return Err(content_diagnostic("FORM_MISSING", "the form does not exist", None, None, Some(form_id.copy()), None));
    }
    let mut forms = OrderedMap::new();
    std::mem::swap(&mut forms, &mut design.forms);
    let removed = forms.remove(form_id.as_str());
    design.forms = forms;
    match removed {
        Some(form) => Ok(Command::UpsertForm { form }),
        None => Err(content_diagnostic("FORM_MISSING", "the form does not exist", None, None, Some(form_id.copy()), None)),
    }
}

/// Add or replace a form. Its inverse removes it, or puts back the form it
/// replaced.
pub fn upsert_form(design: &mut StudioDesign, form: FormDefinition) -> (r: Result<Command, DesignerDiagnostic>)
    ensures
        match first_error(form_shape_issues(form, pattern_validity(form))) {
            Some(v) => r matches Err(d) && diag_view(d) == v && *final(design) == *old(design),
            None => if form.target_collection_id matches Some(t) && !old(design).collections@.contains_key(t@) {
                r matches Err(d) && diag_view(d) == collection_view(
                    "FORM_TARGET_COLLECTION_MISSING"@,
                    "form target collection does not exist"@,
                    form.target_collection_id->0,
                ) && *final(design) == *old(design)
            } else {
                &&& r == Ok::<Command, DesignerDiagnostic>(if old(design).forms@.contains_key(form.id@) {
                    Command::UpsertForm { form: old(design).forms@[form.id@] }
                } else {
                    Command::RemoveForm { form_id: form.id }
                })
                &&& final(design).forms@ == old(design).forms@.insert(form.id@, form)
                &&& same_but_forms(*old(design), *final(design))
            },
        },
{
    match take_first_error(validate_form_shape(&form)) {
        Some(d) => {
            return Err(d);
        },
        None => {},
    }
    match &form.target_collection_id {
        Some(target) => {
            if !design.collections.contains_key(target.as_str()) {
                return Err(content_diagnostic(
                    "FORM_TARGET_COLLECTION_MISSING",
                    "form target collection does not exist",
                    Some(target.copy()),
                    None,
                    None,
                    None,
                ));
            }
        },
        None => {},
    }
    let id = form.id.copy();
    let key = form.id.copy();
    let mut forms = OrderedMap::new();
    std::mem::swap(&mut forms, &mut design.forms);
    let prior = forms.insert(key, form);
    design.forms = forms;
    match prior {
        Some(p) => Ok(Command::UpsertForm { form: p }),
        None => Ok(Command::RemoveForm { form_id: id }),
    }
}

/// `b` is `a` with at most its records changed.
pub open spec fn same_but_records(a: ContentCollection, b: ContentCollection) -> bool {
    &&& a.schema_version == b.schema_version
    &&& a.id == b.id
    &&& a.name == b.name
    &&& a.schema == b.schema
    &&& a.fixture == b.fixture
}

/// The design after replacing the collection at `key` by `c`.
pub open spec fn collection_replaced(a: StudioDesign, b: StudioDesign, key: Seq<char>, c: ContentCollection) -> bool {
    &&& same_but_collections(a, b)
    &&& b.collections@ == a.collections@.insert(key, c)
}

/// The missing-collection diagnostic.
pub open spec fn collection_missing(collection_id: CollectionId) -> DiagView {
    collection_view("CONTENT_COLLECTION_MISSING"@, "the collection does not exist"@, collection_id)
}

fn missing_collection(collection_id: &CollectionId) -> (r: DesignerDiagnostic)
    ensures
        diag_view(r) == collection_missing(*collection_id),
{
    content_diagnostic("CONTENT_COLLECTION_MISSING", "the collection does not exist", Some(collection_id.copy()), None, None, None)
}

fn take_collection(design: &mut StudioDesign, collection_id: &CollectionId) -> (r: ContentCollection)
    requires
        old(design).collections@.contains_key(collection_id@),
    ensures
        r == old(design).collections@[collection_id@],
        final(design).collections@ == old(design).collections@.remove(collection_id@),
        same_but_collections(*old(design), *final(design)),
{
    let mut collections = OrderedMap::new();
    std::mem::swap(&mut collections, &mut design.collections);
    let removed = collections.remove(collection_id.as_str());
    design.collections = collections;
    removed.unwrap()
}

fn put_collection(design: &mut StudioDesign, collection_id: &CollectionId, c: ContentCollection)
    ensures
        final(design).collections@ == old(design).collections@.insert(collection_id@, c),
        same_but_collections(*old(design), *final(design)),
{
    let mut collections = OrderedMap::new();
    std::mem::swap(&mut collections, &mut design.collections);
    collections.insert(collection_id.copy(), c);
    design.collections = collections;
}

/// Add a record to a collection; its inverse deletes it.
pub fn create_record(design: &mut StudioDesign, collection_id: &CollectionId, record: ContentRecord) -> (r: Result<Command, DesignerDiagnostic>)
    ensures
        !old(design).collections@.contains_key(collection_id@) ==> (r matches Err(d) && diag_view(d) == collection_missing(*collection_id)
            && *final(design) == *old(design)),
        old(design).collections@.contains_key(collection_id@) ==> {
            let c = old(design).collections@[collection_id@];
            if c.records@.contains_key(record.id@) {
                r matches Err(d) && diag_view(d) == record_view(
                    "CONTENT_RECORD_EXISTS"@,
                    "a record with this identity already exists"@,
                    *collection_id,
                    record.id,
                ) && *final(design) == *old(design)
            } else if first_error(record_issues(c, record)) is Some {
                r matches Err(d) && Some(diag_view(d)) == first_error(record_issues(c, record)) && *final(design) == *old(design)
            } else {
                let c2 = final(design).collections@[collection_id@];
                &&& r == Ok::<Command, DesignerDiagnostic>(Command::DeleteRecord { collection_id: *collection_id, record_id: record.id })
                &&& collection_replaced(*old(design), *final(design), collection_id@, c2)
                &&& same_but_records(c, c2)
                &&& c2.records@ == c.records@.insert(record.id@, record)
            }
        },
{
    match design.collections.get(collection_id.as_str()) {
        None => {
            return Err(missing_collection(collection_id));
        },
        Some(c) => {
            if c.records.contains_key(record.id.as_str()) {
                return Err(content_diagnostic(
                    "CONTENT_RECORD_EXISTS",
                    "a record with this identity already exists",
                    Some(collection_id.copy()),
                    None,
                    None,
                    Some(record.id.copy()),
                ));
            }
            match take_first_error(validate_record(c, &record)) {
                Some(d) => {
                    return Err(d);
                },
                None => {},
            }
        },
    }
    let record_id = record.id.copy();
    let mut c = take_collection(design, collection_id);
    c.records.insert(record.id.copy(), record);
    put_collection(design, collection_id, c);
    assert(design.collections@ =~= old(design).collections@.insert(collection_id@, design.collections@[collection_id@]));
    Ok(Command::DeleteRecord { collection_id: collection_id.copy(), record_id })
}

/// Delete a record of a collection; its inverse creates it again.
pub fn delete_record(design: &mut StudioDesign, collection_id: &CollectionId, record_id: &RecordId) -> (r: Result<Command, DesignerDiagnostic>)
    ensures
        !old(design).collections@.contains_key(collection_id@) ==> (r matches Err(d) && diag_view(d) == collection_missing(*collection_id)
            && *final(design) == *old(design)),
        old(design).collections@.contains_key(collection_id@) ==> {
            let c = old(design).collections@[collection_id@];
            if !c.records@.contains_key(record_id@) {
                r matches Err(d) && diag_view(d) == record_view(
                    "CONTENT_RECORD_MISSING"@,
                    "the record does not exist"@,
                    *collection_id,
                    *record_id,
                ) && *final(design) == *old(design)
            } else {
                let c2 = final(design).collections@[collection_id@];
                &&& r == Ok::<Command, DesignerDiagnostic>(Command::CreateRecord { collection_id: *collection_id, record: c.records@[record_id@] })
                &&& collection_replaced(*old(design), *final(design), collection_id@, c2)
                &&& same_but_records(c, c2)
                &&& c2.records@ == c.records@.remove(record_id@)
            }
        },
{
    match design.collections.get(collection_id.as_str()) {
        None => {
            return Err(missing_collection(collection_id));
        },
        Some(c) => {
            if !c.records.contains_key(record_id.as_str()) {
                return Err(content_diagnostic(
                    "CONTENT_RECORD_MISSING",
                    "the record does not exist",
                    Some(collection_id.copy()),
                    None,
                    None,
                    Some(record_id.copy()),
                ));
            }
        },
    }
    let mut c = take_collection(design, collection_id);
    let removed = c.records.remove(record_id.as_str());
    put_collection(design, collection_id, c);
    assert(design.collections@ =~= old(design).collections@.insert(collection_id@, design.collections@[collection_id@]));
    Ok(Command::CreateRecord { collection_id: collection_id.copy(), record: removed.unwrap() })
}

/// Replace the values of a record; its inverse puts the old values back.
pub fn update_record(
    design: &mut StudioDesign,
    collection_id: &CollectionId,
    record_id: &RecordId,
    values: OrderedMap<String, PropertyValue>,
) -> (r: Result<Command, DesignerDiagnostic>)
    ensures
        !old(design).collections@.contains_key(collection_id@) ==> (r matches Err(d) && diag_view(d) == collection_missing(*collection_id)
            && *final(design) == *old(design)),
        old(design).collections@.contains_key(collection_id@) ==> {
            let c = old(design).collections@[collection_id@];
            let existing = c.records@[record_id@];
            let candidate = ContentRecord { schema_version: existing.schema_version, id: *record_id, values };
            if !c.records@.contains_key(record_id@) {
                r matches Err(d) && diag_view(d) == record_view(
                    "CONTENT_RECORD_MISSING"@,
                    "the record does not exist"@,
                    *collection_id,
                    *record_id,
                ) && *final(design) == *old(design)
            } else if first_error(record_issues(c, candidate)) is Some {
                r matches Err(d) && Some(diag_view(d)) == first_error(record_issues(c, candidate)) && *final(design) == *old(design)
            } else {
                let c2 = final(design).collections@[collection_id@];
                &&& r == Ok::<Command, DesignerDiagnostic>(Command::UpdateRecord {
                    collection_id: *collection_id,
                    record_id: *record_id,
                    values: existing.values,
                })
                &&& collection_replaced(*old(design), *final(design), collection_id@, c2)
                &&& same_but_records(c, c2)
                &&& c2.records@ == c.records@.insert(record_id@, ContentRecord { values, ..existing })
            }
        },
{
    let candidate = match design.collections.get(collection_id.as_str()) {
        None => {
            return Err(missing_collection(collection_id));
        },
        Some(c) => match c.records.get(record_id.as_str()) {
            None => {
                return Err(content_diagnostic(
                    "CONTENT_RECORD_MISSING",
                    "the record does not exist",
                    Some(collection_id.copy()),
                    None,
                    None,
                    Some(record_id.copy()),
                ));
            },
            Some(existing) => {
                let candidate = ContentRecord { schema_version: existing.schema_version, id: record_id.copy(), values };
                match take_first_error(validate_record(c, &candidate)) {
                    Some(d) => {
                        return Err(d);
                    },
                    None => {},
                }
                candidate
            },
        },
    };
    let mut c = take_collection(design, collection_id);
    let existing = c.records.remove(record_id.as_str()).unwrap();
    let ContentRecord { schema_version, id, values: prior } = existing;
    c.records.insert(record_id.copy(), ContentRecord { schema_version, id, values: candidate.values });
    put_collection(design, collection_id, c);
    assert(design.collections@ =~= old(design).collections@.insert(collection_id@, design.collections@[collection_id@]));
    Ok(Command::UpdateRecord { collection_id: collection_id.copy(), record_id: record_id.copy(), values: prior })
}

/// Whether some edge record of a fixture has an error against a collection.
pub open spec fn edge_invalid(c: ContentCollection, edges: Seq<ContentRecord>) -> bool {
    exists|i: int| 0 <= i < edges.len() && (#[trigger] first_error(record_issues(c, edges[i]))) is Some
}

fn any_edge_invalid(c: &ContentCollection, edges: &Vec<ContentRecord>) -> (r: bool)
    ensures
        r == edge_invalid(*c, edges@),
{
    let mut i: usize = 0;
    while i < edges.len()
        invariant
            i <= edges@.len(),
            forall|j: int| 0 <= j < i ==> (#[trigger] first_error(record_issues(*c, edges@[j]))) is None,
        decreases edges@.len() - i,
    {
        if take_first_error(validate_record(c, &edges[i])).is_some() {
            assert(first_error(record_issues(*c, edges@[i as int])) is Some);
            return true;
        }
        i = i + 1;
    }
    false
}

/// Replace the fixture of a collection; its inverse puts the old one back.
pub fn set_fixture(design: &mut StudioDesign, collection_id: &CollectionId, fixture: ContentFixture) -> (r: Result<Command, DesignerDiagnostic>)
    ensures
        first_error(fixture_issues(fixture)) is Some ==> (r matches Err(d) && Some(diag_view(d)) == first_error(fixture_issues(fixture))
            && *final(design) == *old(design)),
        first_error(fixture_issues(fixture)) is None ==> if !old(design).collections@.contains_key(collection_id@) {
            r matches Err(d) && diag_view(d) == collection_missing(*collection_id) && *final(design) == *old(design)
        } else {
            let c = old(design).collections@[collection_id@];
            if edge_invalid(c, fixture.edge_records@) {
                r matches Err(d) && diag_view(d) == collection_view(
                    "CONTENT_FIXTURE_EDGE_INVALID"@,
                    "an edge record does not match the collection schema"@,
                    *collection_id,
                ) && *final(design) == *old(design)
            } else {
                &&& r == Ok::<Command, DesignerDiagnostic>(Command::SetFixture { collection_id: *collection_id, fixture: c.fixture })
                &&& collection_replaced(*old(design), *final(design), collection_id@, ContentCollection { fixture, ..c })
            }
        },
{
    match take_first_error(validate_fixture(&fixture)) {
        Some(d) => {
            return Err(d);
        },
        None => {},
    }
    match design.collections.get(collection_id.as_str()) {
        None => {
            return Err(missing_collection(collection_id));
        },
        Some(c) => {
            if any_edge_invalid(c, &fixture.edge_records) {
                return Err(content_diagnostic(
                    "CONTENT_FIXTURE_EDGE_INVALID",
                    "an edge record does not match the collection schema",
                    Some(collection_id.copy()),
                    None,
                    None,
                    None,
                ));
            }
        },
    }
    let c = take_collection(design, collection_id);
    let ContentCollection { schema_version, id, name, schema, records, fixture: prior } = c;
    put_collection(design, collection_id, ContentCollection { schema_version, id, name, schema, records, fixture });
    assert(design.collections@ =~= old(design).collections@.insert(collection_id@, design.collections@[collection_id@]));
    Ok(Command::SetFixture { collection_id: collection_id.copy(), fixture: prior })
}

/// The bindings that do not read from a collection.
pub open spec fn bindings_without(m: Map<Seq<char>, ContentBinding>, collection: Seq<char>) -> Map<Seq<char>, ContentBinding> {
    Map::new(|k: Seq<char>| m.contains_key(k) && m[k].source.collection_id@ != collection, |k: Seq<char>| m[k])
}

fn drop_bindings_of(bindings: &mut OrderedMap<BindingId, ContentBinding>, collection_id: &CollectionId)
    ensures
        final(bindings)@ == bindings_without(old(bindings)@, collection_id@),
{
    bindings.reveal_entries();
    let ghost entries = bindings.entry_seq();
    let ghost start = bindings@;
    let mut doomed: Vec<BindingId> = Vec::new();
    let mut i: usize = 0;
    assert forall|k: int| 0 <= k < entries.len() implies start.contains_key(#[trigger] entries[k].0.key_view()) by {
        assert(keys_of(entries)[k] == entries[k].0.key_view());
        assert(keys_of(entries).contains(entries[k].0.key_view()));
    }
    while i < bindings.len()
        invariant
            i <= entries.len(),
            entries == bindings.entry_seq(),
            start == bindings@,
            forall|j: int| 0 <= j < doomed@.len() ==> start.contains_key(#[trigger] doomed@[j]@)
                && start[doomed@[j]@].source.collection_id@ == collection_id@,
            forall|k: int| 0 <= k < i && entries[k].1.source.collection_id@ == collection_id@ ==> exists|j: int|
                0 <= j < doomed@.len() && #[trigger] doomed@[j]@ == entries[k].0@,
            forall|k: int| 0 <= k < entries.len() ==> #[trigger] start[entries[k].0.key_view()] == entries[k].1,
            forall|k: int| 0 <= k < entries.len() ==> start.contains_key(#[trigger] entries[k].0.key_view()),
        decreases entries.len() - i,
    {
        if bindings.value_at(i).source.collection_id.same(collection_id) {
            let ghost before = doomed@;
            assert(start.contains_key(entries[i as int].0.key_view()));
            assert(start[entries[i as int].0.key_view()] == entries[i as int].1);
            assert(entries[i as int].0.key_view() == entries[i as int].0@);
            doomed.push(bindings.key_at(i).copy());
            assert(doomed@[before.len() as int]@ == entries[i as int].0@);
            assert forall|k: int| 0 <= k < i + 1 && entries[k].1.source.collection_id@ == collection_id@ implies exists|j: int|
                0 <= j < doomed@.len() && #[trigger] doomed@[j]@ == entries[k].0@ by {
                if k < i {
                    let j = choose|j: int| 0 <= j < before.len() && #[trigger] before[j]@ == entries[k].0@;
                    assert(doomed@[j] == before[j]);
                } else {
                    assert(doomed@[before.len() as int]@ == entries[k].0@);
                }
            }
        }
        i = i + 1;
    }
    let mut j: usize = 0;
    while j < doomed.len()
        invariant
            j <= doomed@.len(),
            forall|q: int| 0 <= q < doomed@.len() ==> start.contains_key(#[trigger] doomed@[q]@)
                && start[doomed@[q]@].source.collection_id@ == collection_id@,
            bindings@ == Map::new(|k: Seq<char>| start.contains_key(k) && !listed(doomed@, j as int, k), |k: Seq<char>| start[k]),
        decreases doomed@.len() - j,
    {
        bindings.remove(doomed[j].as_str());
        assert forall|k: Seq<char>| #[trigger] listed(doomed@, j + 1, k) <==> (listed(doomed@, j as int, k) || doomed@[j as int]@ == k) by {
            if listed(doomed@, j + 1, k) {
                let q = choose|q: int| 0 <= q < j + 1 && #[trigger] doomed@[q]@ == k;
                if q < j {
                    assert(doomed@[q]@ == k);
                }
            }
            if doomed@[j as int]@ == k {
                assert(doomed@[j as int]@ == k);
            }
        }
        assert(bindings@ =~= Map::new(|k: Seq<char>| start.contains_key(k) && !listed(doomed@, j + 1, k), |k: Seq<char>| start[k]));
        j = j + 1;
    }
    assert(bindings@ =~= bindings_without(start, collection_id@)) by {
        assert forall|k: Seq<char>| start.contains_key(k) implies (#[trigger] listed(doomed@, doomed@.len() as int, k)
            <==> start[k].source.collection_id@ == collection_id@) by {
            if start[k].source.collection_id@ == collection_id@ {
                assert(keys_of(entries).contains(k));
                let e = choose|e: int| 0 <= e < keys_of(entries).len() && keys_of(entries)[e] == k;
                assert(entries[e].0.key_view() == k);
                assert(start[entries[e].0.key_view()] == entries[e].1);
                let jq = choose|jq: int| 0 <= jq < doomed@.len() && #[trigger] doomed@[jq]@ == entries[e].0@;
                assert(doomed@[jq]@ == k);
            }
            if listed(doomed@, doomed@.len() as int, k) {
                let q = choose|q: int| 0 <= q < doomed@.len() && #[trigger] doomed@[q]@ == k;
                assert(start.contains_key(doomed@[q]@));
            }
        }
    }
}

/// Whether one of the first `n` identities has the text `k`.
pub open spec fn listed(ids: Seq<BindingId>, n: int, k: Seq<char>) -> bool {
    exists|q: int| 0 <= q < n && #[trigger] ids[q]@ == k
}

/// Delete a collection with its records, and the bindings that read from
/// it; the inverse creates the collection again.
pub fn delete_collection(design: &mut StudioDesign, collection_id: &CollectionId) -> (r: Result<Command, DesignerDiagnostic>)
    ensures
        !old(design).collections@.contains_key(collection_id@) ==> (r matches Err(d) && diag_view(d) == collection_missing(*collection_id)
            && *final(design) == *old(design)),
        old(design).collections@.contains_key(collection_id@) ==> {
            &&& r == Ok::<Command, DesignerDiagnostic>(Command::CreateCollection { collection: old(design).collections@[collection_id@] })
            &&& final(design).collections@ == old(design).collections@.remove(collection_id@)
            &&& final(design).bindings@ == bindings_without(old(design).bindings@, collection_id@)
            &&& final(design).nodes == old(design).nodes
            &&& final(design).parents == old(design).parents
            &&& final(design).screens == old(design).screens
            &&& final(design).screen_order == old(design).screen_order
            &&& final(design).compositions == old(design).compositions
            &&& final(design).tokens == old(design).tokens
            &&& final(design).responsive_variants == old(design).responsive_variants
            &&& final(design).interactions == old(design).interactions
            &&& final(design).forms == old(design).forms
            &&& final(design).schema_version == old(design).schema_version
            &&& final(design).project_id == old(design).project_id
            &&& final(design).name == old(design).name
        },
{
    if !design.collections.contains_key(collection_id.as_str()) {
        return Err(missing_collection(collection_id));
    }
    let collection = take_collection(design, collection_id);
    let mut bindings = OrderedMap::new();
    std::mem::swap(&mut bindings, &mut design.bindings);
    drop_bindings_of(&mut bindings, collection_id);
    design.bindings = bindings;
    Ok(Command::CreateCollection { collection })
}

/// A diagnostic attributed to a collection.
pub open spec fn with_collection(v: DiagView, id: CollectionId) -> DiagView {
    (v.0, v.1, v.2, v.3, v.4, Some(id), v.6, v.7, v.8)
}

/// The first error of the records, in identity order.
pub open spec fn first_record_error(c: ContentCollection, recs: Seq<(RecordId, ContentRecord)>) -> Option<DiagView>
    decreases recs.len(),
{
    if recs.len() == 0 {
        None
    } else {
        match first_error(record_issues(c, recs[0].1)) {
            Some(v) => Some(v),
            None => first_record_error(c, recs.drop_first()),
        }
    }
}

/// Why a collection cannot be stored, if it cannot: an unsupported schema
/// version, an unsafe name, the first error of its schema or its fixture
/// (attributed to the collection), the first error of its records, or an
/// edge record that does not match its schema.
pub open spec fn collection_problem(c: ContentCollection) -> Option<DiagView> {
    if c.schema_version != crate::model::STUDIO_DESIGN_SCHEMA_VERSION {
        Some(collection_view("CONTENT_COLLECTION_SCHEMA_INVALID"@, "collection has an unsupported schema version"@, c.id))
    } else if crate::text::trim_whitespace(c.name@).len() == 0 || vstd::utf8::encode_utf8(c.name@).len() > 256
        || crate::text::has_control(c.name@) {
        Some(collection_view("CONTENT_COLLECTION_NAME_INVALID"@, "collection name must be 1..=256 safe bytes"@, c.id))
    } else if first_error(schema_issues(c.schema)) is Some {
        Some(with_collection(first_error(schema_issues(c.schema))->0, c.id))
    } else if first_error(fixture_issues(c.fixture)) is Some {
        Some(with_collection(first_error(fixture_issues(c.fixture))->0, c.id))
    } else if first_record_error(c, c.records.entry_seq()) is Some {
        first_record_error(c, c.records.entry_seq())
    } else if edge_invalid(c, c.fixture.edge_records@) {
        Some(collection_view("CONTENT_FIXTURE_EDGE_INVALID"@, "an edge record does not match the collection schema"@, c.id))
    } else {
        None
    }
}

fn records_error(c: &ContentCollection) -> (r: Option<DesignerDiagnostic>)
    ensures
        match first_record_error(*c, c.records.entry_seq()) {
            Some(v) => r matches Some(d) && diag_view(d) == v,
            None => r is None,
        },
{
    let ghost all = c.records.entry_seq();
    let mut i: usize = 0;
    assert(all.skip(0) =~= all);
    while i < c.records.len()
        invariant
            i <= all.len(),
            all == c.records.entry_seq(),
            first_record_error(*c, all) == first_record_error(*c, all.skip(i as int)),
        decreases all.len() - i,
    {
        assert(all.skip(i as int).drop_first() =~= all.skip(i + 1));
        assert(all.skip(i as int)[0] == all[i as int]);
        match take_first_error(validate_record(c, c.records.value_at(i))) {
            Some(d) => {
                return Some(d);
            },
            None => {},
        }
        i = i + 1;
    }
    assert(all.skip(i as int) =~= Seq::<(RecordId, ContentRecord)>::empty());
    None
}

fn attributed(d: Option<DesignerDiagnostic>, id: &CollectionId) -> (r: Option<DesignerDiagnostic>)
    ensures
        match d {
            Some(x) => r matches Some(y) && diag_view(y) == with_collection(diag_view(x), *id),
            None => r is None,
        },
{
    match d {
        Some(x) => Some(DesignerDiagnostic { collection_id: Some(id.copy()), ..x }),
        None => None,
    }
}

/// Check a collection before it is stored.
pub fn validate_content_collection(c: &ContentCollection) -> (r: Result<(), DesignerDiagnostic>)
    ensures
        match collection_problem(*c) {
            Some(v) => r matches Err(d) && diag_view(d) == v,
            None => r is Ok,
        },
{
    if c.schema_version != crate::model::STUDIO_DESIGN_SCHEMA_VERSION {
        return Err(content_diagnostic(
            "CONTENT_COLLECTION_SCHEMA_INVALID",
            "collection has an unsupported schema version",
            Some(c.id.copy()),
            None,
            None,
            None,
        ));
    }
    if crate::content::is_blank(c.name.as_str()) || crate::content::longer_than_256_bytes(c.name.as_str())
        || crate::text::contains_control(c.name.as_str()) {
        return Err(content_diagnostic(
            "CONTENT_COLLECTION_NAME_INVALID",
            "collection name must be 1..=256 safe bytes",
            Some(c.id.copy()),
            None,
            None,
            None,
        ));
    }
    match attributed(take_first_error(crate::content::validate_collection_schema(&c.schema)), &c.id) {
        Some(d) => {
            return Err(d);
        },
        None => {},
    }
    match attributed(take_first_error(validate_fixture(&c.fixture)), &c.id) {
        Some(d) => {
            return Err(d);
        },
        None => {},
    }
    match records_error(c) {
        Some(d) => {
            return Err(d);
        },
        None => {},
    }
    if any_edge_invalid(c, &c.fixture.edge_records) {
        return Err(content_diagnostic(
            "CONTENT_FIXTURE_EDGE_INVALID",
            "an edge record does not match the collection schema",
            Some(c.id.copy()),
            None,
            None,
            None,
        ));
    }
    Ok(())
}

/// Store a new collection; its inverse deletes it.
pub fn create_collection(design: &mut StudioDesign, collection: ContentCollection) -> (r: Result<Command, DesignerDiagnostic>)
    ensures
        old(design).collections@.contains_key(collection.id@) ==> (r matches Err(d) && diag_view(d) == collection_view(
            "CONTENT_COLLECTION_EXISTS"@,
            "a collection with this identity already exists"@,
            collection.id,
        ) && *final(design) == *old(design)),
        !old(design).collections@.contains_key(collection.id@) ==> match collection_problem(collection) {
            Some(v) => r matches Err(d) && diag_view(d) == v && *final(design) == *old(design),
            None => {
                &&& r == Ok::<Command, DesignerDiagnostic>(Command::DeleteCollection { collection_id: collection.id })
                &&& collection_replaced(*old(design), *final(design), collection.id@, collection)
            },
        },
{
    if design.collections.contains_key(collection.id.as_str()) {
        return Err(content_diagnostic(
            "CONTENT_COLLECTION_EXISTS",
            "a collection with this identity already exists",
            Some(collection.id.copy()),
            None,
            None,
            None,
        ));
    }
    match validate_content_collection(&collection) {
        Err(d) => {
            return Err(d);
        },
        Ok(()) => {},
    }
    let id = collection.id.copy();
    let key = collection.id.copy();
    put_collection(design, &key, collection);
    Ok(Command::DeleteCollection { collection_id: id })
}

/// The refusal of a schema that one of the records would break: the first
/// record, in identity order, that has an error against the new schema.
pub open spec fn schema_break(
    collection_id: CollectionId,
    temp: ContentCollection,
    recs: Seq<(RecordId, ContentRecord)>,
) -> Option<DiagView>
    decreases recs.len(),
{
    if recs.len() == 0 {
        None
    } else if first_error(record_issues(temp, recs[0].1)) is Some {
        Some(collection_view(
            "CONTENT_SCHEMA_BREAKS_RECORDS"@,
            "new schema would invalidate record '"@ + recs[0].1.id@ + "': "@ + record_issues(temp, recs[0].1)[0].2,
            collection_id,
        ))
    } else {
        schema_break(collection_id, temp, recs.drop_first())
    }
}

fn breaking_record(collection_id: &CollectionId, temp: &ContentCollection) -> (r: Option<DesignerDiagnostic>)
    ensures
        match schema_break(*collection_id, *temp, temp.records.entry_seq()) {
            Some(v) => r matches Some(d) && diag_view(d) == v,
            None => r is None,
        },
{
    let ghost all = temp.records.entry_seq();
    let mut i: usize = 0;
    assert(all.skip(0) =~= all);
    while i < temp.records.len()
        invariant
            i <= all.len(),
            all == temp.records.entry_seq(),
            schema_break(*collection_id, *temp, all) == schema_break(*collection_id, *temp, all.skip(i as int)),
        decreases all.len() - i,
    {
        assert(all.skip(i as int).drop_first() =~= all.skip(i + 1));
        assert(all.skip(i as int)[0] == all[i as int]);
        let record = temp.records.value_at(i);
        let ds = validate_record(temp, record);
        let first_message = if ds.len() > 0 {
            ds[0].message.clone()
        } else {
            String::new()
        };
        if take_first_error(ds).is_some() {
            let mut message = String::from_str("new schema would invalidate record '");
            message.append(record.id.as_str());
            message.append("': ");
            message.append(first_message.as_str());
            return Some(content_diagnostic_owned("CONTENT_SCHEMA_BREAKS_RECORDS", message, collection_id.copy()));
        }
        i = i + 1;
    }
    assert(all.skip(i as int) =~= Seq::<(RecordId, ContentRecord)>::empty());
    None
}

fn content_diagnostic_owned(code: &str, message: String, collection_id: CollectionId) -> (r: DesignerDiagnostic)
    ensures
        diag_view(r) == collection_view(code@, message@, collection_id),
{
    DesignerDiagnostic {
        code: String::from_str(code),
        severity: DiagnosticSeverity::Error,
        message,
        node_id: None,
        interaction_id: None,
        collection_id: Some(collection_id),
        binding_id: None,
        form_id: None,
        record_id: None,
    }
}

/// Replace the schema of a collection when its records still satisfy it;
/// the inverse puts the old schema back.
pub fn update_collection_schema(
    design: &mut StudioDesign,
    collection_id: &CollectionId,
    schema: ContentCollectionSchema,
) -> (r: Result<Command, DesignerDiagnostic>)
    ensures
        first_error(schema_issues(schema)) is Some ==> (r matches Err(d) && Some(diag_view(d)) == first_error(schema_issues(schema))
            && *final(design) == *old(design)),
        first_error(schema_issues(schema)) is None ==> if !old(design).collections@.contains_key(collection_id@) {
            r matches Err(d) && diag_view(d) == collection_missing(*collection_id) && *final(design) == *old(design)
        } else {
            let c = old(design).collections@[collection_id@];
            let temp = ContentCollection { schema, ..c };
            match schema_break(*collection_id, temp, c.records.entry_seq()) {
                Some(v) => r matches Err(d) && diag_view(d) == v && final(design).collections@ == old(design).collections@
                    && same_but_collections(*old(design), *final(design)),
                None => {
                    &&& r == Ok::<Command, DesignerDiagnostic>(Command::UpdateCollectionSchema { collection_id: *collection_id, schema: c.schema })
                    &&& collection_replaced(*old(design), *final(design), collection_id@, temp)
                },
            }
        },
{
    match take_first_error(crate::content::validate_collection_schema(&schema)) {
        Some(d) => {
            return Err(d);
        },
        None => {},
    }
    if !design.collections.contains_key(collection_id.as_str()) {
        return Err(missing_collection(collection_id));
    }
    let c = take_collection(design, collection_id);
    let ContentCollection { schema_version, id, name, schema: prior, records, fixture } = c;
    let temp = ContentCollection { schema_version, id, name, schema, records, fixture };
    match breaking_record(collection_id, &temp) {
        Some(d) => {
            let ContentCollection { schema_version, id, name, schema: _, records, fixture } = temp;
            put_collection(design, collection_id, ContentCollection { schema_version, id, name, schema: prior, records, fixture });
            assert(design.collections@ =~= old(design).collections@);
            Err(d)
        },
        None => {
            put_collection(design, collection_id, temp);
            assert(design.collections@ =~= old(design).collections@.insert(collection_id@, design.collections@[collection_id@]));
            Ok(Command::UpdateCollectionSchema { collection_id: collection_id.copy(), schema: prior })
        },
    }
}

} // verus!
