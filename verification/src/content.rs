//! Schema-aware content collections, typed bindings, fixture previews, and
//! declarative form validation.
//!
//! Everything here is a pure function of owned snapshots: the same inputs
//! always give the same diagnostics, previews and values.
use vstd::prelude::*;
use vstd::string::StringExecFns;
use vstd::utf8::encode_utf8;

use crate::ids::{BindingId, CollectionId, FormId, InteractionId, NodeId, RecordId, copy_opt_id, valid_identity};
use crate::model::{
    ContentBinding, ContentCollection, ContentCollectionSchema, ContentFieldKind, ContentFixture,
    ContentRecord, DesignerDiagnostic, DiagnosticSeverity, FixtureKind, FormDefinition, FormFieldSchema,
    FormValidationResult, PropertyValue,
    STUDIO_DESIGN_SCHEMA_VERSION, StudioDesign, same_value,
};
use crate::ordered_map::{MapKey, OrderedMap};
use crate::text::{has_control, trim_whitespace};

verus! {

/// Every observable field of a diagnostic: code, severity, message and its
/// node, interaction, collection, binding, form and record links.
pub type DiagView = (
    Seq<char>,
    DiagnosticSeverity,
    Seq<char>,
    Option<NodeId>,
    Option<InteractionId>,
    Option<CollectionId>,
    Option<BindingId>,
    Option<FormId>,
    Option<RecordId>,
);

/// The observable fields of a diagnostic.
pub open spec fn diag_view(d: DesignerDiagnostic) -> DiagView {
    (d.code@, d.severity, d.message@, d.node_id, d.interaction_id, d.collection_id, d.binding_id, d.form_id, d.record_id)
}

/// The observable fields of each diagnostic, in order.
pub open spec fn views(ds: Seq<DesignerDiagnostic>) -> Seq<DiagView> {
    ds.map_values(|d: DesignerDiagnostic| diag_view(d))
}

/// Build a diagnostic from its fields.
fn diagnostic(
    code: &str,
    severity: DiagnosticSeverity,
    message: String,
    node_id: Option<NodeId>,
    collection_id: Option<CollectionId>,
    binding_id: Option<BindingId>,
    form_id: Option<FormId>,
    record_id: Option<RecordId>,
) -> (r: DesignerDiagnostic)
    ensures
        diag_view(r) == (code@, severity, message@, node_id, None::<InteractionId>, collection_id, binding_id, form_id, record_id),
{
    DesignerDiagnostic {
        code: String::from_str(code),
        severity,
        message,
        node_id,
        interaction_id: None,
        collection_id,
        binding_id,
        form_id,
        record_id,
    }
}

/// Push `d` onto `ds`.
pub(crate) fn push_diagnostic(ds: &mut Vec<DesignerDiagnostic>, d: DesignerDiagnostic)
    ensures
        views(final(ds)@) == views(old(ds)@).push(diag_view(d)),
{
    let ghost before = ds@;
    ds.push(d);
    assert(views(ds@) =~= views(before).push(diag_view(d)));
}

/// Append `more` to `ds`.
pub(crate) fn append_all(ds: &mut Vec<DesignerDiagnostic>, more: Vec<DesignerDiagnostic>)
    ensures
        views(final(ds)@) == views(old(ds)@) + views(more@),
{
    let mut more = more;
    let ghost a = ds@;
    let ghost b = more@;
    ds.append(&mut more);
    assert(views(ds@) =~= views(a) + views(b));
}

/// A string of `s`.
fn owned(s: &str) -> (r: String)
    ensures
        r@ == s@,
{
    String::from_str(s)
}

/// `a` followed by `b` and `c`.
fn concat3(a: &str, b: &str, c: &str) -> (r: String)
    ensures
        r@ == a@ + b@ + c@,
{
    let mut s = String::from_str(a);
    s.append(b);
    s.append(c);
    s
}

/// A field name is `1..=128` UTF-8 bytes without control characters.
pub open spec fn valid_field_name(s: Seq<char>) -> bool {
    valid_identity(s)
}

/// Whether a value has the shape a field kind expects.
pub open spec fn kind_matches(value: PropertyValue, kind: ContentFieldKind) -> bool {
    match value {
        PropertyValue::String(_) => kind == ContentFieldKind::String,
        PropertyValue::Integer(_) => kind == ContentFieldKind::Integer,
        PropertyValue::Decimal(_) => kind == ContentFieldKind::Decimal,
        PropertyValue::Boolean(_) => kind == ContentFieldKind::Boolean,
        PropertyValue::Color(_) => kind == ContentFieldKind::Color,
        PropertyValue::Length(_) => kind == ContentFieldKind::Length,
        PropertyValue::Asset(_) => kind == ContentFieldKind::Asset,
        _ => false,
    }
}

/// Whether a property value matches a content field kind for typed bindings.
pub fn property_value_matches_kind(value: &PropertyValue, kind: ContentFieldKind) -> (r: bool)
    ensures
        r == kind_matches(*value, kind),
{
    match value {
        PropertyValue::String(_) => kind == ContentFieldKind::String,
        PropertyValue::Integer(_) => kind == ContentFieldKind::Integer,
        PropertyValue::Decimal(_) => kind == ContentFieldKind::Decimal,
        PropertyValue::Boolean(_) => kind == ContentFieldKind::Boolean,
        PropertyValue::Color(_) => kind == ContentFieldKind::Color,
        PropertyValue::Length(_) => kind == ContentFieldKind::Length,
        PropertyValue::Asset(_) => kind == ContentFieldKind::Asset,
        _ => false,
    }
}

/// Whether a fallback value is compatible with a binding's expected kind.
pub fn fallback_matches_kind(fallback: &PropertyValue, kind: ContentFieldKind) -> (r: bool)
    ensures
        r == kind_matches(*fallback, kind),
{
    property_value_matches_kind(fallback, kind)
}

/// The name of a value's type.
pub open spec fn value_kind_name(value: PropertyValue) -> Seq<char> {
    match value {
        PropertyValue::String(_) => "String"@,
        PropertyValue::Boolean(_) => "Boolean"@,
        PropertyValue::Integer(_) => "Integer"@,
        PropertyValue::Decimal(_) => "Decimal"@,
        PropertyValue::Length(_) => "Length"@,
        PropertyValue::Color(_) => "Color"@,
        PropertyValue::Token(_) => "Token"@,
        PropertyValue::Binding(_) => "Binding"@,
        PropertyValue::Node(_) => "Node"@,
        PropertyValue::Asset(_) => "Asset"@,
        PropertyValue::List(_) => "List"@,
    }
}

fn value_type_name(value: &PropertyValue) -> (r: &'static str)
    ensures
        r@ == value_kind_name(*value),
{
    match value {
        PropertyValue::String(_) => "String",
        PropertyValue::Boolean(_) => "Boolean",
        PropertyValue::Integer(_) => "Integer",
        PropertyValue::Decimal(_) => "Decimal",
        PropertyValue::Length(_) => "Length",
        PropertyValue::Color(_) => "Color",
        PropertyValue::Token(_) => "Token",
        PropertyValue::Binding(_) => "Binding",
        PropertyValue::Node(_) => "Node",
        PropertyValue::Asset(_) => "Asset",
        PropertyValue::List(_) => "List",
    }
}

/// The name of a field kind.
pub open spec fn kind_name(kind: ContentFieldKind) -> Seq<char> {
    match kind {
        ContentFieldKind::String => "String"@,
        ContentFieldKind::Integer => "Integer"@,
        ContentFieldKind::Decimal => "Decimal"@,
        ContentFieldKind::Boolean => "Boolean"@,
        ContentFieldKind::Color => "Color"@,
        ContentFieldKind::Length => "Length"@,
        ContentFieldKind::Asset => "Asset"@,
    }
}

fn kind_label(kind: ContentFieldKind) -> (r: &'static str)
    ensures
        r@ == kind_name(kind),
{
    match kind {
        ContentFieldKind::String => "String",
        ContentFieldKind::Integer => "Integer",
        ContentFieldKind::Decimal => "Decimal",
        ContentFieldKind::Boolean => "Boolean",
        ContentFieldKind::Color => "Color",
        ContentFieldKind::Length => "Length",
        ContentFieldKind::Asset => "Asset",
    }
}

/// An error diagnostic that links nothing.
pub open spec fn plain_error(code: Seq<char>, message: Seq<char>) -> DiagView {
    (code, DiagnosticSeverity::Error, message, None, None, None, None, None, None)
}

/// Field-name diagnostics for schema fields, in name order.
pub open spec fn schema_field_issues(names: Seq<Seq<char>>) -> Seq<DiagView>
    decreases names.len(),
{
    if names.len() == 0 {
        Seq::empty()
    } else {
        let prev = schema_field_issues(names.drop_last());
        let name = names.last();
        if valid_field_name(name) {
            prev
        } else {
            prev.push(plain_error("CONTENT_FIELD_NAME_INVALID"@, "field name '"@ + name + "' must be 1..=128 safe bytes"@))
        }
    }
}

/// The diagnostics of a collection schema: an unsupported version, no
/// fields, and each invalid field name.
pub open spec fn schema_issues(schema: ContentCollectionSchema) -> Seq<DiagView> {
    let version = if schema.schema_version != STUDIO_DESIGN_SCHEMA_VERSION {
        seq![plain_error("CONTENT_SCHEMA_VERSION_INVALID"@, "a collection schema has an unsupported schema version"@)]
    } else {
        Seq::empty()
    };
    let empty = if schema.fields.key_seq().len() == 0 {
        seq![plain_error("CONTENT_SCHEMA_EMPTY"@, "a collection schema must declare at least one field"@)]
    } else {
        Seq::empty()
    };
    version + empty + schema_field_issues(schema.fields.key_seq())
}

/// Validate a collection schema.
pub fn validate_collection_schema(schema: &ContentCollectionSchema) -> (r: Vec<DesignerDiagnostic>)
    ensures
        views(r@) == schema_issues(*schema),
{
    let mut ds: Vec<DesignerDiagnostic> = Vec::new();
    if schema.schema_version != STUDIO_DESIGN_SCHEMA_VERSION {
        push_diagnostic(&mut ds, diagnostic("CONTENT_SCHEMA_VERSION_INVALID", DiagnosticSeverity::Error, owned("a collection schema has an unsupported schema version"), None, None, None, None, None));
    }
    if schema.fields.is_empty() {
        push_diagnostic(&mut ds, diagnostic("CONTENT_SCHEMA_EMPTY", DiagnosticSeverity::Error, owned("a collection schema must declare at least one field"), None, None, None, None, None));
    }
    let ghost head = views(ds@);
    let ghost names = schema.fields.key_seq();
    let n = schema.fields.len();
    let mut i: usize = 0;
    while i < n
        invariant
            i <= n,
            n == names.len(),
            names == schema.fields.key_seq(),
            views(ds@) == head + schema_field_issues(names.take(i as int)),
        decreases n - i,
    {
        let name = schema.fields.key_at(i);
        assert(names[i as int] == name@);
        assert(names.take(i + 1).drop_last() == names.take(i as int));
        assert(names.take(i + 1).last() == name@);
        if !crate::ids::is_valid_identity(name.as_str()) {
            let message = concat3("field name '", name.as_str(), "' must be 1..=128 safe bytes");
            push_diagnostic(&mut ds, diagnostic("CONTENT_FIELD_NAME_INVALID", DiagnosticSeverity::Error, message, None, None, None, None, None));
        }
        assert(views(ds@) =~= head + schema_field_issues(names.take(i + 1)));
        i = i + 1;
    }
    assert(names.take(n as int) == names);
    assert(views(ds@) =~= schema_issues(*schema));
    ds
}

/// A record diagnostic linking its collection and record.
pub open spec fn record_error(collection: ContentCollection, record: ContentRecord, code: Seq<char>, message: Seq<char>) -> DiagView {
    (code, DiagnosticSeverity::Error, message, None, None, Some(collection.id), None, None, Some(record.id))
}

/// Diagnostics for the schema fields of a record, in field order: a missing
/// required field, or a present value of the wrong kind.
pub open spec fn record_field_issues(
    collection: ContentCollection,
    record: ContentRecord,
    fields: Seq<(String, crate::model::ContentFieldSchema)>,
) -> Seq<DiagView>
    decreases fields.len(),
{
    if fields.len() == 0 {
        Seq::empty()
    } else {
        let prev = record_field_issues(collection, record, fields.drop_last());
        let name = fields.last().0@;
        let field = fields.last().1;
        if !record.values@.contains_key(name) {
            if field.required {
                prev.push(record_error(collection, record, "CONTENT_RECORD_REQUIRED_MISSING"@, "required field '"@ + name + "' is missing"@))
            } else {
                prev
            }
        } else if !kind_matches(record.values@[name], field.kind) {
            prev.push(record_error(collection, record, "CONTENT_RECORD_TYPE_MISMATCH"@,
                "field '"@ + name + "' expected "@ + kind_name(field.kind) + " but found "@ + value_kind_name(record.values@[name])))
        } else {
            prev
        }
    }
}

/// Diagnostics for record values that the schema does not declare, in
/// name order.
pub open spec fn unknown_field_issues(collection: ContentCollection, record: ContentRecord, names: Seq<Seq<char>>) -> Seq<DiagView>
    decreases names.len(),
{
    if names.len() == 0 {
        Seq::empty()
    } else {
        let prev = unknown_field_issues(collection, record, names.drop_last());
        let name = names.last();
        if collection.schema.fields@.contains_key(name) {
            prev
        } else {
            prev.push(record_error(collection, record, "CONTENT_RECORD_UNKNOWN_FIELD"@,
                "field '"@ + name + "' is not declared in the collection schema"@))
        }
    }
}

/// The diagnostics of a record against its collection.
pub open spec fn record_issues(collection: ContentCollection, record: ContentRecord) -> Seq<DiagView> {
    let version = if record.schema_version != STUDIO_DESIGN_SCHEMA_VERSION {
        seq![record_error(collection, record, "CONTENT_RECORD_SCHEMA_INVALID"@, "a record has an unsupported schema version"@)]
    } else {
        Seq::empty()
    };
    version + record_field_issues(collection, record, collection.schema.fields.entry_seq())
        + unknown_field_issues(collection, record, record.values.key_seq())
}

fn record_diagnostic(collection: &ContentCollection, record: &ContentRecord, code: &str, message: String) -> (r: DesignerDiagnostic)
    ensures
        diag_view(r) == record_error(*collection, *record, code@, message@),
{
    diagnostic(code, DiagnosticSeverity::Error, message, None, Some(collection.id.copy()), None, None, Some(record.id.copy()))
}

/// Validate that a record conforms to its collection schema.
pub fn validate_record(collection: &ContentCollection, record: &ContentRecord) -> (r: Vec<DesignerDiagnostic>)
    ensures
        views(r@) == record_issues(*collection, *record),
{
    let mut ds: Vec<DesignerDiagnostic> = Vec::new();
    if record.schema_version != STUDIO_DESIGN_SCHEMA_VERSION {
        push_diagnostic(&mut ds, record_diagnostic(collection, record, "CONTENT_RECORD_SCHEMA_INVALID", owned("a record has an unsupported schema version")));
    }
    let ghost head = views(ds@);
    let ghost fields = collection.schema.fields.entry_seq();
    let n = collection.schema.fields.len();
    let mut i: usize = 0;
    while i < n
        invariant
            i <= n,
            n == fields.len(),
            fields == collection.schema.fields.entry_seq(),
            views(ds@) == head + record_field_issues(*collection, *record, fields.take(i as int)),
        decreases n - i,
    {
        let name = collection.schema.fields.key_at(i);
        let field = collection.schema.fields.value_at(i);
        assert(fields.take(i + 1).drop_last() == fields.take(i as int));
        assert(fields.take(i + 1).last() == fields[i as int]);
        match record.values.get(name.as_str()) {
            None => {
                if field.required {
                    let message = concat3("required field '", name.as_str(), "' is missing");
                    push_diagnostic(&mut ds, record_diagnostic(collection, record, "CONTENT_RECORD_REQUIRED_MISSING", message));
                }
            },
            Some(value) => {
                if !property_value_matches_kind(value, field.kind) {
                    let mut message = owned("field '");
                    message.append(name.as_str());
                    message.append("' expected ");
                    message.append(kind_label(field.kind));
                    message.append(" but found ");
                    message.append(value_type_name(value));
                    push_diagnostic(&mut ds, record_diagnostic(collection, record, "CONTENT_RECORD_TYPE_MISMATCH", message));
                }
            },
        }
        assert(views(ds@) =~= head + record_field_issues(*collection, *record, fields.take(i + 1)));
        i = i + 1;
    }
    assert(fields.take(n as int) == fields);
    let ghost mid = views(ds@);
    let ghost names = record.values.key_seq();
    let m = record.values.len();
    let mut j: usize = 0;
    while j < m
        invariant
            j <= m,
            m == names.len(),
            names == record.values.key_seq(),
            views(ds@) == mid + unknown_field_issues(*collection, *record, names.take(j as int)),
        decreases m - j,
    {
        let name = record.values.key_at(j);
        assert(names[j as int] == name@);
        assert(names.take(j + 1).drop_last() == names.take(j as int));
        assert(names.take(j + 1).last() == name@);
        if !collection.schema.fields.contains_key(name.as_str()) {
            let message = concat3("field '", name.as_str(), "' is not declared in the collection schema");
            push_diagnostic(&mut ds, record_diagnostic(collection, record, "CONTENT_RECORD_UNKNOWN_FIELD", message));
        }
        assert(views(ds@) =~= mid + unknown_field_issues(*collection, *record, names.take(j + 1)));
        j = j + 1;
    }
    assert(names.take(m as int) == names);
    assert(views(ds@) =~= record_issues(*collection, *record));
    ds
}

/// The diagnostics of a fixture declaration: an unsupported version, an
/// edge fixture without edge records, an error message on a fixture that is
/// not an error fixture, and an error fixture whose message is blank.
pub open spec fn fixture_issues(fixture: ContentFixture) -> Seq<DiagView> {
    let version = if fixture.schema_version != STUDIO_DESIGN_SCHEMA_VERSION {
        seq![plain_error("CONTENT_FIXTURE_SCHEMA_INVALID"@, "a fixture has an unsupported schema version"@)]
    } else {
        Seq::empty()
    };
    let edge = if fixture.kind == FixtureKind::Edge && fixture.edge_records@.len() == 0 {
        seq![plain_error("CONTENT_FIXTURE_EDGE_EMPTY"@, "an edge fixture must provide at least one edge record"@)]
    } else {
        Seq::empty()
    };
    let misplaced = if fixture.kind != FixtureKind::Error && fixture.error_message is Some {
        seq![plain_error("CONTENT_FIXTURE_ERROR_MESSAGE_MISPLACED"@, "only an error fixture may carry an error message"@)]
    } else {
        Seq::empty()
    };
    let text = match fixture.error_message {
        Some(m) => m@,
        None => Seq::empty(),
    };
    let blank = if fixture.kind == FixtureKind::Error && trim_whitespace(text).len() == 0 {
        seq![plain_error("CONTENT_FIXTURE_ERROR_EMPTY"@, "an error fixture must provide a non-empty error message"@)]
    } else {
        Seq::empty()
    };
    version + edge + misplaced + blank
}

/// Validate a fixture declaration.
pub fn validate_fixture(fixture: &ContentFixture) -> (r: Vec<DesignerDiagnostic>)
    ensures
        views(r@) == fixture_issues(*fixture),
{
    let mut ds: Vec<DesignerDiagnostic> = Vec::new();
    if fixture.schema_version != STUDIO_DESIGN_SCHEMA_VERSION {
        push_diagnostic(&mut ds, diagnostic("CONTENT_FIXTURE_SCHEMA_INVALID", DiagnosticSeverity::Error, owned("a fixture has an unsupported schema version"), None, None, None, None, None));
    }
    if fixture.kind == FixtureKind::Edge && fixture.edge_records.len() == 0 {
        push_diagnostic(&mut ds, diagnostic("CONTENT_FIXTURE_EDGE_EMPTY", DiagnosticSeverity::Error, owned("an edge fixture must provide at least one edge record"), None, None, None, None, None));
    }
    if fixture.kind != FixtureKind::Error && fixture.error_message.is_some() {
        push_diagnostic(&mut ds, diagnostic("CONTENT_FIXTURE_ERROR_MESSAGE_MISPLACED", DiagnosticSeverity::Error, owned("only an error fixture may carry an error message"), None, None, None, None, None));
    }
    if fixture.kind == FixtureKind::Error {
        let trimmed = match &fixture.error_message {
            Some(m) => crate::text::trim_chars(m.as_str()),
            None => {
                proof {
                    reveal_strlit("");
                }
                crate::text::trim_chars("")
            },
        };
        if trimmed.len() == 0 {
            push_diagnostic(&mut ds, diagnostic("CONTENT_FIXTURE_ERROR_EMPTY", DiagnosticSeverity::Error, owned("an error fixture must provide a non-empty error message"), None, None, None, None, None));
        }
    }
    assert(views(ds@) =~= fixture_issues(*fixture));
    ds
}

/// A binding diagnostic linking its node, source collection and binding.
pub open spec fn binding_issue(binding: ContentBinding, code: Seq<char>, message: Seq<char>, severity: DiagnosticSeverity) -> DiagView {
    (code, severity, message, Some(binding.node_id), None, Some(binding.source.collection_id), Some(binding.id), None, None)
}

/// The shape diagnostics of a binding: an unsupported version, an invalid
/// property or source field name, and a fallback of the wrong kind.
pub open spec fn binding_shape_issues(b: ContentBinding) -> Seq<DiagView> {
    let version = if b.schema_version != STUDIO_DESIGN_SCHEMA_VERSION {
        seq![binding_issue(b, "CONTENT_BINDING_SCHEMA_INVALID"@, "a binding has an unsupported schema version"@, DiagnosticSeverity::Error)]
    } else {
        Seq::empty()
    };
    let property = if !valid_field_name(b.property@) {
        seq![binding_issue(b, "CONTENT_BINDING_PROPERTY_INVALID"@, "a binding property name must be 1..=128 safe bytes"@, DiagnosticSeverity::Error)]
    } else {
        Seq::empty()
    };
    let field = if !valid_field_name(b.source.field@) {
        seq![binding_issue(b, "CONTENT_BINDING_FIELD_INVALID"@, "a binding source field must be 1..=128 safe bytes"@, DiagnosticSeverity::Error)]
    } else {
        Seq::empty()
    };
    let fallback = match b.fallback {
        Some(f) => if !kind_matches(f, b.expected_kind) {
            seq![binding_issue(b, "CONTENT_BINDING_FALLBACK_MISMATCH"@,
                "fallback type "@ + value_kind_name(f) + " does not match expected "@ + kind_name(b.expected_kind), DiagnosticSeverity::Error)]
        } else {
            Seq::empty()
        },
        None => Seq::empty(),
    };
    version + property + field + fallback
}

fn binding_diagnostic(binding: &ContentBinding, code: &str, message: String, severity: DiagnosticSeverity) -> (r: DesignerDiagnostic)
    ensures
        diag_view(r) == binding_issue(*binding, code@, message@, severity),
{
    diagnostic(code, severity, message, Some(binding.node_id.copy()), Some(binding.source.collection_id.copy()), Some(binding.id.copy()), None, None)
}

/// Validate a binding declaration: schema version, names and fallback type.
pub fn validate_binding_shape(binding: &ContentBinding) -> (r: Vec<DesignerDiagnostic>)
    ensures
        views(r@) == binding_shape_issues(*binding),
{
    let mut ds: Vec<DesignerDiagnostic> = Vec::new();
    if binding.schema_version != STUDIO_DESIGN_SCHEMA_VERSION {
        push_diagnostic(&mut ds, binding_diagnostic(binding, "CONTENT_BINDING_SCHEMA_INVALID", owned("a binding has an unsupported schema version"), DiagnosticSeverity::Error));
    }
    if !crate::ids::is_valid_identity(binding.property.as_str()) {
        push_diagnostic(&mut ds, binding_diagnostic(binding, "CONTENT_BINDING_PROPERTY_INVALID", owned("a binding property name must be 1..=128 safe bytes"), DiagnosticSeverity::Error));
    }
    if !crate::ids::is_valid_identity(binding.source.field.as_str()) {
        push_diagnostic(&mut ds, binding_diagnostic(binding, "CONTENT_BINDING_FIELD_INVALID", owned("a binding source field must be 1..=128 safe bytes"), DiagnosticSeverity::Error));
    }
    match &binding.fallback {
        Some(f) => {
            if !fallback_matches_kind(f, binding.expected_kind) {
                let mut message = owned("fallback type ");
                message.append(value_type_name(f));
                message.append(" does not match expected ");
                message.append(kind_label(binding.expected_kind));
                push_diagnostic(&mut ds, binding_diagnostic(binding, "CONTENT_BINDING_FALLBACK_MISMATCH", message, DiagnosticSeverity::Error));
            }
        },
        None => {},
    }
    assert(views(ds@) =~= binding_shape_issues(*binding));
    ds
}

/// The value a binding renders for an optional record: the record's field
/// value when it has the expected kind, otherwise the fallback.
pub open spec fn binding_value(binding: ContentBinding, record: Option<ContentRecord>) -> Option<PropertyValue> {
    match record {
        Some(r) => if r.values@.contains_key(binding.source.field@) && kind_matches(r.values@[binding.source.field@], binding.expected_kind) {
            Some(r.values@[binding.source.field@])
        } else {
            binding.fallback
        },
        None => binding.fallback,
    }
}

/// Resolve one binding for a given record, or for no record in fixture
/// states without one; the fallback stands in for a missing or mistyped
/// value.
pub fn resolve_binding_value(binding: &ContentBinding, collection: &ContentCollection, record: Option<&ContentRecord>) -> (r: Option<PropertyValue>)
    ensures
        crate::responsive::same_opt_value(binding_value(*binding, match record {
            Some(x) => Some(*x),
            None => None,
        }), r),
{
    let fallback = match &binding.fallback {
        Some(f) => Some(f.copy()),
        None => None,
    };
    match record {
        Some(rec) => match rec.values.get(binding.source.field.as_str()) {
            Some(value) => {
                if property_value_matches_kind(value, binding.expected_kind) {
                    Some(value.copy())
                } else {
                    fallback
                }
            },
            None => fallback,
        },
        None => fallback,
    }
}

/// The reference diagnostics of one binding against a design: its shape
/// diagnostics, a missing target node (a warning), a missing collection or
/// field, and a kind mismatch, a warning when a fallback will be used.
pub open spec fn binding_reference_issues(design: &StudioDesign, b: ContentBinding) -> Seq<DiagView> {
    let node = if !design.nodes@.contains_key(b.node_id@) {
        seq![binding_issue(b, "CONTENT_BINDING_NODE_MISSING"@, "binding target node '"@ + b.node_id@ + "' does not exist"@, DiagnosticSeverity::Warning)]
    } else {
        Seq::empty()
    };
    let cid = b.source.collection_id@;
    let rest = if !design.collections@.contains_key(cid) {
        seq![binding_issue(b, "CONTENT_BINDING_COLLECTION_MISSING"@, "binding source collection '"@ + cid + "' does not exist"@, DiagnosticSeverity::Error)]
    } else {
        let c = design.collections@[cid];
        if !c.schema.fields@.contains_key(b.source.field@) {
            seq![binding_issue(b, "CONTENT_BINDING_FIELD_MISSING"@,
                "field '"@ + b.source.field@ + "' is not declared in collection '"@ + c.id@ + "'"@, DiagnosticSeverity::Error)]
        } else {
            let kind = c.schema.fields@[b.source.field@].kind;
            if kind == b.expected_kind {
                Seq::empty()
            } else if b.fallback is Some {
                seq![binding_issue(b, "CONTENT_BINDING_TYPE_MISMATCH_WITH_FALLBACK"@,
                    "field '"@ + b.source.field@ + "' in collection '"@ + c.id@ + "' is "@ + kind_name(kind)
                        + " but binding expects "@ + kind_name(b.expected_kind) + "; fallback will be used"@,
                    DiagnosticSeverity::Warning)]
            } else {
                seq![binding_issue(b, "CONTENT_BINDING_TYPE_MISMATCH"@,
                    "field '"@ + b.source.field@ + "' in collection '"@ + c.id@ + "' is "@ + kind_name(kind)
                        + " but binding expects "@ + kind_name(b.expected_kind) + " and no fallback is declared"@,
                    DiagnosticSeverity::Error)]
            }
        }
    };
    binding_shape_issues(b) + node + rest
}

/// The reference diagnostics of bindings in identity order.
pub open spec fn all_binding_issues(design: &StudioDesign, bs: Seq<(BindingId, ContentBinding)>) -> Seq<DiagView>
    decreases bs.len(),
{
    if bs.len() == 0 {
        Seq::empty()
    } else {
        all_binding_issues(design, bs.drop_last()) + binding_reference_issues(design, bs.last().1)
    }
}

fn binding_reference_diagnostics(design: &StudioDesign, binding: &ContentBinding) -> (r: Vec<DesignerDiagnostic>)
    ensures
        views(r@) == binding_reference_issues(design, *binding),
{
    let mut ds = validate_binding_shape(binding);
    if !design.nodes.contains_key(binding.node_id.as_str()) {
        let message = concat3("binding target node '", binding.node_id.as_str(), "' does not exist");
        push_diagnostic(&mut ds, binding_diagnostic(binding, "CONTENT_BINDING_NODE_MISSING", message, DiagnosticSeverity::Warning));
    }
    let ghost head = views(ds@);
    match design.collections.get(binding.source.collection_id.as_str()) {
        None => {
            let message = concat3("binding source collection '", binding.source.collection_id.as_str(), "' does not exist");
            push_diagnostic(&mut ds, binding_diagnostic(binding, "CONTENT_BINDING_COLLECTION_MISSING", message, DiagnosticSeverity::Error));
        },
        Some(c) => match c.schema.fields.get(binding.source.field.as_str()) {
            None => {
                let mut message = owned("field '");
                message.append(binding.source.field.as_str());
                message.append("' is not declared in collection '");
                message.append(c.id.as_str());
                message.append("'");
                push_diagnostic(&mut ds, binding_diagnostic(binding, "CONTENT_BINDING_FIELD_MISSING", message, DiagnosticSeverity::Error));
            },
            Some(field) => {
                if field.kind != binding.expected_kind {
                    let mut message = owned("field '");
                    message.append(binding.source.field.as_str());
                    message.append("' in collection '");
                    message.append(c.id.as_str());
                    message.append("' is ");
                    message.append(kind_label(field.kind));
                    message.append(" but binding expects ");
                    message.append(kind_label(binding.expected_kind));
                    if binding.fallback.is_some() {
                        message.append("; fallback will be used");
                        push_diagnostic(&mut ds, binding_diagnostic(binding, "CONTENT_BINDING_TYPE_MISMATCH_WITH_FALLBACK", message, DiagnosticSeverity::Warning));
                    } else {
                        message.append(" and no fallback is declared");
                        push_diagnostic(&mut ds, binding_diagnostic(binding, "CONTENT_BINDING_TYPE_MISMATCH", message, DiagnosticSeverity::Error));
                    }
                }
            },
        },
    }
    assert(views(ds@) =~= binding_reference_issues(design, *binding));
    ds
}

/// Validate that all bindings resolve against the current design.
pub fn binding_diagnostics(design: &StudioDesign) -> (r: Vec<DesignerDiagnostic>)
    ensures
        views(r@) == all_binding_issues(design, design.bindings.entry_seq()),
{
    let ghost bs = design.bindings.entry_seq();
    let n = design.bindings.len();
    let mut ds: Vec<DesignerDiagnostic> = Vec::new();
    let mut i: usize = 0;
    while i < n
        invariant
            i <= n,
            n == bs.len(),
            bs == design.bindings.entry_seq(),
            views(ds@) == all_binding_issues(design, bs.take(i as int)),
        decreases n - i,
    {
        let binding = design.bindings.value_at(i);
        assert(bs.take(i + 1).drop_last() == bs.take(i as int));
        assert(bs.take(i + 1).last() == bs[i as int]);
        let more = binding_reference_diagnostics(design, binding);
        append_all(&mut ds, more);
        i = i + 1;
    }
    assert(bs.take(n as int) == bs);
    ds
}

/// Whether a binding cannot build: its collection or field is missing, or
/// the field's kind differs from the expected kind without a fallback of the
/// expected kind.
pub open spec fn build_error(binding: ContentBinding, design: &StudioDesign) -> bool {
    let cid = binding.source.collection_id@;
    if !design.collections@.contains_key(cid) {
        true
    } else if !design.collections@[cid].schema.fields@.contains_key(binding.source.field@) {
        true
    } else if design.collections@[cid].schema.fields@[binding.source.field@].kind == binding.expected_kind {
        false
    } else {
        match binding.fallback {
            Some(f) => !kind_matches(f, binding.expected_kind),
            None => true,
        }
    }
}

/// Whether a binding type mismatch is a build error: a mismatch is one
/// unless a valid typed fallback is declared.
pub fn is_binding_build_error(binding: &ContentBinding, design: &StudioDesign) -> (r: bool)
    ensures
        r == build_error(*binding, design),
{
    match design.collections.get(binding.source.collection_id.as_str()) {
        None => true,
        Some(c) => match c.schema.fields.get(binding.source.field.as_str()) {
            None => true,
            Some(field) => {
                if field.kind == binding.expected_kind {
                    false
                } else {
                    match &binding.fallback {
                        Some(f) => !fallback_matches_kind(f, binding.expected_kind),
                        None => true,
                    }
                }
            },
        },
    }
}

/// The build-blocking diagnostic of a binding.
pub open spec fn build_block_issue(design: &StudioDesign, b: ContentBinding) -> DiagView {
    let cid = b.source.collection_id@;
    let head = "binding '"@ + b.id@ + "' on node '"@ + b.node_id@ + "' cannot build: "@;
    let with_reason = if design.collections@.contains_key(cid) && design.collections@[cid].schema.fields@.contains_key(b.source.field@) {
        head + "field is "@ + kind_name(design.collections@[cid].schema.fields@[b.source.field@].kind)
    } else {
        head + "collection or field is missing"@
    };
    let suffix = if b.fallback is Some {
        " (fallback exists but has wrong type)"@
    } else {
        " and no fallback is declared"@
    };
    binding_issue(b, "CONTENT_BUILD_BLOCKED"@, with_reason + " but binding expects "@ + kind_name(b.expected_kind) + suffix, DiagnosticSeverity::Error)
}

/// The build-blocking diagnostics of bindings in identity order.
pub open spec fn build_block_issues(design: &StudioDesign, bs: Seq<(BindingId, ContentBinding)>) -> Seq<DiagView>
    decreases bs.len(),
{
    if bs.len() == 0 {
        Seq::empty()
    } else {
        let prev = build_block_issues(design, bs.drop_last());
        if build_error(bs.last().1, design) {
            prev.push(build_block_issue(design, bs.last().1))
        } else {
            prev
        }
    }
}

/// Collect the build-blocking binding errors.
pub fn build_blocking_binding_errors(design: &StudioDesign) -> (r: Vec<DesignerDiagnostic>)
    ensures
        views(r@) == build_block_issues(design, design.bindings.entry_seq()),
{
    let ghost bs = design.bindings.entry_seq();
    let n = design.bindings.len();
    let mut ds: Vec<DesignerDiagnostic> = Vec::new();
    let mut i: usize = 0;
    while i < n
        invariant
            i <= n,
            n == bs.len(),
            bs == design.bindings.entry_seq(),
            views(ds@) == build_block_issues(design, bs.take(i as int)),
        decreases n - i,
    {
        let b = design.bindings.value_at(i);
        assert(bs.take(i + 1).drop_last() == bs.take(i as int));
        assert(bs.take(i + 1).last() == bs[i as int]);
        if is_binding_build_error(b, design) {
            let mut message = owned("binding '");
            message.append(b.id.as_str());
            message.append("' on node '");
            message.append(b.node_id.as_str());
            message.append("' cannot build: ");
            let known = match design.collections.get(b.source.collection_id.as_str()) {
                Some(c) => match c.schema.fields.get(b.source.field.as_str()) {
                    Some(f) => Some(f.kind),
                    None => None,
                },
                None => None,
            };
            match known {
                Some(kind) => {
                    message.append("field is ");
                    message.append(kind_label(kind));
                },
                None => {
                    message.append("collection or field is missing");
                },
            }
            message.append(" but binding expects ");
            message.append(kind_label(b.expected_kind));
            if b.fallback.is_some() {
                message.append(" (fallback exists but has wrong type)");
            } else {
                message.append(" and no fallback is declared");
            }
            push_diagnostic(&mut ds, binding_diagnostic(b, "CONTENT_BUILD_BLOCKED", message, DiagnosticSeverity::Error));
        }
        i = i + 1;
    }
    assert(bs.take(n as int) == bs);
    ds
}

/// A schema-change diagnostic for a binding of the changed collection.
pub open spec fn schema_change_issue(collection_id: CollectionId, b: ContentBinding, code: Seq<char>, message: Seq<char>) -> DiagView {
    (code, DiagnosticSeverity::Error, message, Some(b.node_id), None, Some(collection_id), Some(b.id), None, None)
}

/// The schema-change diagnostics of bindings in identity order: for each
/// binding of the collection, its field removed, or its field's kind changed.
pub open spec fn schema_change_issues(
    collection_id: CollectionId,
    old_schema: ContentCollectionSchema,
    new_schema: ContentCollectionSchema,
    bs: Seq<(BindingId, ContentBinding)>,
) -> Seq<DiagView>
    decreases bs.len(),
{
    if bs.len() == 0 {
        Seq::empty()
    } else {
        let prev = schema_change_issues(collection_id, old_schema, new_schema, bs.drop_last());
        let b = bs.last().1;
        let f = b.source.field@;
        if b.source.collection_id@ != collection_id@ || !old_schema.fields@.contains_key(f) {
            prev
        } else if !new_schema.fields@.contains_key(f) {
            prev.push(schema_change_issue(collection_id, b, "CONTENT_SCHEMA_FIELD_REMOVED"@,
                "field '"@ + f + "' was removed from collection '"@ + collection_id@ + "'; binding '"@ + b.id@ + "' is now dangling"@))
        } else if new_schema.fields@[f].kind != old_schema.fields@[f].kind {
            prev.push(schema_change_issue(collection_id, b, "CONTENT_SCHEMA_FIELD_KIND_CHANGED"@,
                "field '"@ + f + "' in collection '"@ + collection_id@ + "' changed kind; binding '"@ + b.id@ + "' expects "@
                    + kind_name(b.expected_kind) + " but schema is now "@ + kind_name(new_schema.fields@[f].kind)))
        } else {
            prev
        }
    }
}

/// Surface affected bindings when a collection schema changes: every binding
/// of the collection whose field was removed or whose kind changed.
pub fn schema_change_binding_diagnostics(
    design: &StudioDesign,
    collection_id: &CollectionId,
    old_schema: &ContentCollectionSchema,
    new_schema: &ContentCollectionSchema,
) -> (r: Vec<DesignerDiagnostic>)
    ensures
        views(r@) == schema_change_issues(*collection_id, *old_schema, *new_schema, design.bindings.entry_seq()),
{
    let ghost bs = design.bindings.entry_seq();
    let n = design.bindings.len();
    let mut ds: Vec<DesignerDiagnostic> = Vec::new();
    let mut i: usize = 0;
    while i < n
        invariant
            i <= n,
            n == bs.len(),
            bs == design.bindings.entry_seq(),
            views(ds@) == schema_change_issues(*collection_id, *old_schema, *new_schema, bs.take(i as int)),
        decreases n - i,
    {
        let b = design.bindings.value_at(i);
        assert(bs.take(i + 1).drop_last() == bs.take(i as int));
        assert(bs.take(i + 1).last() == bs[i as int]);
        let f = b.source.field.as_str();
        if b.source.collection_id.same(collection_id) {
            match old_schema.fields.get(f) {
                Some(old_field) => match new_schema.fields.get(f) {
                    None => {
                        let mut message = owned("field '");
                        message.append(f);
                        message.append("' was removed from collection '");
                        message.append(collection_id.as_str());
                        message.append("'; binding '");
                        message.append(b.id.as_str());
                        message.append("' is now dangling");
                        push_diagnostic(&mut ds, diagnostic("CONTENT_SCHEMA_FIELD_REMOVED", DiagnosticSeverity::Error, message,
                            Some(b.node_id.copy()), Some(collection_id.copy()), Some(b.id.copy()), None, None));
                    },
                    Some(new_field) => {
                        if new_field.kind != old_field.kind {
                            let mut message = owned("field '");
                            message.append(f);
                            message.append("' in collection '");
                            message.append(collection_id.as_str());
                            message.append("' changed kind; binding '");
                            message.append(b.id.as_str());
                            message.append("' expects ");
                            message.append(kind_label(b.expected_kind));
                            message.append(" but schema is now ");
                            message.append(kind_label(new_field.kind));
                            push_diagnostic(&mut ds, diagnostic("CONTENT_SCHEMA_FIELD_KIND_CHANGED", DiagnosticSeverity::Error, message,
                                Some(b.node_id.copy()), Some(collection_id.copy()), Some(b.id.copy()), None, None));
                        }
                    },
                },
                None => {},
            }
        }
        i = i + 1;
    }
    assert(bs.take(n as int) == bs);
    ds
}

/// Whether `p` orders positions of `ids` by identity, keeping the original
/// order among equal identities.
pub open spec fn stable_order(ids: Seq<Seq<char>>, p: Seq<int>) -> bool {
    &&& p.len() == ids.len()
    &&& forall|i: int| 0 <= i < p.len() ==> 0 <= #[trigger] p[i] < ids.len()
    &&& forall|i: int, j: int| 0 <= i < j < p.len() ==> #[trigger] p[i] != #[trigger] p[j]
    &&& forall|i: int, j: int| 0 <= i < j < p.len() ==> !crate::text::chars_before(ids[#[trigger] p[j]], ids[#[trigger] p[i]])
    &&& forall|i: int, j: int| 0 <= i < j < p.len() && ids[#[trigger] p[i]] == ids[#[trigger] p[j]] ==> p[i] < p[j]
}

proof fn lemma_not_before_transitive(a: Seq<char>, b: Seq<char>, c: Seq<char>)
    ensures
        !crate::text::chars_before(b, a) && !crate::text::chars_before(c, b) ==> !crate::text::chars_before(c, a),
{
    crate::text::lemma_before_total(a, b);
    crate::text::lemma_before_total(b, c);
    crate::text::lemma_before_transitive(c, a, b);
    crate::text::lemma_before_transitive(b, c, a);
    crate::text::lemma_before_asymmetric(a, b);
    crate::text::lemma_before_asymmetric(b, c);
    crate::text::lemma_before_irreflexive(a);
}

/// The positions of `ids` in stable identity order.
fn stable_sort_order(ids: &Vec<String>) -> (r: Vec<usize>)
    ensures
        stable_order(ids@.map_values(|s: String| s@), r@.map_values(|x: usize| x as int)),
{
    let ghost v = ids@.map_values(|s: String| s@);
    let n = ids.len();
    let mut order: Vec<usize> = Vec::new();
    let mut k: usize = 0;
    while k < n
        invariant
            k <= n,
            n == ids@.len(),
            v == ids@.map_values(|s: String| s@),
            order@.len() == k,
            forall|i: int| 0 <= i < order@.len() ==> #[trigger] order@[i] < k,
            forall|i: int, j: int| 0 <= i < j < order@.len() ==> #[trigger] order@[i] != #[trigger] order@[j],
            forall|i: int, j: int| 0 <= i < j < order@.len() ==> !crate::text::chars_before(v[#[trigger] order@[j] as int], v[#[trigger] order@[i] as int]),
            forall|i: int, j: int| 0 <= i < j < order@.len() && v[#[trigger] order@[i] as int] == v[#[trigger] order@[j] as int] ==> order@[i] < order@[j],
        decreases n - k,
    {
        let mut pos: usize = order.len();
        while pos > 0 && crate::text::compare_strs(ids[k].as_str(), ids[order[pos - 1]].as_str()) == crate::text::KeyOrder::Less
            invariant
                pos <= order@.len(),
                k < n,
                n == ids@.len(),
                v == ids@.map_values(|s: String| s@),
                forall|i: int| 0 <= i < order@.len() ==> #[trigger] order@[i] < k,
                forall|i: int| pos <= i < order@.len() ==> crate::text::chars_before(v[k as int], v[#[trigger] order@[i] as int]),
            decreases pos,
        {
            pos = pos - 1;
        }
        let ghost before = order@;
        proof {
            if pos > 0 {
                assert(!crate::text::chars_before(v[k as int], v[before[pos - 1] as int]));
            }
        }
        order.insert(pos, k);
        proof {
            let o = order@;
            assert(forall|i: int| 0 <= i < pos ==> o[i] == before[i]);
            assert(forall|i: int| pos < i < o.len() ==> o[i] == before[i - 1]);
            assert(o[pos as int] == k);
            assert forall|i: int, j: int| 0 <= i < j < o.len() implies #[trigger] o[i] != #[trigger] o[j] by {
                if i < pos && j > pos {
                    assert(before[i] != before[j - 1]);
                } else if i > pos {
                    assert(before[i - 1] != before[j - 1]);
                } else if j < pos {
                    assert(before[i] != before[j]);
                }
            }
            assert forall|i: int, j: int| 0 <= i < j < o.len() implies !crate::text::chars_before(v[#[trigger] o[j] as int], v[#[trigger] o[i] as int]) by {
                if j == pos {
                    if pos > 0 {
                        lemma_not_before_transitive(v[o[i] as int], v[before[pos - 1] as int], v[k as int]);
                        if i < pos - 1 {
                            assert(!crate::text::chars_before(v[before[pos - 1] as int], v[before[i] as int]));
                        }
                    }
                } else if i == pos {
                    crate::text::lemma_before_asymmetric(v[k as int], v[before[j - 1] as int]);
                } else if i < pos && j > pos {
                    assert(!crate::text::chars_before(v[before[j - 1] as int], v[before[i] as int]));
                } else if i > pos {
                    assert(!crate::text::chars_before(v[before[j - 1] as int], v[before[i - 1] as int]));
                } else {
                    assert(!crate::text::chars_before(v[before[j] as int], v[before[i] as int]));
                }
            }
            assert forall|i: int, j: int| 0 <= i < j < o.len() && v[#[trigger] o[i] as int] == v[#[trigger] o[j] as int] implies o[i] < o[j] by {
                if j == pos {
                } else if i == pos {
                    crate::text::lemma_before_irreflexive(v[k as int]);
                } else if i < pos && j > pos {
                } else if i > pos {
                } else {
                }
            }
        }
        k = k + 1;
    }
    proof {
        let p = order@.map_values(|x: usize| x as int);
        assert forall|i: int, j: int| 0 <= i < j < p.len() implies #[trigger] p[i] != #[trigger] p[j] by {
            assert(order@[i] != order@[j]);
        }
        assert forall|i: int, j: int| 0 <= i < j < p.len() implies !crate::text::chars_before(v[#[trigger] p[j]], v[#[trigger] p[i]]) by {
            assert(!crate::text::chars_before(v[order@[j] as int], v[order@[i] as int]));
        }
        assert forall|i: int, j: int| 0 <= i < j < p.len() && v[#[trigger] p[i]] == v[#[trigger] p[j]] implies p[i] < p[j] by {
            assert(v[order@[i] as int] == v[order@[j] as int]);
        }
    }
    order
}

/// Whether `b` is a copy of record `a`.
pub open spec fn record_copy(a: ContentRecord, b: ContentRecord) -> bool {
    &&& b.schema_version == a.schema_version
    &&& b.id == a.id
    &&& crate::model::same_value_map(a.values, b.values)
}

fn copy_record(a: &ContentRecord) -> (r: ContentRecord)
    ensures
        record_copy(*a, r),
{
    ContentRecord {
        schema_version: a.schema_version,
        id: a.id.copy(),
        values: crate::model::copy_value_map(&a.values),
    }
}

/// The identities of records, in order.
pub open spec fn record_ids(input: Seq<ContentRecord>) -> Seq<Seq<char>> {
    input.map_values(|r: ContentRecord| r.id@)
}

/// Whether `out` holds copies of `input` in stable identity order.
pub open spec fn sorted_copies(input: Seq<ContentRecord>, out: Seq<ContentRecord>) -> bool {
    exists|p: Seq<int>|
        #[trigger] stable_order(record_ids(input), p) && out.len() == p.len()
            && forall|i: int| 0 <= i < out.len() ==> record_copy(input[p[i]], #[trigger] out[i])
}

/// Copies of records in stable identity order.
fn sort_records(input: &Vec<ContentRecord>) -> (r: Vec<ContentRecord>)
    ensures
        sorted_copies(input@, r@),
{
    let mut ids: Vec<String> = Vec::new();
    let mut i: usize = 0;
    while i < input.len()
        invariant
            i <= input@.len(),
            ids@.len() == i,
            forall|j: int| 0 <= j < i ==> (#[trigger] ids@[j])@ == input@[j].id@,
        decreases input@.len() - i,
    {
        ids.push(String::from_str(input[i].id.as_str()));
        i = i + 1;
    }
    let order = stable_sort_order(&ids);
    let ghost v = ids@.map_values(|s: String| s@);
    let ghost w = record_ids(input@);
    assert(v =~= w);
    let ghost p = order@.map_values(|x: usize| x as int);
    let mut out: Vec<ContentRecord> = Vec::new();
    let mut k: usize = 0;
    while k < order.len()
        invariant
            k <= order@.len(),
            stable_order(w, p),
            p == order@.map_values(|x: usize| x as int),
            w.len() == input@.len(),
            out@.len() == k,
            forall|j: int| 0 <= j < k ==> record_copy(input@[p[j]], #[trigger] out@[j]),
        decreases order@.len() - k,
    {
        assert(p[k as int] == order@[k as int] as int);
        let rec = copy_record(&input[order[k]]);
        out.push(rec);
        k = k + 1;
    }
    assert(stable_order(w, p) && out@.len() == p.len() && forall|j: int| 0 <= j < out@.len() ==> record_copy(input@[p[j]], #[trigger] out@[j]));
    out
}

/// The values of a record map in key order.
pub open spec fn record_values(m: OrderedMap<RecordId, ContentRecord>) -> Seq<ContentRecord> {
    m.entry_seq().map_values(|e: (RecordId, ContentRecord)| e.1)
}

/// Copies of a record map's values in stable identity order.
fn sort_record_map(m: &OrderedMap<RecordId, ContentRecord>) -> (r: Vec<ContentRecord>)
    ensures
        sorted_copies(record_values(*m), r@),
{
    let ghost input = record_values(*m);
    let n = m.len();
    let mut ids: Vec<String> = Vec::new();
    let mut i: usize = 0;
    while i < n
        invariant
            i <= n,
            n == m.entry_seq().len(),
            input == record_values(*m),
            ids@.len() == i,
            forall|j: int| 0 <= j < i ==> (#[trigger] ids@[j])@ == input[j].id@,
        decreases n - i,
    {
        ids.push(String::from_str(m.value_at(i).id.as_str()));
        i = i + 1;
    }
    let order = stable_sort_order(&ids);
    let ghost v = ids@.map_values(|s: String| s@);
    let ghost w = record_ids(input);
    assert(v =~= w);
    let ghost p = order@.map_values(|x: usize| x as int);
    let mut out: Vec<ContentRecord> = Vec::new();
    let mut k: usize = 0;
    while k < order.len()
        invariant
            k <= order@.len(),
            stable_order(w, p),
            p == order@.map_values(|x: usize| x as int),
            w.len() == input.len(),
            n == input.len(),
            input == record_values(*m),
            out@.len() == k,
            forall|j: int| 0 <= j < k ==> record_copy(input[p[j]], #[trigger] out@[j]),
        decreases order@.len() - k,
    {
        assert(p[k as int] == order@[k as int] as int);
        let rec = copy_record(m.value_at(order[k]));
        out.push(rec);
        k = k + 1;
    }
    assert(stable_order(w, p) && out@.len() == p.len() && forall|j: int| 0 <= j < out@.len() ==> record_copy(input[p[j]], #[trigger] out@[j]));
    out
}

/// The preview of a collection under a fixture state: no records while
/// empty, loading or failed; otherwise copies of the records (for an edge
/// fixture, its edge records when it has any) in stable identity order.
pub open spec fn preview_matches(collection: ContentCollection, kind: FixtureKind, p: crate::model::CollectionPreview) -> bool {
    &&& p.collection_id == collection.id
    &&& p.fixture == kind
    &&& p.is_loading == (kind == FixtureKind::Loading)
    &&& p.is_error == (kind == FixtureKind::Error)
    &&& if kind == FixtureKind::Error {
        match collection.fixture.error_message {
            Some(m) => p.error_message == Some(m),
            None => p.error_message matches Some(m) && m@ == "collection failed to load"@,
        }
    } else {
        p.error_message is None
    }
    &&& match kind {
        FixtureKind::Populated => sorted_copies(record_values(collection.records), p.records@),
        FixtureKind::Edge => if collection.fixture.edge_records@.len() == 0 {
            sorted_copies(record_values(collection.records), p.records@)
        } else {
            sorted_copies(collection.fixture.edge_records@, p.records@)
        },
        _ => p.records@.len() == 0,
    }
}

/// Deterministic preview of a list bound to a collection, for its own
/// fixture or an override; previews never change the durable records.
pub fn preview_collection(collection: &ContentCollection, override_kind: Option<FixtureKind>) -> (r: crate::model::CollectionPreview)
    ensures
        preview_matches(*collection, match override_kind {
            Some(k) => k,
            None => collection.fixture.kind,
        }, r),
{
    let kind = match override_kind {
        Some(k) => k,
        None => collection.fixture.kind,
    };
    match kind {
        FixtureKind::Empty => crate::model::CollectionPreview {
            collection_id: collection.id.copy(),
            fixture: FixtureKind::Empty,
            records: Vec::new(),
            is_loading: false,
            is_error: false,
            error_message: None,
        },
        FixtureKind::Loading => crate::model::CollectionPreview {
            collection_id: collection.id.copy(),
            fixture: FixtureKind::Loading,
            records: Vec::new(),
            is_loading: true,
            is_error: false,
            error_message: None,
        },
        FixtureKind::Error => crate::model::CollectionPreview {
            collection_id: collection.id.copy(),
            fixture: FixtureKind::Error,
            records: Vec::new(),
            is_loading: false,
            is_error: true,
            error_message: match &collection.fixture.error_message {
                Some(m) => Some(m.clone()),
                None => Some(owned("collection failed to load")),
            },
        },
        FixtureKind::Populated => crate::model::CollectionPreview {
            collection_id: collection.id.copy(),
            fixture: FixtureKind::Populated,
            records: sort_record_map(&collection.records),
            is_loading: false,
            is_error: false,
            error_message: None,
        },
        FixtureKind::Edge => {
            let records = if collection.fixture.edge_records.len() == 0 {
                sort_record_map(&collection.records)
            } else {
                sort_records(&collection.fixture.edge_records)
            };
            crate::model::CollectionPreview {
                collection_id: collection.id.copy(),
                fixture: FixtureKind::Edge,
                records,
                is_loading: false,
                is_error: false,
                error_message: None,
            }
        },
    }
}

/// Whether `regex::Regex::new` accepts a pattern.
pub uninterp spec fn regex_accepts(pattern: Seq<char>) -> bool;

/// Whether the regex compiled from a pattern matches somewhere in a text.
pub uninterp spec fn regex_finds(pattern: Seq<char>, text: Seq<char>) -> bool;

/// Calls `regex::Regex::new` and reports whether it returned `Ok`. The
/// contract claims only that the answer is a function of the pattern: the
/// crate's documentation makes it an error for an invalid pattern or one
/// whose compiled form exceeds the default size limit.
#[verifier::external_body]
fn regex_compiles(pattern: &str) -> (r: bool)
    ensures
        r == regex_accepts(pattern@),
{
    regex::Regex::new(pattern).is_ok()
}

/// Compiles an accepted pattern with `regex::Regex::new` and calls
/// `Regex::is_match` on the text. The contract claims only that the answer
/// is a function of the pattern and the text.
#[verifier::external_body]
fn regex_is_match(pattern: &str, text: &str) -> (r: bool)
    requires
        regex_accepts(pattern@),
    ensures
        r == regex_finds(pattern@, text@),
{
    match regex::Regex::new(pattern) {
        Ok(re) => re.is_match(text),
        Err(_) => false,
    }
}

/// A form diagnostic linking the form and its target collection.
pub open spec fn form_issue(form: FormDefinition, code: Seq<char>, message: Seq<char>) -> DiagView {
    (code, DiagnosticSeverity::Error, message, None, None, form.target_collection_id, None, Some(form.id), None)
}

/// Whether the minimum exceeds the maximum when both are present.
pub open spec fn length_bounds_inverted(field: FormFieldSchema) -> bool {
    field.minimum_length matches Some(lo) && field.maximum_length matches Some(hi) && lo > hi
}

/// Whether the minimum value string sorts after the maximum value string
/// when both are present.
pub open spec fn value_bounds_inverted(field: FormFieldSchema) -> bool {
    field.minimum_value matches Some(lo) && field.maximum_value matches Some(hi) && crate::text::chars_before(hi@, lo@)
}

/// The shape diagnostics of one form field, given whether its pattern (if
/// any) compiles.
pub open spec fn form_field_issues(form: FormDefinition, name: Seq<char>, field: FormFieldSchema, pattern_ok: bool) -> Seq<DiagView> {
    let a = if !valid_field_name(name) {
        seq![form_issue(form, "FORM_FIELD_NAME_INVALID"@, "field name '"@ + name + "' must be 1..=128 safe bytes"@)]
    } else {
        Seq::empty()
    };
    let b = if length_bounds_inverted(field) {
        seq![form_issue(form, "FORM_FIELD_LENGTH_BOUNDS_INVALID"@, "field '"@ + name + "' has minimum_length > maximum_length"@)]
    } else {
        Seq::empty()
    };
    let c = if field.pattern is Some && !pattern_ok {
        seq![form_issue(form, "FORM_FIELD_PATTERN_INVALID"@, "field '"@ + name + "' has an invalid regex pattern"@)]
    } else {
        Seq::empty()
    };
    let d = if value_bounds_inverted(field) {
        seq![form_issue(form, "FORM_FIELD_VALUE_BOUNDS_INVALID"@, "field '"@ + name + "' has minimum_value > maximum_value"@)]
    } else {
        Seq::empty()
    };
    a + b + c + d
}

/// The field diagnostics of a form in field order; `ok[i]` says whether the
/// pattern of the `i`-th field compiles (true when absent from `ok`).
pub open spec fn form_fields_issues(form: FormDefinition, fields: Seq<(String, FormFieldSchema)>, ok: Seq<bool>) -> Seq<DiagView>
    decreases fields.len(),
{
    if fields.len() == 0 {
        Seq::empty()
    } else {
        let i = fields.len() - 1;
        form_fields_issues(form, fields.drop_last(), ok) + form_field_issues(form, fields.last().0@, fields.last().1, if i < ok.len() {
            ok[i]
        } else {
            true
        })
    }
}

/// Whether a form name is blank, over 256 bytes, or holds a control
/// character.
pub open spec fn form_name_invalid(name: Seq<char>) -> bool {
    trim_whitespace(name).len() == 0 || encode_utf8(name).len() > 256 || has_control(name)
}

/// The shape diagnostics of a form given which field patterns compile.
pub open spec fn form_shape_issues(form: FormDefinition, ok: Seq<bool>) -> Seq<DiagView> {
    form_header_issues(form) + form_fields_issues(form, form.fields.entry_seq(), ok)
}

/// Whether each field's pattern compiles, in field order (true without a
/// pattern).
pub open spec fn pattern_validity(form: FormDefinition) -> Seq<bool> {
    form.fields.entry_seq().map_values(|e: (String, FormFieldSchema)| match e.1.pattern {
        Some(p) => regex_accepts(p@),
        None => true,
    })
}

fn form_diagnostic(form: &FormDefinition, code: &str, message: String) -> (r: DesignerDiagnostic)
    ensures
        diag_view(r) == form_issue(*form, code@, message@),
{
    diagnostic(code, DiagnosticSeverity::Error, message, None, copy_opt_id(&form.target_collection_id), None, Some(form.id.copy()), None)
}

fn field_shape_diagnostics(form: &FormDefinition, name: &String, field: &FormFieldSchema, ok: bool) -> (r: Vec<DesignerDiagnostic>)
    ensures
        views(r@) == form_field_issues(*form, name@, *field, ok),
{
    let mut ds: Vec<DesignerDiagnostic> = Vec::new();
        if !crate::ids::is_valid_identity(name.as_str()) {
            let message = concat3("field name '", name.as_str(), "' must be 1..=128 safe bytes");
            push_diagnostic(&mut ds, form_diagnostic(form, "FORM_FIELD_NAME_INVALID", message));
        }
        match (field.minimum_length, field.maximum_length) {
            (Some(lo), Some(hi)) => {
                if lo > hi {
                    let message = concat3("field '", name.as_str(), "' has minimum_length > maximum_length");
                    push_diagnostic(&mut ds, form_diagnostic(form, "FORM_FIELD_LENGTH_BOUNDS_INVALID", message));
                }
            },
            _ => {},
        }
        if field.pattern.is_some() && !ok {
            let message = concat3("field '", name.as_str(), "' has an invalid regex pattern");
            push_diagnostic(&mut ds, form_diagnostic(form, "FORM_FIELD_PATTERN_INVALID", message));
        }
        match (&field.minimum_value, &field.maximum_value) {
            (Some(lo), Some(hi)) => {
                if crate::text::compare_strs(hi.as_str(), lo.as_str()) == crate::text::KeyOrder::Less {
                    let message = concat3("field '", name.as_str(), "' has minimum_value > maximum_value");
                    push_diagnostic(&mut ds, form_diagnostic(form, "FORM_FIELD_VALUE_BOUNDS_INVALID", message));
                }
            },
            _ => {},
        }
    assert(views(ds@) =~= form_field_issues(*form, name@, *field, ok));
    ds
}

/// The form-level part of the shape diagnostics.
pub open spec fn form_header_issues(form: FormDefinition) -> Seq<DiagView> {
    let version = if form.schema_version != STUDIO_DESIGN_SCHEMA_VERSION {
        seq![form_issue(form, "FORM_SCHEMA_INVALID"@, "a form has an unsupported schema version"@)]
    } else {
        Seq::empty()
    };
    let name = if form_name_invalid(form.name@) {
        seq![form_issue(form, "FORM_NAME_INVALID"@, "a form name must be 1..=256 safe bytes"@)]
    } else {
        Seq::empty()
    };
    let empty = if form.fields.entry_seq().len() == 0 {
        seq![form_issue(form, "FORM_FIELDS_EMPTY"@, "a form must declare at least one field"@)]
    } else {
        Seq::empty()
    };
    version + name + empty
}

fn form_name_is_invalid(name: &str) -> (r: bool)
    ensures
        r == form_name_invalid(name@),
{
    let blank = is_blank(name);
    let long = longer_than_256_bytes(name);
    let control = crate::text::contains_control(name);
    blank || long || control
}

pub(crate) fn is_blank(s: &str) -> (r: bool)
    ensures
        r == (trim_whitespace(s@).len() == 0),
{
    crate::text::trim_chars(s).len() == 0
}

pub(crate) fn longer_than_256_bytes(s: &str) -> (r: bool)
    ensures
        r == (encode_utf8(s@).len() > 256),
{
    proof {
        crate::ids::lemma_utf8_len_bounds(s@);
    }
    if s.unicode_len() > 256 {
        return true;
    }
    s.len() > 256
}

fn form_header_diagnostics(form: &FormDefinition) -> (r: Vec<DesignerDiagnostic>)
    ensures
        views(r@) == form_header_issues(*form),
{
    let mut ds: Vec<DesignerDiagnostic> = Vec::new();
    if form.schema_version != STUDIO_DESIGN_SCHEMA_VERSION {
        push_diagnostic(&mut ds, form_diagnostic(form, "FORM_SCHEMA_INVALID", owned("a form has an unsupported schema version")));
    }
    if form_name_is_invalid(form.name.as_str()) {
        push_diagnostic(&mut ds, form_diagnostic(form, "FORM_NAME_INVALID", owned("a form name must be 1..=256 safe bytes")));
    }
    if form.fields.is_empty() {
        push_diagnostic(&mut ds, form_diagnostic(form, "FORM_FIELDS_EMPTY", owned("a form must declare at least one field")));
    }
    assert(views(ds@) =~= form_header_issues(*form));
    ds
}

/// Form shape diagnostics given, for each field in order, whether its
/// pattern compiles.
pub fn form_shape_diagnostics(form: &FormDefinition, patterns_ok: &Vec<bool>) -> (r: Vec<DesignerDiagnostic>)
    ensures
        views(r@) == form_shape_issues(*form, patterns_ok@),
{
    let mut ds = form_header_diagnostics(form);
    let ghost head = views(ds@);
    let ghost fields = form.fields.entry_seq();
    let n = form.fields.len();
    let mut i: usize = 0;
    while i < n
        invariant
            i <= n,
            n == fields.len(),
            fields == form.fields.entry_seq(),
            views(ds@) == head + form_fields_issues(*form, fields.take(i as int), patterns_ok@),
        decreases n - i,
    {
        let name = form.fields.key_at(i);
        let field = form.fields.value_at(i);
        assert(fields.take(i + 1).drop_last() == fields.take(i as int));
        assert(fields.take(i + 1).last() == fields[i as int]);
        let ok = if i < patterns_ok.len() {
            patterns_ok[i]
        } else {
            true
        };
        let more = field_shape_diagnostics(form, name, field, ok);
        append_all(&mut ds, more);
        assert(views(ds@) =~= head + form_fields_issues(*form, fields.take(i + 1), patterns_ok@));
        i = i + 1;
    }
    assert(fields.take(n as int) == fields);
    assert(views(ds@) =~= form_shape_issues(*form, patterns_ok@));
    ds
}

/// Validate form shape: version, name, fields, length bounds, patterns and
/// value bounds.
pub fn validate_form_shape(form: &FormDefinition) -> (r: Vec<DesignerDiagnostic>)
    ensures
        views(r@) == form_shape_issues(*form, pattern_validity(*form)),
{
    let ghost fields = form.fields.entry_seq();
    let n = form.fields.len();
    let mut ok: Vec<bool> = Vec::new();
    let mut i: usize = 0;
    while i < n
        invariant
            i <= n,
            n == fields.len(),
            fields == form.fields.entry_seq(),
            ok@ == pattern_validity(*form).take(i as int),
        decreases n - i,
    {
        let field = form.fields.value_at(i);
        let v = match &field.pattern {
            Some(p) => regex_compiles(p.as_str()),
            None => true,
        };
        ok.push(v);
        assert(ok@ =~= pattern_validity(*form).take(i + 1));
        i = i + 1;
    }
    assert(ok@ =~= pattern_validity(*form));
    form_shape_diagnostics(form, &ok)
}

/// The error of a text value: below the minimum or above the maximum byte
/// length, or not matching the pattern.
pub open spec fn text_error(field: FormFieldSchema, t: Seq<char>, outcome: Option<bool>) -> Option<Seq<char>> {
    let b = encode_utf8(t).len();
    match field.minimum_length {
        Some(lo) if b < lo => Some("must be at least "@ + crate::text::decimal(lo as nat) + " characters"@),
        _ => match field.maximum_length {
            Some(hi) if b > hi => Some("must be at most "@ + crate::text::decimal(hi as nat) + " characters"@),
            _ => if outcome == Some(false) {
                Some("does not match required pattern"@)
            } else {
                None
            },
        },
    }
}

/// The integer a bound denotes, when present and parseable.
pub open spec fn bound_value(bound: Option<String>) -> Option<int> {
    match bound {
        Some(s) => crate::text::parsed_i64(s@),
        None => None,
    }
}

/// The error of an integer value: below the minimum or above the maximum
/// bound, among the bounds that parse as integers.
pub open spec fn integer_error(field: FormFieldSchema, x: i64) -> Option<Seq<char>> {
    match bound_value(field.minimum_value) {
        Some(lo) if x < lo => Some("must be at least "@ + crate::text::signed_decimal(lo)),
        _ => match bound_value(field.maximum_value) {
            Some(hi) if x > hi => Some("must be at most "@ + crate::text::signed_decimal(hi)),
            _ => None,
        },
    }
}

/// The error a form field reports for an optional submitted value, given
/// the outcome of its pattern on a text value (`None` when not applied):
/// a missing required value, a value of the wrong kind, a text error, or an
/// integer error.
pub open spec fn field_error(field: FormFieldSchema, value: Option<PropertyValue>, outcome: Option<bool>) -> Option<Seq<char>> {
    match value {
        None => if field.required {
            Some("this field is required"@)
        } else {
            None
        },
        Some(v) => if !kind_matches(v, field.kind) {
            Some("expected "@ + kind_name(field.kind) + " but found "@ + value_kind_name(v))
        } else {
            match v {
                PropertyValue::String(t) => text_error(field, t@, outcome),
                PropertyValue::Integer(x) => integer_error(field, x),
                _ => None,
            }
        },
    }
}

/// The submitted value for a field name.
pub open spec fn submitted(values: OrderedMap<String, PropertyValue>, name: Seq<char>) -> Option<PropertyValue> {
    if values@.contains_key(name) {
        Some(values@[name])
    } else {
        None
    }
}

/// The outcome at a field position, `None` past the end.
pub open spec fn outcome_at(outcomes: Seq<Option<bool>>, i: int) -> Option<bool> {
    if 0 <= i < outcomes.len() {
        outcomes[i]
    } else {
        None
    }
}

/// The error of the form field named `k`, if it has one.
pub open spec fn form_error_for(form: FormDefinition, values: OrderedMap<String, PropertyValue>, outcomes: Seq<Option<bool>>, k: Seq<char>) -> Option<Seq<char>> {
    if form.fields@.contains_key(k) {
        field_error(form.fields@[k], submitted(values, k), outcome_at(outcomes, form.fields.key_seq().index_of(k)))
    } else {
        None
    }
}

/// Whether a result reports exactly the field errors of a form.
pub open spec fn result_matches(r: FormValidationResult, form: FormDefinition, values: OrderedMap<String, PropertyValue>, outcomes: Seq<Option<bool>>) -> bool {
    &&& forall|k: Seq<char>| #[trigger] r.field_errors@.contains_key(k) <==> form_error_for(form, values, outcomes, k) is Some
    &&& forall|k: Seq<char>| #[trigger] r.field_errors@.contains_key(k) ==> r.field_errors@[k]@ == form_error_for(form, values, outcomes, k)->0
    &&& r.valid == no_listed_error(r.field_errors)
    &&& r.valid == no_field_error(form, values, outcomes)
}

/// Whether an error map lists no field.
pub open spec fn no_listed_error(m: OrderedMap<String, String>) -> bool {
    forall|k: Seq<char>| !#[trigger] m@.contains_key(k)
}

/// Whether no field of the form has an error.
pub open spec fn no_field_error(form: FormDefinition, values: OrderedMap<String, PropertyValue>, outcomes: Seq<Option<bool>>) -> bool {
    forall|k: Seq<char>| #[trigger] form_error_for(form, values, outcomes, k) is None
}

/// The pattern outcome of a field for a submitted value: whether an
/// accepted pattern matches a text value; `None` otherwise.
pub open spec fn pattern_outcome(field: FormFieldSchema, value: Option<PropertyValue>) -> Option<bool> {
    match field.pattern {
        Some(p) => match value {
            Some(PropertyValue::String(t)) => if regex_accepts(p@) {
                Some(regex_finds(p@, t@))
            } else {
                None
            },
            _ => None,
        },
        None => None,
    }
}

/// The pattern outcomes of a form's fields, in field order.
pub open spec fn pattern_outcomes(form: FormDefinition, values: OrderedMap<String, PropertyValue>) -> Seq<Option<bool>> {
    form.fields.entry_seq().map_values(|e: (String, FormFieldSchema)| pattern_outcome(e.1, submitted(values, e.0@)))
}

fn bound_of(bound: &Option<String>) -> (r: Option<i64>)
    ensures
        match r {
            Some(v) => bound_value(*bound) == Some(v as int),
            None => bound_value(*bound) is None,
        },
{
    match bound {
        Some(s) => crate::text::parse_i64(s.as_str()),
        None => None,
    }
}

fn text_error_message(field: &FormFieldSchema, t: &String, outcome: Option<bool>) -> (r: Option<String>)
    ensures
        match r {
            Some(m) => text_error(*field, t@, outcome) == Some(m@),
            None => text_error(*field, t@, outcome) is None,
        },
{
    let b = crate::text::utf8_byte_len(t.as_str());
    match field.minimum_length {
        Some(lo) => {
            if b < lo as u128 {
                let mut m = owned("must be at least ");
                m.append(crate::text::decimal_string(lo as u64).as_str());
                m.append(" characters");
                return Some(m);
            }
        },
        None => {},
    }
    match field.maximum_length {
        Some(hi) => {
            if b > hi as u128 {
                let mut m = owned("must be at most ");
                m.append(crate::text::decimal_string(hi as u64).as_str());
                m.append(" characters");
                return Some(m);
            }
        },
        None => {},
    }
    if outcome == Some(false) {
        Some(owned("does not match required pattern"))
    } else {
        None
    }
}

fn integer_error_message(field: &FormFieldSchema, x: i64) -> (r: Option<String>)
    ensures
        match r {
            Some(m) => integer_error(*field, x) == Some(m@),
            None => integer_error(*field, x) is None,
        },
{
    match bound_of(&field.minimum_value) {
        Some(lo) => {
            if x < lo {
                let mut m = owned("must be at least ");
                m.append(crate::text::signed_decimal_string(lo).as_str());
                return Some(m);
            }
        },
        None => {},
    }
    match bound_of(&field.maximum_value) {
        Some(hi) => {
            if x > hi {
                let mut m = owned("must be at most ");
                m.append(crate::text::signed_decimal_string(hi).as_str());
                return Some(m);
            }
        },
        None => {},
    }
    None
}

fn field_error_message(field: &FormFieldSchema, value: Option<&PropertyValue>, outcome: Option<bool>) -> (r: Option<String>)
    ensures
        match r {
            Some(m) => field_error(*field, match value {
                Some(v) => Some(*v),
                None => None,
            }, outcome) == Some(m@),
            None => field_error(*field, match value {
                Some(v) => Some(*v),
                None => None,
            }, outcome) is None,
        },
{
    match value {
        None => if field.required {
            Some(owned("this field is required"))
        } else {
            None
        },
        Some(v) => {
            if !property_value_matches_kind(v, field.kind) {
                let mut m = owned("expected ");
                m.append(kind_label(field.kind));
                m.append(" but found ");
                m.append(value_type_name(v));
                return Some(m);
            }
            match v {
                PropertyValue::String(t) => text_error_message(field, t, outcome),
                PropertyValue::Integer(x) => integer_error_message(field, *x),
                _ => None,
            }
        },
    }
}

/// Validation result of submitted values given, for each field in order,
/// the outcome of its pattern on a text value (`None` where not applied).
/// Values for fields the form does not declare are ignored.
pub fn form_values_result(form: &FormDefinition, values: &OrderedMap<String, PropertyValue>, outcomes: &Vec<Option<bool>>) -> (r: FormValidationResult)
    ensures
        result_matches(r, *form, *values, outcomes@),
{
    form.fields.reveal_entries();
    let ghost keys = form.fields.key_seq();
    let ghost entries = form.fields.entry_seq();
    let n = form.fields.len();
    let mut errors: OrderedMap<String, String> = OrderedMap::new();
    let mut i: usize = 0;
    while i < n
        invariant
            i <= n,
            n == keys.len(),
            keys == form.fields.key_seq(),
            entries == form.fields.entry_seq(),
            crate::ordered_map::strictly_sorted(keys),
            forall|q: Seq<char>| #[trigger] form.fields@.contains_key(q) <==> keys.contains(q),
            forall|j: int| 0 <= j < entries.len() ==> #[trigger] form.fields@[entries[j].0.key_view()] == entries[j].1,
            forall|k: Seq<char>| #[trigger] errors@.contains_key(k) <==> (keys.take(i as int).contains(k) && form_error_for(*form, *values, outcomes@, k) is Some),
            forall|k: Seq<char>| #[trigger] errors@.contains_key(k) ==> errors@[k]@ == form_error_for(*form, *values, outcomes@, k)->0,
        decreases n - i,
    {
        let name = form.fields.key_at(i);
        let field = form.fields.value_at(i);
        assert(keys[i as int] == name@);
        assert(entries[i as int].0.key_view() == name@);
        assert(keys.contains(name@));
        assert(keys.index_of(name@) == i) by {
            let j = keys.index_of(name@);
            if j != i {
                crate::ordered_map::lemma_sorted_distinct(keys, j, i as int);
            }
        }
        let outcome = if i < outcomes.len() {
            outcomes[i]
        } else {
            None
        };
        let value = values.get(name.as_str());
        let message = field_error_message(field, value, outcome);
        match message {
            Some(m) => {
                errors.insert(name.clone(), m);
            },
            None => {},
        }
        assert forall|k: Seq<char>| keys.take(i + 1).contains(k) <==> (keys.take(i as int).contains(k) || k == name@) by {
            if keys.take(i + 1).contains(k) {
                let q = choose|q: int| 0 <= q < i + 1 && #[trigger] keys.take(i + 1)[q] == k;
                if q < i {
                    assert(keys.take(i as int)[q] == k);
                }
            }
            if keys.take(i as int).contains(k) {
                let q = choose|q: int| 0 <= q < i && #[trigger] keys.take(i as int)[q] == k;
                assert(keys.take(i + 1)[q] == k);
            }
            assert(keys.take(i + 1)[i as int] == name@);
        }
        i = i + 1;
    }
    assert(keys.take(n as int) == keys);
    errors.reveal_entries();
    let valid = errors.is_empty();
    proof {
        if valid {
            assert(errors@ =~= Map::<Seq<char>, String>::empty());
            assert(no_listed_error(errors));
            assert forall|k: Seq<char>| #[trigger] form_error_for(*form, *values, outcomes@, k) is None by {
                if form_error_for(*form, *values, outcomes@, k) is Some {
                    assert(form.fields@.contains_key(k));
                    assert(errors@.contains_key(k));
                }
            }
            assert(no_field_error(*form, *values, outcomes@));
        } else {
            let k0 = errors.entry_seq()[0].0.key_view();
            assert(errors.key_seq()[0] == k0);
            assert(errors@.contains_key(k0));
            assert(errors@.dom().contains(k0));
            assert(form_error_for(*form, *values, outcomes@, k0) is Some);
            assert(!no_listed_error(errors));
            assert(!no_field_error(*form, *values, outcomes@));
        }
    }
    let r = FormValidationResult { valid, field_errors: errors };
    assert(forall|k: Seq<char>| #[trigger] r.field_errors@.contains_key(k) <==> form_error_for(*form, *values, outcomes@, k) is Some);
    assert(forall|k: Seq<char>| #[trigger] r.field_errors@.contains_key(k) ==> r.field_errors@[k]@ == form_error_for(*form, *values, outcomes@, k)->0);
    r
}

/// Declarative form validation: a pure function of the form schema and the
/// submitted values.
pub fn validate_form_values(form: &FormDefinition, values: &OrderedMap<String, PropertyValue>) -> (r: FormValidationResult)
    ensures
        result_matches(r, *form, *values, pattern_outcomes(*form, *values)),
{
    let ghost entries = form.fields.entry_seq();
    let n = form.fields.len();
    let mut outcomes: Vec<Option<bool>> = Vec::new();
    let mut i: usize = 0;
    while i < n
        invariant
            i <= n,
            n == entries.len(),
            entries == form.fields.entry_seq(),
            outcomes@ == pattern_outcomes(*form, *values).take(i as int),
        decreases n - i,
    {
        let name = form.fields.key_at(i);
        let field = form.fields.value_at(i);
        let outcome = match &field.pattern {
            Some(p) => match values.get(name.as_str()) {
                Some(PropertyValue::String(t)) => {
                    if regex_compiles(p.as_str()) {
                        Some(regex_is_match(p.as_str(), t.as_str()))
                    } else {
                        None
                    }
                },
                _ => None,
            },
            None => None,
        };
        outcomes.push(outcome);
        assert(outcomes@ =~= pattern_outcomes(*form, *values).take(i + 1));
        i = i + 1;
    }
    assert(outcomes@ =~= pattern_outcomes(*form, *values));
    form_values_result(form, values, &outcomes)
}

/// A binding with a fallback always renders a value, whatever the record.
pub proof fn lemma_fallback_always_renders(binding: ContentBinding, record: Option<ContentRecord>)
    requires
        binding.fallback is Some,
    ensures
        binding_value(binding, record) is Some,
{
}

/// Every binding that cannot build is reported by the binding diagnostics
/// with at least one error.
pub proof fn lemma_build_errors_are_reported(design: &StudioDesign, binding: ContentBinding)
    requires
        build_error(binding, design),
    ensures
        exists|i: int|
            0 <= i < binding_reference_issues(design, binding).len()
                && (#[trigger] binding_reference_issues(design, binding)[i]).1 == DiagnosticSeverity::Error,
{
    let issues = binding_reference_issues(design, binding);
    let shape = binding_shape_issues(binding);
    let node = if !design.nodes@.contains_key(binding.node_id@) {
        seq![binding_issue(binding, "CONTENT_BINDING_NODE_MISSING"@, "binding target node '"@ + binding.node_id@ + "' does not exist"@, DiagnosticSeverity::Warning)]
    } else {
        Seq::<DiagView>::empty()
    };
    let cid = binding.source.collection_id@;
    if !design.collections@.contains_key(cid) || !design.collections@[cid].schema.fields@.contains_key(binding.source.field@)
        || binding.fallback is None {
        let i = issues.len() - 1;
        assert(issues[i].1 == DiagnosticSeverity::Error);
    } else {
        let f = binding.fallback->0;
        let version = if binding.schema_version != STUDIO_DESIGN_SCHEMA_VERSION {
            seq![binding_issue(binding, "CONTENT_BINDING_SCHEMA_INVALID"@, "a binding has an unsupported schema version"@, DiagnosticSeverity::Error)]
        } else {
            Seq::<DiagView>::empty()
        };
        let property = if !valid_field_name(binding.property@) {
            seq![binding_issue(binding, "CONTENT_BINDING_PROPERTY_INVALID"@, "a binding property name must be 1..=128 safe bytes"@, DiagnosticSeverity::Error)]
        } else {
            Seq::<DiagView>::empty()
        };
        let field = if !valid_field_name(binding.source.field@) {
            seq![binding_issue(binding, "CONTENT_BINDING_FIELD_INVALID"@, "a binding source field must be 1..=128 safe bytes"@, DiagnosticSeverity::Error)]
        } else {
            Seq::<DiagView>::empty()
        };
        let i: int = (version.len() + property.len() + field.len()) as int;
        assert(shape[i].1 == DiagnosticSeverity::Error);
        assert(issues[i] == shape[i]);
    }
}

} // verus!
