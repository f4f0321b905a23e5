use studio_design::content::{
    binding_diagnostics, build_blocking_binding_errors, preview_collection, resolve_binding_value,
    validate_binding_shape, validate_collection_schema, validate_fixture, validate_form_shape, validate_form_values,
    validate_record,
};
use studio_design::{
    BindingId, BindingSource, CollectionId, ContentBinding, ContentCollection, ContentCollectionSchema,
    ContentFieldKind, ContentFieldSchema, ContentFixture, ContentRecord, DesignNode, FixtureKind, FormDefinition,
    FormFieldSchema, FormId, NodeId, NodeKind, OrderedMap, ProjectId, PropertyValue, RecordId,
    STUDIO_DESIGN_SCHEMA_VERSION, StudioDesign,
};

fn cid() -> CollectionId {
    CollectionId::new("posts").unwrap()
}

fn schema() -> ContentCollectionSchema {
    let mut fields = OrderedMap::new();
    fields.insert("title".to_owned(), ContentFieldSchema { kind: ContentFieldKind::String, required: true });
    fields.insert("views".to_owned(), ContentFieldSchema { kind: ContentFieldKind::Integer, required: false });
    ContentCollectionSchema { schema_version: STUDIO_DESIGN_SCHEMA_VERSION, fields }
}

fn record(id: &str, title: Option<&str>) -> ContentRecord {
    let mut values = OrderedMap::new();
    if let Some(t) = title {
        values.insert("title".to_owned(), PropertyValue::String(t.to_owned()));
    }
    ContentRecord { schema_version: STUDIO_DESIGN_SCHEMA_VERSION, id: RecordId::new(id).unwrap(), values }
}

fn fixture(kind: FixtureKind) -> ContentFixture {
    ContentFixture { schema_version: STUDIO_DESIGN_SCHEMA_VERSION, kind, edge_records: Vec::new(), error_message: None }
}

fn collection() -> ContentCollection {
    let mut records = OrderedMap::new();
    records.insert(RecordId::new("b").unwrap(), record("b", Some("Second")));
    records.insert(RecordId::new("a").unwrap(), record("a", Some("First")));
    ContentCollection {
        schema_version: STUDIO_DESIGN_SCHEMA_VERSION,
        id: cid(),
        name: "Posts".to_owned(),
        schema: schema(),
        records,
        fixture: fixture(FixtureKind::Populated),
    }
}

fn binding(property: &str, field: &str, fallback: Option<PropertyValue>) -> ContentBinding {
    ContentBinding {
        schema_version: STUDIO_DESIGN_SCHEMA_VERSION,
        id: BindingId::new("bind").unwrap(),
        node_id: NodeId::new("label").unwrap(),
        property: property.to_owned(),
        source: BindingSource { collection_id: cid(), field: field.to_owned() },
        expected_kind: ContentFieldKind::String,
        fallback,
        repeated: false,
    }
}

fn form_field(kind: ContentFieldKind, required: bool) -> FormFieldSchema {
    FormFieldSchema {
        kind,
        required,
        minimum_length: None,
        maximum_length: None,
        pattern: None,
        minimum_value: None,
        maximum_value: None,
    }
}

fn form(fields: Vec<(&str, FormFieldSchema)>) -> FormDefinition {
    let mut map = OrderedMap::new();
    for (name, field) in fields {
        map.insert(name.to_owned(), field);
    }
    FormDefinition {
        schema_version: STUDIO_DESIGN_SCHEMA_VERSION,
        id: FormId::new("signup").unwrap(),
        name: "Signup".to_owned(),
        target_collection_id: None,
        fields: map,
    }
}

#[test]
fn schema_validation_reports_version_empty_and_names() {
    assert!(validate_collection_schema(&schema()).is_empty());
    let empty = ContentCollectionSchema { schema_version: 2, fields: OrderedMap::new() };
    let codes: Vec<String> = validate_collection_schema(&empty).into_iter().map(|d| d.code).collect();
    assert_eq!(codes, vec!["CONTENT_SCHEMA_VERSION_INVALID", "CONTENT_SCHEMA_EMPTY"]);
    let mut bad = schema();
    bad.fields.insert(String::new(), ContentFieldSchema { kind: ContentFieldKind::Boolean, required: false });
    let ds = validate_collection_schema(&bad);
    assert_eq!(ds.len(), 1);
    assert_eq!(ds[0].code, "CONTENT_FIELD_NAME_INVALID");
    assert_eq!(ds[0].message, "field name '' must be 1..=128 safe bytes");
}

#[test]
fn record_validation_names_each_field_problem() {
    let c = collection();
    assert!(validate_record(&c, &record("a", Some("Hi"))).is_empty());
    let missing = validate_record(&c, &record("x", None));
    assert_eq!(missing.len(), 1);
    assert_eq!(missing[0].code, "CONTENT_RECORD_REQUIRED_MISSING");
    assert_eq!(missing[0].message, "required field 'title' is missing");
    assert_eq!(missing[0].record_id.as_ref().map(|r| r.as_str()), Some("x"));
    let mut wrong = record("y", None);
    wrong.values.insert("title".to_owned(), PropertyValue::Integer(3));
    wrong.values.insert("extra".to_owned(), PropertyValue::Boolean(true));
    let ds = validate_record(&c, &wrong);
    let messages: Vec<String> = ds.iter().map(|d| d.message.clone()).collect();
    assert_eq!(
        messages,
        vec![
            "field 'title' expected String but found Integer".to_owned(),
            "field 'extra' is not declared in the collection schema".to_owned(),
        ]
    );
}

#[test]
fn fixture_validation_covers_each_rule() {
    assert!(validate_fixture(&fixture(FixtureKind::Populated)).is_empty());
    assert_eq!(validate_fixture(&fixture(FixtureKind::Edge))[0].code, "CONTENT_FIXTURE_EDGE_EMPTY");
    assert_eq!(validate_fixture(&fixture(FixtureKind::Error))[0].code, "CONTENT_FIXTURE_ERROR_EMPTY");
    let mut misplaced = fixture(FixtureKind::Empty);
    misplaced.error_message = Some("boom".to_owned());
    assert_eq!(validate_fixture(&misplaced)[0].code, "CONTENT_FIXTURE_ERROR_MESSAGE_MISPLACED");
    let mut old = fixture(FixtureKind::Error);
    old.schema_version = 0;
    old.error_message = Some("  ".to_owned());
    let codes: Vec<String> = validate_fixture(&old).into_iter().map(|d| d.code).collect();
    assert_eq!(codes, vec!["CONTENT_FIXTURE_SCHEMA_INVALID", "CONTENT_FIXTURE_ERROR_EMPTY"]);
}

#[test]
fn preview_switches_fixture_states() {
    let c = collection();
    let populated = preview_collection(&c, None);
    let ids: Vec<&str> = populated.records.iter().map(|r| r.id.as_str()).collect();
    assert_eq!(ids, vec!["a", "b"]);
    assert!(!populated.is_loading && !populated.is_error);
    let loading = preview_collection(&c, Some(FixtureKind::Loading));
    assert!(loading.is_loading && loading.records.is_empty());
    let error = preview_collection(&c, Some(FixtureKind::Error));
    assert!(error.is_error);
    assert_eq!(error.error_message.as_deref(), Some("collection failed to load"));
    assert!(preview_collection(&c, Some(FixtureKind::Empty)).records.is_empty());
    let mut edged = collection();
    edged.fixture.edge_records = vec![record("z", Some("Z")), record("m", None)];
    let edge = preview_collection(&edged, Some(FixtureKind::Edge));
    let ids: Vec<&str> = edge.records.iter().map(|r| r.id.as_str()).collect();
    assert_eq!(ids, vec!["m", "z"]);
    let edge_default = preview_collection(&c, Some(FixtureKind::Edge));
    assert_eq!(edge_default.records.len(), 2);
}

#[test]
fn binding_shape_and_fallback_rules() {
    assert!(validate_binding_shape(&binding("text", "title", None)).is_empty());
    let ds = validate_binding_shape(&binding("", "", Some(PropertyValue::Integer(1))));
    let codes: Vec<String> = ds.iter().map(|d| d.code.clone()).collect();
    assert_eq!(
        codes,
        vec!["CONTENT_BINDING_PROPERTY_INVALID", "CONTENT_BINDING_FIELD_INVALID", "CONTENT_BINDING_FALLBACK_MISMATCH"]
    );
    assert_eq!(ds[2].message, "fallback type Integer does not match expected String");
    assert_eq!(ds[2].binding_id.as_ref().map(|b| b.as_str()), Some("bind"));
}

#[test]
fn binding_value_reads_record_or_falls_back() {
    let c = collection();
    let b = binding("text", "title", Some(PropertyValue::String("None yet".to_owned())));
    let first = c.records.get("a").unwrap();
    assert_eq!(resolve_binding_value(&b, &c, Some(first)), Some(PropertyValue::String("First".to_owned())));
    assert_eq!(resolve_binding_value(&b, &c, None), Some(PropertyValue::String("None yet".to_owned())));
    let no_fallback = binding("text", "title", None);
    assert_eq!(resolve_binding_value(&no_fallback, &c, None), None);
}

#[test]
fn design_bindings_report_missing_targets_and_block_builds() {
    let mut design = StudioDesign::empty(ProjectId::new("p").unwrap(), "Demo");
    design.bindings.insert(BindingId::new("bind").unwrap(), binding("text", "title", None));
    let codes: Vec<String> = binding_diagnostics(&design).into_iter().map(|d| d.code).collect();
    assert!(codes.contains(&"CONTENT_BINDING_NODE_MISSING".to_owned()));
    assert!(codes.contains(&"CONTENT_BINDING_COLLECTION_MISSING".to_owned()));
    let blocked = build_blocking_binding_errors(&design);
    assert_eq!(blocked.len(), 1);
    assert_eq!(blocked[0].code, "CONTENT_BUILD_BLOCKED");
    design.nodes.insert(NodeId::new("label").unwrap(), DesignNode::primitive(NodeId::new("label").unwrap(), "Label", NodeKind::Text));
    design.collections.insert(cid(), collection());
    assert!(binding_diagnostics(&design).is_empty());
    assert!(build_blocking_binding_errors(&design).is_empty());
}

#[test]
fn form_shape_checks_bounds_and_patterns() {
    let mut text = form_field(ContentFieldKind::String, true);
    text.pattern = Some("^[a-z]+$".to_owned());
    assert!(validate_form_shape(&form(vec![("name", text.clone())])).is_empty());
    let mut broken = text.clone();
    broken.pattern = Some("([".to_owned());
    broken.minimum_length = Some(5);
    broken.maximum_length = Some(2);
    let ds = validate_form_shape(&form(vec![("name", broken)]));
    let messages: Vec<String> = ds.iter().map(|d| d.message.clone()).collect();
    assert_eq!(
        messages,
        vec![
            "field 'name' has minimum_length > maximum_length".to_owned(),
            "field 'name' has an invalid regex pattern".to_owned(),
        ]
    );
    assert_eq!(ds[1].code, "FORM_FIELD_PATTERN_INVALID");
    let empty = validate_form_shape(&form(Vec::new()));
    assert_eq!(empty[0].code, "FORM_FIELDS_EMPTY");
}

#[test]
fn form_values_report_the_first_problem_per_field() {
    let mut name = form_field(ContentFieldKind::String, true);
    name.minimum_length = Some(2);
    name.maximum_length = Some(5);
    name.pattern = Some("^[a-z]+$".to_owned());
    let mut age = form_field(ContentFieldKind::Integer, false);
    age.minimum_value = Some("-5".to_owned());
    age.maximum_value = Some("120".to_owned());
    let f = form(vec![("name", name), ("age", age)]);

    let mut values = OrderedMap::new();
    values.insert("name".to_owned(), PropertyValue::String("abc".to_owned()));
    values.insert("age".to_owned(), PropertyValue::Integer(30));
    let ok = validate_form_values(&f, &values);
    assert!(ok.valid && ok.field_errors.is_empty());

    let empty = validate_form_values(&f, &OrderedMap::new());
    assert!(!empty.valid);
    assert_eq!(empty.field_errors.get("name").map(|s| s.as_str()), Some("this field is required"));
    assert!(empty.field_errors.get("age").is_none());

    let mut values = OrderedMap::new();
    values.insert("name".to_owned(), PropertyValue::Integer(1));
    values.insert("age".to_owned(), PropertyValue::Integer(-6));
    let r = validate_form_values(&f, &values);
    assert_eq!(r.field_errors.get("name").map(|s| s.as_str()), Some("expected String but found Integer"));
    assert_eq!(r.field_errors.get("age").map(|s| s.as_str()), Some("must be at least -5"));

    let cases = [("a", "must be at least 2 characters"), ("abcdef", "must be at most 5 characters"), ("ABC", "does not match required pattern")];
    for (text, message) in cases {
        let mut values = OrderedMap::new();
        values.insert("name".to_owned(), PropertyValue::String(text.to_owned()));
        values.insert("age".to_owned(), PropertyValue::Integer(121));
        let r = validate_form_values(&f, &values);
        assert_eq!(r.field_errors.get("name").map(|s| s.as_str()), Some(message));
        assert_eq!(r.field_errors.get("age").map(|s| s.as_str()), Some("must be at most 120"));
    }
    let mut values = OrderedMap::new();
    values.insert("name".to_owned(), PropertyValue::String("ab".to_owned()));
    values.insert("unknown".to_owned(), PropertyValue::Boolean(true));
    assert!(validate_form_values(&f, &values).valid);
}
