use studio_design::responsive::{compare_profiles, inspect_node, merge_style, resolve_node, select_variant, variant_matches};
use studio_design::{
    BreakpointProvenance, DesignNode, DeviceInput, DeviceProfile, DeviceProfileId, DeviceProfileMatrix, InputEnvironment,
    Insets, LayoutProperties, Length, LengthUnit, NodeId, NodeKind, Orientation, Paint, ColorValue, ProjectId,
    PropertyPath, PropertyValue, ResponsiveNodeOverride, ResponsiveValue, ResponsiveVariant, ResponsiveVariantId,
    STUDIO_DESIGN_SCHEMA_VERSION, StudioDesign, StyleProperties, Viewport, OrderedMap,
};

fn vid(s: &str) -> ResponsiveVariantId {
    ResponsiveVariantId::new(s).unwrap()
}

fn variant(id: &str, min: Option<u32>, max: Option<u32>, input: InputEnvironment) -> ResponsiveVariant {
    ResponsiveVariant {
        schema_version: STUDIO_DESIGN_SCHEMA_VERSION,
        id: vid(id),
        name: id.to_owned(),
        minimum_width: min,
        maximum_width: max,
        input,
    }
}

fn profile(id: &str, width: u32, touch: bool, pointer: bool) -> DeviceProfile {
    DeviceProfile {
        schema_version: STUDIO_DESIGN_SCHEMA_VERSION,
        id: DeviceProfileId::new(id).unwrap(),
        name: id.to_owned(),
        viewport: Viewport { width, height: 800 },
        orientation: Orientation::Portrait,
        safe_area: Insets::default(),
        pixel_ratio: "1.0".to_owned(),
        input: DeviceInput { pointer, touch, keyboard: pointer, remote_focus: false },
    }
}

fn design_with_variants() -> StudioDesign {
    let mut design = StudioDesign::empty(ProjectId::new("p").unwrap(), "Demo");
    for v in [
        variant("any-wide", Some(600), None, InputEnvironment::Any),
        variant("desktop", Some(1024), None, InputEnvironment::Pointer),
        variant("touch", None, Some(1023), InputEnvironment::Touch),
        variant("tablet", Some(600), Some(1023), InputEnvironment::Any),
    ] {
        design.responsive_variants.insert(vid(v.id.as_str()), v);
    }
    design
}

#[test]
fn responsive_value_overrides_read_back_and_clear() {
    let mut value = ResponsiveValue::new(10u32);
    assert_eq!(*value.resolve(None).value, 10);
    assert_eq!(value.set_override(vid("wide"), 20), None);
    assert_eq!(value.set_override(vid("wide"), 30), Some(20));
    let resolved = value.resolve(Some(&vid("wide")));
    assert_eq!(*resolved.value, 30);
    assert_eq!(resolved.provenance, BreakpointProvenance::Breakpoint(vid("wide")));
    let other = value.resolve(Some(&vid("narrow")));
    assert_eq!(*other.value, 10);
    assert_eq!(other.provenance, BreakpointProvenance::Base);
    assert_eq!(value.clear_override(&vid("wide")), Some(30));
    assert_eq!(*value.resolve(Some(&vid("wide"))).value, 10);
    assert_eq!(value.clear_override(&vid("wide")), None);
}

#[test]
fn content_viewport_subtracts_safe_area_and_saturates() {
    let mut p = profile("x", 390, true, false);
    p.safe_area = Insets { top: 24, right: 10, bottom: 16, left: 20 };
    assert_eq!(p.content_viewport(), Viewport { width: 360, height: 760 });
    p.safe_area = Insets { top: u32::MAX, right: u32::MAX, bottom: 1, left: 5 };
    assert_eq!(p.content_viewport(), Viewport { width: 0, height: 0 });
    assert_eq!(profile("t", 1, true, false).input_environment(), InputEnvironment::Touch);
    assert_eq!(profile("b", 1, true, true).input_environment(), InputEnvironment::Pointer);
    assert_eq!(profile("n", 1, false, false).input_environment(), InputEnvironment::Any);
}

#[test]
fn standard_matrix_lists_sixteen_profiles() {
    let matrix = DeviceProfileMatrix::standard();
    assert_eq!(matrix.profiles.len(), 16);
    let phone = matrix.profiles.get("phone-portrait").unwrap();
    assert_eq!(phone.viewport, Viewport { width: 390, height: 844 });
    assert_eq!(phone.safe_area, Insets { top: 24, right: 0, bottom: 16, left: 0 });
    assert_eq!(phone.pixel_ratio, "3.0");
    assert!(phone.input.touch && !phone.input.pointer);
    let tv = matrix.profiles.get("television-landscape").unwrap();
    assert!(tv.input.remote_focus);
    assert_eq!(tv.safe_area, Insets::default());
    let laptop = matrix.profiles.get("laptop-landscape").unwrap();
    assert!(laptop.input.keyboard && laptop.input.pointer && laptop.input.touch);
    assert_eq!(laptop.orientation, Orientation::Landscape);
    assert!(DeviceProfileMatrix::default().profiles.is_empty());
}

#[test]
fn variant_matching_respects_bounds_and_input() {
    let v = variant("tablet", Some(600), Some(1023), InputEnvironment::Touch);
    assert!(variant_matches(&v, 600, InputEnvironment::Touch));
    assert!(variant_matches(&v, 1023, InputEnvironment::Touch));
    assert!(!variant_matches(&v, 1024, InputEnvironment::Touch));
    assert!(!variant_matches(&v, 599, InputEnvironment::Touch));
    assert!(!variant_matches(&v, 700, InputEnvironment::Pointer));
    assert!(variant_matches(&variant("any", None, None, InputEnvironment::Any), 0, InputEnvironment::Pointer));
}

#[test]
fn selection_prefers_the_most_specific_variant() {
    let design = design_with_variants();
    assert_eq!(select_variant(&design, &profile("desk", 1440, false, true)).map(|v| v.as_str().to_owned()), Some("desktop".to_owned()));
    assert_eq!(select_variant(&design, &profile("tab", 800, true, false)).map(|v| v.as_str().to_owned()), Some("any-wide".to_owned()));
    assert_eq!(select_variant(&design, &profile("phone", 390, true, false)).map(|v| v.as_str().to_owned()), Some("touch".to_owned()));
    assert_eq!(select_variant(&design, &profile("small-mouse", 390, false, true)), None);
    let empty = StudioDesign::empty(ProjectId::new("p").unwrap(), "Demo");
    assert_eq!(select_variant(&empty, &profile("desk", 1440, false, true)), None);
}

#[test]
fn style_merge_prefers_override_fields() {
    let mut base = StyleProperties::default();
    base.opacity = Some("0.5".to_owned());
    base.background = Some(Paint::Color(ColorValue::SrgbHex("#ffffff".to_owned())));
    let mut over = StyleProperties::default();
    over.opacity = Some("1".to_owned());
    let merged = merge_style(&base, &over);
    assert_eq!(merged.opacity.as_deref(), Some("1"));
    assert_eq!(merged.background, base.background);
    assert_eq!(merge_style(&base, &StyleProperties::default()), base);
}

fn node_with_breakpoint() -> DesignNode {
    let mut node = DesignNode::primitive(NodeId::new("card").unwrap(), "Card", NodeKind::Box);
    node.properties.insert("label".to_owned(), PropertyValue::String("Base".to_owned()));
    node.properties.insert("count".to_owned(), PropertyValue::Integer(1));
    node.layout.width = Some(Length { value: "100".to_owned(), unit: LengthUnit::Pixels });
    let mut over_props = OrderedMap::new();
    over_props.insert("label".to_owned(), PropertyValue::String("Wide".to_owned()));
    let mut over_layout = LayoutProperties::default();
    over_layout.width = Some(Length { value: "50".to_owned(), unit: LengthUnit::Percent });
    node.responsive_overrides.insert(
        vid("desktop"),
        ResponsiveNodeOverride {
            schema_version: STUDIO_DESIGN_SCHEMA_VERSION,
            properties: over_props,
            layout: over_layout,
            style: StyleProperties::default(),
        },
    );
    node
}

#[test]
fn resolve_node_applies_the_selected_breakpoint() {
    let design = design_with_variants();
    let node = node_with_breakpoint();
    let desk = resolve_node(&design, &node, &profile("desk", 1440, false, true));
    assert_eq!(desk.variant.as_ref().map(|v| v.as_str()), Some("desktop"));
    let label = desk.properties.get("label").unwrap();
    assert_eq!(label.value, Some(PropertyValue::String("Wide".to_owned())));
    assert_eq!(label.provenance, BreakpointProvenance::Breakpoint(vid("desktop")));
    assert_eq!(desk.properties.get("count").unwrap().provenance, BreakpointProvenance::Base);
    assert_eq!(desk.layout.width, Some(Length { value: "50".to_owned(), unit: LengthUnit::Percent }));
    let phone = resolve_node(&design, &node, &profile("phone", 390, true, false));
    assert_eq!(phone.variant.as_ref().map(|v| v.as_str()), Some("touch"));
    assert_eq!(phone.properties.get("label").unwrap().value, Some(PropertyValue::String("Base".to_owned())));
    assert_eq!(phone.layout.width, Some(Length { value: "100".to_owned(), unit: LengthUnit::Pixels }));
}

#[test]
fn inspector_rows_are_in_path_order() {
    let design = design_with_variants();
    let node = node_with_breakpoint();
    let rows = inspect_node(&design, &node, &profile("desk", 1440, false, true));
    let paths: Vec<PropertyPath> = rows.iter().map(|r| r.path.clone()).collect();
    assert_eq!(
        paths,
        vec![
            PropertyPath::Property("count".to_owned()),
            PropertyPath::Property("label".to_owned()),
            PropertyPath::Layout("width".to_owned()),
        ]
    );
    assert_eq!(rows[2].provenance, BreakpointProvenance::Breakpoint(vid("desktop")));
}

#[test]
fn profile_comparison_lists_differences() {
    let design = design_with_variants();
    let node = node_with_breakpoint();
    let report = compare_profiles(&design, &node, &profile("desk", 1440, false, true), &profile("phone", 390, true, false));
    assert_eq!(report.node_id.as_str(), "card");
    assert_eq!(report.left_profile.as_str(), "desk");
    assert_eq!(report.right_profile.as_str(), "phone");
    let paths: Vec<PropertyPath> = report.differences.iter().map(|d| d.path.clone()).collect();
    assert_eq!(paths, vec![PropertyPath::Property("label".to_owned()), PropertyPath::Layout("width".to_owned())]);
    assert_eq!(report.differences[0].left, Some(PropertyValue::String("Wide".to_owned())));
    assert_eq!(report.differences[0].right, Some(PropertyValue::String("Base".to_owned())));
    let same = compare_profiles(&design, &node, &profile("a", 1440, false, true), &profile("b", 1500, false, true));
    assert!(same.differences.is_empty());
}
