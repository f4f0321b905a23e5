//! Layout, sizing, constraint and overlay-placement rules.
//!
//! Length values are authored as decimal text. Their numeric reading is an
//! argument here: `numbers` maps the text of every length that reads as a
//! finite number to an order key (a signed integer that orders as the numbers
//! do, and is non-negative exactly for non-negative numbers). Text missing
//! from `numbers` does not read as a finite number.
use vstd::prelude::*;
use vstd::string::StringExecFns;

use crate::content::{DiagView, push_diagnostic, views};
use crate::engine::{error_view, kind_of, node_diagnostic, parent_kind, parent_kind_of};
use crate::ids::NodeId;
use crate::model::{
    Alignment, DesignNode, DesignerDiagnostic, LayoutProperties, Length, LengthUnit, NodeKind, Placement,
    ResponsiveNodeOverride, STUDIO_DESIGN_SCHEMA_VERSION, StudioDesign,
};
use crate::ordered_map::OrderedMap;
use crate::text::{has_control, trim_whitespace};

verus! {

/// The order key of a length's text, when it reads as a finite number.
pub open spec fn number_of(numbers: Map<Seq<char>, i64>, l: Length) -> Option<i64> {
    if numbers.contains_key(l.value@) {
        Some(numbers[l.value@])
    } else {
        None
    }
}

/// A length is non-blank text without control characters in a supported
/// unit: `auto` only where allowed and spelled `auto`, otherwise a finite
/// number, non-negative where required.
pub open spec fn length_ok(l: Length, allow_auto: bool, nonnegative: bool, numbers: Map<Seq<char>, i64>) -> bool {
    if trim_whitespace(l.value@).len() == 0 || has_control(l.value@) || (!allow_auto && l.unit
        == LengthUnit::Auto) {
        false
    } else if l.unit == LengthUnit::Auto {
        allow_auto && trim_whitespace(l.value@) == "auto"@
    } else {
        match number_of(numbers, l) {
            None => false,
            Some(n) => !nonnegative || n >= 0,
        }
    }
}

fn chars_equal(v: &Vec<char>, lit: &str) -> (r: bool)
    ensures
        r == (v@ == lit@),
{
    let n = lit.unicode_len();
    if v.len() != n {
        return false;
    }
    let mut i: usize = 0;
    while i < n
        invariant
            n == lit@.len(),
            v@.len() == n,
            i <= n,
            forall|j: int| 0 <= j < i ==> v@[j] == lit@[j],
        decreases n - i,
    {
        if v[i] != lit.get_char(i) {
            return false;
        }
        i = i + 1;
    }
    assert(v@ =~= lit@);
    true
}

fn is_auto_text(value: &str) -> (r: bool)
    ensures
        r == (trim_whitespace(value@) == "auto"@),
{
    let t = crate::text::trim_chars(value);
    chars_equal(&t, "auto")
}

fn number_in(numbers: &OrderedMap<String, i64>, l: &Length) -> (r: Option<i64>)
    ensures
        r == number_of(numbers@, *l),
{
    match numbers.get(l.value.as_str()) {
        Some(n) => Some(*n),
        None => None,
    }
}

/// Whether a length is well formed for its use.
pub fn valid_length(l: &Length, allow_auto: bool, nonnegative: bool, numbers: &OrderedMap<String, i64>) -> (r: bool)
    ensures
        r == length_ok(*l, allow_auto, nonnegative, numbers@),
{
    if crate::content::is_blank(l.value.as_str()) || crate::text::contains_control(l.value.as_str()) || (
    !allow_auto && l.unit == LengthUnit::Auto) {
        return false;
    }
    if l.unit == LengthUnit::Auto {
        return allow_auto && is_auto_text(l.value.as_str());
    }
    match number_in(numbers, l) {
        None => false,
        Some(n) => !nonnegative || n >= 0,
    }
}

/// One diagnostic linked to a node.
pub open spec fn at_node(code: Seq<char>, message: Seq<char>, node_id: NodeId) -> Seq<DiagView> {
    seq![error_view(code, message, Some(node_id))]
}

/// The diagnostic for one sized field, if its length is malformed.
pub open spec fn size_issue(
    value: Option<Length>,
    allow_auto: bool,
    message: Seq<char>,
    node_id: NodeId,
    numbers: Map<Seq<char>, i64>,
) -> Seq<DiagView> {
    match value {
        Some(l) => if !length_ok(l, allow_auto, true, numbers) {
            at_node("DESIGN_LAYOUT_LENGTH_INVALID"@, message, node_id)
        } else {
            Seq::empty()
        },
        None => Seq::empty(),
    }
}

/// The diagnostics for the sized fields, in field order.
pub open spec fn size_issues(layout: LayoutProperties, node_id: NodeId, numbers: Map<Seq<char>, i64>) -> Seq<DiagView> {
    size_issue(layout.width, true, "width must be a finite, non-negative length with a supported unit"@, node_id, numbers)
        + size_issue(layout.height, true, "height must be a finite, non-negative length with a supported unit"@, node_id, numbers)
        + size_issue(layout.min_width, false, "min_width must be a finite, non-negative length with a supported unit"@, node_id, numbers)
        + size_issue(layout.max_width, false, "max_width must be a finite, non-negative length with a supported unit"@, node_id, numbers)
        + size_issue(layout.min_height, false, "min_height must be a finite, non-negative length with a supported unit"@, node_id, numbers)
        + size_issue(layout.max_height, false, "max_height must be a finite, non-negative length with a supported unit"@, node_id, numbers)
        + size_issue(layout.gap, false, "gap must be a finite, non-negative length with a supported unit"@, node_id, numbers)
        + size_issue(layout.row_gap, false, "row_gap must be a finite, non-negative length with a supported unit"@, node_id, numbers)
        + size_issue(layout.column_gap, false, "column_gap must be a finite, non-negative length with a supported unit"@, node_id, numbers)
        + size_issue(layout.padding, false, "padding must be a finite, non-negative length with a supported unit"@, node_id, numbers)
}

/// Whether an optional edge is present and malformed.
pub open spec fn edge_bad(edge: Option<Length>, numbers: Map<Seq<char>, i64>) -> bool {
    edge matches Some(l) && !length_ok(l, false, false, numbers)
}

/// One diagnostic when any present overlay edge is malformed.
pub open spec fn edge_issues(layout: LayoutProperties, node_id: NodeId, numbers: Map<Seq<char>, i64>) -> Seq<DiagView> {
    match layout.position {
        Some(p) => if edge_bad(p.top, numbers) || edge_bad(p.right, numbers) || edge_bad(p.bottom, numbers)
            || edge_bad(p.left, numbers) {
            at_node(
                "DESIGN_LAYOUT_POSITION_INVALID"@,
                "overlay edges must be finite lengths with a supported unit"@,
                node_id,
            )
        } else {
            Seq::empty()
        },
        None => Seq::empty(),
    }
}

/// Whether a minimum exceeds a maximum of the same unit, both well formed.
pub open spec fn bounds_inverted(minimum: Option<Length>, maximum: Option<Length>, numbers: Map<Seq<char>, i64>) -> bool {
    match (minimum, maximum) {
        (Some(a), Some(b)) => a.unit == b.unit && length_ok(a, false, true, numbers) && length_ok(
            b,
            false,
            true,
            numbers,
        ) && match (number_of(numbers, a), number_of(numbers, b)) {
            (Some(x), Some(y)) => x > y,
            _ => false,
        },
        _ => false,
    }
}

/// Whether `a` reads as a number below `b` in the same unit.
pub open spec fn reads_below(a: Length, b: Length, numbers: Map<Seq<char>, i64>) -> bool {
    a.unit == b.unit && match (number_of(numbers, a), number_of(numbers, b)) {
        (Some(x), Some(y)) => x < y,
        _ => false,
    }
}

/// The size-against-bounds diagnostics of one axis, checked only when the
/// size and both bounds are authored.
pub open spec fn axis_issues(
    size: Option<Length>,
    minimum: Option<Length>,
    maximum: Option<Length>,
    below: Seq<char>,
    above: Seq<char>,
    node_id: NodeId,
    numbers: Map<Seq<char>, i64>,
) -> Seq<DiagView> {
    match (size, minimum, maximum) {
        (Some(s), Some(lo), Some(hi)) => (if reads_below(s, lo, numbers) {
            at_node("DESIGN_LAYOUT_CONSTRAINT_INVALID"@, below, node_id)
        } else {
            Seq::empty()
        }) + (if reads_below(hi, s, numbers) {
            at_node("DESIGN_LAYOUT_CONSTRAINT_INVALID"@, above, node_id)
        } else {
            Seq::empty()
        }),
        _ => Seq::empty(),
    }
}

/// The constraint diagnostics: inverted bounds, then sizes outside bounds.
pub open spec fn constraint_issues(layout: LayoutProperties, node_id: NodeId, numbers: Map<Seq<char>, i64>) -> Seq<DiagView> {
    when(
        bounds_inverted(layout.min_width, layout.max_width, numbers),
        "DESIGN_LAYOUT_CONSTRAINT_INVALID"@,
        "minimum width must not exceed maximum width"@,
        node_id,
    ) + when(
        bounds_inverted(layout.min_height, layout.max_height, numbers),
        "DESIGN_LAYOUT_CONSTRAINT_INVALID"@,
        "minimum height must not exceed maximum height"@,
        node_id,
    ) + axis_issues(
        layout.width,
        layout.min_width,
        layout.max_width,
        "width is below its minimum constraint"@,
        "width exceeds its maximum constraint"@,
        node_id,
        numbers,
    ) + axis_issues(
        layout.height,
        layout.min_height,
        layout.max_height,
        "height is below its minimum constraint"@,
        "height exceeds its maximum constraint"@,
        node_id,
        numbers,
    )
}

/// Whether a kind lays out children.
pub open spec fn is_container(kind: Option<NodeKind>) -> bool {
    kind == Some(NodeKind::Box) || kind == Some(NodeKind::Row) || kind == Some(NodeKind::Column) || kind
        == Some(NodeKind::Stack) || kind == Some(NodeKind::Grid)
}

/// Whether a placement takes a node out of flow.
pub open spec fn is_overlay(placement: Option<Placement>) -> bool {
    placement == Some(Placement::Overlay) || placement == Some(Placement::Absolute)
}

/// The container, grid, alignment and placement diagnostics.
pub open spec fn structure_issues(
    layout: LayoutProperties,
    kind: Option<NodeKind>,
    parent: Option<NodeKind>,
    node_id: NodeId,
) -> Seq<DiagView> {
    when(
        (layout.gap is Some || layout.row_gap is Some || layout.column_gap is Some) && !is_container(kind),
        "DESIGN_LAYOUT_CONTAINER_INVALID"@,
        "gaps may only be authored on a layout container"@,
        node_id,
    ) + when(
        (layout.row_gap is Some || layout.column_gap is Some) && kind != Some(NodeKind::Grid),
        "DESIGN_LAYOUT_GRID_INVALID"@,
        "row_gap and column_gap require a Grid container"@,
        node_id,
    ) + when(
        match layout.grid_columns {
            Some(c) => !(1 <= c && c <= 64),
            None => false,
        },
        "DESIGN_LAYOUT_GRID_INVALID"@,
        "grid_columns must be between 1 and 64"@,
        node_id,
    ) + when(
        layout.grid_columns is Some && kind != Some(NodeKind::Grid),
        "DESIGN_LAYOUT_GRID_INVALID"@,
        "grid_columns requires a Grid container"@,
        node_id,
    ) + when(
        layout.alignment is Some && !is_container(kind),
        "DESIGN_LAYOUT_CONTAINER_INVALID"@,
        "alignment may only be authored on a layout container"@,
        node_id,
    ) + when(
        layout.alignment == Some(Alignment::SpaceBetween) && kind != Some(NodeKind::Row) && kind != Some(
            NodeKind::Column,
        ),
        "DESIGN_LAYOUT_ALIGNMENT_INVALID"@,
        "space_between alignment requires a Row or Column container"@,
        node_id,
    ) + when(
        is_overlay(layout.placement) && parent != Some(NodeKind::Stack),
        "DESIGN_LAYOUT_OVERLAY_PARENT_INVALID"@,
        "overlay and absolute placement require a Stack parent"@,
        node_id,
    ) + when(
        layout.position is Some && !is_overlay(layout.placement),
        "DESIGN_LAYOUT_POSITION_INVALID"@,
        "position edges require overlay or absolute placement"@,
        node_id,
    )
}

/// Every layout diagnostic of one layout of a node, in reporting order.
pub open spec fn layout_issues(
    design: &StudioDesign,
    node_id: NodeId,
    kind: Option<NodeKind>,
    layout: LayoutProperties,
    numbers: Map<Seq<char>, i64>,
) -> Seq<DiagView> {
    (if layout.schema_version != STUDIO_DESIGN_SCHEMA_VERSION {
        at_node("DESIGN_LAYOUT_SCHEMA_INVALID"@, "the layout schema version is unsupported"@, node_id)
    } else {
        Seq::empty()
    }) + (if layout.position matches Some(p) && p.schema_version != STUDIO_DESIGN_SCHEMA_VERSION {
        at_node(
            "DESIGN_LAYOUT_POSITION_SCHEMA_INVALID"@,
            "the positioned layout schema version is unsupported"@,
            node_id,
        )
    } else {
        Seq::empty()
    }) + size_issues(layout, node_id, numbers) + edge_issues(layout, node_id, numbers) + constraint_issues(
        layout,
        node_id,
        numbers,
    ) + structure_issues(layout, kind, parent_kind_of(design, node_id@), node_id)
}

proof fn lemma_contains_in_concat(a: Seq<DiagView>, b: Seq<DiagView>, c: Seq<DiagView>, x: DiagView)
    requires
        b.contains(x),
    ensures
        (a + b + c).contains(x),
        (a + b).contains(x),
        (b + c).contains(x),
{
    let i = choose|i: int| 0 <= i < b.len() && b[i] == x;
    assert((a + b + c)[a.len() + i] == x);
    assert((a + b)[a.len() + i] == x);
    assert((b + c)[i] == x);
}

/// Whether a size reads above its maximum: size and maximum are authored in
/// one unit and the size's number exceeds the maximum's.
pub open spec fn reads_above(size: Option<Length>, maximum: Option<Length>, numbers: Map<Seq<char>, i64>) -> bool {
    &&& size is Some && maximum is Some
    &&& size->0.unit == maximum->0.unit
    &&& numbers.contains_key(size->0.value@) && numbers.contains_key(maximum->0.value@)
    &&& numbers[size->0.value@] > numbers[maximum->0.value@]
}

/// Whether a size reads below its minimum in one unit.
pub open spec fn reads_under(size: Option<Length>, minimum: Option<Length>, numbers: Map<Seq<char>, i64>) -> bool {
    &&& size is Some && minimum is Some
    &&& size->0.unit == minimum->0.unit
    &&& numbers.contains_key(size->0.value@) && numbers.contains_key(minimum->0.value@)
    &&& numbers[size->0.value@] < numbers[minimum->0.value@]
}

/// A layout whose width and height have both bounds authored is reported
/// when a size leaves its bounds: a width or height reading above its
/// maximum gets the "exceeds its maximum constraint" diagnostic for that
/// axis, and one reading below its minimum the "is below its minimum
/// constraint" diagnostic.
#[verifier::spinoff_prover]
pub proof fn lemma_size_outside_bounds_reported(
    design: &StudioDesign,
    node_id: NodeId,
    kind: Option<NodeKind>,
    layout: LayoutProperties,
    numbers: Map<Seq<char>, i64>,
)
    ensures
        layout.min_width is Some && reads_above(layout.width, layout.max_width, numbers) ==> layout_issues(
            design,
            node_id,
            kind,
            layout,
            numbers,
        ).contains(error_view("DESIGN_LAYOUT_CONSTRAINT_INVALID"@, "width exceeds its maximum constraint"@, Some(node_id))),
        layout.max_width is Some && reads_under(layout.width, layout.min_width, numbers) ==> layout_issues(
            design,
            node_id,
            kind,
            layout,
            numbers,
        ).contains(error_view("DESIGN_LAYOUT_CONSTRAINT_INVALID"@, "width is below its minimum constraint"@, Some(node_id))),
        layout.min_height is Some && reads_above(layout.height, layout.max_height, numbers) ==> layout_issues(
            design,
            node_id,
            kind,
            layout,
            numbers,
        ).contains(error_view("DESIGN_LAYOUT_CONSTRAINT_INVALID"@, "height exceeds its maximum constraint"@, Some(node_id))),
        layout.max_height is Some && reads_under(layout.height, layout.min_height, numbers) ==> layout_issues(
            design,
            node_id,
            kind,
            layout,
            numbers,
        ).contains(error_view("DESIGN_LAYOUT_CONSTRAINT_INVALID"@, "height is below its minimum constraint"@, Some(node_id))),
{
    let head = (if layout.schema_version != STUDIO_DESIGN_SCHEMA_VERSION {
        at_node("DESIGN_LAYOUT_SCHEMA_INVALID"@, "the layout schema version is unsupported"@, node_id)
    } else {
        Seq::empty()
    }) + (if layout.position matches Some(p) && p.schema_version != STUDIO_DESIGN_SCHEMA_VERSION {
        at_node(
            "DESIGN_LAYOUT_POSITION_SCHEMA_INVALID"@,
            "the positioned layout schema version is unsupported"@,
            node_id,
        )
    } else {
        Seq::empty()
    }) + size_issues(layout, node_id, numbers) + edge_issues(layout, node_id, numbers);
    let tail = structure_issues(layout, kind, parent_kind_of(design, node_id@), node_id);
    let ci = constraint_issues(layout, node_id, numbers);
    assert(layout_issues(design, node_id, kind, layout, numbers) == head + ci + tail);
    let w1 = when(
        bounds_inverted(layout.min_width, layout.max_width, numbers),
        "DESIGN_LAYOUT_CONSTRAINT_INVALID"@,
        "minimum width must not exceed maximum width"@,
        node_id,
    );
    let w2 = when(
        bounds_inverted(layout.min_height, layout.max_height, numbers),
        "DESIGN_LAYOUT_CONSTRAINT_INVALID"@,
        "minimum height must not exceed maximum height"@,
        node_id,
    );
    let wa = axis_issues(
        layout.width,
        layout.min_width,
        layout.max_width,
        "width is below its minimum constraint"@,
        "width exceeds its maximum constraint"@,
        node_id,
        numbers,
    );
    let ha = axis_issues(
        layout.height,
        layout.min_height,
        layout.max_height,
        "height is below its minimum constraint"@,
        "height exceeds its maximum constraint"@,
        node_id,
        numbers,
    );
    assert(ci == w1 + w2 + wa + ha);
    let wabove = error_view("DESIGN_LAYOUT_CONSTRAINT_INVALID"@, "width exceeds its maximum constraint"@, Some(node_id));
    let wbelow = error_view("DESIGN_LAYOUT_CONSTRAINT_INVALID"@, "width is below its minimum constraint"@, Some(node_id));
    let habove = error_view("DESIGN_LAYOUT_CONSTRAINT_INVALID"@, "height exceeds its maximum constraint"@, Some(node_id));
    let hbelow = error_view("DESIGN_LAYOUT_CONSTRAINT_INVALID"@, "height is below its minimum constraint"@, Some(node_id));
    if layout.min_width is Some && reads_above(layout.width, layout.max_width, numbers) {
        let lo = at_node("DESIGN_LAYOUT_CONSTRAINT_INVALID"@, "width is below its minimum constraint"@, node_id);
        let part1 = if reads_below(layout.width->0, layout.min_width->0, numbers) { lo } else { Seq::empty() };
        let part2 = at_node("DESIGN_LAYOUT_CONSTRAINT_INVALID"@, "width exceeds its maximum constraint"@, node_id);
        assert(wa == part1 + part2);
        assert(part2[0] == wabove);
        assert(wa[part1.len() as int] == wabove);
        assert(wa.contains(wabove));
        lemma_contains_in_concat(w1 + w2, wa, ha, wabove);
        lemma_contains_in_concat(head, ci, tail, wabove);
    }
    if layout.max_width is Some && reads_under(layout.width, layout.min_width, numbers) {
        assert(wa[0] == wbelow);
        assert(wa.contains(wbelow));
        lemma_contains_in_concat(w1 + w2, wa, ha, wbelow);
        lemma_contains_in_concat(head, ci, tail, wbelow);
    }
    if layout.min_height is Some && reads_above(layout.height, layout.max_height, numbers) {
        let lo = at_node("DESIGN_LAYOUT_CONSTRAINT_INVALID"@, "height is below its minimum constraint"@, node_id);
        let part1 = if reads_below(layout.height->0, layout.min_height->0, numbers) { lo } else { Seq::empty() };
        let part2 = at_node("DESIGN_LAYOUT_CONSTRAINT_INVALID"@, "height exceeds its maximum constraint"@, node_id);
        assert(ha == part1 + part2);
        assert(ha[part1.len() as int] == habove);
        assert(ha.contains(habove));
        lemma_contains_in_concat(w1 + w2 + wa, ha, Seq::empty(), habove);
        assert(w1 + w2 + wa + ha + Seq::<DiagView>::empty() == ci);
        lemma_contains_in_concat(head, ci, tail, habove);
    }
    if layout.max_height is Some && reads_under(layout.height, layout.min_height, numbers) {
        assert(ha[0] == hbelow);
        assert(ha.contains(hbelow));
        lemma_contains_in_concat(w1 + w2 + wa, ha, Seq::empty(), hbelow);
        assert(w1 + w2 + wa + ha + Seq::<DiagView>::empty() == ci);
        lemma_contains_in_concat(head, ci, tail, hbelow);
    }
}

#[verifier::spinoff_prover]
#[verifier::rlimit(60)]
proof fn lemma_node_issue_in_design(design: &StudioDesign, nodes: Seq<(NodeId, DesignNode)>, numbers: Map<Seq<char>, i64>, i: int, x: DiagView)
    requires
        0 <= i < nodes.len(),
        node_layout_issues(design, nodes[i].0, nodes[i].1, numbers).contains(x),
    ensures
        nodes_layout_issues(design, nodes, numbers).contains(x),
    decreases nodes.len(),
{
    let init = nodes_layout_issues(design, nodes.drop_last(), numbers);
    let last = node_layout_issues(design, nodes.last().0, nodes.last().1, numbers);
    if i == nodes.len() - 1 {
        lemma_contains_in_concat(init, last, Seq::empty(), x);
        assert(init + last + Seq::<DiagView>::empty() == init + last);
    } else {
        assert(nodes.drop_last()[i] == nodes[i]);
        lemma_node_issue_in_design(design, nodes.drop_last(), numbers, i, x);
        let k = choose|k: int| 0 <= k < init.len() && init[k] == x;
        assert((init + last)[k] == x);
    }
}

/// The design-wide layout check reports a node whose base width reads above
/// its maximum (with both width bounds authored) with the "exceeds its
/// maximum constraint" diagnostic for that node.
pub proof fn lemma_design_reports_width_above_maximum(design: &StudioDesign, numbers: Map<Seq<char>, i64>, i: int)
    requires
        0 <= i < design.nodes.entry_seq().len(),
        design.nodes.entry_seq()[i].1.layout.min_width is Some,
        reads_above(design.nodes.entry_seq()[i].1.layout.width, design.nodes.entry_seq()[i].1.layout.max_width, numbers),
    ensures
        nodes_layout_issues(design, design.nodes.entry_seq(), numbers).contains(error_view(
            "DESIGN_LAYOUT_CONSTRAINT_INVALID"@,
            "width exceeds its maximum constraint"@,
            Some(design.nodes.entry_seq()[i].0),
        )),
{
    let e = design.nodes.entry_seq()[i];
    let x = error_view("DESIGN_LAYOUT_CONSTRAINT_INVALID"@, "width exceeds its maximum constraint"@, Some(e.0));
    lemma_size_outside_bounds_reported(design, e.0, kind_of(e.1), e.1.layout, numbers);
    let base = layout_issues(design, e.0, kind_of(e.1), e.1.layout, numbers);
    let rest = override_layout_issues(design, e.0, kind_of(e.1), e.1.responsive_overrides.entry_seq(), numbers);
    lemma_contains_in_concat(Seq::empty(), base, rest, x);
    assert(Seq::<DiagView>::empty() + base + rest == base + rest);
    lemma_node_issue_in_design(design, design.nodes.entry_seq(), numbers, i, x);
}

/// `(a + b) + c` is `a + (b + c)`.
proof fn lemma_append_assoc(a: Seq<DiagView>, b: Seq<DiagView>, c: Seq<DiagView>)
    ensures
        (a + b) + c == a + (b + c),
{
    assert((a + b) + c =~= a + (b + c));
}

/// The node diagnostic when `cond` holds.
pub open spec fn when(cond: bool, code: Seq<char>, message: Seq<char>, node_id: NodeId) -> Seq<DiagView> {
    if cond {
        at_node(code, message, node_id)
    } else {
        Seq::empty()
    }
}

fn push_if(ds: &mut Vec<DesignerDiagnostic>, cond: bool, code: &str, message: &str, node_id: &NodeId)
    ensures
        views(final(ds)@) == views(old(ds)@) + when(cond, code@, message@, *node_id),
{
    if cond {
        push_diagnostic(ds, node_diagnostic(code, message, node_id));
    } else {
        assert(views(ds@) =~= views(old(ds)@) + Seq::<DiagView>::empty());
    }
}

fn check_size(
    ds: &mut Vec<DesignerDiagnostic>,
    value: &Option<Length>,
    allow_auto: bool,
    message: &str,
    node_id: &NodeId,
    numbers: &OrderedMap<String, i64>,
)
    ensures
        views(final(ds)@) == views(old(ds)@) + size_issue(*value, allow_auto, message@, *node_id, numbers@),
{
    match value {
        Some(l) => {
            if !valid_length(l, allow_auto, true, numbers) {
                push_diagnostic(ds, node_diagnostic("DESIGN_LAYOUT_LENGTH_INVALID", message, node_id));
            } else {
                assert(views(ds@) =~= views(old(ds)@) + Seq::<DiagView>::empty());
            }
        },
        None => {
            assert(views(ds@) =~= views(old(ds)@) + Seq::<DiagView>::empty());
        },
    }
}

fn edge_is_bad(edge: &Option<Length>, numbers: &OrderedMap<String, i64>) -> (r: bool)
    ensures
        r == edge_bad(*edge, numbers@),
{
    match edge {
        Some(l) => !valid_length(l, false, false, numbers),
        None => false,
    }
}

fn inverted(minimum: &Option<Length>, maximum: &Option<Length>, numbers: &OrderedMap<String, i64>) -> (r: bool)
    ensures
        r == bounds_inverted(*minimum, *maximum, numbers@),
{
    match (minimum, maximum) {
        (Some(a), Some(b)) => {
            if a.unit == b.unit && valid_length(a, false, true, numbers) && valid_length(b, false, true, numbers) {
                match (number_in(numbers, a), number_in(numbers, b)) {
                    (Some(x), Some(y)) => x > y,
                    _ => false,
                }
            } else {
                false
            }
        },
        _ => false,
    }
}

fn below(a: &Length, b: &Length, numbers: &OrderedMap<String, i64>) -> (r: bool)
    ensures
        r == reads_below(*a, *b, numbers@),
{
    if a.unit != b.unit {
        return false;
    }
    match (number_in(numbers, a), number_in(numbers, b)) {
        (Some(x), Some(y)) => x < y,
        _ => false,
    }
}

fn check_axis(
    ds: &mut Vec<DesignerDiagnostic>,
    size: &Option<Length>,
    minimum: &Option<Length>,
    maximum: &Option<Length>,
    below_message: &str,
    above_message: &str,
    node_id: &NodeId,
    numbers: &OrderedMap<String, i64>,
)
    ensures
        views(final(ds)@) == views(old(ds)@) + axis_issues(
            *size,
            *minimum,
            *maximum,
            below_message@,
            above_message@,
            *node_id,
            numbers@,
        ),
{
    match (size, minimum, maximum) {
        (Some(s), Some(lo), Some(hi)) => {
            if below(s, lo, numbers) {
                push_diagnostic(ds, node_diagnostic("DESIGN_LAYOUT_CONSTRAINT_INVALID", below_message, node_id));
            }
            if below(hi, s, numbers) {
                push_diagnostic(ds, node_diagnostic("DESIGN_LAYOUT_CONSTRAINT_INVALID", above_message, node_id));
            }
            assert(views(ds@) =~= views(old(ds)@) + axis_issues(
                *size,
                *minimum,
                *maximum,
                below_message@,
                above_message@,
                *node_id,
                numbers@,
            ));
        },
        _ => {
            assert(views(ds@) =~= views(old(ds)@) + Seq::<DiagView>::empty());
        },
    }
}

fn check_sizes(ds: &mut Vec<DesignerDiagnostic>, layout: &LayoutProperties, node_id: &NodeId, numbers: &OrderedMap<String, i64>)
    ensures
        views(final(ds)@) == views(old(ds)@) + size_issues(*layout, *node_id, numbers@),
{
    check_size(ds, &layout.width, true, "width must be a finite, non-negative length with a supported unit", node_id, numbers);
    check_size(ds, &layout.height, true, "height must be a finite, non-negative length with a supported unit", node_id, numbers);
    check_size(ds, &layout.min_width, false, "min_width must be a finite, non-negative length with a supported unit", node_id, numbers);
    check_size(ds, &layout.max_width, false, "max_width must be a finite, non-negative length with a supported unit", node_id, numbers);
    check_size(ds, &layout.min_height, false, "min_height must be a finite, non-negative length with a supported unit", node_id, numbers);
    check_size(ds, &layout.max_height, false, "max_height must be a finite, non-negative length with a supported unit", node_id, numbers);
    check_size(ds, &layout.gap, false, "gap must be a finite, non-negative length with a supported unit", node_id, numbers);
    check_size(ds, &layout.row_gap, false, "row_gap must be a finite, non-negative length with a supported unit", node_id, numbers);
    check_size(ds, &layout.column_gap, false, "column_gap must be a finite, non-negative length with a supported unit", node_id, numbers);
    check_size(ds, &layout.padding, false, "padding must be a finite, non-negative length with a supported unit", node_id, numbers);
    assert(views(final(ds)@) =~= views(old(ds)@) + size_issues(*layout, *node_id, numbers@));
}

fn check_constraints(ds: &mut Vec<DesignerDiagnostic>, layout: &LayoutProperties, node_id: &NodeId, numbers: &OrderedMap<String, i64>)
    ensures
        views(final(ds)@) == views(old(ds)@) + constraint_issues(*layout, *node_id, numbers@),
{
    let ghost o = views(ds@);
    let c1 = inverted(&layout.min_width, &layout.max_width, numbers);
    push_if(ds, c1, "DESIGN_LAYOUT_CONSTRAINT_INVALID", "minimum width must not exceed maximum width", node_id);
    let ghost p1 = when(c1, "DESIGN_LAYOUT_CONSTRAINT_INVALID"@, "minimum width must not exceed maximum width"@, *node_id);
    let c2 = inverted(&layout.min_height, &layout.max_height, numbers);
    push_if(ds, c2, "DESIGN_LAYOUT_CONSTRAINT_INVALID", "minimum height must not exceed maximum height", node_id);
    let ghost p2 = when(c2, "DESIGN_LAYOUT_CONSTRAINT_INVALID"@, "minimum height must not exceed maximum height"@, *node_id);
    proof {
        lemma_append_assoc(o, p1, p2);
    }
    check_axis(
        ds,
        &layout.width,
        &layout.min_width,
        &layout.max_width,
        "width is below its minimum constraint",
        "width exceeds its maximum constraint",
        node_id,
        numbers,
    );
    let ghost p3 = axis_issues(
        layout.width,
        layout.min_width,
        layout.max_width,
        "width is below its minimum constraint"@,
        "width exceeds its maximum constraint"@,
        *node_id,
        numbers@,
    );
    proof {
        lemma_append_assoc(o, p1 + p2, p3);
    }
    check_axis(
        ds,
        &layout.height,
        &layout.min_height,
        &layout.max_height,
        "height is below its minimum constraint",
        "height exceeds its maximum constraint",
        node_id,
        numbers,
    );
    let ghost p4 = axis_issues(
        layout.height,
        layout.min_height,
        layout.max_height,
        "height is below its minimum constraint"@,
        "height exceeds its maximum constraint"@,
        *node_id,
        numbers@,
    );
    proof {
        lemma_append_assoc(o, p1 + p2 + p3, p4);
    }
}

fn overlay(placement: Option<Placement>) -> (r: bool)
    ensures
        r == is_overlay(placement),
{
    placement == Some(Placement::Overlay) || placement == Some(Placement::Absolute)
}

fn container(kind: Option<NodeKind>) -> (r: bool)
    ensures
        r == is_container(kind),
{
    kind == Some(NodeKind::Box) || kind == Some(NodeKind::Row) || kind == Some(NodeKind::Column) || kind == Some(
        NodeKind::Stack,
    ) || kind == Some(NodeKind::Grid)
}

fn check_structure(
    ds: &mut Vec<DesignerDiagnostic>,
    layout: &LayoutProperties,
    kind: Option<NodeKind>,
    parent: Option<NodeKind>,
    node_id: &NodeId,
)
    ensures
        views(final(ds)@) == views(old(ds)@) + structure_issues(*layout, kind, parent, *node_id),
{
    let ghost o = views(ds@);
    let is_box = container(kind);
    let c1 = (layout.gap.is_some() || layout.row_gap.is_some() || layout.column_gap.is_some()) && !is_box;
    push_if(ds, c1, "DESIGN_LAYOUT_CONTAINER_INVALID", "gaps may only be authored on a layout container", node_id);
    let ghost a1 = when(c1, "DESIGN_LAYOUT_CONTAINER_INVALID"@, "gaps may only be authored on a layout container"@, *node_id);
    let c2 = (layout.row_gap.is_some() || layout.column_gap.is_some()) && kind != Some(NodeKind::Grid);
    push_if(ds, c2, "DESIGN_LAYOUT_GRID_INVALID", "row_gap and column_gap require a Grid container", node_id);
    let ghost a2 = when(c2, "DESIGN_LAYOUT_GRID_INVALID"@, "row_gap and column_gap require a Grid container"@, *node_id);
    proof {
        lemma_append_assoc(o, a1, a2);
    }
    let c3 = match layout.grid_columns {
        Some(c) => !(1 <= c && c <= 64),
        None => false,
    };
    push_if(ds, c3, "DESIGN_LAYOUT_GRID_INVALID", "grid_columns must be between 1 and 64", node_id);
    let ghost a3 = when(c3, "DESIGN_LAYOUT_GRID_INVALID"@, "grid_columns must be between 1 and 64"@, *node_id);
    proof {
        lemma_append_assoc(o, a1 + a2, a3);
    }
    let c4 = layout.grid_columns.is_some() && kind != Some(NodeKind::Grid);
    push_if(ds, c4, "DESIGN_LAYOUT_GRID_INVALID", "grid_columns requires a Grid container", node_id);
    let ghost a4 = when(c4, "DESIGN_LAYOUT_GRID_INVALID"@, "grid_columns requires a Grid container"@, *node_id);
    proof {
        lemma_append_assoc(o, a1 + a2 + a3, a4);
    }
    let c5 = layout.alignment.is_some() && !is_box;
    push_if(ds, c5, "DESIGN_LAYOUT_CONTAINER_INVALID", "alignment may only be authored on a layout container", node_id);
    let ghost a5 = when(
        c5,
        "DESIGN_LAYOUT_CONTAINER_INVALID"@,
        "alignment may only be authored on a layout container"@,
        *node_id,
    );
    proof {
        lemma_append_assoc(o, a1 + a2 + a3 + a4, a5);
    }
    let c6 = layout.alignment == Some(Alignment::SpaceBetween) && kind != Some(NodeKind::Row) && kind != Some(
        NodeKind::Column,
    );
    push_if(
        ds,
        c6,
        "DESIGN_LAYOUT_ALIGNMENT_INVALID",
        "space_between alignment requires a Row or Column container",
        node_id,
    );
    let ghost a6 = when(
        c6,
        "DESIGN_LAYOUT_ALIGNMENT_INVALID"@,
        "space_between alignment requires a Row or Column container"@,
        *node_id,
    );
    proof {
        lemma_append_assoc(o, a1 + a2 + a3 + a4 + a5, a6);
    }
    let c7 = overlay(layout.placement) && parent != Some(NodeKind::Stack);
    push_if(
        ds,
        c7,
        "DESIGN_LAYOUT_OVERLAY_PARENT_INVALID",
        "overlay and absolute placement require a Stack parent",
        node_id,
    );
    let ghost a7 = when(
        c7,
        "DESIGN_LAYOUT_OVERLAY_PARENT_INVALID"@,
        "overlay and absolute placement require a Stack parent"@,
        *node_id,
    );
    proof {
        lemma_append_assoc(o, a1 + a2 + a3 + a4 + a5 + a6, a7);
    }
    let c8 = layout.position.is_some() && !overlay(layout.placement);
    push_if(ds, c8, "DESIGN_LAYOUT_POSITION_INVALID", "position edges require overlay or absolute placement", node_id);
    let ghost a8 = when(
        c8,
        "DESIGN_LAYOUT_POSITION_INVALID"@,
        "position edges require overlay or absolute placement"@,
        *node_id,
    );
    proof {
        lemma_append_assoc(o, a1 + a2 + a3 + a4 + a5 + a6 + a7, a8);
    }
}

/// Validate one layout authored on a node of the given kind.
pub fn validate_layout_for_node(
    design: &StudioDesign,
    node_id: &NodeId,
    kind: Option<NodeKind>,
    layout: &LayoutProperties,
    numbers: &OrderedMap<String, i64>,
) -> (r: Vec<DesignerDiagnostic>)
    ensures
        views(r@) == layout_issues(design, *node_id, kind, *layout, numbers@),
{
    let mut ds: Vec<DesignerDiagnostic> = Vec::new();
    if layout.schema_version != STUDIO_DESIGN_SCHEMA_VERSION {
        push_diagnostic(
            &mut ds,
            node_diagnostic("DESIGN_LAYOUT_SCHEMA_INVALID", "the layout schema version is unsupported", node_id),
        );
    }
    match &layout.position {
        Some(p) => {
            if p.schema_version != STUDIO_DESIGN_SCHEMA_VERSION {
                push_diagnostic(
                    &mut ds,
                    node_diagnostic(
                        "DESIGN_LAYOUT_POSITION_SCHEMA_INVALID",
                        "the positioned layout schema version is unsupported",
                        node_id,
                    ),
                );
            }
        },
        None => {},
    }
    let ghost head = views(ds@);
    check_sizes(&mut ds, layout, node_id, numbers);
    let ghost with_sizes = views(ds@);
    match &layout.position {
        Some(p) => {
            if edge_is_bad(&p.top, numbers) || edge_is_bad(&p.right, numbers) || edge_is_bad(&p.bottom, numbers)
                || edge_is_bad(&p.left, numbers) {
                push_diagnostic(
                    &mut ds,
                    node_diagnostic(
                        "DESIGN_LAYOUT_POSITION_INVALID",
                        "overlay edges must be finite lengths with a supported unit",
                        node_id,
                    ),
                );
            }
        },
        None => {},
    }
    assert(views(ds@) =~= with_sizes + edge_issues(*layout, *node_id, numbers@));
    check_constraints(&mut ds, layout, node_id, numbers);
    let parent = parent_kind(design, node_id);
    check_structure(&mut ds, layout, kind, parent, node_id);
    assert(views(ds@) =~= layout_issues(design, *node_id, kind, *layout, numbers@));
    ds
}

/// The layout diagnostics of a node's overrides for known device profiles.
pub open spec fn override_layout_issues(
    design: &StudioDesign,
    node_id: NodeId,
    kind: Option<NodeKind>,
    overrides: Seq<(crate::ids::ResponsiveVariantId, ResponsiveNodeOverride)>,
    numbers: Map<Seq<char>, i64>,
) -> Seq<DiagView>
    decreases overrides.len(),
{
    if overrides.len() == 0 {
        Seq::empty()
    } else {
        let last = overrides.last();
        override_layout_issues(design, node_id, kind, overrides.drop_last(), numbers) + if design.responsive_variants@.contains_key(
            last.0@,
        ) {
            layout_issues(design, node_id, kind, last.1.layout, numbers)
        } else {
            Seq::empty()
        }
    }
}

/// The layout diagnostics of one node: its base layout, then each override
/// whose device profile exists, in profile order.
pub open spec fn node_layout_issues(design: &StudioDesign, node_id: NodeId, node: DesignNode, numbers: Map<Seq<char>, i64>) -> Seq<DiagView> {
    layout_issues(design, node_id, kind_of(node), node.layout, numbers) + override_layout_issues(
        design,
        node_id,
        kind_of(node),
        node.responsive_overrides.entry_seq(),
        numbers,
    )
}

/// The layout diagnostics of a sequence of nodes, in order.
pub open spec fn nodes_layout_issues(design: &StudioDesign, nodes: Seq<(NodeId, DesignNode)>, numbers: Map<Seq<char>, i64>) -> Seq<DiagView>
    decreases nodes.len(),
{
    if nodes.len() == 0 {
        Seq::empty()
    } else {
        nodes_layout_issues(design, nodes.drop_last(), numbers) + node_layout_issues(
            design,
            nodes.last().0,
            nodes.last().1,
            numbers,
        )
    }
}

fn override_layouts(
    design: &StudioDesign,
    node_id: &NodeId,
    kind: Option<NodeKind>,
    node: &DesignNode,
    numbers: &OrderedMap<String, i64>,
) -> (r: Vec<DesignerDiagnostic>)
    ensures
        views(r@) == override_layout_issues(design, *node_id, kind, node.responsive_overrides.entry_seq(), numbers@),
{
    let ghost oentries = node.responsive_overrides.entry_seq();
    let mut ds: Vec<DesignerDiagnostic> = Vec::new();
    let m = node.responsive_overrides.len();
    let mut j: usize = 0;
    assert(oentries.take(0) =~= Seq::<(crate::ids::ResponsiveVariantId, ResponsiveNodeOverride)>::empty());
    while j < m
        invariant
            m == oentries.len(),
            oentries == node.responsive_overrides.entry_seq(),
            j <= m,
            views(ds@) == override_layout_issues(design, *node_id, kind, oentries.take(j as int), numbers@),
        decreases m - j,
    {
        let variant_id = node.responsive_overrides.key_at(j);
        let o = node.responsive_overrides.value_at(j);
        if design.responsive_variants.contains_key(variant_id.as_str()) {
            let more = validate_layout_for_node(design, node_id, kind, &o.layout, numbers);
            crate::content::append_all(&mut ds, more);
        } else {
            assert(views(ds@) =~= views(ds@) + Seq::<DiagView>::empty());
        }
        assert(oentries.take(j + 1).drop_last() =~= oentries.take(j as int));
        assert(oentries.take(j + 1).last() == oentries[j as int]);
        j = j + 1;
    }
    assert(oentries.take(m as int) =~= oentries);
    ds
}

/// Validate layout, sizing, constraints and overlay placement of every node,
/// in node identity order, each node's base layout before its overrides.
pub fn validate_layout(design: &StudioDesign, numbers: &OrderedMap<String, i64>) -> (r: Vec<DesignerDiagnostic>)
    ensures
        views(r@) == nodes_layout_issues(design, design.nodes.entry_seq(), numbers@),
{
    let ghost entries = design.nodes.entry_seq();
    let mut ds: Vec<DesignerDiagnostic> = Vec::new();
    let n = design.nodes.len();
    let mut i: usize = 0;
    assert(entries.take(0) =~= Seq::<(NodeId, DesignNode)>::empty());
    while i < n
        invariant
            n == entries.len(),
            entries == design.nodes.entry_seq(),
            i <= n,
            views(ds@) == nodes_layout_issues(design, entries.take(i as int), numbers@),
        decreases n - i,
    {
        let node_id = design.nodes.key_at(i);
        let node = design.nodes.value_at(i);
        let kind = crate::engine::node_kind(node);
        let ghost before = views(ds@);
        let base = validate_layout_for_node(design, node_id, kind, &node.layout, numbers);
        let ghost b = views(base@);
        crate::content::append_all(&mut ds, base);
        let rest = override_layouts(design, node_id, kind, node, numbers);
        let ghost c = views(rest@);
        crate::content::append_all(&mut ds, rest);
        proof {
            lemma_append_assoc(before, b, c);
            assert(entries.take(i + 1).drop_last() =~= entries.take(i as int));
            assert(entries.take(i + 1).last() == entries[i as int]);
        }
        i = i + 1;
    }
    assert(entries.take(n as int) =~= entries);
    ds
}

/// The texts of a sequence of strings.
pub open spec fn texts(v: Seq<String>) -> Seq<Seq<char>> {
    v.map_values(|t: String| t@)
}

/// The text of an optional length, as a sequence of zero or one texts.
pub open spec fn opt_text(l: Option<Length>) -> Seq<Seq<char>> {
    match l {
        Some(x) => seq![x.value@],
        None => Seq::empty(),
    }
}

/// The texts of the overlay edges of an optional position.
pub open spec fn edge_texts(position: Option<crate::model::LayoutPosition>) -> Seq<Seq<char>> {
    match position {
        Some(p) => Seq::<Seq<char>>::empty() + opt_text(p.top) + opt_text(p.right) + opt_text(p.bottom) + opt_text(
            p.left,
        ),
        None => Seq::empty(),
    }
}

/// The texts of every length authored in one layout, in field order.
pub open spec fn layout_texts(l: LayoutProperties) -> Seq<Seq<char>> {
    Seq::<Seq<char>>::empty() + opt_text(l.width) + opt_text(l.height) + opt_text(l.min_width) + opt_text(
        l.max_width,
    ) + opt_text(l.min_height) + opt_text(l.max_height) + opt_text(l.gap) + opt_text(l.row_gap) + opt_text(
        l.column_gap,
    ) + opt_text(l.padding) + edge_texts(l.position)
}

/// The length texts of a node's overrides, in profile order.
pub open spec fn override_texts(s: Seq<(crate::ids::ResponsiveVariantId, ResponsiveNodeOverride)>) -> Seq<Seq<char>>
    decreases s.len(),
{
    if s.len() == 0 {
        Seq::empty()
    } else {
        override_texts(s.drop_last()) + layout_texts(s.last().1.layout)
    }
}

/// The length texts of a sequence of nodes: each node's base layout, then
/// its overrides.
pub open spec fn nodes_texts(s: Seq<(NodeId, DesignNode)>) -> Seq<Seq<char>>
    decreases s.len(),
{
    if s.len() == 0 {
        Seq::empty()
    } else {
        nodes_texts(s.drop_last()) + layout_texts(s.last().1.layout) + override_texts(
            s.last().1.responsive_overrides.entry_seq(),
        )
    }
}

fn push_text(out: &mut Vec<String>, l: &Option<Length>)
    ensures
        texts(final(out)@) == texts(old(out)@) + opt_text(*l),
{
    match l {
        Some(x) => {
            out.push(x.value.clone());
            assert(texts(out@) =~= texts(old(out)@) + opt_text(*l));
        },
        None => {
            assert(texts(out@) =~= texts(old(out)@) + opt_text(*l));
        },
    }
}

fn append_texts(out: &mut Vec<String>, more: Vec<String>)
    ensures
        texts(final(out)@) == texts(old(out)@) + texts(more@),
{
    let ghost given = more@;
    let mut more = more;
    out.append(&mut more);
    assert(texts(out@) =~= texts(old(out)@) + texts(given));
}

/// The texts of every length authored in one layout, in field order.
pub fn layout_length_texts(l: &LayoutProperties) -> (r: Vec<String>)
    ensures
        texts(r@) == layout_texts(*l),
{
    let mut out: Vec<String> = Vec::new();
    assert(texts(out@) =~= Seq::<Seq<char>>::empty());
    push_text(&mut out, &l.width);
    push_text(&mut out, &l.height);
    push_text(&mut out, &l.min_width);
    push_text(&mut out, &l.max_width);
    push_text(&mut out, &l.min_height);
    push_text(&mut out, &l.max_height);
    push_text(&mut out, &l.gap);
    push_text(&mut out, &l.row_gap);
    push_text(&mut out, &l.column_gap);
    push_text(&mut out, &l.padding);
    let mut edges: Vec<String> = Vec::new();
    match &l.position {
        Some(p) => {
            assert(texts(edges@) =~= Seq::<Seq<char>>::empty());
            push_text(&mut edges, &p.top);
            push_text(&mut edges, &p.right);
            push_text(&mut edges, &p.bottom);
            push_text(&mut edges, &p.left);
        },
        None => {
            assert(texts(edges@) =~= Seq::<Seq<char>>::empty());
        },
    }
    append_texts(&mut out, edges);
    out
}

/// Every length text authored in the design's layouts: each node in identity
/// order, its base layout before its overrides. The numeric reading of these
/// texts is what `validate_layout` takes as its `numbers` argument.
pub fn design_length_texts(design: &StudioDesign) -> (r: Vec<String>)
    ensures
        texts(r@) == nodes_texts(design.nodes.entry_seq()),
{
    let ghost entries = design.nodes.entry_seq();
    let mut out: Vec<String> = Vec::new();
    let n = design.nodes.len();
    let mut i: usize = 0;
    assert(entries.take(0) =~= Seq::<(NodeId, DesignNode)>::empty());
    assert(texts(out@) =~= Seq::<Seq<char>>::empty());
    while i < n
        invariant
            n == entries.len(),
            entries == design.nodes.entry_seq(),
            i <= n,
            texts(out@) == nodes_texts(entries.take(i as int)),
        decreases n - i,
    {
        let node = design.nodes.value_at(i);
        append_texts(&mut out, layout_length_texts(&node.layout));
        let ghost oentries = node.responsive_overrides.entry_seq();
        let ghost before = texts(out@);
        let m = node.responsive_overrides.len();
        let mut j: usize = 0;
        assert(oentries.take(0) =~= Seq::<(crate::ids::ResponsiveVariantId, ResponsiveNodeOverride)>::empty());
        assert(before =~= before + override_texts(oentries.take(0)));
        while j < m
            invariant
                m == oentries.len(),
                oentries == node.responsive_overrides.entry_seq(),
                j <= m,
                texts(out@) == before + override_texts(oentries.take(j as int)),
            decreases m - j,
        {
            let o = node.responsive_overrides.value_at(j);
            let ghost prior = override_texts(oentries.take(j as int));
            let more = layout_length_texts(&o.layout);
            let ghost piece = texts(more@);
            append_texts(&mut out, more);
            proof {
                assert(oentries.take(j + 1).drop_last() =~= oentries.take(j as int));
                assert(oentries.take(j + 1).last() == oentries[j as int]);
                assert((before + prior) + piece =~= before + (prior + piece));
            }
            j = j + 1;
        }
        assert(oentries.take(m as int) =~= oentries);
        assert(entries.take(i + 1).drop_last() =~= entries.take(i as int));
        assert(entries.take(i + 1).last() == entries[i as int]);
        i = i + 1;
    }
    assert(entries.take(n as int) =~= entries);
    out
}

} // verus!
