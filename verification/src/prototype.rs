//! Isolated, deterministic prototype execution of a design's interactions.
//!
//! A [`PrototypeSession`] owns its own copy of the design plus ephemeral
//! navigation, property, visibility and emitted-event state. Dispatch never
//! builds a command batch, so it cannot create or alter a durable revision.
use vstd::prelude::*;
use vstd::string::StringExecFns;

use crate::content::{DiagView, diag_view, views};
use crate::ids::{InteractionId, NodeId, ScreenId};
use crate::model::{
    DesignNode, DesignerDiagnostic, DiagnosticSeverity, InteractionAction, InteractionEvent, NavigationMode,
    PropertyValue, StudioDesign, same_value,
};
use crate::navigation::{InteractionGraph, InteractionInspectorEntry, NavigationGraph};
use crate::ordered_map::{MapKey, OrderedMap};

verus! {

/// The deepest navigation stack a prototype admits.
pub const MAX_PROTOTYPE_STACK_DEPTH: usize = 32;

/// A typed event delivered to a prototype.
#[derive(Clone, Debug, PartialEq, Eq)]
pub struct PrototypeEvent {
    /// Stable node receiving the event.
    pub node_id: NodeId,
    /// Closed event type declared by the interaction model.
    pub event: InteractionEvent,
}

/// A source-linked prototype execution effect.
#[derive(Debug, PartialEq)]
pub enum PrototypeEffect {
    /// A navigation stack operation was applied.
    Navigate { from_screen_id: ScreenId, to_screen_id: ScreenId, mode: NavigationMode },
    /// A local ephemeral property changed.
    SetProperty { node_id: NodeId, property: String, value: PropertyValue },
    /// A local ephemeral visibility value changed.
    ToggleVisibility { node_id: NodeId, visible: bool },
    /// A declared event was emitted into the trace only.
    Emit { event: String },
    /// A sequence dispatched its nested interactions.
    Sequence { interaction_ids: Vec<InteractionId> },
}

/// One trace entry produced by a prototype dispatch.
#[derive(Debug, PartialEq)]
pub struct PrototypeTraceEntry {
    /// Position within the session trace.
    pub index: usize,
    /// Interaction that produced the effect.
    pub interaction_id: InteractionId,
    /// Source node of that interaction.
    pub source_node_id: NodeId,
    /// Typed trigger of that interaction.
    pub event: InteractionEvent,
    /// Effect applied to ephemeral state.
    pub effect: PrototypeEffect,
}

/// A view of all ephemeral prototype state.
#[derive(Debug, PartialEq)]
pub struct PrototypeStateSnapshot {
    /// Screen stack from root to active screen.
    pub screen_stack: Vec<ScreenId>,
    /// The active screen, if one exists.
    pub active_screen_id: Option<ScreenId>,
    /// Ephemeral property overrides keyed by node and property.
    pub properties: OrderedMap<NodeId, OrderedMap<String, PropertyValue>>,
    /// Ephemeral visibility values keyed by node.
    pub visibility: OrderedMap<NodeId, bool>,
    /// Events emitted by the prototype so far.
    pub emitted_events: Vec<String>,
}

/// The result of one event dispatch.
#[derive(Debug, PartialEq)]
pub struct PrototypeDispatch {
    /// Event that was delivered.
    pub event: PrototypeEvent,
    /// Interactions reached, in execution order.
    pub interaction_ids: Vec<InteractionId>,
    /// Effects produced by this dispatch, in completion order.
    pub trace: Vec<PrototypeTraceEntry>,
    /// State after this dispatch.
    pub state: PrototypeStateSnapshot,
    /// Non-fatal execution diagnostics.
    pub diagnostics: Vec<DesignerDiagnostic>,
}

/// Construction failures for a prototype session.
#[derive(Debug, PartialEq)]
pub enum PrototypeError {
    /// The design contains invalid routes or interaction references.
    InvalidDesign(Vec<DesignerDiagnostic>),
    /// The requested start screen is not declared by the design.
    StartScreenMissing(ScreenId),
    /// A prototype cannot start without a screen.
    NoScreens,
}

/// Equality of effects up to copies of their values and identity lists.
pub open spec fn effect_like(a: PrototypeEffect, b: PrototypeEffect) -> bool {
    match (a, b) {
        (
            PrototypeEffect::SetProperty { node_id: n1, property: p1, value: v1 },
            PrototypeEffect::SetProperty { node_id: n2, property: p2, value: v2 },
        ) => n1 == n2 && p1 == p2 && same_value(v1, v2),
        (PrototypeEffect::Sequence { interaction_ids: i1 }, PrototypeEffect::Sequence { interaction_ids: i2 }) => i1@
            == i2@,
        _ => a == b,
    }
}

/// Equality of trace entries up to copies of their effects.
pub open spec fn entry_like(a: PrototypeTraceEntry, b: PrototypeTraceEntry) -> bool {
    &&& a.index == b.index
    &&& a.interaction_id == b.interaction_id
    &&& a.source_node_id == b.source_node_id
    &&& a.event == b.event
    &&& effect_like(a.effect, b.effect)
}

/// Equality of traces up to copies of their effects.
pub open spec fn trace_like(a: Seq<PrototypeTraceEntry>, b: Seq<PrototypeTraceEntry>) -> bool {
    a.len() == b.len() && forall|i: int| 0 <= i < a.len() ==> entry_like(#[trigger] a[i], b[i])
}

/// Equality of property maps up to copies of their values.
pub open spec fn values_like(a: Map<Seq<char>, PropertyValue>, b: Map<Seq<char>, PropertyValue>) -> bool {
    a.dom() == b.dom() && forall|k: Seq<char>| #[trigger] a.contains_key(k) ==> same_value(a[k], b[k])
}

/// Equality of per-node property maps up to copies of their values.
pub open spec fn props_like(
    a: Map<Seq<char>, Map<Seq<char>, PropertyValue>>,
    b: Map<Seq<char>, Map<Seq<char>, PropertyValue>>,
) -> bool {
    a.dom() == b.dom() && forall|k: Seq<char>| #[trigger] a.contains_key(k) ==> values_like(a[k], b[k])
}

/// The values of a per-node property map.
pub open spec fn props_of(m: OrderedMap<NodeId, OrderedMap<String, PropertyValue>>) -> Map<Seq<char>, Map<Seq<char>, PropertyValue>> {
    m@.map_values(|inner: OrderedMap<String, PropertyValue>| inner@)
}

/// The text of a list of strings.
pub open spec fn texts(s: Seq<String>) -> Seq<Seq<char>> {
    s.map_values(|x: String| x@)
}

/// What a prototype run reads: the interaction entries by identity, the
/// design's nodes, the declared screens, and the length of the session
/// trace before the dispatch.
pub type ProtoCtx = (Map<Seq<char>, InteractionInspectorEntry>, Map<Seq<char>, DesignNode>, Set<Seq<char>>, nat);

/// What a prototype run writes: the screen stack, ephemeral properties,
/// ephemeral visibility, emitted events, the interactions reached, the trace
/// of this dispatch, and its diagnostics.
pub type ProtoAcc = (
    Seq<ScreenId>,
    Map<Seq<char>, Map<Seq<char>, PropertyValue>>,
    Map<Seq<char>, bool>,
    Seq<Seq<char>>,
    Seq<InteractionId>,
    Seq<PrototypeTraceEntry>,
    Seq<DiagView>,
);

/// Equality of run states up to copies of values.
pub open spec fn acc_like(a: ProtoAcc, b: ProtoAcc) -> bool {
    &&& a.0 == b.0
    &&& props_like(a.1, b.1)
    &&& a.2 == b.2
    &&& a.3 == b.3
    &&& a.4 == b.4
    &&& trace_like(a.5, b.5)
    &&& a.6 == b.6
}

/// A prototype diagnostic's view.
pub open spec fn proto_view(code: Seq<char>, message: Seq<char>, interaction_id: Option<InteractionId>, node_id: Option<NodeId>) -> DiagView {
    (code, DiagnosticSeverity::Error, message, node_id, interaction_id, None, None, None, None)
}

fn prototype_diagnostic(code: &str, message: String, interaction_id: Option<InteractionId>, node_id: Option<NodeId>) -> (r: DesignerDiagnostic)
    ensures
        diag_view(r) == proto_view(code@, message@, interaction_id, node_id),
{
    DesignerDiagnostic {
        code: String::from_str(code),
        severity: DiagnosticSeverity::Error,
        message,
        node_id,
        interaction_id,
        collection_id: None,
        binding_id: None,
        form_id: None,
        record_id: None,
    }
}

fn copy_diagnostics(ds: &[DesignerDiagnostic]) -> (r: Vec<DesignerDiagnostic>)
    ensures
        r@ == ds@,
{
    let mut out: Vec<DesignerDiagnostic> = Vec::new();
    let mut i: usize = 0;
    while i < ds.len()
        invariant
            i <= ds@.len(),
            out@ == ds@.take(i as int),
        decreases ds@.len() - i,
    {
        out.push(ds[i].copy());
        assert(out@ =~= ds@.take(i + 1));
        i = i + 1;
    }
    assert(ds@.take(ds@.len() as int) == ds@);
    out
}

fn framed(prefix: &str, name: &str, suffix: &str) -> (r: String)
    ensures
        r@ == prefix@ + name@ + suffix@,
{
    let mut m = String::from_str(prefix);
    m.append(name);
    m.append(suffix);
    m
}

/// The last position of a screen in a stack.
pub open spec fn last_position(stack: Seq<ScreenId>, target: Seq<char>) -> Option<int>
    decreases stack.len(),
{
    if stack.len() == 0 {
        None
    } else if stack.last()@ == target {
        Some(stack.len() - 1)
    } else {
        last_position(stack.drop_last(), target)
    }
}

/// The stack after one navigation, or the code and message of its failure.
pub open spec fn navigation_outcome(
    screens: Set<Seq<char>>,
    stack: Seq<ScreenId>,
    target: ScreenId,
    mode: NavigationMode,
) -> Result<Seq<ScreenId>, (Seq<char>, Seq<char>)> {
    if !screens.contains(target@) {
        Err((
            "PROTOTYPE_NAVIGATION_TARGET_MISSING"@,
            "prototype navigation target "@ + target@ + " is missing"@,
        ))
    } else {
        match mode {
            NavigationMode::Push => if stack.len() >= MAX_PROTOTYPE_STACK_DEPTH {
                Err(("PROTOTYPE_STACK_OVERFLOW"@, "prototype navigation stack depth exceeded"@))
            } else {
                Ok(stack.push(target))
            },
            NavigationMode::Replace => Ok(stack.update(stack.len() - 1, target)),
            NavigationMode::Reset => Ok(seq![target]),
            NavigationMode::PopTo => match last_position(stack, target@) {
                Some(j) => Ok(stack.take(j + 1)),
                None => Err((
                    "PROTOTYPE_NAVIGATION_TARGET_NOT_IN_STACK"@,
                    "prototype pop-to target "@ + target@ + " is not in the stack"@,
                )),
            },
        }
    }
}

/// Isolated interaction runner that never alters its design.
#[derive(Debug)]
pub struct PrototypeSession {
    design: StudioDesign,
    navigation: NavigationGraph,
    interactions: InteractionGraph,
    screen_stack: Vec<ScreenId>,
    properties: OrderedMap<NodeId, OrderedMap<String, PropertyValue>>,
    visibility: OrderedMap<NodeId, bool>,
    emitted_events: Vec<String>,
    trace: Vec<PrototypeTraceEntry>,
}

impl PrototypeSession {
    /// The design this prototype runs.
    pub closed spec fn design_view(&self) -> StudioDesign {
        self.design
    }

    /// The interaction entries by identity.
    pub closed spec fn entry_map(&self) -> Map<Seq<char>, InteractionInspectorEntry> {
        self.interactions.entry_view()
    }

    /// The declared screens.
    pub closed spec fn screen_set(&self) -> Set<Seq<char>> {
        self.navigation.screen_view().dom()
    }

    /// The navigation stack from root to active screen.
    pub closed spec fn stack_view(&self) -> Seq<ScreenId> {
        self.screen_stack@
    }

    /// The ephemeral property values by node and property.
    pub closed spec fn props_view(&self) -> Map<Seq<char>, Map<Seq<char>, PropertyValue>> {
        props_of(self.properties)
    }

    /// The ephemeral visibility values by node.
    pub closed spec fn vis_view(&self) -> Map<Seq<char>, bool> {
        self.visibility@
    }

    /// The events emitted so far.
    pub closed spec fn emitted_view(&self) -> Seq<Seq<char>> {
        texts(self.emitted_events@)
    }

    /// The session trace.
    pub closed spec fn trace_view(&self) -> Seq<PrototypeTraceEntry> {
        self.trace@
    }

    /// What a run of this session reads.
    pub open spec fn ctx(&self) -> ProtoCtx {
        (self.entry_map(), self.design_view().nodes@, self.screen_set(), self.trace_view().len())
    }

    #[verifier::type_invariant]
    closed spec fn inv(&self) -> bool {
        &&& 1 <= self.screen_stack@.len() <= MAX_PROTOTYPE_STACK_DEPTH
        &&& forall|i: int| 0 <= i < self.screen_stack@.len() ==> self.navigation.screen_view().contains_key(
            #[trigger] self.screen_stack@[i]@,
        )
        &&& self.interactions.entry_view().dom() == self.design.interactions@.dom()
    }

    /// Build a prototype rooted at the first screen of the design's order.
    pub fn new(design: StudioDesign) -> (r: Result<Self, PrototypeError>)
        ensures
            design.screen_order@.len() == 0 ==> r == Err::<Self, PrototypeError>(PrototypeError::NoScreens),
            design.screen_order@.len() > 0 ==> match r {
                Ok(s) => s.design_view() == design && s.stack_view() == seq![design.screen_order@[0]],
                Err(e) => e !is NoScreens,
            },
    {
        if design.screen_order.len() == 0 {
            return Err(PrototypeError::NoScreens);
        }
        let start = design.screen_order[0].copy();
        Self::new_at(design, start)
    }

    /// Build a prototype rooted at a chosen screen: refused when the
    /// design's routes or interaction references are invalid, or when the
    /// screen is not declared.
    pub fn new_at(design: StudioDesign, start_screen_id: ScreenId) -> (r: Result<Self, PrototypeError>)
        ensures
            match r {
                Ok(s) => {
                    &&& s.design_view() == design
                    &&& s.stack_view() == seq![start_screen_id]
                    &&& s.screen_set() == design.screens@.dom()
                    &&& s.entry_map().dom() == design.interactions@.dom()
                    &&& s.props_view() == Map::<Seq<char>, Map<Seq<char>, PropertyValue>>::empty()
                    &&& s.vis_view() == Map::<Seq<char>, bool>::empty()
                    &&& s.emitted_view().len() == 0
                    &&& s.trace_view().len() == 0
                },
                Err(PrototypeError::StartScreenMissing(id)) => id == start_screen_id
                    && !design.screens@.contains_key(start_screen_id@),
                Err(PrototypeError::InvalidDesign(ds)) => ds@.len() > 0,
                Err(PrototypeError::NoScreens) => false,
            },
    {
        let navigation = NavigationGraph::from_design(&design);
        if !navigation.is_valid() {
            return Err(PrototypeError::InvalidDesign(copy_diagnostics(navigation.diagnostics())));
        }
        let interactions = InteractionGraph::from_design(&design);
        if !interactions.is_valid() {
            return Err(PrototypeError::InvalidDesign(copy_diagnostics(interactions.diagnostics())));
        }
        if !navigation.screens().contains_key(start_screen_id.as_str()) {
            return Err(PrototypeError::StartScreenMissing(start_screen_id));
        }
        let mut screen_stack: Vec<ScreenId> = Vec::new();
        screen_stack.push(start_screen_id);
        let s = PrototypeSession {
            design,
            navigation,
            interactions,
            screen_stack,
            properties: OrderedMap::new(),
            visibility: OrderedMap::new(),
            emitted_events: Vec::new(),
            trace: Vec::new(),
        };
        assert(s.props_view() =~= Map::<Seq<char>, Map<Seq<char>, PropertyValue>>::empty());
        Ok(s)
    }
}

/// The identities of a list of identities.
pub open spec fn idents<T>(s: Seq<crate::ids::Id<T>>) -> Seq<Seq<char>> {
    s.map_values(|x: crate::ids::Id<T>| x@)
}

/// The visibility of a node: its ephemeral value, else the inverse of its
/// authored hidden flag, else visible.
pub open spec fn current_visible(nodes: Map<Seq<char>, DesignNode>, vis: Map<Seq<char>, bool>, node: Seq<char>) -> bool {
    if vis.contains_key(node) {
        vis[node]
    } else if nodes.contains_key(node) {
        !nodes[node].accessibility.hidden
    } else {
        true
    }
}

/// A run state with one more diagnostic.
pub open spec fn with_diag(a: ProtoAcc, d: DiagView) -> ProtoAcc {
    (a.0, a.1, a.2, a.3, a.4, a.5, a.6.push(d))
}

/// The session-trace position of the next trace entry, saturating at the
/// largest `usize`.
pub open spec fn trace_index(ctx: ProtoCtx, a: ProtoAcc) -> usize {
    if ctx.3 + a.5.len() <= usize::MAX {
        (ctx.3 + a.5.len()) as usize
    } else {
        usize::MAX
    }
}

/// A run state with one more trace entry for interaction `id`.
pub open spec fn traced(ctx: ProtoCtx, a: ProtoAcc, id: InteractionId, e: InteractionInspectorEntry, effect: PrototypeEffect) -> ProtoAcc {
    (
        a.0,
        a.1,
        a.2,
        a.3,
        a.4,
        a.5.push(
            PrototypeTraceEntry {
                index: trace_index(ctx, a),
                interaction_id: id,
                source_node_id: e.source_node_id,
                event: e.event,
                effect,
            },
        ),
        a.6,
    )
}

/// The ephemeral properties of one node in a run state.
pub open spec fn node_props(a: ProtoAcc, node: Seq<char>) -> Map<Seq<char>, PropertyValue> {
    if a.1.contains_key(node) {
        a.1[node]
    } else {
        Map::empty()
    }
}

/// The diagnostic of an effect whose target node is missing.
pub open spec fn target_missing(prefix: Seq<char>, node: NodeId, id: InteractionId, e: InteractionInspectorEntry) -> DiagView {
    proto_view(
        "PROTOTYPE_TARGET_MISSING"@,
        prefix + node@ + " is missing"@,
        Some(id),
        Some(e.source_node_id),
    )
}

/// One non-sequence interaction applied to a run state.
pub open spec fn step(ctx: ProtoCtx, a: ProtoAcc, id: InteractionId, e: InteractionInspectorEntry) -> ProtoAcc {
    match e.action {
        InteractionAction::Navigate { screen_id, mode } => match navigation_outcome(ctx.2, a.0, screen_id, mode) {
            Ok(stack) => traced(
                ctx,
                (stack, a.1, a.2, a.3, a.4, a.5, a.6),
                id,
                e,
                PrototypeEffect::Navigate { from_screen_id: a.0.last(), to_screen_id: screen_id, mode },
            ),
            Err(f) => with_diag(a, proto_view(f.0, f.1, Some(id), Some(e.source_node_id))),
        },
        InteractionAction::SetProperty { node_id, property, value } => if !ctx.1.contains_key(node_id@) {
            with_diag(a, target_missing("prototype property target "@, node_id, id, e))
        } else {
            traced(
                ctx,
                (a.0, a.1.insert(node_id@, node_props(a, node_id@).insert(property@, value)), a.2, a.3, a.4, a.5, a.6),
                id,
                e,
                PrototypeEffect::SetProperty { node_id, property, value },
            )
        },
        InteractionAction::ToggleVisibility { node_id } => if !ctx.1.contains_key(node_id@) {
            with_diag(a, target_missing("prototype visibility target "@, node_id, id, e))
        } else {
            let visible = !current_visible(ctx.1, a.2, node_id@);
            traced(
                ctx,
                (a.0, a.1, a.2.insert(node_id@, visible), a.3, a.4, a.5, a.6),
                id,
                e,
                PrototypeEffect::ToggleVisibility { node_id, visible },
            )
        },
        InteractionAction::Emit { event } => traced(
            ctx,
            (a.0, a.1, a.2, a.3.push(event@), a.4, a.5, a.6),
            id,
            e,
            PrototypeEffect::Emit { event },
        ),
        InteractionAction::Sequence { .. } => a,
    }
}

/// One interaction executed from run state `a` with the interactions of
/// `call` in progress: a recursive reference is reported and stopped, a
/// missing one is reported, and a sequence runs its nested interactions in
/// order before recording its own effect. `fuel` bounds the nesting.
pub open spec fn run(ctx: ProtoCtx, a: ProtoAcc, id: InteractionId, call: Seq<Seq<char>>, fuel: nat) -> ProtoAcc
    decreases fuel, 0nat, 0nat,
{
    if call.contains(id@) {
        with_diag(
            a,
            proto_view(
                "PROTOTYPE_INTERACTION_CYCLE"@,
                "prototype stopped recursive interaction "@ + id@,
                Some(id),
                if ctx.0.contains_key(id@) {
                    Some(ctx.0[id@].source_node_id)
                } else {
                    None
                },
            ),
        )
    } else if !ctx.0.contains_key(id@) {
        with_diag(
            a,
            proto_view("PROTOTYPE_INTERACTION_MISSING"@, "prototype sequence names missing interaction "@ + id@, Some(id), None),
        )
    } else {
        let e = ctx.0[id@];
        let a1 = (a.0, a.1, a.2, a.3, a.4.push(id), a.5, a.6);
        match e.action {
            InteractionAction::Sequence { interaction_ids } => if fuel == 0 {
                a1
            } else {
                traced(
                    ctx,
                    run_list(ctx, a1, interaction_ids@, call.push(id@), (fuel - 1) as nat),
                    id,
                    e,
                    PrototypeEffect::Sequence { interaction_ids },
                )
            },
            _ => step(ctx, a1, id, e),
        }
    }
}

/// Interactions executed one after another, each from the state the
/// previous one left.
pub open spec fn run_list(ctx: ProtoCtx, a: ProtoAcc, ids: Seq<InteractionId>, call: Seq<Seq<char>>, fuel: nat) -> ProtoAcc
    decreases fuel, 1nat, ids.len(),
{
    if ids.len() == 0 {
        a
    } else {
        run(ctx, run_list(ctx, a, ids.drop_last(), call, fuel), ids.last(), call, fuel)
    }
}

/// Whether a list of in-progress interactions names distinct known entries.
pub open spec fn calls_ok(entries: Map<Seq<char>, InteractionInspectorEntry>, call: Seq<Seq<char>>) -> bool {
    call.no_duplicates() && forall|i: int| 0 <= i < call.len() ==> entries.contains_key(#[trigger] call[i])
}

/// A list of distinct keys that leaves out one more key is shorter than the
/// list of all keys.
pub(crate) proof fn lemma_room(keys: Seq<Seq<char>>, call: Seq<Seq<char>>, x: Seq<char>)
    requires
        call.no_duplicates(),
        forall|i: int| 0 <= i < call.len() ==> keys.contains(#[trigger] call[i]),
        keys.contains(x),
        !call.contains(x),
    ensures
        call.len() < keys.len(),
{
    let c2 = call.push(x);
    assert forall|i: int, j: int| 0 <= i < c2.len() && 0 <= j < c2.len() && i != j implies c2[i] != c2[j] by {
        if i < call.len() && j < call.len() {
        } else if i == call.len() {
            assert(c2[j] == call[j]);
        } else {
            assert(c2[i] == call[i]);
        }
    }
    c2.unique_seq_to_set();
    keys.lemma_cardinality_of_set();
    assert forall|y: Seq<char>| c2.to_set().contains(y) implies keys.to_set().contains(y) by {
        let i = c2.index_of(y);
        if i < call.len() {
            assert(c2[i] == call[i]);
        }
    }
    vstd::set_lib::lemma_len_subset(c2.to_set(), keys.to_set());
}

/// Values are alike with themselves.
pub proof fn lemma_same_value_refl(v: PropertyValue)
    ensures
        same_value(v, v),
{
    match v {
        PropertyValue::List(xs) => {
            assert forall|i: int| 0 <= i < xs@.len() implies #[trigger] crate::model::same_item(xs@[i], xs@[i]) by {
                match xs@[i] {
                    PropertyValue::List(_) => {},
                    PropertyValue::Binding(_) => {},
                    _ => {},
                }
            }
        },
        PropertyValue::Binding(_) => {},
        _ => {},
    }
}

/// Run states are alike with themselves.
pub proof fn lemma_acc_like_refl(a: ProtoAcc)
    ensures
        acc_like(a, a),
{
    assert forall|k: Seq<char>| #[trigger] a.1.contains_key(k) implies values_like(a.1[k], a.1[k]) by {
        assert forall|q: Seq<char>| #[trigger] a.1[k].contains_key(q) implies same_value(a.1[k][q], a.1[k][q]) by {
            lemma_same_value_refl(a.1[k][q]);
        }
    }
    assert forall|i: int| 0 <= i < a.5.len() implies entry_like(#[trigger] a.5[i], a.5[i]) by {
        match a.5[i].effect {
            PrototypeEffect::SetProperty { value, .. } => lemma_same_value_refl(value),
            _ => {},
        }
    }
}

/// What a run writes, read from a session and the dispatch's own lists.
pub open spec fn acc_of(
    s: PrototypeSession,
    ids: Seq<InteractionId>,
    trace: Seq<PrototypeTraceEntry>,
    diags: Seq<DesignerDiagnostic>,
) -> ProtoAcc {
    (s.stack_view(), s.props_view(), s.vis_view(), s.emitted_view(), ids, trace, views(diags))
}

/// Whether two sessions share their design, graphs and session trace.
pub open spec fn same_frame(a: PrototypeSession, b: PrototypeSession) -> bool {
    &&& a.design_view() == b.design_view()
    &&& a.entry_map() == b.entry_map()
    &&& a.screen_set() == b.screen_set()
    &&& a.trace_view() == b.trace_view()
    &&& a.routes() == b.routes()
    &&& a.activation() == b.activation()
}

/// A step of the pending work of one interaction, with its copied payload.
enum Plan {
    Navigate(ScreenId, NavigationMode),
    SetProperty(NodeId, String, PropertyValue, PropertyValue),
    ToggleVisibility(NodeId),
    Emit(String),
    Sequence(Vec<InteractionId>),
}

/// Whether a plan carries the payload of an action.
spec fn plan_of(p: Plan, action: InteractionAction) -> bool {
    match (p, action) {
        (Plan::Navigate(t, m), InteractionAction::Navigate { screen_id, mode }) => t == screen_id && m == mode,
        (Plan::SetProperty(n, q, v1, v2), InteractionAction::SetProperty { node_id, property, value }) => {
            n == node_id && q == property && same_value(value, v1) && same_value(value, v2)
        },
        (Plan::ToggleVisibility(n), InteractionAction::ToggleVisibility { node_id }) => n == node_id,
        (Plan::Emit(x), InteractionAction::Emit { event }) => x == event,
        (Plan::Sequence(xs), InteractionAction::Sequence { interaction_ids }) => xs@ == interaction_ids@,
        _ => false,
    }
}

fn plan_for(action: &InteractionAction) -> (r: Plan)
    ensures
        plan_of(r, *action),
{
    match action {
        InteractionAction::Navigate { screen_id, mode } => Plan::Navigate(screen_id.copy(), *mode),
        InteractionAction::SetProperty { node_id, property, value } => Plan::SetProperty(
            node_id.copy(),
            property.clone(),
            value.copy(),
            value.copy(),
        ),
        InteractionAction::ToggleVisibility { node_id } => Plan::ToggleVisibility(node_id.copy()),
        InteractionAction::Emit { event } => Plan::Emit(event.clone()),
        InteractionAction::Sequence { interaction_ids } => Plan::Sequence(crate::model::copy_ids(interaction_ids)),
    }
}

fn contains_id(call: &Vec<InteractionId>, id: &InteractionId) -> (r: bool)
    ensures
        r == idents(call@).contains(id@),
{
    let mut i: usize = 0;
    while i < call.len()
        invariant
            i <= call@.len(),
            forall|j: int| 0 <= j < i ==> call@[j]@ != id@,
        decreases call@.len() - i,
    {
        if call[i].same(id) {
            assert(idents(call@)[i as int] == id@);
            return true;
        }
        i = i + 1;
    }
    proof {
        if idents(call@).contains(id@) {
            let j = idents(call@).index_of(id@);
            assert(call@[j]@ == id@);
        }
    }
    false
}

impl PrototypeSession {
    /// The route of a declared screen.
    pub closed spec fn routes(&self) -> Map<Seq<char>, Seq<char>> {
        self.navigation.screen_view().map_values(|s: crate::navigation::NavigationScreen| s.route@)
    }

    /// The interactions one node event activates.
    pub closed spec fn activation(&self) -> spec_fn(Seq<char>, InteractionEvent) -> Seq<InteractionInspectorEntry> {
        |node: Seq<char>, event: InteractionEvent| self.interactions.inspect_result(node, event)
    }

    /// The number of interactions of the design.
    pub open spec fn interaction_count(&self) -> nat {
        self.design_view().interactions.key_seq().len()
    }

    /// Return the design this prototype runs.
    pub fn design(&self) -> (r: &StudioDesign)
        ensures
            *r == self.design_view(),
    {
        &self.design
    }

    /// Return the navigation graph of the design.
    pub fn navigation_graph(&self) -> (r: &NavigationGraph)
        ensures
            r.screen_view().dom() == self.screen_set(),
    {
        &self.navigation
    }

    /// Return the interaction graph of the design.
    pub fn interaction_graph(&self) -> (r: &InteractionGraph)
        ensures
            r.entry_view() == self.entry_map(),
    {
        &self.interactions
    }

    /// Return the active screen: the top of the navigation stack.
    pub fn active_screen_id(&self) -> (r: Option<&ScreenId>)
        ensures
            self.stack_view().len() > 0,
            r == Some(&self.stack_view().last()),
    {
        proof {
            use_type_invariant(self);
        }
        self.screen_stack.last()
    }

    /// Return the route of the active screen.
    pub fn active_route(&self) -> (r: Option<&str>)
        ensures
            self.stack_view().len() > 0,
            self.routes().contains_key(self.stack_view().last()@),
            r matches Some(route) && route@ == self.routes()[self.stack_view().last()@],
    {
        proof {
            use_type_invariant(self);
        }
        let last = self.screen_stack.len() - 1;
        let r = self.navigation.route_for_screen(&self.screen_stack[last]);
        assert(self.screen_stack@[last as int] == self.stack_view().last());
        r
    }

    /// Return all trace entries accumulated by this prototype.
    pub fn trace(&self) -> (r: &[PrototypeTraceEntry])
        ensures
            r@ == self.trace_view(),
    {
        self.trace.as_slice()
    }

    /// Read a visibility value: the ephemeral one, else the inverse of the
    /// node's authored hidden flag; none for an unknown node without one.
    pub fn is_visible(&self, node_id: &NodeId) -> (r: Option<bool>)
        ensures
            r == if self.vis_view().contains_key(node_id@) {
                Some(self.vis_view()[node_id@])
            } else if self.design_view().nodes@.contains_key(node_id@) {
                Some(!self.design_view().nodes@[node_id@].accessibility.hidden)
            } else {
                None::<bool>
            },
    {
        match self.visibility.get(node_id.as_str()) {
            Some(v) => Some(*v),
            None => match self.design.nodes.get(node_id.as_str()) {
                Some(node) => Some(!node.accessibility.hidden),
                None => None,
            },
        }
    }

    /// Read a property: the ephemeral value, else the authored one.
    pub fn property(&self, node_id: &NodeId, property: &str) -> (r: Option<PropertyValue>)
        ensures
            if self.props_view().contains_key(node_id@) && self.props_view()[node_id@].contains_key(property@) {
                r matches Some(v) && same_value(self.props_view()[node_id@][property@], v)
            } else if self.design_view().nodes@.contains_key(node_id@)
                && self.design_view().nodes@[node_id@].properties@.contains_key(property@) {
                r matches Some(v) && same_value(self.design_view().nodes@[node_id@].properties@[property@], v)
            } else {
                r is None
            },
    {
        match self.properties.get(node_id.as_str()) {
            Some(props) => match props.get(property) {
                Some(v) => {
                    return Some(v.copy());
                },
                None => {},
            },
            None => {},
        }
        match self.design.nodes.get(node_id.as_str()) {
            Some(node) => match node.properties.get(property) {
                Some(v) => Some(v.copy()),
                None => None,
            },
            None => None,
        }
    }

    fn visible_now(&self, node_id: &NodeId) -> (r: bool)
        ensures
            r == current_visible(self.design_view().nodes@, self.vis_view(), node_id@),
    {
        match self.is_visible(node_id) {
            Some(v) => v,
            None => true,
        }
    }

    fn set_ephemeral(&mut self, node_id: &NodeId, property: String, value: PropertyValue)
        ensures
            same_frame(*old(self), *final(self)),
            final(self).stack_view() == old(self).stack_view(),
            final(self).vis_view() == old(self).vis_view(),
            final(self).emitted_view() == old(self).emitted_view(),
            final(self).props_view() == old(self).props_view().insert(
                node_id@,
                (if old(self).props_view().contains_key(node_id@) {
                    old(self).props_view()[node_id@]
                } else {
                    Map::empty()
                }).insert(property@, value),
            ),
    {
        proof {
            use_type_invariant(&*self);
        }
        let ghost before = self.props_view();
        let mut props: OrderedMap<NodeId, OrderedMap<String, PropertyValue>> = OrderedMap::new();
        std::mem::swap(&mut props, &mut self.properties);
        let mut inner = match props.remove(node_id.as_str()) {
            Some(m) => m,
            None => OrderedMap::new(),
        };
        inner.insert(property, value);
        props.insert(node_id.copy(), inner);
        self.properties = props;
        assert(self.props_view() =~= before.insert(
            node_id@,
            (if before.contains_key(node_id@) {
                before[node_id@]
            } else {
                Map::empty()
            }).insert(property@, value),
        ));
    }

    fn toggle(&mut self, node_id: &NodeId, visible: bool)
        ensures
            same_frame(*old(self), *final(self)),
            final(self).stack_view() == old(self).stack_view(),
            final(self).props_view() == old(self).props_view(),
            final(self).emitted_view() == old(self).emitted_view(),
            final(self).vis_view() == old(self).vis_view().insert(node_id@, visible),
    {
        proof {
            use_type_invariant(&*self);
        }
        let mut vis: OrderedMap<NodeId, bool> = OrderedMap::new();
        std::mem::swap(&mut vis, &mut self.visibility);
        vis.insert(node_id.copy(), visible);
        self.visibility = vis;
    }

    fn emit(&mut self, event: String)
        ensures
            same_frame(*old(self), *final(self)),
            final(self).stack_view() == old(self).stack_view(),
            final(self).props_view() == old(self).props_view(),
            final(self).vis_view() == old(self).vis_view(),
            final(self).emitted_view() == old(self).emitted_view().push(event@),
    {
        proof {
            use_type_invariant(&*self);
        }
        let ghost before = self.emitted_events@;
        let mut events: Vec<String> = Vec::new();
        std::mem::swap(&mut events, &mut self.emitted_events);
        events.push(event);
        self.emitted_events = events;
        assert(texts(self.emitted_events@) =~= texts(before).push(event@));
    }

    /// Apply one navigation to the stack, or report why it cannot apply.
    fn navigate(
        &mut self,
        source_node_id: &NodeId,
        interaction_id: &InteractionId,
        target: &ScreenId,
        mode: NavigationMode,
        diagnostics: &mut Vec<DesignerDiagnostic>,
    ) -> (r: Option<(ScreenId, ScreenId)>)
        ensures
            same_frame(*old(self), *final(self)),
            final(self).props_view() == old(self).props_view(),
            final(self).vis_view() == old(self).vis_view(),
            final(self).emitted_view() == old(self).emitted_view(),
            match navigation_outcome(old(self).screen_set(), old(self).stack_view(), *target, mode) {
                Ok(stack) => {
                    &&& r == Some((old(self).stack_view().last(), *target))
                    &&& final(self).stack_view() == stack
                    &&& final(diagnostics)@ == old(diagnostics)@
                },
                Err(f) => {
                    &&& r is None
                    &&& final(self).stack_view() == old(self).stack_view()
                    &&& views(final(diagnostics)@) == views(old(diagnostics)@).push(
                        proto_view(f.0, f.1, Some(*interaction_id), Some(*source_node_id)),
                    )
                },
            },
    {
        proof {
            use_type_invariant(&*self);
        }
        let ghost d0 = diagnostics@;
        if !self.navigation.screens().contains_key(target.as_str()) {
            diagnostics.push(
                prototype_diagnostic(
                    "PROTOTYPE_NAVIGATION_TARGET_MISSING",
                    framed("prototype navigation target ", target.as_str(), " is missing"),
                    Some(interaction_id.copy()),
                    Some(source_node_id.copy()),
                ),
            );
            assert(views(diagnostics@) =~= views(d0).push(diag_view(diagnostics@.last())));
            return None;
        }
        let n = self.screen_stack.len();
        let from = self.screen_stack[n - 1].copy();
        assert(self.screen_stack@[n - 1] == self.stack_view().last());
        match mode {
            NavigationMode::Push => {
                if n >= MAX_PROTOTYPE_STACK_DEPTH {
                    diagnostics.push(
                        prototype_diagnostic(
                            "PROTOTYPE_STACK_OVERFLOW",
                            String::from_str("prototype navigation stack depth exceeded"),
                            Some(interaction_id.copy()),
                            Some(source_node_id.copy()),
                        ),
                    );
                    assert(views(diagnostics@) =~= views(d0).push(diag_view(diagnostics@.last())));
                    return None;
                }
                let mut next = crate::model::copy_ids(&self.screen_stack);
                next.push(target.copy());
                self.screen_stack = next;
            },
            NavigationMode::Replace => {
                let mut next = crate::model::copy_ids(&self.screen_stack);
                next.pop();
                next.push(target.copy());
                assert(next@ =~= self.stack_view().update(n - 1, *target));
                self.screen_stack = next;
            },
            NavigationMode::Reset => {
                let mut next: Vec<ScreenId> = Vec::new();
                next.push(target.copy());
                assert(next@ =~= seq![*target]);
                self.screen_stack = next;
            },
            NavigationMode::PopTo => {
                let mut j: usize = n;
                let mut found = false;
                assert(self.screen_stack@.take(n as int) =~= self.screen_stack@);
                while j > 0
                    invariant_except_break
                        !found,
                        j <= n,
                        n == self.screen_stack@.len(),
                        last_position(self.screen_stack@, target@) == last_position(self.screen_stack@.take(j as int), target@),
                    ensures
                        found ==> j < n && last_position(self.screen_stack@, target@) == Some(j as int),
                        !found ==> last_position(self.screen_stack@, target@) is None,
                    decreases j,
                {
                    let ghost t = self.screen_stack@.take(j as int);
                    assert(t.drop_last() =~= self.screen_stack@.take(j - 1));
                    assert(t.last() == self.screen_stack@[j - 1]);
                    if self.screen_stack[j - 1].same(target) {
                        assert(last_position(t, target@) == Some(j - 1));
                        j = j - 1;
                        found = true;
                        break;
                    }
                    j = j - 1;
                }
                proof {
                    if !found {
                        assert(self.screen_stack@.take(0) =~= Seq::<ScreenId>::empty());
                    }
                    assert(self.screen_stack@.take(n as int) =~= self.screen_stack@);
                }
                if !found {
                    diagnostics.push(
                        prototype_diagnostic(
                            "PROTOTYPE_NAVIGATION_TARGET_NOT_IN_STACK",
                            framed("prototype pop-to target ", target.as_str(), " is not in the stack"),
                            Some(interaction_id.copy()),
                            Some(source_node_id.copy()),
                        ),
                    );
                    assert(views(diagnostics@) =~= views(d0).push(diag_view(diagnostics@.last())));
                    return None;
                }
                let mut next = crate::model::copy_ids(&self.screen_stack);
                next.truncate(j + 1);
                assert(next@ =~= self.stack_view().take(j + 1));
                self.screen_stack = next;
            },
        }
        Some((from, target.copy()))
    }
}

fn prefixed(prefix: &str, name: &str) -> (r: String)
    ensures
        r@ == prefix@ + name@,
{
    let mut m = String::from_str(prefix);
    m.append(name);
    m
}

/// Ephemeral properties are alike after the same write on both sides.
proof fn lemma_props_set(
    a: Map<Seq<char>, Map<Seq<char>, PropertyValue>>,
    b: Map<Seq<char>, Map<Seq<char>, PropertyValue>>,
    k: Seq<char>,
    q: Seq<char>,
    v: PropertyValue,
    w: PropertyValue,
)
    requires
        props_like(a, b),
        same_value(v, w),
    ensures
        props_like(
            a.insert(k, (if a.contains_key(k) { a[k] } else { Map::empty() }).insert(q, v)),
            b.insert(k, (if b.contains_key(k) { b[k] } else { Map::empty() }).insert(q, w)),
        ),
{
    let ia = if a.contains_key(k) { a[k] } else { Map::<Seq<char>, PropertyValue>::empty() };
    let ib = if b.contains_key(k) { b[k] } else { Map::<Seq<char>, PropertyValue>::empty() };
    assert(values_like(ia, ib)) by {
        if !a.contains_key(k) {
            assert(ia.dom() =~= ib.dom());
        }
    }
    assert(values_like(ia.insert(q, v), ib.insert(q, w))) by {
        assert(ia.insert(q, v).dom() =~= ib.insert(q, w).dom());
    }
    assert(a.insert(k, ia.insert(q, v)).dom() =~= b.insert(k, ib.insert(q, w)).dom());
}

impl PrototypeSession {
    /// Execute one interaction with the interactions of `call_stack` in
    /// progress, appending to the dispatch's lists.
    fn execute(
        &mut self,
        interaction_id: &InteractionId,
        call_stack: &mut Vec<InteractionId>,
        ids: &mut Vec<InteractionId>,
        trace: &mut Vec<PrototypeTraceEntry>,
        diagnostics: &mut Vec<DesignerDiagnostic>,
        Ghost(fuel): Ghost<nat>,
        Ghost(before): Ghost<ProtoAcc>,
    )
        requires
            calls_ok(old(self).entry_map(), idents(old(call_stack)@)),
            fuel + old(call_stack)@.len() == old(self).interaction_count(),
            acc_like(before, acc_of(*old(self), old(ids)@, old(trace)@, old(diagnostics)@)),
        ensures
            final(call_stack)@ == old(call_stack)@,
            same_frame(*old(self), *final(self)),
            acc_like(
                run(old(self).ctx(), before, *interaction_id, idents(old(call_stack)@), fuel),
                acc_of(*final(self), final(ids)@, final(trace)@, final(diagnostics)@),
            ),
        decreases fuel,
    {
        proof {
            use_type_invariant(&*self);
        }
        self.design.interactions.reveal_entries();
        let ghost ctx = self.ctx();
        let ghost call = idents(call_stack@);
        let ghost d0 = diagnostics@;
        if contains_id(call_stack, interaction_id) {
            let node = match self.interactions.entry(interaction_id) {
                Some(e) => Some(e.source_node_id.copy()),
                None => None,
            };
            diagnostics.push(
                prototype_diagnostic(
                    "PROTOTYPE_INTERACTION_CYCLE",
                    prefixed("prototype stopped recursive interaction ", interaction_id.as_str()),
                    Some(interaction_id.copy()),
                    node,
                ),
            );
            assert(views(diagnostics@) =~= views(d0).push(diag_view(diagnostics@.last())));
            return;
        }
        let (source, event, plan) = match self.interactions.entry(interaction_id) {
            Some(e) => (e.source_node_id.copy(), e.event, plan_for(&e.action)),
            None => {
                diagnostics.push(
                    prototype_diagnostic(
                        "PROTOTYPE_INTERACTION_MISSING",
                        prefixed("prototype sequence names missing interaction ", interaction_id.as_str()),
                        Some(interaction_id.copy()),
                        None,
                    ),
                );
                assert(views(diagnostics@) =~= views(d0).push(diag_view(diagnostics@.last())));
                return;
            },
        };
        let ghost e = ctx.0[interaction_id@];
        proof {
            let keys = self.design.interactions.key_seq();
            assert forall|i: int| 0 <= i < call.len() implies keys.contains(#[trigger] call[i]) by {
                assert(ctx.0.contains_key(call[i]));
            }
            lemma_room(keys, call, interaction_id@);
        }
        let ghost a1: ProtoAcc = (before.0, before.1, before.2, before.3, before.4.push(*interaction_id), before.5, before.6);
        let ghost start = *self;
        let ghost old_call = call_stack@;
        call_stack.push(interaction_id.copy());
        ids.push(interaction_id.copy());
        assert(idents(call_stack@) =~= call.push(interaction_id@));
        let effect = match plan {
            Plan::Navigate(screen_id, mode) => {
                match self.navigate(&source, interaction_id, &screen_id, mode, diagnostics) {
                    Some(pair) => {
                        let (from, to) = pair;
                        PrototypeEffect::Navigate { from_screen_id: from, to_screen_id: to, mode }
                    },
                    None => {
                        call_stack.pop();
                        assert(call_stack@ =~= old_call);
                        return;
                    },
                }
            },
            Plan::SetProperty(node_id, property, v1, v2) => {
                if !self.design.nodes.contains_key(node_id.as_str()) {
                    diagnostics.push(
                        prototype_diagnostic(
                            "PROTOTYPE_TARGET_MISSING",
                            framed("prototype property target ", node_id.as_str(), " is missing"),
                            Some(interaction_id.copy()),
                            Some(source.copy()),
                        ),
                    );
                    assert(views(diagnostics@) =~= views(d0).push(diag_view(diagnostics@.last())));
                    call_stack.pop();
                    assert(call_stack@ =~= old_call);
                    return;
                }
                let ghost pb = self.props_view();
                self.set_ephemeral(&node_id, property.clone(), v1);
                proof {
                    lemma_props_set(a1.1, pb, node_id@, property@, e.action->SetProperty_value, v1);
                }
                PrototypeEffect::SetProperty { node_id, property, value: v2 }
            },
            Plan::ToggleVisibility(node_id) => {
                if !self.design.nodes.contains_key(node_id.as_str()) {
                    diagnostics.push(
                        prototype_diagnostic(
                            "PROTOTYPE_TARGET_MISSING",
                            framed("prototype visibility target ", node_id.as_str(), " is missing"),
                            Some(interaction_id.copy()),
                            Some(source.copy()),
                        ),
                    );
                    assert(views(diagnostics@) =~= views(d0).push(diag_view(diagnostics@.last())));
                    call_stack.pop();
                    assert(call_stack@ =~= old_call);
                    return;
                }
                let visible = !self.visible_now(&node_id);
                self.toggle(&node_id, visible);
                PrototypeEffect::ToggleVisibility { node_id, visible }
            },
            Plan::Emit(name) => {
                self.emit(name.clone());
                PrototypeEffect::Emit { event: name }
            },
            Plan::Sequence(nested) => {
                let ghost call2 = call.push(interaction_id@);
                let ghost f2: nat = (fuel - 1) as nat;
                let mut j: usize = 0;
                assert(nested@.take(0) =~= Seq::<InteractionId>::empty());
                while j < nested.len()
                    invariant
                        j <= nested@.len(),
                        idents(call_stack@) == call2,
                        call_stack@ == old_call.push(*interaction_id),
                        calls_ok(ctx.0, call2),
                        f2 + call_stack@.len() == start.interaction_count(),
                        f2 + 1 == fuel,
                        same_frame(start, *self),
                        ctx == start.ctx(),
                        acc_like(run_list(ctx, a1, nested@.take(j as int), call2, f2), acc_of(*self, ids@, trace@, diagnostics@)),
                    decreases nested@.len() - j,
                {
                    self.execute(
                        &nested[j],
                        call_stack,
                        ids,
                        trace,
                        diagnostics,
                        Ghost(f2),
                        Ghost(run_list(ctx, a1, nested@.take(j as int), call2, f2)),
                    );
                    assert(nested@.take(j + 1).drop_last() =~= nested@.take(j as int));
                    assert(nested@.take(j + 1).last() == nested@[j as int]);
                    j = j + 1;
                }
                assert(nested@.take(nested@.len() as int) =~= nested@);
                PrototypeEffect::Sequence { interaction_ids: nested }
            },
        };
        let index = self.trace.len().saturating_add(trace.len());
        trace.push(PrototypeTraceEntry { index, interaction_id: interaction_id.copy(), source_node_id: source, event, effect });
        call_stack.pop();
        assert(call_stack@ =~= old_call);
    }
}

/// The run state a dispatch starts from.
pub open spec fn dispatch_start(s: PrototypeSession) -> ProtoAcc {
    (s.stack_view(), s.props_view(), s.vis_view(), s.emitted_view(), Seq::empty(), Seq::empty(), Seq::empty())
}

/// The interactions a node event activates, in activation order.
pub open spec fn activated_ids(s: PrototypeSession, event: PrototypeEvent) -> Seq<InteractionId> {
    (s.activation())(event.node_id@, event.event).map_values(|e: InteractionInspectorEntry| e.interaction_id)
}

/// What one dispatch writes: each activated interaction runs in activation
/// order, or, for an unknown node, only a diagnostic is recorded.
pub open spec fn dispatch_run(s: PrototypeSession, event: PrototypeEvent) -> ProtoAcc {
    if s.design_view().nodes@.contains_key(event.node_id@) {
        run_list(s.ctx(), dispatch_start(s), activated_ids(s, event), Seq::empty(), s.interaction_count())
    } else {
        with_diag(
            dispatch_start(s),
            proto_view(
                "PROTOTYPE_SOURCE_NODE_MISSING"@,
                "prototype event names missing node "@ + event.node_id@,
                None,
                Some(event.node_id),
            ),
        )
    }
}

/// Whether a snapshot shows a session's ephemeral state.
pub open spec fn snapshot_of(r: PrototypeStateSnapshot, s: PrototypeSession) -> bool {
    &&& r.screen_stack@ == s.stack_view()
    &&& r.active_screen_id == Some(s.stack_view().last())
    &&& props_like(s.props_view(), props_of(r.properties))
    &&& r.visibility@ == s.vis_view()
    &&& texts(r.emitted_events@) == s.emitted_view()
}

fn copy_effect(e: &PrototypeEffect) -> (r: PrototypeEffect)
    ensures
        effect_like(*e, r),
{
    match e {
        PrototypeEffect::Navigate { from_screen_id, to_screen_id, mode } => PrototypeEffect::Navigate {
            from_screen_id: from_screen_id.copy(),
            to_screen_id: to_screen_id.copy(),
            mode: *mode,
        },
        PrototypeEffect::SetProperty { node_id, property, value } => PrototypeEffect::SetProperty {
            node_id: node_id.copy(),
            property: property.clone(),
            value: value.copy(),
        },
        PrototypeEffect::ToggleVisibility { node_id, visible } => PrototypeEffect::ToggleVisibility {
            node_id: node_id.copy(),
            visible: *visible,
        },
        PrototypeEffect::Emit { event } => PrototypeEffect::Emit { event: event.clone() },
        PrototypeEffect::Sequence { interaction_ids } => PrototypeEffect::Sequence {
            interaction_ids: crate::model::copy_ids(interaction_ids),
        },
    }
}

fn copy_trace(t: &Vec<PrototypeTraceEntry>) -> (r: Vec<PrototypeTraceEntry>)
    ensures
        trace_like(t@, r@),
{
    let mut out: Vec<PrototypeTraceEntry> = Vec::new();
    let mut i: usize = 0;
    while i < t.len()
        invariant
            i <= t@.len(),
            out@.len() == i,
            forall|j: int| 0 <= j < i ==> entry_like(#[trigger] t@[j], out@[j]),
        decreases t@.len() - i,
    {
        let e = &t[i];
        out.push(
            PrototypeTraceEntry {
                index: e.index,
                interaction_id: e.interaction_id.copy(),
                source_node_id: e.source_node_id.copy(),
                event: e.event,
                effect: copy_effect(&e.effect),
            },
        );
        i = i + 1;
    }
    out
}

fn copy_strings(v: &Vec<String>) -> (r: Vec<String>)
    ensures
        texts(r@) == texts(v@),
{
    let mut out: Vec<String> = Vec::new();
    let mut i: usize = 0;
    while i < v.len()
        invariant
            i <= v@.len(),
            texts(out@) == texts(v@.take(i as int)),
        decreases v@.len() - i,
    {
        let ghost prev = out@;
        out.push(v[i].clone());
        assert(texts(out@) =~= texts(prev).push(v@[i as int]@));
        assert(v@.take(i + 1) =~= v@.take(i as int).push(v@[i as int]));
        assert(texts(v@.take(i + 1)) =~= texts(v@.take(i as int)).push(v@[i as int]@));
        i = i + 1;
    }
    assert(v@.take(v@.len() as int) =~= v@);
    out
}

fn copy_flags(m: &OrderedMap<NodeId, bool>) -> (r: OrderedMap<NodeId, bool>)
    ensures
        r@ == m@,
{
    m.reveal_entries();
    let mut r: OrderedMap<NodeId, bool> = OrderedMap::new();
    let n = m.len();
    let mut i: usize = 0;
    while i < n
        invariant
            n == m.entry_seq().len(),
            i <= n,
            crate::ordered_map::strictly_sorted(m.key_seq()),
            r.entry_seq() == m.entry_seq().take(i as int),
        decreases n - i,
    {
        let k = m.key_at(i).copy();
        let v = *m.value_at(i);
        proof {
            assert(m.key_seq()[i as int] == k@);
            if i > 0 {
                assert(r.key_seq().last() == r.entry_seq()[i - 1].0@);
                assert(crate::text::chars_before(m.key_seq()[i - 1], m.key_seq()[i as int]));
            }
        }
        r.push_last(k, v);
        assert(r.entry_seq() =~= m.entry_seq().take(i + 1));
        i = i + 1;
    }
    assert(r.entry_seq() =~= m.entry_seq());
    r
}

fn copy_props(p: &OrderedMap<NodeId, OrderedMap<String, PropertyValue>>) -> (r: OrderedMap<NodeId, OrderedMap<String, PropertyValue>>)
    ensures
        props_like(props_of(*p), props_of(r)),
{
    p.reveal_entries();
    let mut r: OrderedMap<NodeId, OrderedMap<String, PropertyValue>> = OrderedMap::new();
    let n = p.len();
    let mut i: usize = 0;
    while i < n
        invariant
            n == p.entry_seq().len(),
            i <= n,
            crate::ordered_map::strictly_sorted(p.key_seq()),
            r.entry_seq().len() == i,
            forall|j: int| 0 <= j < i ==> #[trigger] r.entry_seq()[j].0 == p.entry_seq()[j].0,
            forall|j: int| 0 <= j < i ==> values_like(p.entry_seq()[j].1@, #[trigger] r.entry_seq()[j].1@),
        decreases n - i,
    {
        let k = p.key_at(i).copy();
        let inner = p.value_at(i);
        let c = crate::model::copy_value_map(inner);
        inner.reveal_entries();
        c.reveal_entries();
        proof {
            assert(inner@.dom() =~= c@.dom());
            assert forall|q: Seq<char>| #[trigger] inner@.contains_key(q) implies same_value(inner@[q], c@[q]) by {
                let j = inner.key_seq().index_of(q);
                assert(inner.key_seq()[j] == q);
                assert(c.key_seq()[j] == q);
                assert(inner.entry_seq()[j].0.key_view() == q);
                assert(c.entry_seq()[j].0.key_view() == q);
            }
            assert(p.key_seq()[i as int] == k@);
            if i > 0 {
                assert(r.key_seq().last() == r.entry_seq()[i - 1].0@);
                assert(crate::text::chars_before(p.key_seq()[i - 1], p.key_seq()[i as int]));
            }
        }
        r.push_last(k, c);
        i = i + 1;
    }
    r.reveal_entries();
    proof {
        assert(r.key_seq() =~= p.key_seq());
        assert(props_of(*p).dom() =~= props_of(r).dom());
        assert forall|k: Seq<char>| #[trigger] props_of(*p).contains_key(k) implies values_like(
            props_of(*p)[k],
            props_of(r)[k],
        ) by {
            let j = p.key_seq().index_of(k);
            assert(p.key_seq()[j] == k);
            assert(r.key_seq()[j] == k);
            assert(p.entry_seq()[j].0.key_view() == k);
            assert(r.entry_seq()[j].0.key_view() == k);
        }
    }
    r
}

impl PrototypeSession {
    /// Return a snapshot of the ephemeral state.
    pub fn state(&self) -> (r: PrototypeStateSnapshot)
        ensures
            snapshot_of(r, *self),
    {
        proof {
            use_type_invariant(self);
        }
        let n = self.screen_stack.len();
        let active = self.screen_stack[n - 1].copy();
        PrototypeStateSnapshot {
            screen_stack: crate::model::copy_ids(&self.screen_stack),
            active_screen_id: Some(active),
            properties: copy_props(&self.properties),
            visibility: copy_flags(&self.visibility),
            emitted_events: copy_strings(&self.emitted_events),
        }
    }

    fn record(&mut self, entries: Vec<PrototypeTraceEntry>)
        ensures
            final(self).trace_view() == old(self).trace_view() + entries@,
            final(self).design_view() == old(self).design_view(),
            final(self).entry_map() == old(self).entry_map(),
            final(self).screen_set() == old(self).screen_set(),
            final(self).routes() == old(self).routes(),
            final(self).activation() == old(self).activation(),
            final(self).stack_view() == old(self).stack_view(),
            final(self).props_view() == old(self).props_view(),
            final(self).vis_view() == old(self).vis_view(),
            final(self).emitted_view() == old(self).emitted_view(),
    {
        proof {
            use_type_invariant(&*self);
        }
        let mut all: Vec<PrototypeTraceEntry> = Vec::new();
        std::mem::swap(&mut all, &mut self.trace);
        let mut more = entries;
        all.append(&mut more);
        self.trace = all;
    }

    /// Deliver a typed node event: each interaction the event activates
    /// runs in activation order against the ephemeral state; the design is
    /// never changed.
    pub fn dispatch(&mut self, event: PrototypeEvent) -> (r: PrototypeDispatch)
        ensures
            final(self).design_view() == old(self).design_view(),
            final(self).entry_map() == old(self).entry_map(),
            final(self).screen_set() == old(self).screen_set(),
            r.event == event,
            acc_like(
                dispatch_run(*old(self), event),
                acc_of(*final(self), r.interaction_ids@, r.trace@, r.diagnostics@),
            ),
            final(self).trace_view().len() == old(self).trace_view().len() + r.trace@.len(),
            final(self).trace_view().take(old(self).trace_view().len() as int) == old(self).trace_view(),
            trace_like(r.trace@, final(self).trace_view().skip(old(self).trace_view().len() as int)),
            snapshot_of(r.state, *final(self)),
    {
        proof {
            use_type_invariant(&*self);
        }
        let ghost start = *self;
        let ghost ctx = self.ctx();
        let mut trace: Vec<PrototypeTraceEntry> = Vec::new();
        let mut ids: Vec<InteractionId> = Vec::new();
        let mut diagnostics: Vec<DesignerDiagnostic> = Vec::new();
        if self.design.nodes.contains_key(event.node_id.as_str()) {
            let targets = self.activated(&event);
            let ghost a0 = dispatch_start(start);
            proof {
                lemma_acc_like_refl(a0);
                assert(views(diagnostics@) =~= Seq::<DiagView>::empty());
            }
            let mut j: usize = 0;
            assert(targets@.take(0) =~= Seq::<InteractionId>::empty());
            while j < targets.len()
                invariant
                    j <= targets@.len(),
                    targets@ == activated_ids(start, event),
                    same_frame(start, *self),
                    ctx == start.ctx(),
                    acc_like(
                        run_list(ctx, a0, targets@.take(j as int), Seq::empty(), start.interaction_count()),
                        acc_of(*self, ids@, trace@, diagnostics@),
                    ),
                decreases targets@.len() - j,
            {
                let mut call: Vec<InteractionId> = Vec::new();
                assert(idents(call@) =~= Seq::<Seq<char>>::empty());
                self.execute(
                    &targets[j],
                    &mut call,
                    &mut ids,
                    &mut trace,
                    &mut diagnostics,
                    Ghost(start.interaction_count()),
                    Ghost(run_list(ctx, a0, targets@.take(j as int), Seq::empty(), start.interaction_count())),
                );
                assert(targets@.take(j + 1).drop_last() =~= targets@.take(j as int));
                assert(targets@.take(j + 1).last() == targets@[j as int]);
                j = j + 1;
            }
            assert(targets@.take(targets@.len() as int) =~= targets@);
        } else {
            diagnostics.push(
                prototype_diagnostic(
                    "PROTOTYPE_SOURCE_NODE_MISSING",
                    prefixed("prototype event names missing node ", event.node_id.as_str()),
                    None,
                    Some(event.node_id.copy()),
                ),
            );
            proof {
                lemma_acc_like_refl(dispatch_start(start));
                assert(views(diagnostics@) =~= seq![diag_view(diagnostics@[0])]);
            }
        }
        let copies = copy_trace(&trace);
        self.record(copies);
        proof {
            assert(self.trace_view().take(start.trace_view().len() as int) =~= start.trace_view());
            assert(self.trace_view().skip(start.trace_view().len() as int) =~= copies@);
        }
        let state = self.state();
        PrototypeDispatch { event, interaction_ids: ids, trace, state, diagnostics }
    }

    /// The identities of the interactions a node event activates.
    fn activated(&self, event: &PrototypeEvent) -> (r: Vec<InteractionId>)
        ensures
            r@ == activated_ids(*self, *event),
    {
        let entries = self.interactions.inspect(&event.node_id, event.event);
        let ghost want = activated_ids(*self, *event);
        let mut out: Vec<InteractionId> = Vec::new();
        let mut i: usize = 0;
        while i < entries.len()
            invariant
                i <= entries@.len(),
                crate::navigation::derefs(entries@) == (self.activation())(event.node_id@, event.event),
                want == (self.activation())(event.node_id@, event.event).map_values(
                    |e: InteractionInspectorEntry| e.interaction_id,
                ),
                out@ == want.take(i as int),
            decreases entries@.len() - i,
        {
            let id = entries[i].interaction_id.copy();
            assert(crate::navigation::derefs(entries@)[i as int] == *entries@[i as int]);
            out.push(id);
            assert(out@ =~= want.take(i + 1));
            i = i + 1;
        }
        assert(want.take(entries@.len() as int) =~= want);
        out
    }

    /// Deliver a node event given as its node and event type.
    pub fn dispatch_event(&mut self, node_id: NodeId, event: InteractionEvent) -> (r: PrototypeDispatch)
        ensures
            final(self).design_view() == old(self).design_view(),
            r.event == (PrototypeEvent { node_id, event }),
            acc_like(
                dispatch_run(*old(self), PrototypeEvent { node_id, event }),
                acc_of(*final(self), r.interaction_ids@, r.trace@, r.diagnostics@),
            ),
            snapshot_of(r.state, *final(self)),
    {
        self.dispatch(PrototypeEvent { node_id, event })
    }
}

/// The trace position an entry gets when `i` entries precede it in the
/// dispatch, after `base` entries in the session.
pub open spec fn position(base: nat, i: int) -> usize {
    if base + i <= usize::MAX {
        (base + i) as usize
    } else {
        usize::MAX
    }
}

/// Whether every entry of a dispatch trace sits at its position.
pub open spec fn positioned(base: nat, t: Seq<PrototypeTraceEntry>) -> bool {
    forall|i: int| 0 <= i < t.len() ==> (#[trigger] t[i]).index == position(base, i)
}

proof fn lemma_step_positions(ctx: ProtoCtx, a: ProtoAcc, id: InteractionId, e: InteractionInspectorEntry)
    requires
        positioned(ctx.3, a.5),
    ensures
        positioned(ctx.3, step(ctx, a, id, e).5),
{
}

proof fn lemma_run_positions(ctx: ProtoCtx, a: ProtoAcc, id: InteractionId, call: Seq<Seq<char>>, fuel: nat)
    requires
        positioned(ctx.3, a.5),
    ensures
        positioned(ctx.3, run(ctx, a, id, call, fuel).5),
    decreases fuel, 0nat, 0nat,
{
    if !call.contains(id@) && ctx.0.contains_key(id@) {
        let e = ctx.0[id@];
        let a1 = (a.0, a.1, a.2, a.3, a.4.push(id), a.5, a.6);
        match e.action {
            InteractionAction::Sequence { interaction_ids } => if fuel > 0 {
                lemma_run_list_positions(ctx, a1, interaction_ids@, call.push(id@), (fuel - 1) as nat);
            },
            _ => lemma_step_positions(ctx, a1, id, e),
        }
    }
}

proof fn lemma_run_list_positions(ctx: ProtoCtx, a: ProtoAcc, ids: Seq<InteractionId>, call: Seq<Seq<char>>, fuel: nat)
    requires
        positioned(ctx.3, a.5),
    ensures
        positioned(ctx.3, run_list(ctx, a, ids, call, fuel).5),
    decreases fuel, 1nat, ids.len(),
{
    if ids.len() > 0 {
        lemma_run_list_positions(ctx, a, ids.drop_last(), call, fuel);
        lemma_run_positions(ctx, run_list(ctx, a, ids.drop_last(), call, fuel), ids.last(), call, fuel);
    }
}

/// Every entry a dispatch traces sits at its position in the session trace:
/// the entries already recorded, plus the entries of this dispatch that
/// precede it.
pub proof fn lemma_dispatch_positions(s: PrototypeSession, event: PrototypeEvent)
    ensures
        positioned(s.trace_view().len(), dispatch_run(s, event).5),
{
    if s.design_view().nodes@.contains_key(event.node_id@) {
        lemma_run_list_positions(s.ctx(), dispatch_start(s), activated_ids(s, event), Seq::empty(), s.interaction_count());
    }
}

impl PrototypeSession {
    /// Dispatch one declared interaction directly, as if its source node
    /// received its event; an unknown interaction is reported against the
    /// node named `missing:` and its identity.
    pub fn dispatch_interaction(&mut self, interaction_id: &InteractionId) -> (r: PrototypeDispatch)
        requires
            old(self).entry_map().contains_key(interaction_id@) || crate::ids::valid_identity(
                "missing:"@ + interaction_id@,
            ),
        ensures
            final(self).design_view() == old(self).design_view(),
            final(self).entry_map() == old(self).entry_map(),
            if old(self).entry_map().contains_key(interaction_id@) {
                &&& r.event.node_id == old(self).entry_map()[interaction_id@].source_node_id
                &&& r.event.event == old(self).entry_map()[interaction_id@].event
            } else {
                &&& r.event.node_id@ == "missing:"@ + interaction_id@
                &&& r.event.event == InteractionEvent::Pressed
            },
            acc_like(
                run(old(self).ctx(), dispatch_start(*old(self)), *interaction_id, Seq::empty(), old(self).interaction_count()),
                acc_of(*final(self), r.interaction_ids@, r.trace@, r.diagnostics@),
            ),
            final(self).trace_view().len() == old(self).trace_view().len() + r.trace@.len(),
            final(self).trace_view().take(old(self).trace_view().len() as int) == old(self).trace_view(),
            trace_like(r.trace@, final(self).trace_view().skip(old(self).trace_view().len() as int)),
            snapshot_of(r.state, *final(self)),
    {
        let event = match self.interactions.entry(interaction_id) {
            Some(e) => PrototypeEvent { node_id: e.source_node_id.copy(), event: e.event },
            None => {
                let name = prefixed("missing:", interaction_id.as_str());
                let node_id = NodeId::new(name.as_str()).unwrap();
                PrototypeEvent { node_id, event: InteractionEvent::Pressed }
            },
        };
        let ghost start = *self;
        let mut trace: Vec<PrototypeTraceEntry> = Vec::new();
        let mut ids: Vec<InteractionId> = Vec::new();
        let mut diagnostics: Vec<DesignerDiagnostic> = Vec::new();
        let mut call: Vec<InteractionId> = Vec::new();
        proof {
            lemma_acc_like_refl(dispatch_start(start));
            assert(views(diagnostics@) =~= Seq::<DiagView>::empty());
            assert(idents(call@) =~= Seq::<Seq<char>>::empty());
        }
        self.execute(
            interaction_id,
            &mut call,
            &mut ids,
            &mut trace,
            &mut diagnostics,
            Ghost(start.interaction_count()),
            Ghost(dispatch_start(start)),
        );
        let copies = copy_trace(&trace);
        self.record(copies);
        proof {
            assert(self.trace_view().take(start.trace_view().len() as int) =~= start.trace_view());
            assert(self.trace_view().skip(start.trace_view().len() as int) =~= copies@);
        }
        let state = self.state();
        PrototypeDispatch { event, interaction_ids: ids, trace, state, diagnostics }
    }
}

} // verus!
