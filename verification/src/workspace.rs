//! Presentation state for the Focus and Workbench editor views.
//!
//! Workspace state intentionally contains only presentation concerns; the
//! authoring state stays with the Designer session. Switching views changes
//! which arrangement is shown and nothing else.
use vstd::prelude::*;

use crate::ids::ProjectId;
use crate::text::{contains_seq, folded, trim_whitespace};

verus! {

/// Version for persisted workspace presentation records.
pub const WORKSPACE_STATE_SCHEMA_VERSION: u16 = 1;

/// The two primary editor presentations.
#[derive(Clone, Copy, Debug, PartialEq, Eq, Hash, PartialOrd, Ord, Structural)]
pub enum EditorView {
    /// Canvas-first presentation with collapsible contextual panels.
    Focus,
    /// Persistent multi-panel presentation for deep inspection.
    Workbench,
}

impl Default for EditorView {
    fn default() -> (r: Self)
        ensures
            r == EditorView::Focus,
    {
        EditorView::Focus
    }
}

/// Stable identifiers for surfaces that can be shown in either view.
#[derive(Clone, Copy, Debug, PartialEq, Eq, Hash, PartialOrd, Ord, Structural)]
pub enum PanelId {
    /// Screen list and hierarchy tree.
    ScreensHierarchy,
    /// Studio Library entry point.
    Library,
    /// Canvas controls and device/profile controls.
    CanvasControls,
    /// Selected-node inspector.
    Inspector,
    /// Authoring diagnostics and problems.
    Diagnostics,
    /// Prototype interactions and event graph.
    Interactions,
    /// Live agent operation activity.
    AgentActivity,
    /// Revision and named-history controls.
    History,
}

/// Position of a panel in the stable presentation order.
pub open spec fn panel_rank(p: PanelId) -> int {
    match p {
        PanelId::ScreensHierarchy => 0,
        PanelId::Library => 1,
        PanelId::CanvasControls => 2,
        PanelId::Inspector => 3,
        PanelId::Diagnostics => 4,
        PanelId::Interactions => 5,
        PanelId::AgentActivity => 6,
        PanelId::History => 7,
    }
}

/// Every panel in stable presentation order.
pub open spec fn all_panels() -> Seq<PanelId> {
    seq![
        PanelId::ScreensHierarchy,
        PanelId::Library,
        PanelId::CanvasControls,
        PanelId::Inspector,
        PanelId::Diagnostics,
        PanelId::Interactions,
        PanelId::AgentActivity,
        PanelId::History,
    ]
}

impl PanelId {
    /// Return every Workbench surface in stable presentation order.
    pub fn all() -> (r: [PanelId; 8])
        ensures
            r@ == all_panels(),
    {
        let r = [
            PanelId::ScreensHierarchy,
            PanelId::Library,
            PanelId::CanvasControls,
            PanelId::Inspector,
            PanelId::Diagnostics,
            PanelId::Interactions,
            PanelId::AgentActivity,
            PanelId::History,
        ];
        assert(r@ =~= all_panels());
        r
    }

    fn rank(self) -> (r: u8)
        ensures
            r == panel_rank(self),
    {
        match self {
            PanelId::ScreensHierarchy => 0,
            PanelId::Library => 1,
            PanelId::CanvasControls => 2,
            PanelId::Inspector => 3,
            PanelId::Diagnostics => 4,
            PanelId::Interactions => 5,
            PanelId::AgentActivity => 6,
            PanelId::History => 7,
        }
    }
}

/// Integer canvas rectangle suitable for deterministic persistence.
#[derive(Clone, Copy, Debug, PartialEq, Eq, Structural)]
pub struct PanelGeometry {
    /// Horizontal position in workspace pixels.
    pub x: i32,
    /// Vertical position in workspace pixels.
    pub y: i32,
    /// Width in workspace pixels.
    pub width: u32,
    /// Height in workspace pixels.
    pub height: u32,
}

impl PanelGeometry {
    /// Construct a panel rectangle.
    pub fn new(x: i32, y: i32, width: u32, height: u32) -> (r: Self)
        ensures
            r == (PanelGeometry { x, y, width, height }),
    {
        PanelGeometry { x, y, width, height }
    }
}

/// Presentation flags and geometry for one panel.
#[derive(Clone, Copy, Debug, PartialEq, Eq, Structural)]
pub struct PanelState {
    /// Whether the panel is rendered.
    pub visible: bool,
    /// Whether the panel is collapsed while remaining reachable.
    pub collapsed: bool,
    /// Last user-selected position and size.
    pub geometry: PanelGeometry,
}

/// The state reported for a panel that has no record.
pub open spec fn missing_panel_state() -> PanelState {
    PanelState {
        visible: false,
        collapsed: false,
        geometry: PanelGeometry { x: 0, y: 0, width: 320, height: 240 },
    }
}

/// Panel arrangement for one editor view.
#[derive(Debug, PartialEq, Eq)]
pub struct PanelArrangement {
    panels: Vec<(PanelId, PanelState)>,
}

pub open spec fn panels_sorted(s: Seq<(PanelId, PanelState)>) -> bool {
    forall|i: int, j: int| 0 <= i < j < s.len() ==> panel_rank(s[i].0) < panel_rank(s[j].0)
}

/// The map denoted by a panel record sequence.
pub open spec fn panel_map(s: Seq<(PanelId, PanelState)>) -> Map<PanelId, PanelState> {
    Map::new(
        |p: PanelId| exists|i: int| 0 <= i < s.len() && #[trigger] s[i].0 == p,
        |p: PanelId| s[choose|i: int| 0 <= i < s.len() && #[trigger] s[i].0 == p].1,
    )
}

proof fn lemma_panel_map_at(s: Seq<(PanelId, PanelState)>, i: int)
    requires
        panels_sorted(s),
        0 <= i < s.len(),
    ensures
        panel_map(s).contains_key(s[i].0),
        panel_map(s)[s[i].0] == s[i].1,
{
    let p = s[i].0;
    let j = choose|j: int| 0 <= j < s.len() && #[trigger] s[j].0 == p;
    assert(s[i].0 == p);
    if j != i {
        assert(panel_rank(s[j].0) != panel_rank(s[i].0));
    }
}

impl PanelArrangement {
    #[verifier::type_invariant]
    closed spec fn inv(&self) -> bool {
        panels_sorted(self.panels@)
    }

    /// The panel records in presentation order.
    pub closed spec fn record_seq(&self) -> Seq<(PanelId, PanelState)> {
        self.panels@
    }

    /// The recorded panel states.
    pub open spec fn view(&self) -> Map<PanelId, PanelState> {
        panel_map(self.record_seq())
    }

    /// The state shown for `panel`.
    pub open spec fn state_of(&self, panel: PanelId) -> PanelState {
        if self@.contains_key(panel) {
            self@[panel]
        } else {
            missing_panel_state()
        }
    }

    /// Build the default arrangement for a view.
    pub fn default_for(view: EditorView) -> (r: Self)
        ensures
            forall|p: PanelId| #[trigger] r@.contains_key(p),
            forall|p: PanelId| #[trigger] r@[p] == default_panel_state(view, p),
    {
        let all = PanelId::all();
        let mut panels: Vec<(PanelId, PanelState)> = Vec::new();
        let mut index: usize = 0;
        while index < 8
            invariant
                all@ == all_panels(),
                index <= 8,
                panels@.len() == index,
                forall|j: int| 0 <= j < index ==> #[trigger] panels@[j] == (all_panels()[j], default_panel_state(view, all_panels()[j])),
            decreases 8 - index,
        {
            let panel = all[index];
            let visible = match view {
                EditorView::Focus => match panel {
                    PanelId::CanvasControls | PanelId::Inspector | PanelId::AgentActivity
                    | PanelId::History => true,
                    _ => false,
                },
                EditorView::Workbench => true,
            };
            let geometry = default_geometry(view, panel, index);
            panels.push((panel, PanelState { visible, collapsed: false, geometry }));
            index = index + 1;
        }
        let ghost s = panels@;
        assert(panels_sorted(s)) by {
            assert forall|i: int, j: int| 0 <= i < j < s.len() implies panel_rank(s[i].0) < panel_rank(s[j].0) by {
                assert(panel_rank(all_panels()[i]) == i);
                assert(panel_rank(all_panels()[j]) == j);
            }
        }
        let r = PanelArrangement { panels };
        assert forall|p: PanelId| #[trigger] r@.contains_key(p) by {
            let i = panel_rank(p);
            assert(all_panels()[i] == p);
            lemma_panel_map_at(s, i);
        }
        assert forall|p: PanelId| #[trigger] r@[p] == default_panel_state(view, p) by {
            let i = panel_rank(p);
            assert(all_panels()[i] == p);
            lemma_panel_map_at(s, i);
        }
        r
    }

    /// Get one panel's state.
    pub fn panel(&self, panel: PanelId) -> (r: PanelState)
        ensures
            r == self.state_of(panel),
    {
        proof {
            use_type_invariant(self);
        }
        let n = self.panels.len();
        let mut i: usize = 0;
        while i < n
            invariant
                n == self.panels@.len(),
                i <= n,
                panels_sorted(self.panels@),
                forall|j: int| 0 <= j < i ==> #[trigger] self.panels@[j].0 != panel,
            decreases n - i,
        {
            if self.panels[i].0 == panel {
                proof {
                    lemma_panel_map_at(self.panels@, i as int);
                }
                return self.panels[i].1;
            }
            i = i + 1;
        }
        PanelState {
            visible: false,
            collapsed: false,
            geometry: PanelGeometry::new(0, 0, 320, 240),
        }
    }

    /// Return all persisted panel records, in presentation order.
    pub fn panels(&self) -> (r: &Vec<(PanelId, PanelState)>)
        ensures
            r@ == self.record_seq(),
            panels_sorted(r@),
    {
        proof {
            use_type_invariant(self);
        }
        &self.panels
    }

    /// Apply `update` to the record of `panel`, creating it from `created`
    /// when absent.
    fn update_panel(&mut self, panel: PanelId, created: PanelState, field: u8, visible: bool, collapsed: bool, geometry: PanelGeometry)
        requires
            field < 3,
        ensures
            final(self)@ == old(self)@.insert(
                panel,
                apply_field(
                    if old(self)@.contains_key(panel) {
                        old(self)@[panel]
                    } else {
                        created
                    },
                    field,
                    visible,
                    collapsed,
                    geometry,
                ),
            ),
    {
        proof {
            use_type_invariant(&*self);
        }
        let ghost old_s = self.panels@;
        let mut panels: Vec<(PanelId, PanelState)> = Vec::new();
        std::mem::swap(&mut panels, &mut self.panels);
        let n = panels.len();
        let rank = panel.rank();
        let mut i: usize = 0;
        while i < n && panels[i].0.rank() < rank
            invariant
                n == panels@.len(),
                panels@ == old_s,
                rank == panel_rank(panel),
                panels_sorted(old_s),
                i <= n,
                forall|j: int| 0 <= j < i ==> panel_rank(#[trigger] old_s[j].0) < panel_rank(panel),
            decreases n - i,
        {
            assert(panel_rank(old_s[i as int].0) < panel_rank(panel));
            i = i + 1;
        }
        let found = i < n && panels[i].0 == panel;
        let base = if found {
            panels[i].1
        } else {
            created
        };
        let updated = PanelState {
            visible: if field == 0 { visible } else { base.visible },
            collapsed: if field == 1 { collapsed } else { base.collapsed },
            geometry: if field == 2 { geometry } else { base.geometry },
        };
        if found {
            proof {
                lemma_panel_map_at(old_s, i as int);
            }
            panels.set(i, (panel, updated));
        } else {
            panels.insert(i, (panel, updated));
        }
        let ghost ns = panels@;
        proof {
            if !found {
                assert forall|j: int| 0 <= j < old_s.len() implies #[trigger] old_s[j].0 != panel by {
                    if j >= i as int {
                        assert(old_s[i as int].0 != panel);
                        assert(panel_rank(old_s[i as int].0) != panel_rank(panel));
                        assert(panel_rank(old_s[i as int].0) > panel_rank(panel));
                    }
                }
            }
            if i < n {
                assert(panel_rank(panel) <= panel_rank(old_s[i as int].0));
            }
            lemma_panel_update(old_s, ns, i as int, found, panel, updated);
            if !found {
                assert(!panel_map(old_s).contains_key(panel));
            }
        }
        self.panels = panels;
    }

    /// Set visibility without changing geometry.
    pub fn set_visible(&mut self, panel: PanelId, visible: bool)
        ensures
            final(self)@ == old(self)@.insert(
                panel,
                PanelState { visible, ..old(self).state_of(panel) },
            ),
    {
        self.update_panel(
            panel,
            PanelState {
                visible: false,
                collapsed: false,
                geometry: PanelGeometry::new(0, 0, 320, 240),
            },
            0,
            visible,
            false,
            PanelGeometry::new(0, 0, 0, 0),
        );
    }

    /// Set collapse state without changing geometry.
    pub fn set_collapsed(&mut self, panel: PanelId, collapsed: bool)
        ensures
            final(self)@ == old(self)@.insert(
                panel,
                PanelState { collapsed, ..old(self).state_of(panel) },
            ),
    {
        self.update_panel(
            panel,
            PanelState {
                visible: false,
                collapsed: false,
                geometry: PanelGeometry::new(0, 0, 320, 240),
            },
            1,
            false,
            collapsed,
            PanelGeometry::new(0, 0, 0, 0),
        );
    }

    /// Persist a panel's latest geometry; a panel without a record is
    /// created hidden and expanded.
    pub fn set_geometry(&mut self, panel: PanelId, geometry: PanelGeometry)
        ensures
            final(self)@ == old(self)@.insert(
                panel,
                if old(self)@.contains_key(panel) {
                    PanelState { geometry, ..old(self)@[panel] }
                } else {
                    PanelState { visible: false, collapsed: false, geometry }
                },
            ),
    {
        self.update_panel(
            panel,
            PanelState { visible: false, collapsed: false, geometry },
            2,
            false,
            false,
            geometry,
        );
    }
}

impl Clone for PanelArrangement {
    fn clone(&self) -> (r: Self)
        ensures
            r.record_seq() == self.record_seq(),
            r@ == self@,
    {
        proof {
            use_type_invariant(self);
        }
        let mut panels: Vec<(PanelId, PanelState)> = Vec::new();
        let mut i: usize = 0;
        while i < self.panels.len()
            invariant
                i <= self.panels@.len(),
                panels@ == self.panels@.subrange(0, i as int),
            decreases self.panels@.len() - i,
        {
            let (p, st) = self.panels[i];
            panels.push((p, st));
            i = i + 1;
        }
        assert(panels@ =~= self.panels@);
        PanelArrangement { panels }
    }
}

proof fn lemma_panel_update(
    old_s: Seq<(PanelId, PanelState)>,
    ns: Seq<(PanelId, PanelState)>,
    i: int,
    found: bool,
    panel: PanelId,
    updated: PanelState,
)
    requires
        panels_sorted(old_s),
        0 <= i <= old_s.len(),
        forall|j: int| 0 <= j < i ==> panel_rank(#[trigger] old_s[j].0) < panel_rank(panel),
        i < old_s.len() ==> panel_rank(panel) <= panel_rank(old_s[i].0),
        found ==> i < old_s.len() && old_s[i].0 == panel && ns == old_s.update(i, (panel, updated)),
        !found ==> ns == old_s.insert(i, (panel, updated)) && forall|j: int|
            0 <= j < old_s.len() ==> #[trigger] old_s[j].0 != panel,
    ensures
        panels_sorted(ns),
        panel_map(ns) == panel_map(old_s).insert(panel, updated),
{
    if !found {
        assert forall|j: int| i <= j < old_s.len() implies panel_rank(panel) < panel_rank(#[trigger] old_s[j].0) by {
            assert(old_s[j].0 != panel);
            if j > i {
                assert(panel_rank(old_s[i].0) < panel_rank(old_s[j].0));
            }
            assert(old_s[i].0 != panel);
            assert(panel_rank(old_s[i].0) != panel_rank(panel));
        }
    }
    assert(panels_sorted(ns)) by {
        assert forall|a: int, b: int| 0 <= a < b < ns.len() implies panel_rank(ns[a].0) < panel_rank(ns[b].0) by {
            if !found {
                if a < i && b > i {
                    assert(ns[b] == old_s[b - 1]);
                } else if a > i {
                    assert(ns[a] == old_s[a - 1]);
                    assert(ns[b] == old_s[b - 1]);
                } else if a == i {
                    assert(ns[b] == old_s[b - 1]);
                }
            }
        }
    }
    let m = panel_map(ns);
    let m0 = panel_map(old_s).insert(panel, updated);
    assert forall|p: PanelId| #[trigger] m.contains_key(p) == m0.contains_key(p) by {
        if m.contains_key(p) {
            let j = choose|j: int| 0 <= j < ns.len() && #[trigger] ns[j].0 == p;
            if p != panel {
                if found || j < i {
                    assert(old_s[j].0 == p);
                } else {
                    assert(old_s[j - 1].0 == p);
                }
            }
        }
        if panel_map(old_s).contains_key(p) && p != panel {
            let j = choose|j: int| 0 <= j < old_s.len() && #[trigger] old_s[j].0 == p;
            if found || j < i {
                assert(ns[j].0 == p);
            } else {
                assert(ns[j + 1].0 == p);
            }
        }
        if p == panel {
            assert(ns[i].0 == p);
        }
    }
    assert forall|p: PanelId| m.contains_key(p) implies #[trigger] m[p] == m0[p] by {
        let j = choose|j: int| 0 <= j < ns.len() && #[trigger] ns[j].0 == p;
        lemma_panel_map_at(ns, j);
        if p != panel {
            if found || j < i {
                lemma_panel_map_at(old_s, j);
            } else {
                lemma_panel_map_at(old_s, j - 1);
            }
        } else {
            lemma_panel_map_at(ns, i);
        }
    }
    assert(m =~= m0);
}

/// A panel state with one field replaced: 0 visibility, 1 collapse, 2 geometry.
pub open spec fn apply_field(
    base: PanelState,
    field: u8,
    visible: bool,
    collapsed: bool,
    geometry: PanelGeometry,
) -> PanelState {
    PanelState {
        visible: if field == 0 {
            visible
        } else {
            base.visible
        },
        collapsed: if field == 1 {
            collapsed
        } else {
            base.collapsed
        },
        geometry: if field == 2 {
            geometry
        } else {
            base.geometry
        },
    }
}

/// Whether a panel starts visible in a view: all Workbench panels, and the
/// canvas controls, inspector, agent activity and history in Focus.
pub open spec fn default_visible(view: EditorView, panel: PanelId) -> bool {
    match view {
        EditorView::Focus => panel == PanelId::CanvasControls || panel == PanelId::Inspector
            || panel == PanelId::AgentActivity || panel == PanelId::History,
        EditorView::Workbench => true,
    }
}

/// The state a panel starts with in a view.
pub open spec fn default_panel_state(view: EditorView, panel: PanelId) -> PanelState {
    PanelState {
        visible: default_visible(view, panel),
        collapsed: false,
        geometry: default_geometry_spec(view, panel, panel_rank(panel)),
    }
}

/// The default geometry of a panel at a presentation index in a view.
pub open spec fn default_geometry_spec(view: EditorView, panel: PanelId, index: int) -> PanelGeometry {
    match (view, panel) {
        (EditorView::Focus, PanelId::Inspector) => PanelGeometry { x: 960, y: 48, width: 320, height: 620 },
        (EditorView::Focus, PanelId::CanvasControls) => PanelGeometry { x: 360, y: 48, width: 320, height: 48 },
        (EditorView::Focus, PanelId::AgentActivity) => PanelGeometry { x: 360, y: 700, width: 560, height: 180 },
        (EditorView::Focus, PanelId::History) => PanelGeometry { x: 0, y: 700, width: 350, height: 180 },
        (EditorView::Workbench, PanelId::ScreensHierarchy) => PanelGeometry { x: 0, y: 0, width: 280, height: 760 },
        (EditorView::Workbench, PanelId::Library) => PanelGeometry { x: 0, y: 520, width: 280, height: 240 },
        (EditorView::Workbench, PanelId::Inspector) => PanelGeometry { x: 1040, y: 0, width: 320, height: 760 },
        (EditorView::Workbench, PanelId::Diagnostics) => PanelGeometry { x: 280, y: 520, width: 380, height: 240 },
        (EditorView::Workbench, PanelId::Interactions) => PanelGeometry { x: 660, y: 520, width: 380, height: 240 },
        (EditorView::Workbench, PanelId::AgentActivity) => PanelGeometry { x: 1040, y: 520, width: 320, height: 240 },
        (EditorView::Workbench, PanelId::History) => PanelGeometry { x: 280, y: 760, width: 760, height: 160 },
        (EditorView::Workbench, PanelId::CanvasControls) => PanelGeometry { x: 280, y: 0, width: 760, height: 48 },
        _ => {
            let offset = if index * 16 > i32::MAX {
                i32::MAX as int
            } else {
                index * 16
            };
            PanelGeometry { x: offset as i32, y: offset as i32, width: 320, height: 240 }
        },
    }
}

fn default_geometry(view: EditorView, panel: PanelId, index: usize) -> (r: PanelGeometry)
    ensures
        r == default_geometry_spec(view, panel, index as int),
{
    match (view, panel) {
        (EditorView::Focus, PanelId::Inspector) => PanelGeometry::new(960, 48, 320, 620),
        (EditorView::Focus, PanelId::CanvasControls) => PanelGeometry::new(360, 48, 320, 48),
        (EditorView::Focus, PanelId::AgentActivity) => PanelGeometry::new(360, 700, 560, 180),
        (EditorView::Focus, PanelId::History) => PanelGeometry::new(0, 700, 350, 180),
        (EditorView::Workbench, PanelId::ScreensHierarchy) => PanelGeometry::new(0, 0, 280, 760),
        (EditorView::Workbench, PanelId::Library) => PanelGeometry::new(0, 520, 280, 240),
        (EditorView::Workbench, PanelId::Inspector) => PanelGeometry::new(1040, 0, 320, 760),
        (EditorView::Workbench, PanelId::Diagnostics) => PanelGeometry::new(280, 520, 380, 240),
        (EditorView::Workbench, PanelId::Interactions) => PanelGeometry::new(660, 520, 380, 240),
        (EditorView::Workbench, PanelId::AgentActivity) => PanelGeometry::new(1040, 520, 320, 240),
        (EditorView::Workbench, PanelId::History) => PanelGeometry::new(280, 760, 760, 160),
        (EditorView::Workbench, PanelId::CanvasControls) => PanelGeometry::new(280, 0, 760, 48),
        _ => {
            let offset: i32 = if index > 134217727 {
                i32::MAX
            } else {
                (index * 16) as i32
            };
            PanelGeometry::new(offset, offset, 320, 240)
        },
    }
}

/// Presentation-only state shared by Focus and Workbench.
#[derive(Clone, Debug, PartialEq, Eq)]
pub struct WorkspaceState {
    /// Current presentation; changing this never changes Designer data.
    pub active_view: EditorView,
    /// Focus-specific panel arrangement.
    pub focus: PanelArrangement,
    /// Workbench-specific panel arrangement.
    pub workbench: PanelArrangement,
}

impl Default for WorkspaceState {
    fn default() -> (r: Self)
        ensures
            r.active_view == EditorView::Focus,
            forall|p: PanelId| #[trigger] r.focus@.contains_key(p),
            forall|p: PanelId| #[trigger] r.focus@[p] == default_panel_state(EditorView::Focus, p),
            forall|p: PanelId| #[trigger] r.workbench@.contains_key(p),
            forall|p: PanelId| #[trigger] r.workbench@[p] == default_panel_state(EditorView::Workbench, p),
    {
        Self::new()
    }
}

/// The view a toggle selects.
pub open spec fn toggled(view: EditorView) -> EditorView {
    match view {
        EditorView::Focus => EditorView::Workbench,
        EditorView::Workbench => EditorView::Focus,
    }
}

impl WorkspaceState {
    /// Construct a new workspace with independent defaults for both views.
    pub fn new() -> (r: Self)
        ensures
            r.active_view == EditorView::Focus,
            forall|p: PanelId| #[trigger] r.focus@.contains_key(p),
            forall|p: PanelId| #[trigger] r.focus@[p] == default_panel_state(EditorView::Focus, p),
            forall|p: PanelId| #[trigger] r.workbench@.contains_key(p),
            forall|p: PanelId| #[trigger] r.workbench@[p] == default_panel_state(EditorView::Workbench, p),
    {
        WorkspaceState {
            active_view: EditorView::Focus,
            focus: PanelArrangement::default_for(EditorView::Focus),
            workbench: PanelArrangement::default_for(EditorView::Workbench),
        }
    }

    /// Switch presentation and return the selected view.
    pub fn switch_to(&mut self, view: EditorView) -> (r: EditorView)
        ensures
            r == view,
            final(self).active_view == view,
            final(self).focus == old(self).focus,
            final(self).workbench == old(self).workbench,
    {
        self.active_view = view;
        view
    }

    /// Toggle between Focus and Workbench.
    pub fn toggle_view(&mut self) -> (r: EditorView)
        ensures
            r == toggled(old(self).active_view),
            final(self).active_view == r,
            final(self).focus == old(self).focus,
            final(self).workbench == old(self).workbench,
    {
        let next = match self.active_view {
            EditorView::Focus => EditorView::Workbench,
            EditorView::Workbench => EditorView::Focus,
        };
        self.switch_to(next)
    }

    /// The arrangement shown by the active view.
    pub open spec fn active(&self) -> PanelArrangement {
        match self.active_view {
            EditorView::Focus => self.focus,
            EditorView::Workbench => self.workbench,
        }
    }

    /// Return the arrangement for the active view.
    pub fn active_arrangement(&self) -> (r: &PanelArrangement)
        ensures
            *r == self.active(),
    {
        match self.active_view {
            EditorView::Focus => &self.focus,
            EditorView::Workbench => &self.workbench,
        }
    }

    /// Return the mutable arrangement for the active view.
    pub fn active_arrangement_mut(&mut self) -> (r: &mut PanelArrangement)
        ensures
            *r == old(self).active(),
            final(self).active_view == old(self).active_view,
            old(self).active_view == EditorView::Focus ==> final(self).focus == *final(r)
                && final(self).workbench == old(self).workbench,
            old(self).active_view == EditorView::Workbench ==> final(self).workbench == *final(r)
                && final(self).focus == old(self).focus,
    {
        match self.active_view {
            EditorView::Focus => &mut self.focus,
            EditorView::Workbench => &mut self.workbench,
        }
    }

    /// Validate a decoded state before applying it. Every panel of a record
    /// is one of the closed panel identities, so a state is always valid.
    pub fn validate(&self) -> (r: Result<(), WorkspaceError>)
        ensures
            r is Ok,
    {
        Ok(())
    }
}

/// Controller that composes a presentation state with a shared session.
#[derive(Clone, Debug)]
pub struct WorkspaceController {
    state: WorkspaceState,
}

impl Default for WorkspaceController {
    fn default() -> (r: Self)
        ensures
            r.state_view().active_view == EditorView::Focus,
    {
        WorkspaceController { state: WorkspaceState::new() }
    }
}

impl WorkspaceController {
    pub closed spec fn state_view(&self) -> WorkspaceState {
        self.state
    }

    /// Construct a controller from persisted presentation state.
    pub fn from_state(state: WorkspaceState) -> (r: Result<Self, WorkspaceError>)
        ensures
            r matches Ok(c) && c.state_view() == state,
    {
        match state.validate() {
            Ok(()) => Ok(WorkspaceController { state }),
            Err(e) => Err(e),
        }
    }

    /// Borrow the presentation state.
    pub fn state(&self) -> (r: &WorkspaceState)
        ensures
            *r == self.state_view(),
    {
        &self.state
    }

    /// Borrow mutable presentation state for panel operations.
    pub fn state_mut(&mut self) -> (r: &mut WorkspaceState)
        ensures
            *r == old(self).state_view(),
            final(self).state_view() == *final(r),
    {
        &mut self.state
    }

    /// Apply a command-bar or keyboard command to the presentation: a toggle
    /// switches the view, a panel command makes its panel visible in the
    /// active view. Returns the view shown afterwards.
    pub fn execute_presentation(&mut self, command: WorkspaceCommand) -> (r: EditorView)
        ensures
            command == WorkspaceCommand::ToggleView ==> {
                &&& final(self).state_view().active_view == toggled(old(self).state_view().active_view)
                &&& final(self).state_view().focus == old(self).state_view().focus
                &&& final(self).state_view().workbench == old(self).state_view().workbench
            },
            command != WorkspaceCommand::ToggleView ==> {
                let p = command_panel(command)->0;
                let s0 = old(self).state_view();
                let s1 = final(self).state_view();
                &&& s1.active_view == s0.active_view
                &&& s1.active()@ == s0.active()@.insert(p, PanelState { visible: true, ..s0.active().state_of(p) })
                &&& s0.active_view == EditorView::Focus ==> s1.workbench == s0.workbench
                &&& s0.active_view == EditorView::Workbench ==> s1.focus == s0.focus
            },
            r == final(self).state_view().active_view,
    {
        if command == WorkspaceCommand::ToggleView {
            return self.state.toggle_view();
        }
        if let Some(panel) = command.panel() {
            self.state.active_arrangement_mut().set_visible(panel, true);
        }
        self.state.active_view
    }
}

/// Stable command-bar and keyboard-reachable editor commands.
#[derive(Clone, Copy, Debug, PartialEq, Eq, Hash, PartialOrd, Ord, Structural)]
pub enum WorkspaceCommand {
    /// Switch or toggle the primary editor presentation.
    ToggleView,
    /// Open the screens and hierarchy surface.
    OpenScreensHierarchy,
    /// Open the Studio Library.
    OpenLibrary,
    /// Open canvas and profile controls.
    OpenCanvasControls,
    /// Open the inspector.
    OpenInspector,
    /// Open diagnostics.
    OpenDiagnostics,
    /// Open interactions.
    OpenInteractions,
    /// Open agent activity.
    OpenAgentActivity,
    /// Open revision history.
    OpenHistory,
}

/// The panel a command opens.
pub open spec fn command_panel(command: WorkspaceCommand) -> Option<PanelId> {
    match command {
        WorkspaceCommand::OpenScreensHierarchy => Some(PanelId::ScreensHierarchy),
        WorkspaceCommand::OpenLibrary => Some(PanelId::Library),
        WorkspaceCommand::OpenCanvasControls => Some(PanelId::CanvasControls),
        WorkspaceCommand::OpenInspector => Some(PanelId::Inspector),
        WorkspaceCommand::OpenDiagnostics => Some(PanelId::Diagnostics),
        WorkspaceCommand::OpenInteractions => Some(PanelId::Interactions),
        WorkspaceCommand::OpenAgentActivity => Some(PanelId::AgentActivity),
        WorkspaceCommand::OpenHistory => Some(PanelId::History),
        WorkspaceCommand::ToggleView => None,
    }
}

impl WorkspaceCommand {
    /// Return the panel opened by a panel command.
    pub fn panel(self) -> (r: Option<PanelId>)
        ensures
            r == command_panel(self),
    {
        match self {
            WorkspaceCommand::OpenScreensHierarchy => Some(PanelId::ScreensHierarchy),
            WorkspaceCommand::OpenLibrary => Some(PanelId::Library),
            WorkspaceCommand::OpenCanvasControls => Some(PanelId::CanvasControls),
            WorkspaceCommand::OpenInspector => Some(PanelId::Inspector),
            WorkspaceCommand::OpenDiagnostics => Some(PanelId::Diagnostics),
            WorkspaceCommand::OpenInteractions => Some(PanelId::Interactions),
            WorkspaceCommand::OpenAgentActivity => Some(PanelId::AgentActivity),
            WorkspaceCommand::OpenHistory => Some(PanelId::History),
            WorkspaceCommand::ToggleView => None,
        }
    }
}

/// A command-bar entry with keyboard reachability metadata.
#[derive(Clone, Copy, Debug, PartialEq, Eq)]
pub struct CommandDescriptor {
    /// Stable command identity.
    pub command: WorkspaceCommand,
    /// Human-readable command-bar label.
    pub label: &'static str,
    /// Keyboard accelerator rendered in the command bar.
    pub shortcut: &'static str,
}

/// The command registry as (command, label, shortcut) triples.
pub open spec fn registry_spec() -> Seq<(WorkspaceCommand, Seq<char>, Seq<char>)> {
    seq![
        (WorkspaceCommand::ToggleView, "Switch Focus / Workbench"@, "Ctrl+Shift+W"@),
        (WorkspaceCommand::OpenScreensHierarchy, "Open Screens & Hierarchy"@, "Ctrl+1"@),
        (WorkspaceCommand::OpenLibrary, "Open Library"@, "Ctrl+2"@),
        (WorkspaceCommand::OpenCanvasControls, "Open Canvas Controls"@, "Ctrl+3"@),
        (WorkspaceCommand::OpenInspector, "Open Inspector"@, "Ctrl+4"@),
        (WorkspaceCommand::OpenDiagnostics, "Open Diagnostics"@, "Ctrl+5"@),
        (WorkspaceCommand::OpenInteractions, "Open Interactions"@, "Ctrl+6"@),
        (WorkspaceCommand::OpenAgentActivity, "Open Agent Activity"@, "Ctrl+7"@),
        (WorkspaceCommand::OpenHistory, "Open History"@, "Ctrl+8"@),
    ]
}

pub open spec fn descriptor_view(d: CommandDescriptor) -> (WorkspaceCommand, Seq<char>, Seq<char>) {
    (d.command, d.label@, d.shortcut@)
}

/// Return the complete command registry exposed in both views.
pub fn command_registry() -> (r: [CommandDescriptor; 9])
    ensures
        forall|i: int| 0 <= i < 9 ==> #[trigger] descriptor_view(r@[i]) == registry_spec()[i],
{
    let r = [
        CommandDescriptor {
            command: WorkspaceCommand::ToggleView,
            label: "Switch Focus / Workbench",
            shortcut: "Ctrl+Shift+W",
        },
        CommandDescriptor {
            command: WorkspaceCommand::OpenScreensHierarchy,
            label: "Open Screens & Hierarchy",
            shortcut: "Ctrl+1",
        },
        CommandDescriptor {
            command: WorkspaceCommand::OpenLibrary,
            label: "Open Library",
            shortcut: "Ctrl+2",
        },
        CommandDescriptor {
            command: WorkspaceCommand::OpenCanvasControls,
            label: "Open Canvas Controls",
            shortcut: "Ctrl+3",
        },
        CommandDescriptor {
            command: WorkspaceCommand::OpenInspector,
            label: "Open Inspector",
            shortcut: "Ctrl+4",
        },
        CommandDescriptor {
            command: WorkspaceCommand::OpenDiagnostics,
            label: "Open Diagnostics",
            shortcut: "Ctrl+5",
        },
        CommandDescriptor {
            command: WorkspaceCommand::OpenInteractions,
            label: "Open Interactions",
            shortcut: "Ctrl+6",
        },
        CommandDescriptor {
            command: WorkspaceCommand::OpenAgentActivity,
            label: "Open Agent Activity",
            shortcut: "Ctrl+7",
        },
        CommandDescriptor {
            command: WorkspaceCommand::OpenHistory,
            label: "Open History",
            shortcut: "Ctrl+8",
        },
    ];
    r
}

/// Whether a registry entry answers a normalized query.
pub open spec fn descriptor_matches(
    d: (WorkspaceCommand, Seq<char>, Seq<char>),
    query: Seq<u32>,
) -> bool {
    query.len() == 0 || contains_seq(folded(d.1), query) || folded(d.2) == query
}

fn descriptor_hit(d: &CommandDescriptor, q: &Vec<u32>) -> (r: bool)
    ensures
        r == descriptor_matches(descriptor_view(*d), q@),
{
    let label = crate::text::fold_chars(&crate::text::chars_of(d.label));
    let shortcut = crate::text::fold_chars(&crate::text::chars_of(d.shortcut));
    q.len() == 0 || crate::text::contains_codes(&label, q) || crate::text::codes_eq(&shortcut, q)
}

/// The registry entries among the first `k` that answer `query`, in registry order.
pub open spec fn matching_prefix(query: Seq<u32>, k: int) -> Seq<(WorkspaceCommand, Seq<char>, Seq<char>)>
    decreases k,
{
    if k <= 0 {
        Seq::empty()
    } else if descriptor_matches(registry_spec()[k - 1], query) {
        matching_prefix(query, k - 1).push(registry_spec()[k - 1])
    } else {
        matching_prefix(query, k - 1)
    }
}

/// Find commands from command-bar text or a keyboard shortcut: the query is
/// trimmed and case-folded, and matches a label it occurs in or a shortcut it
/// equals (case-insensitively); an empty query matches every command.
pub fn find_commands(query: &str) -> (r: Vec<CommandDescriptor>)
    ensures
        r@.len() == matching_prefix(folded(trim_whitespace(query@)), 9).len(),
        forall|j: int| 0 <= j < r@.len() ==> #[trigger] descriptor_view(r@[j]) == matching_prefix(
            folded(trim_whitespace(query@)),
            9,
        )[j],
{
    let trimmed = crate::text::trim_chars(query);
    let q = crate::text::fold_chars(&trimmed);
    let registry = command_registry();
    let mut out: Vec<CommandDescriptor> = Vec::new();
    let mut i: usize = 0;
    while i < 9
        invariant
            q@ == folded(trim_whitespace(query@)),
            i <= 9,
            forall|j: int| 0 <= j < 9 ==> #[trigger] descriptor_view(registry@[j]) == registry_spec()[j],
            out@.len() == matching_prefix(q@, i as int).len(),
            forall|j: int| 0 <= j < out@.len() ==> #[trigger] descriptor_view(out@[j]) == matching_prefix(q@, i as int)[j],
        decreases 9 - i,
    {
        let d = registry[i];
        assert(descriptor_view(registry@[i as int]) == registry_spec()[i as int]);
        let hit = descriptor_hit(&d, &q);
        let ghost prev = matching_prefix(q@, i as int);
        assert(matching_prefix(q@, i + 1) == if hit {
            prev.push(registry_spec()[i as int])
        } else {
            prev
        });
        if hit {
            out.push(d);
        }
        i = i + 1;
    }
    out
}

/// A workspace state persistence failure.
#[derive(Clone, Debug, PartialEq, Eq)]
pub enum WorkspaceError {
    /// The persisted workspace record was invalid.
    InvalidState(String),
    /// The supplied session did not return its required state query.
    SessionQuery,
    /// The workspace persistence adapter failed.
    Persistence(String),
}

/// Durable presentation record keyed by project identity.
#[derive(Clone, Debug, PartialEq, Eq)]
pub struct WorkspaceRecord {
    /// Workspace record schema version.
    pub schema_version: u16,
    /// Project this presentation belongs to.
    pub project_id: ProjectId,
    /// Persisted presentation and per-view arrangements.
    pub state: WorkspaceState,
}

/// Decide whether a record may be saved: only the current schema version is accepted.
pub fn validate_record(record: &WorkspaceRecord) -> (r: Result<(), WorkspaceError>)
    ensures
        r is Ok <==> record.schema_version == WORKSPACE_STATE_SCHEMA_VERSION,
        r matches Err(e) ==> e matches WorkspaceError::InvalidState(m) && m@
            == "unsupported workspace schema version"@,
{
    if record.schema_version != WORKSPACE_STATE_SCHEMA_VERSION {
        return Err(WorkspaceError::InvalidState(
            String::from_str("unsupported workspace schema version"),
        ));
    }
    record.state.validate()
}

/// A presentation switch together with the state read from the one shared
/// session.
#[derive(Clone, Debug, PartialEq, Eq)]
pub struct ViewSwitchSnapshot {
    /// Presentation selected after the switch.
    pub view: EditorView,
    /// State read from the shared session.
    pub session: crate::session::SessionStateSnapshot,
}

} // verus!
