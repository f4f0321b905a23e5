//! Domain-owned navigation and interaction graphs.
//!
//! The graphs are derived from a design and are independent of any host
//! router. Invalid references stay visible as source-linked diagnostics.
use vstd::prelude::*;
use vstd::utf8::encode_utf8;
use vstd::string::StringExecFns;

use crate::access::ancestor;
use crate::ids::{InteractionId, NodeId, ScreenId};
use crate::model::{
    DesignerDiagnostic, DiagnosticSeverity, Interaction, InteractionAction, InteractionEvent, NavigationMode,
    NodeParent, PropertyValue, Screen, StudioDesign, copy_ids, same_action, same_value, sequence_of,
};
use crate::ordered_map::{MapKey, OrderedMap};
use crate::text::{has_control, is_control_char};

verus! {

/// Stable diagnostic for a route that cannot be used by a Designer screen.
pub const CODE_ROUTE_INVALID: &'static str = "DESIGN_ROUTE_INVALID";

/// Stable diagnostic for two screens declaring the same route.
pub const CODE_ROUTE_DUPLICATE: &'static str = "DESIGN_ROUTE_DUPLICATE";

/// Stable diagnostic for an interaction source that is not a node.
pub const CODE_INTERACTION_SOURCE_MISSING: &'static str = "DESIGN_INTERACTION_SOURCE_MISSING";

/// Stable diagnostic for a missing screen, node, or interaction target.
pub const CODE_INTERACTION_TARGET_MISSING: &'static str = "DESIGN_INTERACTION_TARGET_MISSING";

/// Stable diagnostic for a recursive interaction sequence.
pub const CODE_INTERACTION_CYCLE: &'static str = "DESIGN_INTERACTION_CYCLE";

/// Whether a segment of `t` (the route after its leading slash) starts at `i`.
pub open spec fn segment_start(t: Seq<char>, i: int) -> bool {
    0 <= i < t.len() && (i == 0 || t[i - 1] == '/')
}

/// Whether a segment starting at `i` is exactly `.`.
pub open spec fn dot_segment_at(t: Seq<char>, i: int) -> bool {
    segment_start(t, i) && t[i] == '.' && (i + 1 == t.len() || t[i + 1] == '/')
}

/// Whether a segment starting at `i` is exactly `..`.
pub open spec fn dot_dot_segment_at(t: Seq<char>, i: int) -> bool {
    segment_start(t, i) && i + 1 < t.len() && t[i] == '.' && t[i + 1] == '.' && (i + 2 == t.len()
        || t[i + 2] == '/')
}

/// The bounded route syntax: `/`, or a `/`-prefixed path of at most 2048
/// bytes whose `/`-separated segments are non-empty and neither `.` nor
/// `..`, with no `?`, `#`, `\` or control character.
pub open spec fn route_is_valid(route: Seq<char>) -> bool {
    route == seq!['/'] || {
        let t = route.drop_first();
        &&& route.len() > 1
        &&& route[0] == '/'
        &&& encode_utf8(route).len() <= 2048
        &&& !has_control(route)
        &&& forall|i: int| 0 <= i < route.len() ==> #[trigger] route[i] != '?' && route[i] != '#'
            && route[i] != '\\'
        &&& forall|i: int| 0 <= i < route.len() - 1 ==> !(#[trigger] route[i] == '/' && route[i + 1] == '/')
        &&& t[0] != '/'
        &&& t.last() != '/'
        &&& forall|i: int| !#[trigger] dot_segment_at(t, i)
        &&& forall|i: int| !#[trigger] dot_dot_segment_at(t, i)
    }
}

/// Validate the bounded route syntax used by the domain model.
pub fn valid_route(route: &str) -> (r: bool)
    ensures
        r == route_is_valid(route@),
{
    let v = crate::text::chars_of(route);
    let n = v.len();
    if n == 1 && v[0] == '/' {
        assert(route@ =~= seq!['/']);
        return true;
    }
    if n <= 1 || v[0] != '/' {
        return false;
    }
    if n > 2048 {
        proof {
            crate::ids::lemma_utf8_len_bounds(route@);
        }
        return false;
    }
    proof {
        crate::ids::lemma_utf8_len_bounds(route@);
    }
    if route.len() > 2048 {
        return false;
    }
    let ghost t = route@.drop_first();
    let mut i: usize = 0;
    while i < n
        invariant
            v@ == route@,
            n == v@.len(),
            n > 1,
            t == route@.drop_first(),
            i <= n,
            forall|j: int| 0 <= j < i ==> !is_control_char(#[trigger] v@[j]),
            forall|j: int| 0 <= j < i ==> #[trigger] v@[j] != '?' && v@[j] != '#' && v@[j] != '\\',
            forall|j: int| 0 <= j < i && j < n - 1 ==> !(#[trigger] v@[j] == '/' && v@[j + 1] == '/'),
            forall|j: int| 0 <= j < i - 1 ==> !#[trigger] dot_segment_at(t, j),
            forall|j: int| 0 <= j < i - 1 ==> !#[trigger] dot_dot_segment_at(t, j),
        decreases n - i,
    {
        let c = v[i];
        let code = c as u32;
        if code <= 0x1f || (0x7f <= code && code <= 0x9f) {
            assert(is_control_char(route@[i as int]));
            return false;
        }
        if c == '?' || c == '#' || c == '\\' {
            return false;
        }
        if i + 1 < n && c == '/' && v[i + 1] == '/' {
            return false;
        }
        if i >= 1 {
            let ti = i - 1;
            let start = ti == 0 || v[ti] == '/';
            if start && c == '.' && (i + 1 == n || v[i + 1] == '/') {
                assert(dot_segment_at(t, ti as int));
                return false;
            }
            if start && c == '.' && i + 1 < n && v[i + 1] == '.' && (i + 2 == n || v[i + 2] == '/') {
                assert(dot_dot_segment_at(t, ti as int));
                return false;
            }
            proof {
                assert(t[ti as int] == v@[i as int]);
                if ti > 0 {
                    assert(t[ti - 1] == v@[ti as int]);
                }
                if ti + 1 < t.len() {
                    assert(t[ti + 1] == v@[i + 1]);
                }
                if ti + 2 < t.len() {
                    assert(t[ti + 2] == v@[i + 2]);
                }
            }
        }
        i = i + 1;
    }
    if v[1] == '/' || v[n - 1] == '/' {
        assert(t[0] == v@[1]);
        assert(t.last() == v@[n - 1]);
        return false;
    }
    assert(t[0] == v@[1]);
    assert(t.last() == v@[n - 1]);
    assert forall|j: int| !#[trigger] dot_segment_at(t, j) by {
        if dot_segment_at(t, j) {
            assert(0 <= j < n - 1);
        }
    }
    assert forall|j: int| !#[trigger] dot_dot_segment_at(t, j) by {
        if dot_dot_segment_at(t, j) {
            assert(0 <= j < n - 1);
        }
    }
    assert(!has_control(route@));
    true
}

/// Whether the node parent chain of `node` ends at step `k`: the `k`-th
/// ancestor exists and is not itself parented by a node.
pub open spec fn chain_ends_at(design: &StudioDesign, node: Seq<char>, k: nat) -> bool {
    match ancestor(design, node, k) {
        Some(a) => !(design.parents@.contains_key(a) && design.parents@[a] is Node),
        None => false,
    }
}

/// The screen owning `node`: the screen that parents the end of its node
/// parent chain, when the chain ends within as many steps as the parent
/// index has entries; `None` for chains ending at a composition, at an
/// unparented node, or not ending in that many steps.
pub open spec fn owning_screen(design: &StudioDesign, node: Seq<char>) -> Option<ScreenId> {
    if exists|k: nat| k <= design.parents.entry_seq().len() && #[trigger] chain_ends_at(design, node, k) {
        let k = choose|k: nat| k <= design.parents.entry_seq().len() && #[trigger] chain_ends_at(design, node, k);
        let a = ancestor(design, node, k)->0;
        if design.parents@.contains_key(a) && design.parents@[a] is Screen {
            Some(design.parents@[a]->screen_id)
        } else {
            None
        }
    } else {
        None
    }
}

proof fn lemma_chain_end_unique(design: &StudioDesign, node: Seq<char>, k: nat, m: nat)
    requires
        chain_ends_at(design, node, k),
        k < m,
    ensures
        !chain_ends_at(design, node, m),
    decreases m - k,
{
    if m == k + 1 {
        assert(ancestor(design, node, m) is None);
    } else {
        lemma_chain_end_unique(design, node, k, (m - 1) as nat);
        if chain_ends_at(design, node, m) {
            assert(ancestor(design, node, (m - 1) as nat) is Some);
            let a = ancestor(design, node, (m - 1) as nat)->0;
            assert(design.parents@.contains_key(a) && design.parents@[a] is Node);
            assert(k < (m - 1) as nat);
            lemma_not_end_before(design, node, k, (m - 1) as nat);
        }
    }
}

proof fn lemma_not_end_before(design: &StudioDesign, node: Seq<char>, k: nat, m: nat)
    requires
        chain_ends_at(design, node, k),
        k < m,
    ensures
        ancestor(design, node, m) is None,
    decreases m - k,
{
    if m == k + 1 {
    } else {
        lemma_not_end_before(design, node, k, (m - 1) as nat);
    }
}

/// Resolve the owning screen through the validated flat parent index.
pub fn screen_screen_id(design: &StudioDesign, node_id: &NodeId) -> (r: Option<ScreenId>)
    ensures
        r == owning_screen(design, node_id@),
{
    let bound = design.parents.len();
    let mut cursor: NodeId = node_id.copy();
    let mut k: usize = 0;
    loop
        invariant
            bound == design.parents.entry_seq().len(),
            k <= bound,
            ancestor(design, node_id@, k as nat) == Some(cursor@),
            forall|j: nat| j < k ==> !#[trigger] chain_ends_at(design, node_id@, j),
        decreases bound - k,
    {
        let next = match design.parents.get(cursor.as_str()) {
            Some(NodeParent::Node { node_id: parent }) => Some(parent.copy()),
            Some(NodeParent::Screen { screen_id }) => {
                proof {
                    assert(chain_ends_at(design, node_id@, k as nat));
                    assert forall|j: nat| j <= bound && #[trigger] chain_ends_at(design, node_id@, j) implies j == k by {
                        if j > k {
                            lemma_chain_end_unique(design, node_id@, k as nat, j);
                        }
                    }
                }
                return Some(screen_id.copy());
            },
            _ => {
                proof {
                    assert(chain_ends_at(design, node_id@, k as nat));
                    assert forall|j: nat| j <= bound && #[trigger] chain_ends_at(design, node_id@, j) implies j == k by {
                        if j > k {
                            lemma_chain_end_unique(design, node_id@, k as nat, j);
                        }
                    }
                }
                return None;
            },
        };
        match next {
            Some(p) => {
                assert(!chain_ends_at(design, node_id@, k as nat));
                if k == bound {
                    assert forall|j: nat| j <= bound implies !#[trigger] chain_ends_at(design, node_id@, j) by {}
                    return None;
                }
                cursor = p;
                k = k + 1;
            },
            None => {
                return None;
            },
        }
    }
}

/// A screen and its typed route as exposed by the domain graph.
#[derive(Clone, Debug, PartialEq, Eq)]
pub struct NavigationScreen {
    /// Stable screen identity.
    pub id: ScreenId,
    /// Human-readable screen name.
    pub name: String,
    /// Canonical route.
    pub route: String,
    /// Stable visual root identity.
    pub root_node_id: NodeId,
}

/// The graph view of a screen.
pub open spec fn navigation_screen(screen: Screen) -> NavigationScreen {
    NavigationScreen {
        id: screen.id,
        name: screen.name,
        route: screen.route,
        root_node_id: screen.root_node_id,
    }
}

impl NavigationScreen {
    /// The graph view of a screen.
    pub fn from_screen(screen: &Screen) -> (r: Self)
        ensures
            r == navigation_screen(*screen),
    {
        NavigationScreen {
            id: screen.id.copy(),
            name: screen.name.clone(),
            route: screen.route.clone(),
            root_node_id: screen.root_node_id.copy(),
        }
    }

    /// A copy of this screen.
    pub fn copy(&self) -> (r: Self)
        ensures
            r == *self,
    {
        NavigationScreen {
            id: self.id.copy(),
            name: self.name.clone(),
            route: self.route.clone(),
            root_node_id: self.root_node_id.copy(),
        }
    }
}

/// One navigation edge originating at a declared interaction.
#[derive(Clone, Debug, PartialEq, Eq)]
pub struct NavigationEdge {
    /// The interaction that declares this edge.
    pub interaction_id: InteractionId,
    /// The node receiving the event.
    pub source_node_id: NodeId,
    /// The screen containing the source node, when it can be resolved.
    pub source_screen_id: Option<ScreenId>,
    /// The declared target screen.
    pub target_screen_id: ScreenId,
    /// How the prototype stack changes.
    pub mode: NavigationMode,
}

/// The observable parts of a link diagnostic: code, message, node link and
/// interaction link.
pub type DiagnosticShape = (Seq<char>, Seq<char>, Option<NodeId>, Option<InteractionId>);

/// The code, message, node link and interaction link of a diagnostic.
pub open spec fn shape_of(d: DesignerDiagnostic) -> DiagnosticShape {
    (d.code@, d.message@, d.node_id, d.interaction_id)
}

/// An error diagnostic that links no content item.
pub open spec fn is_link_error(d: DesignerDiagnostic) -> bool {
    &&& d.severity == DiagnosticSeverity::Error
    &&& d.collection_id is None
    &&& d.binding_id is None
    &&& d.form_id is None
    &&& d.record_id is None
}

/// Build an error diagnostic linking a node and an interaction.
fn link_error(
    code: &str,
    message: String,
    node_id: Option<NodeId>,
    interaction_id: Option<InteractionId>,
) -> (r: DesignerDiagnostic)
    ensures
        shape_of(r) == (code@, message@, node_id, interaction_id),
        is_link_error(r),
{
    DesignerDiagnostic {
        code: String::from_str(code),
        severity: DiagnosticSeverity::Error,
        message,
        node_id,
        interaction_id,
        collection_id: None,
        binding_id: None,
        form_id: None,
        record_id: None,
    }
}

/// The route index built from screens in key order: each screen with a valid
/// route claims that route, a later screen replacing an earlier one.
pub open spec fn route_index(entries: Seq<(ScreenId, Screen)>) -> Map<Seq<char>, ScreenId>
    decreases entries.len(),
{
    if entries.len() == 0 {
        Map::empty()
    } else {
        let prev = route_index(entries.drop_last());
        let e = entries.last();
        if route_is_valid(e.1.route@) {
            prev.insert(e.1.route@, e.0)
        } else {
            prev
        }
    }
}

/// The route diagnostics for screens in key order: an invalid route, or a
/// valid route that an earlier screen already claimed.
pub open spec fn route_issues(entries: Seq<(ScreenId, Screen)>) -> Seq<DiagnosticShape>
    decreases entries.len(),
{
    if entries.len() == 0 {
        Seq::empty()
    } else {
        let prev = route_issues(entries.drop_last());
        let index = route_index(entries.drop_last());
        let id = entries.last().0;
        let screen = entries.last().1;
        if !route_is_valid(screen.route@) {
            prev.push(
                (
                    CODE_ROUTE_INVALID@,
                    "screen "@ + id@ + " declares an invalid route"@,
                    Some(screen.root_node_id),
                    None,
                ),
            )
        } else if index.contains_key(screen.route@) {
            prev.push(
                (
                    CODE_ROUTE_DUPLICATE@,
                    "screens "@ + index[screen.route@]@ + " and "@ + id@ + " both declare route "@
                        + screen.route@,
                    Some(screen.root_node_id),
                    None,
                ),
            )
        } else {
            prev
        }
    }
}

/// The navigation edge declared by interaction `id` of `design`, if its
/// action navigates.
pub open spec fn edge_matches(design: &StudioDesign, key: Seq<char>, e: NavigationEdge) -> bool {
    let interaction = design.interactions@[key];
    match interaction.action {
        InteractionAction::Navigate { screen_id, mode } => {
            &&& e.interaction_id@ == key
            &&& e.source_node_id == interaction.source.node_id
            &&& e.source_screen_id == owning_screen(design, interaction.source.node_id@)
            &&& e.target_screen_id == screen_id
            &&& e.mode == mode
        },
        _ => false,
    }
}

/// Whether the interaction stored under `key` navigates.
pub open spec fn navigates(design: &StudioDesign, key: Seq<char>) -> bool {
    design.interactions@.contains_key(key) && design.interactions@[key].action is Navigate
}

proof fn lemma_route_index_sound(entries: Seq<(ScreenId, Screen)>, k: Seq<char>)
    requires
        route_index(entries).contains_key(k),
    ensures
        route_is_valid(k),
        exists|j: int|
            0 <= j < entries.len() && (#[trigger] entries[j]).0 == route_index(entries)[k]
                && entries[j].1.route@ == k,
    decreases entries.len(),
{
    let prev = entries.drop_last();
    let e = entries.last();
    if route_is_valid(e.1.route@) && e.1.route@ == k {
        assert(entries[entries.len() - 1] == e);
    } else {
        lemma_route_index_sound(prev, k);
        let j = choose|j: int|
            0 <= j < prev.len() && (#[trigger] prev[j]).0 == route_index(prev)[k] && prev[j].1.route@ == k;
        assert(entries[j] == prev[j]);
    }
}

/// Screens, routes and route diagnostics of a design.
fn route_part(design: &StudioDesign) -> (r: (
    OrderedMap<ScreenId, NavigationScreen>,
    OrderedMap<String, ScreenId>,
    Vec<DesignerDiagnostic>,
))
    ensures
        r.0@.dom() == design.screens@.dom(),
        forall|k: Seq<char>| #[trigger] r.0@.contains_key(k) ==> r.0@[k] == navigation_screen(design.screens@[k]),
        r.1@ == route_index(design.screens.entry_seq()),
        forall|k: Seq<char>| #[trigger] r.1@.contains_key(k) ==> route_is_valid(k) && r.0@.contains_key(r.1@[k]@)
            && r.0@[r.1@[k]@].route@ == k,
        r.2@.map_values(|d: DesignerDiagnostic| shape_of(d)) == route_issues(design.screens.entry_seq()),
        forall|i: int| 0 <= i < r.2@.len() ==> is_link_error(#[trigger] r.2@[i]),
{
    design.screens.reveal_entries();
    let ghost entries = design.screens.entry_seq();
    let n = design.screens.len();
    let mut screens: OrderedMap<ScreenId, NavigationScreen> = OrderedMap::new();
    let mut routes: OrderedMap<String, ScreenId> = OrderedMap::new();
    let mut diagnostics: Vec<DesignerDiagnostic> = Vec::new();
    let mut i: usize = 0;
    while i < n
        invariant
            n == entries.len(),
            entries == design.screens.entry_seq(),
            crate::ordered_map::strictly_sorted(design.screens.key_seq()),
            i <= n,
            screens.key_seq() == design.screens.key_seq().take(i as int),
            screens.entry_seq().len() == i,
            forall|j: int| 0 <= j < i ==> #[trigger] screens.entry_seq()[j].1 == navigation_screen(entries[j].1),
            routes@ == route_index(entries.take(i as int)),
            diagnostics@.map_values(|d: DesignerDiagnostic| shape_of(d)) == route_issues(entries.take(i as int)),
            forall|j: int| 0 <= j < diagnostics@.len() ==> is_link_error(#[trigger] diagnostics@[j]),
        decreases n - i,
    {
        let screen_id = design.screens.key_at(i);
        let screen = design.screens.value_at(i);
        let ghost prefix = entries.take(i as int);
        assert(entries.take(i + 1).drop_last() == prefix);
        assert(entries.take(i + 1).last() == entries[i as int]);
        proof {
            assert(design.screens.key_seq()[i as int] == screen_id@);
            if i > 0 {
                assert(screens.key_seq().last() == design.screens.key_seq()[i - 1]);
            }
        }
        screens.push_last(screen_id.copy(), NavigationScreen::from_screen(screen));
        assert(screens.key_seq() =~= design.screens.key_seq().take(i + 1));
        if !valid_route(screen.route.as_str()) {
            let mut message = String::from_str("screen ");
            message.append(screen_id.as_str());
            message.append(" declares an invalid route");
            let d = link_error(CODE_ROUTE_INVALID, message, Some(screen.root_node_id.copy()), None);
            diagnostics.push(d);
        } else {
            let previous = routes.insert(screen.route.clone(), screen_id.copy());
            match previous {
                Some(prev) => {
                    let mut message = String::from_str("screens ");
                    message.append(prev.as_str());
                    message.append(" and ");
                    message.append(screen_id.as_str());
                    message.append(" both declare route ");
                    message.append(screen.route.as_str());
                    let d = link_error(
                        CODE_ROUTE_DUPLICATE,
                        message,
                        Some(screen.root_node_id.copy()),
                        None,
                    );
                    diagnostics.push(d);
                },
                None => {},
            }
        }
        proof {
            let ghost f = |d: DesignerDiagnostic| shape_of(d);
            assert(diagnostics@.map_values(f) =~= route_issues(entries.take(i + 1)));
        }
        i = i + 1;
    }
    assert(entries.take(n as int) == entries);
    assert(design.screens.key_seq().take(n as int) == design.screens.key_seq());
    screens.reveal_entries();
    assert forall|k: Seq<char>| #[trigger] screens@.contains_key(k) implies screens@[k] == navigation_screen(design.screens@[k]) by {
        let j = screens.key_seq().index_of(k);
        assert(screens.key_seq()[j] == k);
        assert(screens.entry_seq()[j].0.key_view() == k);
        assert(entries[j].0.key_view() == k);
    }
    assert(screens@.dom() =~= design.screens@.dom());
    assert forall|k: Seq<char>| #[trigger] routes@.contains_key(k) implies route_is_valid(k) && screens@.contains_key(routes@[k]@)
        && screens@[routes@[k]@].route@ == k by {
        lemma_route_index_sound(entries, k);
        let j = choose|j: int|
            0 <= j < entries.len() && (#[trigger] entries[j]).0 == route_index(entries)[k] && entries[j].1.route@ == k;
        assert(design.screens.key_seq()[j] == entries[j].0.key_view());
        assert(design.screens@.contains_key(entries[j].0@));
        assert(design.screens@[entries[j].0.key_view()] == entries[j].1);
    }
    (screens, routes, diagnostics)
}

/// Whether `b` is among the interactions sequenced by interaction `a`, both
/// being interactions of `design`.
pub open spec fn sequence_edge(design: &StudioDesign, a: Seq<char>, b: Seq<char>) -> bool {
    &&& design.interactions@.contains_key(a)
    &&& design.interactions@.contains_key(b)
    &&& exists|j: int|
        0 <= j < sequence_of(design.interactions@[a].action).len() && #[trigger] sequence_of(
            design.interactions@[a].action,
        )[j]@ == b
}

/// Whether consecutive interactions of `p` are linked by sequence edges.
pub open spec fn is_sequence_path(design: &StudioDesign, p: Seq<Seq<char>>) -> bool {
    forall|i: int| 0 <= i < p.len() - 1 ==> #[trigger] sequence_edge(design, p[i], p[i + 1])
}

/// Whether interaction `k` lies on a cycle of sequence edges.
pub open spec fn on_sequence_cycle(design: &StudioDesign, k: Seq<char>) -> bool {
    exists|p: Seq<Seq<char>>|
        p.len() >= 2 && p[0] == k && p.last() == k && #[trigger] is_sequence_path(design, p)
}

/// Adjacency by key position: every listed position is a sequence edge.
pub open spec fn adjacency_sound(design: &StudioDesign, adj: Seq<Vec<usize>>) -> bool {
    let keys = design.interactions.key_seq();
    &&& adj.len() == keys.len()
    &&& forall|i: int, j: int|
        0 <= i < adj.len() && 0 <= j < adj[i]@.len() ==> #[trigger] adj[i]@[j] < keys.len()
            && sequence_edge(design, keys[i], keys[adj[i]@[j] as int])
}

/// Number of unvisited positions.
pub open spec fn zeros(s: Seq<u8>) -> nat
    decreases s.len(),
{
    if s.len() == 0 {
        0
    } else {
        zeros(s.drop_last()) + if s.last() == 0 {
            1nat
        } else {
            0nat
        }
    }
}

proof fn lemma_zeros_update(s: Seq<u8>, i: int, v: u8)
    requires
        0 <= i < s.len(),
    ensures
        zeros(s.update(i, v)) + (if s[i] == 0 {
            1nat
        } else {
            0nat
        }) == zeros(s) + (if v == 0 {
            1nat
        } else {
            0nat
        }),
    decreases s.len(),
{
    if i == s.len() - 1 {
        assert(s.update(i, v).drop_last() =~= s.drop_last());
    } else {
        assert(s.update(i, v).drop_last() =~= s.drop_last().update(i, v));
        lemma_zeros_update(s.drop_last(), i, v);
    }
}

/// The depth-first stack: a path of sequence edges whose members are exactly
/// the positions in progress.
pub open spec fn stack_ok(design: &StudioDesign, state: Seq<u8>, stack: Seq<usize>) -> bool {
    let keys = design.interactions.key_seq();
    &&& forall|i: int| 0 <= i < stack.len() ==> #[trigger] stack[i] < keys.len()
    &&& forall|x: usize| x < state.len() ==> (#[trigger] state[x as int] == 1 <==> stack.contains(x))
    &&& forall|i: int|
        0 <= i < stack.len() - 1 ==> #[trigger] sequence_edge(design, keys[stack[i] as int], keys[stack[i + 1] as int])
}

/// Every flagged position lies on a sequence cycle.
pub open spec fn flags_sound(design: &StudioDesign, flags: Seq<bool>) -> bool {
    forall|x: int| 0 <= x < flags.len() && #[trigger] flags[x] ==> on_sequence_cycle(design, design.interactions.key_seq()[x])
}

proof fn lemma_stack_cycle(design: &StudioDesign, s: Seq<usize>, start: int, j: int)
    requires
        forall|i: int| 0 <= i < s.len() ==> #[trigger] s[i] < design.interactions.key_seq().len(),
        forall|i: int|
            0 <= i < s.len() - 1 ==> #[trigger] sequence_edge(
                design,
                design.interactions.key_seq()[s[i] as int],
                design.interactions.key_seq()[s[i + 1] as int],
            ),
        0 <= start <= j < s.len(),
        sequence_edge(
            design,
            design.interactions.key_seq()[s.last() as int],
            design.interactions.key_seq()[s[start] as int],
        ),
    ensures
        on_sequence_cycle(design, design.interactions.key_seq()[s[j] as int]),
{
    let keys = design.interactions.key_seq();
    let f = |x: usize| keys[x as int];
    let a = s.subrange(j, s.len() as int).map_values(f);
    let b = s.subrange(start, j + 1).map_values(f);
    let p = a + b;
    assert forall|i: int| 0 <= i < p.len() - 1 implies #[trigger] sequence_edge(design, p[i], p[i + 1]) by {
        if i < a.len() - 1 {
            assert(p[i] == keys[s[j + i] as int]);
            assert(p[i + 1] == keys[s[j + i + 1] as int]);
        } else if i == a.len() - 1 {
            assert(p[i] == keys[s.last() as int]);
            assert(p[i + 1] == keys[s[start] as int]);
        } else {
            let m = i - a.len();
            assert(p[i] == keys[s[start + m] as int]);
            assert(p[i + 1] == keys[s[start + m + 1] as int]);
        }
    }
    assert(p[0] == keys[s[j] as int]);
    assert(p.last() == keys[s[j] as int]);
    assert(is_sequence_path(design, p));
}

proof fn lemma_contains_push(s: Seq<usize>, v: usize, x: usize)
    ensures
        s.push(v).contains(x) <==> (s.contains(x) || x == v),
{
    if s.push(v).contains(x) {
        let k = choose|k: int| 0 <= k < s.push(v).len() && s.push(v)[k] == x;
        if k < s.len() {
            assert(s[k] == x);
        }
    }
    if s.contains(x) {
        let k = choose|k: int| 0 <= k < s.len() && s[k] == x;
        assert(s.push(v)[k] == x);
    }
    assert(s.push(v)[s.len() as int] == v);
}

/// Depth-first visit of position `u`, flagging the stack segment closed by
/// every edge back into the stack.
fn visit(
    design: &StudioDesign,
    adj: &Vec<Vec<usize>>,
    u: usize,
    state: &mut Vec<u8>,
    stack: &mut Vec<usize>,
    in_cycle: &mut Vec<bool>,
)
    requires
        adjacency_sound(design, adj@),
        old(state)@.len() == adj@.len(),
        old(in_cycle)@.len() == adj@.len(),
        u < adj@.len(),
        old(state)@[u as int] == 0,
        stack_ok(design, old(state)@, old(stack)@),
        old(stack)@.len() > 0 ==> sequence_edge(
            design,
            design.interactions.key_seq()[old(stack)@.last() as int],
            design.interactions.key_seq()[u as int],
        ),
        flags_sound(design, old(in_cycle)@),
    ensures
        final(stack)@ == old(stack)@,
        final(state)@.len() == adj@.len(),
        final(in_cycle)@.len() == adj@.len(),
        stack_ok(design, final(state)@, final(stack)@),
        flags_sound(design, final(in_cycle)@),
        zeros(final(state)@) < zeros(old(state)@),
    decreases zeros(old(state)@),
{
    let ghost keys = design.interactions.key_seq();
    let ghost s0 = state@;
    let ghost stack0 = stack@;
    proof {
        lemma_zeros_update(state@, u as int, 1);
    }
    state.set(u, 1);
    stack.push(u);
    assert(stack_ok(design, state@, stack@)) by {
        assert forall|x: usize| x < state@.len() implies (#[trigger] state@[x as int] == 1 <==> stack@.contains(x)) by {
            lemma_contains_push(stack0, u, x);
            if x != u {
                assert(state@[x as int] == s0[x as int]);
            }
        }
        assert forall|i: int| 0 <= i < stack@.len() - 1 implies #[trigger] sequence_edge(
            design,
            keys[stack@[i] as int],
            keys[stack@[i + 1] as int],
        ) by {
            if i == stack@.len() - 2 {
                assert(stack@[i] == stack0.last());
            } else {
                assert(stack@[i] == stack0[i]);
                assert(stack@[i + 1] == stack0[i + 1]);
            }
        }
    }
    let count = adj[u].len();
    let mut k: usize = 0;
    while k < count
        invariant
            adjacency_sound(design, adj@),
            keys == design.interactions.key_seq(),
            u < adj@.len(),
            count == adj@[u as int]@.len(),
            k <= count,
            stack@ == stack0.push(u),
            state@.len() == adj@.len(),
            in_cycle@.len() == adj@.len(),
            stack_ok(design, state@, stack@),
            flags_sound(design, in_cycle@),
            zeros(state@) < zeros(s0),
            s0 == old(state)@,
        decreases count - k,
    {
        let t = adj[u][k];
        assert(t < keys.len() && sequence_edge(design, keys[u as int], keys[t as int]));
        let st = state[t];
        if st == 0 {
            visit(design, adj, t, state, stack, in_cycle);
        } else if st == 1 {
            let len = stack.len();
            let mut start: usize = 0;
            while start < len && stack[start] != t
                invariant
                    start <= len,
                    len == stack@.len(),
                    forall|m: int| 0 <= m < start ==> stack@[m] != t,
                decreases len - start,
            {
                start = start + 1;
            }
            if start < len {
                let mut j: usize = start;
                while j < len
                    invariant
                        start <= j <= len,
                        start < len,
                        len == stack@.len(),
                        stack@[start as int] == t,
                        stack@.last() == u,
                        stack_ok(design, state@, stack@),
                        sequence_edge(design, keys[u as int], keys[t as int]),
                        keys == design.interactions.key_seq(),
                        adjacency_sound(design, adj@),
                        in_cycle@.len() == adj@.len(),
                        flags_sound(design, in_cycle@),
                    decreases len - j,
                {
                    let x = stack[j];
                    proof {
                        lemma_stack_cycle(design, stack@, start as int, j as int);
                    }
                    in_cycle.set(x, true);
                    j = j + 1;
                }
            }
        }
        k = k + 1;
    }
    let ghost s1 = state@;
    stack.pop();
    assert(stack@ == stack0);
    proof {
        lemma_zeros_update(state@, u as int, 2);
    }
    state.set(u, 2);
    assert(stack_ok(design, state@, stack@)) by {
        assert forall|x: usize| x < state@.len() implies (#[trigger] state@[x as int] == 1 <==> stack@.contains(x)) by {
            lemma_contains_push(stack0, u, x);
            if x == u {
                assert(s1[u as int] == 1);
                assert(stack0.push(u).contains(u));
            } else {
                assert(s1[x as int] == state@[x as int]);
            }
        }
        assert forall|i: int| 0 <= i < stack@.len() - 1 implies #[trigger] sequence_edge(
            design,
            keys[stack@[i] as int],
            keys[stack@[i + 1] as int],
        ) by {
            assert(stack@[i] == stack0.push(u)[i]);
            assert(stack@[i + 1] == stack0.push(u)[i + 1]);
        }
    }
}

/// For each interaction position, whether the depth-first search over
/// sequence edges, from positions in key order and targets in listed order,
/// closed a cycle through it.
fn find_cycle_flags(design: &StudioDesign, adj: &Vec<Vec<usize>>) -> (r: Vec<bool>)
    requires
        adjacency_sound(design, adj@),
    ensures
        r@.len() == adj@.len(),
        flags_sound(design, r@),
{
    let n = adj.len();
    let mut state: Vec<u8> = Vec::new();
    let mut in_cycle: Vec<bool> = Vec::new();
    let mut i: usize = 0;
    while i < n
        invariant
            i <= n,
            n == adj@.len(),
            state@.len() == i,
            in_cycle@.len() == i,
            forall|x: int| 0 <= x < i ==> #[trigger] state@[x] == 0,
            forall|x: int| 0 <= x < i ==> !#[trigger] in_cycle@[x],
        decreases n - i,
    {
        state.push(0);
        in_cycle.push(false);
        i = i + 1;
    }
    let mut stack: Vec<usize> = Vec::new();
    let mut i: usize = 0;
    while i < n
        invariant
            i <= n,
            n == adj@.len(),
            adjacency_sound(design, adj@),
            state@.len() == n,
            in_cycle@.len() == n,
            stack@.len() == 0,
            stack_ok(design, state@, stack@),
            flags_sound(design, in_cycle@),
        decreases n - i,
    {
        if state[i] == 0 {
            visit(design, adj, i, &mut state, &mut stack, &mut in_cycle);
        }
        i = i + 1;
    }
    in_cycle
}

/// One interaction with its source screen resolved for the event inspector.
#[derive(Clone, Debug, PartialEq)]
pub struct InteractionInspectorEntry {
    /// Stable interaction identity.
    pub interaction_id: InteractionId,
    /// Stable source node identity.
    pub source_node_id: NodeId,
    /// Screen containing the source node, if available.
    pub source_screen_id: Option<ScreenId>,
    /// Typed event that activates the interaction.
    pub event: InteractionEvent,
    /// Typed effect shown by the inspector.
    pub action: InteractionAction,
}

/// Whether `e` is the inspector entry of the interaction stored under `key`.
pub open spec fn entry_matches(design: &StudioDesign, key: Seq<char>, e: InteractionInspectorEntry) -> bool {
    let interaction = design.interactions@[key];
    &&& e.interaction_id@ == key
    &&& e.source_node_id == interaction.source.node_id
    &&& e.source_screen_id == owning_screen(design, interaction.source.node_id@)
    &&& e.event == interaction.source.event
    &&& same_action(interaction.action, e.action)
}

/// Diagnostics for a source node that the design lacks.
pub open spec fn source_issues(design: &StudioDesign, id: InteractionId, interaction: Interaction) -> Seq<DiagnosticShape> {
    let src = interaction.source.node_id;
    if design.nodes@.contains_key(src@) {
        Seq::empty()
    } else {
        seq![
            (
                CODE_INTERACTION_SOURCE_MISSING@,
                "interaction "@ + id@ + " names missing source node "@ + src@,
                Some(src),
                Some(id),
            ),
        ]
    }
}

/// Diagnostics for sequenced interactions that the design lacks, in order.
pub open spec fn missing_target_issues(
    design: &StudioDesign,
    id: InteractionId,
    src: NodeId,
    targets: Seq<InteractionId>,
) -> Seq<DiagnosticShape>
    decreases targets.len(),
{
    if targets.len() == 0 {
        Seq::empty()
    } else {
        let prev = missing_target_issues(design, id, src, targets.drop_last());
        let t = targets.last();
        if design.interactions@.contains_key(t@) {
            prev
        } else {
            prev.push(
                (
                    CODE_INTERACTION_TARGET_MISSING@,
                    "interaction "@ + id@ + " sequences missing interaction "@ + t@,
                    Some(src),
                    Some(id),
                ),
            )
        }
    }
}

/// Diagnostics for a navigation, property or visibility target that the
/// design lacks.
pub open spec fn action_issues(design: &StudioDesign, id: InteractionId, interaction: Interaction) -> Seq<DiagnosticShape> {
    let src = interaction.source.node_id;
    match interaction.action {
        InteractionAction::Navigate { screen_id, .. } => if design.screens@.contains_key(screen_id@) {
            Seq::empty()
        } else {
            seq![
                (
                    CODE_INTERACTION_TARGET_MISSING@,
                    "interaction "@ + id@ + " navigates to missing screen "@ + screen_id@,
                    Some(src),
                    Some(id),
                ),
            ]
        },
        InteractionAction::SetProperty { node_id, .. } => if design.nodes@.contains_key(node_id@) {
            Seq::empty()
        } else {
            seq![
                (
                    CODE_INTERACTION_TARGET_MISSING@,
                    "interaction "@ + id@ + " targets missing node "@ + node_id@,
                    Some(src),
                    Some(id),
                ),
            ]
        },
        InteractionAction::ToggleVisibility { node_id } => if design.nodes@.contains_key(node_id@) {
            Seq::empty()
        } else {
            seq![
                (
                    CODE_INTERACTION_TARGET_MISSING@,
                    "interaction "@ + id@ + " targets missing node "@ + node_id@,
                    Some(src),
                    Some(id),
                ),
            ]
        },
        _ => Seq::empty(),
    }
}

/// All reference diagnostics of interactions in key order.
pub open spec fn interaction_issues(design: &StudioDesign, entries: Seq<(InteractionId, Interaction)>) -> Seq<DiagnosticShape>
    decreases entries.len(),
{
    if entries.len() == 0 {
        Seq::empty()
    } else {
        let (id, interaction) = entries.last();
        interaction_issues(design, entries.drop_last()) + source_issues(design, id, interaction)
            + missing_target_issues(design, id, interaction.source.node_id, sequence_of(interaction.action))
            + action_issues(design, id, interaction)
    }
}

/// The diagnostic reporting a sequence cycle through `id`.
pub open spec fn cycle_shape(design: &StudioDesign, id: InteractionId) -> DiagnosticShape {
    (
        CODE_INTERACTION_CYCLE@,
        "interaction sequence contains a cycle at "@ + id@,
        Some(design.interactions@[id@].source.node_id),
        Some(id),
    )
}

/// Cycle reports: interactions of the design in strictly increasing key
/// order, each lying on a sequence cycle.
pub open spec fn cycle_report_ok(design: &StudioDesign, ids: Seq<InteractionId>) -> bool {
    &&& forall|i: int| 0 <= i < ids.len() ==> design.interactions@.contains_key(#[trigger] ids[i]@)
    &&& forall|i: int| 0 <= i < ids.len() ==> on_sequence_cycle(design, #[trigger] ids[i]@)
    &&& forall|i: int, j: int| 0 <= i < j < ids.len() ==> crate::text::chars_before(#[trigger] ids[i]@, #[trigger] ids[j]@)
}

/// Whether interaction `id` is attached to node `node` as its source.
pub open spec fn attaches(design: &StudioDesign, node: Seq<char>, id: InteractionId) -> bool {
    design.interactions@.contains_key(id@) && design.interactions@[id@].source.node_id@ == node
}

/// The members of `ids`, in order, that have `node` as their source.
pub open spec fn attached_among(design: &StudioDesign, node: Seq<char>, ids: Seq<InteractionId>) -> Seq<InteractionId>
    decreases ids.len(),
{
    if ids.len() == 0 {
        Seq::empty()
    } else {
        let prev = attached_among(design, node, ids.drop_last());
        if attaches(design, node, ids.last()) {
            prev.push(ids.last())
        } else {
            prev
        }
    }
}

/// The interactions a node lists that have that node as their source.
pub open spec fn attached_ids(design: &StudioDesign, node: Seq<char>) -> Seq<InteractionId> {
    attached_among(design, node, design.nodes@[node].interaction_ids@)
}

/// A typed interaction graph used by both inspection and prototype execution.
#[derive(Debug, PartialEq)]
pub struct InteractionGraph {
    interactions: OrderedMap<InteractionId, InteractionInspectorEntry>,
    attached: OrderedMap<NodeId, Vec<InteractionId>>,
    sequence_edges: OrderedMap<InteractionId, Vec<InteractionId>>,
    diagnostics: Vec<DesignerDiagnostic>,
}

/// The shapes of a diagnostic vector.
pub open spec fn shapes(ds: Seq<DesignerDiagnostic>) -> Seq<DiagnosticShape> {
    ds.map_values(|d: DesignerDiagnostic| shape_of(d))
}

/// Every diagnostic is a link error.
pub open spec fn all_link_errors(ds: Seq<DesignerDiagnostic>) -> bool {
    forall|i: int| 0 <= i < ds.len() ==> is_link_error(#[trigger] ds[i])
}

/// Append `more` to `ds`.
fn append_diagnostics(ds: &mut Vec<DesignerDiagnostic>, more: Vec<DesignerDiagnostic>)
    ensures
        final(ds)@ == old(ds)@ + more@,
        shapes(final(ds)@) == shapes(old(ds)@) + shapes(more@),
        all_link_errors(old(ds)@) && all_link_errors(more@) ==> all_link_errors(final(ds)@),
{
    let mut more = more;
    let ghost a = ds@;
    let ghost b = more@;
    ds.append(&mut more);
    assert(shapes(ds@) =~= shapes(a) + shapes(b));
}

/// Diagnostics and adjacency row for the interactions sequenced by the
/// interaction at key position `i`.
fn target_part(design: &StudioDesign, i: usize, id: &InteractionId, src: &NodeId, targets: &Vec<InteractionId>) -> (r: (
    Vec<DesignerDiagnostic>,
    Vec<usize>,
))
    requires
        i < design.interactions.key_seq().len(),
        design.interactions.key_seq()[i as int] == id@,
        design.interactions@.contains_key(id@),
        targets@ == sequence_of(design.interactions@[id@].action),
    ensures
        shapes(r.0@) == missing_target_issues(design, *id, *src, targets@),
        all_link_errors(r.0@),
        forall|j: int| 0 <= j < r.1@.len() ==> #[trigger] r.1@[j] < design.interactions.key_seq().len()
            && sequence_edge(design, id@, design.interactions.key_seq()[r.1@[j] as int]),
{
    design.interactions.reveal_entries();
    let mut ds: Vec<DesignerDiagnostic> = Vec::new();
    let mut row: Vec<usize> = Vec::new();
    let n = targets.len();
    let mut k: usize = 0;
    while k < n
        invariant
            k <= n,
            n == targets@.len(),
            targets@ == sequence_of(design.interactions@[id@].action),
            design.interactions@.contains_key(id@),
            forall|q: Seq<char>| #[trigger] design.interactions@.contains_key(q) <==> design.interactions.key_seq().contains(q),
            shapes(ds@) == missing_target_issues(design, *id, *src, targets@.take(k as int)),
            all_link_errors(ds@),
            forall|j: int| 0 <= j < row@.len() ==> #[trigger] row@[j] < design.interactions.key_seq().len()
                && sequence_edge(design, id@, design.interactions.key_seq()[row@[j] as int]),
        decreases n - k,
    {
        let t = &targets[k];
        assert(targets@.take(k + 1).drop_last() == targets@.take(k as int));
        assert(targets@.take(k + 1).last() == targets@[k as int]);
        match design.interactions.find(t.as_str()) {
            Some(idx) => {
                assert(design.interactions.key_seq().contains(t@));
                assert(sequence_of(design.interactions@[id@].action)[k as int]@ == t@);
                assert(sequence_edge(design, id@, design.interactions.key_seq()[idx as int]));
                row.push(idx);
            },
            None => {
                let mut message = String::from_str("interaction ");
                message.append(id.as_str());
                message.append(" sequences missing interaction ");
                message.append(t.as_str());
                let d = link_error(
                    CODE_INTERACTION_TARGET_MISSING,
                    message,
                    Some(src.copy()),
                    Some(id.copy()),
                );
                let ghost before = ds@;
                ds.push(d);
                assert(shapes(ds@) =~= shapes(before).push(shape_of(d)));
            },
        }
        k = k + 1;
    }
    assert(targets@.take(n as int) == targets@);
    (ds, row)
}

/// Diagnostics for the source node and for the action target of one
/// interaction.
fn source_diagnostics(design: &StudioDesign, id: &InteractionId, interaction: &Interaction) -> (r: Vec<DesignerDiagnostic>)
    ensures
        shapes(r@) == source_issues(design, *id, *interaction),
        all_link_errors(r@),
{
    let mut ds: Vec<DesignerDiagnostic> = Vec::new();
    let src = &interaction.source.node_id;
    if !design.nodes.contains_key(src.as_str()) {
        let mut message = String::from_str("interaction ");
        message.append(id.as_str());
        message.append(" names missing source node ");
        message.append(src.as_str());
        ds.push(link_error(CODE_INTERACTION_SOURCE_MISSING, message, Some(src.copy()), Some(id.copy())));
        assert(shapes(ds@) =~= source_issues(design, *id, *interaction));
    } else {
        assert(shapes(ds@) =~= source_issues(design, *id, *interaction));
    }
    ds
}

/// Diagnostics for an action target that the design lacks.
fn action_diagnostics(design: &StudioDesign, id: &InteractionId, interaction: &Interaction) -> (r: Vec<DesignerDiagnostic>)
    ensures
        shapes(r@) == action_issues(design, *id, *interaction),
        all_link_errors(r@),
{
    let mut ds: Vec<DesignerDiagnostic> = Vec::new();
    let src = &interaction.source.node_id;
    match &interaction.action {
        InteractionAction::Navigate { screen_id, .. } => {
            if !design.screens.contains_key(screen_id.as_str()) {
                let mut message = String::from_str("interaction ");
                message.append(id.as_str());
                message.append(" navigates to missing screen ");
                message.append(screen_id.as_str());
                ds.push(link_error(CODE_INTERACTION_TARGET_MISSING, message, Some(src.copy()), Some(id.copy())));
            }
        },
        InteractionAction::SetProperty { node_id, .. } => {
            if !design.nodes.contains_key(node_id.as_str()) {
                let mut message = String::from_str("interaction ");
                message.append(id.as_str());
                message.append(" targets missing node ");
                message.append(node_id.as_str());
                ds.push(link_error(CODE_INTERACTION_TARGET_MISSING, message, Some(src.copy()), Some(id.copy())));
            }
        },
        InteractionAction::ToggleVisibility { node_id } => {
            if !design.nodes.contains_key(node_id.as_str()) {
                let mut message = String::from_str("interaction ");
                message.append(id.as_str());
                message.append(" targets missing node ");
                message.append(node_id.as_str());
                ds.push(link_error(CODE_INTERACTION_TARGET_MISSING, message, Some(src.copy()), Some(id.copy())));
            }
        },
        _ => {},
    }
    assert(shapes(ds@) =~= action_issues(design, *id, *interaction));
    ds
}

/// Inspector entries, sequence edges, reference diagnostics and the
/// sequence adjacency of a design's interactions.
fn interaction_part(design: &StudioDesign) -> (r: (
    OrderedMap<InteractionId, InteractionInspectorEntry>,
    OrderedMap<InteractionId, Vec<InteractionId>>,
    Vec<DesignerDiagnostic>,
    Vec<Vec<usize>>,
))
    ensures
        r.0.key_seq() == design.interactions.key_seq(),
        forall|j: int| 0 <= j < r.0.entry_seq().len() ==> entry_matches(design, design.interactions.key_seq()[j], #[trigger] r.0.entry_seq()[j].1),
        r.1.key_seq() == design.interactions.key_seq(),
        forall|j: int| 0 <= j < r.1.entry_seq().len() ==> (#[trigger] r.1.entry_seq()[j]).1@ == sequence_of(design.interactions.entry_seq()[j].1.action),
        shapes(r.2@) == interaction_issues(design, design.interactions.entry_seq()),
        all_link_errors(r.2@),
        adjacency_sound(design, r.3@),
{
    design.interactions.reveal_entries();
    let ghost entries = design.interactions.entry_seq();
    let ghost keys = design.interactions.key_seq();
    let n = design.interactions.len();
    let mut graph: OrderedMap<InteractionId, InteractionInspectorEntry> = OrderedMap::new();
    let mut sequences: OrderedMap<InteractionId, Vec<InteractionId>> = OrderedMap::new();
    let mut ds: Vec<DesignerDiagnostic> = Vec::new();
    let mut adj: Vec<Vec<usize>> = Vec::new();
    let mut i: usize = 0;
    while i < n
        invariant
            i <= n,
            n == entries.len(),
            entries == design.interactions.entry_seq(),
            keys == design.interactions.key_seq(),
            crate::ordered_map::strictly_sorted(keys),
            forall|q: Seq<char>| #[trigger] design.interactions@.contains_key(q) <==> keys.contains(q),
            forall|j: int| 0 <= j < entries.len() ==> #[trigger] design.interactions@[entries[j].0.key_view()] == entries[j].1,
            graph.key_seq() == keys.take(i as int),
            graph.entry_seq().len() == i,
            forall|j: int| 0 <= j < i ==> entry_matches(design, keys[j], #[trigger] graph.entry_seq()[j].1),
            sequences.key_seq() == keys.take(i as int),
            sequences.entry_seq().len() == i,
            forall|j: int| 0 <= j < i ==> (#[trigger] sequences.entry_seq()[j]).1@ == sequence_of(entries[j].1.action),
            shapes(ds@) == interaction_issues(design, entries.take(i as int)),
            all_link_errors(ds@),
            adj@.len() == i,
            forall|a: int, b: int|
                0 <= a < i && 0 <= b < adj@[a]@.len() ==> #[trigger] adj@[a]@[b] < keys.len()
                    && sequence_edge(design, keys[a], keys[adj@[a]@[b] as int]),
        decreases n - i,
    {
        let id = design.interactions.key_at(i);
        let interaction = design.interactions.value_at(i);
        assert(keys[i as int] == id@);
        assert(entries[i as int].0.key_view() == id@);
        assert(design.interactions@[id@] == *interaction);
        assert(keys.contains(id@));
        assert(entries.take(i + 1).drop_last() == entries.take(i as int));
        assert(entries.take(i + 1).last() == entries[i as int]);
        proof {
            if i > 0 {
                assert(graph.key_seq().last() == keys[i - 1]);
                assert(sequences.key_seq().last() == keys[i - 1]);
            }
        }
        let src = &interaction.source.node_id;
        let source_ds = source_diagnostics(design, id, interaction);
        let targets: Vec<InteractionId> = match &interaction.action {
            InteractionAction::Sequence { interaction_ids } => copy_ids(interaction_ids),
            _ => Vec::new(),
        };
        assert(targets@ == sequence_of(interaction.action));
        let (target_ds, row) = target_part(design, i, id, src, &targets);
        let action_ds = action_diagnostics(design, id, interaction);
        let ghost before = ds@;
        append_diagnostics(&mut ds, source_ds);
        append_diagnostics(&mut ds, target_ds);
        append_diagnostics(&mut ds, action_ds);
        assert(shapes(ds@) =~= interaction_issues(design, entries.take(i + 1)));
        let entry = InteractionInspectorEntry {
            interaction_id: id.copy(),
            source_node_id: src.copy(),
            source_screen_id: screen_screen_id(design, src),
            event: interaction.source.event,
            action: interaction.action.copy(),
        };
        graph.push_last(id.copy(), entry);
        assert(graph.key_seq() =~= keys.take(i + 1));
        sequences.push_last(id.copy(), targets);
        assert(sequences.key_seq() =~= keys.take(i + 1));
        adj.push(row);
        i = i + 1;
    }
    assert(entries.take(n as int) == entries);
    assert(keys.take(n as int) == keys);
    (graph, sequences, ds, adj)
}

/// Cycle diagnostics for the flagged interaction positions, in key order.
fn cycle_diagnostics(design: &StudioDesign, flags: &Vec<bool>) -> (r: (Vec<DesignerDiagnostic>, Ghost<Seq<InteractionId>>))
    requires
        flags@.len() == design.interactions.key_seq().len(),
        flags_sound(design, flags@),
    ensures
        cycle_report_ok(design, r.1@),
        shapes(r.0@) == r.1@.map_values(|id: InteractionId| cycle_shape(design, id)),
        all_link_errors(r.0@),
{
    design.interactions.reveal_entries();
    let ghost entries = design.interactions.entry_seq();
    let ghost keys = design.interactions.key_seq();
    let n = flags.len();
    let mut ds: Vec<DesignerDiagnostic> = Vec::new();
    let ghost mut ids: Seq<InteractionId> = Seq::empty();
    let ghost mut ps: Seq<int> = Seq::empty();
    let mut i: usize = 0;
    while i < n
        invariant
            i <= n,
            n == flags@.len(),
            n == keys.len(),
            entries == design.interactions.entry_seq(),
            keys == design.interactions.key_seq(),
            flags_sound(design, flags@),
            crate::ordered_map::strictly_sorted(keys),
            forall|q: Seq<char>| #[trigger] design.interactions@.contains_key(q) <==> keys.contains(q),
            forall|j: int| 0 <= j < entries.len() ==> #[trigger] design.interactions@[entries[j].0.key_view()] == entries[j].1,
            ids.len() == ps.len(),
            forall|j: int| 0 <= j < ps.len() ==> 0 <= #[trigger] ps[j] < i,
            forall|a: int, b: int| 0 <= a < b < ps.len() ==> #[trigger] ps[a] < #[trigger] ps[b],
            forall|j: int| 0 <= j < ids.len() ==> #[trigger] ids[j] == entries[ps[j]].0,
            forall|j: int| 0 <= j < ids.len() ==> on_sequence_cycle(design, #[trigger] ids[j]@),
            shapes(ds@) == ids.map_values(|id: InteractionId| cycle_shape(design, id)),
            all_link_errors(ds@),
        decreases n - i,
    {
        if flags[i] {
            let id = design.interactions.key_at(i);
            let interaction = design.interactions.value_at(i);
            assert(keys[i as int] == id@);
            assert(entries[i as int].0.key_view() == id@);
            let mut message = String::from_str("interaction sequence contains a cycle at ");
            message.append(id.as_str());
            let d = link_error(
                CODE_INTERACTION_CYCLE,
                message,
                Some(interaction.source.node_id.copy()),
                Some(id.copy()),
            );
            let ghost before = ds@;
            ds.push(d);
            proof {
                let f = |id: InteractionId| cycle_shape(design, id);
                assert(shapes(ds@) =~= shapes(before).push(shape_of(d)));
                assert(ids.push(*id).map_values(f) =~= ids.map_values(f).push(f(*id)));
                ids = ids.push(*id);
                ps = ps.push(i as int);
            }
        }
        i = i + 1;
    }
    proof {
        assert forall|i: int| 0 <= i < ids.len() implies design.interactions@.contains_key(#[trigger] ids[i]@) by {
            assert(keys[ps[i]] == ids[i]@);
        }
        assert forall|a: int, b: int| 0 <= a < b < ids.len() implies crate::text::chars_before(#[trigger] ids[a]@, #[trigger] ids[b]@) by {
            assert(keys[ps[a]] == ids[a]@);
            assert(keys[ps[b]] == ids[b]@);
            assert(ps[a] < ps[b]);
        }
    }
    (ds, Ghost(ids))
}

proof fn lemma_attached_step(design: &StudioDesign, node: Seq<char>, ids: Seq<InteractionId>, j: int)
    requires
        0 <= j < ids.len(),
    ensures
        attached_among(design, node, ids.take(j + 1)) == if attaches(design, node, ids[j]) {
            attached_among(design, node, ids.take(j)).push(ids[j])
        } else {
            attached_among(design, node, ids.take(j))
        },
{
    assert(ids.take(j + 1).drop_last() == ids.take(j));
    assert(ids.take(j + 1).last() == ids[j]);
}

/// The interactions of `ids` that have `node` as their source.
fn attached_of(design: &StudioDesign, node: &NodeId, ids: &Vec<InteractionId>) -> (r: Vec<InteractionId>)
    ensures
        r@ == attached_among(design, node@, ids@),
{
    let mut out: Vec<InteractionId> = Vec::new();
    let mut j: usize = 0;
    while j < ids.len()
        invariant
            j <= ids@.len(),
            out@ == attached_among(design, node@, ids@.take(j as int)),
        decreases ids@.len() - j,
    {
        proof {
            lemma_attached_step(design, node@, ids@, j as int);
        }
        let id = &ids[j];
        match design.interactions.get(id.as_str()) {
            Some(interaction) => {
                if interaction.source.node_id.same(node) {
                    out.push(id.copy());
                }
            },
            None => {},
        }
        j = j + 1;
    }
    assert(ids@.take(ids@.len() as int) == ids@);
    out
}

/// Nodes with their attached interactions, for nodes that have any.
fn attached_part(design: &StudioDesign) -> (r: OrderedMap<NodeId, Vec<InteractionId>>)
    ensures
        forall|k: Seq<char>| #[trigger] r@.contains_key(k) <==> (design.nodes@.contains_key(k) && attached_ids(design, k).len() > 0),
        forall|k: Seq<char>| #[trigger] r@.contains_key(k) ==> r@[k]@ == attached_ids(design, k),
{
    design.nodes.reveal_entries();
    let ghost entries = design.nodes.entry_seq();
    let ghost keys = design.nodes.key_seq();
    let n = design.nodes.len();
    let mut out: OrderedMap<NodeId, Vec<InteractionId>> = OrderedMap::new();
    let mut i: usize = 0;
    while i < n
        invariant
            i <= n,
            n == keys.len(),
            entries == design.nodes.entry_seq(),
            keys == design.nodes.key_seq(),
            forall|q: Seq<char>| #[trigger] design.nodes@.contains_key(q) <==> keys.contains(q),
            forall|j: int| 0 <= j < entries.len() ==> #[trigger] design.nodes@[entries[j].0.key_view()] == entries[j].1,
            forall|k: Seq<char>| #[trigger] out@.contains_key(k) <==> (keys.take(i as int).contains(k) && attached_ids(design, k).len() > 0),
            forall|k: Seq<char>| #[trigger] out@.contains_key(k) ==> out@[k]@ == attached_ids(design, k),
        decreases n - i,
    {
        let node_id = design.nodes.key_at(i);
        let node = design.nodes.value_at(i);
        assert(keys[i as int] == node_id@);
        assert(entries[i as int].0.key_view() == node_id@);
        let ids = attached_of(design, node_id, &node.interaction_ids);
        assert(ids@ == attached_ids(design, node_id@));
        if ids.len() > 0 {
            out.insert(node_id.copy(), ids);
        }
        assert forall|k: Seq<char>| keys.take(i + 1).contains(k) <==> (keys.take(i as int).contains(k) || k == node_id@) by {
            if keys.take(i + 1).contains(k) {
                let m = choose|m: int| 0 <= m < i + 1 && #[trigger] keys.take(i + 1)[m] == k;
                if m < i {
                    assert(keys.take(i as int)[m] == k);
                }
            }
            if keys.take(i as int).contains(k) {
                let m = choose|m: int| 0 <= m < i && #[trigger] keys.take(i as int)[m] == k;
                assert(keys.take(i + 1)[m] == k);
            }
            assert(keys.take(i + 1)[i as int] == node_id@);
        }
        i = i + 1;
    }
    assert(keys.take(n as int) == keys);
    out
}

/// The inspector entries of `es`, in order, whose source is `node` and that
/// react to `event`.
pub open spec fn entries_from_node(es: Seq<InteractionInspectorEntry>, node: Seq<char>, event: InteractionEvent) -> Seq<InteractionInspectorEntry>
    decreases es.len(),
{
    if es.len() == 0 {
        Seq::empty()
    } else {
        let prev = entries_from_node(es.drop_last(), node, event);
        if es.last().source_node_id@ == node && es.last().event == event {
            prev.push(es.last())
        } else {
            prev
        }
    }
}

/// The entries named by `ids`, in order, that exist and react to `event`.
pub open spec fn entries_named(entries: Map<Seq<char>, InteractionInspectorEntry>, ids: Seq<InteractionId>, event: InteractionEvent) -> Seq<InteractionInspectorEntry>
    decreases ids.len(),
{
    if ids.len() == 0 {
        Seq::empty()
    } else {
        let prev = entries_named(entries, ids.drop_last(), event);
        if entries.contains_key(ids.last()@) && entries[ids.last()@].event == event {
            prev.push(entries[ids.last()@])
        } else {
            prev
        }
    }
}

/// The entries of a reference vector.
pub open spec fn derefs(v: Seq<&InteractionInspectorEntry>) -> Seq<InteractionInspectorEntry> {
    v.map_values(|e: &InteractionInspectorEntry| *e)
}

impl InteractionGraph {
    /// Entries by interaction identity.
    pub closed spec fn entry_view(&self) -> Map<Seq<char>, InteractionInspectorEntry> {
        self.interactions@
    }

    /// Entries in interaction identity order.
    pub closed spec fn entry_list(&self) -> Seq<InteractionInspectorEntry> {
        self.interactions.entry_seq().map_values(|e: (InteractionId, InteractionInspectorEntry)| e.1)
    }

    /// Attached interactions by node identity.
    pub closed spec fn attached_view(&self) -> Map<Seq<char>, Vec<InteractionId>> {
        self.attached@
    }

    /// Sequence targets by interaction identity.
    pub closed spec fn sequence_view(&self) -> Map<Seq<char>, Vec<InteractionId>> {
        self.sequence_edges@
    }

    /// Diagnostics in order.
    pub closed spec fn diagnostic_seq(&self) -> Seq<DesignerDiagnostic> {
        self.diagnostics@
    }

    /// Derive the interaction graph and retain all source-linked diagnostics.
    pub fn from_design(design: &StudioDesign) -> (r: Self)
        ensures
            r.entry_view().dom() == design.interactions@.dom(),
            forall|k: Seq<char>| #[trigger] r.entry_view().contains_key(k) ==> entry_matches(design, k, r.entry_view()[k]),
            r.entry_list().len() == design.interactions.entry_seq().len(),
            forall|j: int| 0 <= j < r.entry_list().len() ==> entry_matches(design, design.interactions.key_seq()[j], #[trigger] r.entry_list()[j]),
            r.sequence_view().dom() == design.interactions@.dom(),
            forall|k: Seq<char>| #[trigger] r.sequence_view().contains_key(k) ==> r.sequence_view()[k]@ == sequence_of(design.interactions@[k].action),
            forall|k: Seq<char>| #[trigger] r.attached_view().contains_key(k) <==> (design.nodes@.contains_key(k) && attached_ids(design, k).len() > 0),
            forall|k: Seq<char>| #[trigger] r.attached_view().contains_key(k) ==> r.attached_view()[k]@ == attached_ids(design, k),
            exists|ids: Seq<InteractionId>| #[trigger] cycle_report_ok(design, ids) && shapes(r.diagnostic_seq()) == interaction_issues(design, design.interactions.entry_seq()) + ids.map_values(|id: InteractionId| cycle_shape(design, id)),
            all_link_errors(r.diagnostic_seq()),
    {
        let (interactions, sequence_edges, mut diagnostics, adj) = interaction_part(design);
        let flags = find_cycle_flags(design, &adj);
        let (cycle_ds, Ghost(ids)) = cycle_diagnostics(design, &flags);
        append_diagnostics(&mut diagnostics, cycle_ds);
        let attached = attached_part(design);
        let r = InteractionGraph { interactions, attached, sequence_edges, diagnostics };
        design.interactions.reveal_entries();
        r.interactions.reveal_entries();
        r.sequence_edges.reveal_entries();
        proof {
            assert(cycle_report_ok(design, ids));
            assert forall|k: Seq<char>| #[trigger] r.interactions@.contains_key(k) implies entry_matches(design, k, r.interactions@[k]) by {
                let j = r.interactions.key_seq().index_of(k);
                assert(r.interactions.entry_seq()[j].0.key_view() == k);
            }
            assert(r.interactions@.dom() =~= design.interactions@.dom());
            assert forall|k: Seq<char>| #[trigger] r.sequence_edges@.contains_key(k) implies r.sequence_edges@[k]@ == sequence_of(design.interactions@[k].action) by {
                let j = r.sequence_edges.key_seq().index_of(k);
                assert(r.sequence_edges.entry_seq()[j].0.key_view() == k);
                assert(design.interactions.entry_seq()[j].0.key_view() == k);
            }
            assert(r.sequence_edges@.dom() =~= design.interactions@.dom());
        }
        r
    }

    /// Return all entries in stable interaction identity order.
    pub fn entries(&self) -> (r: &OrderedMap<InteractionId, InteractionInspectorEntry>)
        ensures
            r@ == self.entry_view(),
            r.entry_seq().map_values(|e: (InteractionId, InteractionInspectorEntry)| e.1) == self.entry_list(),
    {
        &self.interactions
    }

    /// Return one interaction's inspector projection.
    pub fn entry(&self, interaction_id: &InteractionId) -> (r: Option<&InteractionInspectorEntry>)
        ensures
            match r {
                Some(e) => self.entry_view().contains_key(interaction_id@) && *e == self.entry_view()[interaction_id@],
                None => !self.entry_view().contains_key(interaction_id@),
            },
    {
        self.interactions.get(interaction_id.as_str())
    }

    /// The interactions activated by one node event: those the node lists as
    /// attached, or, for a node with none attached, every interaction whose
    /// source is the node.
    pub open spec fn inspect_result(&self, node: Seq<char>, event: InteractionEvent) -> Seq<InteractionInspectorEntry> {
        if self.attached_view().contains_key(node) {
            entries_named(self.entry_view(), self.attached_view()[node]@, event)
        } else {
            entries_from_node(self.entry_list(), node, event)
        }
    }

    /// Return the interactions activated by one node event.
    pub fn inspect(&self, node_id: &NodeId, event: InteractionEvent) -> (r: Vec<&InteractionInspectorEntry>)
        ensures
            derefs(r@) == self.inspect_result(node_id@, event),
    {
        let mut out: Vec<&InteractionInspectorEntry> = Vec::new();
        match self.attached.get(node_id.as_str()) {
            Some(ids) => {
                let mut j: usize = 0;
                while j < ids.len()
                    invariant
                        j <= ids@.len(),
                        *ids == self.attached_view()[node_id@],
                        self.attached_view().contains_key(node_id@),
                        derefs(out@) == entries_named(self.entry_view(), ids@.take(j as int), event),
                    decreases ids@.len() - j,
                {
                    assert(ids@.take(j + 1).drop_last() == ids@.take(j as int));
                    assert(ids@.take(j + 1).last() == ids@[j as int]);
                    let ghost before = out@;
                    match self.interactions.get(ids[j].as_str()) {
                        Some(e) => {
                            if e.event == event {
                                out.push(e);
                                assert(derefs(out@) =~= derefs(before).push(*e));
                            }
                        },
                        None => {},
                    }
                    j = j + 1;
                }
                assert(ids@.take(ids@.len() as int) == ids@);
            },
            None => {
                let n = self.interactions.len();
                let ghost list = self.entry_list();
                let mut i: usize = 0;
                while i < n
                    invariant
                        i <= n,
                        n == self.interactions.entry_seq().len(),
                        list == self.entry_list(),
                        list == self.interactions.entry_seq().map_values(|e: (InteractionId, InteractionInspectorEntry)| e.1),
                        derefs(out@) == entries_from_node(list.take(i as int), node_id@, event),
                    decreases n - i,
                {
                    assert(list.take(i + 1).drop_last() == list.take(i as int));
                    assert(list.take(i + 1).last() == list[i as int]);
                    let e = self.interactions.value_at(i);
                    let ghost before = out@;
                    if e.source_node_id.same(node_id) && e.event == event {
                        out.push(e);
                        assert(derefs(out@) =~= derefs(before).push(*e));
                    }
                    i = i + 1;
                }
                assert(list.take(n as int) == list);
            },
        }
        out
    }

    /// Alias for [`Self::inspect`] used by event-inspector consumers.
    pub fn event_inspector(&self, node_id: &NodeId, event: InteractionEvent) -> (r: Vec<&InteractionInspectorEntry>)
        ensures
            derefs(r@) == self.inspect_result(node_id@, event),
    {
        self.inspect(node_id, event)
    }

    /// Return nested interaction IDs for one sequence action.
    pub fn sequence_targets(&self, interaction_id: &InteractionId) -> (r: &[InteractionId])
        ensures
            r@ == if self.sequence_view().contains_key(interaction_id@) {
                self.sequence_view()[interaction_id@]@
            } else {
                Seq::empty()
            },
    {
        match self.sequence_edges.get(interaction_id.as_str()) {
            Some(v) => v.as_slice(),
            None => &[],
        }
    }

    /// Return source-linked graph diagnostics in deterministic order.
    pub fn diagnostics(&self) -> (r: &[DesignerDiagnostic])
        ensures
            r@ == self.diagnostic_seq(),
    {
        self.diagnostics.as_slice()
    }

    /// Return whether no missing references or sequence cycles were found.
    pub fn is_valid(&self) -> (r: bool)
        ensures
            r == (self.diagnostic_seq().len() == 0),
    {
        self.diagnostics.len() == 0
    }
}

/// A deterministic route and navigation graph derived from one design.
#[derive(Debug, PartialEq, Eq)]
pub struct NavigationGraph {
    screens: OrderedMap<ScreenId, NavigationScreen>,
    routes: OrderedMap<String, ScreenId>,
    edges: OrderedMap<InteractionId, NavigationEdge>,
    diagnostics: Vec<DesignerDiagnostic>,
}

/// The edges of `es`, in order, whose source screen is `screen`.
pub open spec fn edges_from(es: Seq<NavigationEdge>, screen: Seq<char>) -> Seq<NavigationEdge>
    decreases es.len(),
{
    if es.len() == 0 {
        Seq::empty()
    } else {
        let prev = edges_from(es.drop_last(), screen);
        if es.last().source_screen_id matches Some(s) && s@ == screen {
            prev.push(es.last())
        } else {
            prev
        }
    }
}

/// The edges of a reference vector.
pub open spec fn edge_derefs(v: Seq<&NavigationEdge>) -> Seq<NavigationEdge> {
    v.map_values(|e: &NavigationEdge| *e)
}

/// The navigation edges declared by a design's interactions.
fn edge_part(design: &StudioDesign) -> (r: OrderedMap<InteractionId, NavigationEdge>)
    ensures
        forall|k: Seq<char>| #[trigger] r@.contains_key(k) <==> navigates(design, k),
        forall|k: Seq<char>| #[trigger] r@.contains_key(k) ==> edge_matches(design, k, r@[k]),
{
    design.interactions.reveal_entries();
    let ghost entries = design.interactions.entry_seq();
    let ghost keys = design.interactions.key_seq();
    let n = design.interactions.len();
    let mut out: OrderedMap<InteractionId, NavigationEdge> = OrderedMap::new();
    let mut i: usize = 0;
    while i < n
        invariant
            i <= n,
            n == keys.len(),
            entries == design.interactions.entry_seq(),
            keys == design.interactions.key_seq(),
            forall|q: Seq<char>| #[trigger] design.interactions@.contains_key(q) <==> keys.contains(q),
            forall|j: int| 0 <= j < entries.len() ==> #[trigger] design.interactions@[entries[j].0.key_view()] == entries[j].1,
            forall|k: Seq<char>| #[trigger] out@.contains_key(k) <==> (keys.take(i as int).contains(k) && navigates(design, k)),
            forall|k: Seq<char>| #[trigger] out@.contains_key(k) ==> edge_matches(design, k, out@[k]),
        decreases n - i,
    {
        let id = design.interactions.key_at(i);
        let interaction = design.interactions.value_at(i);
        assert(keys[i as int] == id@);
        assert(entries[i as int].0.key_view() == id@);
        assert(keys.contains(id@));
        match &interaction.action {
            InteractionAction::Navigate { screen_id, mode } => {
                let edge = NavigationEdge {
                    interaction_id: id.copy(),
                    source_node_id: interaction.source.node_id.copy(),
                    source_screen_id: screen_screen_id(design, &interaction.source.node_id),
                    target_screen_id: screen_id.copy(),
                    mode: *mode,
                };
                out.insert(id.copy(), edge);
            },
            _ => {},
        }
        assert forall|k: Seq<char>| keys.take(i + 1).contains(k) <==> (keys.take(i as int).contains(k) || k == id@) by {
            if keys.take(i + 1).contains(k) {
                let m = choose|m: int| 0 <= m < i + 1 && #[trigger] keys.take(i + 1)[m] == k;
                if m < i {
                    assert(keys.take(i as int)[m] == k);
                }
            }
            if keys.take(i as int).contains(k) {
                let m = choose|m: int| 0 <= m < i && #[trigger] keys.take(i as int)[m] == k;
                assert(keys.take(i + 1)[m] == k);
            }
            assert(keys.take(i + 1)[i as int] == id@);
        }
        i = i + 1;
    }
    assert(keys.take(n as int) == keys);
    out
}

impl NavigationGraph {
    /// Screens by identity.
    pub closed spec fn screen_view(&self) -> Map<Seq<char>, NavigationScreen> {
        self.screens@
    }

    /// Screens by canonical route.
    pub closed spec fn route_view(&self) -> Map<Seq<char>, ScreenId> {
        self.routes@
    }

    /// Edges by interaction identity.
    pub closed spec fn edge_view(&self) -> Map<Seq<char>, NavigationEdge> {
        self.edges@
    }

    /// Edges in interaction identity order.
    pub closed spec fn edge_list(&self) -> Seq<NavigationEdge> {
        self.edges.entry_seq().map_values(|e: (InteractionId, NavigationEdge)| e.1)
    }

    /// Diagnostics in order.
    pub closed spec fn diagnostic_seq(&self) -> Seq<DesignerDiagnostic> {
        self.diagnostics@
    }

    /// Derive a graph without constructing or mutating any runtime or UI
    /// object. Invalid references remain represented in the diagnostics.
    pub fn from_design(design: &StudioDesign) -> (r: Self)
        ensures
            r.screen_view().dom() == design.screens@.dom(),
            forall|k: Seq<char>| #[trigger] r.screen_view().contains_key(k) ==> r.screen_view()[k] == navigation_screen(design.screens@[k]),
            r.route_view() == route_index(design.screens.entry_seq()),
            forall|k: Seq<char>| #[trigger] r.route_view().contains_key(k) ==> route_is_valid(k)
                && r.screen_view().contains_key(r.route_view()[k]@) && r.screen_view()[r.route_view()[k]@].route@ == k,
            forall|k: Seq<char>| #[trigger] r.edge_view().contains_key(k) <==> navigates(design, k),
            forall|k: Seq<char>| #[trigger] r.edge_view().contains_key(k) ==> edge_matches(design, k, r.edge_view()[k]),
            exists|ids: Seq<InteractionId>| #[trigger] cycle_report_ok(design, ids) && shapes(r.diagnostic_seq()) == route_issues(design.screens.entry_seq()) + interaction_issues(design, design.interactions.entry_seq()) + ids.map_values(|id: InteractionId| cycle_shape(design, id)),
            all_link_errors(r.diagnostic_seq()),
    {
        let (screens, routes, mut diagnostics) = route_part(design);
        let graph = InteractionGraph::from_design(design);
        let ghost route_ds = diagnostics@;
        let mut copied: Vec<DesignerDiagnostic> = Vec::new();
        let gd = graph.diagnostics();
        let mut j: usize = 0;
        while j < gd.len()
            invariant
                j <= gd@.len(),
                copied@ == gd@.take(j as int),
            decreases gd@.len() - j,
        {
            copied.push(gd[j].copy());
            assert(copied@ =~= gd@.take(j + 1));
            j = j + 1;
        }
        assert(gd@.take(gd@.len() as int) == gd@);
        append_diagnostics(&mut diagnostics, copied);
        let edges = edge_part(design);
        let r = NavigationGraph { screens, routes, edges, diagnostics };
        proof {
            let ids = choose|ids: Seq<InteractionId>| #[trigger] cycle_report_ok(design, ids) && shapes(graph.diagnostic_seq()) == interaction_issues(design, design.interactions.entry_seq()) + ids.map_values(|id: InteractionId| cycle_shape(design, id));
            assert(shapes(r.diagnostics@) =~= route_issues(design.screens.entry_seq()) + interaction_issues(design, design.interactions.entry_seq()) + ids.map_values(|id: InteractionId| cycle_shape(design, id)));
            assert(cycle_report_ok(design, ids));
        }
        r
    }

    /// Alias for [`Self::from_design`] convenient for domain callers.
    pub fn new(design: &StudioDesign) -> (r: Self)
        ensures
            r.screen_view().dom() == design.screens@.dom(),
            forall|k: Seq<char>| #[trigger] r.screen_view().contains_key(k) ==> r.screen_view()[k] == navigation_screen(design.screens@[k]),
            r.route_view() == route_index(design.screens.entry_seq()),
            forall|k: Seq<char>| #[trigger] r.route_view().contains_key(k) ==> route_is_valid(k)
                && r.screen_view().contains_key(r.route_view()[k]@) && r.screen_view()[r.route_view()[k]@].route@ == k,
            forall|k: Seq<char>| #[trigger] r.edge_view().contains_key(k) <==> navigates(design, k),
            forall|k: Seq<char>| #[trigger] r.edge_view().contains_key(k) ==> edge_matches(design, k, r.edge_view()[k]),
            exists|ids: Seq<InteractionId>| #[trigger] cycle_report_ok(design, ids) && shapes(r.diagnostic_seq()) == route_issues(design.screens.entry_seq()) + interaction_issues(design, design.interactions.entry_seq()) + ids.map_values(|id: InteractionId| cycle_shape(design, id)),
            all_link_errors(r.diagnostic_seq()),
    {
        Self::from_design(design)
    }

    /// Return all screens in stable identity order.
    pub fn screens(&self) -> (r: &OrderedMap<ScreenId, NavigationScreen>)
        ensures
            r@ == self.screen_view(),
    {
        &self.screens
    }

    /// Return the screen selected by a canonical route.
    pub fn screen_for_route(&self, route: &str) -> (r: Option<&ScreenId>)
        ensures
            match r {
                Some(id) => self.route_view().contains_key(route@) && *id == self.route_view()[route@],
                None => !self.route_view().contains_key(route@),
            },
    {
        self.routes.get(route)
    }

    /// Return a route for a stable screen identity.
    pub fn route_for_screen(&self, screen_id: &ScreenId) -> (r: Option<&str>)
        ensures
            match r {
                Some(route) => self.screen_view().contains_key(screen_id@) && route@ == self.screen_view()[screen_id@].route@,
                None => !self.screen_view().contains_key(screen_id@),
            },
    {
        match self.screens.get(screen_id.as_str()) {
            Some(screen) => Some(screen.route.as_str()),
            None => None,
        }
    }

    /// Return one screen by identity.
    pub fn screen(&self, screen_id: &ScreenId) -> (r: Option<&NavigationScreen>)
        ensures
            match r {
                Some(s) => self.screen_view().contains_key(screen_id@) && *s == self.screen_view()[screen_id@],
                None => !self.screen_view().contains_key(screen_id@),
            },
    {
        self.screens.get(screen_id.as_str())
    }

    /// Return all declared navigation edges in stable interaction order.
    pub fn edges(&self) -> (r: &OrderedMap<InteractionId, NavigationEdge>)
        ensures
            r@ == self.edge_view(),
            r.entry_seq().map_values(|e: (InteractionId, NavigationEdge)| e.1) == self.edge_list(),
    {
        &self.edges
    }

    /// Return edges originating from one screen, in interaction order.
    pub fn outgoing(&self, screen_id: &ScreenId) -> (r: Vec<&NavigationEdge>)
        ensures
            edge_derefs(r@) == edges_from(self.edge_list(), screen_id@),
    {
        let mut out: Vec<&NavigationEdge> = Vec::new();
        let n = self.edges.len();
        let ghost list = self.edge_list();
        let mut i: usize = 0;
        while i < n
            invariant
                i <= n,
                n == self.edges.entry_seq().len(),
                list == self.edge_list(),
                list == self.edges.entry_seq().map_values(|e: (InteractionId, NavigationEdge)| e.1),
                edge_derefs(out@) == edges_from(list.take(i as int), screen_id@),
            decreases n - i,
        {
            assert(list.take(i + 1).drop_last() == list.take(i as int));
            assert(list.take(i + 1).last() == list[i as int]);
            let e = self.edges.value_at(i);
            let ghost before = out@;
            let hit = match &e.source_screen_id {
                Some(s) => s.same(screen_id),
                None => false,
            };
            if hit {
                out.push(e);
                assert(edge_derefs(out@) =~= edge_derefs(before).push(*e));
            }
            i = i + 1;
        }
        assert(list.take(n as int) == list);
        out
    }

    /// Return source-linked graph diagnostics in deterministic order.
    pub fn diagnostics(&self) -> (r: &[DesignerDiagnostic])
        ensures
            r@ == self.diagnostic_seq(),
    {
        self.diagnostics.as_slice()
    }

    /// Return whether this graph has no invalid route or interaction links.
    pub fn is_valid(&self) -> (r: bool)
        ensures
            r == (self.diagnostic_seq().len() == 0),
    {
        self.diagnostics.len() == 0
    }
}

} // verus!
