//! Scoped access to the host-owned Designer session seam.
//!
//! Every read and mutation an untrusted caller needs must be granted
//! explicitly; a scope starts empty. The checks below decide, from the
//! current snapshot alone, whether an operation may reach the session.
use vstd::prelude::*;

use crate::command::{Command, CommandBatch, CommandPrecondition, HistoryEntry};
use crate::ids::{NodeId, OperationId, ProjectId};
use crate::model::{NodeParent, StudioDesign, StudioDesignSnapshot};
use crate::session::{DesignerQuery, HistoryOperation, HistorySnapshot};
use crate::text::{
    KeyOrder, chars_before, compare_strs, lemma_before_asymmetric, lemma_before_irreflexive,
    lemma_before_total, lemma_before_transitive,
};

verus! {

/// A capability that may be granted to one untrusted Designer caller.
#[derive(Clone, Debug, PartialEq, Eq)]
pub enum DesignerCapability {
    /// Read the complete project snapshot.
    ProjectRead,
    /// Read the session-owned selection and presentation state.
    SelectionRead,
    /// Read one node and its descendants.
    SubtreeRead(NodeId),
    /// Read command-schema metadata when a channel exposes it.
    SchemasRead,
    /// Read authoring diagnostics.
    DiagnosticsRead,
    /// Read immutable revision history.
    HistoryRead,
    /// Submit commands anywhere in the bound project.
    CommandWrite,
    /// Submit commands only within one node subtree.
    SubtreeWrite(NodeId),
    /// Apply undo or redo within the caller's command scope.
    HistoryWrite,
}

pub const RANK_PROJECT_READ: u8 = 0;
pub const RANK_SELECTION_READ: u8 = 1;
pub const RANK_SUBTREE_READ: u8 = 2;
pub const RANK_SCHEMAS_READ: u8 = 3;
pub const RANK_DIAGNOSTICS_READ: u8 = 4;
pub const RANK_HISTORY_READ: u8 = 5;
pub const RANK_COMMAND_WRITE: u8 = 6;
pub const RANK_SUBTREE_WRITE: u8 = 7;
pub const RANK_HISTORY_WRITE: u8 = 8;

/// The identity of a capability: its variant position and its subtree root
/// (empty for capabilities without a root).
pub type CapKey = (u8, Seq<char>);

impl DesignerCapability {
    pub open spec fn key(self) -> CapKey {
        match self {
            DesignerCapability::ProjectRead => (RANK_PROJECT_READ, Seq::empty()),
            DesignerCapability::SelectionRead => (RANK_SELECTION_READ, Seq::empty()),
            DesignerCapability::SubtreeRead(root) => (RANK_SUBTREE_READ, root@),
            DesignerCapability::SchemasRead => (RANK_SCHEMAS_READ, Seq::empty()),
            DesignerCapability::DiagnosticsRead => (RANK_DIAGNOSTICS_READ, Seq::empty()),
            DesignerCapability::HistoryRead => (RANK_HISTORY_READ, Seq::empty()),
            DesignerCapability::CommandWrite => (RANK_COMMAND_WRITE, Seq::empty()),
            DesignerCapability::SubtreeWrite(root) => (RANK_SUBTREE_WRITE, root@),
            DesignerCapability::HistoryWrite => (RANK_HISTORY_WRITE, Seq::empty()),
        }
    }

    fn rank(&self) -> (r: u8)
        ensures
            r == self.key().0,
    {
        match self {
            DesignerCapability::ProjectRead => RANK_PROJECT_READ,
            DesignerCapability::SelectionRead => RANK_SELECTION_READ,
            DesignerCapability::SubtreeRead(_) => RANK_SUBTREE_READ,
            DesignerCapability::SchemasRead => RANK_SCHEMAS_READ,
            DesignerCapability::DiagnosticsRead => RANK_DIAGNOSTICS_READ,
            DesignerCapability::HistoryRead => RANK_HISTORY_READ,
            DesignerCapability::CommandWrite => RANK_COMMAND_WRITE,
            DesignerCapability::SubtreeWrite(_) => RANK_SUBTREE_WRITE,
            DesignerCapability::HistoryWrite => RANK_HISTORY_WRITE,
        }
    }

    fn root_str(&self) -> (r: &str)
        ensures
            r@ == self.key().1,
    {
        match self {
            DesignerCapability::SubtreeRead(root) => root.as_str(),
            DesignerCapability::SubtreeWrite(root) => root.as_str(),
            _ => {
                proof {
                    reveal_strlit("");
                }
                ""
            },
        }
    }

    /// A copy of this capability.
    pub fn copy(&self) -> (r: Self)
        ensures
            r == *self,
    {
        match self {
            DesignerCapability::SubtreeRead(root) => DesignerCapability::SubtreeRead(root.copy()),
            DesignerCapability::SubtreeWrite(root) => DesignerCapability::SubtreeWrite(root.copy()),
            DesignerCapability::ProjectRead => DesignerCapability::ProjectRead,
            DesignerCapability::SelectionRead => DesignerCapability::SelectionRead,
            DesignerCapability::SchemasRead => DesignerCapability::SchemasRead,
            DesignerCapability::DiagnosticsRead => DesignerCapability::DiagnosticsRead,
            DesignerCapability::HistoryRead => DesignerCapability::HistoryRead,
            DesignerCapability::CommandWrite => DesignerCapability::CommandWrite,
            DesignerCapability::HistoryWrite => DesignerCapability::HistoryWrite,
        }
    }
}

/// Capability order: by variant, then by subtree root.
pub open spec fn key_before(a: CapKey, b: CapKey) -> bool {
    a.0 < b.0 || (a.0 == b.0 && chars_before(a.1, b.1))
}

pub open spec fn caps_sorted(caps: Seq<DesignerCapability>) -> bool {
    forall|i: int, j: int| 0 <= i < j < caps.len() ==> key_before(caps[i].key(), caps[j].key())
}

proof fn lemma_key_order(a: CapKey, b: CapKey, c: CapKey)
    ensures
        !key_before(a, a),
        key_before(a, b) ==> !key_before(b, a),
        a != b ==> key_before(a, b) || key_before(b, a),
        key_before(a, b) && key_before(b, c) ==> key_before(a, c),
{
    lemma_before_irreflexive(a.1);
    lemma_before_asymmetric(a.1, b.1);
    lemma_before_total(a.1, b.1);
    lemma_before_transitive(a.1, b.1, c.1);
}

fn compare_caps(a: &DesignerCapability, b: &DesignerCapability) -> (r: KeyOrder)
    ensures
        (r == KeyOrder::Less) == key_before(a.key(), b.key()),
        (r == KeyOrder::Equal) == (a.key() == b.key()),
        (r == KeyOrder::Greater) == key_before(b.key(), a.key()),
{
    let ra = a.rank();
    let rb = b.rank();
    if ra < rb {
        KeyOrder::Less
    } else if rb < ra {
        KeyOrder::Greater
    } else {
        compare_strs(a.root_str(), b.root_str())
    }
}

/// Explicit project-bound read and mutation capabilities.
///
/// A scope starts empty. Callers must opt into every read and mutation they
/// need; merely possessing a session adapter never grants access.
#[derive(Debug, PartialEq, Eq)]
pub struct DesignerScope {
    project_id: ProjectId,
    capabilities: Vec<DesignerCapability>,
}

impl DesignerScope {
    #[verifier::type_invariant]
    closed spec fn inv(&self) -> bool {
        caps_sorted(self.capabilities@)
    }

    /// The project this scope is bound to.
    pub closed spec fn project(&self) -> Seq<char> {
        self.project_id@
    }

    /// The set of granted capability identities.
    pub closed spec fn granted(&self) -> Set<CapKey> {
        Set::new(|k: CapKey| exists|i: int| 0 <= i < self.capabilities@.len() && #[trigger] self.capabilities@[i].key() == k)
    }

    /// The granted capabilities, in capability order.
    pub closed spec fn cap_seq(&self) -> Seq<DesignerCapability> {
        self.capabilities@
    }

    /// Whether the granted capabilities stand in strict capability order,
    /// which every constructed scope keeps.
    pub closed spec fn well_formed(&self) -> bool {
        caps_sorted(self.capabilities@)
    }

    /// The identities of the granted capabilities, in capability order.
    pub closed spec fn cap_keys(&self) -> Seq<CapKey> {
        self.capabilities@.map_values(|c: DesignerCapability| c.key())
    }

    /// Whether a capability with this identity was granted.
    pub open spec fn grants(&self, k: CapKey) -> bool {
        self.granted().contains(k)
    }

    /// Create an empty scope bound to one project identity.
    pub fn for_project(project_id: ProjectId) -> (r: Self)
        ensures
            r.project() == project_id@,
            r.well_formed(),
            r.granted() == Set::<CapKey>::empty(),
    {
        let r = DesignerScope { project_id, capabilities: Vec::new() };
        assert(r.granted() =~= Set::<CapKey>::empty());
        r
    }

    /// The project identity to which this scope is bound.
    pub fn project_id(&self) -> (r: &ProjectId)
        ensures
            r@ == self.project(),
    {
        &self.project_id
    }

    /// All capabilities granted by this scope, in capability order without repeats.
    pub fn capabilities(&self) -> (r: &Vec<DesignerCapability>)
        ensures
            r@ == self.cap_seq(),
            caps_sorted(r@),
            forall|k: CapKey| self.grants(k) <==> exists|i: int| 0 <= i < r@.len() && #[trigger] r@[i].key() == k,
    {
        proof {
            use_type_invariant(self);
        }
        &self.capabilities
    }

    fn grant(self, capability: DesignerCapability) -> (r: Self)
        ensures
            r.project() == self.project(),
            r.well_formed(),
            r.granted() == self.granted().insert(capability.key()),
    {
        proof {
            use_type_invariant(&self);
        }
        let DesignerScope { project_id, capabilities } = self;
        let mut caps = capabilities;
        let ghost old_caps = caps@;
        let n = caps.len();
        let mut i: usize = 0;
        let ghost ck = capability.key();
        let mut stop = false;
        while i < n && !stop
            invariant
                n == caps@.len(),
                caps@ == old_caps,
                caps_sorted(caps@),
                i <= n,
                ck == capability.key(),
                old_caps == self.cap_seq(),
                project_id@ == self.project(),
                stop ==> i < n && key_before(ck, caps@[i as int].key()),
                forall|j: int| 0 <= j < i ==> key_before(#[trigger] caps@[j].key(), ck),
            decreases n - i, if stop { 0int } else { 1int },
        {
            let o = compare_caps(&caps[i], &capability);
            if o == KeyOrder::Equal {
                assert(self.granted().contains(ck)) by {
                    assert(old_caps[i as int].key() == ck);
                }
                let r = DesignerScope { project_id, capabilities: caps };
                assert(r.granted() =~= self.granted().insert(ck));
                return r;
            }
            if o == KeyOrder::Greater {
                stop = true;
            } else {
                assert(o == KeyOrder::Less);
                i = i + 1;
            }
        }
        proof {
            assert forall|j: int| i <= j < n implies key_before(ck, #[trigger] caps@[j].key()) by {
                lemma_key_order(ck, caps@[i as int].key(), caps@[j].key());
            }
        }
        caps.insert(i, capability);
        let ghost nc = caps@;
        assert(nc == old_caps.insert(i as int, capability));
        assert(caps_sorted(nc)) by {
            assert forall|a: int, b: int| 0 <= a < b < nc.len() implies key_before(
                nc[a].key(),
                nc[b].key(),
            ) by {
                if b < i {
                } else if b == i {
                } else if a == i {
                    assert(nc[b] == old_caps[b - 1]);
                } else if a < i {
                    assert(nc[b] == old_caps[b - 1]);
                    lemma_key_order(nc[a].key(), ck, nc[b].key());
                } else {
                    assert(nc[a] == old_caps[a - 1]);
                    assert(nc[b] == old_caps[b - 1]);
                }
            }
        }
        let r = DesignerScope { project_id, capabilities: caps };
        assert forall|k: CapKey| r.granted().contains(k) == self.granted().insert(ck).contains(k) by {
            if r.granted().contains(k) {
                let j = choose|j: int| 0 <= j < nc.len() && #[trigger] nc[j].key() == k;
                if j < i {
                    assert(old_caps[j] == nc[j]);
                } else if j > i {
                    assert(old_caps[j - 1] == nc[j]);
                }
            }
            if self.granted().contains(k) && k != ck {
                let j = choose|j: int| 0 <= j < old_caps.len() && #[trigger] old_caps[j].key() == k;
                if j < i {
                    assert(nc[j] == old_caps[j]);
                } else {
                    assert(nc[j + 1] == old_caps[j]);
                }
            }
            if k == ck {
                assert(nc[i as int].key() == k);
            }
        }
        assert(r.granted() =~= self.granted().insert(ck));
        r
    }

    /// Grant complete project snapshot reads.
    pub fn allow_project_read(self) -> (r: Self)
        ensures
            r.project() == self.project(),
            r.well_formed(),
            r.granted() == self.granted().insert(DesignerCapability::ProjectRead.key()),
    {
        self.grant(DesignerCapability::ProjectRead)
    }

    /// Grant session selection/presentation reads.
    pub fn allow_selection_read(self) -> (r: Self)
        ensures
            r.project() == self.project(),
            r.well_formed(),
            r.granted() == self.granted().insert(DesignerCapability::SelectionRead.key()),
    {
        self.grant(DesignerCapability::SelectionRead)
    }

    /// Grant reads of one node and all of its descendants.
    pub fn allow_subtree_read(self, root: NodeId) -> (r: Self)
        ensures
            r.project() == self.project(),
            r.well_formed(),
            r.granted() == self.granted().insert((RANK_SUBTREE_READ, root@)),
    {
        self.grant(DesignerCapability::SubtreeRead(root))
    }

    /// Grant command schema reads for a future channel query.
    pub fn allow_schemas_read(self) -> (r: Self)
        ensures
            r.project() == self.project(),
            r.well_formed(),
            r.granted() == self.granted().insert(DesignerCapability::SchemasRead.key()),
    {
        self.grant(DesignerCapability::SchemasRead)
    }

    /// Grant authoring diagnostic reads.
    pub fn allow_diagnostics_read(self) -> (r: Self)
        ensures
            r.project() == self.project(),
            r.well_formed(),
            r.granted() == self.granted().insert(DesignerCapability::DiagnosticsRead.key()),
    {
        self.grant(DesignerCapability::DiagnosticsRead)
    }

    /// Grant immutable revision-history reads.
    pub fn allow_history_read(self) -> (r: Self)
        ensures
            r.project() == self.project(),
            r.well_formed(),
            r.granted() == self.granted().insert(DesignerCapability::HistoryRead.key()),
    {
        self.grant(DesignerCapability::HistoryRead)
    }

    /// Grant command writes anywhere in the bound project.
    pub fn allow_command_write(self) -> (r: Self)
        ensures
            r.project() == self.project(),
            r.well_formed(),
            r.granted() == self.granted().insert(DesignerCapability::CommandWrite.key()),
    {
        self.grant(DesignerCapability::CommandWrite)
    }

    /// Grant command writes only within one node subtree.
    pub fn allow_subtree_write(self, root: NodeId) -> (r: Self)
        ensures
            r.project() == self.project(),
            r.well_formed(),
            r.granted() == self.granted().insert((RANK_SUBTREE_WRITE, root@)),
    {
        self.grant(DesignerCapability::SubtreeWrite(root))
    }

    /// Grant undo/redo for commands admitted by this scope.
    pub fn allow_history_write(self) -> (r: Self)
        ensures
            r.project() == self.project(),
            r.well_formed(),
            r.granted() == self.granted().insert(DesignerCapability::HistoryWrite.key()),
    {
        self.grant(DesignerCapability::HistoryWrite)
    }

    /// Whether a capability with the identity of `capability` was granted.
    pub fn contains(&self, capability: &DesignerCapability) -> (r: bool)
        ensures
            r == self.grants(capability.key()),
    {
        let n = self.capabilities.len();
        let mut i: usize = 0;
        while i < n
            invariant
                n == self.capabilities@.len(),
                i <= n,
                forall|j: int| 0 <= j < i ==> #[trigger] self.capabilities@[j].key() != capability.key(),
            decreases n - i,
        {
            if compare_caps(&self.capabilities[i], capability) == KeyOrder::Equal {
                assert(self.granted().contains(capability.key()));
                return true;
            }
            i = i + 1;
        }
        false
    }

    fn has_project_write(&self) -> (r: bool)
        ensures
            r == self.grants(DesignerCapability::CommandWrite.key()),
    {
        self.contains(&DesignerCapability::CommandWrite)
    }

    /// Whether the caller may read `node_id`: it holds project reads, or a
    /// subtree read whose root is an ancestor-or-self of the node.
    pub fn read_node_allowed(&self, design: &StudioDesign, node_id: &NodeId) -> (r: bool)
        ensures
            r == node_access(self, design, node_id@, RANK_PROJECT_READ, RANK_SUBTREE_READ),
    {
        if self.contains(&DesignerCapability::ProjectRead) {
            return true;
        }
        self.subtree_grant_covers(design, node_id, RANK_SUBTREE_READ)
    }

    /// Whether the caller may write `node_id`: it holds project writes, or a
    /// subtree write whose root is an ancestor-or-self of the node.
    pub fn write_node_allowed(&self, design: &StudioDesign, node_id: &NodeId) -> (r: bool)
        ensures
            r == node_access(self, design, node_id@, RANK_COMMAND_WRITE, RANK_SUBTREE_WRITE),
    {
        if self.has_project_write() {
            return true;
        }
        self.subtree_grant_covers(design, node_id, RANK_SUBTREE_WRITE)
    }

    fn subtree_grant_covers(&self, design: &StudioDesign, node_id: &NodeId, rank: u8) -> (r: bool)
        ensures
            r == exists|root: Seq<char>|
                self.grants((rank, root)) && #[trigger] in_subtree(design, node_id@, root),
    {
        let n = self.capabilities.len();
        let mut i: usize = 0;
        while i < n
            invariant
                n == self.capabilities@.len(),
                i <= n,
                forall|j: int|
                    0 <= j < i && #[trigger] self.capabilities@[j].key().0 == rank ==> !in_subtree(
                        design,
                        node_id@,
                        self.capabilities@[j].key().1,
                    ),
            decreases n - i,
        {
            let cap = &self.capabilities[i];
            if cap.rank() == rank {
                if is_in_subtree(design, node_id, cap.root_str()) {
                    assert(self.granted().contains(cap.key()));
                    assert(in_subtree(design, node_id@, cap.key().1));
                    return true;
                }
            }
            i = i + 1;
        }
        proof {
            assert forall|root: Seq<char>| self.grants((rank, root)) implies !#[trigger] in_subtree(
                design,
                node_id@,
                root,
            ) by {
                let j = choose|j: int|
                    0 <= j < self.capabilities@.len() && #[trigger] self.capabilities@[j].key() == (
                    rank,
                    root,
                );
                assert(self.capabilities@[j].key().0 == rank);
            }
        }
        false
    }

    /// Whether the caller may write under `parent`, judged by the node that anchors it.
    pub fn write_parent_allowed(&self, design: &StudioDesign, parent: &NodeParent) -> (r: bool)
        ensures
            r == parent_access(self, design, *parent),
    {
        match parent_anchor(design, parent) {
            Some(node_id) => self.write_node_allowed(design, &node_id),
            None => false,
        }
    }
}

/// Whether capability identities stand in strict capability order.
pub open spec fn keys_sorted(s: Seq<CapKey>) -> bool {
    forall|i: int, j: int| 0 <= i < j < s.len() ==> key_before(s[i], s[j])
}

proof fn lemma_sorted_keys_unique(a: Seq<CapKey>, b: Seq<CapKey>)
    requires
        keys_sorted(a),
        keys_sorted(b),
        forall|k: CapKey| a.contains(k) <==> b.contains(k),
    ensures
        a == b,
    decreases a.len(),
{
    if a.len() == 0 {
        if b.len() > 0 {
            assert(b.contains(b[0]));
        }
        assert(a =~= b);
    } else {
        assert(a.contains(a[0]));
        if b.len() == 0 {
            assert(false);
        }
        assert(b.contains(b[0]));
        let k = choose|k: int| 0 <= k < b.len() && b[k] == a[0];
        let m = choose|m: int| 0 <= m < a.len() && a[m] == b[0];
        if k > 0 {
            lemma_key_order(b[0], b[k], b[0]);
            if m > 0 {
                lemma_key_order(a[0], a[m], a[0]);
            }
            assert(false);
        }
        let ta = a.subrange(1, a.len() as int);
        let tb = b.subrange(1, b.len() as int);
        assert forall|x: CapKey| ta.contains(x) implies tb.contains(x) by {
            let i = choose|i: int| 0 <= i < ta.len() && ta[i] == x;
            assert(a[i + 1] == x);
            lemma_key_order(a[0], a[i + 1], a[0]);
            assert(a.contains(x));
            let j = choose|j: int| 0 <= j < b.len() && b[j] == x;
            assert(j != 0);
            assert(tb[j - 1] == x);
        }
        assert forall|x: CapKey| tb.contains(x) implies ta.contains(x) by {
            let i = choose|i: int| 0 <= i < tb.len() && tb[i] == x;
            assert(b[i + 1] == x);
            lemma_key_order(b[0], b[i + 1], b[0]);
            assert(b.contains(x));
            let j = choose|j: int| 0 <= j < a.len() && a[j] == x;
            assert(j != 0);
            assert(ta[j - 1] == x);
        }
        lemma_sorted_keys_unique(ta, tb);
        assert forall|i: int| 0 <= i < a.len() implies a[i] == b[i] by {
            if i > 0 {
                assert(a[i] == ta[i - 1]);
                assert(b[i] == tb[i - 1]);
            }
        }
        assert(a =~= b);
    }
}

/// A well-formed scope is determined by its grants: two well-formed scopes
/// that grant the same capability identities list the same capabilities in
/// the same order.
pub proof fn lemma_grants_determine_scope(a: DesignerScope, b: DesignerScope)
    requires
        a.well_formed(),
        b.well_formed(),
        a.granted() == b.granted(),
    ensures
        a.cap_keys() == b.cap_keys(),
{
    let ka = a.cap_keys();
    let kb = b.cap_keys();
    assert forall|k: CapKey| ka.contains(k) <==> kb.contains(k) by {
        if ka.contains(k) {
            let i = choose|i: int| 0 <= i < ka.len() && ka[i] == k;
            assert(a.capabilities@[i].key() == k);
            assert(a.granted().contains(k));
            assert(b.granted().contains(k));
            let j = choose|j: int| 0 <= j < b.capabilities@.len() && #[trigger] b.capabilities@[j].key() == k;
            assert(kb[j] == k);
        }
        if kb.contains(k) {
            let i = choose|i: int| 0 <= i < kb.len() && kb[i] == k;
            assert(b.capabilities@[i].key() == k);
            assert(b.granted().contains(k));
            assert(a.granted().contains(k));
            let j = choose|j: int| 0 <= j < a.capabilities@.len() && #[trigger] a.capabilities@[j].key() == k;
            assert(ka[j] == k);
        }
    }
    lemma_sorted_keys_unique(ka, kb);
}

/// Granting a capability that a scope already holds gives the same scope:
/// the same project and the same capabilities in the same order.
pub proof fn lemma_regrant_same_scope(s: DesignerScope, t: DesignerScope, k: CapKey)
    requires
        s.well_formed(),
        t.well_formed(),
        s.grants(k),
        t.project() == s.project(),
        t.granted() == s.granted().insert(k),
    ensures
        t.project() == s.project(),
        t.cap_keys() == s.cap_keys(),
{
    assert(s.granted().insert(k) =~= s.granted());
    lemma_grants_determine_scope(s, t);
}

/// Two grants made in either order give the same scope.
pub proof fn lemma_grant_order_irrelevant(s: DesignerScope, u: DesignerScope, v: DesignerScope, x: CapKey, y: CapKey)
    requires
        u.well_formed(),
        v.well_formed(),
        u.project() == s.project(),
        v.project() == s.project(),
        u.granted() == s.granted().insert(x).insert(y),
        v.granted() == s.granted().insert(y).insert(x),
    ensures
        u.project() == v.project(),
        u.cap_keys() == v.cap_keys(),
{
    assert(s.granted().insert(x).insert(y) =~= s.granted().insert(y).insert(x));
    lemma_grants_determine_scope(u, v);
}

/// The denial of a query that a scope refuses: the shared denial code, the
/// scope's project, the refused query, and the capability it needed.
pub open spec fn query_denial(scope: &DesignerScope, snapshot: &StudioDesignSnapshot, query: DesignerQuery, d: ScopeDenied) -> bool {
    &&& d.code@ == "DESIGN_SCOPE_DENIED"@
    &&& d.project_id@ == scope.project()
    &&& d.operation matches ScopedOperation::Query(q) && crate::session::same_query(query, q)
    &&& if !same_project(scope, snapshot) {
        &&& d.required == DesignerCapability::ProjectRead
        &&& d.message@ == "the requested project is outside the caller scope"@
    } else {
        &&& d.required.key() == query_required(query)
        &&& d.message@ == query_denial_message(query)
    }
}

/// The denial of a batch that a scope refuses.
pub open spec fn batch_denial(scope: &DesignerScope, snapshot: &StudioDesignSnapshot, batch: CommandBatch, d: ScopeDenied) -> bool {
    &&& d.code@ == "DESIGN_SCOPE_DENIED"@
    &&& d.project_id@ == scope.project()
    &&& d.operation == (ScopedOperation::Submit { operation_id: batch.operation_id })
    &&& if !same_project(scope, snapshot) {
        &&& d.required == DesignerCapability::ProjectRead
        &&& d.message@ == "the requested project is outside the caller scope"@
    } else if batch.project_id@ != scope.project() {
        &&& d.required == DesignerCapability::CommandWrite
        &&& d.message@ == "the command targets a project outside the caller scope"@
    } else {
        &&& d.required == DesignerCapability::CommandWrite
        &&& d.message@ == "one or more command targets are outside the caller scope"@
    }
}

/// The denial of an undo (`redo == false`) or redo that a scope refuses:
/// the shared denial code, the scope's project, the refused operation, and
/// the first capability found missing.
pub open spec fn history_denial(scope: &DesignerScope, snapshot: &StudioDesignSnapshot, operation: HistoryOperation, redo: bool, d: ScopeDenied) -> bool {
    &&& d.code@ == "DESIGN_SCOPE_DENIED"@
    &&& d.project_id@ == scope.project()
    &&& d.operation == (if redo {
        ScopedOperation::Redo { operation_id: operation.operation_id }
    } else {
        ScopedOperation::Undo { operation_id: operation.operation_id }
    })
    &&& if !same_project(scope, snapshot) {
        &&& d.required == DesignerCapability::ProjectRead
        &&& d.message@ == "the requested project is outside the caller scope"@
    } else if !scope.grants((RANK_HISTORY_WRITE, Seq::empty())) {
        &&& d.required == DesignerCapability::HistoryWrite
        &&& d.message@ == "history mutations are outside the caller scope"@
    } else {
        &&& d.required == DesignerCapability::CommandWrite
        &&& d.message@
            == "the history group contains commands outside the caller scope"@
    }
}

impl Clone for DesignerScope {
    fn clone(&self) -> (r: Self)
        ensures
            r.project() == self.project(),
            r.well_formed(),
            r.cap_seq() == self.cap_seq(),
            r.granted() == self.granted(),
    {
        proof {
            use_type_invariant(self);
        }
        let mut caps: Vec<DesignerCapability> = Vec::new();
        let n = self.capabilities.len();
        let mut i: usize = 0;
        while i < n
            invariant
                n == self.capabilities@.len(),
                i <= n,
                caps@ == self.capabilities@.subrange(0, i as int),
            decreases n - i,
        {
            caps.push(self.capabilities[i].copy());
            i = i + 1;
        }
        assert(caps@ =~= self.capabilities@);
        let r = DesignerScope { project_id: self.project_id.copy(), capabilities: caps };
        assert(r.granted() =~= self.granted());
        r
    }
}

/// Node access through a project-wide capability of rank `project_rank` or a
/// subtree capability of rank `subtree_rank` whose root covers the node.
pub open spec fn node_access(
    scope: &DesignerScope,
    design: &StudioDesign,
    node: Seq<char>,
    project_rank: u8,
    subtree_rank: u8,
) -> bool {
    scope.grants((project_rank, Seq::empty())) || exists|root: Seq<char>|
        scope.grants((subtree_rank, root)) && #[trigger] in_subtree(design, node, root)
}

/// Write access to the node anchoring `parent`.
pub open spec fn parent_access(scope: &DesignerScope, design: &StudioDesign, parent: NodeParent) -> bool {
    match anchor_of(design, parent) {
        Some(n) => node_access(scope, design, n, RANK_COMMAND_WRITE, RANK_SUBTREE_WRITE),
        None => false,
    }
}

/// The `k`-th ancestor of `node` through node parents (`k == 0` is the node).
pub open spec fn ancestor(design: &StudioDesign, node: Seq<char>, k: nat) -> Option<Seq<char>>
    decreases k,
{
    if k == 0 {
        Some(node)
    } else {
        match ancestor(design, node, (k - 1) as nat) {
            Some(a) => if design.parents@.contains_key(a) && design.parents@[a] is Node {
                Some(design.parents@[a]->node_id@)
            } else {
                None
            },
            None => None,
        }
    }
}

/// Whether `root` is an ancestor-or-self of `node` within as many parent
/// steps as the parent index has entries (every acyclic chain is that short).
pub open spec fn in_subtree(design: &StudioDesign, node: Seq<char>, root: Seq<char>) -> bool {
    exists|k: nat| k <= design.parents.entry_seq().len() && #[trigger] ancestor(design, node, k) == Some(root)
}

pub proof fn lemma_ancestor_stays_none(design: &StudioDesign, node: Seq<char>, k: nat, m: nat)
    requires
        ancestor(design, node, k) is None,
        k <= m,
    ensures
        ancestor(design, node, m) is None,
    decreases m - k,
{
    if k < m {
        lemma_ancestor_stays_none(design, node, (k + 1) as nat, m);
    }
}

/// The node that anchors a parent reference: the node itself, or the root of
/// the named screen or composition.
pub open spec fn anchor_of(design: &StudioDesign, parent: NodeParent) -> Option<Seq<char>> {
    match parent {
        NodeParent::Node { node_id } => Some(node_id@),
        NodeParent::Screen { screen_id } => if design.screens@.contains_key(screen_id@) {
            Some(design.screens@[screen_id@].root_node_id@)
        } else {
            None
        },
        NodeParent::Composition { composition_id } => if design.compositions@.contains_key(
            composition_id@,
        ) {
            Some(design.compositions@[composition_id@].root_node_id@)
        } else {
            None
        },
    }
}

/// The node that anchors a parent reference.
pub fn parent_anchor(design: &StudioDesign, parent: &NodeParent) -> (r: Option<NodeId>)
    ensures
        match r {
            Some(id) => anchor_of(design, *parent) == Some(id@),
            None => anchor_of(design, *parent) is None,
        },
{
    match parent {
        NodeParent::Node { node_id } => Some(node_id.copy()),
        NodeParent::Screen { screen_id } => match design.screens.get(screen_id.as_str()) {
            Some(screen) => Some(screen.root_node_id.copy()),
            None => None,
        },
        NodeParent::Composition { composition_id } => match design.compositions.get(
            composition_id.as_str(),
        ) {
            Some(composition) => Some(composition.root_node_id.copy()),
            None => None,
        },
    }
}

/// Whether `root` is `node_id` or one of its node ancestors.
pub fn is_in_subtree(design: &StudioDesign, node_id: &NodeId, root: &str) -> (r: bool)
    ensures
        r == in_subtree(design, node_id@, root@),
{
    let bound = design.parents.len();
    let mut cursor: NodeId = node_id.copy();
    let mut k: usize = 0;
    while k < bound
        invariant
            bound == design.parents.entry_seq().len(),
            k <= bound,
            ancestor(design, node_id@, k as nat) == Some(cursor@),
            forall|j: nat| j < k ==> #[trigger] ancestor(design, node_id@, j) != Some(root@),
        decreases bound - k,
    {
        if crate::text::str_eq(cursor.as_str(), root) {
            return true;
        }
        let next = match design.parents.get(cursor.as_str()) {
            Some(NodeParent::Node { node_id: parent }) => Some(parent.copy()),
            _ => None,
        };
        match next {
            Some(p) => {
                cursor = p;
                k = k + 1;
            },
            None => {
                proof {
                    assert(ancestor(design, node_id@, (k + 1) as nat) is None);
                    assert forall|j: nat| j <= bound implies #[trigger] ancestor(design, node_id@, j) != Some(root@) by {
                        if j > k {
                            lemma_ancestor_stays_none(design, node_id@, (k + 1) as nat, j);
                        }
                    }
                }
                return false;
            },
        }
    }
    crate::text::str_eq(cursor.as_str(), root)
}

/// Operation categories used in deterministic scope-denial records.
#[derive(Clone, Debug, PartialEq)]
pub enum ScopedOperation {
    /// A typed Designer query.
    Query(DesignerQuery),
    /// A command-batch submission.
    Submit { operation_id: OperationId },
    /// An undo request.
    Undo { operation_id: OperationId },
    /// A redo request.
    Redo { operation_id: OperationId },
}

/// Stable, transport-neutral denial returned before an untrusted operation
/// reaches the underlying session.
#[derive(Clone, Debug, PartialEq)]
pub struct ScopeDenied {
    /// Stable denial code shared by agent and MCP adapters.
    pub code: String,
    /// The project the caller attempted to access.
    pub project_id: ProjectId,
    /// The operation that was denied.
    pub operation: ScopedOperation,
    /// The capability required by the operation.
    pub required: DesignerCapability,
    /// Safe explanation suitable for a caller or audit record.
    pub message: String,
}

impl ScopeDenied {
    fn missing(
        project_id: &ProjectId,
        operation: ScopedOperation,
        required: DesignerCapability,
        message: &str,
    ) -> (r: Self)
        ensures
            r.code@ == "DESIGN_SCOPE_DENIED"@,
            r.project_id == *project_id,
            r.operation == operation,
            r.required == required,
            r.message@ == message@,
    {
        ScopeDenied {
            code: String::from_str("DESIGN_SCOPE_DENIED"),
            project_id: project_id.copy(),
            operation,
            required,
            message: String::from_str(message),
        }
    }

    fn project_mismatch(project_id: &ProjectId, operation: ScopedOperation) -> (r: Self)
        ensures
            r.code@ == "DESIGN_SCOPE_DENIED"@,
            r.project_id == *project_id,
            r.operation == operation,
            r.required == DesignerCapability::ProjectRead,
            r.message@ == "the requested project is outside the caller scope"@,
    {
        Self::missing(
            project_id,
            operation,
            DesignerCapability::ProjectRead,
            "the requested project is outside the caller scope",
        )
    }

    /// Safe explanation of the denial.
    pub fn to_message(&self) -> (r: String)
        ensures
            r@ == self.message@,
    {
        self.message.clone()
    }
}

/// A scope-enforcing adapter around a Designer session.
pub struct ScopedDesignerSession<S> {
    inner: S,
    scope: DesignerScope,
}

impl<S> ScopedDesignerSession<S> {
    /// Attach an explicit scope to a session.
    pub fn new(inner: S, scope: DesignerScope) -> (r: Self)
        ensures
            r.inner() == inner,
            r.scope_view() == scope,
    {
        ScopedDesignerSession { inner, scope }
    }

    pub closed spec fn inner(&self) -> S {
        self.inner
    }

    pub closed spec fn scope_view(&self) -> DesignerScope {
        self.scope
    }

    /// Borrow the attached scope.
    pub fn scope(&self) -> (r: &DesignerScope)
        ensures
            *r == self.scope_view(),
    {
        &self.scope
    }

    /// Borrow the wrapped session.
    pub fn session(&self) -> (r: &S)
        ensures
            *r == self.inner(),
    {
        &self.inner
    }

    /// Mutably borrow the wrapped session.
    pub fn session_mut(&mut self) -> (r: &mut S)
        ensures
            *r == old(self).inner(),
            final(self).inner() == *final(r),
            final(self).scope_view() == old(self).scope_view(),
    {
        &mut self.inner
    }
}


/// Whether a precondition only inspects targets the scope may write.
pub open spec fn precondition_permitted(
    scope: &DesignerScope,
    design: &StudioDesign,
    p: CommandPrecondition,
) -> bool {
    scope.grants((RANK_COMMAND_WRITE, Seq::empty())) || match p {
        CommandPrecondition::NodeExists { node_id }
        | CommandPrecondition::NodeMissing { node_id }
        | CommandPrecondition::ParentEquals { node_id, .. }
        | CommandPrecondition::ChildIndexEquals { node_id, .. }
        | CommandPrecondition::PropertyEquals { node_id, .. } => !design.nodes@.contains_key(
            node_id@,
        ) || node_access(scope, design, node_id@, RANK_COMMAND_WRITE, RANK_SUBTREE_WRITE),
        _ => false,
    }
}

/// Whether a command only touches targets the scope may write.
pub open spec fn command_permitted(scope: &DesignerScope, design: &StudioDesign, c: Command) -> bool {
    scope.grants((RANK_COMMAND_WRITE, Seq::empty())) || match c {
        Command::InsertNode { parent, .. } => parent_access(scope, design, parent.parent),
        Command::MoveNode { node_id, destination } => {
            &&& design.parents@.contains_key(node_id@)
            &&& parent_access(scope, design, design.parents@[node_id@])
            &&& node_access(scope, design, node_id@, RANK_COMMAND_WRITE, RANK_SUBTREE_WRITE)
            &&& parent_access(scope, design, destination.parent)
        },
        Command::ReorderNode { node_id, .. } => {
            &&& design.parents@.contains_key(node_id@)
            &&& parent_access(scope, design, design.parents@[node_id@])
            &&& node_access(scope, design, node_id@, RANK_COMMAND_WRITE, RANK_SUBTREE_WRITE)
        },
        Command::DuplicateNode { source_node_id, destination, .. } => {
            &&& node_access(scope, design, source_node_id@, RANK_COMMAND_WRITE, RANK_SUBTREE_WRITE)
            &&& parent_access(scope, design, destination.parent)
        },
        Command::DeleteNode { node_id }
        | Command::SetProperty { node_id, .. }
        | Command::RenameNode { node_id, .. } => node_access(
            scope,
            design,
            node_id@,
            RANK_COMMAND_WRITE,
            RANK_SUBTREE_WRITE,
        ),
        Command::RestoreNode { tombstone } => parent_access(scope, design, tombstone.detached_from),
        _ => false,
    }
}

/// Whether a precondition only inspects targets the scope may write.
pub fn precondition_allowed(
    scope: &DesignerScope,
    design: &StudioDesign,
    precondition: &CommandPrecondition,
) -> (r: bool)
    ensures
        r == precondition_permitted(scope, design, *precondition),
{
    if scope.has_project_write() {
        return true;
    }
    let node_id = match precondition {
        CommandPrecondition::NodeExists { node_id } => node_id,
        CommandPrecondition::NodeMissing { node_id } => node_id,
        CommandPrecondition::ParentEquals { node_id, .. } => node_id,
        CommandPrecondition::ChildIndexEquals { node_id, .. } => node_id,
        CommandPrecondition::PropertyEquals { node_id, .. } => node_id,
        _ => {
            return false;
        },
    };
    !design.nodes.contains_key(node_id.as_str()) || scope.write_node_allowed(design, node_id)
}

/// Whether a command only touches targets the scope may write.
pub fn command_allowed(scope: &DesignerScope, design: &StudioDesign, command: &Command) -> (r: bool)
    ensures
        r == command_permitted(scope, design, *command),
{
    if scope.has_project_write() {
        return true;
    }
    match command {
        Command::InsertNode { parent, .. } => scope.write_parent_allowed(design, &parent.parent),
        Command::MoveNode { node_id, destination } => {
            let current = match design.parents.get(node_id.as_str()) {
                Some(parent) => scope.write_parent_allowed(design, parent),
                None => false,
            };
            current && scope.write_node_allowed(design, node_id) && scope.write_parent_allowed(
                design,
                &destination.parent,
            )
        },
        Command::ReorderNode { node_id, .. } => {
            let current = match design.parents.get(node_id.as_str()) {
                Some(parent) => scope.write_parent_allowed(design, parent),
                None => false,
            };
            current && scope.write_node_allowed(design, node_id)
        },
        Command::DuplicateNode { source_node_id, destination, .. } => {
            scope.write_node_allowed(design, source_node_id) && scope.write_parent_allowed(
                design,
                &destination.parent,
            )
        },
        Command::DeleteNode { node_id } => scope.write_node_allowed(design, node_id),
        Command::SetProperty { node_id, .. } => scope.write_node_allowed(design, node_id),
        Command::RenameNode { node_id, .. } => scope.write_node_allowed(design, node_id),
        Command::RestoreNode { tombstone } => scope.write_parent_allowed(
            design,
            &tombstone.detached_from,
        ),
        _ => false,
    }
}

/// Whether every command a history group would replay (redo) or invert
/// (undo) is permitted.
pub open spec fn group_permitted(
    scope: &DesignerScope,
    design: &StudioDesign,
    entry: HistoryEntry,
    redo: bool,
) -> bool {
    forall|b: int, c: int|
        0 <= b < entry.batches@.len() && 0 <= c < (if redo {
            entry.batches@[b].batch.commands@.len()
        } else {
            entry.batches@[b].inverse_commands@.len()
        }) ==> #[trigger] command_permitted(
            scope,
            design,
            group_command(entry, redo, b, c),
        )
}

pub open spec fn group_command(entry: HistoryEntry, redo: bool, b: int, c: int) -> Command {
    if redo {
        entry.batches@[b].batch.commands@[c]
    } else {
        entry.batches@[b].inverse_commands@[c]
    }
}

fn history_group_allowed(
    scope: &DesignerScope,
    design: &StudioDesign,
    entry: &HistoryEntry,
    redo: bool,
) -> (r: bool)
    ensures
        r == group_permitted(scope, design, *entry, redo),
{
    let nb = entry.batches.len();
    let mut b: usize = 0;
    while b < nb
        invariant
            nb == entry.batches@.len(),
            b <= nb,
            forall|bb: int, c: int|
                0 <= bb < b && 0 <= c < (if redo {
                    entry.batches@[bb].batch.commands@.len()
                } else {
                    entry.batches@[bb].inverse_commands@.len()
                }) ==> #[trigger] command_permitted(
                    scope,
                    design,
                    group_command(*entry, redo, bb, c),
                ),
        decreases nb - b,
    {
        let commands = if redo {
            &entry.batches[b].batch.commands
        } else {
            &entry.batches[b].inverse_commands
        };
        let nc = commands.len();
        let mut c: usize = 0;
        while c < nc
            invariant
                nb == entry.batches@.len(),
                b < nb,
                nc == commands@.len(),
                *commands == (if redo {
                    entry.batches@[b as int].batch.commands
                } else {
                    entry.batches@[b as int].inverse_commands
                }),
                c <= nc,
                forall|cc: int| 0 <= cc < c ==> #[trigger] command_permitted(
                    scope,
                    design,
                    group_command(*entry, redo, b as int, cc),
                ),
            decreases nc - c,
        {
            if !command_allowed(scope, design, &commands[c]) {
                assert(group_command(*entry, redo, b as int, c as int) == commands@[c as int]);
                return false;
            }
            c = c + 1;
        }
        assert forall|bb: int, cc: int|
            0 <= bb < b + 1 && 0 <= cc < (if redo {
                entry.batches@[bb].batch.commands@.len()
            } else {
                entry.batches@[bb].inverse_commands@.len()
            }) implies #[trigger] command_permitted(scope, design, group_command(*entry, redo, bb, cc)) by {
            if bb == b {
                assert(command_permitted(scope, design, group_command(*entry, redo, b as int, cc)));
            }
        }
        b = b + 1;
    }
    true
}

/// Whether a query is within the scope (the project binding is checked separately).
pub open spec fn query_permitted(scope: &DesignerScope, design: &StudioDesign, q: DesignerQuery) -> bool {
    match q {
        DesignerQuery::Snapshot => scope.grants((RANK_PROJECT_READ, Seq::empty())),
        DesignerQuery::Node { node_id } => node_access(
            scope,
            design,
            node_id@,
            RANK_PROJECT_READ,
            RANK_SUBTREE_READ,
        ),
        DesignerQuery::Diagnostics => scope.grants((RANK_DIAGNOSTICS_READ, Seq::empty())),
        DesignerQuery::History => scope.grants((RANK_HISTORY_READ, Seq::empty())),
        DesignerQuery::SessionState => scope.grants((RANK_SELECTION_READ, Seq::empty())),
        _ => false,
    }
}

/// The capability a denied in-project query lacks.
pub open spec fn query_required(q: DesignerQuery) -> CapKey {
    match q {
        DesignerQuery::Snapshot => (RANK_PROJECT_READ, Seq::empty()),
        DesignerQuery::Node { node_id } => (RANK_SUBTREE_READ, node_id@),
        DesignerQuery::Diagnostics => (RANK_DIAGNOSTICS_READ, Seq::empty()),
        DesignerQuery::History => (RANK_HISTORY_READ, Seq::empty()),
        DesignerQuery::SessionState => (RANK_SELECTION_READ, Seq::empty()),
        _ => (RANK_PROJECT_READ, Seq::empty()),
    }
}

/// The explanation given when an in-project query is denied.
pub open spec fn query_denial_message(q: DesignerQuery) -> Seq<char> {
    match q {
        DesignerQuery::Snapshot => "project snapshot reads are outside the caller scope"@,
        DesignerQuery::Node { .. } => "the requested node is outside the caller scope"@,
        DesignerQuery::Diagnostics => "diagnostic reads are outside the caller scope"@,
        DesignerQuery::History => "history reads are outside the caller scope"@,
        DesignerQuery::SessionState => "selection reads are outside the caller scope"@,
        _ => "the requested query is outside the caller scope"@,
    }
}

/// Whether a command batch is within the scope.
pub open spec fn batch_permitted(
    scope: &DesignerScope,
    snapshot: &StudioDesignSnapshot,
    batch: CommandBatch,
) -> bool {
    &&& same_project(scope, snapshot)
    &&& batch.project_id@ == scope.project()
    &&& scope.grants((RANK_COMMAND_WRITE, Seq::empty())) || ((forall|i: int|
        0 <= i < batch.preconditions@.len() ==> #[trigger] precondition_permitted(
            scope,
            &snapshot.design,
            batch.preconditions@[i],
        )) && (forall|i: int|
        0 <= i < batch.commands@.len() ==> #[trigger] command_permitted(
            scope,
            &snapshot.design,
            batch.commands@[i],
        )))
}

/// Whether an undo or redo is within the scope.
pub open spec fn history_permitted(
    scope: &DesignerScope,
    snapshot: &StudioDesignSnapshot,
    history: &HistorySnapshot,
    redo: bool,
) -> bool {
    &&& same_project(scope, snapshot)
    &&& scope.grants((RANK_HISTORY_WRITE, Seq::empty()))
    &&& scope.grants((RANK_COMMAND_WRITE, Seq::empty())) || match history_group(history, redo) {
        Some(entry) => group_permitted(scope, &snapshot.design, entry, redo),
        None => true,
    }
}

/// Whether the snapshot belongs to the scope's project.
pub open spec fn same_project(scope: &DesignerScope, snapshot: &StudioDesignSnapshot) -> bool {
    snapshot.design.project_id@ == scope.project()
}

impl DesignerScope {
    /// Decide whether a query may reach the session.
    pub fn query_check(&self, snapshot: &StudioDesignSnapshot, query: &DesignerQuery) -> (r: Result<
        (),
        ScopeDenied,
    >)
        ensures
            r is Ok <==> same_project(self, snapshot) && query_permitted(
                self,
                &snapshot.design,
                *query,
            ),
            r matches Err(d) ==> query_denial(self, snapshot, *query, d),
    {
        let operation = ScopedOperation::Query(query.copy());
        if !snapshot.design.project_id.same(&self.project_id) {
            return Err(ScopeDenied::project_mismatch(&self.project_id, operation));
        }
        match query {
            DesignerQuery::Snapshot => {
                if self.contains(&DesignerCapability::ProjectRead) {
                    return Ok(());
                }
                Err(ScopeDenied::missing(
                    &self.project_id,
                    operation,
                    DesignerCapability::ProjectRead,
                    "project snapshot reads are outside the caller scope",
                ))
            },
            DesignerQuery::Node { node_id } => {
                if self.read_node_allowed(&snapshot.design, node_id) {
                    return Ok(());
                }
                Err(ScopeDenied::missing(
                    &self.project_id,
                    operation,
                    DesignerCapability::SubtreeRead(node_id.copy()),
                    "the requested node is outside the caller scope",
                ))
            },
            DesignerQuery::Diagnostics => {
                if self.contains(&DesignerCapability::DiagnosticsRead) {
                    return Ok(());
                }
                Err(ScopeDenied::missing(
                    &self.project_id,
                    operation,
                    DesignerCapability::DiagnosticsRead,
                    "diagnostic reads are outside the caller scope",
                ))
            },
            DesignerQuery::History => {
                if self.contains(&DesignerCapability::HistoryRead) {
                    return Ok(());
                }
                Err(ScopeDenied::missing(
                    &self.project_id,
                    operation,
                    DesignerCapability::HistoryRead,
                    "history reads are outside the caller scope",
                ))
            },
            DesignerQuery::SessionState => {
                if self.contains(&DesignerCapability::SelectionRead) {
                    return Ok(());
                }
                Err(ScopeDenied::missing(
                    &self.project_id,
                    operation,
                    DesignerCapability::SelectionRead,
                    "selection reads are outside the caller scope",
                ))
            },
            _ => Err(ScopeDenied::missing(
                &self.project_id,
                operation,
                DesignerCapability::ProjectRead,
                "the requested query is outside the caller scope",
            )),
        }
    }

    /// Decide whether a command batch may reach the session.
    pub fn batch_check(&self, snapshot: &StudioDesignSnapshot, batch: &CommandBatch) -> (r: Result<
        (),
        ScopeDenied,
    >)
        ensures
            r is Ok <==> batch_permitted(self, snapshot, *batch),
            r matches Err(d) ==> batch_denial(self, snapshot, *batch, d),
    {
        let operation = ScopedOperation::Submit { operation_id: batch.operation_id.copy() };
        if !snapshot.design.project_id.same(&self.project_id) {
            return Err(ScopeDenied::project_mismatch(&self.project_id, operation));
        }
        if !batch.project_id.same(&self.project_id) {
            return Err(ScopeDenied::missing(
                &self.project_id,
                operation,
                DesignerCapability::CommandWrite,
                "the command targets a project outside the caller scope",
            ));
        }
        if self.has_project_write() {
            return Ok(());
        }
        let design = &snapshot.design;
        let mut all = true;
        let np = batch.preconditions.len();
        let mut i: usize = 0;
        while i < np
            invariant
                np == batch.preconditions@.len(),
                i <= np,
                all == (forall|j: int| 0 <= j < i ==> #[trigger] precondition_permitted(
                    self,
                    design,
                    batch.preconditions@[j],
                )),
            decreases np - i,
        {
            if !precondition_allowed(self, design, &batch.preconditions[i]) {
                all = false;
            }
            i = i + 1;
        }
        let nc = batch.commands.len();
        let mut i: usize = 0;
        while i < nc
            invariant
                nc == batch.commands@.len(),
                i <= nc,
                all == ((forall|j: int| 0 <= j < np ==> #[trigger] precondition_permitted(
                    self,
                    design,
                    batch.preconditions@[j],
                )) && (forall|j: int| 0 <= j < i ==> #[trigger] command_permitted(
                    self,
                    design,
                    batch.commands@[j],
                ))),
                np == batch.preconditions@.len(),
            decreases nc - i,
        {
            if !command_allowed(self, design, &batch.commands[i]) {
                all = false;
            }
            i = i + 1;
        }
        if all {
            return Ok(());
        }
        Err(ScopeDenied::missing(
            &self.project_id,
            operation,
            DesignerCapability::CommandWrite,
            "one or more command targets are outside the caller scope",
        ))
    }

    /// Decide whether an undo (`redo == false`) or redo may reach the session,
    /// given the session's current history.
    pub fn history_check(
        &self,
        snapshot: &StudioDesignSnapshot,
        history: &HistorySnapshot,
        operation: &HistoryOperation,
        redo: bool,
    ) -> (r: Result<(), ScopeDenied>)
        ensures
            r is Ok <==> history_permitted(self, snapshot, history, redo),
            r matches Err(d) ==> history_denial(self, snapshot, *operation, redo, d),
    {
        let scoped_operation = if redo {
            ScopedOperation::Redo { operation_id: operation.operation_id.copy() }
        } else {
            ScopedOperation::Undo { operation_id: operation.operation_id.copy() }
        };
        if !snapshot.design.project_id.same(&self.project_id) {
            return Err(ScopeDenied::project_mismatch(&self.project_id, scoped_operation));
        }
        if !self.contains(&DesignerCapability::HistoryWrite) {
            return Err(ScopeDenied::missing(
                &self.project_id,
                scoped_operation,
                DesignerCapability::HistoryWrite,
                "history mutations are outside the caller scope",
            ));
        }
        if self.has_project_write() {
            return Ok(());
        }
        let index: Option<usize> = if redo {
            Some(history.cursor)
        } else if history.cursor > 0 {
            Some(history.cursor - 1)
        } else {
            None
        };
        let allowed = match index {
            Some(i) => if i < history.entries.len() {
                history_group_allowed(self, &snapshot.design, &history.entries[i], redo)
            } else {
                true
            },
            None => true,
        };
        if allowed {
            Ok(())
        } else {
            Err(ScopeDenied::missing(
                &self.project_id,
                scoped_operation,
                DesignerCapability::CommandWrite,
                "the history group contains commands outside the caller scope",
            ))
        }
    }
}

/// The history group an undo (the one before the cursor) or a redo (the one
/// at the cursor) would apply, if any.
pub open spec fn history_group(history: &HistorySnapshot, redo: bool) -> Option<HistoryEntry> {
    let i: int = if redo {
        history.cursor as int
    } else {
        history.cursor - 1
    };
    if 0 <= i < history.entries@.len() {
        Some(history.entries@[i])
    } else {
        None
    }
}

impl<S> ScopedDesignerSession<S> {
    /// Decide whether a query may reach the wrapped session.
    pub fn query_check(&self, snapshot: &StudioDesignSnapshot, query: &DesignerQuery) -> (r: Result<
        (),
        ScopeDenied,
    >)
        ensures
            r is Ok <==> same_project(&self.scope_view(), snapshot) && query_permitted(
                &self.scope_view(),
                &snapshot.design,
                *query,
            ),
            r matches Err(d) ==> query_denial(&self.scope_view(), snapshot, *query, d),
    {
        self.scope.query_check(snapshot, query)
    }

    /// Decide whether a command batch may reach the wrapped session.
    pub fn batch_check(&self, snapshot: &StudioDesignSnapshot, batch: &CommandBatch) -> (r: Result<
        (),
        ScopeDenied,
    >)
        ensures
            r is Ok <==> batch_permitted(&self.scope_view(), snapshot, *batch),
            r matches Err(d) ==> batch_denial(&self.scope_view(), snapshot, *batch, d),
    {
        self.scope.batch_check(snapshot, batch)
    }

    /// Decide whether an undo or redo may reach the wrapped session.
    pub fn history_check(
        &self,
        snapshot: &StudioDesignSnapshot,
        history: &HistorySnapshot,
        operation: &HistoryOperation,
        redo: bool,
    ) -> (r: Result<(), ScopeDenied>)
        ensures
            r is Ok <==> history_permitted(&self.scope_view(), snapshot, history, redo),
            r matches Err(d) ==> history_denial(&self.scope_view(), snapshot, *operation, redo, d),
    {
        self.scope.history_check(snapshot, history, operation, redo)
    }
}

} // verus!

verus! {

/// A scope with no granted capability admits no query, no command, and no
/// undo or redo.
pub proof fn lemma_empty_scope_denies(
    scope: &DesignerScope,
    snapshot: &StudioDesignSnapshot,
    history: &HistorySnapshot,
    query: DesignerQuery,
    command: Command,
    redo: bool,
)
    requires
        scope.granted() == Set::<CapKey>::empty(),
    ensures
        !query_permitted(scope, &snapshot.design, query),
        !command_permitted(scope, &snapshot.design, command),
        !history_permitted(scope, snapshot, history, redo),
{
}

/// A snapshot of another project is never readable or writable, whatever was granted.
pub proof fn lemma_other_project_denied(
    scope: &DesignerScope,
    snapshot: &StudioDesignSnapshot,
    history: &HistorySnapshot,
    batch: CommandBatch,
    redo: bool,
)
    requires
        snapshot.design.project_id@ != scope.project(),
    ensures
        !batch_permitted(scope, snapshot, batch),
        !history_permitted(scope, snapshot, history, redo),
{
}

/// Granting more capabilities never turns an admitted operation into a denied one.
pub proof fn lemma_grants_monotonic(
    small: &DesignerScope,
    large: &DesignerScope,
    snapshot: &StudioDesignSnapshot,
    query: DesignerQuery,
    batch: CommandBatch,
)
    requires
        small.project() == large.project(),
        small.granted().subset_of(large.granted()),
    ensures
        query_permitted(small, &snapshot.design, query) ==> query_permitted(
            large,
            &snapshot.design,
            query,
        ),
        batch_permitted(small, snapshot, batch) ==> batch_permitted(large, snapshot, batch),
{
    let design = &snapshot.design;
    assert forall|n: Seq<char>, pr: u8, sr: u8| node_access(small, design, n, pr, sr) implies node_access(
        large,
        design,
        n,
        pr,
        sr,
    ) by {
        if !small.grants((pr, Seq::empty())) {
            let root = choose|root: Seq<char>|
                small.grants((sr, root)) && #[trigger] in_subtree(design, n, root);
            assert(large.grants((sr, root)));
        }
    }
    assert forall|p: NodeParent| parent_access(small, design, p) implies parent_access(
        large,
        design,
        p,
    ) by {}
    assert forall|c: Command| command_permitted(small, design, c) implies command_permitted(
        large,
        design,
        c,
    ) by {}
    assert forall|p: CommandPrecondition| precondition_permitted(small, design, p) implies precondition_permitted(
        large,
        design,
        p,
    ) by {}
    if batch_permitted(small, snapshot, batch) && !large.grants(
        (RANK_COMMAND_WRITE, Seq::empty()),
    ) {
        assert forall|i: int| 0 <= i < batch.commands@.len() implies #[trigger] command_permitted(
            large,
            design,
            batch.commands@[i],
        ) by {
            assert(command_permitted(small, design, batch.commands@[i]));
        }
        assert forall|i: int| 0 <= i < batch.preconditions@.len() implies #[trigger] precondition_permitted(
            large,
            design,
            batch.preconditions@[i],
        ) by {
            assert(precondition_permitted(small, design, batch.preconditions@[i]));
        }
    }
}

/// Project-wide command writes admit every batch aimed at the bound project.
pub proof fn lemma_project_write_admits_batches(
    scope: &DesignerScope,
    snapshot: &StudioDesignSnapshot,
    batch: CommandBatch,
)
    requires
        scope.grants((RANK_COMMAND_WRITE, Seq::empty())),
        same_project(scope, snapshot),
        batch.project_id@ == scope.project(),
    ensures
        batch_permitted(scope, snapshot, batch),
{
}

/// A subtree read admits node queries for the root and every node below it.
pub proof fn lemma_subtree_read_covers_descendants(
    scope: &DesignerScope,
    snapshot: &StudioDesignSnapshot,
    root: NodeId,
    node: NodeId,
)
    requires
        scope.grants((RANK_SUBTREE_READ, root@)),
        in_subtree(&snapshot.design, node@, root@),
    ensures
        query_permitted(scope, &snapshot.design, DesignerQuery::Node { node_id: node }),
{
}

/// A node is always in its own subtree.
pub proof fn lemma_node_in_own_subtree(design: &StudioDesign, node: Seq<char>)
    ensures
        in_subtree(design, node, node),
{
    assert(ancestor(design, node, 0) == Some(node));
}

} // verus!
