//! Reusable composition definitions and their instances: checking a
//! definition, defining, updating and removing it, and editing the inputs and
//! admitted overrides of one instance.
use vstd::prelude::*;
use vstd::string::StringExecFns;
use vstd::utf8::encode_utf8;

use crate::command::Command;
use crate::content::{diag_view, is_blank, valid_field_name};
use crate::design_rules::{is_owned_by, matches_kind, owned_by, value_matches_kind};
use crate::engine::{
    Problem, diagnostic, error_view, is_valid_field_name, node_diagnostic, put_node, reports, same_but_nodes,
    take_node, validate_property_value, value_in, value_problem, with_value,
};
use crate::ids::{CompositionId, NodeId};
use crate::model::{
    CompositionInput, DesignNode, DesignNodeSource, DesignerDiagnostic, NodeParent, PropertyValue,
    ReusableComposition, STUDIO_DESIGN_SCHEMA_VERSION, SlotDefinition, StudioDesign,
};
use crate::ordered_map::{MapKey, OrderedMap};
use crate::text::{has_control, trim_whitespace};

verus! {

/// A composition name holds `1..=128` UTF-8 bytes, is not blank and has no
/// control characters.
pub open spec fn valid_composition_name(name: Seq<char>) -> bool {
    trim_whitespace(name).len() != 0 && encode_utf8(name).len() <= 128 && !has_control(name)
}

/// The first problem among the declared input defaults, in input order: a
/// default that is not a valid property value, or one whose kind differs
/// from the input's declared kind.
pub open spec fn defaults_problem(design: &StudioDesign, s: Seq<(String, CompositionInput)>, root: NodeId) -> Option<Problem>
    decreases s.len(),
{
    if s.len() == 0 {
        None
    } else {
        match defaults_problem(design, s.drop_last(), root) {
            Some(p) => Some(p),
            None => match s.last().1.default {
                Some(v) => match value_problem(design, v, Some(root)) {
                    Some(p) => Some(p),
                    None => if matches_kind(design, v, s.last().1.value_kind) {
                        None
                    } else {
                        Some((
                            "DESIGN_COMPOSITION_INPUT_TYPE"@,
                            "a composition input default does not match its declared type"@,
                            Some(root@),
                        ))
                    },
                },
                None => None,
            },
        }
    }
}

/// A problem found among the first `k` inputs is the first problem of all.
proof fn lemma_defaults_prefix(design: &StudioDesign, s: Seq<(String, CompositionInput)>, k: int, root: NodeId)
    requires
        0 <= k <= s.len(),
        defaults_problem(design, s.take(k), root) is Some,
    ensures
        defaults_problem(design, s, root) == defaults_problem(design, s.take(k), root),
    decreases s.len(),
{
    if k == s.len() {
        assert(s.take(k) =~= s);
    } else {
        assert(s.drop_last().take(k) =~= s.take(k));
        lemma_defaults_prefix(design, s.drop_last(), k, root);
    }
}

/// Whether some key of a map is not a safe field name.
pub open spec fn some_key_bad<V>(keys: Seq<Seq<char>>) -> bool {
    exists|i: int| 0 <= i < keys.len() && !valid_field_name(#[trigger] keys[i])
}

/// The first problem of a composition definition against a design, if any.
pub open spec fn composition_problem(design: &StudioDesign, c: ReusableComposition) -> Option<Problem> {
    let root = Some(c.root_node_id@);
    if c.schema_version != STUDIO_DESIGN_SCHEMA_VERSION || !design.nodes@.contains_key(c.root_node_id@) || !owned_by(
        design,
        c.root_node_id@,
        NodeParent::Composition { composition_id: c.id },
    ) {
        Some(("DESIGN_COMPOSITION_INVALID"@, "a composition requires a valid composition-owned root node"@, root))
    } else if !valid_composition_name(c.name@) || c.definition_version == 0 {
        Some((
            "DESIGN_COMPOSITION_INVALID"@,
            "a composition name must be safe and its definition version non-zero"@,
            root,
        ))
    } else {
        match defaults_problem(design, c.inputs.entry_seq(), c.root_node_id) {
            Some(p) => Some(p),
            None => if some_key_bad::<CompositionInput>(c.inputs.key_seq()) || some_key_bad::<SlotDefinition>(
                c.slots.key_seq(),
            ) {
                Some((
                    "DESIGN_COMPOSITION_CONTRACT_INVALID"@,
                    "composition input and slot names must contain 1..=128 safe bytes"@,
                    root,
                ))
            } else {
                None
            },
        }
    }
}

/// Whether every key of a map is a safe field name.
fn keys_ok<V>(m: &OrderedMap<String, V>) -> (r: bool)
    ensures
        r == !some_key_bad::<V>(m.key_seq()),
{
    let n = m.len();
    let mut i: usize = 0;
    while i < n
        invariant
            n == m.entry_seq().len(),
            i <= n,
            forall|j: int| 0 <= j < i ==> valid_field_name(#[trigger] m.key_seq()[j]),
        decreases n - i,
    {
        let k = m.key_at(i);
        if !is_valid_field_name(k.as_str()) {
            assert(!valid_field_name(m.key_seq()[i as int]));
            return false;
        }
        i = i + 1;
    }
    true
}

/// Check the declared input defaults in input order.
fn check_defaults(design: &StudioDesign, c: &ReusableComposition) -> (r: Result<(), DesignerDiagnostic>)
    ensures
        match defaults_problem(design, c.inputs.entry_seq(), c.root_node_id) {
            Some(p) => r matches Err(d) && reports(d, p),
            None => r is Ok,
        },
{
    let ghost s = c.inputs.entry_seq();
    let n = c.inputs.len();
    let mut i: usize = 0;
    assert(s.take(0) =~= Seq::<(String, CompositionInput)>::empty());
    while i < n
        invariant
            n == s.len(),
            s == c.inputs.entry_seq(),
            i <= n,
            defaults_problem(design, s.take(i as int), c.root_node_id) is None,
        decreases n - i,
    {
        assert(s.take(i + 1).drop_last() =~= s.take(i as int));
        assert(s.take(i + 1).last() == s[i as int]);
        let input = c.inputs.value_at(i);
        match &input.default {
            Some(v) => {
                match validate_property_value(design, v, Some(&c.root_node_id)) {
                    Err(e) => {
                        proof {
                            lemma_defaults_prefix(design, s, i + 1, c.root_node_id);
                        }
                        return Err(e);
                    },
                    Ok(()) => {},
                }
                if !value_matches_kind(design, v, input.value_kind) {
                    proof {
                        lemma_defaults_prefix(design, s, i + 1, c.root_node_id);
                    }
                    return Err(
                        diagnostic(
                            "DESIGN_COMPOSITION_INPUT_TYPE",
                            "a composition input default does not match its declared type",
                            Some(c.root_node_id.copy()),
                        ),
                    );
                }
            },
            None => {},
        }
        i = i + 1;
    }
    assert(s.take(n as int) =~= s);
    Ok(())
}

/// Check a composition definition against the design it would join.
pub fn validate_composition(design: &StudioDesign, composition: &ReusableComposition) -> (r: Result<(), DesignerDiagnostic>)
    ensures
        match composition_problem(design, *composition) {
            Some(p) => r matches Err(d) && reports(d, p),
            None => r is Ok,
        },
{
    let owner = NodeParent::Composition { composition_id: composition.id.copy() };
    if composition.schema_version != STUDIO_DESIGN_SCHEMA_VERSION || !design.nodes.contains_key(
        composition.root_node_id.as_str(),
    ) || !is_owned_by(design, &composition.root_node_id, &owner) {
        return Err(
            diagnostic(
                "DESIGN_COMPOSITION_INVALID",
                "a composition requires a valid composition-owned root node",
                Some(composition.root_node_id.copy()),
            ),
        );
    }
    if is_blank(composition.name.as_str()) || crate::text::utf8_byte_len(composition.name.as_str()) > 128
        || crate::text::contains_control(composition.name.as_str()) || composition.definition_version == 0 {
        return Err(
            diagnostic(
                "DESIGN_COMPOSITION_INVALID",
                "a composition name must be safe and its definition version non-zero",
                Some(composition.root_node_id.copy()),
            ),
        );
    }
    match check_defaults(design, composition) {
        Err(e) => {
            return Err(e);
        },
        Ok(()) => {},
    }
    if !keys_ok(&composition.inputs) || !keys_ok(&composition.slots) {
        return Err(
            diagnostic(
                "DESIGN_COMPOSITION_CONTRACT_INVALID",
                "composition input and slot names must contain 1..=128 safe bytes",
                Some(composition.root_node_id.copy()),
            ),
        );
    }
    Ok(())
}

/// Whether two designs agree everywhere but in their composition definitions.
pub open spec fn same_but_compositions(a: StudioDesign, b: StudioDesign) -> bool {
    &&& a.schema_version == b.schema_version
    &&& a.project_id == b.project_id
    &&& a.name == b.name
    &&& a.nodes == b.nodes
    &&& a.parents == b.parents
    &&& a.screens == b.screens
    &&& a.screen_order == b.screen_order
    &&& a.tokens == b.tokens
    &&& a.responsive_variants == b.responsive_variants
    &&& a.interactions == b.interactions
    &&& a.collections == b.collections
    &&& a.bindings == b.bindings
    &&& a.forms == b.forms
}

/// The diagnostic for a command that names an unknown composition.
pub open spec fn composition_missing_view() -> crate::content::DiagView {
    error_view("DESIGN_COMPOSITION_MISSING"@, "the composition does not exist"@, None)
}

/// Register a new composition definition, returning the command that removes it.
pub fn define_composition(design: &mut StudioDesign, composition: ReusableComposition) -> (r: Result<Command, DesignerDiagnostic>)
    ensures
        match composition_problem(old(design), composition) {
            Some(p) => r matches Err(d) && reports(d, p),
            None => if old(design).compositions@.contains_key(composition.id@) {
                r matches Err(d) && diag_view(d) == error_view(
                    "DESIGN_COMPOSITION_EXISTS"@,
                    "the composition identity already exists"@,
                    None,
                )
            } else {
                &&& r == Ok::<Command, DesignerDiagnostic>(Command::RemoveComposition { composition_id: composition.id })
                &&& final(design).compositions@ == old(design).compositions@.insert(composition.id@, composition)
                &&& same_but_compositions(*old(design), *final(design))
            },
        },
        r is Err ==> *final(design) == *old(design),
{
    match validate_composition(design, &composition) {
        Err(e) => {
            return Err(e);
        },
        Ok(()) => {},
    }
    if design.compositions.contains_key(composition.id.as_str()) {
        return Err(diagnostic("DESIGN_COMPOSITION_EXISTS", "the composition identity already exists", None));
    }
    let id = composition.id.copy();
    design.compositions.insert(composition.id.copy(), composition);
    Ok(Command::RemoveComposition { composition_id: id })
}

/// Whether a node is an instance of the composition named `cid`.
pub open spec fn instance_of(node: DesignNode, cid: Seq<char>) -> bool {
    node.source matches DesignNodeSource::CompositionInstance { composition_id, .. } && composition_id@ == cid
}

/// A node moved to a new definition version when it instantiates `cid`.
pub open spec fn bumped(node: DesignNode, cid: Seq<char>, version: u32) -> DesignNode {
    match node.source {
        DesignNodeSource::CompositionInstance { composition_id, definition_version, inputs, admitted_overrides } => {
            if composition_id@ == cid {
                DesignNode {
                    source: DesignNodeSource::CompositionInstance {
                        composition_id,
                        definition_version: version,
                        inputs,
                        admitted_overrides,
                    },
                    ..node
                }
            } else {
                node
            }
        },
        _ => node,
    }
}

fn is_instance_of(node: &DesignNode, cid: &CompositionId) -> (r: bool)
    ensures
        r == instance_of(*node, cid@),
{
    match &node.source {
        DesignNodeSource::CompositionInstance { composition_id, .. } => composition_id.same(cid),
        _ => false,
    }
}

/// The node identities of a design, in map order.
fn node_keys(design: &StudioDesign) -> (r: Vec<NodeId>)
    ensures
        crate::engine::ids(r@) == design.nodes.key_seq(),
{
    let n = design.nodes.len();
    let mut out: Vec<NodeId> = Vec::new();
    let mut i: usize = 0;
    while i < n
        invariant
            n == design.nodes.entry_seq().len(),
            i <= n,
            crate::engine::ids(out@) == design.nodes.key_seq().take(i as int),
        decreases n - i,
    {
        let k = design.nodes.key_at(i).copy();
        assert(design.nodes.key_seq()[i as int] == design.nodes.entry_seq()[i as int].0.key_view());
        let ghost prev = out@;
        out.push(k);
        assert(out@ == prev.push(k));
        assert(crate::engine::ids(out@) =~= crate::engine::ids(prev).push(k@));
        assert(design.nodes.key_seq().take(i + 1) =~= design.nodes.key_seq().take(i as int).push(
            design.nodes.key_seq()[i as int],
        ));
        i = i + 1;
    }
    assert(design.nodes.key_seq().take(n as int) =~= design.nodes.key_seq());
    out
}

/// Move every instance of `cid` to definition version `version`.
fn bump_instances(design: &mut StudioDesign, cid: &CompositionId, version: u32)
    ensures
        same_but_nodes(*old(design), *final(design)),
        final(design).nodes@.dom() == old(design).nodes@.dom(),
        forall|k: Seq<char>| #[trigger] final(design).nodes@.contains_key(k) ==> final(design).nodes@[k] == bumped(
            old(design).nodes@[k],
            cid@,
            version,
        ),
{
    let keys = node_keys(design);
    let ghost ks = crate::engine::ids(keys@);
    let ghost old_nodes = design.nodes@;
    let ghost start = *design;
    design.nodes.reveal_entries();
    let mut i: usize = 0;
    while i < keys.len()
        invariant
            ks == crate::engine::ids(keys@),
            ks == start.nodes.key_seq(),
            old_nodes == start.nodes@,
            crate::ordered_map::strictly_sorted(ks),
            forall|k: Seq<char>| #[trigger] old_nodes.contains_key(k) <==> ks.contains(k),
            i <= keys.len(),
            same_but_nodes(start, *design),
            design.nodes@.dom() == old_nodes.dom(),
            forall|j: int| 0 <= j < ks.len() ==> #[trigger] design.nodes@[ks[j]] == if j < i {
                bumped(old_nodes[ks[j]], cid@, version)
            } else {
                old_nodes[ks[j]]
            },
        decreases keys.len() - i,
    {
        let k = &keys[i];
        assert(ks[i as int] == k@);
        assert(ks.contains(k@));
        let hit = match design.nodes.get(k.as_str()) {
            Some(node) => is_instance_of(node, cid),
            None => false,
        };
        if hit {
            let ghost before = *design;
            let node = take_node(design, k);
            let DesignNode {
                schema_version,
                id,
                name,
                source,
                children,
                properties,
                layout,
                style,
                accessibility,
                responsive_overrides,
                interaction_ids,
            } = node;
            let source = match source {
                DesignNodeSource::CompositionInstance { composition_id, definition_version: _, inputs, admitted_overrides } => {
                    DesignNodeSource::CompositionInstance { composition_id, definition_version: version, inputs, admitted_overrides }
                },
                other => other,
            };
            put_node(
                design,
                k,
                DesignNode {
                    schema_version,
                    id,
                    name,
                    source,
                    children,
                    properties,
                    layout,
                    style,
                    accessibility,
                    responsive_overrides,
                    interaction_ids,
                },
            );
            assert(design.nodes@ =~= before.nodes@.insert(k@, design.nodes@[k@]));
        }
        proof {
            assert forall|j: int| 0 <= j < ks.len() implies #[trigger] design.nodes@[ks[j]] == if j < i + 1 {
                bumped(old_nodes[ks[j]], cid@, version)
            } else {
                old_nodes[ks[j]]
            } by {
                if j != i {
                    crate::ordered_map::lemma_sorted_distinct(ks, j, i as int);
                }
            }
        }
        i = i + 1;
    }
    proof {
        assert forall|k: Seq<char>| #[trigger] design.nodes@.contains_key(k) implies design.nodes@[k] == bumped(
            old_nodes[k],
            cid@,
            version,
        ) by {
            let j = ks.index_of(k);
            assert(ks[j] == k);
        }
    }
}

/// The design after a composition definition is replaced: the definition is
/// stored, its instances move to its version, and nothing else changes.
pub open spec fn composition_updated(a: StudioDesign, b: StudioDesign, c: ReusableComposition) -> bool {
    &&& b.compositions@ == a.compositions@.insert(c.id@, c)
    &&& b.nodes@.dom() == a.nodes@.dom()
    &&& forall|k: Seq<char>| #[trigger] b.nodes@.contains_key(k) ==> b.nodes@[k] == bumped(
        a.nodes@[k],
        c.id@,
        c.definition_version,
    )
    &&& a.schema_version == b.schema_version
    &&& a.project_id == b.project_id
    &&& a.name == b.name
    &&& a.parents == b.parents
    &&& a.screens == b.screens
    &&& a.screen_order == b.screen_order
    &&& a.tokens == b.tokens
    &&& a.responsive_variants == b.responsive_variants
    &&& a.interactions == b.interactions
    &&& a.collections == b.collections
    &&& a.bindings == b.bindings
    &&& a.forms == b.forms
}

/// Replace a composition definition and move its instances to the new
/// definition version, returning the command that puts the previous
/// definition back.
pub fn update_composition(design: &mut StudioDesign, composition: ReusableComposition) -> (r: Result<Command, DesignerDiagnostic>)
    ensures
        match composition_problem(old(design), composition) {
            Some(p) => r matches Err(d) && reports(d, p),
            None => if !old(design).compositions@.contains_key(composition.id@) {
                r matches Err(d) && diag_view(d) == composition_missing_view()
            } else {
                let prior = old(design).compositions@[composition.id@];
                if composition.root_node_id@ != prior.root_node_id@ {
                    r matches Err(d) && diag_view(d) == error_view(
                        "DESIGN_COMPOSITION_ROOT_IMMUTABLE"@,
                        "a composition definition cannot change its root identity"@,
                        Some(prior.root_node_id),
                    )
                } else if composition.definition_version == prior.definition_version {
                    r matches Err(d) && diag_view(d) == error_view(
                        "DESIGN_COMPOSITION_VERSION_INVALID"@,
                        "a composition update must change definition_version"@,
                        Some(composition.root_node_id),
                    )
                } else {
                    &&& r == Ok::<Command, DesignerDiagnostic>(Command::UpdateComposition { composition: prior })
                    &&& composition_updated(*old(design), *final(design), composition)
                }
            },
        },
        r is Err ==> *final(design) == *old(design),
{
    match validate_composition(design, &composition) {
        Err(e) => {
            return Err(e);
        },
        Ok(()) => {},
    }
    let (prior_root, prior_version) = match design.compositions.get(composition.id.as_str()) {
        Some(p) => (p.root_node_id.copy(), p.definition_version),
        None => {
            return Err(diagnostic("DESIGN_COMPOSITION_MISSING", "the composition does not exist", None));
        },
    };
    if !composition.root_node_id.same(&prior_root) {
        return Err(
            diagnostic(
                "DESIGN_COMPOSITION_ROOT_IMMUTABLE",
                "a composition definition cannot change its root identity",
                Some(prior_root),
            ),
        );
    }
    if composition.definition_version == prior_version {
        return Err(
            diagnostic(
                "DESIGN_COMPOSITION_VERSION_INVALID",
                "a composition update must change definition_version",
                Some(composition.root_node_id.copy()),
            ),
        );
    }
    let prior = store_update(design, composition);
    Ok(Command::UpdateComposition { composition: prior })
}

fn store_update(design: &mut StudioDesign, composition: ReusableComposition) -> (r: ReusableComposition)
    requires
        old(design).compositions@.contains_key(composition.id@),
    ensures
        r == old(design).compositions@[composition.id@],
        composition_updated(*old(design), *final(design), composition),
{
    let ghost c = composition;
    let cid = composition.id.copy();
    let version = composition.definition_version;
    let prior = design.compositions.insert(composition.id.copy(), composition);
    bump_instances(design, &cid, version);
    prior.unwrap()
}

/// Whether some node instantiates the composition named `cid`.
pub open spec fn composition_in_use(design: &StudioDesign, cid: Seq<char>) -> bool {
    exists|k: Seq<char>| #[trigger] design.nodes@.contains_key(k) && instance_of(design.nodes@[k], cid)
}

fn has_instances(design: &StudioDesign, cid: &CompositionId) -> (r: bool)
    ensures
        r == composition_in_use(design, cid@),
{
    design.nodes.reveal_entries();
    let n = design.nodes.len();
    let mut i: usize = 0;
    while i < n
        invariant
            n == design.nodes.entry_seq().len(),
            i <= n,
            forall|j: int| 0 <= j < i ==> !instance_of(#[trigger] design.nodes.entry_seq()[j].1, cid@),
        decreases n - i,
    {
        if is_instance_of(design.nodes.value_at(i), cid) {
            design.nodes.reveal_entries();
            let ghost k = design.nodes.entry_seq()[i as int].0.key_view();
            assert(design.nodes@[k] == design.nodes.entry_seq()[i as int].1);
            assert(design.nodes.key_seq()[i as int] == k);
            assert(design.nodes@.contains_key(k));
            return true;
        }
        i = i + 1;
    }
    proof {
        assert forall|k: Seq<char>| #[trigger] design.nodes@.contains_key(k) implies !instance_of(
            design.nodes@[k],
            cid@,
        ) by {
            let j = design.nodes.key_seq().index_of(k);
            assert(design.nodes.key_seq()[j] == k);
            assert(design.nodes.entry_seq()[j].0.key_view() == k);
        }
    }
    false
}

/// Remove a composition definition that no node instantiates, returning the
/// command that defines it again.
pub fn remove_composition(design: &mut StudioDesign, composition_id: &CompositionId) -> (r: Result<Command, DesignerDiagnostic>)
    ensures
        !old(design).compositions@.contains_key(composition_id@) ==> (r matches Err(d) && diag_view(d)
            == composition_missing_view()),
        old(design).compositions@.contains_key(composition_id@) && composition_in_use(old(design), composition_id@)
            ==> (r matches Err(d) && diag_view(d) == error_view(
            "DESIGN_COMPOSITION_IN_USE"@,
            "remove every composition instance before removing the definition"@,
            Some(old(design).compositions@[composition_id@].root_node_id),
        )),
        r is Ok <==> old(design).compositions@.contains_key(composition_id@) && !composition_in_use(
            old(design),
            composition_id@,
        ),
        r is Err ==> *final(design) == *old(design),
        r is Ok ==> {
            &&& r == Ok::<Command, DesignerDiagnostic>(
                Command::DefineComposition { composition: old(design).compositions@[composition_id@] },
            )
            &&& final(design).compositions@ == old(design).compositions@.remove(composition_id@)
            &&& same_but_compositions(*old(design), *final(design))
        },
{
    let root = match design.compositions.get(composition_id.as_str()) {
        Some(c) => c.root_node_id.copy(),
        None => {
            return Err(diagnostic("DESIGN_COMPOSITION_MISSING", "the composition does not exist", None));
        },
    };
    if has_instances(design, composition_id) {
        return Err(
            diagnostic(
                "DESIGN_COMPOSITION_IN_USE",
                "remove every composition instance before removing the definition",
                Some(root),
            ),
        );
    }
    match design.compositions.remove(composition_id.as_str()) {
        Some(composition) => Ok(Command::DefineComposition { composition }),
        None => Err(diagnostic("DESIGN_COMPOSITION_MISSING", "the composition does not exist", None)),
    }
}

/// The first problem of setting or clearing one input (or admitted override)
/// of a composition instance, if any.
pub open spec fn input_edit_problem(
    design: &StudioDesign,
    node_id: NodeId,
    input: Seq<char>,
    value: Option<PropertyValue>,
    override_value: bool,
) -> Option<Problem> {
    let at_node = Some(node_id@);
    if !valid_field_name(input) {
        Some(("DESIGN_COMPOSITION_INPUT_INVALID"@, "a composition input name must contain 1..=128 safe bytes"@, at_node))
    } else if !design.nodes@.contains_key(node_id@) {
        Some(("DESIGN_NODE_MISSING"@, "the command references an unknown node identity"@, at_node))
    } else {
        match design.nodes@[node_id@].source {
            DesignNodeSource::CompositionInstance { composition_id, .. } => {
                if !design.compositions@.contains_key(composition_id@) {
                    Some(("DESIGN_COMPOSITION_MISSING"@, "the composition does not exist"@, None))
                } else {
                    let contract = design.compositions@[composition_id@].inputs@;
                    if !contract.contains_key(input) {
                        Some((
                            "DESIGN_COMPOSITION_INPUT_UNKNOWN"@,
                            "the input is not declared by the composition contract"@,
                            at_node,
                        ))
                    } else if override_value && !contract[input].overridable {
                        Some((
                            "DESIGN_COMPOSITION_OVERRIDE_FORBIDDEN"@,
                            "the composition contract does not admit an override for this input"@,
                            at_node,
                        ))
                    } else {
                        match value {
                            Some(v) => match value_problem(design, v, Some(node_id)) {
                                Some(p) => Some(p),
                                None => if matches_kind(design, v, contract[input].value_kind) {
                                    None
                                } else {
                                    Some((
                                        "DESIGN_COMPOSITION_INPUT_TYPE"@,
                                        "the value does not match the composition input type"@,
                                        at_node,
                                    ))
                                },
                            },
                            None => None,
                        }
                    }
                }
            },
            _ => Some((
                "DESIGN_COMPOSITION_INSTANCE_REQUIRED"@,
                "the command targets a primitive node, not a composition instance"@,
                at_node,
            )),
        }
    }
}

/// Whether two nodes agree in everything but their source.
pub open spec fn same_but_source(a: DesignNode, b: DesignNode) -> bool {
    &&& a.schema_version == b.schema_version
    &&& a.id == b.id
    &&& a.name == b.name
    &&& a.children == b.children
    &&& a.properties == b.properties
    &&& a.layout == b.layout
    &&& a.style == b.style
    &&& a.accessibility == b.accessibility
    &&& a.responsive_overrides == b.responsive_overrides
    &&& a.interaction_ids == b.interaction_ids
}

/// The map an input edit writes: the admitted overrides or the inputs.
pub open spec fn edited_map(source: DesignNodeSource, override_value: bool) -> Map<Seq<char>, PropertyValue> {
    match source {
        DesignNodeSource::CompositionInstance { inputs, admitted_overrides, .. } => if override_value {
            admitted_overrides@
        } else {
            inputs@
        },
        _ => Map::empty(),
    }
}

/// Whether `after` is `before` with one instance input (or admitted override)
/// set to `value`, or cleared when `value` is `None`.
pub open spec fn input_edited(
    before: DesignNode,
    after: DesignNode,
    input: Seq<char>,
    value: Option<PropertyValue>,
    override_value: bool,
) -> bool {
    &&& same_but_source(before, after)
    &&& match (before.source, after.source) {
        (
            DesignNodeSource::CompositionInstance { composition_id: c1, definition_version: v1, inputs: i1, admitted_overrides: o1 },
            DesignNodeSource::CompositionInstance { composition_id: c2, definition_version: v2, inputs: i2, admitted_overrides: o2 },
        ) => {
            &&& c1 == c2
            &&& v1 == v2
            &&& if override_value {
                i2 == i1 && o2@ == with_value(o1@, input, value)
            } else {
                o2 == o1 && i2@ == with_value(i1@, input, value)
            }
        },
        _ => false,
    }
}

/// Set or clear one declared input, or one contract-admitted override, of a
/// composition instance, returning the command that restores the previous
/// value.
pub fn set_composition_input(
    design: &mut StudioDesign,
    node_id: &NodeId,
    input: &str,
    value: Option<PropertyValue>,
    override_value: bool,
) -> (r: Result<Command, DesignerDiagnostic>)
    ensures
        match input_edit_problem(old(design), *node_id, input@, value, override_value) {
            Some(p) => r matches Err(d) && reports(d, p),
            None => {
                let before = old(design).nodes@[node_id@];
                let after = final(design).nodes@[node_id@];
                let prior = value_in(edited_map(before.source, override_value), input@);
                &&& r matches Ok(c) && if override_value {
                    c matches Command::SetCompositionOverride { node_id: n, input: q, value: v } && n == *node_id
                        && q@ == input@ && v == prior
                } else {
                    c matches Command::SetCompositionInput { node_id: n, input: q, value: v } && n == *node_id
                        && q@ == input@ && v == prior
                }
                &&& crate::engine::node_replaced(*old(design), *final(design), node_id@)
                &&& input_edited(before, after, input@, value, override_value)
            },
        },
        r is Err ==> *final(design) == *old(design),
{
    if !is_valid_field_name(input) {
        return Err(
            node_diagnostic(
                "DESIGN_COMPOSITION_INPUT_INVALID",
                "a composition input name must contain 1..=128 safe bytes",
                node_id,
            ),
        );
    }
    let cid = match design.nodes.get(node_id.as_str()) {
        Some(node) => match &node.source {
            DesignNodeSource::CompositionInstance { composition_id, .. } => composition_id.copy(),
            _ => {
                return Err(
                    node_diagnostic(
                        "DESIGN_COMPOSITION_INSTANCE_REQUIRED",
                        "the command targets a primitive node, not a composition instance",
                        node_id,
                    ),
                );
            },
        },
        None => {
            return Err(crate::engine::missing_node(node_id));
        },
    };
    let (kind, overridable) = match design.compositions.get(cid.as_str()) {
        Some(c) => match c.inputs.get(input) {
            Some(contract) => (contract.value_kind, contract.overridable),
            None => {
                return Err(
                    node_diagnostic(
                        "DESIGN_COMPOSITION_INPUT_UNKNOWN",
                        "the input is not declared by the composition contract",
                        node_id,
                    ),
                );
            },
        },
        None => {
            return Err(diagnostic("DESIGN_COMPOSITION_MISSING", "the composition does not exist", None));
        },
    };
    if override_value && !overridable {
        return Err(
            node_diagnostic(
                "DESIGN_COMPOSITION_OVERRIDE_FORBIDDEN",
                "the composition contract does not admit an override for this input",
                node_id,
            ),
        );
    }
    match &value {
        Some(v) => {
            match validate_property_value(design, v, Some(node_id)) {
                Err(e) => {
                    return Err(e);
                },
                Ok(()) => {},
            }
            if !value_matches_kind(design, v, kind) {
                return Err(
                    node_diagnostic(
                        "DESIGN_COMPOSITION_INPUT_TYPE",
                        "the value does not match the composition input type",
                        node_id,
                    ),
                );
            }
        },
        None => {},
    }
    let ghost old_nodes = design.nodes@;
    let node = take_node(design, node_id);
    let DesignNode {
        schema_version,
        id,
        name,
        source,
        children,
        properties,
        layout,
        style,
        accessibility,
        responsive_overrides,
        interaction_ids,
    } = node;
    let (source, prior) = match source {
        DesignNodeSource::CompositionInstance { composition_id, definition_version, mut inputs, mut admitted_overrides } => {
            let prior = if override_value {
                match value {
                    Some(v) => admitted_overrides.insert(String::from_str(input), v),
                    None => admitted_overrides.remove(input),
                }
            } else {
                match value {
                    Some(v) => inputs.insert(String::from_str(input), v),
                    None => inputs.remove(input),
                }
            };
            (DesignNodeSource::CompositionInstance { composition_id, definition_version, inputs, admitted_overrides }, prior)
        },
        other => (other, None),
    };
    put_node(
        design,
        node_id,
        DesignNode {
            schema_version,
            id,
            name,
            source,
            children,
            properties,
            layout,
            style,
            accessibility,
            responsive_overrides,
            interaction_ids,
        },
    );
    assert(design.nodes@ =~= old_nodes.insert(node_id@, design.nodes@[node_id@]));
    if override_value {
        Ok(Command::SetCompositionOverride { node_id: node_id.copy(), input: String::from_str(input), value: prior })
    } else {
        Ok(Command::SetCompositionInput { node_id: node_id.copy(), input: String::from_str(input), value: prior })
    }
}

/// Defining a composition and then removing it, as the command that
/// `define_composition` returns does, leaves the design as it was.
pub proof fn lemma_define_then_remove(before: StudioDesign, defined: StudioDesign, removed: StudioDesign, c: ReusableComposition)
    requires
        !before.compositions@.contains_key(c.id@),
        defined.compositions@ == before.compositions@.insert(c.id@, c),
        same_but_compositions(before, defined),
        removed.compositions@ == defined.compositions@.remove(c.id@),
        same_but_compositions(defined, removed),
    ensures
        removed.compositions@ == before.compositions@,
        same_but_compositions(before, removed),
{
    crate::engine::lemma_keyed_edit_undo(before.compositions@, c.id@, c);
}

/// Editing an instance input (or admitted override) and then writing back
/// the value the edit returned leaves the instance as it was.
pub proof fn lemma_input_edit_undo(
    before: DesignNode,
    edited: DesignNode,
    restored: DesignNode,
    input: Seq<char>,
    value: Option<PropertyValue>,
    override_value: bool,
)
    requires
        input_edited(before, edited, input, value, override_value),
        input_edited(edited, restored, input, value_in(edited_map(before.source, override_value), input), override_value),
    ensures
        same_but_source(before, restored),
        edited_map(restored.source, override_value) == edited_map(before.source, override_value),
        edited_map(restored.source, !override_value) == edited_map(before.source, !override_value),
{
    crate::engine::lemma_property_write_undo(edited_map(before.source, override_value), input, value);
}

} // verus!
