use studio_design::manipulation::{delete_batch, reorder_batch, restore_batch};
use studio_design::{
    Actor, ActorId, ActorKind, Command, CommandPrecondition, DeletionTombstone, DesignNode, GestureContext,
    ManipulationError, NodeId, NodeKind, NodeParent, OperationId, OrderedMap, ProjectId, RevisionId, RevisionMetadata,
    RevisionReason, STUDIO_DESIGN_SCHEMA_VERSION, Screen, ScreenId, StudioDesign, StudioDesignSnapshot, UndoGroupId,
};

fn nid(s: &str) -> NodeId {
    NodeId::new(s).unwrap()
}

fn actor() -> Actor {
    Actor { id: ActorId::new("user").unwrap(), kind: ActorKind::Human, display_name: "User".to_owned() }
}

fn context() -> GestureContext {
    GestureContext::new(
        OperationId::new("op").unwrap(),
        actor(),
        ProjectId::new("p").unwrap(),
        RevisionId::new(3),
        UndoGroupId::new("group").unwrap(),
    )
}

/// Screen `home` with root `root`; `root` holds `a`, `b`, `c`; `a` holds `a1`.
fn design() -> StudioDesign {
    let mut design = StudioDesign::empty(ProjectId::new("p").unwrap(), "Demo");
    let sid = ScreenId::new("home").unwrap();
    let mut root = DesignNode::primitive(nid("root"), "Root", NodeKind::Box);
    for c in ["a", "b", "c"] {
        root.children.push(nid(c));
        design.nodes.insert(nid(c), DesignNode::primitive(nid(c), c, NodeKind::Box));
        design.parents.insert(nid(c), NodeParent::Node { node_id: nid("root") });
    }
    let mut a = design.nodes.get("a").unwrap().clone();
    a.children.push(nid("a1"));
    design.nodes.insert(nid("a"), a);
    design.nodes.insert(nid("a1"), DesignNode::primitive(nid("a1"), "a1", NodeKind::Text));
    design.parents.insert(nid("a1"), NodeParent::Node { node_id: nid("a") });
    design.nodes.insert(nid("root"), root);
    design.parents.insert(nid("root"), NodeParent::Screen { screen_id: sid.clone() });
    design.screens.insert(
        sid.clone(),
        Screen {
            schema_version: STUDIO_DESIGN_SCHEMA_VERSION,
            id: sid.clone(),
            name: "Home".to_owned(),
            route: "/".to_owned(),
            root_node_id: nid("root"),
        },
    );
    design.screen_order.push(sid);
    design
}

fn deleted(batch: &studio_design::CommandBatch) -> Vec<String> {
    batch
        .commands
        .iter()
        .map(|c| match c {
            Command::DeleteNode { node_id } => node_id.as_str().to_owned(),
            other => panic!("unexpected {other:?}"),
        })
        .collect()
}

#[test]
fn reorder_is_guarded_by_parent_and_index() {
    let d = design();
    let batch = reorder_batch(&context(), &d, nid("c"), 0).unwrap();
    assert_eq!(batch.undo_group_name, "Reorder layer");
    assert_eq!(batch.base_revision, RevisionId::new(3));
    assert_eq!(batch.commands, vec![Command::ReorderNode { node_id: nid("c"), index: 0 }]);
    assert_eq!(
        batch.preconditions,
        vec![
            CommandPrecondition::NodeExists { node_id: nid("c") },
            CommandPrecondition::ParentEquals { node_id: nid("c"), parent: NodeParent::Node { node_id: nid("root") } },
            CommandPrecondition::ChildIndexEquals { node_id: nid("c"), index: 2 },
        ]
    );
    assert_eq!(reorder_batch(&context(), &d, nid("root"), 0).unwrap_err(), ManipulationError::RootNode(nid("root")));
    assert_eq!(reorder_batch(&context(), &d, nid("ghost"), 0).unwrap_err(), ManipulationError::MissingNode(nid("ghost")));
}

#[test]
fn delete_takes_topmost_layers_last_sibling_first() {
    let d = design();
    let batch = delete_batch(&context(), &d, &[nid("a"), nid("c"), nid("a1"), nid("a")]).unwrap();
    assert_eq!(batch.undo_group_name, "Delete selection");
    assert_eq!(deleted(&batch), vec!["c", "a"]);
    assert_eq!(
        batch.preconditions,
        vec![CommandPrecondition::NodeExists { node_id: nid("c") }, CommandPrecondition::NodeExists { node_id: nid("a") }]
    );
    assert_eq!(deleted(&delete_batch(&context(), &d, &[nid("b"), nid("c"), nid("a")]).unwrap()), vec!["c", "b", "a"]);
    assert_eq!(delete_batch(&context(), &d, &[]).unwrap_err(), ManipulationError::EmptySelection);
    assert_eq!(delete_batch(&context(), &d, &[nid("a"), nid("root")]).unwrap_err(), ManipulationError::RootNode(nid("root")));
    assert_eq!(delete_batch(&context(), &d, &[nid("ghost"), nid("root")]).unwrap_err(), ManipulationError::MissingNode(nid("ghost")));
}

fn tombstone(root: &str, index: usize) -> DeletionTombstone {
    let mut nodes = OrderedMap::new();
    nodes.insert(nid(root), DesignNode::primitive(nid(root), root, NodeKind::Box));
    let mut parents = OrderedMap::new();
    parents.insert(nid(root), NodeParent::Node { node_id: nid("root") });
    DeletionTombstone {
        schema_version: STUDIO_DESIGN_SCHEMA_VERSION,
        root_node_id: nid(root),
        nodes,
        parents,
        detached_from: NodeParent::Node { node_id: nid("root") },
        detached_index: index,
        deleted_in_revision: Some(RevisionId::new(2)),
        references: Vec::new(),
    }
}

fn snapshot() -> StudioDesignSnapshot {
    let mut tombstones = OrderedMap::new();
    tombstones.insert(nid("x"), tombstone("x", 2));
    tombstones.insert(nid("y"), tombstone("y", 0));
    tombstones.insert(nid("z"), tombstone("z", 2));
    StudioDesignSnapshot {
        revision: RevisionMetadata {
            id: RevisionId::new(3),
            parent_id: Some(RevisionId::new(2)),
            operation_id: OperationId::new("op").unwrap(),
            actor: actor(),
            undo_group_id: UndoGroupId::new("group").unwrap(),
            undo_group_name: "Edit".to_owned(),
            reason: RevisionReason::Command,
        },
        design: design(),
        tombstones,
    }
}

#[test]
fn restore_follows_recorded_positions() {
    let s = snapshot();
    let batch = restore_batch(&context(), &s, &[nid("z"), nid("x"), nid("y"), nid("z")]).unwrap();
    assert_eq!(batch.undo_group_name, "Restore selection");
    assert!(batch.preconditions.is_empty());
    let restored: Vec<(String, usize)> = batch
        .commands
        .iter()
        .map(|c| match c {
            Command::RestoreNode { tombstone } => (tombstone.root_node_id.as_str().to_owned(), tombstone.detached_index),
            other => panic!("unexpected {other:?}"),
        })
        .collect();
    assert_eq!(restored, vec![("y".to_owned(), 0), ("x".to_owned(), 2), ("z".to_owned(), 2)]);
    match &batch.commands[0] {
        Command::RestoreNode { tombstone } => assert_eq!(**tombstone, tombstone_of(&s, "y")),
        _ => unreachable!(),
    }
    assert_eq!(restore_batch(&context(), &s, &[]).unwrap_err(), ManipulationError::EmptySelection);
    assert_eq!(
        restore_batch(&context(), &s, &[nid("x"), nid("w")]).unwrap_err(),
        ManipulationError::MissingTombstone(nid("w"))
    );
}

fn tombstone_of(s: &StudioDesignSnapshot, id: &str) -> DeletionTombstone {
    s.tombstones.get(id).unwrap().clone()
}

fn shape(n: &studio_design::HierarchyNode) -> String {
    let kids: Vec<String> = n.children.iter().map(shape).collect();
    if kids.is_empty() {
        format!("{}@{}", n.node_id.as_str(), n.index)
    } else {
        format!("{}@{}[{}]", n.node_id.as_str(), n.index, kids.join(","))
    }
}

#[test]
fn hierarchy_places_each_node_once() {
    let mut d = design();
    let mut root = d.nodes.get("root").unwrap().clone();
    root.children.push(nid("ghost"));
    root.children.push(nid("a"));
    d.nodes.insert(nid("root"), root);
    let cid = studio_design::CompositionId::new("card").unwrap();
    d.nodes.insert(nid("card-root"), DesignNode::primitive(nid("card-root"), "Card", NodeKind::Box));
    d.parents.insert(nid("card-root"), NodeParent::Composition { composition_id: cid.clone() });
    let h = studio_design::HierarchySnapshot::from_design(&d);
    let shapes: Vec<String> = h.roots.iter().map(shape).collect();
    assert_eq!(shapes, vec!["root@0[a@0[a1@0],b@1,c@2]", "card-root@0"]);
    assert_eq!(h.roots[0].parent, NodeParent::Screen { screen_id: ScreenId::new("home").unwrap() });
    assert_eq!(h.roots[1].parent, NodeParent::Composition { composition_id: cid });
    assert_eq!(h.roots[0].children[1].parent, NodeParent::Node { node_id: nid("root") });
    assert_eq!(h.roots[0].name, "Root");
    assert_eq!(h.find(&nid("a1")).map(|n| n.index), Some(0));
    assert!(h.find(&nid("ghost")).is_none());
}
