use studio_design::prototype::{PrototypeEffect, PrototypeError, PrototypeEvent, PrototypeSession};
use studio_design::{
    DesignNode, Interaction, InteractionAction, InteractionEvent, InteractionId, InteractionSource, NavigationMode,
    NodeId, NodeKind, NodeParent, ProjectId, PropertyValue, STUDIO_DESIGN_SCHEMA_VERSION, Screen, ScreenId,
    StudioDesign,
};

fn nid(s: &str) -> NodeId {
    NodeId::new(s).unwrap()
}

fn sid(s: &str) -> ScreenId {
    ScreenId::new(s).unwrap()
}

fn iid(s: &str) -> InteractionId {
    InteractionId::new(s).unwrap()
}

fn add_screen(design: &mut StudioDesign, screen: &str, route: &str, root: &str) {
    design.nodes.insert(nid(root), DesignNode::primitive(nid(root), root, NodeKind::Box));
    design.parents.insert(nid(root), NodeParent::Screen { screen_id: sid(screen) });
    design.screens.insert(
        sid(screen),
        Screen {
            schema_version: STUDIO_DESIGN_SCHEMA_VERSION,
            id: sid(screen),
            name: screen.to_owned(),
            route: route.to_owned(),
            root_node_id: nid(root),
        },
    );
    design.screen_order.push(sid(screen));
}

fn add_child(design: &mut StudioDesign, parent: &str, child: &str) {
    let mut p = design.nodes.get(parent).unwrap().clone();
    p.children.push(nid(child));
    design.nodes.insert(nid(parent), p);
    design.nodes.insert(nid(child), DesignNode::primitive(nid(child), child, NodeKind::Text));
    design.parents.insert(nid(child), NodeParent::Node { node_id: nid(parent) });
}

fn add_interaction(design: &mut StudioDesign, id: &str, source: &str, event: InteractionEvent, action: InteractionAction) {
    design.interactions.insert(
        iid(id),
        Interaction {
            schema_version: STUDIO_DESIGN_SCHEMA_VERSION,
            id: iid(id),
            source: InteractionSource { node_id: nid(source), event },
            action,
        },
    );
}

/// Screens `home` (`/`) and `detail` (`/detail`); `home` holds `button` and `label`.
fn base() -> StudioDesign {
    let mut design = StudioDesign::empty(ProjectId::new("p").unwrap(), "Demo");
    add_screen(&mut design, "home", "/", "home-root");
    add_screen(&mut design, "detail", "/detail", "detail-root");
    add_child(&mut design, "home-root", "button");
    add_child(&mut design, "home-root", "label");
    design
}

fn navigate(target: &str, mode: NavigationMode) -> InteractionAction {
    InteractionAction::Navigate { screen_id: sid(target), mode }
}

fn press(node: &str) -> PrototypeEvent {
    PrototypeEvent { node_id: nid(node), event: InteractionEvent::Pressed }
}

fn stack(session: &PrototypeSession) -> Vec<String> {
    session.state().screen_stack.iter().map(|s| s.as_str().to_owned()).collect()
}

#[test]
fn a_session_starts_on_the_first_screen() {
    let session = PrototypeSession::new(base()).unwrap();
    assert_eq!(session.active_screen_id().map(|s| s.as_str()), Some("home"));
    assert_eq!(session.active_route(), Some("/"));
    assert!(session.trace().is_empty());
    let at = PrototypeSession::new_at(base(), sid("detail")).unwrap();
    assert_eq!(at.active_route(), Some("/detail"));
}

#[test]
fn construction_failures_are_typed() {
    let empty = StudioDesign::empty(ProjectId::new("p").unwrap(), "Empty");
    assert_eq!(PrototypeSession::new(empty).unwrap_err(), PrototypeError::NoScreens);
    assert_eq!(
        PrototypeSession::new_at(base(), sid("nowhere")).unwrap_err(),
        PrototypeError::StartScreenMissing(sid("nowhere"))
    );
    let mut broken = base();
    add_interaction(&mut broken, "go", "button", InteractionEvent::Pressed, navigate("ghost", NavigationMode::Push));
    match PrototypeSession::new(broken).unwrap_err() {
        PrototypeError::InvalidDesign(ds) => assert!(!ds.is_empty()),
        other => panic!("unexpected {other:?}"),
    }
}

#[test]
fn a_press_navigates_and_is_traced() {
    let mut design = base();
    add_interaction(&mut design, "go", "button", InteractionEvent::Pressed, navigate("detail", NavigationMode::Push));
    let before = design.clone();
    let mut session = PrototypeSession::new(design).unwrap();
    let out = session.dispatch(press("button"));
    assert_eq!(out.interaction_ids, vec![iid("go")]);
    assert!(out.diagnostics.is_empty());
    assert_eq!(out.trace.len(), 1);
    assert_eq!(out.trace[0].index, 0);
    assert_eq!(
        out.trace[0].effect,
        PrototypeEffect::Navigate { from_screen_id: sid("home"), to_screen_id: sid("detail"), mode: NavigationMode::Push }
    );
    assert_eq!(stack(&session), vec!["home", "detail"]);
    assert_eq!(out.state.active_screen_id, Some(sid("detail")));
    assert_eq!(session.active_route(), Some("/detail"));
    assert_eq!(session.design(), &before);

    let again = session.dispatch(press("button"));
    assert_eq!(again.trace[0].index, 1);
    assert_eq!(session.trace().len(), 2);
    assert_eq!(stack(&session), vec!["home", "detail", "detail"]);
}

#[test]
fn a_sequence_runs_its_steps_in_order() {
    let mut design = base();
    add_interaction(
        &mut design,
        "a-set",
        "label",
        InteractionEvent::Changed,
        InteractionAction::SetProperty {
            node_id: nid("label"),
            property: "text".to_owned(),
            value: PropertyValue::String("Hi".to_owned()),
        },
    );
    add_interaction(&mut design, "b-hide", "label", InteractionEvent::Changed, InteractionAction::ToggleVisibility { node_id: nid("label") });
    add_interaction(&mut design, "c-shout", "label", InteractionEvent::Changed, InteractionAction::Emit { event: "shout".to_owned() });
    add_interaction(
        &mut design,
        "seq",
        "button",
        InteractionEvent::Pressed,
        InteractionAction::Sequence { interaction_ids: vec![iid("a-set"), iid("b-hide"), iid("c-shout")] },
    );
    let mut session = PrototypeSession::new(design).unwrap();
    assert_eq!(session.is_visible(&nid("label")), Some(true));
    assert_eq!(session.property(&nid("label"), "text"), None);
    let out = session.dispatch(press("button"));
    assert_eq!(out.interaction_ids, vec![iid("seq"), iid("a-set"), iid("b-hide"), iid("c-shout")]);
    let traced: Vec<&str> = out.trace.iter().map(|e| e.interaction_id.as_str()).collect();
    assert_eq!(traced, vec!["a-set", "b-hide", "c-shout", "seq"]);
    let indices: Vec<usize> = out.trace.iter().map(|e| e.index).collect();
    assert_eq!(indices, vec![0, 1, 2, 3]);
    assert_eq!(session.property(&nid("label"), "text"), Some(PropertyValue::String("Hi".to_owned())));
    assert_eq!(session.is_visible(&nid("label")), Some(false));
    assert_eq!(out.state.emitted_events, vec!["shout".to_owned()]);
    assert_eq!(out.state.visibility.get("label"), Some(&false));
    assert!(session.design().nodes.get("label").unwrap().properties.is_empty());

    let second = session.dispatch(press("button"));
    assert_eq!(session.is_visible(&nid("label")), Some(true));
    assert_eq!(second.trace[0].index, 4);
}

#[test]
fn unknown_nodes_and_interactions_are_reported() {
    let mut session = PrototypeSession::new(base()).unwrap();
    let out = session.dispatch(press("ghost"));
    assert_eq!(out.diagnostics.len(), 1);
    assert_eq!(out.diagnostics[0].code, "PROTOTYPE_SOURCE_NODE_MISSING");
    assert_eq!(out.diagnostics[0].message, "prototype event names missing node ghost");
    assert!(out.trace.is_empty());

    let direct = session.dispatch_interaction(&iid("nope"));
    assert_eq!(direct.event.node_id.as_str(), "missing:nope");
    assert_eq!(direct.diagnostics[0].code, "PROTOTYPE_INTERACTION_MISSING");
    assert_eq!(direct.diagnostics[0].message, "prototype sequence names missing interaction nope");
    assert!(direct.interaction_ids.is_empty());
}

#[test]
fn navigation_modes_follow_the_stack() {
    let mut design = base();
    add_screen(&mut design, "third", "/third", "third-root");
    add_interaction(&mut design, "push-detail", "button", InteractionEvent::Pressed, navigate("detail", NavigationMode::Push));
    add_interaction(&mut design, "replace-third", "button", InteractionEvent::Changed, navigate("third", NavigationMode::Replace));
    add_interaction(&mut design, "pop-home", "button", InteractionEvent::Focused, navigate("home", NavigationMode::PopTo));
    add_interaction(&mut design, "pop-detail", "button", InteractionEvent::Blurred, navigate("detail", NavigationMode::PopTo));
    add_interaction(&mut design, "reset-detail", "button", InteractionEvent::Submitted, navigate("detail", NavigationMode::Reset));
    let mut session = PrototypeSession::new(design).unwrap();
    session.dispatch_interaction(&iid("push-detail"));
    session.dispatch_interaction(&iid("push-detail"));
    assert_eq!(stack(&session), vec!["home", "detail", "detail"]);
    session.dispatch_interaction(&iid("replace-third"));
    assert_eq!(stack(&session), vec!["home", "detail", "third"]);
    session.dispatch_interaction(&iid("pop-detail"));
    assert_eq!(stack(&session), vec!["home", "detail"]);
    session.dispatch_interaction(&iid("pop-home"));
    assert_eq!(stack(&session), vec!["home"]);
    let missing = session.dispatch_interaction(&iid("pop-detail"));
    assert_eq!(missing.diagnostics[0].code, "PROTOTYPE_NAVIGATION_TARGET_NOT_IN_STACK");
    assert_eq!(missing.diagnostics[0].message, "prototype pop-to target detail is not in the stack");
    assert!(missing.trace.is_empty());
    assert_eq!(missing.interaction_ids, vec![iid("pop-detail")]);
    session.dispatch_interaction(&iid("reset-detail"));
    assert_eq!(stack(&session), vec!["detail"]);
}

#[test]
fn the_stack_depth_is_bounded() {
    let mut design = base();
    add_interaction(&mut design, "go", "button", InteractionEvent::Pressed, navigate("detail", NavigationMode::Push));
    let mut session = PrototypeSession::new(design).unwrap();
    for _ in 0..31 {
        assert!(session.dispatch(press("button")).diagnostics.is_empty());
    }
    assert_eq!(session.state().screen_stack.len(), 32);
    let out = session.dispatch(press("button"));
    assert_eq!(out.diagnostics[0].code, "PROTOTYPE_STACK_OVERFLOW");
    assert_eq!(session.state().screen_stack.len(), 32);
}
