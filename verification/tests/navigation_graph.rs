use studio_design::navigation::valid_route;
use studio_design::{
    DesignNode, Interaction, InteractionAction, InteractionEvent, InteractionGraph, InteractionSource, NavigationGraph,
    NavigationMode, NodeId, NodeKind, NodeParent, ProjectId, STUDIO_DESIGN_SCHEMA_VERSION, Screen, ScreenId,
    StudioDesign, InteractionId, CODE_ROUTE_DUPLICATE, CODE_ROUTE_INVALID, CODE_INTERACTION_CYCLE,
    CODE_INTERACTION_SOURCE_MISSING, CODE_INTERACTION_TARGET_MISSING,
};

fn node_id(s: &str) -> NodeId {
    NodeId::new(s).unwrap()
}

fn screen_id(s: &str) -> ScreenId {
    ScreenId::new(s).unwrap()
}

fn interaction_id(s: &str) -> InteractionId {
    InteractionId::new(s).unwrap()
}

fn add_screen(design: &mut StudioDesign, id: &str, route: &str, root: &str) {
    let screen = Screen {
        schema_version: STUDIO_DESIGN_SCHEMA_VERSION,
        id: screen_id(id),
        name: id.to_owned(),
        route: route.to_owned(),
        root_node_id: node_id(root),
    };
    design.screens.insert(screen_id(id), screen);
    design.nodes.insert(node_id(root), DesignNode::primitive(node_id(root), root, NodeKind::Box));
    design.parents.insert(node_id(root), NodeParent::Screen { screen_id: screen_id(id) });
}

fn add_child(design: &mut StudioDesign, parent: &str, child: &str) {
    design.nodes.insert(node_id(child), DesignNode::primitive(node_id(child), child, NodeKind::Text));
    design.parents.insert(node_id(child), NodeParent::Node { node_id: node_id(parent) });
}

fn add_interaction(design: &mut StudioDesign, id: &str, source: &str, action: InteractionAction) {
    let interaction = Interaction {
        schema_version: STUDIO_DESIGN_SCHEMA_VERSION,
        id: interaction_id(id),
        source: InteractionSource { node_id: node_id(source), event: InteractionEvent::Pressed },
        action,
    };
    design.interactions.insert(interaction_id(id), interaction);
}

fn base_design() -> StudioDesign {
    StudioDesign::empty(ProjectId::new("project").unwrap(), "Demo")
}

#[test]
fn routes_follow_the_bounded_syntax() {
    assert!(valid_route("/"));
    assert!(valid_route("/home"));
    assert!(valid_route("/settings/profile"));
    assert!(!valid_route(""));
    assert!(!valid_route("home"));
    assert!(!valid_route("//"));
    assert!(!valid_route("/a//b"));
    assert!(!valid_route("/a/"));
    assert!(!valid_route("/./a"));
    assert!(!valid_route("/a/.."));
    assert!(valid_route("/a/..b"));
    assert!(!valid_route("/a?b"));
    assert!(!valid_route("/a#b"));
    assert!(!valid_route("/a\\b"));
    assert!(!valid_route("/a\u{7}b"));
    assert!(valid_route(&format!("/{}", "a".repeat(2047))));
    assert!(!valid_route(&format!("/{}", "a".repeat(2048))));
}

#[test]
fn graph_lists_screens_routes_and_edges() {
    let mut design = base_design();
    add_screen(&mut design, "home", "/", "home-root");
    add_screen(&mut design, "detail", "/detail", "detail-root");
    add_child(&mut design, "home-root", "button");
    add_interaction(
        &mut design,
        "go",
        "button",
        InteractionAction::Navigate { screen_id: screen_id("detail"), mode: NavigationMode::Push },
    );
    let graph = NavigationGraph::from_design(&design);
    assert!(graph.is_valid());
    assert_eq!(graph.screens().len(), 2);
    assert_eq!(graph.screen_for_route("/detail").map(|id| id.as_str().to_owned()), Some("detail".to_owned()));
    assert_eq!(graph.route_for_screen(&screen_id("home")), Some("/"));
    assert!(graph.screen_for_route("/missing").is_none());
    let edge = graph.edges().get("go").unwrap();
    assert_eq!(edge.source_screen_id.as_ref().map(|id| id.as_str()), Some("home"));
    assert_eq!(edge.target_screen_id.as_str(), "detail");
    assert_eq!(edge.mode, NavigationMode::Push);
    assert_eq!(graph.outgoing(&screen_id("home")).len(), 1);
    assert_eq!(graph.outgoing(&screen_id("detail")).len(), 0);
    assert_eq!(graph.screen(&screen_id("detail")).map(|s| s.route.clone()), Some("/detail".to_owned()));
    assert!(NavigationGraph::new(&design).is_valid());
}

#[test]
fn invalid_and_duplicate_routes_are_diagnosed_in_screen_order() {
    let mut design = base_design();
    add_screen(&mut design, "a", "/same", "a-root");
    add_screen(&mut design, "b", "bad", "b-root");
    add_screen(&mut design, "c", "/same", "c-root");
    let graph = NavigationGraph::from_design(&design);
    let diagnostics = graph.diagnostics();
    assert_eq!(diagnostics.len(), 2);
    assert_eq!(diagnostics[0].code, CODE_ROUTE_INVALID);
    assert_eq!(diagnostics[0].message, "screen b declares an invalid route");
    assert_eq!(diagnostics[0].node_id.as_ref().map(|id| id.as_str()), Some("b-root"));
    assert_eq!(diagnostics[1].code, CODE_ROUTE_DUPLICATE);
    assert_eq!(diagnostics[1].message, "screens a and c both declare route /same");
    assert_eq!(graph.screen_for_route("/same").map(|id| id.as_str().to_owned()), Some("c".to_owned()));
    assert!(!graph.is_valid());
}

#[test]
fn missing_references_are_diagnosed() {
    let mut design = base_design();
    add_screen(&mut design, "home", "/", "home-root");
    add_interaction(&mut design, "lost", "ghost", InteractionAction::ToggleVisibility { node_id: node_id("nowhere") });
    add_interaction(
        &mut design,
        "seq",
        "home-root",
        InteractionAction::Sequence { interaction_ids: vec![interaction_id("lost"), interaction_id("missing")] },
    );
    add_interaction(
        &mut design,
        "nav",
        "home-root",
        InteractionAction::Navigate { screen_id: screen_id("nope"), mode: NavigationMode::Replace },
    );
    let graph = InteractionGraph::from_design(&design);
    let codes: Vec<(String, String)> =
        graph.diagnostics().iter().map(|d| (d.code.clone(), d.message.clone())).collect();
    assert_eq!(
        codes,
        vec![
            (CODE_INTERACTION_SOURCE_MISSING.to_owned(), "interaction lost names missing source node ghost".to_owned()),
            (CODE_INTERACTION_TARGET_MISSING.to_owned(), "interaction lost targets missing node nowhere".to_owned()),
            (CODE_INTERACTION_TARGET_MISSING.to_owned(), "interaction nav navigates to missing screen nope".to_owned()),
            (CODE_INTERACTION_TARGET_MISSING.to_owned(), "interaction seq sequences missing interaction missing".to_owned()),
        ]
    );
    assert!(!graph.is_valid());
    assert_eq!(graph.sequence_targets(&interaction_id("seq")).len(), 2);
    assert_eq!(graph.sequence_targets(&interaction_id("nav")).len(), 0);
    assert_eq!(graph.sequence_targets(&interaction_id("absent")).len(), 0);
}

#[test]
fn sequence_cycles_are_reported_once_per_member() {
    let mut design = base_design();
    add_screen(&mut design, "home", "/", "home-root");
    add_interaction(&mut design, "a", "home-root", InteractionAction::Sequence { interaction_ids: vec![interaction_id("b")] });
    add_interaction(&mut design, "b", "home-root", InteractionAction::Sequence { interaction_ids: vec![interaction_id("a")] });
    add_interaction(&mut design, "c", "home-root", InteractionAction::Emit { event: "done".to_owned() });
    let graph = InteractionGraph::from_design(&design);
    let cycles: Vec<String> = graph
        .diagnostics()
        .iter()
        .filter(|d| d.code == CODE_INTERACTION_CYCLE)
        .map(|d| d.message.clone())
        .collect();
    assert_eq!(
        cycles,
        vec!["interaction sequence contains a cycle at a".to_owned(), "interaction sequence contains a cycle at b".to_owned()]
    );
    let self_loop = {
        let mut d = base_design();
        add_screen(&mut d, "home", "/", "home-root");
        add_interaction(&mut d, "loop", "home-root", InteractionAction::Sequence { interaction_ids: vec![interaction_id("loop")] });
        InteractionGraph::from_design(&d)
    };
    assert_eq!(self_loop.diagnostics().len(), 1);
    assert_eq!(self_loop.diagnostics()[0].code, CODE_INTERACTION_CYCLE);
}

#[test]
fn inspector_uses_attached_interactions_first() {
    let mut design = base_design();
    add_screen(&mut design, "home", "/", "home-root");
    add_child(&mut design, "home-root", "button");
    add_interaction(&mut design, "first", "button", InteractionAction::Emit { event: "x".to_owned() });
    add_interaction(&mut design, "second", "button", InteractionAction::Emit { event: "y".to_owned() });
    let graph = InteractionGraph::from_design(&design);
    let all = graph.inspect(&node_id("button"), InteractionEvent::Pressed);
    assert_eq!(all.len(), 2);
    assert_eq!(all[0].interaction_id.as_str(), "first");
    assert_eq!(all[0].source_screen_id.as_ref().map(|s| s.as_str()), Some("home"));
    assert!(graph.inspect(&node_id("button"), InteractionEvent::Changed).is_empty());

}
