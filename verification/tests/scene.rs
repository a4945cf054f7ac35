use live_compositor::error::{RenderError, ValidationError};
use live_compositor::layout::{tile_layout, Rect};
use live_compositor::renderer::{
    evaluate, render_plan, Bound, InputFrame, RenderOp, RenderStep, ShownFrame,
};
use live_compositor::scene::{NodeDef, NodeKind, Scene, SceneDef};
use live_compositor::topology::topological_order;
use live_compositor::web_renderer::Resolution;

const HD: Resolution = Resolution { width: 1280, height: 720 };

fn node(id: &str, kind: NodeKind, children: &[&str]) -> NodeDef {
    NodeDef {
        id: id.to_string(),
        kind,
        children: children.iter().map(|c| c.to_string()).collect(),
        resolution: HD,
    }
}

fn tiles(id: &str, children: &[&str]) -> NodeDef {
    node(id, NodeKind::Tiles { padding: 3, background_color_rgba: 0xDDDDDDFF }, children)
}

fn image(id: &str, image_id: &str) -> NodeDef {
    node(id, NodeKind::Image { image_id: image_id.to_string() }, &[])
}

fn input(id: &str, input_id: &str) -> NodeDef {
    node(id, NodeKind::InputStream { input_id: input_id.to_string() }, &[])
}

fn scene(root: &str, nodes: Vec<NodeDef>) -> SceneDef {
    SceneDef { root: root.to_string(), nodes }
}

fn ids(scene: &Scene) -> Vec<String> {
    (0..scene.len()).map(|i| scene.node(i).id.clone()).collect()
}

fn position(scene: &Scene, id: &str) -> usize {
    ids(scene).iter().position(|x| x == id).unwrap()
}

#[test]
fn an_order_puts_every_node_after_what_it_depends_on() {
    // 0 depends on 1 and 2, 1 on 2, 3 on nothing.
    let graph = vec![vec![1, 2], vec![2], vec![], vec![]];
    let (order, position) = topological_order(&graph).unwrap();
    assert_eq!(order.len(), 4);
    for (node, at) in position.iter().enumerate() {
        assert_eq!(order[*at], node);
    }
    assert!(position[2] < position[1]);
    assert!(position[1] < position[0]);
    assert!(position[2] < position[0]);
}

#[test]
fn a_graph_with_a_cycle_has_no_order() {
    assert!(topological_order(&vec![vec![1], vec![2], vec![0]]).is_none());
    assert!(topological_order(&vec![vec![0]]).is_none());
    assert!(topological_order(&vec![vec![], vec![2], vec![1]]).is_none());
}

#[test]
fn an_empty_graph_has_the_empty_order() {
    let (order, position) = topological_order(&vec![]).unwrap();
    assert!(order.is_empty());
    assert!(position.is_empty());
}

#[test]
fn a_scene_is_built_children_first() {
    let def = scene(
        "root",
        vec![tiles("root", &["a", "b"]), tiles("a", &["b"]), image("b", "image_1")],
    );
    let built = Scene::build(&def).unwrap();
    assert_eq!(built.len(), 3);
    let mut sorted = ids(&built);
    sorted.sort();
    assert_eq!(sorted, vec!["a", "b", "root"]);
    assert_eq!(built.node(built.root()).id, "root");
    for at in 0..built.len() {
        let node = built.node(at);
        let children = built.children(at);
        assert_eq!(children.len(), node.children.len());
        for (k, child) in children.iter().enumerate() {
            assert!(*child < at);
            assert_eq!(built.node(*child).id, node.children[k]);
        }
    }
}

#[test]
fn a_scene_whose_root_is_missing_is_no_valid_graph() {
    let def = scene("root", vec![image("a", "image_1")]);
    assert_eq!(Scene::build(&def).unwrap_err(), ValidationError::InvalidGraph);
    assert_eq!(Scene::build(&scene("root", vec![])).unwrap_err(), ValidationError::InvalidGraph);
}

#[test]
fn a_scene_with_a_repeated_id_is_no_valid_graph() {
    let def = scene("root", vec![tiles("root", &["a"]), image("a", "x"), image("a", "y")]);
    assert_eq!(Scene::build(&def).unwrap_err(), ValidationError::InvalidGraph);
}

#[test]
fn a_scene_with_a_child_that_is_no_node_is_no_valid_graph() {
    let def = scene("root", vec![tiles("root", &["a", "missing"]), image("a", "x")]);
    assert_eq!(Scene::build(&def).unwrap_err(), ValidationError::InvalidGraph);
}

#[test]
fn a_scene_with_an_unknown_kind_is_no_valid_graph() {
    let def = scene("root", vec![tiles("root", &["a"]), node("a", NodeKind::Unknown, &[])]);
    assert_eq!(Scene::build(&def).unwrap_err(), ValidationError::InvalidGraph);
}

#[test]
fn a_scene_with_a_cycle_is_no_valid_graph() {
    let def = scene("root", vec![tiles("root", &["a"]), tiles("a", &["b"]), tiles("b", &["a"])]);
    assert_eq!(Scene::build(&def).unwrap_err(), ValidationError::InvalidGraph);
    let own_child = scene("root", vec![tiles("root", &["root"])]);
    assert_eq!(Scene::build(&own_child).unwrap_err(), ValidationError::InvalidGraph);
}

#[test]
fn a_node_may_have_several_parents() {
    let def = scene(
        "root",
        vec![tiles("root", &["left", "right"]), tiles("left", &["shared"]), tiles("right", &["shared"]), image("shared", "x")],
    );
    assert!(Scene::build(&def).is_ok());
}

#[test]
fn tiles_fill_a_grid_row_by_row() {
    let tiles = tile_layout(2, HD, 3);
    // Two columns, one row: (1280 - 3 * 3) / 2 = 635 wide, 720 - 2 * 3 = 714 high.
    assert_eq!(
        tiles,
        vec![
            Rect { x: 3, y: 3, width: 635, height: 714 },
            Rect { x: 641, y: 3, width: 635, height: 714 },
        ]
    );
    let five = tile_layout(5, Resolution { width: 100, height: 100 }, 0);
    // Three columns, two rows.
    assert_eq!(five[0], Rect { x: 0, y: 0, width: 33, height: 50 });
    assert_eq!(five[2], Rect { x: 66, y: 0, width: 33, height: 50 });
    assert_eq!(five[3], Rect { x: 0, y: 50, width: 33, height: 50 });
    assert_eq!(five[4], Rect { x: 33, y: 50, width: 33, height: 50 });
}

#[test]
fn one_tile_fills_the_texture_within_its_padding() {
    assert_eq!(tile_layout(1, HD, 10), vec![Rect { x: 10, y: 10, width: 1260, height: 700 }]);
    assert_eq!(tile_layout(0, HD, 10), vec![]);
}

#[test]
fn tiles_without_room_are_empty() {
    let small = Resolution { width: 10, height: 10 };
    let empty = Rect { x: 0, y: 0, width: 0, height: 0 };
    assert_eq!(tile_layout(2, small, 4), vec![empty, empty]);
    assert_eq!(tile_layout(4, Resolution { width: 0, height: 0 }, 0), vec![empty; 4]);
}

#[test]
fn tiles_lie_on_the_texture_and_apart() {
    let resolution = Resolution { width: 1000, height: 500 };
    for count in 1..30usize {
        let tiles = tile_layout(count, resolution, 7);
        assert_eq!(tiles.len(), count);
        for (i, a) in tiles.iter().enumerate() {
            assert!(a.x + a.width <= resolution.width);
            assert!(a.y + a.height <= resolution.height);
            assert!(a.width > 0 && a.height > 0);
            for b in &tiles[i + 1..] {
                let apart = a.x + a.width <= b.x
                    || b.x + b.width <= a.x
                    || a.y + a.height <= b.y
                    || b.y + b.height <= a.y;
                assert!(apart);
            }
        }
    }
}

fn frames() -> Vec<InputFrame> {
    vec![
        InputFrame { input_id: "input_1".to_string(), frame: Some(ShownFrame { pts: 40, data: 7 }) },
        InputFrame { input_id: "input_2".to_string(), frame: None },
    ]
}

#[test]
fn an_input_node_shows_the_frame_of_its_input() {
    let (op, error) = evaluate(&input("a", "input_1"), &Bound::Nothing, &frames());
    assert!(matches!(op, RenderOp::Frame { pts: 40, data: 7 }));
    assert_eq!(error, None);
}

#[test]
fn an_input_node_without_a_frame_shows_nothing() {
    for id in ["input_2", "input_3"] {
        let (op, error) = evaluate(&input("a", id), &Bound::Nothing, &frames());
        assert!(matches!(op, RenderOp::Blank));
        assert_eq!(error, None);
    }
}

#[test]
fn an_image_node_shows_what_it_holds() {
    let (op, error) = evaluate(&image("a", "image_1"), &Bound::Image { texture: 9 }, &frames());
    assert!(matches!(op, RenderOp::Image { texture: 9 }));
    assert_eq!(error, None);
    let (op, error) = evaluate(&image("a", "image_1"), &Bound::Nothing, &frames());
    assert!(matches!(op, RenderOp::Blank));
    assert_eq!(error, Some(RenderError::SourceGone));
}

#[test]
fn a_shader_node_runs_what_it_holds() {
    let shader = node("s", NodeKind::Shader { shader_id: "x".to_string() }, &["a"]);
    let (op, error) = evaluate(&shader, &Bound::Shader { program: 5 }, &frames());
    assert!(matches!(op, RenderOp::Shader { program: 5 }));
    assert_eq!(error, None);
    let (op, error) = evaluate(&shader, &Bound::Image { texture: 5 }, &frames());
    assert!(matches!(op, RenderOp::Blank));
    assert_eq!(error, Some(RenderError::SourceGone));
}

#[test]
fn a_web_renderer_node_shows_nothing_and_says_why() {
    let web = node("w", NodeKind::WebRenderer { instance_id: "x".to_string() }, &[]);
    let bound = Bound::WebRenderer { url: "https://example.com".to_string() };
    let (op, error) = evaluate(&web, &bound, &frames());
    assert!(matches!(op, RenderOp::Blank));
    assert_eq!(error, Some(RenderError::CapabilityUnavailable));
}

#[test]
fn a_tiles_node_lays_its_children_out() {
    let (op, error) = evaluate(&tiles("t", &["a", "b"]), &Bound::Nothing, &frames());
    assert_eq!(error, None);
    match op {
        RenderOp::Tiles { placements, background_color_rgba } => {
            assert_eq!(placements, tile_layout(2, HD, 3));
            assert_eq!(background_color_rgba, 0xDDDDDDFF);
        }
        other => panic!("unexpected op {other:?}"),
    }
}

#[test]
fn a_tiles_node_uses_the_layout_it_holds() {
    let held = vec![Rect { x: 1, y: 2, width: 3, height: 4 }];
    let bound = Bound::Layout { placements: held.clone() };
    let (op, _) = evaluate(&tiles("t", &["a", "b"]), &bound, &frames());
    match op {
        RenderOp::Tiles { placements, .. } => assert_eq!(placements, held),
        other => panic!("unexpected op {other:?}"),
    }
}

fn check_plan(scene: &Scene, plan: &[RenderStep]) {
    assert_eq!(plan.last().unwrap().node, scene.root());
    for (s, step) in plan.iter().enumerate() {
        let children = scene.children(step.node);
        assert_eq!(step.inputs.len(), children.len());
        for (k, input) in step.inputs.iter().enumerate() {
            assert!(*input < s);
            assert_eq!(plan[*input].node, children[k]);
        }
        if s + 1 < plan.len() {
            assert!(plan[s + 1..].iter().any(|later| later.inputs.contains(&s)));
            assert!(step.node < plan[s + 1].node);
        }
    }
}

#[test]
fn a_shared_node_is_rendered_once() {
    let def = scene(
        "root",
        vec![tiles("root", &["left", "right"]), tiles("left", &["shared"]), tiles("right", &["shared"]), input("shared", "input_1")],
    );
    let built = Scene::build(&def).unwrap();
    let bounds = vec![Bound::Nothing, Bound::Nothing, Bound::Nothing, Bound::Nothing];
    let plan = render_plan(&built, &bounds, &frames());
    assert_eq!(plan.len(), 4);
    check_plan(&built, &plan);
    let shared = position(&built, "shared");
    assert_eq!(plan.iter().filter(|s| s.node == shared).count(), 1);
    let shared_step = plan.iter().position(|s| s.node == shared).unwrap();
    assert!(matches!(plan[shared_step].op, RenderOp::Frame { pts: 40, data: 7 }));
    let users = plan.iter().filter(|s| s.inputs.contains(&shared_step)).count();
    assert_eq!(users, 2);
}

#[test]
fn what_the_root_does_not_need_is_not_rendered() {
    let def = scene(
        "root",
        vec![image("spare", "x"), tiles("root", &["a"]), image("a", "y"), tiles("above", &["root"])],
    );
    let built = Scene::build(&def).unwrap();
    let bounds: Vec<Bound> = (0..4).map(|_| Bound::Image { texture: 1 }).collect();
    let plan = render_plan(&built, &bounds, &frames());
    assert_eq!(plan.len(), 2);
    check_plan(&built, &plan);
    let rendered: Vec<String> = plan.iter().map(|s| built.node(s.node).id.clone()).collect();
    assert_eq!(rendered, vec!["a", "root"]);
    assert_eq!(plan[1].resolution, HD);
}

#[test]
fn a_scene_of_one_node_is_rendered_in_one_step() {
    let built = Scene::build(&scene("only", vec![image("only", "x")])).unwrap();
    let plan = render_plan(&built, &vec![Bound::Image { texture: 3 }], &vec![]);
    assert_eq!(plan.len(), 1);
    assert!(plan[0].inputs.is_empty());
    assert!(matches!(plan[0].op, RenderOp::Image { texture: 3 }));
    assert_eq!(plan[0].error, None);
}
