use unifi_tui::geometry::{
    model_to_screen, screen_to_model, Area, MODEL_SPAN, ZOOM_MAX, ZOOM_MIN, ZOOM_UNIT,
};
use unifi_tui::graph::{build_nodes, ClientLink, ClientSummary, DeviceSummary};
use unifi_tui::node::{ClientType, Color, DeviceState, DeviceType, NetworkNode, NodeType, Shape};
use unifi_tui::render::Primitive;
use unifi_tui::topology_view::{PointerEvent, PointerKind, TopologyView};

const GW: u128 = 1;
const SW1: u128 = 2;
const C1: u128 = 3;

fn device(id: u128, name: &str, features: &[&str]) -> DeviceSummary {
    DeviceSummary {
        id,
        name: name.to_string(),
        state: DeviceState::Online,
        features: features.iter().map(|f| f.to_string()).collect(),
    }
}

fn wired(id: u128, name: Option<&str>, uplink: u128) -> ClientSummary {
    ClientSummary {
        id,
        name: name.map(|n| n.to_string()),
        link: ClientLink::Wired { uplink_device_id: uplink },
    }
}

fn wireless(id: u128, name: Option<&str>, uplink: u128) -> ClientSummary {
    ClientSummary {
        id,
        name: name.map(|n| n.to_string()),
        link: ClientLink::Wireless { uplink_device_id: uplink },
    }
}

fn node(view: &TopologyView, id: u128) -> &NetworkNode {
    view.nodes.iter().find(|n| n.id == id).expect("node present")
}

/// gw (root), sw1 under gw, wired client c1 under sw1.
fn scenario_a() -> TopologyView {
    let mut view = TopologyView::new();
    let devices = vec![device(GW, "gw", &[]), device(SW1, "sw1", &["switching"])];
    let clients = vec![wired(C1, Some("c1"), SW1)];
    let uplinks = vec![(SW1, GW)];
    view.update_from_state(&devices, &clients, &uplinks);
    view
}

/// A 100 x 100 cell canvas inside a one-cell border.
fn area() -> Area {
    Area { x: 0, y: 0, width: 102, height: 102 }
}

fn event(kind: PointerKind, column: u16, row: u16) -> PointerEvent {
    PointerEvent { kind, column, row }
}

#[test]
fn scenario_a_bands_follow_depth() {
    let view = scenario_a();
    let gw = node(&view, GW);
    let sw1 = node(&view, SW1);
    let c1 = node(&view, C1);
    assert!(gw.y < sw1.y && sw1.y < c1.y);
    assert_eq!((gw.x, gw.y), (50_000, 20_000));
    assert_eq!((sw1.x, sw1.y), (50_000, 40_000));
    assert_eq!((c1.x, c1.y), (50_000, 60_000));
    assert_eq!(gw.children, vec![SW1]);
    assert_eq!(sw1.children, vec![C1]);
    assert!(c1.children.is_empty());
}

#[test]
fn scenario_b_drag_moves_node_right() {
    let mut view = scenario_a();
    // sw1 sits at model (50, 40): screen cell (51, 41) at zoom 1.0.
    view.handle_mouse_event(event(PointerKind::Down, 51, 41), area());
    assert_eq!(view.selected_node, Some(SW1));
    assert_eq!(view.dragging_node, Some(SW1));
    view.handle_mouse_event(event(PointerKind::Drag, 61, 41), area());
    let sw1 = node(&view, SW1);
    assert_eq!((sw1.x, sw1.y), (60_000, 40_000));
    assert_eq!(view.pan_offset, (0, 0));
}

#[test]
fn scenario_b_drag_is_clamped_at_the_edge() {
    let mut view = scenario_a();
    view.handle_mouse_event(event(PointerKind::Down, 51, 41), area());
    view.handle_mouse_event(event(PointerKind::Drag, 161, 41), area());
    assert_eq!(node(&view, SW1).x, MODEL_SPAN);
    view.handle_mouse_event(event(PointerKind::Drag, 0, 0), area());
    let sw1 = node(&view, SW1);
    assert!(sw1.x >= 0 && sw1.y >= 0);
    assert_eq!(sw1.y, 0);
}

#[test]
fn scenario_c_orphan_client_joins_root_band() {
    let mut view = TopologyView::new();
    let devices = vec![device(GW, "gw", &[])];
    let clients = vec![wireless(5, Some("laptop"), 99)];
    view.update_from_state(&devices, &clients, &vec![]);
    let gw = node(&view, GW);
    let laptop = node(&view, 5);
    assert_eq!(gw.y, 20_000);
    assert_eq!(laptop.y, 20_000);
    assert_eq!(gw.x, 33_333);
    assert_eq!(laptop.x, 66_666);
    assert_eq!(laptop.parent_id, Some(99));
}

#[test]
fn layout_twice_is_identical() {
    let mut view = scenario_a();
    view.handle_mouse_event(event(PointerKind::Down, 51, 41), area());
    view.handle_mouse_event(event(PointerKind::Drag, 70, 20), area());
    view.initialize_layout();
    let first: Vec<(u128, i64, i64)> = view.nodes.iter().map(|n| (n.id, n.x, n.y)).collect();
    view.initialize_layout();
    let second: Vec<(u128, i64, i64)> = view.nodes.iter().map(|n| (n.id, n.x, n.y)).collect();
    assert_eq!(first, second);
    assert_eq!(node(&view, SW1).x, 50_000);
}

#[test]
fn positions_stay_in_model_space() {
    let mut view = TopologyView::new();
    // A chain seven levels deep: the deepest bands are clamped to the bottom edge.
    let devices: Vec<DeviceSummary> = (1..=7).map(|i| device(i, "d", &[])).collect();
    let uplinks: Vec<(u128, u128)> = (2..=7).map(|i| (i, i - 1)).collect();
    view.update_from_state(&devices, &vec![], &uplinks);
    for n in &view.nodes {
        assert!(0 <= n.x && n.x <= MODEL_SPAN && 0 <= n.y && n.y <= MODEL_SPAN);
    }
    assert_eq!(node(&view, 5).y, 100_000);
    assert_eq!(node(&view, 7).y, 100_000);
    view.zoom_out();
    view.handle_mouse_event(event(PointerKind::Down, 51, 21), area());
    view.handle_mouse_event(event(PointerKind::Drag, 0, 101), area());
    for n in &view.nodes {
        assert!(0 <= n.x && n.x <= MODEL_SPAN && 0 <= n.y && n.y <= MODEL_SPAN);
    }
}

#[test]
fn siblings_spread_under_parent() {
    let mut view = TopologyView::new();
    let devices = vec![device(GW, "gw", &[])];
    let clients = vec![wired(10, Some("a"), GW), wired(11, Some("b"), GW), wired(12, Some("c"), GW)];
    view.update_from_state(&devices, &clients, &vec![]);
    assert_eq!(node(&view, 10).x, 25_000);
    assert_eq!(node(&view, 11).x, 50_000);
    assert_eq!(node(&view, 12).x, 75_000);
    assert_eq!(node(&view, GW).children, vec![10, 11, 12]);
}

#[test]
fn cycle_members_rest_at_origin() {
    let mut view = TopologyView::new();
    let devices = vec![device(1, "a", &[]), device(2, "b", &[]), device(3, "self", &[])];
    let uplinks = vec![(1, 2), (2, 1), (3, 3)];
    view.update_from_state(&devices, &vec![], &uplinks);
    for n in &view.nodes {
        assert_eq!((n.x, n.y), (0, 0));
    }
    assert_eq!(node(&view, 3).children, vec![3]);
}

#[test]
fn transform_round_trip() {
    for &(mx, my) in &[(0i64, 0i64), (100_000, 100_000), (12_345, 99_999), (50_000, 1)] {
        for &zoom in &[ZOOM_MIN, 833, ZOOM_UNIT, 1_728, ZOOM_MAX] {
            for &pan in &[(0i64, 0i64), (-30_000, 7_001), (123_456_789, -987_654_321)] {
                let (sx, sy) = model_to_screen(mx, my, zoom, pan);
                assert_eq!(screen_to_model(sx, sy, zoom, pan), (mx, my));
            }
        }
    }
    assert_eq!(model_to_screen(10_000, 20_000, 2_000, (5_000, -5_000)), (10_000_000, 50_000_000));
    assert_eq!(screen_to_model(-1, -1_000, 1_000, (0, 0)), (-1, -1));
}

#[test]
fn hit_radius_grows_with_zoom() {
    let mut view = TopologyView::new();
    view.update_from_state(&vec![device(GW, "gw", &[])], &vec![], &vec![]);
    // gw is at model (50, 20); the pointer is 9 model units to its right.
    let (sx, sy) = (59_000 * 1_000, 20_000 * 1_000);
    assert_eq!(view.find_closest_node(sx, sy), None);
    view.pan_offset = (9_000, 0);
    // With the view panned the node sits under the screen point 9 units to the left.
    assert_eq!(view.find_closest_node(41_000 * 1_000, sy), Some(GW));
    view.pan_offset = (0, 0);
    view.zoom = 1_200;
    // At zoom 1.2 the node is on screen at 60_000_000 and the radius is 9_600_000.
    assert_eq!(view.find_closest_node(69_000_000, 24_000_000), Some(GW));
    assert_eq!(view.find_closest_node(70_000_000, 24_000_000), None);
}

#[test]
fn hit_test_prefers_nearest_then_lowest_id() {
    let mut view = TopologyView::new();
    let clients = vec![wired(20, None, GW), wired(21, None, GW)];
    view.update_from_state(&vec![device(GW, "gw", &[])], &clients, &vec![]);
    // Move the two clients to (45, 40) and (55, 40).
    for n in view.nodes.iter_mut() {
        if n.id == 20 {
            n.x = 45_000;
        }
        if n.id == 21 {
            n.x = 55_000;
        }
    }
    // The point (50, 40) is 5 units from both: the lower id wins.
    assert_eq!(view.find_closest_node(50_000_000, 40_000_000), Some(20));
    assert_eq!(view.find_closest_node(50_001_000, 40_000_000), Some(21));
    assert_eq!(view.find_closest_node(49_999_000, 40_000_000), Some(20));
    // Midway between the two siblings laid out at (33.3, 40) and (66.6, 40) nothing is hit.
    view.initialize_layout();
    assert_eq!(view.find_closest_node(50_000_000, 40_000_000), None);
}

#[test]
fn click_on_empty_space_clears_selection() {
    let mut view = scenario_a();
    view.handle_mouse_event(event(PointerKind::Down, 51, 41), area());
    assert_eq!(view.selected_node, Some(SW1));
    view.handle_mouse_event(event(PointerKind::Up, 51, 41), area());
    assert_eq!(view.selected_node, Some(SW1));
    assert_eq!(view.dragging_node, None);
    view.handle_mouse_event(event(PointerKind::Down, 5, 95), area());
    assert_eq!(view.selected_node, None);
    assert_eq!(view.dragging_node, None);
}

#[test]
fn drag_on_empty_space_pans() {
    let mut view = scenario_a();
    view.handle_mouse_event(event(PointerKind::Down, 5, 95), area());
    view.handle_mouse_event(event(PointerKind::Drag, 15, 90), area());
    assert_eq!(view.pan_offset, (-10_000, 5_000));
    assert_eq!(node(&view, SW1).x, 50_000);
    view.zoom_in();
    view.handle_mouse_event(event(PointerKind::Drag, 27, 90), area());
    assert_eq!(view.pan_offset, (-20_000, 5_000));
}

#[test]
fn zero_sized_area_does_not_divide_by_zero() {
    let mut view = scenario_a();
    let tiny = Area { x: 3, y: 3, width: 0, height: 1 };
    view.handle_mouse_event(event(PointerKind::Down, 0, 0), tiny);
    view.handle_mouse_event(event(PointerKind::Drag, 2, 1), tiny);
    assert_eq!(view.pan_offset, (-200_000, -100_000));
}

#[test]
fn selection_survives_rebuild_when_present() {
    let mut view = scenario_a();
    assert!(view.select_by_id(SW1));
    let devices = vec![device(GW, "gw", &[]), device(SW1, "sw1-renamed", &["switching"])];
    view.update_from_state(&devices, &vec![], &vec![(SW1, GW)]);
    assert_eq!(view.selected_node, Some(SW1));
    assert_eq!(view.get_selected_node().map(|n| n.name.clone()), Some("sw1-renamed".to_string()));
}

#[test]
fn selection_cleared_when_node_disappears() {
    let mut view = scenario_a();
    view.handle_mouse_event(event(PointerKind::Down, 51, 41), area());
    assert_eq!(view.dragging_node, Some(SW1));
    view.update_from_state(&vec![device(GW, "gw", &[])], &vec![], &vec![]);
    assert_eq!(view.selected_node, None);
    assert_eq!(view.dragging_node, None);
    assert!(view.get_selected_node().is_none());
}

#[test]
fn select_by_unknown_id_clears_selection() {
    let mut view = scenario_a();
    assert!(view.select_by_id(GW));
    assert!(!view.select_by_id(42));
    assert_eq!(view.selected_node, None);
}

#[test]
fn zoom_steps_and_limits() {
    let mut view = TopologyView::new();
    view.zoom_in();
    assert_eq!(view.zoom, 1_200);
    view.zoom_in();
    assert_eq!(view.zoom, 1_440);
    for _ in 0..20 {
        view.zoom_in();
    }
    assert_eq!(view.zoom, ZOOM_MAX);
    view.zoom_out();
    assert_eq!(view.zoom, 4_166);
    for _ in 0..30 {
        view.zoom_out();
    }
    assert_eq!(view.zoom, ZOOM_MIN);
}

#[test]
fn reset_view_centres_the_tree() {
    let mut view = scenario_a();
    view.zoom_in();
    view.handle_mouse_event(event(PointerKind::Down, 5, 95), area());
    view.handle_mouse_event(event(PointerKind::Drag, 25, 95), area());
    view.select_by_id(C1);
    view.reset_view();
    assert_eq!(view.zoom, ZOOM_UNIT);
    // Every node is at x = 50; y runs from 20 to 60, so the centre is (50, 40).
    assert_eq!(view.pan_offset, (0, -10_000));
    assert_eq!(view.selected_node, Some(C1));
}

#[test]
fn reset_view_with_no_nodes() {
    let mut view = TopologyView::new();
    view.reset_view();
    assert_eq!(view.pan_offset, (-50_000, -50_000));
}

#[test]
fn device_kind_from_features() {
    let devices = vec![
        device(1, "ap", &["switching", "accessPoint"]),
        device(2, "sw", &["switching"]),
        device(3, "other", &["ports"]),
    ];
    let nodes = build_nodes(&devices, &vec![], &vec![]);
    let kinds: Vec<NodeType> = nodes.iter().map(|n| n.node_type).collect();
    assert_eq!(
        kinds,
        vec![
            NodeType::Device { device_type: DeviceType::AccessPoint, state: DeviceState::Online },
            NodeType::Device { device_type: DeviceType::Switch, state: DeviceState::Online },
            NodeType::Device { device_type: DeviceType::Other, state: DeviceState::Online },
        ]
    );
}

#[test]
fn builder_sorts_by_id_and_keeps_last_record() {
    let devices = vec![device(9, "nine", &[]), device(4, "four", &[]), device(9, "nine again", &[])];
    let clients = vec![
        wireless(6, None, 4),
        ClientSummary { id: 7, name: Some("vpn".to_string()), link: ClientLink::Other },
    ];
    let uplinks = vec![(9, 4), (9, 6)];
    let nodes = build_nodes(&devices, &clients, &uplinks);
    let ids: Vec<u128> = nodes.iter().map(|n| n.id).collect();
    assert_eq!(ids, vec![4, 6, 9]);
    assert_eq!(nodes[2].name, "nine again");
    assert_eq!(nodes[2].parent_id, Some(4));
    assert_eq!(nodes[1].name, "");
    assert_eq!(nodes[1].node_type, NodeType::Client { client_type: ClientType::Wireless });
    assert_eq!(nodes[0].children, vec![6, 9]);
    assert!(nodes.iter().all(|n| n.x == 0 && n.y == 0));
}

#[test]
fn styles_by_kind() {
    let mut view = TopologyView::new();
    let mut offline = device(1, "ap", &["accessPoint"]);
    offline.state = DeviceState::Offline;
    view.update_from_state(&vec![offline], &vec![wireless(2, Some("phone"), 1)], &vec![]);
    assert_eq!(node(&view, 1).get_style(), (Shape::AccessPoint, Color::Red));
    assert_eq!(node(&view, 2).get_style(), (Shape::Wireless, Color::Yellow));
    assert_eq!(node(&view, 2).edge_color(), Color::Yellow);
    assert_eq!(node(&view, 1).edge_color(), Color::Gray);
}

#[test]
fn render_draws_edges_then_nodes() {
    let mut view = scenario_a();
    view.select_by_id(SW1);
    let prims = view.render();
    // Two edges, then gw (ring + label), sw1 (4 sides + dot + label), c1 (4 sides + label).
    assert_eq!(prims.len(), 2 + 2 + 6 + 5);
    match &prims[0] {
        Primitive::Line { x1, y1, x2, y2, color } => {
            assert_eq!((*x1, *y1, *x2, *y2), (50_000_000, 40_000_000, 50_000_000, 20_000_000));
            assert_eq!(*color, Color::Gray);
        }
        _ => panic!("edge expected first"),
    }
    match &prims[1] {
        Primitive::Line { y1, y2, color, .. } => {
            assert_eq!((*y1, *y2), (60_000_000, 40_000_000));
            assert_eq!(*color, Color::Blue);
        }
        _ => panic!("edge expected second"),
    }
    match &prims[2] {
        Primitive::Ring { x, y, radius, points, color } => {
            assert_eq!((*x, *y, *radius, *points), (50_000_000, 20_000_000, 2_000_000, 16));
            assert_eq!(*color, Color::Green);
        }
        _ => panic!("gateway ring expected"),
    }
    match &prims[4] {
        Primitive::Line { x1, y1, x2, y2, .. } => {
            assert_eq!((*x1, *y1, *x2, *y2), (47_000_000, 38_500_000, 53_000_000, 38_500_000));
        }
        _ => panic!("switch side expected"),
    }
    match &prims[8] {
        Primitive::Dot { x, y, color } => {
            assert_eq!((*x, *y, *color), (50_000_000, 40_000_000, Color::White));
        }
        _ => panic!("selection dot expected"),
    }
    match &prims[9] {
        Primitive::Label { x, y, text } => {
            assert_eq!((*x, *y), (50_000_000, 46_000_000));
            assert_eq!(text, "sw1");
        }
        _ => panic!("label expected"),
    }
}

#[test]
fn render_labels_unnamed_nodes() {
    let mut view = TopologyView::new();
    view.update_from_state(&vec![], &vec![wired(8, None, 1)], &vec![]);
    let prims = view.render();
    assert_eq!(prims.len(), 5);
    match &prims[4] {
        Primitive::Label { text, .. } => assert_eq!(text, "Unknown"),
        _ => panic!("label expected"),
    }
    assert_eq!(node(&view, 8).name, "");
}

#[test]
fn pointer_maps_to_model_point() {
    let mut view = scenario_a();
    assert_eq!(view.pointer_to_model(51, 41, area()), (50_000, 40_000));
    assert_eq!(view.pointer_to_model(0, 0, area()), (0, 0));
    view.zoom_in();
    // At zoom 1.2 one cell is 1 / 1.2 model units.
    assert_eq!(view.pointer_to_model(13, 1, area()), (10_000, 0));
    view.handle_mouse_event(event(PointerKind::Down, 95, 95), area());
    view.handle_mouse_event(event(PointerKind::Drag, 83, 95), area());
    assert_eq!(view.pan_offset, (10_000, 0));
    assert_eq!(view.pointer_to_model(1, 1, area()), (10_000, 0));
}
