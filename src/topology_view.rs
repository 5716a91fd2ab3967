//! The viewport and interaction controller: owns the node set, zoom, pan,
//! selection and drag state, and turns pointer events into selection, node
//! movement or panning.
use vstd::prelude::*;
use crate::geometry::{
    clamp, clamp_spec, drag_delta, drag_to_model, pan_ok, pointer_screen, pointer_to_screen,
    model_to_screen, screen_to_model, to_model, to_screen, zoom_ok, hit_radius, Area, HIT_RADIUS, MODEL_HALF, MODEL_SPAN,
    PAN_LIMIT, SCREEN_LIMIT, ZOOM_MAX, ZOOM_MIN, ZOOM_UNIT,
};
use crate::graph::{
    build_nodes, children_ok, latest, represents, snapshot_records, ClientSummary, DeviceSummary,
};
use crate::layout::{
    find_index, ids_sorted, index_of, laid_out, layout, skeleton, with_position,
    lemma_laid_out_bounded, lemma_layout_idempotent,
};
use crate::node::NetworkNode;

verus! {

/// What the pointer did.
#[derive(Clone, Copy, Debug, PartialEq, Eq, Structural)]
pub enum PointerKind {
    Down,
    Up,
    Drag,
    Other,
}

/// A pointer event at a terminal cell.
#[derive(Clone, Copy, Debug, PartialEq, Eq, Structural)]
pub struct PointerEvent {
    pub kind: PointerKind,
    pub column: u16,
    pub row: u16,
}

pub struct TopologyView {
    /// The node set, sorted by id; positions in model space.
    pub nodes: Vec<NetworkNode>,
    pub selected_node: Option<u128>,
    /// Set only while the selected node is being dragged.
    pub dragging_node: Option<u128>,
    pub last_mouse_pos: (u16, u16),
    /// Model point shown at the screen origin.
    pub pan_offset: (i64, i64),
    /// Zoom in thousandths.
    pub zoom: i64,
}

pub open spec fn contains_id(s: Seq<NetworkNode>, id: u128) -> bool {
    exists|i: int| 0 <= i < s.len() && s[i].id == id
}

/// Positions lie in model space.
pub open spec fn positions_bounded(s: Seq<NetworkNode>) -> bool {
    forall|i: int|
        0 <= i < s.len() ==> 0 <= #[trigger] s[i].x <= MODEL_SPAN && 0 <= s[i].y <= MODEL_SPAN
}

pub open spec fn nodes_wf(s: Seq<NetworkNode>) -> bool {
    &&& ids_sorted(skeleton(s))
    &&& children_ok(s)
    &&& positions_bounded(s)
}

/// A reference to a node survives only if the node is still in the set.
pub open spec fn keep_if_present(r: Option<u128>, s: Seq<NetworkNode>) -> Option<u128> {
    match r {
        Some(id) => if contains_id(s, id) {
            Some(id)
        } else {
            None
        },
        None => None,
    }
}

pub open spec fn zoomed_in(z: int) -> int {
    if z * 6 / 5 > ZOOM_MAX {
        ZOOM_MAX as int
    } else {
        z * 6 / 5
    }
}

pub open spec fn zoomed_out(z: int) -> int {
    if z * 5 / 6 < ZOOM_MIN {
        ZOOM_MIN as int
    } else {
        z * 5 / 6
    }
}

/// Squared screen distance from node `n` to the screen point (`sx`, `sy`).
pub open spec fn screen_dist2(n: NetworkNode, sx: int, sy: int, zoom: int, pan: (i64, i64)) -> int {
    let dx = to_screen(n.x as int, pan.0 as int, zoom) - sx;
    let dy = to_screen(n.y as int, pan.1 as int, zoom) - sy;
    dx * dx + dy * dy
}

pub open spec fn is_hit(n: NetworkNode, sx: int, sy: int, zoom: int, pan: (i64, i64)) -> bool {
    screen_dist2(n, sx, sy, zoom, pan) < hit_radius(zoom) * hit_radius(zoom)
}

/// `r` is the result of hit-testing the screen point: the id of the nearest node
/// within the hit radius, the earliest in the set (the lowest id) on a tie, or
/// `None` if no node is within the radius.
pub open spec fn hit_result(
    s: Seq<NetworkNode>,
    sx: int,
    sy: int,
    zoom: int,
    pan: (i64, i64),
    r: Option<u128>,
) -> bool {
    match r {
        None => forall|j: int| 0 <= j < s.len() ==> !is_hit(#[trigger] s[j], sx, sy, zoom, pan),
        Some(id) => exists|i: int|
            0 <= i < s.len() && s[i].id == id && is_hit(s[i], sx, sy, zoom, pan) && forall|j: int|
                0 <= j < s.len() && is_hit(#[trigger] s[j], sx, sy, zoom, pan) ==> screen_dist2(
                    s[i],
                    sx,
                    sy,
                    zoom,
                    pan,
                ) < screen_dist2(s[j], sx, sy, zoom, pan) || (screen_dist2(s[i], sx, sy, zoom, pan)
                    == screen_dist2(s[j], sx, sy, zoom, pan) && i <= j),
    }
}

/// The node set after the node `id` moved by (`dx`, `dy`), clamped into model space.
pub open spec fn dragged(s: Seq<NetworkNode>, id: u128, dx: int, dy: int) -> Seq<NetworkNode> {
    Seq::new(
        s.len(),
        |i: int|
            if s[i].id == id {
                with_position(
                    s[i],
                    clamp_spec(s[i].x + dx, 0, MODEL_SPAN as int),
                    clamp_spec(s[i].y + dy, 0, MODEL_SPAN as int),
                )
            } else {
                s[i]
            },
    )
}

pub open spec fn panned(pan: (i64, i64), dx: int, dy: int) -> (i64, i64) {
    (
        clamp_spec(pan.0 - dx, -PAN_LIMIT, PAN_LIMIT as int) as i64,
        clamp_spec(pan.1 - dy, -PAN_LIMIT, PAN_LIMIT as int) as i64,
    )
}

pub open spec fn seq_min(v: Seq<int>) -> int
    decreases v.len(),
{
    if v.len() <= 1 {
        v[0]
    } else if v.last() < seq_min(v.drop_last()) {
        v.last()
    } else {
        seq_min(v.drop_last())
    }
}

pub open spec fn seq_max(v: Seq<int>) -> int
    decreases v.len(),
{
    if v.len() <= 1 {
        v[0]
    } else if v.last() > seq_max(v.drop_last()) {
        v.last()
    } else {
        seq_max(v.drop_last())
    }
}

pub open spec fn xs(s: Seq<NetworkNode>) -> Seq<int> {
    s.map_values(|n: NetworkNode| n.x as int)
}

pub open spec fn ys(s: Seq<NetworkNode>) -> Seq<int> {
    s.map_values(|n: NetworkNode| n.y as int)
}

/// Centre of the bounding box of the node positions; the origin when there are none.
pub open spec fn bbox_center(s: Seq<NetworkNode>) -> (int, int) {
    if s.len() == 0 {
        (0, 0)
    } else {
        ((seq_min(xs(s)) + seq_max(xs(s))) / 2, (seq_min(ys(s)) + seq_max(ys(s))) / 2)
    }
}

impl TopologyView {
    pub open spec fn wf(&self) -> bool {
        &&& nodes_wf(self.nodes@)
        &&& zoom_ok(self.zoom as int)
        &&& pan_ok(self.pan_offset)
        &&& self.selected_node matches Some(id) ==> contains_id(self.nodes@, id)
        &&& self.dragging_node matches Some(id) ==> self.selected_node == Some(id)
    }

    pub fn new() -> (r: Self)
        ensures
            r.wf(),
            r.nodes@.len() == 0,
            r.selected_node is None,
            r.dragging_node is None,
            r.last_mouse_pos == (0u16, 0u16),
            r.pan_offset == (0i64, 0i64),
            r.zoom == ZOOM_UNIT,
    {
        TopologyView {
            nodes: Vec::new(),
            selected_node: None,
            dragging_node: None,
            last_mouse_pos: (0, 0),
            pan_offset: (0, 0),
            zoom: ZOOM_UNIT,
        }
    }

    /// Lays out the whole node set afresh.
    pub fn initialize_layout(&mut self)
        requires
            old(self).wf(),
        ensures
            final(self).wf(),
            final(self).nodes@ == laid_out(old(self).nodes@),
            final(self).selected_node == old(self).selected_node,
            final(self).dragging_node == old(self).dragging_node,
            final(self).last_mouse_pos == old(self).last_mouse_pos,
            final(self).pan_offset == old(self).pan_offset,
            final(self).zoom == old(self).zoom,
    {
        let ghost s = self.nodes@;
        layout(&mut self.nodes);
        proof {
            lemma_laid_out_wf(s);
        }
    }

    /// Rebuilds the node set from a snapshot and lays it out; zoom and pan are
    /// kept, and the selection and drag survive if their node is still present.
    pub fn update_from_state(
        &mut self,
        devices: &Vec<DeviceSummary>,
        clients: &Vec<ClientSummary>,
        uplinks: &Vec<(u128, u128)>,
    )
        requires
            old(self).wf(),
        ensures
            final(self).wf(),
            represents(final(self).nodes@, latest(snapshot_records(devices@, clients@, uplinks@))),
            final(self).nodes@ == laid_out(final(self).nodes@),
            final(self).selected_node == keep_if_present(old(self).selected_node, final(self).nodes@),
            final(self).dragging_node == keep_if_present(old(self).dragging_node, final(self).nodes@),
            final(self).last_mouse_pos == old(self).last_mouse_pos,
            final(self).pan_offset == old(self).pan_offset,
            final(self).zoom == old(self).zoom,
    {
        let mut nodes = build_nodes(devices, clients, uplinks);
        let ghost built = nodes@;
        layout(&mut nodes);
        proof {
            lemma_laid_out_wf(built);
            lemma_layout_idempotent(built);
            let m = latest(snapshot_records(devices@, clients@, uplinks@));
            let t = nodes@;
            assert forall|i: int| 0 <= i < t.len() implies m.contains_key(#[trigger] t[i].id)
                && crate::graph::node_matches(t[i], m[t[i].id]) by {
                assert(t[i].id == built[i].id);
            }
            assert forall|id: u128| #[trigger] m.contains_key(id) implies exists|i: int|
                0 <= i < t.len() && t[i].id == id by {
                let i = choose|i: int| 0 <= i < built.len() && built[i].id == id;
                assert(t[i].id == id);
            }
        }
        self.nodes = nodes;
        self.selected_node = self.keep_present(self.selected_node);
        self.dragging_node = self.keep_present(self.dragging_node);
    }

    fn keep_present(&self, r: Option<u128>) -> (out: Option<u128>)
        requires
            ids_sorted(skeleton(self.nodes@)),
        ensures
            out == keep_if_present(r, self.nodes@),
    {
        match r {
            Some(id) => {
                let found = find_index(&self.nodes, id);
                proof {
                    self.lemma_found_iff(id, found);
                }
                if found.is_some() {
                    Some(id)
                } else {
                    None
                }
            },
            None => None,
        }
    }

    proof fn lemma_found_iff(&self, id: u128, found: Option<usize>)
        requires
            ids_sorted(skeleton(self.nodes@)),
            match found {
                Some(i) => index_of(skeleton(self.nodes@), id) == Some(i as int),
                None => index_of(skeleton(self.nodes@), id) is None,
            },
        ensures
            found is Some <==> contains_id(self.nodes@, id),
            found matches Some(i) ==> i < self.nodes.len() && self.nodes@[i as int].id == id,
    {
        let sk = skeleton(self.nodes@);
        if contains_id(self.nodes@, id) {
            let i = choose|i: int| 0 <= i < self.nodes@.len() && self.nodes@[i].id == id;
            assert(sk[i].0 == id);
        }
        if let Some(i) = found {
            let j = choose|j: int| 0 <= j < sk.len() && sk[j].0 == id;
            assert(self.nodes@[j].id == id);
        }
    }

    /// The model point under the pointer at cell (`column`, `row`) of `area`.
    pub fn pointer_to_model(&self, column: u16, row: u16, area: Area) -> (r: (i64, i64))
        requires
            self.wf(),
        ensures
            r.0 == to_model(pointer_screen(column, area.x, area.width), self.pan_offset.0 as int, self.zoom as int),
            r.1 == to_model(pointer_screen(row, area.y, area.height), self.pan_offset.1 as int, self.zoom as int),
    {
        let (sx, sy) = pointer_to_screen(column, row, area);
        screen_to_model(sx, sy, self.zoom, self.pan_offset)
    }

    /// Multiplies the zoom by 1.2, up to 5.0.
    pub fn zoom_in(&mut self)
        requires
            old(self).wf(),
        ensures
            final(self).wf(),
            final(self).zoom == zoomed_in(old(self).zoom as int),
            final(self).nodes@ == old(self).nodes@,
            final(self).pan_offset == old(self).pan_offset,
            final(self).selected_node == old(self).selected_node,
            final(self).dragging_node == old(self).dragging_node,
            final(self).last_mouse_pos == old(self).last_mouse_pos,
    {
        let z = self.zoom * 6 / 5;
        self.zoom = if z > ZOOM_MAX {
            ZOOM_MAX
        } else {
            z
        };
    }

    /// Divides the zoom by 1.2, down to 0.2.
    pub fn zoom_out(&mut self)
        requires
            old(self).wf(),
        ensures
            final(self).wf(),
            final(self).zoom == zoomed_out(old(self).zoom as int),
            final(self).nodes@ == old(self).nodes@,
            final(self).pan_offset == old(self).pan_offset,
            final(self).selected_node == old(self).selected_node,
            final(self).dragging_node == old(self).dragging_node,
            final(self).last_mouse_pos == old(self).last_mouse_pos,
    {
        let z = self.zoom * 5 / 6;
        self.zoom = if z < ZOOM_MIN {
            ZOOM_MIN
        } else {
            z
        };
    }

    /// Selects the node with the given id; with no such node the selection is cleared.
    /// Any drag ends. Returns whether the node was found.
    pub fn select_by_id(&mut self, id: u128) -> (r: bool)
        requires
            old(self).wf(),
        ensures
            final(self).wf(),
            r == contains_id(old(self).nodes@, id),
            final(self).selected_node == if r {
                Some(id)
            } else {
                None
            },
            final(self).dragging_node is None,
            final(self).nodes@ == old(self).nodes@,
            final(self).pan_offset == old(self).pan_offset,
            final(self).zoom == old(self).zoom,
            final(self).last_mouse_pos == old(self).last_mouse_pos,
    {
        let found = find_index(&self.nodes, id);
        proof {
            self.lemma_found_iff(id, found);
        }
        self.dragging_node = None;
        if found.is_some() {
            self.selected_node = Some(id);
            true
        } else {
            self.selected_node = None;
            false
        }
    }

    /// The selected node, if any.
    pub fn get_selected_node(&self) -> (r: Option<&NetworkNode>)
        requires
            self.wf(),
        ensures
            match r {
                Some(n) => self.selected_node == Some(n.id) && exists|i: int|
                    0 <= i < self.nodes.len() && self.nodes@[i] == *n,
                None => self.selected_node is None,
            },
    {
        match self.selected_node {
            Some(id) => {
                let found = find_index(&self.nodes, id);
                proof {
                    self.lemma_found_iff(id, found);
                }
                match found {
                    Some(i) => Some(&self.nodes[i]),
                    None => None,
                }
            },
            None => None,
        }
    }
}

/// A drag, whatever its length, leaves every node in model space.
pub proof fn lemma_drag_keeps_bounds(s: Seq<NetworkNode>, id: u128, dx: int, dy: int)
    requires
        positions_bounded(s),
    ensures
        positions_bounded(dragged(s, id, dx, dy)),
{
    assert forall|i: int| 0 <= i < s.len() implies 0 <= #[trigger] dragged(s, id, dx, dy)[i].x
        <= MODEL_SPAN && 0 <= dragged(s, id, dx, dy)[i].y <= MODEL_SPAN by {
        assert(0 <= s[i].x <= MODEL_SPAN);
    }
}

/// Laying out a node set keeps its ids, parents and children, and puts it
/// in model space.
proof fn lemma_laid_out_wf(s: Seq<NetworkNode>)
    requires
        ids_sorted(skeleton(s)),
    ensures
        skeleton(laid_out(s)) == skeleton(s),
        ids_sorted(skeleton(laid_out(s))),
        positions_bounded(laid_out(s)),
        children_ok(s) ==> children_ok(laid_out(s)),
        forall|id: u128| contains_id(s, id) <==> contains_id(laid_out(s), id),
        forall|i: int| 0 <= i < s.len() ==> (#[trigger] laid_out(s)[i]).id == s[i].id,
{
    assert(skeleton(laid_out(s)) =~= skeleton(s));
    lemma_laid_out_bounded(s);
    assert forall|id: u128| contains_id(s, id) implies contains_id(laid_out(s), id) by {
        let i = choose|i: int| 0 <= i < s.len() && s[i].id == id;
        assert(laid_out(s)[i].id == id);
    }
    assert forall|id: u128| contains_id(laid_out(s), id) implies contains_id(s, id) by {
        let i = choose|i: int| 0 <= i < s.len() && laid_out(s)[i].id == id;
        assert(s[i].id == id);
    }
}


impl TopologyView {
    /// Hit-tests the screen point (`sx`, `sy`) against the node set.
    pub fn find_closest_node(&self, sx: i64, sy: i64) -> (r: Option<u128>)
        requires
            self.wf(),
            -SCREEN_LIMIT <= sx <= SCREEN_LIMIT,
            -SCREEN_LIMIT <= sy <= SCREEN_LIMIT,
        ensures
            hit_result(self.nodes@, sx as int, sy as int, self.zoom as int, self.pan_offset, r),
            r matches Some(id) ==> contains_id(self.nodes@, id),
    {
        let ghost s = self.nodes@;
        let ghost z = self.zoom as int;
        let ghost pan = self.pan_offset;
        let radius: i128 = HIT_RADIUS as i128 * self.zoom as i128;
        proof {
            assert(0 <= radius * radius <= 8_000 * ZOOM_MAX * 8_000 * ZOOM_MAX) by (nonlinear_arith)
                requires
                    radius == 8_000 * z,
                    ZOOM_MIN <= z <= ZOOM_MAX,
            ;
        }
        let r2: i128 = radius * radius;
        let mut best: Option<usize> = None;
        let mut best_d: i128 = 0;
        let mut i: usize = 0;
        while i < self.nodes.len()
            invariant
                self.wf(),
                s == self.nodes@,
                z == self.zoom,
                pan == self.pan_offset,
                -SCREEN_LIMIT <= sx <= SCREEN_LIMIT,
                -SCREEN_LIMIT <= sy <= SCREEN_LIMIT,
                i <= s.len(),
                r2 == hit_radius(z) * hit_radius(z),
                match best {
                    None => forall|j: int| 0 <= j < i ==> !is_hit(#[trigger] s[j], sx as int, sy as int, z, pan),
                    Some(b) => b < i && is_hit(s[b as int], sx as int, sy as int, z, pan) && best_d
                        == screen_dist2(s[b as int], sx as int, sy as int, z, pan) && forall|j: int|
                        0 <= j < i && is_hit(#[trigger] s[j], sx as int, sy as int, z, pan) ==> best_d
                            < screen_dist2(s[j], sx as int, sy as int, z, pan) || (best_d == screen_dist2(
                            s[j],
                            sx as int,
                            sy as int,
                            z,
                            pan,
                        ) && b <= j),
                },
            decreases s.len() - i,
        {
            let n = &self.nodes[i];
            let (nx, ny) = model_to_screen(n.x, n.y, self.zoom, self.pan_offset);
            let dx: i128 = nx as i128 - sx as i128;
            let dy: i128 = ny as i128 - sy as i128;
            proof {
                assert(0 <= dx * dx <= 4 * SCREEN_LIMIT * SCREEN_LIMIT) by (nonlinear_arith)
                    requires
                        -2 * SCREEN_LIMIT <= dx <= 2 * SCREEN_LIMIT,
                ;
                assert(0 <= dy * dy <= 4 * SCREEN_LIMIT * SCREEN_LIMIT) by (nonlinear_arith)
                    requires
                        -2 * SCREEN_LIMIT <= dy <= 2 * SCREEN_LIMIT,
                ;
            }
            let d: i128 = dx * dx + dy * dy;
            if d < r2 {
                let better = match best {
                    None => true,
                    Some(_) => d < best_d,
                };
                if better {
                    best = Some(i);
                    best_d = d;
                }
            }
            i = i + 1;
        }
        match best {
            Some(b) => {
                proof {
                    assert(contains_id(s, s[b as int].id));
                }
                Some(self.nodes[b].id)
            },
            None => None,
        }
    }

    /// Handles one pointer event over `area`: a press selects the node under the
    /// pointer (or clears the selection) and starts dragging it; a release ends the
    /// drag; a drag moves the dragged node, or pans the view when no node is dragged.
    pub fn handle_mouse_event(&mut self, event: PointerEvent, area: Area)
        requires
            old(self).wf(),
        ensures
            final(self).wf(),
            final(self).zoom == old(self).zoom,
            match event.kind {
                PointerKind::Down => {
                    &&& hit_result(
                        old(self).nodes@,
                        pointer_screen(event.column, area.x, area.width),
                        pointer_screen(event.row, area.y, area.height),
                        old(self).zoom as int,
                        old(self).pan_offset,
                        final(self).selected_node,
                    )
                    &&& final(self).dragging_node == final(self).selected_node
                    &&& final(self).last_mouse_pos == (event.column, event.row)
                    &&& final(self).nodes@ == old(self).nodes@
                    &&& final(self).pan_offset == old(self).pan_offset
                },
                PointerKind::Up => {
                    &&& final(self).dragging_node is None
                    &&& final(self).selected_node == old(self).selected_node
                    &&& final(self).last_mouse_pos == old(self).last_mouse_pos
                    &&& final(self).nodes@ == old(self).nodes@
                    &&& final(self).pan_offset == old(self).pan_offset
                },
                PointerKind::Drag => {
                    let dx = drag_delta(
                        event.column - old(self).last_mouse_pos.0,
                        area.width,
                        old(self).zoom as int,
                    );
                    let dy = drag_delta(
                        event.row - old(self).last_mouse_pos.1,
                        area.height,
                        old(self).zoom as int,
                    );
                    &&& final(self).selected_node == old(self).selected_node
                    &&& final(self).dragging_node == old(self).dragging_node
                    &&& final(self).last_mouse_pos == (event.column, event.row)
                    &&& match old(self).dragging_node {
                        Some(id) => final(self).nodes@ == dragged(old(self).nodes@, id, dx, dy)
                            && final(self).pan_offset == old(self).pan_offset,
                        None => final(self).nodes@ == old(self).nodes@ && final(self).pan_offset
                            == panned(old(self).pan_offset, dx, dy),
                    }
                },
                PointerKind::Other => {
                    &&& final(self).selected_node == old(self).selected_node
                    &&& final(self).dragging_node == old(self).dragging_node
                    &&& final(self).last_mouse_pos == old(self).last_mouse_pos
                    &&& final(self).nodes@ == old(self).nodes@
                    &&& final(self).pan_offset == old(self).pan_offset
                },
            },
    {
        match event.kind {
            PointerKind::Down => {
                let (sx, sy) = pointer_to_screen(event.column, event.row, area);
                let hit = self.find_closest_node(sx, sy);
                self.selected_node = hit;
                self.dragging_node = hit;
                self.last_mouse_pos = (event.column, event.row);
            },
            PointerKind::Up => {
                self.dragging_node = None;
            },
            PointerKind::Drag => {
                let dx = drag_to_model(
                    event.column as i64 - self.last_mouse_pos.0 as i64,
                    area.width,
                    self.zoom,
                );
                let dy = drag_to_model(
                    event.row as i64 - self.last_mouse_pos.1 as i64,
                    area.height,
                    self.zoom,
                );
                match self.dragging_node {
                    Some(id) => {
                        let ghost s = self.nodes@;
                        let found = find_index(&self.nodes, id);
                        proof {
                            self.lemma_found_iff(id, found);
                        }
                        if let Some(i) = found {
                            let x = clamp(self.nodes[i].x + dx, 0, MODEL_SPAN);
                            let y = clamp(self.nodes[i].y + dy, 0, MODEL_SPAN);
                            self.nodes[i].x = x;
                            self.nodes[i].y = y;
                            proof {
                                let t = self.nodes@;
                                assert forall|j: int| 0 <= j < s.len() implies #[trigger] t[j]
                                    == dragged(s, id, dx as int, dy as int)[j] by {
                                    if j != i {
                                        assert(skeleton(s)[j].0 != skeleton(s)[i as int].0);
                                    }
                                }
                                assert(t =~= dragged(s, id, dx as int, dy as int));
                                assert(skeleton(t) =~= skeleton(s));
                                assert forall|k: int| 0 <= k < t.len() implies (
                                #[trigger] t[k].children)@ == crate::layout::kid_ids(
                                    skeleton(t),
                                    k,
                                    t.len() as int,
                                ) by {
                                    assert(t[k].children == s[k].children);
                                }
                                assert forall|k: u128| #[trigger] contains_id(s, k) implies contains_id(t, k) by {
                                    let j = choose|j: int| 0 <= j < s.len() && s[j].id == k;
                                    assert(t[j].id == k);
                                }
                            }
                        }
                    },
                    None => {
                        let px = clamp(self.pan_offset.0 - dx, -PAN_LIMIT, PAN_LIMIT);
                        let py = clamp(self.pan_offset.1 - dy, -PAN_LIMIT, PAN_LIMIT);
                        self.pan_offset = (px, py);
                    },
                }
                self.last_mouse_pos = (event.column, event.row);
            },
            PointerKind::Other => {},
        }
    }
}


/// Centre of the bounding box of the node positions.
fn bounding_center(nodes: &Vec<NetworkNode>) -> (r: (i64, i64))
    requires
        positions_bounded(nodes@),
    ensures
        r.0 == bbox_center(nodes@).0,
        r.1 == bbox_center(nodes@).1,
        0 <= r.0 <= MODEL_SPAN,
        0 <= r.1 <= MODEL_SPAN,
{
    let ghost s = nodes@;
    if nodes.len() == 0 {
        return (0, 0);
    }
    let mut min_x = nodes[0].x;
    let mut max_x = nodes[0].x;
    let mut min_y = nodes[0].y;
    let mut max_y = nodes[0].y;
    let mut i: usize = 1;
    proof {
        assert(xs(s).take(1).len() == 1);
        assert(ys(s).take(1).len() == 1);
    }
    while i < nodes.len()
        invariant
            s == nodes@,
            positions_bounded(s),
            1 <= i <= s.len(),
            min_x == seq_min(xs(s).take(i as int)),
            max_x == seq_max(xs(s).take(i as int)),
            min_y == seq_min(ys(s).take(i as int)),
            max_y == seq_max(ys(s).take(i as int)),
            0 <= min_x <= MODEL_SPAN,
            0 <= max_x <= MODEL_SPAN,
            0 <= min_y <= MODEL_SPAN,
            0 <= max_y <= MODEL_SPAN,
        decreases s.len() - i,
    {
        proof {
            assert(xs(s).take(i + 1).drop_last() =~= xs(s).take(i as int));
            assert(ys(s).take(i + 1).drop_last() =~= ys(s).take(i as int));
        }
        let x = nodes[i].x;
        let y = nodes[i].y;
        if x < min_x {
            min_x = x;
        }
        if x > max_x {
            max_x = x;
        }
        if y < min_y {
            min_y = y;
        }
        if y > max_y {
            max_y = y;
        }
        i = i + 1;
    }
    proof {
        assert(xs(s).take(s.len() as int) =~= xs(s));
        assert(ys(s).take(s.len() as int) =~= ys(s));
    }
    ((min_x + max_x) / 2, (min_y + max_y) / 2)
}

impl TopologyView {
    /// Restores zoom 1.0, lays the tree out afresh and pans so that the bounding
    /// box of the nodes is centred in the view. The selection is left alone.
    pub fn reset_view(&mut self)
        requires
            old(self).wf(),
        ensures
            final(self).wf(),
            final(self).nodes@ == laid_out(old(self).nodes@),
            final(self).zoom == ZOOM_UNIT,
            final(self).pan_offset.0 == bbox_center(final(self).nodes@).0 - MODEL_HALF,
            final(self).pan_offset.1 == bbox_center(final(self).nodes@).1 - MODEL_HALF,
            final(self).selected_node == old(self).selected_node,
            final(self).dragging_node == old(self).dragging_node,
            final(self).last_mouse_pos == old(self).last_mouse_pos,
    {
        self.zoom = ZOOM_UNIT;
        self.pan_offset = (0, 0);
        self.initialize_layout();
        let (cx, cy) = bounding_center(&self.nodes);
        self.pan_offset = (cx - MODEL_HALF, cy - MODEL_HALF);
    }
}

} // verus!
