//! The renderer: a pure projection of the node set onto drawing primitives in
//! screen space. Edges come first, so that nodes are drawn over them.
use vstd::prelude::*;
use crate::geometry::{model_to_screen, to_screen, SCREEN_LIMIT};
use crate::layout::{find_index, parent_of, skeleton, lemma_parent_in_range};
use crate::node::{edge_color, style_of, Color, NetworkNode, Shape};
use crate::topology_view::TopologyView;

verus! {

/// One drawing primitive, in screen coordinates.
pub enum Primitive {
    Line { x1: i64, y1: i64, x2: i64, y2: i64, color: Color },
    /// `points` dots evenly spaced on the circle of the given radius.
    Ring { x: i64, y: i64, radius: i64, points: u32, color: Color },
    Dot { x: i64, y: i64, color: Color },
    /// Text centred horizontally on `x`.
    Label { x: i64, y: i64, text: String },
}

pub enum PrimitiveView {
    Line { x1: int, y1: int, x2: int, y2: int, color: Color },
    Ring { x: int, y: int, radius: int, points: nat, color: Color },
    Dot { x: int, y: int, color: Color },
    Label { x: int, y: int, text: Seq<char> },
}

impl View for Primitive {
    type V = PrimitiveView;

    open spec fn view(&self) -> PrimitiveView {
        match *self {
            Primitive::Line { x1, y1, x2, y2, color } => PrimitiveView::Line {
                x1: x1 as int,
                y1: y1 as int,
                x2: x2 as int,
                y2: y2 as int,
                color,
            },
            Primitive::Ring { x, y, radius, points, color } => PrimitiveView::Ring {
                x: x as int,
                y: y as int,
                radius: radius as int,
                points: points as nat,
                color,
            },
            Primitive::Dot { x, y, color } => PrimitiveView::Dot { x: x as int, y: y as int, color },
            Primitive::Label { x, y, text } => PrimitiveView::Label {
                x: x as int,
                y: y as int,
                text: text@,
            },
        }
    }
}

pub open spec fn views(s: Seq<Primitive>) -> Seq<PrimitiveView> {
    s.map_values(|p: Primitive| p@)
}

/// Half the width of a node marker: 2 units, 3 when selected, scaled by the zoom.
pub open spec fn marker_size(selected: bool, zoom: int) -> int {
    (if selected {
        3000int
    } else {
        2000int
    }) * zoom
}

/// The four sides of the rectangle centred on (`x`, `y`) with half-extents `hw`, `hh`.
pub open spec fn rectangle(x: int, y: int, hw: int, hh: int, color: Color) -> Seq<PrimitiveView> {
    seq![
        PrimitiveView::Line { x1: x - hw, y1: y - hh, x2: x + hw, y2: y - hh, color },
        PrimitiveView::Line { x1: x + hw, y1: y - hh, x2: x + hw, y2: y + hh, color },
        PrimitiveView::Line { x1: x + hw, y1: y + hh, x2: x - hw, y2: y + hh, color },
        PrimitiveView::Line { x1: x - hw, y1: y + hh, x2: x - hw, y2: y - hh, color },
    ]
}

/// The marker of a node of the given shape centred on (`x`, `y`).
pub open spec fn marker(shape: Shape, x: int, y: int, size: int, zoom: int, color: Color) -> Seq<
    PrimitiveView,
> {
    match shape {
        Shape::AccessPoint => seq![
            PrimitiveView::Ring { x, y, radius: size, points: 16, color },
            PrimitiveView::Ring { x, y, radius: size - 500 * zoom, points: 16, color },
            PrimitiveView::Ring { x, y, radius: size - 1000 * zoom, points: 16, color },
        ],
        Shape::Switch => rectangle(x, y, size, size / 2, color),
        Shape::Wireless => seq![
            PrimitiveView::Dot { x, y, color },
            PrimitiveView::Ring { x, y, radius: size * 4 / 5, points: 8, color },
        ],
        Shape::Wired => rectangle(x, y, size / 2, size / 2, color),
        _ => seq![PrimitiveView::Ring { x, y, radius: size, points: 16, color }],
    }
}

/// The label shown for a name: the name itself, or "Unknown" for an empty one.
pub open spec fn label_text(name: Seq<char>) -> Seq<char> {
    if name.len() == 0 {
        "Unknown"@
    } else {
        name
    }
}

/// Everything drawn for one node: its marker, a white centre dot when it is
/// selected, and its label two marker sizes below it.
pub open spec fn node_prims(n: NetworkNode, selected: bool, zoom: int, pan: (i64, i64)) -> Seq<
    PrimitiveView,
> {
    let x = to_screen(n.x as int, pan.0 as int, zoom);
    let y = to_screen(n.y as int, pan.1 as int, zoom);
    let size = marker_size(selected, zoom);
    let style = style_of(n.node_type);
    marker(style.0, x, y, size, zoom, style.1) + (if selected {
        seq![PrimitiveView::Dot { x, y, color: Color::White }]
    } else {
        Seq::empty()
    }) + seq![PrimitiveView::Label { x, y: y + 2 * size, text: label_text(n.name@) }]
}

/// The edge from node `i` to its parent, if the parent is in the set.
pub open spec fn edge_prims(s: Seq<NetworkNode>, i: int, zoom: int, pan: (i64, i64)) -> Seq<
    PrimitiveView,
> {
    match parent_of(skeleton(s), i) {
        Some(p) => seq![
            PrimitiveView::Line {
                x1: to_screen(s[i].x as int, pan.0 as int, zoom),
                y1: to_screen(s[i].y as int, pan.1 as int, zoom),
                x2: to_screen(s[p].x as int, pan.0 as int, zoom),
                y2: to_screen(s[p].y as int, pan.1 as int, zoom),
                color: edge_color(s[i].node_type),
            },
        ],
        None => Seq::empty(),
    }
}

pub open spec fn edges_upto(s: Seq<NetworkNode>, n: int, zoom: int, pan: (i64, i64)) -> Seq<
    PrimitiveView,
>
    decreases n,
{
    if n <= 0 {
        Seq::empty()
    } else {
        edges_upto(s, n - 1, zoom, pan) + edge_prims(s, n - 1, zoom, pan)
    }
}

pub open spec fn nodes_upto(
    s: Seq<NetworkNode>,
    n: int,
    zoom: int,
    pan: (i64, i64),
    selected: Option<u128>,
) -> Seq<PrimitiveView>
    decreases n,
{
    if n <= 0 {
        Seq::empty()
    } else {
        nodes_upto(s, n - 1, zoom, pan, selected) + node_prims(
            s[n - 1],
            selected == Some(s[n - 1].id),
            zoom,
            pan,
        )
    }
}

/// The whole frame: every edge, then every node, in the order of the set.
pub open spec fn frame(s: Seq<NetworkNode>, zoom: int, pan: (i64, i64), selected: Option<u128>) -> Seq<
    PrimitiveView,
> {
    edges_upto(s, s.len() as int, zoom, pan) + nodes_upto(s, s.len() as int, zoom, pan, selected)
}

fn push_prim(out: &mut Vec<Primitive>, p: Primitive)
    ensures
        views(final(out)@) == views(old(out)@).push(p@),
{
    out.push(p);
    proof {
        assert(views(final(out)@) =~= views(old(out)@).push(p@));
    }
}

fn push_rectangle(out: &mut Vec<Primitive>, x: i64, y: i64, hw: i64, hh: i64, color: Color)
    requires
        -SCREEN_LIMIT <= x <= SCREEN_LIMIT,
        -SCREEN_LIMIT <= y <= SCREEN_LIMIT,
        0 <= hw <= SCREEN_LIMIT,
        0 <= hh <= SCREEN_LIMIT,
    ensures
        views(final(out)@) == views(old(out)@) + rectangle(
            x as int,
            y as int,
            hw as int,
            hh as int,
            color,
        ),
{
    let ghost v0 = views(out@);
    push_prim(out, Primitive::Line { x1: x - hw, y1: y - hh, x2: x + hw, y2: y - hh, color });
    push_prim(out, Primitive::Line { x1: x + hw, y1: y - hh, x2: x + hw, y2: y + hh, color });
    push_prim(out, Primitive::Line { x1: x + hw, y1: y + hh, x2: x - hw, y2: y + hh, color });
    push_prim(out, Primitive::Line { x1: x - hw, y1: y + hh, x2: x - hw, y2: y - hh, color });
    proof {
        assert(views(out@) =~= v0 + rectangle(x as int, y as int, hw as int, hh as int, color));
    }
}

impl TopologyView {
    /// Appends the primitives of one node.
    fn draw_node(&self, out: &mut Vec<Primitive>, node: &NetworkNode, selected: bool)
        requires
            self.wf(),
            0 <= node.x <= crate::geometry::MODEL_SPAN,
            0 <= node.y <= crate::geometry::MODEL_SPAN,
        ensures
            views(final(out)@) == views(old(out)@) + node_prims(
                *node,
                selected,
                self.zoom as int,
                self.pan_offset,
            ),
    {
        let ghost v0 = views(out@);
        let (x, y) = model_to_screen(node.x, node.y, self.zoom, self.pan_offset);
        let zoom = self.zoom;
        let size: i64 = if selected {
            3000 * zoom
        } else {
            2000 * zoom
        };
        let (shape, color) = node.get_style();
        match shape {
            Shape::AccessPoint => {
                push_prim(out, Primitive::Ring { x, y, radius: size, points: 16, color });
                push_prim(out, Primitive::Ring { x, y, radius: size - 500 * zoom, points: 16, color });
                push_prim(out, Primitive::Ring { x, y, radius: size - 1000 * zoom, points: 16, color });
            },
            Shape::Switch => {
                push_rectangle(out, x, y, size, size / 2, color);
            },
            Shape::Wireless => {
                push_prim(out, Primitive::Dot { x, y, color });
                push_prim(out, Primitive::Ring { x, y, radius: size * 4 / 5, points: 8, color });
            },
            Shape::Wired => {
                push_rectangle(out, x, y, size / 2, size / 2, color);
            },
            _ => {
                push_prim(out, Primitive::Ring { x, y, radius: size, points: 16, color });
            },
        }
        let ghost v1 = views(out@);
        proof {
            assert(v1 =~= v0 + marker(shape, x as int, y as int, size as int, zoom as int, color));
        }
        if selected {
            push_prim(out, Primitive::Dot { x, y, color: Color::White });
        }
        let ghost v2 = views(out@);
        let text = if node.name.as_str().unicode_len() == 0 {
            String::from_str("Unknown")
        } else {
            node.name.clone()
        };
        push_prim(out, Primitive::Label { x, y: y + 2 * size, text });
        proof {
            assert(views(out@) =~= v0 + node_prims(*node, selected, zoom as int, self.pan_offset));
        }
    }

    /// Draws the node set: every edge, then every node.
    pub fn render(&self) -> (r: Vec<Primitive>)
        requires
            self.wf(),
        ensures
            views(r@) == frame(self.nodes@, self.zoom as int, self.pan_offset, self.selected_node),
    {
        let ghost s = self.nodes@;
        let ghost z = self.zoom as int;
        let ghost pan = self.pan_offset;
        let mut out: Vec<Primitive> = Vec::new();
        let n = self.nodes.len();
        let mut i: usize = 0;
        proof {
            assert(views(out@) =~= Seq::<PrimitiveView>::empty());
        }
        while i < n
            invariant
                self.wf(),
                s == self.nodes@,
                n == s.len(),
                z == self.zoom,
                pan == self.pan_offset,
                i <= n,
                views(out@) == edges_upto(s, i as int, z, pan),
            decreases n - i,
        {
            let node = &self.nodes[i];
            let target = match node.parent_id {
                Some(pid) => find_index(&self.nodes, pid),
                None => None,
            };
            proof {
                lemma_parent_in_range(skeleton(s), i as int);
            }
            match target {
                Some(p) => {
                    let (x1, y1) = model_to_screen(node.x, node.y, self.zoom, self.pan_offset);
                    let parent = &self.nodes[p];
                    let (x2, y2) = model_to_screen(parent.x, parent.y, self.zoom, self.pan_offset);
                    let color = node.edge_color();
                    push_prim(&mut out, Primitive::Line { x1, y1, x2, y2, color });
                },
                None => {
                    proof {
                        assert(views(out@) + Seq::<PrimitiveView>::empty() =~= views(out@));
                    }
                },
            }
            i = i + 1;
        }
        let ghost edges = views(out@);
        i = 0;
        proof {
            assert(views(out@) =~= edges + nodes_upto(s, 0, z, pan, self.selected_node));
        }
        while i < n
            invariant
                self.wf(),
                s == self.nodes@,
                n == s.len(),
                z == self.zoom,
                pan == self.pan_offset,
                i <= n,
                edges == edges_upto(s, n as int, z, pan),
                views(out@) == edges + nodes_upto(s, i as int, z, pan, self.selected_node),
            decreases n - i,
        {
            let node = &self.nodes[i];
            let selected = match self.selected_node {
                Some(id) => id == node.id,
                None => false,
            };
            proof {
                assert(0 <= s[i as int].x <= crate::geometry::MODEL_SPAN);
            }
            self.draw_node(&mut out, node, selected);
            proof {
                assert(views(out@) =~= edges + nodes_upto(s, i + 1, z, pan, self.selected_node));
            }
            i = i + 1;
        }
        out
    }
}

} // verus!
