//! Depth-banded tree layout.
//!
//! Roots (nodes whose parent is absent from the set) share the top band and are
//! spread evenly across model space in id order; every other node sits one band
//! below its parent, its siblings spread evenly across a span centred on the
//! parent. Nodes that no root reaches (they hang off a cycle) are put at the origin.
use vstd::prelude::*;
use crate::geometry::{clamp, clamp_spec, MODEL_HALF, MODEL_SPAN};
use crate::node::NetworkNode;

verus! {

/// Height of one depth band, and the y of the root band (20 units).
pub const BAND: i64 = 20_000;

/// The structure the layout depends on: each node's id and parent id.
pub open spec fn skeleton(s: Seq<NetworkNode>) -> Seq<(u128, Option<u128>)> {
    Seq::new(s.len(), |i: int| (s[i].id, s[i].parent_id))
}

pub open spec fn ids_sorted(sk: Seq<(u128, Option<u128>)>) -> bool {
    forall|i: int, j: int| 0 <= i < j < sk.len() ==> sk[i].0 < sk[j].0
}

pub open spec fn index_of(sk: Seq<(u128, Option<u128>)>, id: u128) -> Option<int> {
    if exists|i: int| 0 <= i < sk.len() && sk[i].0 == id {
        Some(choose|i: int| 0 <= i < sk.len() && sk[i].0 == id)
    } else {
        None
    }
}

/// Index of the node's parent, if the parent is in the set.
pub open spec fn parent_of(sk: Seq<(u128, Option<u128>)>, i: int) -> Option<int> {
    match sk[i].1 {
        Some(p) => index_of(sk, p),
        None => None,
    }
}

/// A root has no parent, or a parent that is not in the set.
pub open spec fn is_root(sk: Seq<(u128, Option<u128>)>, i: int) -> bool {
    parent_of(sk, i) is None
}

pub open spec fn ancestor(sk: Seq<(u128, Option<u128>)>, i: int, k: nat) -> Option<int>
    decreases k,
{
    if k == 0 {
        Some(i)
    } else {
        match parent_of(sk, i) {
            Some(p) => ancestor(sk, p, (k - 1) as nat),
            None => None,
        }
    }
}

/// Node `i` lies `k` levels below a root.
pub open spec fn at_depth(sk: Seq<(u128, Option<u128>)>, i: int, k: nat) -> bool {
    match ancestor(sk, i, k) {
        Some(r) => is_root(sk, r),
        None => false,
    }
}

pub open spec fn depth_of(sk: Seq<(u128, Option<u128>)>, i: int) -> Option<nat> {
    if exists|k: nat| at_depth(sk, i, k) {
        Some(choose|k: nat| at_depth(sk, i, k))
    } else {
        None
    }
}

/// Number of roots among the first `n` nodes.
pub open spec fn roots_before(sk: Seq<(u128, Option<u128>)>, n: int) -> nat
    decreases n,
{
    if n <= 0 {
        0
    } else {
        roots_before(sk, n - 1) + if is_root(sk, n - 1) {
            1nat
        } else {
            0nat
        }
    }
}

/// Ids of the children of node `p` among the first `n` nodes, in order.
pub open spec fn kid_ids(sk: Seq<(u128, Option<u128>)>, p: int, n: int) -> Seq<u128>
    decreases n,
{
    if n <= 0 {
        Seq::empty()
    } else {
        kid_ids(sk, p, n - 1) + if parent_of(sk, n - 1) == Some(p) {
            seq![sk[n - 1].0]
        } else {
            Seq::empty()
        }
    }
}

/// Position of slot `r` of `n` evenly spaced slots across model space.
pub open spec fn slot(r: int, n: int) -> int {
    MODEL_SPAN * (r + 1) / (n + 1)
}

/// The y of depth band `k` (roots are band 0).
pub open spec fn band_y(k: int) -> int {
    clamp_spec(BAND * (k + 1), 0, MODEL_SPAN as int)
}

/// The x of node `i`, placed `k` levels below its root.
pub open spec fn x_at(sk: Seq<(u128, Option<u128>)>, i: int, k: nat) -> int
    decreases k,
{
    if k == 0 {
        slot(roots_before(sk, i) as int, roots_before(sk, sk.len() as int) as int)
    } else {
        match parent_of(sk, i) {
            Some(p) => clamp_spec(
                x_at(sk, p, (k - 1) as nat) - MODEL_HALF + slot(
                    kid_ids(sk, p, i).len() as int,
                    kid_ids(sk, p, sk.len() as int).len() as int,
                ),
                0,
                MODEL_SPAN as int,
            ),
            None => 0,
        }
    }
}

pub open spec fn layout_x(sk: Seq<(u128, Option<u128>)>, i: int) -> int {
    match depth_of(sk, i) {
        Some(k) => x_at(sk, i, k),
        None => 0,
    }
}

pub open spec fn layout_y(sk: Seq<(u128, Option<u128>)>, i: int) -> int {
    match depth_of(sk, i) {
        Some(k) => band_y(k as int),
        None => 0,
    }
}

pub open spec fn with_position(n: NetworkNode, x: int, y: int) -> NetworkNode {
    NetworkNode { x: x as i64, y: y as i64, ..n }
}

/// The node sequence with every position replaced by its layout position.
pub open spec fn laid_out(s: Seq<NetworkNode>) -> Seq<NetworkNode> {
    Seq::new(
        s.len(),
        |i: int| with_position(s[i], layout_x(skeleton(s), i), layout_y(skeleton(s), i)),
    )
}

pub proof fn lemma_index_of_found(sk: Seq<(u128, Option<u128>)>, i: int)
    requires
        ids_sorted(sk),
        0 <= i < sk.len(),
    ensures
        index_of(sk, sk[i].0) == Some(i),
{
    let j = choose|j: int| 0 <= j < sk.len() && sk[j].0 == sk[i].0;
    assert(j == i);
}

pub proof fn lemma_parent_in_range(sk: Seq<(u128, Option<u128>)>, i: int)
    ensures
        parent_of(sk, i) matches Some(p) ==> 0 <= p < sk.len() && sk[i].1 == Some(sk[p].0),
{
}

proof fn lemma_ancestor_add(sk: Seq<(u128, Option<u128>)>, i: int, a: nat, b: nat)
    ensures
        ancestor(sk, i, a + b) == match ancestor(sk, i, a) {
            Some(x) => ancestor(sk, x, b),
            None => None,
        },
    decreases a,
{
    if a > 0 {
        if let Some(p) = parent_of(sk, i) {
            lemma_ancestor_add(sk, p, (a - 1) as nat, b);
            assert((a - 1) as nat + b == (a + b - 1) as nat);
        }
    }
}

proof fn lemma_ancestor_in_range(sk: Seq<(u128, Option<u128>)>, i: int, k: nat)
    requires
        0 <= i < sk.len(),
    ensures
        ancestor(sk, i, k) matches Some(a) ==> 0 <= a < sk.len(),
    decreases k,
{
    if k > 0 {
        lemma_parent_in_range(sk, i);
        if let Some(p) = parent_of(sk, i) {
            lemma_ancestor_in_range(sk, p, (k - 1) as nat);
        }
    }
}

/// A node lies at one depth at most.
pub proof fn lemma_depth_unique(sk: Seq<(u128, Option<u128>)>, i: int, k1: nat, k2: nat)
    requires
        at_depth(sk, i, k1),
        at_depth(sk, i, k2),
    ensures
        k1 == k2,
{
    if k1 < k2 {
        lemma_ancestor_add(sk, i, k1, (k2 - k1) as nat);
        assert(k1 + (k2 - k1) as nat == k2);
    } else if k2 < k1 {
        lemma_ancestor_add(sk, i, k2, (k1 - k2) as nat);
        assert(k2 + (k1 - k2) as nat == k1);
    }
}

pub proof fn lemma_depth_of_at(sk: Seq<(u128, Option<u128>)>, i: int, k: nat)
    requires
        at_depth(sk, i, k),
    ensures
        depth_of(sk, i) == Some(k),
{
    let c = choose|c: nat| at_depth(sk, i, c);
    lemma_depth_unique(sk, i, c, k);
}

/// If `i` lies at depth `k` and `d <= k`, its ancestor `k - d` levels up lies at depth `d`.
proof fn lemma_depth_ancestor(sk: Seq<(u128, Option<u128>)>, i: int, k: nat, d: nat)
    requires
        at_depth(sk, i, k),
        d <= k,
    ensures
        ancestor(sk, i, (k - d) as nat) matches Some(a) && at_depth(sk, a, d),
{
    lemma_ancestor_add(sk, i, (k - d) as nat, d);
    assert((k - d) as nat + d == k);
}

proof fn lemma_roots_before_mono(sk: Seq<(u128, Option<u128>)>, a: int, b: int)
    requires
        0 <= a <= b,
    ensures
        roots_before(sk, a) <= roots_before(sk, b),
        roots_before(sk, b) <= roots_before(sk, a) + (b - a),
    decreases b - a,
{
    if a < b {
        lemma_roots_before_mono(sk, a, b - 1);
    }
}

proof fn lemma_kids_mono(sk: Seq<(u128, Option<u128>)>, p: int, a: int, b: int)
    requires
        0 <= a <= b,
    ensures
        kid_ids(sk, p, a).len() <= kid_ids(sk, p, b).len(),
        kid_ids(sk, p, b).len() <= kid_ids(sk, p, a).len() + (b - a),
    decreases b - a,
{
    if a < b {
        lemma_kids_mono(sk, p, a, b - 1);
    }
}

/// Every layout coordinate lies in model space.
pub proof fn lemma_layout_bounded(sk: Seq<(u128, Option<u128>)>, i: int)
    requires
        0 <= i < sk.len(),
    ensures
        0 <= layout_x(sk, i) <= MODEL_SPAN,
        0 <= layout_y(sk, i) <= MODEL_SPAN,
{
    if let Some(k) = depth_of(sk, i) {
        let c = choose|c: nat| at_depth(sk, i, c);
        if k == 0 {
            assert(ancestor(sk, i, 0) == Some(i));
            lemma_roots_before_mono(sk, i, i + 1);
            lemma_roots_before_mono(sk, i + 1, sk.len() as int);
            lemma_slot_bounded(roots_before(sk, i) as int, roots_before(sk, sk.len() as int) as int);
        }
    }
}

proof fn lemma_slot_bounded(r: int, n: int)
    requires
        0 <= r < n,
    ensures
        0 <= slot(r, n) < MODEL_SPAN,
{
    assert(0 <= MODEL_SPAN * (r + 1)) by (nonlinear_arith)
        requires
            0 <= r,
    ;
    vstd::arithmetic::div_mod::lemma_div_pos_is_pos(MODEL_SPAN * (r + 1), n + 1);
    assert(MODEL_SPAN * (r + 1) < MODEL_SPAN * (n + 1)) by (nonlinear_arith)
        requires
            r < n,
    ;
    vstd::arithmetic::div_mod::lemma_div_by_multiple_is_strongly_ordered(
        MODEL_SPAN * (r + 1),
        MODEL_SPAN * (n + 1),
        MODEL_SPAN as int,
        n + 1,
    );
    vstd::arithmetic::div_mod::lemma_div_multiples_vanish(MODEL_SPAN as int, n + 1);
    assert(MODEL_SPAN * (n + 1) == (n + 1) * MODEL_SPAN) by (nonlinear_arith);
}


proof fn lemma_x_at_bounded(sk: Seq<(u128, Option<u128>)>, i: int, k: nat)
    requires
        0 <= i < sk.len(),
        at_depth(sk, i, k),
    ensures
        0 <= x_at(sk, i, k) <= MODEL_SPAN,
{
    if k == 0 {
        lemma_roots_before_mono(sk, i, i + 1);
        lemma_roots_before_mono(sk, i + 1, sk.len() as int);
        lemma_slot_bounded(roots_before(sk, i) as int, roots_before(sk, sk.len() as int) as int);
    }
}

spec fn count_some(s: Seq<Option<usize>>) -> nat
    decreases s.len(),
{
    if s.len() == 0 {
        0
    } else {
        count_some(s.drop_last()) + if s.last() is Some {
            1nat
        } else {
            0nat
        }
    }
}

proof fn lemma_count_some_bound(s: Seq<Option<usize>>)
    ensures
        count_some(s) <= s.len(),
    decreases s.len(),
{
    if s.len() > 0 {
        lemma_count_some_bound(s.drop_last());
    }
}

proof fn lemma_count_some_push(s: Seq<Option<usize>>, v: Option<usize>)
    ensures
        count_some(s.push(v)) == count_some(s) + if v is Some {
            1nat
        } else {
            0nat
        },
{
    assert(s.push(v).drop_last() =~= s);
}

proof fn lemma_count_some_fill(s: Seq<Option<usize>>, i: int, v: usize)
    requires
        0 <= i < s.len(),
        s[i] is None,
    ensures
        count_some(s.update(i, Some(v))) == count_some(s) + 1,
    decreases s.len(),
{
    if i == s.len() - 1 {
        assert(s.update(i, Some(v)).drop_last() =~= s.drop_last());
    } else {
        assert(s.update(i, Some(v)).drop_last() =~= s.drop_last().update(i, Some(v)));
        lemma_count_some_fill(s.drop_last(), i, v);
    }
}

/// Index of the node with the given id.
pub fn find_index(nodes: &Vec<NetworkNode>, id: u128) -> (r: Option<usize>)
    requires
        ids_sorted(skeleton(nodes@)),
    ensures
        match r {
            Some(i) => index_of(skeleton(nodes@), id) == Some(i as int),
            None => index_of(skeleton(nodes@), id) is None,
        },
{
    let ghost sk = skeleton(nodes@);
    let mut i: usize = 0;
    while i < nodes.len()
        invariant
            i <= nodes.len(),
            sk == skeleton(nodes@),
            ids_sorted(sk),
            forall|j: int| 0 <= j < i ==> sk[j].0 != id,
        decreases nodes.len() - i,
    {
        if nodes[i].id == id {
            proof {
                lemma_index_of_found(sk, i as int);
            }
            return Some(i);
        }
        i = i + 1;
    }
    None
}

spec fn opt_index(o: Option<usize>) -> Option<int> {
    match o {
        Some(p) => Some(p as int),
        None => None,
    }
}

fn parent_indices(nodes: &Vec<NetworkNode>) -> (r: Vec<Option<usize>>)
    requires
        ids_sorted(skeleton(nodes@)),
    ensures
        r.len() == nodes.len(),
        forall|i: int| 0 <= i < r.len() ==> opt_index(#[trigger] r@[i]) == parent_of(skeleton(nodes@), i),
{
    let ghost sk = skeleton(nodes@);
    let mut r: Vec<Option<usize>> = Vec::new();
    let mut i: usize = 0;
    while i < nodes.len()
        invariant
            i <= nodes.len(),
            r.len() == i,
            sk == skeleton(nodes@),
            ids_sorted(sk),
            forall|j: int| 0 <= j < i ==> opt_index(#[trigger] r@[j]) == parent_of(sk, j),
        decreases nodes.len() - i,
    {
        let p = match nodes[i].parent_id {
            Some(pid) => find_index(nodes, pid),
            None => None,
        };
        r.push(p);
        i = i + 1;
    }
    r
}

/// For each node its rank among its siblings, and for each node its number of children.
fn kid_ranks(par: &Vec<Option<usize>>, Ghost(sk): Ghost<Seq<(u128, Option<u128>)>>) -> (r: (
    Vec<usize>,
    Vec<usize>,
))
    requires
        par.len() == sk.len(),
        forall|i: int| 0 <= i < par.len() ==> opt_index(#[trigger] par@[i]) == parent_of(sk, i),
    ensures
        r.0.len() == sk.len(),
        r.1.len() == sk.len(),
        forall|j: int|
            0 <= j < sk.len() ==> (#[trigger] par@[j] matches Some(p) ==> r.0@[j] == kid_ids(
                sk,
                p as int,
                j,
            ).len()),
        forall|p: int| 0 <= p < sk.len() ==> #[trigger] r.1@[p] == kid_ids(sk, p, sk.len() as int).len(),
{
    let n = par.len();
    let mut rank: Vec<usize> = vec![0usize; n];
    let mut count: Vec<usize> = vec![0usize; n];
    let mut j: usize = 0;
    while j < n
        invariant
            n == par.len(),
            n == sk.len(),
            j <= n,
            rank.len() == n,
            count.len() == n,
            forall|i: int| 0 <= i < n ==> opt_index(#[trigger] par@[i]) == parent_of(sk, i),
            forall|q: int| 0 <= q < n ==> #[trigger] count@[q] == kid_ids(sk, q, j as int).len(),
            forall|i: int|
                0 <= i < j ==> (#[trigger] par@[i] matches Some(p) ==> rank@[i] == kid_ids(
                    sk,
                    p as int,
                    i,
                ).len()),
        decreases n - j,
    {
        proof {
            assert forall|q: int| 0 <= q < n implies #[trigger] kid_ids(sk, q, j + 1) == kid_ids(
                sk,
                q,
                j as int,
            ) + if parent_of(sk, j as int) == Some(q) {
                seq![sk[j as int].0]
            } else {
                Seq::<u128>::empty()
            } by {}
        }
        match par[j] {
            Some(p) => {
                proof {
                    lemma_parent_in_range(sk, j as int);
                    lemma_kids_mono(sk, p as int, 0, j as int);
                }
                let c = count[p];
                rank.set(j, c);
                count.set(p, c + 1);
            },
            None => {},
        }
        j = j + 1;
    }
    (rank, count)
}

fn slot_exec(r: usize, n: usize) -> (x: i64)
    requires
        r < n,
    ensures
        x == slot(r as int, n as int),
        0 <= x < MODEL_SPAN,
{
    proof {
        lemma_slot_bounded(r as int, n as int);
    }
    let v: u128 = 100_000u128 * (r as u128 + 1) / (n as u128 + 1);
    v as i64
}

fn band_y_exec(k: usize) -> (y: i64)
    ensures
        y == band_y(k as int),
{
    if k >= 4 {
        MODEL_SPAN
    } else {
        BAND * (k as i64 + 1)
    }
}


/// Only the positions of `nodes` differ from those of `s0`; placed nodes sit where
/// the layout puts them, at a depth of at most `d`, and unplaced ones at the origin.
spec fn placement_ok(
    s0: Seq<NetworkNode>,
    nodes: Seq<NetworkNode>,
    depth: Seq<Option<usize>>,
    d: int,
) -> bool {
    let sk = skeleton(s0);
    &&& nodes.len() == s0.len()
    &&& depth.len() == s0.len()
    &&& forall|j: int|
        0 <= j < s0.len() ==> #[trigger] nodes[j] == with_position(
            s0[j],
            nodes[j].x as int,
            nodes[j].y as int,
        )
    &&& forall|j: int|
        0 <= j < s0.len() ==> match #[trigger] depth[j] {
            Some(k) => k <= d && at_depth(sk, j, k as nat) && nodes[j].x == x_at(sk, j, k as nat)
                && nodes[j].y == band_y(k as int),
            None => nodes[j].x == 0 && nodes[j].y == 0,
        }
}

/// Every node within `d` levels of a root has been placed.
spec fn levels_done(s0: Seq<NetworkNode>, depth: Seq<Option<usize>>, d: int) -> bool {
    forall|j: int, k: nat|
        0 <= j < s0.len() && k <= d && #[trigger] at_depth(skeleton(s0), j, k) ==> depth[j] == Some(
            k as usize,
        )
}

/// Places every node of `nodes` by the depth-banded tree layout.
pub fn layout(nodes: &mut Vec<NetworkNode>)
    requires
        ids_sorted(skeleton(old(nodes)@)),
    ensures
        final(nodes)@ == laid_out(old(nodes)@),
{
    let ghost s0 = nodes@;
    let ghost sk = skeleton(nodes@);
    let n = nodes.len();
    let par = parent_indices(nodes);
    let (rank, count) = kid_ranks(&par, Ghost(sk));

    let mut total_roots: usize = 0;
    let mut i: usize = 0;
    while i < n
        invariant
            n == par.len(),
            n == sk.len(),
            i <= n,
            total_roots == roots_before(sk, i as int),
            total_roots <= i,
            forall|j: int| 0 <= j < n ==> opt_index(#[trigger] par@[j]) == parent_of(sk, j),
        decreases n - i,
    {
        if par[i].is_none() {
            total_roots = total_roots + 1;
        }
        i = i + 1;
    }

    // Band 0: the roots, spread across the top.
    let mut depth: Vec<Option<usize>> = Vec::new();
    let mut seen: usize = 0;
    i = 0;
    while i < n
        invariant
            n == par.len(),
            n == sk.len(),
            n == s0.len(),
            sk == skeleton(s0),
            i <= n,
            nodes.len() == n,
            depth.len() == i,
            seen == roots_before(sk, i as int),
            seen == count_some(depth@),
            total_roots == roots_before(sk, n as int),
            forall|j: int| 0 <= j < n ==> opt_index(#[trigger] par@[j]) == parent_of(sk, j),
            forall|j: int| i <= j < n ==> #[trigger] nodes@[j] == s0[j],
            forall|j: int|
                0 <= j < i ==> #[trigger] nodes@[j] == with_position(
                    s0[j],
                    nodes@[j].x as int,
                    nodes@[j].y as int,
                ),
            forall|j: int|
                0 <= j < i ==> match #[trigger] depth@[j] {
                    Some(k) => k == 0 && is_root(sk, j) && nodes@[j].x == x_at(sk, j, 0)
                        && nodes@[j].y == band_y(0),
                    None => !is_root(sk, j) && nodes@[j].x == 0 && nodes@[j].y == 0,
                },
        decreases n - i,
    {
        proof {
            lemma_count_some_push(depth@, if par@[i as int] is None { Some(0usize) } else { None });
            lemma_roots_before_mono(sk, i + 1, n as int);
        }
        if par[i].is_none() {
            let x = slot_exec(seen, total_roots);
            nodes[i].x = x;
            nodes[i].y = BAND;
            depth.push(Some(0));
            seen = seen + 1;
        } else {
            nodes[i].x = 0;
            nodes[i].y = 0;
            depth.push(None);
        }
        i = i + 1;
    }
    let mut placed: usize = seen;
    proof {
        assert forall|j: int, k: nat|
            0 <= j < s0.len() && k <= 0 && #[trigger] at_depth(skeleton(s0), j, k) implies depth@[j]
            == Some(k as usize) by {
            assert(ancestor(sk, j, 0) == Some(j));
        }
        assert forall|j: int| 0 <= j < n && is_root(sk, j) implies placed > 0 by {
            lemma_roots_before_mono(sk, j, j + 1);
            lemma_roots_before_mono(sk, j + 1, n as int);
        }
        assert forall|j: int| 0 <= j < n && #[trigger] depth@[j] is Some implies at_depth(
            sk,
            j,
            0,
        ) by {
            assert(ancestor(sk, j, 0) == Some(j));
        }
        lemma_count_some_bound(depth@);
    }

    // Each further band: the children of the nodes placed in the band above.
    let mut d: usize = 0;
    let mut frontier: bool = placed > 0;
    while frontier
        invariant
            n == par.len(),
            n == sk.len(),
            n == s0.len(),
            n == rank.len(),
            n == count.len(),
            sk == skeleton(s0),
            forall|j: int| 0 <= j < n ==> opt_index(#[trigger] par@[j]) == parent_of(sk, j),
            forall|j: int|
                0 <= j < n ==> (#[trigger] par@[j] matches Some(p) ==> rank@[j] == kid_ids(
                    sk,
                    p as int,
                    j,
                ).len()),
            forall|p: int| 0 <= p < n ==> #[trigger] count@[p] == kid_ids(sk, p, n as int).len(),
            placement_ok(s0, nodes@, depth@, d as int),
            levels_done(s0, depth@, d as int),
            placed == count_some(depth@),
            placed <= n,
            frontier ==> d < placed,
            !frontier ==> forall|j: int| 0 <= j < n ==> !at_depth(sk, j, d as nat),
        decreases (n - placed) as int + if frontier {
            1int
        } else {
            0int
        },
    {
        let nd: usize = d + 1;
        let mut added: usize = 0;
        let ghost placed0 = placed;
        i = 0;
        while i < n
            invariant
                n == par.len(),
                n == sk.len(),
                n == s0.len(),
                n == rank.len(),
                n == count.len(),
                sk == skeleton(s0),
                nd == d + 1,
                i <= n,
                forall|j: int| 0 <= j < n ==> opt_index(#[trigger] par@[j]) == parent_of(sk, j),
                forall|j: int|
                    0 <= j < n ==> (#[trigger] par@[j] matches Some(p) ==> rank@[j] == kid_ids(
                        sk,
                        p as int,
                        j,
                    ).len()),
                forall|p: int| 0 <= p < n ==> #[trigger] count@[p] == kid_ids(sk, p, n as int).len(),
                placement_ok(s0, nodes@, depth@, nd as int),
                levels_done(s0, depth@, d as int),
                forall|j: int|
                    0 <= j < i && #[trigger] at_depth(sk, j, nd as nat) ==> depth@[j] == Some(nd),
                forall|j: int| 0 <= j < n && #[trigger] depth@[j] == Some(nd) ==> j < i && added > 0,
                placed == count_some(depth@),
                placed == placed0 + added,
                placed <= n,
                d < placed0,
            decreases n - i,
        {
            proof {
                lemma_count_some_bound(depth@);
                if at_depth(sk, i as int, nd as nat) {
                    lemma_parent_in_range(sk, i as int);
                    let p = parent_of(sk, i as int)->0;
                    assert(ancestor(sk, i as int, nd as nat) == ancestor(sk, p, d as nat));
                    assert(at_depth(sk, p, d as nat));
                    assert(depth@[p] == Some(d));
                    if let Some(k) = depth@[i as int] {
                        lemma_depth_unique(sk, i as int, k as nat, nd as nat);
                    }
                }
            }
            if depth[i].is_none() {
                if let Some(p) = par[i] {
                    if depth[p] == Some(d) {
                        proof {
                            lemma_parent_in_range(sk, i as int);
                            lemma_kids_mono(sk, p as int, i as int, i + 1);
                            lemma_kids_mono(sk, p as int, i + 1, n as int);
                            lemma_x_at_bounded(sk, p as int, d as nat);
                            lemma_count_some_fill(depth@, i as int, nd);
                            lemma_count_some_bound(depth@.update(i as int, Some(nd)));
                            assert(ancestor(sk, i as int, nd as nat) == ancestor(sk, p as int, d as nat));
                        }
                        let x = clamp(nodes[p].x - MODEL_HALF + slot_exec(rank[i], count[p]), 0, MODEL_SPAN);
                        let y = band_y_exec(nd);
                        nodes[i].x = x;
                        nodes[i].y = y;
                        depth.set(i, Some(nd));
                        added = added + 1;
                        placed = placed + 1;
                    }
                }
            }
            proof {
                assert forall|j: int, k: nat|
                    0 <= j < s0.len() && k <= d && #[trigger] at_depth(skeleton(s0), j, k) implies depth@[j]
                    == Some(k as usize) by {
                    if j == i {
                        if at_depth(sk, j, nd as nat) {
                            lemma_depth_unique(sk, j, k, nd as nat);
                        }
                    }
                }
            }
            i = i + 1;
        }
        proof {
            assert forall|j: int, k: nat|
                0 <= j < s0.len() && k <= nd && #[trigger] at_depth(skeleton(s0), j, k) implies depth@[j]
                == Some(k as usize) by {}
            if added == 0 {
                assert forall|j: int| 0 <= j < n implies !at_depth(sk, j, nd as nat) by {
                    if at_depth(sk, j, nd as nat) {
                        assert(depth@[j] == Some(nd));
                    }
                }
            }
        }
        frontier = added > 0;
        d = nd;
    }
    proof {
        assert forall|j: int| 0 <= j < n implies #[trigger] nodes@[j] == laid_out(s0)[j] by {
            match depth@[j] {
                Some(k) => {
                    lemma_depth_of_at(sk, j, k as nat);
                },
                None => {
                    if exists|k: nat| at_depth(sk, j, k) {
                        let k = choose|k: nat| at_depth(sk, j, k);
                        if k >= d {
                            lemma_depth_ancestor(sk, j, k, d as nat);
                            let a = ancestor(sk, j, (k - d) as nat)->0;
                            lemma_ancestor_in_range(sk, j, (k - d) as nat);
                        }
                    }
                },
            }
        }
        assert(nodes@ =~= laid_out(s0));
    }
}


/// Laying out an already laid-out node set changes nothing: the layout reads only
/// ids and parent ids, never earlier positions.
pub proof fn lemma_layout_idempotent(s: Seq<NetworkNode>)
    ensures
        laid_out(laid_out(s)) == laid_out(s),
{
    let l = laid_out(s);
    assert(skeleton(l) =~= skeleton(s));
    assert forall|i: int| 0 <= i < s.len() implies #[trigger] laid_out(l)[i] == l[i] by {
        lemma_layout_bounded(skeleton(s), i);
    }
    assert(laid_out(l) =~= l);
}

/// After layout every node lies in model space.
pub proof fn lemma_laid_out_bounded(s: Seq<NetworkNode>)
    ensures
        forall|i: int|
            0 <= i < s.len() ==> 0 <= #[trigger] laid_out(s)[i].x <= MODEL_SPAN && 0
                <= laid_out(s)[i].y <= MODEL_SPAN,
{
    assert forall|i: int| 0 <= i < s.len() implies 0 <= #[trigger] laid_out(s)[i].x <= MODEL_SPAN && 0
        <= laid_out(s)[i].y <= MODEL_SPAN by {
        lemma_layout_bounded(skeleton(s), i);
    }
}

/// A node without a parent, or whose parent is not in the set, is placed in the
/// root band, in the slot given by its rank among the roots.
pub proof fn lemma_roots_in_top_band(s: Seq<NetworkNode>, i: int)
    requires
        ids_sorted(skeleton(s)),
        0 <= i < s.len(),
        s[i].parent_id is None || forall|j: int| 0 <= j < s.len() ==> s[j].id != s[i].parent_id->0,
    ensures
        is_root(skeleton(s), i),
        laid_out(s)[i].y == BAND,
        laid_out(s)[i].x == slot(
            roots_before(skeleton(s), i) as int,
            roots_before(skeleton(s), s.len() as int) as int,
        ),
        roots_before(skeleton(s), i) < roots_before(skeleton(s), s.len() as int),
{
    let sk = skeleton(s);
    if let Some(pid) = s[i].parent_id {
        assert(!exists|j: int| 0 <= j < sk.len() && sk[j].0 == pid);
    }
    assert(ancestor(sk, i, 0) == Some(i));
    lemma_depth_of_at(sk, i, 0);
    lemma_roots_before_mono(sk, i, i + 1);
    lemma_roots_before_mono(sk, i + 1, s.len() as int);
    lemma_slot_bounded(roots_before(sk, i) as int, roots_before(sk, s.len() as int) as int);
}

} // verus!
