//! Graph builder: turns a snapshot of devices, clients and uplinks into a node set.
//!
//! The node set is held sorted by id with no id twice; when a snapshot names an id
//! more than once, the last record wins. Children lists are derived from the
//! parent ids, in id order.
use vstd::prelude::*;
use crate::layout::{find_index, ids_sorted, kid_ids, parent_of, skeleton, lemma_parent_in_range};
use crate::node::{ClientType, DeviceState, DeviceType, NetworkNode, NodeType};

verus! {

/// A device as the controller reports it.
pub struct DeviceSummary {
    pub id: u128,
    pub name: String,
    pub state: DeviceState,
    /// Capability tags, such as "accessPoint" or "switching".
    pub features: Vec<String>,
}

/// How a client is attached to the network.
pub enum ClientLink {
    Wireless { uplink_device_id: u128 },
    Wired { uplink_device_id: u128 },
    /// A kind of client that the topology does not show (VPN, Teleport).
    Other,
}

/// A client as the controller reports it.
pub struct ClientSummary {
    pub id: u128,
    pub name: Option<String>,
    pub link: ClientLink,
}

/// What a node of the set holds besides its position and children.
pub struct NodeRecord {
    pub id: u128,
    pub name: Seq<char>,
    pub node_type: NodeType,
    pub parent_id: Option<u128>,
}

pub open spec fn has_feature(d: DeviceSummary, f: Seq<char>) -> bool {
    exists|k: int| 0 <= k < d.features.len() && (#[trigger] d.features@[k])@ == f
}

pub open spec fn device_kind(d: DeviceSummary) -> DeviceType {
    if has_feature(d, "accessPoint"@) {
        DeviceType::AccessPoint
    } else if has_feature(d, "switching"@) {
        DeviceType::Switch
    } else {
        DeviceType::Other
    }
}

/// The uplink of `id` by the first entry for it in `ups`.
pub open spec fn uplink_of(ups: Seq<(u128, u128)>, id: u128) -> Option<u128>
    decreases ups.len(),
{
    if ups.len() == 0 {
        None
    } else if ups[0].0 == id {
        Some(ups[0].1)
    } else {
        uplink_of(ups.drop_first(), id)
    }
}

pub open spec fn device_record(d: DeviceSummary, ups: Seq<(u128, u128)>) -> NodeRecord {
    NodeRecord {
        id: d.id,
        name: d.name@,
        node_type: NodeType::Device { device_type: device_kind(d), state: d.state },
        parent_id: uplink_of(ups, d.id),
    }
}

pub open spec fn client_name(c: ClientSummary) -> Seq<char> {
    match c.name {
        Some(n) => n@,
        None => Seq::empty(),
    }
}

pub open spec fn client_record(c: ClientSummary) -> Option<NodeRecord> {
    match c.link {
        ClientLink::Wireless { uplink_device_id } => Some(
            NodeRecord {
                id: c.id,
                name: client_name(c),
                node_type: NodeType::Client { client_type: ClientType::Wireless },
                parent_id: Some(uplink_device_id),
            },
        ),
        ClientLink::Wired { uplink_device_id } => Some(
            NodeRecord {
                id: c.id,
                name: client_name(c),
                node_type: NodeType::Client { client_type: ClientType::Wired },
                parent_id: Some(uplink_device_id),
            },
        ),
        ClientLink::Other => None,
    }
}

/// The records of a snapshot in order: devices first, then the clients shown.
pub open spec fn snapshot_records(
    devices: Seq<DeviceSummary>,
    clients: Seq<ClientSummary>,
    ups: Seq<(u128, u128)>,
) -> Seq<NodeRecord>
    decreases clients.len(),
{
    if clients.len() == 0 {
        devices.map_values(|d: DeviceSummary| device_record(d, ups))
    } else {
        snapshot_records(devices, clients.drop_last(), ups) + match client_record(clients.last()) {
            Some(r) => seq![r],
            None => Seq::empty(),
        }
    }
}

/// The last record for each id.
pub open spec fn latest(rs: Seq<NodeRecord>) -> Map<u128, NodeRecord>
    decreases rs.len(),
{
    if rs.len() == 0 {
        Map::empty()
    } else {
        latest(rs.drop_last()).insert(rs.last().id, rs.last())
    }
}

pub open spec fn node_matches(n: NetworkNode, r: NodeRecord) -> bool {
    &&& n.id == r.id
    &&& n.name@ == r.name
    &&& n.node_type == r.node_type
    &&& n.parent_id == r.parent_id
}

/// `s` holds exactly one node per key of `m`, sorted by id, each matching its record.
pub open spec fn represents(s: Seq<NetworkNode>, m: Map<u128, NodeRecord>) -> bool {
    &&& ids_sorted(skeleton(s))
    &&& forall|i: int|
        0 <= i < s.len() ==> m.contains_key(#[trigger] s[i].id) && node_matches(s[i], m[s[i].id])
    &&& forall|id: u128| #[trigger] m.contains_key(id) ==> exists|i: int| 0 <= i < s.len() && s[i].id == id
}

/// Each node's children are the ids of the nodes whose parent it is, in order.
pub open spec fn children_ok(s: Seq<NetworkNode>) -> bool {
    forall|i: int|
        0 <= i < s.len() ==> (#[trigger] s[i].children)@ == kid_ids(skeleton(s), i, s.len() as int)
}

fn contains_feature(d: &DeviceSummary, f: &String) -> (r: bool)
    ensures
        r == has_feature(*d, f@),
{
    let mut k: usize = 0;
    while k < d.features.len()
        invariant
            k <= d.features.len(),
            forall|j: int| 0 <= j < k ==> (#[trigger] d.features@[j])@ != f@,
        decreases d.features.len() - k,
    {
        if d.features[k] == *f {
            return true;
        }
        k = k + 1;
    }
    false
}

fn classify_device(d: &DeviceSummary) -> (r: DeviceType)
    ensures
        r == device_kind(*d),
{
    let ap = String::from_str("accessPoint");
    let sw = String::from_str("switching");
    if contains_feature(d, &ap) {
        DeviceType::AccessPoint
    } else if contains_feature(d, &sw) {
        DeviceType::Switch
    } else {
        DeviceType::Other
    }
}

fn lookup_uplink(ups: &Vec<(u128, u128)>, id: u128) -> (r: Option<u128>)
    ensures
        r == uplink_of(ups@, id),
{
    let mut k: usize = 0;
    assert(ups@.subrange(0, ups.len() as int) =~= ups@);
    while k < ups.len()
        invariant
            k <= ups.len(),
            uplink_of(ups@, id) == uplink_of(ups@.subrange(k as int, ups.len() as int), id),
        decreases ups.len() - k,
    {
        let ghost rest = ups@.subrange(k as int, ups.len() as int);
        assert(rest.drop_first() =~= ups@.subrange(k + 1, ups.len() as int));
        if ups[k].0 == id {
            return Some(ups[k].1);
        }
        k = k + 1;
    }
    None
}

spec fn fresh(n: NetworkNode) -> bool {
    n.children@.len() == 0 && n.x == 0 && n.y == 0
}

spec fn record_of(n: NetworkNode) -> NodeRecord {
    NodeRecord { id: n.id, name: n.name@, node_type: n.node_type, parent_id: n.parent_id }
}

/// Puts `node` in its place by id, replacing a node with the same id.
fn upsert(nodes: &mut Vec<NetworkNode>, node: NetworkNode, Ghost(m): Ghost<Map<u128, NodeRecord>>)
    requires
        represents(old(nodes)@, m),
        forall|i: int| 0 <= i < old(nodes).len() ==> fresh(#[trigger] old(nodes)@[i]),
        fresh(node),
    ensures
        represents(final(nodes)@, m.insert(node.id, record_of(node))),
        forall|i: int| 0 <= i < final(nodes).len() ==> fresh(#[trigger] final(nodes)@[i]),
{
    let ghost s = nodes@;
    let ghost m2 = m.insert(node.id, record_of(node));
    let mut pos: usize = 0;
    while pos < nodes.len() && nodes[pos].id < node.id
        invariant
            pos <= nodes.len(),
            nodes@ == s,
            forall|j: int| 0 <= j < pos ==> (#[trigger] s[j]).id < node.id,
        decreases nodes.len() - pos,
    {
        pos = pos + 1;
    }
    proof {
        assert forall|a: int, b: int| 0 <= a < b < s.len() implies s[a].id < s[b].id by {
            assert(skeleton(s)[a].0 < skeleton(s)[b].0);
        }
    }
    if pos < nodes.len() && nodes[pos].id == node.id {
        nodes.set(pos, node);
        proof {
            let t = nodes@;
            assert(t == s.update(pos as int, node));
            assert forall|a: int, b: int| 0 <= a < b < t.len() implies skeleton(t)[a].0 < skeleton(
                t,
            )[b].0 by {
                assert(skeleton(t)[a].0 == t[a].id);
                assert(skeleton(t)[b].0 == t[b].id);
            }
            assert forall|i: int| 0 <= i < t.len() implies m2.contains_key(#[trigger] t[i].id)
                && node_matches(t[i], m2[t[i].id]) by {
                if i != pos {
                    assert(t[i] == s[i]);
                    assert(s[i].id != node.id);
                }
            }
            assert forall|id: u128| #[trigger] m2.contains_key(id) implies exists|i: int|
                0 <= i < t.len() && t[i].id == id by {
                if id != node.id {
                    let i = choose|i: int| 0 <= i < s.len() && s[i].id == id;
                    assert(t[i].id == id);
                } else {
                    assert(t[pos as int].id == id);
                }
            }
        }
    } else {
        nodes.insert(pos, node);
        proof {
            let t = nodes@;
            assert(t == s.insert(pos as int, node));
            assert(pos < s.len() ==> s[pos as int].id > node.id);
            assert forall|a: int, b: int| 0 <= a < b < t.len() implies skeleton(t)[a].0 < skeleton(
                t,
            )[b].0 by {
                assert(skeleton(t)[a].0 == t[a].id);
                assert(skeleton(t)[b].0 == t[b].id);
                if b < pos {
                    assert(t[a] == s[a] && t[b] == s[b]);
                } else if b == pos {
                    assert(t[a] == s[a]);
                } else if a < pos {
                    assert(t[a] == s[a] && t[b] == s[b - 1]);
                } else if a == pos {
                    assert(t[b] == s[b - 1]);
                    assert(s[b - 1].id >= s[pos as int].id);
                } else {
                    assert(t[a] == s[a - 1] && t[b] == s[b - 1]);
                }
            }
            assert forall|i: int| 0 <= i < t.len() implies m2.contains_key(#[trigger] t[i].id)
                && node_matches(t[i], m2[t[i].id]) by {
                if i < pos {
                    assert(t[i] == s[i]);
                } else if i > pos {
                    assert(t[i] == s[i - 1]);
                    assert(s[i - 1].id >= s[pos as int].id);
                }
            }
            assert forall|id: u128| #[trigger] m2.contains_key(id) implies exists|i: int|
                0 <= i < t.len() && t[i].id == id by {
                if id != node.id {
                    let i = choose|i: int| 0 <= i < s.len() && s[i].id == id;
                    if i < pos {
                        assert(t[i].id == id);
                    } else {
                        assert(t[i + 1].id == id);
                    }
                } else {
                    assert(t[pos as int].id == id);
                }
            }
        }
    }
}


proof fn lemma_latest_step(rs: Seq<NodeRecord>, i: int)
    requires
        0 <= i < rs.len(),
    ensures
        latest(rs.take(i + 1)) == latest(rs.take(i)).insert(rs[i].id, rs[i]),
{
    assert(rs.take(i + 1).drop_last() =~= rs.take(i));
}

/// Fills in each node's children: the ids of the nodes whose parent it is, in order.
fn link_children(nodes: &mut Vec<NetworkNode>)
    requires
        ids_sorted(skeleton(old(nodes)@)),
        forall|i: int| 0 <= i < old(nodes).len() ==> (#[trigger] old(nodes)@[i]).children@.len() == 0,
    ensures
        final(nodes).len() == old(nodes).len(),
        skeleton(final(nodes)@) == skeleton(old(nodes)@),
        children_ok(final(nodes)@),
        forall|i: int|
            0 <= i < final(nodes).len() ==> #[trigger] final(nodes)@[i] == (NetworkNode {
                children: final(nodes)@[i].children,
                ..old(nodes)@[i]
            }),
{
    let ghost base = nodes@;
    let ghost sk = skeleton(nodes@);
    let n = nodes.len();
    let mut j: usize = 0;
    while j < n
        invariant
            n == nodes.len(),
            n == base.len(),
            j <= n,
            sk == skeleton(base),
            skeleton(nodes@) == sk,
            ids_sorted(sk),
            forall|i: int|
                0 <= i < n ==> #[trigger] nodes@[i] == (NetworkNode {
                    children: nodes@[i].children,
                    ..base[i]
                }),
            forall|k: int| 0 <= k < n ==> (#[trigger] nodes@[k].children)@ == kid_ids(sk, k, j as int),
        decreases n - j,
    {
        let ghost before = nodes@;
        let mut target: Option<usize> = None;
        if let Some(pid) = nodes[j].parent_id {
            target = find_index(nodes, pid);
        }
        proof {
            assert(opt_eq(target, parent_of(sk, j as int)));
        }
        if let Some(k) = target {
            proof {
                lemma_parent_in_range(sk, j as int);
            }
            let cid = nodes[j].id;
            nodes[k].children.push(cid);
            proof {
                assert(skeleton(nodes@) =~= sk);
            }
        }
        proof {
            assert forall|k: int| 0 <= k < n implies (#[trigger] nodes@[k].children)@ == kid_ids(
                sk,
                k,
                j + 1,
            ) by {
                assert(kid_ids(sk, k, j + 1) == kid_ids(sk, k, j as int) + if parent_of(sk, j as int)
                    == Some(k) {
                    seq![sk[j as int].0]
                } else {
                    Seq::<u128>::empty()
                });
                assert(Seq::<u128>::empty() + seq![sk[j as int].0] =~= seq![sk[j as int].0]);
                if parent_of(sk, j as int) != Some(k) {
                    assert(kid_ids(sk, k, j as int) + Seq::<u128>::empty() =~= kid_ids(sk, k, j as int));
                }
            }
        }
        j = j + 1;
    }
}

spec fn opt_eq(a: Option<usize>, b: Option<int>) -> bool {
    match a {
        Some(x) => b == Some(x as int),
        None => b is None,
    }
}

/// Builds the node set of a snapshot: one node per device and per wired or
/// wireless client (the last record wins for a repeated id), sorted by id, with
/// each parent resolved from the uplinks and children derived; every node at the origin.
pub fn build_nodes(
    devices: &Vec<DeviceSummary>,
    clients: &Vec<ClientSummary>,
    uplinks: &Vec<(u128, u128)>,
) -> (r: Vec<NetworkNode>)
    ensures
        represents(r@, latest(snapshot_records(devices@, clients@, uplinks@))),
        children_ok(r@),
        forall|i: int| 0 <= i < r.len() ==> (#[trigger] r@[i]).x == 0 && r@[i].y == 0,
{
    let ghost drecs = devices@.map_values(|d: DeviceSummary| device_record(d, uplinks@));
    let mut nodes: Vec<NetworkNode> = Vec::new();
    let mut i: usize = 0;
    proof {
        assert(drecs.take(0) =~= Seq::<NodeRecord>::empty());
        assert(latest(Seq::<NodeRecord>::empty()) =~= Map::<u128, NodeRecord>::empty());
    }
    while i < devices.len()
        invariant
            i <= devices.len(),
            drecs == devices@.map_values(|d: DeviceSummary| device_record(d, uplinks@)),
            represents(nodes@, latest(drecs.take(i as int))),
            forall|k: int| 0 <= k < nodes.len() ==> fresh(#[trigger] nodes@[k]),
        decreases devices.len() - i,
    {
        let d = &devices[i];
        let node = NetworkNode {
            id: d.id,
            name: d.name.clone(),
            node_type: NodeType::Device { device_type: classify_device(d), state: d.state },
            x: 0,
            y: 0,
            parent_id: lookup_uplink(uplinks, d.id),
            children: Vec::new(),
        };
        proof {
            lemma_latest_step(drecs, i as int);
            assert(record_of(node) == drecs[i as int]);
        }
        upsert(&mut nodes, node, Ghost(latest(drecs.take(i as int))));
        i = i + 1;
    }
    proof {
        assert(drecs.take(devices.len() as int) =~= drecs);
        assert(clients@.take(0) =~= Seq::<ClientSummary>::empty());
    }
    let mut j: usize = 0;
    while j < clients.len()
        invariant
            j <= clients.len(),
            represents(
                nodes@,
                latest(snapshot_records(devices@, clients@.take(j as int), uplinks@)),
            ),
            forall|k: int| 0 <= k < nodes.len() ==> fresh(#[trigger] nodes@[k]),
        decreases clients.len() - j,
    {
        let c = &clients[j];
        let ghost prev = snapshot_records(devices@, clients@.take(j as int), uplinks@);
        proof {
            assert(clients@.take(j + 1).drop_last() =~= clients@.take(j as int));
            assert(clients@.take(j + 1).last() == clients@[j as int]);
        }
        let (kind, uplink) = match c.link {
            ClientLink::Wireless { uplink_device_id } => (Some(ClientType::Wireless), uplink_device_id),
            ClientLink::Wired { uplink_device_id } => (Some(ClientType::Wired), uplink_device_id),
            ClientLink::Other => (None, 0),
        };
        if let Some(client_type) = kind {
            let name = match &c.name {
                Some(nm) => nm.clone(),
                None => String::new(),
            };
            let node = NetworkNode {
                id: c.id,
                name,
                node_type: NodeType::Client { client_type },
                x: 0,
                y: 0,
                parent_id: Some(uplink),
                children: Vec::new(),
            };
            proof {
                let rs = prev.push(record_of(node));
                assert(client_record(clients@[j as int]) == Some(record_of(node)));
                assert(prev + seq![record_of(node)] =~= rs);
                assert(rs.drop_last() =~= prev);
            }
            upsert(&mut nodes, node, Ghost(latest(prev)));
        } else {
            proof {
                assert(prev + Seq::<NodeRecord>::empty() =~= prev);
            }
        }
        j = j + 1;
    }
    proof {
        assert(clients@.take(clients.len() as int) =~= clients@);
    }
    let ghost m = latest(snapshot_records(devices@, clients@, uplinks@));
    let ghost before = nodes@;
    link_children(&mut nodes);
    proof {
        let t = nodes@;
        assert forall|k: int| 0 <= k < t.len() implies m.contains_key(#[trigger] t[k].id)
            && node_matches(t[k], m[t[k].id]) by {
            assert(t[k].id == before[k].id);
        }
        assert forall|id: u128| #[trigger] m.contains_key(id) implies exists|k: int|
            0 <= k < t.len() && t[k].id == id by {
            let k = choose|k: int| 0 <= k < before.len() && before[k].id == id;
            assert(t[k].id == id);
        }
        assert forall|k: int| 0 <= k < t.len() implies (#[trigger] t[k]).x == 0 && t[k].y == 0 by {
            assert(fresh(before[k]));
        }
    }
    nodes
}

} // verus!
