//! What deletions keep: removing a record from an accepted inventory never
//! breaks a rule, so a deletion is refused only for a subnet still in use.

use crate::inventory::{
    detached, drop_device, drop_port, drop_subnet, subnet_in_use, with_devices, with_ports,
    with_subnets,
};
use crate::ipv4::networks_overlap;
use crate::laws::lemma_all_passed;
use crate::model::{DeviceView, PortView, SnapshotView, SubnetView};
use crate::validation::{
    device_error, first_device_error, first_port_error, first_subnet_error, is_valid,
    cidr_value, device_index, ip_value, lemma_first_port_error_none, parent_walk, port_binding, port_error, subnet_error, subnet_index,
};
use vstd::prelude::*;

verus! {

/// Where the items kept by a filter stood: `f[i]` is the position in `s` of
/// item `i` of `s.filter(p)`; the positions increase, and every item that
/// passes `p` has one.
pub proof fn lemma_filter_positions<A>(s: Seq<A>, p: spec_fn(A) -> bool) -> (f: Seq<int>)
    ensures
        f.len() == s.filter(p).len(),
        forall|i: int| 0 <= i < f.len() ==> 0 <= #[trigger] f[i] < s.len() && s.filter(p)[i] == s[f[i]],
        forall|i: int, j: int| 0 <= i < j < f.len() ==> #[trigger] f[i] < #[trigger] f[j],
        forall|a: int| 0 <= a < s.len() && p(#[trigger] s[a]) ==> exists|i: int| 0 <= i < f.len() && f[i] == a,
    decreases s.len(),
{
    reveal_with_fuel(Seq::filter, 1);
    if s.len() == 0 {
        Seq::empty()
    } else {
        let init = s.drop_last();
        let g = lemma_filter_positions(init, p);
        assert forall|a: int| 0 <= a < init.len() && p(#[trigger] init[a]) implies exists|i: int| 0 <= i < g.len() && g[i] == a by {
            assert(init[a] == s[a]);
        }
        if p(s.last()) {
            let f = g.push(s.len() - 1);
            assert forall|a: int| 0 <= a < s.len() && p(#[trigger] s[a]) implies exists|i: int| 0 <= i < f.len() && f[i] == a by {
                if a == s.len() - 1 {
                    assert(f[g.len() as int] == a);
                } else {
                    assert(init[a] == s[a]);
                    let i = choose|i: int| 0 <= i < g.len() && g[i] == a;
                    assert(f[i] == a);
                }
            }
            f
        } else {
            assert forall|a: int| 0 <= a < s.len() && p(#[trigger] s[a]) implies exists|i: int| 0 <= i < g.len() && g[i] == a by {
                assert(init[a] == s[a]);
            }
            g
        }
    }
}

/// The subnet rules read only the subnets.
proof fn lemma_same_subnet_errors(v: SnapshotView, w: SnapshotView, n: nat)
    requires
        v.subnets == w.subnets,
    ensures
        first_subnet_error(v, n) == first_subnet_error(w, n),
    decreases n,
{
    if n > 0 {
        lemma_same_subnet_errors(v, w, (n - 1) as nat);
        assert(subnet_error(v, n - 1) == subnet_error(w, n - 1));
    }
}

/// The device rules read only the subnets and the devices.
proof fn lemma_same_device_errors(v: SnapshotView, w: SnapshotView, n: nat)
    requires
        v.subnets == w.subnets,
        v.devices == w.devices,
    ensures
        first_device_error(v, n) == first_device_error(w, n),
    decreases n,
{
    if n > 0 {
        lemma_same_device_errors(v, w, (n - 1) as nat);
        assert(device_error(v, n - 1) == device_error(w, n - 1));
    }
}

/// When each of ports `0..n` passes its rules, no port rule is broken.
pub proof fn lemma_ports_pass(v: SnapshotView, n: nat)
    requires
        forall|k: int| 0 <= k < n ==> #[trigger] port_error(v, k) is None,
    ensures
        first_port_error(v, n) is None,
    decreases n,
{
    if n > 0 {
        lemma_ports_pass(v, (n - 1) as nat);
    }
}

/// A port kept from an accepted list, in the same order with others kept
/// before it, still passes its rules.
proof fn lemma_kept_port_passes(v: SnapshotView, w: SnapshotView, f: Seq<int>, i: int)
    requires
        f.len() == w.ports.len(),
        0 <= i < w.ports.len(),
        forall|k: int| 0 <= k < f.len() ==> 0 <= #[trigger] f[k] < v.ports.len() && w.ports[k] == v.ports[f[k]],
        forall|k: int, j: int| 0 <= k < j < f.len() ==> #[trigger] f[k] < #[trigger] f[j],
        port_error(v, f[i]) is None,
    ensures
        port_error(w, i) is None,
{
    let a = f[i];
    let p = w.ports[i];
    assert(p == v.ports[a]);
    if exists|k: int| 0 <= k < i && #[trigger] w.ports[k].id == p.id {
        let k = choose|k: int| 0 <= k < i && #[trigger] w.ports[k].id == p.id;
        assert(f[k] < f[i]);
        assert(v.ports[f[k]].id == v.ports[a].id);
        assert(false);
    }
    if exists|k: int| 0 <= k < i && port_binding(#[trigger] w.ports[k]) == port_binding(p) {
        let k = choose|k: int| 0 <= k < i && port_binding(#[trigger] w.ports[k]) == port_binding(p);
        assert(f[k] < f[i]);
        assert(port_binding(v.ports[f[k]]) == port_binding(v.ports[a]));
        assert(false);
    }
}

/// Deleting a port from an accepted inventory leaves an accepted inventory.
pub proof fn law_removing_port_keeps_valid(v: SnapshotView, id: Seq<char>)
    requires
        is_valid(v),
    ensures
        is_valid(with_ports(v, drop_port(v.ports, id))),
{
    let pred = |x: PortView| x.id != id;
    let w = with_ports(v, drop_port(v.ports, id));
    let f = lemma_filter_positions(v.ports, pred);
    v.ports.lemma_filter_len(pred);
    assert forall|i: int| 0 <= i < w.ports.len() implies #[trigger] port_error(w, i) is None by {
        lemma_first_port_error_none(v, v.ports.len(), f[i]);
        lemma_kept_port_passes(v, w, f, i);
    }
    lemma_ports_pass(w, w.ports.len());
    lemma_same_subnet_errors(v, w, v.subnets.len());
    lemma_same_device_errors(v, w, v.devices.len());
}

/// The port rules read only the ports.
proof fn lemma_same_port_errors(v: SnapshotView, w: SnapshotView, n: nat)
    requires
        v.ports == w.ports,
    ensures
        first_port_error(v, n) == first_port_error(w, n),
    decreases n,
{
    if n > 0 {
        lemma_same_port_errors(v, w, (n - 1) as nat);
        assert(port_error(v, n - 1) == port_error(w, n - 1));
    }
}

/// When each of subnets `0..n` passes its rules, no subnet rule is broken.
pub proof fn lemma_subnets_pass(v: SnapshotView, n: nat)
    requires
        forall|k: int| 0 <= k < n ==> #[trigger] subnet_error(v, k) is None,
    ensures
        first_subnet_error(v, n) is None,
    decreases n,
{
    if n > 0 {
        lemma_subnets_pass(v, (n - 1) as nat);
    }
}

/// When each of devices `0..n` passes its rules, no device rule is broken.
pub proof fn lemma_devices_pass(v: SnapshotView, n: nat)
    requires
        forall|k: int| 0 <= k < n ==> #[trigger] device_error(v, k) is None,
    ensures
        first_device_error(v, n) is None,
    decreases n,
{
    if n > 0 {
        lemma_devices_pass(v, (n - 1) as nat);
    }
}

/// A subnet kept from an accepted list, in the same order with others kept
/// before it, still passes its rules.
proof fn lemma_kept_subnet_passes(v: SnapshotView, w: SnapshotView, f: Seq<int>, i: int)
    requires
        f.len() == w.subnets.len(),
        0 <= i < w.subnets.len(),
        forall|k: int| 0 <= k < f.len() ==> 0 <= #[trigger] f[k] < v.subnets.len() && w.subnets[k] == v.subnets[f[k]],
        forall|k: int, j: int| 0 <= k < j < f.len() ==> #[trigger] f[k] < #[trigger] f[j],
        subnet_error(v, f[i]) is None,
    ensures
        subnet_error(w, i) is None,
{
    let a = f[i];
    let n = w.subnets[i];
    assert(n == v.subnets[a]);
    if exists|k: int| 0 <= k < i && #[trigger] w.subnets[k].id == n.id {
        let k = choose|k: int| 0 <= k < i && #[trigger] w.subnets[k].id == n.id;
        assert(f[k] < f[i]);
        assert(v.subnets[f[k]].id == v.subnets[a].id);
        assert(false);
    }
    let net = cidr_value(n.cidr)->0;
    if exists|k: int| 0 <= k < i && networks_overlap(cidr_value(#[trigger] w.subnets[k].cidr)->0, net) {
        let k = choose|k: int| 0 <= k < i && networks_overlap(cidr_value(#[trigger] w.subnets[k].cidr)->0, net);
        assert(f[k] < f[i]);
        assert(networks_overlap(cidr_value(v.subnets[f[k]].cidr)->0, net));
        assert(false);
    }
}

/// Looking a kept subnet up by id finds the same subnet after the others with
/// another id were dropped, when ids were distinct.
proof fn lemma_kept_subnet_found(v: SnapshotView, w: SnapshotView, f: Seq<int>, id: Seq<char>, sid: Seq<char>)
    requires
        forall|a: int, b: int| 0 <= a < b < v.subnets.len() ==> v.subnets[a].id != v.subnets[b].id,
        f.len() == w.subnets.len(),
        forall|k: int| 0 <= k < f.len() ==> 0 <= #[trigger] f[k] < v.subnets.len() && w.subnets[k] == v.subnets[f[k]],
        forall|k: int, j: int| 0 <= k < j < f.len() ==> #[trigger] f[k] < #[trigger] f[j],
        forall|a: int| 0 <= a < v.subnets.len() && (|x: SubnetView| x.id != id)(#[trigger] v.subnets[a]) ==> exists|i: int| 0 <= i < f.len() && f[i] == a,
        sid != id,
        subnet_index(v.subnets, sid) is Some,
    ensures
        subnet_index(w.subnets, sid) is Some,
        w.subnets[subnet_index(w.subnets, sid)->0] == v.subnets[subnet_index(v.subnets, sid)->0],
{
    let vid = v.subnets.map_values(|x: SubnetView| x.id);
    let wid = w.subnets.map_values(|x: SubnetView| x.id);
    vid.index_of_first_ensures(sid);
    wid.index_of_first_ensures(sid);
    let a = subnet_index(v.subnets, sid)->0;
    assert(v.subnets[a].id == sid);
    assert((|x: SubnetView| x.id != id)(v.subnets[a]));
    let b = choose|i: int| 0 <= i < f.len() && f[i] == a;
    assert(wid[b] == sid);
    let c = subnet_index(w.subnets, sid)->0;
    if c != b {
        assert(c < b);
        assert(w.subnets[c].id == sid);
        assert(f[c] < f[b]);
        assert(v.subnets[f[c]].id == v.subnets[a].id);
        assert(false);
    }
}

/// Deleting a subnet no device is assigned to, from an accepted inventory,
/// leaves an accepted inventory.
pub proof fn law_removing_unused_subnet_keeps_valid(v: SnapshotView, id: Seq<char>)
    requires
        is_valid(v),
        !subnet_in_use(v.devices, id),
    ensures
        is_valid(with_subnets(v, drop_subnet(v.subnets, id))),
{
    let pred = |x: SubnetView| x.id != id;
    let w = with_subnets(v, drop_subnet(v.subnets, id));
    let f = lemma_filter_positions(v.subnets, pred);
    v.subnets.lemma_filter_len(pred);
    lemma_all_passed(v);
    assert forall|i: int| 0 <= i < w.subnets.len() implies #[trigger] subnet_error(w, i) is None by {
        lemma_kept_subnet_passes(v, w, f, i);
    }
    lemma_subnets_pass(w, w.subnets.len());
    assert forall|a: int, b: int| 0 <= a < b < v.subnets.len() implies v.subnets[a].id != v.subnets[b].id by {
        assert(subnet_error(v, b) is None);
    }
    assert forall|j: int| 0 <= j < w.devices.len() implies #[trigger] device_error(w, j) is None by {
        assert(device_error(v, j) is None);
        let d = v.devices[j];
        if d.subnet_id.len() > 0 {
            assert(d.subnet_id != id);
            lemma_kept_subnet_found(v, w, f, id, d.subnet_id);
        }
    }
    lemma_devices_pass(w, w.devices.len());
    lemma_same_port_errors(v, w, v.ports.len());
}

/// A walk along parent links that finds nothing finds nothing with less fuel.
proof fn lemma_walk_less_fuel(devices: Seq<DeviceView>, cur: int, seen: Seq<Seq<char>>, fuel: nat, less: nat)
    requires
        parent_walk(devices, cur, seen, fuel) is None,
        less <= fuel,
    ensures
        parent_walk(devices, cur, seen, less) is None,
    decreases less,
{
    if less > 0 && !seen.contains(devices[cur].id) && devices[cur].parent.len() > 0 {
        match device_index(devices, devices[cur].parent) {
            None => {},
            Some(k) => {
                lemma_walk_less_fuel(devices, k, seen.push(devices[cur].id), (fuel - 1) as nat, (less - 1) as nat);
            },
        }
    }
}

/// The devices `w` are those of `v` that pass `x.id != id`, in order, detached
/// from `id`; `f` gives their positions in `v`.
pub open spec fn kept_devices(v: Seq<DeviceView>, w: Seq<DeviceView>, f: Seq<int>, id: Seq<char>) -> bool {
    &&& f.len() == w.len()
    &&& forall|k: int| 0 <= k < f.len() ==> 0 <= #[trigger] f[k] < v.len() && w[k] == detached(v[f[k]], id)
    &&& forall|k: int, j: int| 0 <= k < j < f.len() ==> #[trigger] f[k] < #[trigger] f[j]
    &&& forall|a: int| 0 <= a < v.len() && (#[trigger] v[a]).id != id ==> exists|i: int| 0 <= i < f.len() && f[i] == a
}

/// Looking a kept device up by id finds the device kept from the one found before.
proof fn lemma_kept_device_found(v: Seq<DeviceView>, w: Seq<DeviceView>, f: Seq<int>, id: Seq<char>, pid: Seq<char>) -> (b: int)
    requires
        forall|a: int, c: int| 0 <= a < c < v.len() ==> v[a].id != v[c].id,
        kept_devices(v, w, f, id),
        pid != id,
        device_index(v, pid) is Some,
    ensures
        device_index(w, pid) == Some(b),
        0 <= b < f.len(),
        f[b] == device_index(v, pid)->0,
{
    let vid = v.map_values(|x: DeviceView| x.id);
    let wid = w.map_values(|x: DeviceView| x.id);
    vid.index_of_first_ensures(pid);
    wid.index_of_first_ensures(pid);
    let a = device_index(v, pid)->0;
    assert(v[a].id == pid);
    let b = choose|i: int| 0 <= i < f.len() && f[i] == a;
    assert(w[b] == detached(v[a], id));
    assert(wid[b] == pid);
    let c = device_index(w, pid)->0;
    if c != b {
        assert(c < b);
        assert(w[c].id == pid);
        assert(w[c] == detached(v[f[c]], id));
        assert(f[c] < f[b]);
        assert(v[f[c]].id == v[a].id);
        assert(false);
    }
    b
}

/// The walk from a kept device finds nothing when the walk from the device it
/// was kept from found nothing: its links lead to kept devices or end where
/// they were detached.
proof fn lemma_kept_walk(v: Seq<DeviceView>, w: Seq<DeviceView>, f: Seq<int>, id: Seq<char>, cur: int, seen: Seq<Seq<char>>, fuel: nat)
    requires
        forall|a: int, c: int| 0 <= a < c < v.len() ==> v[a].id != v[c].id,
        kept_devices(v, w, f, id),
        0 <= cur < w.len(),
        parent_walk(v, f[cur], seen, fuel) is None,
    ensures
        parent_walk(w, cur, seen, fuel) is None,
    decreases fuel,
{
    let d = v[f[cur]];
    assert(w[cur] == detached(d, id));
    if fuel > 0 && !seen.contains(d.id) && w[cur].parent.len() > 0 {
        assert(d.parent == w[cur].parent && d.parent != id);
        let b = lemma_kept_device_found(v, w, f, id, d.parent);
        lemma_kept_walk(v, w, f, id, b, seen.push(d.id), (fuel - 1) as nat);
    }
}

/// Deleting a device from an accepted inventory, and detaching the devices
/// connected to it, leaves an accepted inventory.
pub proof fn law_removing_device_keeps_valid(v: SnapshotView, id: Seq<char>)
    requires
        is_valid(v),
    ensures
        is_valid(with_devices(v, drop_device(v.devices, id))),
{
    let pred = |x: DeviceView| x.id != id;
    let w = with_devices(v, drop_device(v.devices, id));
    let q = v.devices.filter(pred);
    let f = lemma_filter_positions(v.devices, pred);
    v.devices.lemma_filter_len(pred);
    lemma_all_passed(v);
    assert forall|a: int, c: int| 0 <= a < c < v.devices.len() implies v.devices[a].id != v.devices[c].id by {
        assert(device_error(v, c) is None);
    }
    assert(kept_devices(v.devices, w.devices, f, id)) by {
        assert forall|a: int| 0 <= a < v.devices.len() && (#[trigger] v.devices[a]).id != id implies exists|i: int| 0 <= i < f.len() && f[i] == a by {
            assert(pred(v.devices[a]));
        }
    }
    assert forall|j: int| 0 <= j < w.devices.len() implies #[trigger] device_error(w, j) is None by {
        let a = f[j];
        let d = w.devices[j];
        assert(d == detached(v.devices[a], id));
        assert(device_error(v, a) is None);
        if exists|k: int| 0 <= k < j && #[trigger] w.devices[k].id == d.id {
            let k = choose|k: int| 0 <= k < j && #[trigger] w.devices[k].id == d.id;
            assert(w.devices[k] == detached(v.devices[f[k]], id));
            assert(f[k] < f[j]);
            assert(false);
        }
        if d.ip.len() > 0 && exists|k: int|
            0 <= k < j && (#[trigger] w.devices[k].ip).len() > 0 && ip_value(w.devices[k].ip) == ip_value(d.ip) {
            let k = choose|k: int|
                0 <= k < j && (#[trigger] w.devices[k].ip).len() > 0 && ip_value(w.devices[k].ip) == ip_value(d.ip);
            assert(w.devices[k] == detached(v.devices[f[k]], id));
            assert(f[k] < f[j]);
            assert(false);
        }
        lemma_walk_less_fuel(v.devices, a, Seq::empty(), v.devices.len() + 1, w.devices.len() + 1);
        lemma_kept_walk(v.devices, w.devices, f, id, j, Seq::empty(), w.devices.len() + 1);
    }
    lemma_devices_pass(w, w.devices.len());
    lemma_same_subnet_errors(v, w, v.subnets.len());
    lemma_same_port_errors(v, w, v.ports.len());
}

} // verus!
