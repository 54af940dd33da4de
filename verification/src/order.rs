//! Whether an inventory is accepted does not depend on the order in which
//! its subnets, devices and ports are listed; only which rule is reported
//! first may change.

use crate::ipv4::networks_overlap;
use crate::laws::lemma_all_passed;
use crate::model::{DeviceView, SnapshotView};
use crate::removal::{lemma_devices_pass, lemma_ports_pass, lemma_subnets_pass};
use crate::validation::{
    cidr_value, device_error, device_index, ip_value, is_valid, parent_walk, port_binding,
    port_error, subnet_error, subnet_index,
};
use vstd::prelude::*;
use vstd::set_lib::{lemma_int_range, lemma_subset_equality, set_int_range};

verus! {

/// `w` holds the items of `v` in another order: item `k` of `w` is item
/// `f[k]` of `v`, and no item of `v` is taken twice.
pub open spec fn reorders<A>(v: Seq<A>, w: Seq<A>, f: Seq<int>) -> bool {
    &&& v.len() == w.len()
    &&& f.len() == w.len()
    &&& forall|k: int| 0 <= k < f.len() ==> 0 <= #[trigger] f[k] < v.len() && w[k] == v[f[k]]
    &&& f.no_duplicates()
}

/// Some item of the reordered list is item `a` of the first.
pub open spec fn takes(f: Seq<int>, a: int) -> bool {
    exists|k: int| 0 <= k < f.len() && #[trigger] f[k] == a
}

/// A reordering takes every item.
proof fn lemma_reorder_onto<A>(v: Seq<A>, w: Seq<A>, f: Seq<int>)
    requires
        reorders(v, w, f),
    ensures
        forall|a: int| 0 <= a < v.len() ==> #[trigger] takes(f, a),
{
    let n = v.len() as int;
    f.unique_seq_to_set();
    lemma_int_range(0, n);
    vstd::seq_lib::seq_to_set_is_finite(f);
    assert(f.to_set().subset_of(set_int_range(0, n))) by {
        assert forall|x: int| f.to_set().contains(x) implies set_int_range(0, n).contains(x) by {
            assert(f.contains(x));
            let k = choose|k: int| 0 <= k < f.len() && f[k] == x;
        }
    }
    lemma_subset_equality(f.to_set(), set_int_range(0, n));
    assert forall|a: int| 0 <= a < n implies #[trigger] takes(f, a) by {
        assert(set_int_range(0, n).contains(a));
        assert(f.to_set().contains(a));
        assert(f.contains(a));
    }
}

/// Undoing a reordering is a reordering.
proof fn lemma_reorder_back<A>(v: Seq<A>, w: Seq<A>, f: Seq<int>) -> (g: Seq<int>)
    requires
        reorders(v, w, f),
    ensures
        reorders(w, v, g),
{
    lemma_reorder_onto(v, w, f);
    let g = Seq::new(v.len(), |a: int| choose|k: int| 0 <= k < f.len() && f[k] == a);
    assert forall|a: int| 0 <= a < g.len() implies 0 <= #[trigger] g[a] < w.len() && v[a] == w[g[a]] && f[g[a]] == a by {
        assert(takes(f, a));
    }
    assert forall|a: int, b: int| 0 <= a < g.len() && 0 <= b < g.len() && a != b implies g[a] != g[b] by {
        assert(f[g[a]] == a && f[g[b]] == b);
    }
    g
}

/// The items mapped to a field keep the reordering.
proof fn lemma_reorder_ids<A>(v: Seq<A>, w: Seq<A>, f: Seq<int>, id: spec_fn(A) -> Seq<char>)
    requires
        reorders(v, w, f),
    ensures
        reorders(v.map_values(id), w.map_values(id), f),
{
}

/// Looking an id up in a reordered list of distinct ids finds the same item.
proof fn lemma_reordered_first(vi: Seq<Seq<char>>, wi: Seq<Seq<char>>, f: Seq<int>, x: Seq<char>) -> (b: int)
    requires
        vi.no_duplicates(),
        reorders(vi, wi, f),
        vi.index_of_first(x) is Some,
    ensures
        wi.index_of_first(x) == Some(b),
        0 <= b < f.len(),
        f[b] == vi.index_of_first(x)->0,
{
    lemma_reorder_onto(vi, wi, f);
    vi.index_of_first_ensures(x);
    wi.index_of_first_ensures(x);
    let a = vi.index_of_first(x)->0;
    assert(takes(f, a));
    let b = choose|k: int| 0 <= k < f.len() && #[trigger] f[k] == a;
    assert(wi[b] == x);
    let c = wi.index_of_first(x)->0;
    if c != b {
        assert(wi[c] == vi[f[c]]);
        assert(f[c] != f[b]);
        assert(false);
    }
    b
}

/// The ids of the devices are distinct.
pub open spec fn distinct_device_ids(v: Seq<DeviceView>) -> bool {
    v.map_values(|d: DeviceView| d.id).no_duplicates()
}

/// The walk from a device of a reordered list finds what the walk from the
/// same device of the first list finds, when that is nothing.
proof fn lemma_reordered_walk(v: Seq<DeviceView>, w: Seq<DeviceView>, f: Seq<int>, cur: int, seen: Seq<Seq<char>>, fuel: nat)
    requires
        distinct_device_ids(v),
        reorders(v, w, f),
        0 <= cur < w.len(),
        parent_walk(v, f[cur], seen, fuel) is None,
    ensures
        parent_walk(w, cur, seen, fuel) is None,
    decreases fuel,
{
    let d = v[f[cur]];
    assert(w[cur] == d);
    if fuel > 0 && !seen.contains(d.id) && d.parent.len() > 0 {
        let vi = v.map_values(|x: DeviceView| x.id);
        let wi = w.map_values(|x: DeviceView| x.id);
        lemma_reorder_ids(v, w, f, |x: DeviceView| x.id);
        let b = lemma_reordered_first(vi, wi, f, d.parent);
        lemma_reordered_walk(v, w, f, b, seen.push(d.id), (fuel - 1) as nat);
    }
}

/// An accepted inventory listed in another order is accepted.
proof fn lemma_reordered_valid(v: SnapshotView, w: SnapshotView, fs: Seq<int>, fd: Seq<int>, fp: Seq<int>)
    requires
        is_valid(v),
        w.schema_version == v.schema_version,
        reorders(v.subnets, w.subnets, fs),
        reorders(v.devices, w.devices, fd),
        reorders(v.ports, w.ports, fp),
    ensures
        is_valid(w),
{
    lemma_all_passed(v);
    // Subnets.
    assert forall|i: int| 0 <= i < w.subnets.len() implies #[trigger] subnet_error(w, i) is None by {
        let a = fs[i];
        assert(subnet_error(v, a) is None);
        let n = w.subnets[i];
        assert(n == v.subnets[a]);
        if exists|k: int| 0 <= k < i && #[trigger] w.subnets[k].id == n.id {
            let k = choose|k: int| 0 <= k < i && #[trigger] w.subnets[k].id == n.id;
            let x = fs[k];
            assert(x != a);
            assert(w.subnets[k] == v.subnets[x]);
            if x > a {
                assert(subnet_error(v, x) is None);
            }
            assert(false);
        }
        let net = cidr_value(n.cidr)->0;
        if exists|k: int| 0 <= k < i && networks_overlap(cidr_value(#[trigger] w.subnets[k].cidr)->0, net) {
            let k = choose|k: int| 0 <= k < i && networks_overlap(cidr_value(#[trigger] w.subnets[k].cidr)->0, net);
            let x = fs[k];
            assert(x != a);
            assert(w.subnets[k] == v.subnets[x]);
            if x > a {
                assert(subnet_error(v, x) is None);
                assert(networks_overlap(cidr_value(v.subnets[a].cidr)->0, cidr_value(v.subnets[x].cidr)->0));
            }
            assert(false);
        }
    }
    lemma_subnets_pass(w, w.subnets.len());
    // Ids of subnets and devices are distinct.
    let vs = v.subnets.map_values(|x: crate::model::SubnetView| x.id);
    assert(vs.no_duplicates()) by {
        assert forall|a: int, b: int| 0 <= a < vs.len() && 0 <= b < vs.len() && a != b implies vs[a] != vs[b] by {
            if a < b {
                assert(subnet_error(v, b) is None);
            } else {
                assert(subnet_error(v, a) is None);
            }
        }
    }
    assert(distinct_device_ids(v.devices)) by {
        let vd = v.devices.map_values(|x: DeviceView| x.id);
        assert forall|a: int, b: int| 0 <= a < vd.len() && 0 <= b < vd.len() && a != b implies vd[a] != vd[b] by {
            if a < b {
                assert(device_error(v, b) is None);
            } else {
                assert(device_error(v, a) is None);
            }
        }
    }
    lemma_reorder_ids(v.subnets, w.subnets, fs, |x: crate::model::SubnetView| x.id);
    // Devices.
    assert forall|j: int| 0 <= j < w.devices.len() implies #[trigger] device_error(w, j) is None by {
        let a = fd[j];
        assert(device_error(v, a) is None);
        let d = w.devices[j];
        assert(d == v.devices[a]);
        if exists|k: int| 0 <= k < j && #[trigger] w.devices[k].id == d.id {
            let k = choose|k: int| 0 <= k < j && #[trigger] w.devices[k].id == d.id;
            let x = fd[k];
            assert(x != a);
            assert(w.devices[k] == v.devices[x]);
            if x > a {
                assert(device_error(v, x) is None);
            }
            assert(false);
        }
        if d.ip.len() > 0 && exists|k: int|
            0 <= k < j && (#[trigger] w.devices[k].ip).len() > 0 && ip_value(w.devices[k].ip) == ip_value(d.ip) {
            let k = choose|k: int|
                0 <= k < j && (#[trigger] w.devices[k].ip).len() > 0 && ip_value(w.devices[k].ip) == ip_value(d.ip);
            let x = fd[k];
            assert(x != a);
            assert(w.devices[k] == v.devices[x]);
            if x > a {
                assert(device_error(v, x) is None);
            }
            assert(false);
        }
        if d.subnet_id.len() > 0 {
            let b = lemma_reordered_first(vs, w.subnets.map_values(|x: crate::model::SubnetView| x.id), fs, d.subnet_id);
            assert(subnet_index(w.subnets, d.subnet_id) == Some(b));
            assert(w.subnets[b] == v.subnets[subnet_index(v.subnets, d.subnet_id)->0]);
        }
        lemma_reordered_walk(v.devices, w.devices, fd, j, Seq::empty(), v.devices.len() + 1);
    }
    lemma_devices_pass(w, w.devices.len());
    // Ports.
    assert forall|i: int| 0 <= i < w.ports.len() implies #[trigger] port_error(w, i) is None by {
        let a = fp[i];
        assert(port_error(v, a) is None);
        let p = w.ports[i];
        assert(p == v.ports[a]);
        if exists|k: int| 0 <= k < i && #[trigger] w.ports[k].id == p.id {
            let k = choose|k: int| 0 <= k < i && #[trigger] w.ports[k].id == p.id;
            let x = fp[k];
            assert(x != a);
            assert(w.ports[k] == v.ports[x]);
            if x > a {
                assert(port_error(v, x) is None);
            }
            assert(false);
        }
        if exists|k: int| 0 <= k < i && port_binding(#[trigger] w.ports[k]) == port_binding(p) {
            let k = choose|k: int| 0 <= k < i && port_binding(#[trigger] w.ports[k]) == port_binding(p);
            let x = fp[k];
            assert(x != a);
            assert(w.ports[k] == v.ports[x]);
            if x > a {
                assert(port_error(v, x) is None);
            }
            assert(false);
        }
    }
    lemma_ports_pass(w, w.ports.len());
}

/// Whether an inventory is accepted does not depend on the order of its
/// subnets, devices and ports: listing the same records in any other order
/// is accepted exactly when the first listing is.
pub proof fn law_acceptance_ignores_order(v: SnapshotView, w: SnapshotView, fs: Seq<int>, fd: Seq<int>, fp: Seq<int>)
    requires
        w.schema_version == v.schema_version,
        reorders(v.subnets, w.subnets, fs),
        reorders(v.devices, w.devices, fd),
        reorders(v.ports, w.ports, fp),
    ensures
        is_valid(w) == is_valid(v),
{
    if is_valid(v) {
        lemma_reordered_valid(v, w, fs, fd, fp);
    }
    if is_valid(w) {
        let gs = lemma_reorder_back(v.subnets, w.subnets, fs);
        let gd = lemma_reorder_back(v.devices, w.devices, fd);
        let gp = lemma_reorder_back(v.ports, w.ports, fp);
        lemma_reordered_valid(w, v, gs, gd, gp);
    }
}

} // verus!
