//! What the answers of the operations must satisfy, stated over their inputs
//! and results: saved records are found as saved, a deletion changes only
//! the links to the deleted device, subnets share no address, the session
//! cookie is found in whichever part carries it, and only a true repeat of
//! host, port and protocol is refused.

use crate::inventory::{detached, drop_device, put_port, put_subnet};
use crate::ipv4::in_network;
use crate::laws::law_subnets_disjoint;
use crate::model::{DeviceView, PortView, SnapshotView, SubnetView};
use crate::removal::lemma_filter_positions;
use crate::session::{cookie_token, token_in_part, SESSION_COOKIE_PREFIX};
use crate::text::{is_white_space, to_ascii_lower, trim, trim_end, trim_start};
use crate::validation::{
    cidr_value, device_error, first_device_error, first_port_error, first_subnet_error, is_valid,
    parent_walk, port_error, port_index, subnet_error, subnet_index, validation_error,
    ValidationError,
};
use vstd::prelude::*;
use vstd::string::*;

verus! {

/// No IPv4 address lies in two subnets of an accepted inventory, whatever
/// their VLANs and prefix lengths.
pub proof fn law_subnets_share_no_address(v: SnapshotView, a: int, b: int, ip: nat)
    requires
        is_valid(v),
        0 <= a < b < v.subnets.len(),
    ensures
        !(in_network((cidr_value(v.subnets[a].cidr)->0).0, (cidr_value(v.subnets[a].cidr)->0).1, ip)
            && in_network((cidr_value(v.subnets[b].cidr)->0).0, (cidr_value(v.subnets[b].cidr)->0).1, ip)),
{
    law_subnets_disjoint(v, a, b);
}

/// After saving a port, looking up its id finds exactly the saved port, and
/// every port with another id stays where it was.
pub proof fn law_saved_port_found(s: Seq<PortView>, p: PortView)
    ensures
        port_index(put_port(s, p), p.id) is Some,
        put_port(s, p)[port_index(put_port(s, p), p.id)->0] == p,
        put_port(s, p).len() == s.len() || put_port(s, p).len() == s.len() + 1,
        forall|k: int| 0 <= k < s.len() && #[trigger] s[k].id != p.id ==> put_port(s, p)[k] == s[k],
{
    let ids = s.map_values(|x: PortView| x.id);
    ids.index_of_first_ensures(p.id);
    let t = put_port(s, p);
    let tids = t.map_values(|x: PortView| x.id);
    tids.index_of_first_ensures(p.id);
    match ids.index_of_first(p.id) {
        Some(i) => {
            assert(tids[i] == p.id);
            assert(tids.contains(p.id));
            let k = tids.index_of_first(p.id)->0;
            if k != i {
                assert(k < i);
                assert(tids[k] == ids[k]);
            }
        },
        None => {
            assert(tids[s.len() as int] == p.id);
            assert(tids.contains(p.id));
            let k = tids.index_of_first(p.id)->0;
            if k != s.len() {
                assert(tids[k] == ids[k]);
                assert(ids.contains(p.id));
            }
        },
    }
}

/// After saving a subnet, looking up its id finds exactly the saved subnet,
/// and every subnet with another id stays where it was.
pub proof fn law_saved_subnet_found(s: Seq<SubnetView>, n: SubnetView)
    ensures
        subnet_index(put_subnet(s, n), n.id) is Some,
        put_subnet(s, n)[subnet_index(put_subnet(s, n), n.id)->0] == n,
        put_subnet(s, n).len() == s.len() || put_subnet(s, n).len() == s.len() + 1,
        forall|k: int| 0 <= k < s.len() && #[trigger] s[k].id != n.id ==> put_subnet(s, n)[k] == s[k],
{
    let ids = s.map_values(|x: SubnetView| x.id);
    ids.index_of_first_ensures(n.id);
    let t = put_subnet(s, n);
    let tids = t.map_values(|x: SubnetView| x.id);
    tids.index_of_first_ensures(n.id);
    match ids.index_of_first(n.id) {
        Some(i) => {
            assert(tids[i] == n.id);
            assert(tids.contains(n.id));
            let k = tids.index_of_first(n.id)->0;
            if k != i {
                assert(k < i);
                assert(tids[k] == ids[k]);
            }
        },
        None => {
            assert(tids[s.len() as int] == n.id);
            assert(tids.contains(n.id));
            let k = tids.index_of_first(n.id)->0;
            if k != s.len() {
                assert(tids[k] == ids[k]);
                assert(ids.contains(n.id));
            }
        },
    }
}

/// `after` is `before` kept through the deletion of device `id`: every field
/// is the same, except that a link to `id` is cleared; other links stay.
pub open spec fn kept_through_deletion(after: DeviceView, before: DeviceView, id: Seq<char>) -> bool {
    &&& before.id != id
    &&& after.id == before.id
    &&& after.name == before.name
    &&& after.model == before.model
    &&& after.kind == before.kind
    &&& after.ip == before.ip
    &&& after.subnet_id == before.subnet_id
    &&& after.firmware == before.firmware
    &&& after.target == before.target
    &&& after.due == before.due
    &&& after.status == before.status
    &&& after.location == before.location
    &&& after.notes == before.notes
    &&& before.parent == id ==> after.parent.len() == 0
    &&& before.parent != id ==> after.parent == before.parent
}

/// Deleting device `id` keeps every other device, in order, each changed at
/// most by clearing its link to `id`: connections between the remaining
/// devices stay as they were. `f[i]` is where device `i` of the result stood
/// before the deletion.
pub proof fn law_deletion_keeps_other_links(s: Seq<DeviceView>, id: Seq<char>) -> (f: Seq<int>)
    ensures
        f.len() == drop_device(s, id).len(),
        forall|i: int| 0 <= i < f.len() ==> 0 <= #[trigger] f[i] < s.len() && kept_through_deletion(drop_device(s, id)[i], s[f[i]], id),
        forall|i: int, k: int| 0 <= i < k < f.len() ==> #[trigger] f[i] < #[trigger] f[k],
        forall|j: int| 0 <= j < s.len() && (#[trigger] s[j]).id != id ==> exists|i: int| 0 <= i < f.len() && f[i] == j,
{
    let pred = |x: DeviceView| x.id != id;
    let f = lemma_filter_positions(s, pred);
    let d = drop_device(s, id);
    s.lemma_filter_len(pred);
    assert forall|i: int| 0 <= i < f.len() implies 0 <= #[trigger] f[i] < s.len() && kept_through_deletion(d[i], s[f[i]], id) by {
        assert(s.filter(pred)[i] == s[f[i]]);
        assert(d[i] == detached(s[f[i]], id));
    }
    assert forall|j: int| 0 <= j < s.len() && (#[trigger] s[j]).id != id implies exists|i: int| 0 <= i < f.len() && f[i] == j by {
        assert(pred(s[j]));
    }
    f
}

/// The part `homelab_session=<t>` carries the token `t`, when `t` is not
/// empty and holds no `;` or white space.
proof fn lemma_token_part(t: Seq<char>)
    requires
        t.len() > 0,
        forall|i: int| 0 <= i < t.len() ==> #[trigger] t[i] != ';' && !is_white_space(t[i]),
    ensures
        token_in_part(SESSION_COOKIE_PREFIX@ + t) == Some(t),
        !(SESSION_COOKIE_PREFIX@ + t).contains(';'),
{
    reveal_strlit("homelab_session=");
    let s = SESSION_COOKIE_PREFIX@ + t;
    assert(s[0] == 'h');
    assert(!s.contains(';')) by {
        if s.contains(';') {
            let i = choose|i: int| 0 <= i < s.len() && s[i] == ';';
            if i >= 16 {
                assert(s[i] == t[i - 16]);
            }
        }
    }
    assert(trim_start(s) == s);
    assert(s.last() == t[t.len() - 1]);
    assert(trim_end(s) == s);
    assert(SESSION_COOKIE_PREFIX@.is_prefix_of(s)) by {
        assert(s.subrange(0, 16) =~= SESSION_COOKIE_PREFIX@);
    }
    assert(s.skip(16) =~= t);
}

/// A `Cookie` header whose first part is the session cookie yields its
/// token, whatever parts follow.
pub proof fn law_cookie_first_part(t: Seq<char>, rest: Seq<char>)
    requires
        t.len() > 0,
        forall|i: int| 0 <= i < t.len() ==> #[trigger] t[i] != ';' && !is_white_space(t[i]),
    ensures
        cookie_token(SESSION_COOKIE_PREFIX@ + t + seq![';'] + rest) == Some(t),
{
    lemma_token_part(t);
    let p = SESSION_COOKIE_PREFIX@ + t;
    let s = p + seq![';'] + rest;
    s.index_of_first_ensures(';');
    assert(s[p.len() as int] == ';');
    let k = s.index_of_first(';')->0;
    if k != p.len() {
        assert(k < p.len());
        assert(s[k] == p[k]);
        assert(p.contains(';'));
    }
    assert(s.take(p.len() as int) =~= p);
}

/// A part of a `Cookie` header that does not carry the session cookie is
/// passed over: the token is looked for in the parts after it.
pub proof fn law_cookie_skips_other_part(part: Seq<char>, rest: Seq<char>)
    requires
        !part.contains(';'),
        !SESSION_COOKIE_PREFIX@.is_prefix_of(trim(part)),
    ensures
        cookie_token(part + seq![';'] + rest) == cookie_token(rest),
{
    let s = part + seq![';'] + rest;
    s.index_of_first_ensures(';');
    assert(s[part.len() as int] == ';');
    let k = s.index_of_first(';')->0;
    if k != part.len() {
        assert(k < part.len());
        assert(s[k] == part[k]);
        assert(part.contains(';'));
    }
    assert(s.take(part.len() as int) =~= part);
    assert(s.skip(part.len() as int + 1) =~= rest);
}

/// The subnet rules never answer that a host, port and protocol repeat.
proof fn lemma_subnets_never_repeat_binding(v: SnapshotView, n: nat)
    ensures
        first_subnet_error(v, n) != Some(ValidationError::DuplicateBinding),
    decreases n,
{
    if n > 0 {
        lemma_subnets_never_repeat_binding(v, (n - 1) as nat);
    }
}

/// The walk along parent links finds only loops and missing parents.
proof fn lemma_walk_never_repeats_binding(devices: Seq<DeviceView>, cur: int, seen: Seq<Seq<char>>, fuel: nat)
    ensures
        parent_walk(devices, cur, seen, fuel) != Some(ValidationError::DuplicateBinding),
    decreases fuel,
{
    if fuel > 0 && !seen.contains(devices[cur].id) && devices[cur].parent.len() > 0 {
        match crate::validation::device_index(devices, devices[cur].parent) {
            None => {},
            Some(k) => {
                lemma_walk_never_repeats_binding(devices, k, seen.push(devices[cur].id), (fuel - 1) as nat);
            },
        }
    }
}

/// The device rules never answer that a host, port and protocol repeat.
proof fn lemma_devices_never_repeat_binding(v: SnapshotView, n: nat)
    ensures
        first_device_error(v, n) != Some(ValidationError::DuplicateBinding),
    decreases n,
{
    if n > 0 {
        lemma_devices_never_repeat_binding(v, (n - 1) as nat);
        lemma_walk_never_repeats_binding(v.devices, n - 1, Seq::empty(), v.devices.len() + 1);
        assert(device_error(v, n - 1) != Some(ValidationError::DuplicateBinding));
    }
}

/// A repeat reported by the port rules is a true one: an earlier port with
/// the same host (trimmed, ASCII lower case), port number and protocol.
proof fn lemma_port_repeat_is_true(v: SnapshotView, n: nat)
    requires
        n <= v.ports.len(),
        first_port_error(v, n) == Some(ValidationError::DuplicateBinding),
    ensures
        exists|a: int, b: int|
            0 <= a < b < n && b < v.ports.len() && to_ascii_lower(trim(#[trigger] v.ports[a].host)) == to_ascii_lower(trim(#[trigger] v.ports[b].host))
                && v.ports[a].port == v.ports[b].port && v.ports[a].protocol == v.ports[b].protocol,
    decreases n,
{
    if first_port_error(v, (n - 1) as nat) == Some(ValidationError::DuplicateBinding) {
        lemma_port_repeat_is_true(v, (n - 1) as nat);
        let (a, b) = choose|a: int, b: int|
            0 <= a < b < n - 1 && b < v.ports.len() && to_ascii_lower(trim(#[trigger] v.ports[a].host)) == to_ascii_lower(trim(#[trigger] v.ports[b].host))
                && v.ports[a].port == v.ports[b].port && v.ports[a].protocol == v.ports[b].protocol;
        assert(0 <= a < b < n);
    } else {
        let b = n - 1;
        assert(port_error(v, b) == Some(ValidationError::DuplicateBinding));
        let p = v.ports[b];
        let a = choose|k: int| 0 <= k < b && crate::validation::port_binding(#[trigger] v.ports[k]) == crate::validation::port_binding(p);
        assert(crate::validation::port_binding(v.ports[a]) == crate::validation::port_binding(p));
    }
}

/// A snapshot is refused for a repeated host, port and protocol only when two
/// of its ports truly share all three: the host without surrounding white
/// space in ASCII lower case, the port number, and the protocol. Ports that
/// differ in protocol (DNS on TCP and on UDP) never conflict.
pub proof fn law_repeat_refused_only_when_true(v: SnapshotView)
    requires
        validation_error(v) == Some(ValidationError::DuplicateBinding),
    ensures
        exists|a: int, b: int|
            0 <= a < b < v.ports.len() && to_ascii_lower(trim(#[trigger] v.ports[a].host)) == to_ascii_lower(trim(#[trigger] v.ports[b].host))
                && v.ports[a].port == v.ports[b].port && v.ports[a].protocol == v.ports[b].protocol,
{
    lemma_subnets_never_repeat_binding(v, v.subnets.len());
    lemma_devices_never_repeat_binding(v, v.devices.len());
    lemma_port_repeat_is_true(v, v.ports.len());
}

} // verus!
