//! Changes to the inventory: saving and deleting devices, subnets and ports.
//! Each change yields the new snapshot only when it still obeys every rule.

use crate::ident::{is_v4_uuid_text, new_id};
use crate::model::{
    CredentialsView, devices_view, ports_view, subnets_view, Device, DeviceView, PortView, ServicePort, Snapshot,
    SnapshotView, Subnet, SubnetView,
};
use crate::text::{ascii_uppercase, str_eq, to_ascii_upper, trim, trimmed};
use crate::removal::{
    law_removing_device_keeps_valid, law_removing_port_keeps_valid,
    law_removing_unused_subnet_keeps_valid,
};
use crate::validation::{device_index, is_valid, find_device, find_port, find_subnet, port_index, subnet_index, validate, validation_error, ValidationError};
use vstd::prelude::*;
use vstd::utf8::encode_utf8;

verus! {

/// Why a change was refused.
#[derive(Clone, Copy, Debug, PartialEq, Eq, Structural)]
pub enum InventoryError {
    /// The changed snapshot would break a rule.
    Invalid(ValidationError),
    /// A subnet that devices are assigned to cannot be deleted.
    SubnetInUse,
}

/// `s` with `d` saved: replacing the first device with its id, or added last.
pub open spec fn put_device(s: Seq<DeviceView>, d: DeviceView) -> Seq<DeviceView> {
    match device_index(s, d.id) {
        Some(i) => s.update(i, d),
        None => s.push(d),
    }
}

/// `s` with `n` saved: replacing the first subnet with its id, or added last.
pub open spec fn put_subnet(s: Seq<SubnetView>, n: SubnetView) -> Seq<SubnetView> {
    match subnet_index(s, n.id) {
        Some(i) => s.update(i, n),
        None => s.push(n),
    }
}

/// `s` with `p` saved: replacing the first port with its id, or added last.
pub open spec fn put_port(s: Seq<PortView>, p: PortView) -> Seq<PortView> {
    match port_index(s, p.id) {
        Some(i) => s.update(i, p),
        None => s.push(p),
    }
}

/// `d`, no longer connected to the device `id`.
pub open spec fn detached(d: DeviceView, id: Seq<char>) -> DeviceView {
    if d.parent == id {
        DeviceView { parent: Seq::empty(), ..d }
    } else {
        d
    }
}

/// The devices without device `id`, those connected to it detached.
pub open spec fn drop_device(s: Seq<DeviceView>, id: Seq<char>) -> Seq<DeviceView> {
    s.filter(|x: DeviceView| x.id != id).map_values(|x: DeviceView| detached(x, id))
}

/// The subnets without subnet `id`.
pub open spec fn drop_subnet(s: Seq<SubnetView>, id: Seq<char>) -> Seq<SubnetView> {
    s.filter(|x: SubnetView| x.id != id)
}

/// The ports without port `id`.
pub open spec fn drop_port(s: Seq<PortView>, id: Seq<char>) -> Seq<PortView> {
    s.filter(|x: PortView| x.id != id)
}

/// Some device is assigned to subnet `id`.
pub open spec fn subnet_in_use(s: Seq<DeviceView>, id: Seq<char>) -> bool {
    exists|i: int| 0 <= i < s.len() && #[trigger] s[i].subnet_id == id
}

/// `v` with other devices.
pub open spec fn with_devices(v: SnapshotView, d: Seq<DeviceView>) -> SnapshotView {
    SnapshotView { devices: d, ..v }
}

/// `v` with other subnets.
pub open spec fn with_subnets(v: SnapshotView, s: Seq<SubnetView>) -> SnapshotView {
    SnapshotView { subnets: s, ..v }
}

/// `v` with other ports.
pub open spec fn with_ports(v: SnapshotView, p: Seq<PortView>) -> SnapshotView {
    SnapshotView { ports: p, ..v }
}

/// The answer of a change to `next`: the new snapshot when it obeys every
/// rule, else the first rule it breaks.
pub open spec fn checked(next: SnapshotView, r: Result<Snapshot, InventoryError>) -> bool {
    match validation_error(next) {
        None => r matches Ok(s) && s@ == next,
        Some(e) => r == Err::<Snapshot, InventoryError>(InventoryError::Invalid(e)),
    }
}

/// Returns `snapshot` if it obeys every rule.
fn accept(snapshot: Snapshot) -> (r: Result<Snapshot, InventoryError>)
    ensures
        checked(snapshot@, r),
{
    match validate(&snapshot) {
        Ok(()) => Ok(snapshot),
        Err(e) => Err(InventoryError::Invalid(e)),
    }
}

/// Saves `device`: replaces the device with the same id, or adds it last.
pub fn store_device(snapshot: Snapshot, device: Device) -> (r: Result<Snapshot, InventoryError>)
    ensures
        checked(with_devices(snapshot@, put_device(snapshot@.devices, device@)), r),
        r matches Ok(t) ==> device_index(t@.devices, device@.id) is Some
            && t@.devices[device_index(t@.devices, device@.id)->0] == device@,
{
    proof {
        crate::laws::law_saved_device_found(snapshot@.devices, device@);
    }
    let mut s = snapshot;
    let ghost before = s@;
    let ghost ids = before.devices.map_values(|d: DeviceView| d.id);
    proof {
        ids.index_of_first_ensures(device.id@);
    }
    match find_device(&s.devices, device.id.as_str()) {
        Some(i) => {
            s.devices.set(i, device);
        },
        None => {
            s.devices.push(device);
        },
    }
    assert(s@.devices =~= put_device(before.devices, device@));
    accept(s)
}

/// Saves `subnet`: replaces the subnet with the same id, or adds it last.
pub fn store_subnet(snapshot: Snapshot, subnet: Subnet) -> (r: Result<Snapshot, InventoryError>)
    ensures
        checked(with_subnets(snapshot@, put_subnet(snapshot@.subnets, subnet@)), r),
        r matches Ok(t) ==> subnet_index(t@.subnets, subnet@.id) is Some
            && t@.subnets[subnet_index(t@.subnets, subnet@.id)->0] == subnet@,
{
    proof {
        crate::outcomes::law_saved_subnet_found(snapshot@.subnets, subnet@);
    }
    let mut s = snapshot;
    let ghost before = s@;
    let ghost ids = before.subnets.map_values(|s: SubnetView| s.id);
    proof {
        ids.index_of_first_ensures(subnet.id@);
    }
    let found = find_subnet(&s.subnets, subnet.id.as_str());
    match found {
        Some(i) => {
            s.subnets.set(i, subnet);
        },
        None => {
            s.subnets.push(subnet);
        },
    }
    assert(s@.subnets =~= put_subnet(before.subnets, subnet@));
    accept(s)
}

/// Saves `port`: replaces the port with the same id, or adds it last.
pub fn store_port(snapshot: Snapshot, port: ServicePort) -> (r: Result<Snapshot, InventoryError>)
    ensures
        checked(with_ports(snapshot@, put_port(snapshot@.ports, port@)), r),
        r matches Ok(t) ==> port_index(t@.ports, port@.id) is Some
            && t@.ports[port_index(t@.ports, port@.id)->0] == port@,
{
    proof {
        crate::outcomes::law_saved_port_found(snapshot@.ports, port@);
    }
    let mut s = snapshot;
    let ghost before = s@;
    let ghost ids = before.ports.map_values(|p: PortView| p.id);
    let found = find_port(&s.ports, port.id.as_str());
    proof {
        ids.index_of_first_ensures(port.id@);
    }
    match found {
        Some(i) => {
            s.ports.set(i, port);
        },
        None => {
            s.ports.push(port);
        },
    }
    assert(s@.ports =~= put_port(before.ports, port@));
    accept(s)
}

/// Deletes device `id` and detaches the devices connected to it.
pub fn remove_device(snapshot: Snapshot, id: &str) -> (r: Result<Snapshot, InventoryError>)
    ensures
        checked(with_devices(snapshot@, drop_device(snapshot@.devices, id@)), r),
        is_valid(snapshot@) ==> r is Ok,
{
    proof {
        if is_valid(snapshot@) {
            law_removing_device_keeps_valid(snapshot@, id@);
        }
    }
    let mut s = snapshot;
    let ghost before = s@;
    let ghost pred = |x: DeviceView| x.id != id@;
    let mut old: Vec<Device> = Vec::new();
    std::mem::swap(&mut old, &mut s.devices);
    let ghost whole = devices_view(old@);
    let mut out: Vec<Device> = Vec::new();
    assert(whole.take(0).filter(pred).map_values(|x: DeviceView| detached(x, id@)) =~= Seq::<DeviceView>::empty());
    for d in it: old.into_iter()
        invariant
            whole == devices_view(it.seq()),
            pred == (|x: DeviceView| x.id != id@),
            devices_view(out@) == whole.take(it.index() as int).filter(pred).map_values(|x: DeviceView| detached(x, id@)),
    {
        let ghost i = it.index() as int;
        proof {
            reveal_with_fuel(Seq::filter, 1);
            let w = whole.take(i + 1);
            assert(w.drop_last() =~= whole.take(i));
            assert(w.last() == d@);
        }
        if !str_eq(d.id.as_str(), id) {
            let mut d = d;
            let ghost before_d = d@;
            if str_eq(d.parent.as_str(), id) {
                d.parent = String::new();
                assert(d@ =~= detached(before_d, id@));
            }
            let ghost prev = out@;
            out.push(d);
            assert(devices_view(out@) =~= devices_view(prev).push(d@));
        }
    }
    assert(whole.take(whole.len() as int) =~= whole);
    s.devices = out;
    assert(s@.devices == drop_device(before.devices, id@));
    accept(s)
}

/// Whether some device is assigned to subnet `id`.
pub fn subnet_assigned(devices: &Vec<Device>, id: &str) -> (r: bool)
    ensures
        r == subnet_in_use(devices_view(devices@), id@),
{
    let ghost dv = devices_view(devices@);
    let mut k: usize = 0;
    while k < devices.len()
        invariant
            dv == devices_view(devices@),
            k <= devices.len(),
            forall|t: int| 0 <= t < k ==> dv[t].subnet_id != id@,
        decreases devices.len() - k,
    {
        assert(dv[k as int] == devices@[k as int]@);
        if str_eq(devices[k].subnet_id.as_str(), id) {
            assert(dv[k as int].subnet_id == id@);
            return true;
        }
        k = k + 1;
    }
    false
}

/// Deletes subnet `id`, unless a device is assigned to it.
pub fn remove_subnet(snapshot: Snapshot, id: &str) -> (r: Result<Snapshot, InventoryError>)
    ensures
        subnet_in_use(snapshot@.devices, id@) ==> r == Err::<Snapshot, InventoryError>(InventoryError::SubnetInUse),
        !subnet_in_use(snapshot@.devices, id@) ==> checked(with_subnets(snapshot@, drop_subnet(snapshot@.subnets, id@)), r),
        is_valid(snapshot@) && !subnet_in_use(snapshot@.devices, id@) ==> r is Ok,
{
    proof {
        if is_valid(snapshot@) && !subnet_in_use(snapshot@.devices, id@) {
            law_removing_unused_subnet_keeps_valid(snapshot@, id@);
        }
    }
    let mut s = snapshot;
    let ghost before = s@;
    if subnet_assigned(&s.devices, id) {
        return Err(InventoryError::SubnetInUse);
    }
    let ghost pred = |x: SubnetView| x.id != id@;
    let mut old: Vec<Subnet> = Vec::new();
    std::mem::swap(&mut old, &mut s.subnets);
    let ghost whole = subnets_view(old@);
    let mut out: Vec<Subnet> = Vec::new();
    assert(whole.take(0).filter(pred) =~= Seq::<SubnetView>::empty());
    for n in it: old.into_iter()
        invariant
            whole == subnets_view(it.seq()),
            pred == (|x: SubnetView| x.id != id@),
            subnets_view(out@) == whole.take(it.index() as int).filter(pred),
    {
        let ghost i = it.index() as int;
        proof {
            reveal_with_fuel(Seq::filter, 1);
            let w = whole.take(i + 1);
            assert(w.drop_last() =~= whole.take(i));
            assert(w.last() == n@);
        }
        if !str_eq(n.id.as_str(), id) {
            let ghost prev = out@;
            out.push(n);
            assert(subnets_view(out@) =~= subnets_view(prev).push(n@));
        }
    }
    assert(whole.take(whole.len() as int) =~= whole);
    s.subnets = out;
    assert(s@.subnets == drop_subnet(before.subnets, id@));
    accept(s)
}

/// `v` with another password hash; the username and the records unchanged.
pub open spec fn with_password_hash(v: SnapshotView, hash: Seq<char>) -> SnapshotView {
    SnapshotView { credentials: CredentialsView { password_hash: hash, ..v.credentials }, ..v }
}

/// Replaces the administrator's password hash.
pub fn change_password(snapshot: Snapshot, password_hash: String) -> (r: Result<Snapshot, InventoryError>)
    ensures
        checked(with_password_hash(snapshot@, password_hash@), r),
{
    let mut s = snapshot;
    s.credentials.password_hash = password_hash;
    accept(s)
}

/// Deletes port `id`.
pub fn remove_port(snapshot: Snapshot, id: &str) -> (r: Result<Snapshot, InventoryError>)
    ensures
        checked(with_ports(snapshot@, drop_port(snapshot@.ports, id@)), r),
        is_valid(snapshot@) ==> r is Ok,
{
    proof {
        if is_valid(snapshot@) {
            law_removing_port_keeps_valid(snapshot@, id@);
        }
    }
    let mut s = snapshot;
    let ghost before = s@;
    let ghost pred = |x: PortView| x.id != id@;
    let mut old: Vec<ServicePort> = Vec::new();
    std::mem::swap(&mut old, &mut s.ports);
    let ghost whole = ports_view(old@);
    let mut out: Vec<ServicePort> = Vec::new();
    assert(whole.take(0).filter(pred) =~= Seq::<PortView>::empty());
    for p in it: old.into_iter()
        invariant
            whole == ports_view(it.seq()),
            pred == (|x: PortView| x.id != id@),
            ports_view(out@) == whole.take(it.index() as int).filter(pred),
    {
        let ghost i = it.index() as int;
        proof {
            reveal_with_fuel(Seq::filter, 1);
            let w = whole.take(i + 1);
            assert(w.drop_last() =~= whole.take(i));
            assert(w.last() == p@);
        }
        if !str_eq(p.id.as_str(), id) {
            let ghost prev = out@;
            out.push(p);
            assert(ports_view(out@) =~= ports_view(prev).push(p@));
        }
    }
    assert(whole.take(whole.len() as int) =~= whole);
    s.ports = out;
    assert(s@.ports == drop_port(before.ports, id@));
    accept(s)
}

/// A device as saved, under `id`: name and IP without surrounding white space.
pub open spec fn normalized_device(d: DeviceView, id: Seq<char>) -> DeviceView {
    DeviceView { id: id, name: trim(d.name), ip: trim(d.ip), ..d }
}

/// A subnet as saved, under `id`: name and CIDR without surrounding white space.
pub open spec fn normalized_subnet(n: SubnetView, id: Seq<char>) -> SubnetView {
    SubnetView { id: id, name: trim(n.name), cidr: trim(n.cidr), ..n }
}

/// A port as saved, under `id`: the protocol trimmed and in ASCII upper case;
/// host, service, access, URL and status trimmed.
pub open spec fn normalized_port(p: PortView, id: Seq<char>) -> PortView {
    PortView {
        id: id,
        protocol: to_ascii_upper(trim(p.protocol)),
        host: trim(p.host),
        service: trim(p.service),
        access: trim(p.access),
        url: trim(p.url),
        status: trim(p.status),
        ..p
    }
}

/// A new record gets a fresh UUID; a record with an id keeps it.
pub open spec fn id_assigned(old_id: Seq<char>, new_id: Seq<char>) -> bool {
    if old_id.len() == 0 {
        is_v4_uuid_text(encode_utf8(new_id))
    } else {
        new_id == old_id
    }
}

/// A device as the web form's save stores it: a fresh id when it has none,
/// name and IP trimmed.
pub fn prepare_device(device: Device) -> (r: Device)
    ensures
        id_assigned(device.id@, r.id@),
        r@ == normalized_device(device@, r.id@),
{
    let mut d = device;
    if d.id.as_str().is_empty() {
        d.id = new_id();
    }
    d.name = trimmed(d.name.as_str());
    d.ip = trimmed(d.ip.as_str());
    d
}

/// A subnet as the web form's save stores it: a fresh id when it has none,
/// name and CIDR trimmed.
pub fn prepare_subnet(subnet: Subnet) -> (r: Subnet)
    ensures
        id_assigned(subnet.id@, r.id@),
        r@ == normalized_subnet(subnet@, r.id@),
{
    let mut n = subnet;
    if n.id.as_str().is_empty() {
        n.id = new_id();
    }
    n.name = trimmed(n.name.as_str());
    n.cidr = trimmed(n.cidr.as_str());
    n
}

/// A port as the web form's save stores it: a fresh id when it has none, the
/// protocol trimmed and upper-cased, host, service, access, URL and status trimmed.
pub fn prepare_port(port: ServicePort) -> (r: ServicePort)
    ensures
        id_assigned(port.id@, r.id@),
        r@ == normalized_port(port@, r.id@),
{
    let mut p = port;
    if p.id.as_str().is_empty() {
        p.id = new_id();
    }
    let proto = trimmed(p.protocol.as_str());
    p.protocol = ascii_uppercase(proto.as_str());
    p.host = trimmed(p.host.as_str());
    p.service = trimmed(p.service.as_str());
    p.access = trimmed(p.access.as_str());
    p.url = trimmed(p.url.as_str());
    p.status = trimmed(p.status.as_str());
    p
}

} // verus!
