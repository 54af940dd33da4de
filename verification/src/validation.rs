//! The rules every stored snapshot obeys, and `validate`, which checks them in
//! order and reports the first one broken.

use crate::ident::{is_uuid_text, valid_id};
use crate::ipv4::{
    cidr_text, dotted_quad, networks_overlap, network_of, overlaps, parse_cidr, parse_ipv4,
    usable, usable_in, Ipv4Cidr,
};
use crate::model::{
    devices_view, ports_view, subnets_view, Device, DeviceView, ServicePort, Snapshot, SnapshotView, Subnet,
    SubnetView, PortView,
    SCHEMA_VERSION,
};
use crate::text::{ascii_lowercase, byte_len, is_blank, is_blank_text, str_eq, to_ascii_lower, trim, trimmed, utf8_len};
use vstd::prelude::*;

verus! {

/// Why a snapshot was refused.
#[derive(Clone, Copy, Debug, PartialEq, Eq, Structural)]
pub enum ValidationError {
    UnsupportedSchema,
    LimitReached,
    InvalidSubnetId,
    SubnetName,
    InvalidCidr,
    /// The CIDR names a host, not the network; carries the network to use.
    NotNetworkAddress { network: u32, prefix: u8 },
    SubnetOverlap,
    InvalidGateway,
    GatewayNotUsable,
    InvalidVlan,
    InvalidDeviceId,
    DeviceName,
    InvalidDeviceType,
    InvalidDeviceStatus,
    FieldTooLong,
    InvalidReminderDate,
    InvalidIp,
    DuplicateIp,
    SubnetNotFound,
    IpNotUsable,
    NetworkLoop,
    ParentNotFound,
    InvalidPortId,
    InvalidProtocol,
    InvalidAccess,
    InvalidPortStatus,
    HostServiceLength,
    DuplicateBinding,
}

pub const MAX_DEVICES: usize = 10000;
pub const MAX_SUBNETS: usize = 1000;
pub const MAX_PORTS: usize = 10000;

/// The format of reminder dates, in `chrono`'s notation.
pub const DATE_FORMAT: &'static str = "%Y-%m-%d";

/// Whether `chrono::NaiveDate::parse_from_str(text, format)` succeeds. The
/// `chrono` format language takes pages to state; this names its answer.
pub uninterp spec fn naive_date_parses(text: Seq<char>, format: Seq<char>) -> bool;

/// `chrono::NaiveDate::parse_from_str(text, format).is_ok()`; claimed only that
/// the answer is `naive_date_parses` of the two texts.
#[verifier::external_body]
fn chrono_date_parses(text: &str, format: &str) -> (r: bool)
    ensures
        r == naive_date_parses(text@, format@),
{
    chrono::NaiveDate::parse_from_str(text, format).is_ok()
}

pub open spec fn is_device_kind(s: Seq<char>) -> bool {
    ||| s == "Router"@
    ||| s == "Switch"@
    ||| s == "Server"@
    ||| s == "Storage"@
    ||| s == "Access point"@
    ||| s == "Computer"@
}

pub open spec fn is_device_status(s: Seq<char>) -> bool {
    ||| s == "In service"@
    ||| s == "Powered off"@
    ||| s == "Maintenance"@
}

pub open spec fn is_protocol(s: Seq<char>) -> bool {
    s == "TCP"@ || s == "UDP"@
}

pub open spec fn is_access_level(s: Seq<char>) -> bool {
    ||| s == "Localhost"@
    ||| s == "LAN"@
    ||| s == "Tailscale"@
    ||| s == "Internet"@
}

pub open spec fn is_port_status(s: Seq<char>) -> bool {
    s == "Active"@ || s == "Planned"@ || s == "Disabled"@
}

/// The address written in an IP field, if it reads as one.
pub open spec fn ip_value(s: Seq<char>) -> Option<nat> {
    dotted_quad(s, true)
}

/// The network a subnet's CIDR field writes, if it reads as one.
pub open spec fn cidr_value(s: Seq<char>) -> Option<(nat, nat)> {
    cidr_text(s)
}

/// The index of the first subnet with the given id.
pub open spec fn subnet_index(subnets: Seq<SubnetView>, id: Seq<char>) -> Option<int> {
    subnets.map_values(|s: SubnetView| s.id).index_of_first(id)
}

/// The index of the first device with the given id.
pub open spec fn device_index(devices: Seq<DeviceView>, id: Seq<char>) -> Option<int> {
    devices.map_values(|d: DeviceView| d.id).index_of_first(id)
}

/// The index of the first port with the given id.
pub open spec fn port_index(ports: Seq<PortView>, id: Seq<char>) -> Option<int> {
    ports.map_values(|p: PortView| p.id).index_of_first(id)
}

/// The first rule that subnet `i` breaks, all earlier subnets having passed.
pub open spec fn subnet_error(v: SnapshotView, i: int) -> Option<ValidationError> {
    let s = v.subnets[i];
    if !is_uuid_text(s.id) || exists|k: int| 0 <= k < i && #[trigger] v.subnets[k].id == s.id {
        Some(ValidationError::InvalidSubnetId)
    } else if is_blank_text(s.name) || utf8_len(s.name) > 100 {
        Some(ValidationError::SubnetName)
    } else if cidr_value(s.cidr) is None {
        Some(ValidationError::InvalidCidr)
    } else {
        let net = cidr_value(s.cidr)->0;
        if net.0 != network_of(net.0, net.1) {
            Some(
                ValidationError::NotNetworkAddress {
                    network: network_of(net.0, net.1) as u32,
                    prefix: net.1 as u8,
                },
            )
        } else if exists|k: int|
            0 <= k < i && networks_overlap(cidr_value(#[trigger] v.subnets[k].cidr)->0, net) {
            Some(ValidationError::SubnetOverlap)
        } else if s.gateway.len() > 0 && ip_value(s.gateway) is None {
            Some(ValidationError::InvalidGateway)
        } else if s.gateway.len() > 0 && !usable_in(net.0, net.1, ip_value(s.gateway)->0) {
            Some(ValidationError::GatewayNotUsable)
        } else if s.vlan matches Some(x) && !(1 <= x <= 4094) {
            Some(ValidationError::InvalidVlan)
        } else {
            None
        }
    }
}

/// The first rule broken by subnets `0..n`, in order.
pub open spec fn first_subnet_error(v: SnapshotView, n: nat) -> Option<ValidationError>
    decreases n,
{
    if n == 0 {
        None
    } else {
        match first_subnet_error(v, (n - 1) as nat) {
            Some(e) => Some(e),
            None => subnet_error(v, n - 1),
        }
    }
}

/// Following parent links from device `cur`, having passed the ids in `seen`:
/// a repeated id is a loop, a parent id that no device has is a missing parent,
/// an empty parent ends the walk. `fuel` bounds the walk by the number of
/// devices; `lemma_parent_walk_fuel` shows it never runs out first.
pub open spec fn parent_walk(devices: Seq<DeviceView>, cur: int, seen: Seq<Seq<char>>, fuel: nat) -> Option<ValidationError>
    decreases fuel,
{
    if fuel == 0 {
        None
    } else if seen.contains(devices[cur].id) {
        Some(ValidationError::NetworkLoop)
    } else if devices[cur].parent.len() == 0 {
        None
    } else {
        match device_index(devices, devices[cur].parent) {
            None => Some(ValidationError::ParentNotFound),
            Some(k) => parent_walk(devices, k, seen.push(devices[cur].id), (fuel - 1) as nat),
        }
    }
}

/// What the walk along parent links from device `j` finds.
pub open spec fn parent_chain_error(devices: Seq<DeviceView>, j: int) -> Option<ValidationError> {
    parent_walk(devices, j, Seq::empty(), devices.len() + 1)
}

/// The first rule that device `j` breaks, all subnets and earlier devices having passed.
pub open spec fn device_error(v: SnapshotView, j: int) -> Option<ValidationError> {
    let d = v.devices[j];
    if !is_uuid_text(d.id) || exists|k: int| 0 <= k < j && #[trigger] v.devices[k].id == d.id {
        Some(ValidationError::InvalidDeviceId)
    } else if is_blank_text(d.name) || utf8_len(d.name) > 100 {
        Some(ValidationError::DeviceName)
    } else if !is_device_kind(d.kind) {
        Some(ValidationError::InvalidDeviceType)
    } else if !is_device_status(d.status) {
        Some(ValidationError::InvalidDeviceStatus)
    } else if utf8_len(d.model) > 200 || utf8_len(d.location) > 200 || utf8_len(d.firmware) > 200
        || utf8_len(d.target) > 200 || utf8_len(d.notes) > 4000 {
        Some(ValidationError::FieldTooLong)
    } else if d.due.len() > 0 && (utf8_len(d.due) != 10 || !naive_date_parses(d.due, DATE_FORMAT@)) {
        Some(ValidationError::InvalidReminderDate)
    } else if d.ip.len() > 0 && ip_value(d.ip) is None {
        Some(ValidationError::InvalidIp)
    } else if d.ip.len() > 0 && exists|k: int|
        0 <= k < j && (#[trigger] v.devices[k].ip).len() > 0 && ip_value(v.devices[k].ip) == ip_value(d.ip) {
        Some(ValidationError::DuplicateIp)
    } else if d.subnet_id.len() > 0 && subnet_index(v.subnets, d.subnet_id) is None {
        Some(ValidationError::SubnetNotFound)
    } else if d.subnet_id.len() > 0 && d.ip.len() > 0 && {
        let net = cidr_value(v.subnets[subnet_index(v.subnets, d.subnet_id)->0].cidr)->0;
        !usable_in(net.0, net.1, ip_value(d.ip)->0)
    } {
        Some(ValidationError::IpNotUsable)
    } else {
        parent_chain_error(v.devices, j)
    }
}

/// The first rule broken by devices `0..n`, in order.
pub open spec fn first_device_error(v: SnapshotView, n: nat) -> Option<ValidationError>
    decreases n,
{
    if n == 0 {
        None
    } else {
        match first_device_error(v, (n - 1) as nat) {
            Some(e) => Some(e),
            None => device_error(v, n - 1),
        }
    }
}

/// What makes two port records the same binding: the host without surrounding
/// white space in ASCII lower case, the port number, and the protocol.
pub open spec fn port_binding(p: PortView) -> (Seq<char>, u16, Seq<char>) {
    (to_ascii_lower(trim(p.host)), p.port, p.protocol)
}

/// The first rule that port `i` breaks, all earlier ports having passed.
pub open spec fn port_error(v: SnapshotView, i: int) -> Option<ValidationError> {
    let p = v.ports[i];
    if !is_uuid_text(p.id) || exists|k: int| 0 <= k < i && #[trigger] v.ports[k].id == p.id {
        Some(ValidationError::InvalidPortId)
    } else if !is_protocol(p.protocol) {
        Some(ValidationError::InvalidProtocol)
    } else if !is_access_level(p.access) {
        Some(ValidationError::InvalidAccess)
    } else if !is_port_status(p.status) {
        Some(ValidationError::InvalidPortStatus)
    } else if is_blank_text(p.host) || utf8_len(p.host) > 100 || is_blank_text(p.service)
        || utf8_len(p.service) > 100 {
        Some(ValidationError::HostServiceLength)
    } else if utf8_len(p.url) > 500 || utf8_len(p.notes) > 4000 {
        Some(ValidationError::FieldTooLong)
    } else if exists|k: int| 0 <= k < i && port_binding(#[trigger] v.ports[k]) == port_binding(p) {
        Some(ValidationError::DuplicateBinding)
    } else {
        None
    }
}

/// The first rule broken by ports `0..n`, in order.
pub open spec fn first_port_error(v: SnapshotView, n: nat) -> Option<ValidationError>
    decreases n,
{
    if n == 0 {
        None
    } else {
        match first_port_error(v, (n - 1) as nat) {
            Some(e) => Some(e),
            None => port_error(v, n - 1),
        }
    }
}

/// The first rule the snapshot breaks: schema version, size limits, then each
/// subnet, each device and each port in order.
pub open spec fn validation_error(v: SnapshotView) -> Option<ValidationError> {
    if v.schema_version != SCHEMA_VERSION {
        Some(ValidationError::UnsupportedSchema)
    } else if v.devices.len() > MAX_DEVICES || v.subnets.len() > MAX_SUBNETS || v.ports.len()
        > MAX_PORTS {
        Some(ValidationError::LimitReached)
    } else if first_subnet_error(v, v.subnets.len()) is Some {
        first_subnet_error(v, v.subnets.len())
    } else if first_device_error(v, v.devices.len()) is Some {
        first_device_error(v, v.devices.len())
    } else {
        first_port_error(v, v.ports.len())
    }
}

/// The snapshot obeys every rule.
pub open spec fn is_valid(v: SnapshotView) -> bool {
    validation_error(v) is None
}

/// Once subnets `0..n` passed, each of them did.
pub proof fn lemma_first_subnet_error_none(v: SnapshotView, n: nat, k: int)
    requires
        first_subnet_error(v, n) is None,
        0 <= k < n,
    ensures
        subnet_error(v, k) is None,
    decreases n,
{
    if k < n - 1 {
        lemma_first_subnet_error_none(v, (n - 1) as nat, k);
    }
}

/// Once devices `0..n` passed, each of them did.
pub proof fn lemma_first_device_error_none(v: SnapshotView, n: nat, k: int)
    requires
        first_device_error(v, n) is None,
        0 <= k < n,
    ensures
        device_error(v, k) is None,
    decreases n,
{
    if k < n - 1 {
        lemma_first_device_error_none(v, (n - 1) as nat, k);
    }
}

/// Once ports `0..n` passed, each of them did.
pub proof fn lemma_first_port_error_none(v: SnapshotView, n: nat, k: int)
    requires
        first_port_error(v, n) is None,
        0 <= k < n,
    ensures
        port_error(v, k) is None,
    decreases n,
{
    if k < n - 1 {
        lemma_first_port_error_none(v, (n - 1) as nat, k);
    }
}

/// Whether a subnet before `i` has the id of subnet `i`.
fn subnet_id_repeated(subnets: &Vec<Subnet>, i: usize) -> (r: bool)
    requires
        i < subnets.len(),
    ensures
        r == exists|k: int| 0 <= k < i && #[trigger] subnets@[k].id@ == subnets@[i as int].id@,
{
    let mut k: usize = 0;
    while k < i
        invariant
            i < subnets.len(),
            k <= i,
            forall|t: int| 0 <= t < k ==> subnets@[t].id@ != subnets@[i as int].id@,
        decreases i - k,
    {
        if str_eq(subnets[k].id.as_str(), subnets[i].id.as_str()) {
            return true;
        }
        k = k + 1;
    }
    false
}

/// Whether a device before `i` has the id of device `i`.
fn device_id_repeated(devices: &Vec<Device>, i: usize) -> (r: bool)
    requires
        i < devices.len(),
    ensures
        r == exists|k: int| 0 <= k < i && #[trigger] devices@[k].id@ == devices@[i as int].id@,
{
    let mut k: usize = 0;
    while k < i
        invariant
            i < devices.len(),
            k <= i,
            forall|t: int| 0 <= t < k ==> devices@[t].id@ != devices@[i as int].id@,
        decreases i - k,
    {
        if str_eq(devices[k].id.as_str(), devices[i].id.as_str()) {
            return true;
        }
        k = k + 1;
    }
    false
}

/// Whether a port before `i` has the id of port `i`.
fn port_id_repeated(ports: &Vec<ServicePort>, i: usize) -> (r: bool)
    requires
        i < ports.len(),
    ensures
        r == exists|k: int| 0 <= k < i && #[trigger] ports@[k].id@ == ports@[i as int].id@,
{
    let mut k: usize = 0;
    while k < i
        invariant
            i < ports.len(),
            k <= i,
            forall|t: int| 0 <= t < k ==> ports@[t].id@ != ports@[i as int].id@,
        decreases i - k,
    {
        if str_eq(ports[k].id.as_str(), ports[i].id.as_str()) {
            return true;
        }
        k = k + 1;
    }
    false
}

/// The rules for subnet `i`, given the networks of the subnets before it.
#[verifier::loop_isolation(false)]
fn check_subnet(snapshot: &Snapshot, i: usize, nets: &Vec<Ipv4Cidr>) -> (r: Result<Ipv4Cidr, ValidationError>)
    requires
        i < snapshot.subnets.len(),
        nets.len() == i,
        forall|k: int| 0 <= k < i ==> cidr_value(#[trigger] snapshot@.subnets[k].cidr) == Some(nets@[k]@),
    ensures
        r is Ok <==> subnet_error(snapshot@, i as int) is None,
        r matches Err(e) ==> subnet_error(snapshot@, i as int) == Some(e),
        r matches Ok(n) ==> cidr_value(snapshot@.subnets[i as int].cidr) == Some(n@),
{
    let ghost v = snapshot@;
    let s = &snapshot.subnets[i];
    assert(v.subnets[i as int] == s@);
    assert(forall|k: int| 0 <= k < i ==> #[trigger] v.subnets[k] == snapshot.subnets@[k]@);
    if !valid_id(s.id.as_str()) {
        return Err(ValidationError::InvalidSubnetId);
    }
    if subnet_id_repeated(&snapshot.subnets, i) {
        proof {
            let k = choose|k: int| 0 <= k < i && #[trigger] snapshot.subnets@[k].id@ == snapshot.subnets@[i as int].id@;
            assert(v.subnets[k] == snapshot.subnets@[k]@);
            assert(v.subnets[k].id == v.subnets[i as int].id);
        }
        return Err(ValidationError::InvalidSubnetId);
    }
    assert(!exists|k: int| 0 <= k < i && #[trigger] v.subnets[k].id == v.subnets[i as int].id);
    if is_blank(s.name.as_str()) || byte_len(s.name.as_str()) > 100 {
        return Err(ValidationError::SubnetName);
    }
    let net = match parse_cidr(s.cidr.as_str()) {
        Some(n) => n,
        None => {
            return Err(ValidationError::InvalidCidr);
        },
    };
    let network = net.network();
    if net.addr() != network {
        return Err(ValidationError::NotNetworkAddress { network, prefix: net.prefix_len() });
    }
    let mut k: usize = 0;
    while k < i
        invariant
            i == nets.len(),
            k <= i,
            forall|t: int| 0 <= t < i ==> cidr_value(#[trigger] v.subnets[t].cidr) == Some(nets@[t]@),
            forall|t: int| 0 <= t < k ==> !networks_overlap(cidr_value(#[trigger] v.subnets[t].cidr)->0, net@),
        decreases i - k,
    {
        if overlaps(nets[k], net) {
            assert(networks_overlap(cidr_value(v.subnets[k as int].cidr)->0, net@));
            return Err(ValidationError::SubnetOverlap);
        }
        k = k + 1;
    }
    if !s.gateway.as_str().is_empty() {
        match parse_ipv4(s.gateway.as_str()) {
            None => {
                return Err(ValidationError::InvalidGateway);
            },
            Some(ip) => {
                if !usable(net, ip) {
                    return Err(ValidationError::GatewayNotUsable);
                }
            },
        }
    }
    if let Some(x) = s.vlan {
        if !(1 <= x && x <= 4094) {
            return Err(ValidationError::InvalidVlan);
        }
    }
    Ok(net)
}

/// The subnet rules, subnet by subnet; on success, the network of each subnet.
fn check_subnets(snapshot: &Snapshot) -> (r: Result<Vec<Ipv4Cidr>, ValidationError>)
    ensures
        r is Ok <==> first_subnet_error(snapshot@, snapshot@.subnets.len()) is None,
        r matches Err(e) ==> first_subnet_error(snapshot@, snapshot@.subnets.len()) == Some(e),
        r matches Ok(nets) ==> nets.len() == snapshot.subnets.len() && forall|k: int|
            0 <= k < nets.len() ==> cidr_value(#[trigger] snapshot@.subnets[k].cidr) == Some(nets@[k]@),
{
    let mut nets: Vec<Ipv4Cidr> = Vec::new();
    let mut i: usize = 0;
    while i < snapshot.subnets.len()
        invariant
            i <= snapshot.subnets.len(),
            nets.len() == i,
            first_subnet_error(snapshot@, i as nat) is None,
            forall|k: int| 0 <= k < i ==> cidr_value(#[trigger] snapshot@.subnets[k].cidr) == Some(nets@[k]@),
        decreases snapshot.subnets.len() - i,
    {
        match check_subnet(snapshot, i, &nets) {
            Err(e) => {
                assert(first_subnet_error(snapshot@, (i + 1) as nat) == Some(e));
                proof {
                    lemma_first_subnet_error_keeps(snapshot@, (i + 1) as nat, snapshot@.subnets.len());
                }
                return Err(e);
            },
            Ok(n) => {
                nets.push(n);
            },
        }
        i = i + 1;
    }
    Ok(nets)
}

/// A subnet error found among the first `m` subnets is the one reported for
/// any longer prefix.
pub proof fn lemma_first_subnet_error_keeps(v: SnapshotView, m: nat, n: nat)
    requires
        m <= n,
        first_subnet_error(v, m) is Some,
    ensures
        first_subnet_error(v, n) == first_subnet_error(v, m),
    decreases n,
{
    if n > m {
        lemma_first_subnet_error_keeps(v, m, (n - 1) as nat);
    }
}

/// A device error found among the first `m` devices is the one reported for
/// any longer prefix.
pub proof fn lemma_first_device_error_keeps(v: SnapshotView, m: nat, n: nat)
    requires
        m <= n,
        first_device_error(v, m) is Some,
    ensures
        first_device_error(v, n) == first_device_error(v, m),
    decreases n,
{
    if n > m {
        lemma_first_device_error_keeps(v, m, (n - 1) as nat);
    }
}

/// A port error found among the first `m` ports is the one reported for any
/// longer prefix.
pub proof fn lemma_first_port_error_keeps(v: SnapshotView, m: nat, n: nat)
    requires
        m <= n,
        first_port_error(v, m) is Some,
    ensures
        first_port_error(v, n) == first_port_error(v, m),
    decreases n,
{
    if n > m {
        lemma_first_port_error_keeps(v, m, (n - 1) as nat);
    }
}

/// The address a device records, when its IP field is filled in and reads as one.
pub open spec fn recorded_ip(d: DeviceView) -> Option<nat> {
    if d.ip.len() > 0 {
        ip_value(d.ip)
    } else {
        None
    }
}

/// An optional address as a mathematical number.
pub open spec fn widen(o: Option<u32>) -> Option<nat> {
    match o {
        Some(x) => Some(x as nat),
        None => None,
    }
}

fn is_device_kind_text(s: &str) -> (r: bool)
    ensures
        r == is_device_kind(s@),
{
    str_eq(s, "Router") || str_eq(s, "Switch") || str_eq(s, "Server") || str_eq(s, "Storage")
        || str_eq(s, "Access point") || str_eq(s, "Computer")
}

fn is_device_status_text(s: &str) -> (r: bool)
    ensures
        r == is_device_status(s@),
{
    str_eq(s, "In service") || str_eq(s, "Powered off") || str_eq(s, "Maintenance")
}

fn is_protocol_text(s: &str) -> (r: bool)
    ensures
        r == is_protocol(s@),
{
    str_eq(s, "TCP") || str_eq(s, "UDP")
}

fn is_access_level_text(s: &str) -> (r: bool)
    ensures
        r == is_access_level(s@),
{
    str_eq(s, "Localhost") || str_eq(s, "LAN") || str_eq(s, "Tailscale") || str_eq(s, "Internet")
}

fn is_port_status_text(s: &str) -> (r: bool)
    ensures
        r == is_port_status(s@),
{
    str_eq(s, "Active") || str_eq(s, "Planned") || str_eq(s, "Disabled")
}

/// The index of the first subnet with id `id`.
pub fn find_subnet(subnets: &Vec<Subnet>, id: &str) -> (r: Option<usize>)
    ensures
        widen_index(r) == subnet_index(subnets_view(subnets@), id@),
{
    let ghost ids = subnets_view(subnets@).map_values(|s: SubnetView| s.id);
    let mut k: usize = 0;
    while k < subnets.len()
        invariant
            ids == subnets_view(subnets@).map_values(|s: SubnetView| s.id),
            ids.len() == subnets.len(),
            k <= subnets.len(),
            forall|t: int| 0 <= t < k ==> ids[t] != id@,
        decreases subnets.len() - k,
    {
        assert(ids[k as int] == subnets@[k as int].id@);
        if str_eq(subnets[k].id.as_str(), id) {
            proof {
                ids.index_of_first_ensures(id@);
            }
            return Some(k);
        }
        k = k + 1;
    }
    proof {
        ids.index_of_first_ensures(id@);
        if ids.contains(id@) {
            let t = choose|t: int| 0 <= t < ids.len() && ids[t] == id@;
        }
    }
    None
}

/// The index of the first device with id `id`.
pub fn find_device(devices: &Vec<Device>, id: &str) -> (r: Option<usize>)
    ensures
        widen_index(r) == device_index(devices_view(devices@), id@),
{
    let ghost ids = devices_view(devices@).map_values(|d: DeviceView| d.id);
    let mut k: usize = 0;
    while k < devices.len()
        invariant
            ids == devices_view(devices@).map_values(|d: DeviceView| d.id),
            ids.len() == devices.len(),
            k <= devices.len(),
            forall|t: int| 0 <= t < k ==> ids[t] != id@,
        decreases devices.len() - k,
    {
        assert(ids[k as int] == devices@[k as int].id@);
        if str_eq(devices[k].id.as_str(), id) {
            proof {
                ids.index_of_first_ensures(id@);
            }
            return Some(k);
        }
        k = k + 1;
    }
    proof {
        ids.index_of_first_ensures(id@);
        if ids.contains(id@) {
            let t = choose|t: int| 0 <= t < ids.len() && ids[t] == id@;
        }
    }
    None
}

/// The index of the first port with id `id`.
pub fn find_port(ports: &Vec<ServicePort>, id: &str) -> (r: Option<usize>)
    ensures
        widen_index(r) == port_index(ports_view(ports@), id@),
{
    let ghost ids = ports_view(ports@).map_values(|p: PortView| p.id);
    let mut k: usize = 0;
    while k < ports.len()
        invariant
            ids == ports_view(ports@).map_values(|p: PortView| p.id),
            ids.len() == ports.len(),
            k <= ports.len(),
            forall|t: int| 0 <= t < k ==> ids[t] != id@,
        decreases ports.len() - k,
    {
        assert(ids[k as int] == ports@[k as int].id@);
        if str_eq(ports[k].id.as_str(), id) {
            proof {
                ids.index_of_first_ensures(id@);
            }
            return Some(k);
        }
        k = k + 1;
    }
    proof {
        ids.index_of_first_ensures(id@);
        if ids.contains(id@) {
            let t = choose|t: int| 0 <= t < ids.len() && ids[t] == id@;
        }
    }
    None
}

/// An optional index as a mathematical integer.
pub open spec fn widen_index(o: Option<usize>) -> Option<int> {
    match o {
        Some(x) => Some(x as int),
        None => None,
    }
}

/// The ids of the devices at the given indices.
pub open spec fn ids_at(devices: Seq<DeviceView>, idx: Seq<usize>) -> Seq<Seq<char>> {
    idx.map_values(|t: usize| devices[t as int].id)
}

/// Whether the id of device `cur` is among the ids of the devices at `seen`.
fn id_among(devices: &Vec<Device>, seen: &Vec<usize>, cur: usize) -> (r: bool)
    requires
        cur < devices.len(),
        forall|t: int| 0 <= t < seen.len() ==> seen@[t] < devices.len(),
    ensures
        r == ids_at(devices_view(devices@), seen@).contains(devices@[cur as int].id@),
{
    let ghost ids = ids_at(devices_view(devices@), seen@);
    let mut t: usize = 0;
    while t < seen.len()
        invariant
            ids == ids_at(devices_view(devices@), seen@),
            cur < devices.len(),
            forall|u: int| 0 <= u < seen.len() ==> seen@[u] < devices.len(),
            t <= seen.len(),
            forall|u: int| 0 <= u < t ==> ids[u] != devices@[cur as int].id@,
        decreases seen.len() - t,
    {
        let k = seen[t];
        assert(ids[t as int] == devices@[k as int].id@);
        if str_eq(devices[k].id.as_str(), devices[cur].id.as_str()) {
            return true;
        }
        t = t + 1;
    }
    false
}

/// The walk along parent links from device `j`.
fn check_parent_chain(devices: &Vec<Device>, j: usize) -> (r: Option<ValidationError>)
    requires
        j < devices.len(),
        devices.len() <= MAX_DEVICES,
    ensures
        r == parent_chain_error(devices_view(devices@), j as int),
{
    let ghost dv = devices_view(devices@);
    let mut cur = j;
    let mut seen: Vec<usize> = Vec::new();
    let mut fuel: usize = devices.len() + 1;
    assert(ids_at(dv, seen@) =~= Seq::<Seq<char>>::empty());
    loop
        invariant
            dv == devices_view(devices@),
            dv.len() == devices.len(),
            cur < devices.len(),
            forall|t: int| 0 <= t < seen.len() ==> seen@[t] < devices.len(),
            parent_chain_error(dv, j as int) == parent_walk(dv, cur as int, ids_at(dv, seen@), fuel as nat),
        decreases fuel,
    {
        if fuel == 0 {
            return None;
        }
        assert(dv[cur as int] == devices@[cur as int]@);
        if id_among(devices, &seen, cur) {
            return Some(ValidationError::NetworkLoop);
        }
        if devices[cur].parent.as_str().is_empty() {
            return None;
        }
        match find_device(devices, devices[cur].parent.as_str()) {
            None => {
                return Some(ValidationError::ParentNotFound);
            },
            Some(k) => {
                proof {
                    let ids = dv.map_values(|d: DeviceView| d.id);
                    ids.index_of_first_ensures(dv[cur as int].parent);
                }
                let ghost old_seen = seen@;
                seen.push(cur);
                assert(ids_at(dv, seen@) =~= ids_at(dv, old_seen).push(dv[cur as int].id));
                cur = k;
                fuel = fuel - 1;
            },
        }
    }
}

/// The rules for device `j`, given the recorded addresses of the devices before it.
#[verifier::loop_isolation(false)]
fn check_device(snapshot: &Snapshot, j: usize, ips: &Vec<Option<u32>>) -> (r: Result<Option<u32>, ValidationError>)
    requires
        j < snapshot.devices.len(),
        snapshot.devices.len() <= MAX_DEVICES,
        ips.len() == j,
        forall|k: int| 0 <= k < j ==> widen(#[trigger] ips@[k]) == recorded_ip(snapshot@.devices[k]),
        first_subnet_error(snapshot@, snapshot@.subnets.len()) is None,
    ensures
        r is Ok <==> device_error(snapshot@, j as int) is None,
        r matches Err(e) ==> device_error(snapshot@, j as int) == Some(e),
        r matches Ok(a) ==> widen(a) == recorded_ip(snapshot@.devices[j as int]),
{
    let ghost v = snapshot@;
    let d = &snapshot.devices[j];
    assert(v.devices[j as int] == d@);
    assert(forall|k: int| 0 <= k < j ==> #[trigger] v.devices[k] == snapshot.devices@[k]@);
    if !valid_id(d.id.as_str()) {
        return Err(ValidationError::InvalidDeviceId);
    }
    if device_id_repeated(&snapshot.devices, j) {
        proof {
            let k = choose|k: int| 0 <= k < j && #[trigger] snapshot.devices@[k].id@ == snapshot.devices@[j as int].id@;
            assert(v.devices[k] == snapshot.devices@[k]@);
            assert(v.devices[k].id == v.devices[j as int].id);
        }
        return Err(ValidationError::InvalidDeviceId);
    }
    if is_blank(d.name.as_str()) || byte_len(d.name.as_str()) > 100 {
        return Err(ValidationError::DeviceName);
    }
    if !is_device_kind_text(d.kind.as_str()) {
        return Err(ValidationError::InvalidDeviceType);
    }
    if !is_device_status_text(d.status.as_str()) {
        return Err(ValidationError::InvalidDeviceStatus);
    }
    if byte_len(d.model.as_str()) > 200 || byte_len(d.location.as_str()) > 200 || byte_len(
        d.firmware.as_str(),
    ) > 200 || byte_len(d.target.as_str()) > 200 || byte_len(d.notes.as_str()) > 4000 {
        return Err(ValidationError::FieldTooLong);
    }
    if !d.due.as_str().is_empty() && (byte_len(d.due.as_str()) != 10 || !chrono_date_parses(
        d.due.as_str(),
        DATE_FORMAT,
    )) {
        return Err(ValidationError::InvalidReminderDate);
    }
    let ip: Option<u32> = if d.ip.as_str().is_empty() {
        None
    } else {
        match parse_ipv4(d.ip.as_str()) {
            None => {
                return Err(ValidationError::InvalidIp);
            },
            Some(a) => {
                let mut k: usize = 0;
                while k < j
                    invariant
                        k <= j,
                        forall|t: int| 0 <= t < k ==> recorded_ip(#[trigger] v.devices[t]) != Some(a as nat),
                    decreases j - k,
                {
                    if ips[k] == Some(a) {
                        assert(recorded_ip(v.devices[k as int]) == Some(a as nat));
                        return Err(ValidationError::DuplicateIp);
                    }
                    k = k + 1;
                }
                Some(a)
            },
        }
    };
    if !d.subnet_id.as_str().is_empty() {
        match find_subnet(&snapshot.subnets, d.subnet_id.as_str()) {
            None => {
                return Err(ValidationError::SubnetNotFound);
            },
            Some(idx) => {
                proof {
                    let ids = v.subnets.map_values(|s: SubnetView| s.id);
                    ids.index_of_first_ensures(d.subnet_id@);
                    lemma_first_subnet_error_none(v, v.subnets.len(), idx as int);
                    assert(v.subnets[idx as int] == snapshot.subnets@[idx as int]@);
                }
                let net = match parse_cidr(snapshot.subnets[idx].cidr.as_str()) {
                    Some(n) => n,
                    None => {
                        return Err(ValidationError::InvalidCidr);
                    },
                };
                if let Some(a) = ip {
                    if !usable(net, a) {
                        return Err(ValidationError::IpNotUsable);
                    }
                }
            },
        }
    }
    match check_parent_chain(&snapshot.devices, j) {
        Some(e) => Err(e),
        None => Ok(ip),
    }
}

/// The device rules, device by device.
fn check_devices(snapshot: &Snapshot) -> (r: Result<(), ValidationError>)
    requires
        snapshot.devices.len() <= MAX_DEVICES,
        first_subnet_error(snapshot@, snapshot@.subnets.len()) is None,
    ensures
        r is Ok <==> first_device_error(snapshot@, snapshot@.devices.len()) is None,
        r matches Err(e) ==> first_device_error(snapshot@, snapshot@.devices.len()) == Some(e),
{
    let mut ips: Vec<Option<u32>> = Vec::new();
    let mut j: usize = 0;
    while j < snapshot.devices.len()
        invariant
            j <= snapshot.devices.len(),
            snapshot.devices.len() <= MAX_DEVICES,
            first_subnet_error(snapshot@, snapshot@.subnets.len()) is None,
            ips.len() == j,
            first_device_error(snapshot@, j as nat) is None,
            forall|k: int| 0 <= k < j ==> widen(#[trigger] ips@[k]) == recorded_ip(snapshot@.devices[k]),
        decreases snapshot.devices.len() - j,
    {
        match check_device(snapshot, j, &ips) {
            Err(e) => {
                assert(first_device_error(snapshot@, (j + 1) as nat) == Some(e));
                proof {
                    lemma_first_device_error_keeps(snapshot@, (j + 1) as nat, snapshot@.devices.len());
                }
                return Err(e);
            },
            Ok(a) => {
                ips.push(a);
            },
        }
        j = j + 1;
    }
    Ok(())
}

/// The host of a port record as bindings compare it: without surrounding
/// white space, in ASCII lower case.
fn binding_host(p: &ServicePort) -> (r: String)
    ensures
        r@ == port_binding(p@).0,
{
    let t = trimmed(p.host.as_str());
    ascii_lowercase(t.as_str())
}

/// The rules for port `i`, given the binding hosts of the ports before it.
#[verifier::loop_isolation(false)]
fn check_port(snapshot: &Snapshot, i: usize, hosts: &Vec<String>) -> (r: Result<String, ValidationError>)
    requires
        i < snapshot.ports.len(),
        hosts.len() == i,
        forall|k: int| 0 <= k < i ==> (#[trigger] hosts@[k])@ == port_binding(snapshot@.ports[k]).0,
    ensures
        r is Ok <==> port_error(snapshot@, i as int) is None,
        r matches Err(e) ==> port_error(snapshot@, i as int) == Some(e),
        r matches Ok(h) ==> h@ == port_binding(snapshot@.ports[i as int]).0,
{
    let ghost v = snapshot@;
    let p = &snapshot.ports[i];
    assert(v.ports[i as int] == p@);
    assert(forall|k: int| 0 <= k < i ==> #[trigger] v.ports[k] == snapshot.ports@[k]@);
    if !valid_id(p.id.as_str()) {
        return Err(ValidationError::InvalidPortId);
    }
    if port_id_repeated(&snapshot.ports, i) {
        proof {
            let k = choose|k: int| 0 <= k < i && #[trigger] snapshot.ports@[k].id@ == snapshot.ports@[i as int].id@;
            assert(v.ports[k] == snapshot.ports@[k]@);
            assert(v.ports[k].id == v.ports[i as int].id);
        }
        return Err(ValidationError::InvalidPortId);
    }
    if !is_protocol_text(p.protocol.as_str()) {
        return Err(ValidationError::InvalidProtocol);
    }
    if !is_access_level_text(p.access.as_str()) {
        return Err(ValidationError::InvalidAccess);
    }
    if !is_port_status_text(p.status.as_str()) {
        return Err(ValidationError::InvalidPortStatus);
    }
    if is_blank(p.host.as_str()) || byte_len(p.host.as_str()) > 100 || is_blank(p.service.as_str())
        || byte_len(p.service.as_str()) > 100 {
        return Err(ValidationError::HostServiceLength);
    }
    if byte_len(p.url.as_str()) > 500 || byte_len(p.notes.as_str()) > 4000 {
        return Err(ValidationError::FieldTooLong);
    }
    let host = binding_host(p);
    let mut k: usize = 0;
    while k < i
        invariant
            k <= i,
            forall|t: int| 0 <= t < k ==> port_binding(#[trigger] v.ports[t]) != port_binding(v.ports[i as int]),
        decreases i - k,
    {
        if str_eq(hosts[k].as_str(), host.as_str()) && snapshot.ports[k].port == p.port && str_eq(
            snapshot.ports[k].protocol.as_str(),
            p.protocol.as_str(),
        ) {
            assert(port_binding(v.ports[k as int]) == port_binding(v.ports[i as int]));
            return Err(ValidationError::DuplicateBinding);
        }
        k = k + 1;
    }
    Ok(host)
}

/// The port rules, port by port.
fn check_ports(snapshot: &Snapshot) -> (r: Result<(), ValidationError>)
    ensures
        r is Ok <==> first_port_error(snapshot@, snapshot@.ports.len()) is None,
        r matches Err(e) ==> first_port_error(snapshot@, snapshot@.ports.len()) == Some(e),
{
    let mut hosts: Vec<String> = Vec::new();
    let mut i: usize = 0;
    while i < snapshot.ports.len()
        invariant
            i <= snapshot.ports.len(),
            hosts.len() == i,
            first_port_error(snapshot@, i as nat) is None,
            forall|k: int| 0 <= k < i ==> (#[trigger] hosts@[k])@ == port_binding(snapshot@.ports[k]).0,
        decreases snapshot.ports.len() - i,
    {
        match check_port(snapshot, i, &hosts) {
            Err(e) => {
                assert(first_port_error(snapshot@, (i + 1) as nat) == Some(e));
                proof {
                    lemma_first_port_error_keeps(snapshot@, (i + 1) as nat, snapshot@.ports.len());
                }
                return Err(e);
            },
            Ok(h) => {
                hosts.push(h);
            },
        }
        i = i + 1;
    }
    Ok(())
}

/// Checks every rule of the inventory, in order: the schema version, the size
/// limits, then each subnet, each device and each port, and reports the first
/// rule broken.
pub fn validate(snapshot: &Snapshot) -> (r: Result<(), ValidationError>)
    ensures
        r == (match validation_error(snapshot@) {
            None => Ok(()),
            Some(e) => Err(e),
        }),
{
    if snapshot.schema_version != SCHEMA_VERSION {
        return Err(ValidationError::UnsupportedSchema);
    }
    if snapshot.devices.len() > MAX_DEVICES || snapshot.subnets.len() > MAX_SUBNETS
        || snapshot.ports.len() > MAX_PORTS {
        return Err(ValidationError::LimitReached);
    }
    match check_subnets(snapshot) {
        Err(e) => {
            return Err(e);
        },
        Ok(_) => {},
    }
    match check_devices(snapshot) {
        Err(e) => {
            return Err(e);
        },
        Ok(_) => {},
    }
    let r = check_ports(snapshot);
    assert(validation_error(snapshot@) == first_port_error(snapshot@, snapshot@.ports.len()));
    match r {
        Ok(_) => Ok(()),
        Err(e) => Err(e),
    }
}

/// Distinct ids, each the id of some device, are no more than the devices.
proof fn lemma_distinct_ids_bounded(devices: Seq<DeviceView>, seen: Seq<Seq<char>>)
    requires
        seen.no_duplicates(),
        forall|t: int| 0 <= t < seen.len() ==> devices.map_values(|d: DeviceView| d.id).contains(#[trigger] seen[t]),
    ensures
        seen.len() <= devices.len(),
{
    let ids = devices.map_values(|d: DeviceView| d.id);
    broadcast use vstd::seq_lib::seq_to_set_is_finite;
    seen.unique_seq_to_set();
    ids.lemma_cardinality_of_set();
    assert(seen.to_set().subset_of(ids.to_set())) by {
        assert forall|x: Seq<char>| seen.to_set().contains(x) implies ids.to_set().contains(x) by {
            let t = choose|t: int| 0 <= t < seen.len() && seen[t] == x;
            assert(ids.contains(seen[t]));
        }
    }
    vstd::set_lib::lemma_len_subset(seen.to_set(), ids.to_set());
}

/// The walk along parent links never runs out of fuel while its fuel and the
/// ids passed add up to more than the devices: more fuel changes nothing.
pub proof fn lemma_parent_walk_fuel(devices: Seq<DeviceView>, cur: int, seen: Seq<Seq<char>>, fuel: nat, extra: nat)
    requires
        0 <= cur < devices.len(),
        seen.no_duplicates(),
        forall|t: int| 0 <= t < seen.len() ==> devices.map_values(|d: DeviceView| d.id).contains(#[trigger] seen[t]),
        seen.len() + fuel > devices.len(),
    ensures
        parent_walk(devices, cur, seen, fuel) == parent_walk(devices, cur, seen, fuel + extra),
    decreases fuel,
{
    let ids = devices.map_values(|d: DeviceView| d.id);
    if fuel == 0 {
        lemma_distinct_ids_bounded(devices, seen);
    } else if seen.contains(devices[cur].id) {
    } else if devices[cur].parent.len() == 0 {
    } else {
        ids.index_of_first_ensures(devices[cur].parent);
        match device_index(devices, devices[cur].parent) {
            None => {},
            Some(k) => {
                let next = seen.push(devices[cur].id);
                assert(ids[cur] == devices[cur].id);
                assert forall|t: int| 0 <= t < next.len() implies ids.contains(#[trigger] next[t]) by {
                    if t < seen.len() {
                        assert(next[t] == seen[t]);
                    } else {
                        assert(ids[cur] == next[t]);
                    }
                }
                assert(next.no_duplicates()) by {
                    assert forall|a: int, b: int| 0 <= a < next.len() && 0 <= b < next.len() && a != b implies next[a] != next[b] by {
                        if a < seen.len() && b < seen.len() {
                        } else if a < seen.len() {
                            assert(seen.contains(seen[a]));
                        } else {
                            assert(seen.contains(seen[b]));
                        }
                    }
                }
                lemma_parent_walk_fuel(devices, k, next, (fuel - 1) as nat, extra);
                assert((fuel + extra - 1) as nat == (fuel - 1) as nat + extra);
            },
        }
    }
}

/// The walk from any device settles within the number of devices: giving it
/// more steps never changes what it finds.
pub proof fn lemma_parent_chain_settles(devices: Seq<DeviceView>, j: int, extra: nat)
    requires
        0 <= j < devices.len(),
    ensures
        parent_chain_error(devices, j) == parent_walk(devices, j, Seq::empty(), devices.len() + 1 + extra),
{
    lemma_parent_walk_fuel(devices, j, Seq::empty(), devices.len() + 1, extra);
}

} // verus!
