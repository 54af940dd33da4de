use homelab_manager::api::{initial_snapshot, restore_plan, valid_username, RestorePlan};
use homelab_manager::ident::{new_id, valid_id};
use homelab_manager::inventory::{
    change_password, prepare_device, prepare_port, prepare_subnet, remove_device, remove_port, remove_subnet,
    store_device, store_port, store_subnet, InventoryError,
};
use homelab_manager::ipv4::{overlaps, parse_cidr, parse_ipv4, usable, Ipv4Cidr};
use homelab_manager::model::{Credentials, Device, Inventory, ServicePort, Snapshot, Subnet};
use homelab_manager::validation::{validate, ValidationError};

fn s(x: &str) -> String {
    x.to_string()
}

fn snapshot() -> Snapshot {
    Snapshot {
        schema_version: 1,
        credentials: Credentials {
            username: s("admin"),
            password_hash: s("$argon2id$v=19$m=19456,t=2,p=1$c2FsdHNhbHQ$aGFzaA"),
        },
        devices: vec![],
        subnets: vec![],
        ports: vec![],
    }
}

fn device(id: &str, ip: &str, subnet: &str, parent: &str) -> Device {
    Device {
        id: s(id),
        name: s("lab-node"),
        model: s(""),
        kind: s("Server"),
        ip: s(ip),
        subnet_id: s(subnet),
        firmware: s(""),
        target: s(""),
        parent: s(parent),
        due: s(""),
        status: s("In service"),
        location: s(""),
        notes: s(""),
    }
}

fn subnet(id: &str, cidr: &str, gateway: &str, vlan: Option<u16>) -> Subnet {
    Subnet { id: s(id), name: s("Servers"), cidr: s(cidr), gateway: s(gateway), vlan }
}

fn service_port(id: &str, port: u16) -> ServicePort {
    ServicePort {
        id: s(id),
        port,
        protocol: s("TCP"),
        host: s("127.0.0.1"),
        service: s("Home Lab Manager"),
        access: s("Tailscale"),
        url: s(""),
        status: s("Active"),
        notes: s(""),
    }
}

fn net(text: &str) -> Ipv4Cidr {
    parse_cidr(text).unwrap()
}

fn ip(text: &str) -> u32 {
    parse_ipv4(text).unwrap()
}

#[test]
fn cidr_validation_and_atomic_rollback() {
    let mut current = snapshot();
    let n = new_id();
    current = store_subnet(current.clone(), Subnet {
        id: n.clone(),
        name: s("point to point"),
        cidr: s("10.0.0.0/31"),
        gateway: s("10.0.0.0"),
        vlan: Some(1),
    })
    .unwrap();
    for a in ["10.0.0.0", "10.0.0.1"] {
        current = store_device(current.clone(), device(&new_id(), a, &n, "")).unwrap();
    }
    let overlap = Subnet {
        id: new_id(),
        name: s("overlap"),
        cidr: s("10.0.0.0/24"),
        gateway: s(""),
        vlan: None,
    };
    assert_eq!(
        store_subnet(current.clone(), overlap).unwrap_err(),
        InventoryError::Invalid(ValidationError::SubnetOverlap)
    );
    let mut widened = current.subnets[0].clone();
    widened.cidr = s("10.0.0.1/24");
    assert_eq!(
        store_subnet(current.clone(), widened).unwrap_err(),
        InventoryError::Invalid(ValidationError::NotNetworkAddress { network: 0x0a00_0000, prefix: 24 })
    );
    let renamed = Subnet { name: s("renamed link"), ..current.subnets[0].clone() };
    let kept = store_subnet(current.clone(), renamed).unwrap();
    assert_eq!(kept.subnets.len(), 1);
    assert_eq!(kept.subnets[0].cidr, "10.0.0.0/31");
    assert!(!usable(net("10.0.3.80/28"), ip("10.0.3.95")));
    assert!(usable(net("10.0.0.1/32"), ip("10.0.0.1")));
}

#[test]
fn parent_deletion_detaches_children_and_cycles_rejected() {
    let a = new_id();
    let b = new_id();
    let mut current = snapshot();
    current = store_device(current, device(&a, "", "", "")).unwrap();
    current = store_device(current, device(&b, "", "", &a)).unwrap();
    assert_eq!(
        store_device(current.clone(), device(&a, "", "", &b)).unwrap_err(),
        InventoryError::Invalid(ValidationError::NetworkLoop)
    );
    let result = remove_device(current, &a).unwrap();
    assert_eq!(result.devices.len(), 1);
    assert_eq!(result.devices[0].id, b);
    assert_eq!(result.devices[0].parent, "");
}

#[test]
fn subnet_crud_duplicates_and_deletion_in_use() {
    let subnet_id = new_id();
    let id = new_id();
    let mut current = snapshot();
    current = store_subnet(current, subnet(&subnet_id, "10.0.3.80/28", "10.0.3.81", None)).unwrap();
    current = store_device(current, device(&id, "10.0.3.83", &subnet_id, "")).unwrap();
    let port = new_id();
    current = store_port(current, service_port(&port, 8088)).unwrap();
    assert_eq!(
        store_device(current.clone(), device(&new_id(), "10.0.3.83", &subnet_id, "")).unwrap_err(),
        InventoryError::Invalid(ValidationError::DuplicateIp)
    );
    assert_eq!(remove_subnet(current.clone(), &subnet_id).unwrap_err(), InventoryError::SubnetInUse);
    current = remove_device(current, &id).unwrap();
    current = remove_port(current, &port).unwrap();
    assert!(current.ports.is_empty());
    current = remove_subnet(current, &subnet_id).unwrap();
    assert!(current.subnets.is_empty());
    let inventory = Inventory::from(current);
    assert!(inventory.devices.is_empty());
}

#[test]
fn saving_replaces_record_with_same_id() {
    let id = new_id();
    let mut current = snapshot();
    current = store_device(current, device(&id, "", "", "")).unwrap();
    let mut renamed = device(&id, "", "", "");
    renamed.name = s("renamed");
    current = store_device(current, renamed).unwrap();
    assert_eq!(current.devices.len(), 1);
    assert_eq!(current.devices[0].name, "renamed");
}

#[test]
fn validation_reports_first_broken_rule() {
    let mut bad = snapshot();
    bad.schema_version = 2;
    assert_eq!(validate(&bad), Err(ValidationError::UnsupportedSchema));

    let base = snapshot();
    assert_eq!(validate(&base), Ok(()));

    let check = |d: Device| {
        let mut x = snapshot();
        x.devices.push(d);
        validate(&x)
    };
    let id = new_id();
    assert_eq!(check(device("not-a-uuid", "", "", "")), Err(ValidationError::InvalidDeviceId));
    let mut d = device(&id, "", "", "");
    d.name = s("   ");
    assert_eq!(check(d), Err(ValidationError::DeviceName));
    let mut d = device(&id, "", "", "");
    d.kind = s("Toaster");
    assert_eq!(check(d), Err(ValidationError::InvalidDeviceType));
    let mut d = device(&id, "", "", "");
    d.status = s("Broken");
    assert_eq!(check(d), Err(ValidationError::InvalidDeviceStatus));
    let mut d = device(&id, "", "", "");
    d.notes = "x".repeat(4001);
    assert_eq!(check(d), Err(ValidationError::FieldTooLong));
    let mut d = device(&id, "", "", "");
    d.due = s("2024-02-30");
    assert_eq!(check(d), Err(ValidationError::InvalidReminderDate));
    let mut d = device(&id, "", "", "");
    d.due = s("2024-02-29");
    assert_eq!(check(d), Ok(()));
    assert_eq!(check(device(&id, "10.0.0.256", "", "")), Err(ValidationError::InvalidIp));
    assert_eq!(check(device(&id, "010.0.0.1", "", "")), Err(ValidationError::InvalidIp));
    assert_eq!(check(device(&id, "", &new_id(), "")), Err(ValidationError::SubnetNotFound));
    assert_eq!(check(device(&id, "", "", &new_id())), Err(ValidationError::ParentNotFound));
    assert_eq!(check(device(&id, "", "", &id)), Err(ValidationError::NetworkLoop));

    let check_subnet = |n: Subnet| {
        let mut x = snapshot();
        x.subnets.push(n);
        validate(&x)
    };
    let n = new_id();
    assert_eq!(check_subnet(subnet(&n, "10.0.0.0/33", "", None)), Err(ValidationError::InvalidCidr));
    assert_eq!(
        check_subnet(subnet(&n, "10.0.0.1/24", "", None)),
        Err(ValidationError::NotNetworkAddress { network: ip("10.0.0.0"), prefix: 24 })
    );
    assert_eq!(check_subnet(subnet(&n, "10.0.0.0/24", "10.0.1.1", None)), Err(ValidationError::GatewayNotUsable));
    assert_eq!(check_subnet(subnet(&n, "10.0.0.0/24", "10.0.0.255", None)), Err(ValidationError::GatewayNotUsable));
    assert_eq!(check_subnet(subnet(&n, "10.0.0.0/24", "gateway", None)), Err(ValidationError::InvalidGateway));
    assert_eq!(check_subnet(subnet(&n, "10.0.0.0/24", "", Some(0))), Err(ValidationError::InvalidVlan));
    assert_eq!(check_subnet(subnet(&n, "10.0.0.0/24", "", Some(4095))), Err(ValidationError::InvalidVlan));
    assert_eq!(check_subnet(subnet(&n, "0.0.0.0/0", "10.0.0.1", Some(4094))), Ok(()));

    let check_port = |p: ServicePort| {
        let mut x = snapshot();
        x.ports.push(p);
        validate(&x)
    };
    let p = new_id();
    let mut q = service_port(&p, 22);
    q.protocol = s("SCTP");
    assert_eq!(check_port(q), Err(ValidationError::InvalidProtocol));
    let mut q = service_port(&p, 22);
    q.access = s("Everyone");
    assert_eq!(check_port(q), Err(ValidationError::InvalidAccess));
    let mut q = service_port(&p, 22);
    q.status = s("Gone");
    assert_eq!(check_port(q), Err(ValidationError::InvalidPortStatus));
    let mut q = service_port(&p, 22);
    q.service = s(" ");
    assert_eq!(check_port(q), Err(ValidationError::HostServiceLength));
    let mut q = service_port(&p, 22);
    q.url = "u".repeat(501);
    assert_eq!(check_port(q), Err(ValidationError::FieldTooLong));
    let mut x = snapshot();
    x.ports.push(service_port(&new_id(), 22));
    let mut twin = service_port(&new_id(), 22);
    twin.host = s(" 127.0.0.1 ");
    x.ports.push(twin);
    assert_eq!(validate(&x), Err(ValidationError::DuplicateBinding));
    let mut y = snapshot();
    let mut named = service_port(&new_id(), 443);
    named.host = s("NAS.Local");
    y.ports.push(named);
    let mut lower = service_port(&new_id(), 443);
    lower.host = s("nas.local");
    y.ports.push(lower);
    assert_eq!(validate(&y), Err(ValidationError::DuplicateBinding));
    let mut x = snapshot();
    x.ports.push(service_port(&p, 22));
    x.ports.push(service_port(&p, 23));
    assert_eq!(validate(&x), Err(ValidationError::InvalidPortId));
}

#[test]
fn limits_and_duplicate_subnet_ids() {
    let mut x = snapshot();
    for _ in 0..1001 {
        x.subnets.push(subnet("x", "", "", None));
    }
    assert_eq!(validate(&x), Err(ValidationError::LimitReached));
    let mut x = snapshot();
    let n = new_id();
    x.subnets.push(subnet(&n, "10.0.0.0/24", "", None));
    x.subnets.push(subnet(&n, "10.0.1.0/24", "", None));
    assert_eq!(validate(&x), Err(ValidationError::InvalidSubnetId));
    let mut x = snapshot();
    x.subnets.push(subnet(&new_id(), "10.0.0.0/16", "", None));
    x.subnets.push(subnet(&new_id(), "10.0.5.0/24", "", None));
    assert_eq!(validate(&x), Err(ValidationError::SubnetOverlap));
}

#[test]
fn ip_outside_subnet_is_refused() {
    let n = new_id();
    let mut x = snapshot();
    x.subnets.push(subnet(&n, "192.168.1.0/24", "", None));
    x.devices.push(device(&new_id(), "192.168.1.0", &n, ""));
    assert_eq!(validate(&x), Err(ValidationError::IpNotUsable));
    x.devices[0].ip = s("192.168.1.254");
    assert_eq!(validate(&x), Ok(()));
}

#[test]
fn ipv4_network_arithmetic() {
    let n = net("10.0.3.80/28");
    assert_eq!(n.network(), ip("10.0.3.80"));
    assert_eq!(n.broadcast(), ip("10.0.3.95"));
    assert!(usable(n, ip("10.0.3.81")));
    assert!(!usable(n, ip("10.0.3.80")));
    assert!(!usable(n, ip("10.0.3.96")));
    let p2p = net("10.0.0.0/31");
    assert!(usable(p2p, ip("10.0.0.0")) && usable(p2p, ip("10.0.0.1")));
    let all = net("0.0.0.0/0");
    assert_eq!(all.broadcast(), u32::MAX);
    assert!(!usable(all, 0));
    assert!(usable(all, 1));
    let host = net("10.1.2.3/7");
    assert_eq!(host.network(), ip("10.0.0.0"));
    assert_eq!(host.addr(), ip("10.1.2.3"));
    assert!(overlaps(net("10.0.0.0/8"), net("10.2.0.0/16")));
    assert!(!overlaps(net("10.0.0.0/24"), net("10.0.1.0/24")));
    assert!(Ipv4Cidr::new(1, 33).is_none());
    assert!(parse_cidr("10.0.0.0").is_none());
    assert!(parse_cidr("010.0.0.0/8").is_some());
    assert!(parse_ipv4("1.2.3.4.").is_none());
    assert_eq!(parse_ipv4("192.168.0.1"), Some(0xc0a8_0001));
}

#[test]
fn identifiers() {
    assert!(valid_id("936da01f-9abd-4d9d-80c7-02af85c822a8"));
    assert!(valid_id("936DA01F9ABD4D9D80C702AF85C822A8"));
    assert!(valid_id("{936da01f-9abd-4d9d-80c7-02af85c822a8}"));
    assert!(valid_id("URN:uuid:936da01f-9abd-4d9d-80c7-02af85c822a8"));
    assert!(!valid_id("936da01f-9abd-4d9d-80c7-02af85c822ag"));
    assert!(!valid_id(""));
    let id = new_id();
    assert_eq!(id.len(), 36);
    assert!(valid_id(&id));
    assert_ne!(new_id(), id);
    let b = id.as_bytes();
    assert_eq!(b[14], b'4');
    assert!(matches!(b[19], b'8' | b'9' | b'a' | b'b'));
    assert!(id.chars().all(|c| c == '-' || c.is_ascii_digit() || ('a'..='f').contains(&c)));
}

#[test]
fn prepared_records_are_trimmed_and_get_ids() {
    let d = prepare_device(device("", " 10.0.0.5 ", "", ""));
    assert!(valid_id(&d.id));
    assert_eq!(d.ip, "10.0.0.5");
    let mut named = device("keep", "", "", "");
    named.name = s("\t edge router \n");
    let d = prepare_device(named);
    assert_eq!(d.id, "keep");
    assert_eq!(d.name, "edge router");
    let n = prepare_subnet(subnet("", " 10.0.0.0/24 ", "", None));
    assert!(valid_id(&n.id));
    assert_eq!(n.cidr, "10.0.0.0/24");
    let mut p = service_port("", 53);
    p.protocol = s(" udp ");
    p.host = s(" dns ");
    let p = prepare_port(p);
    assert_eq!(p.protocol, "UDP");
    assert_eq!(p.host, "dns");
    assert!(valid_id(&p.id));
}

#[test]
fn init_and_restore_decisions() {
    assert!(valid_username("admin"));
    assert!(!valid_username("  "));
    assert!(!valid_username(&"a".repeat(101)));
    let x = initial_snapshot(s("admin"), s("hash"));
    assert_eq!(validate(&x), Ok(()));
    assert_eq!(x.schema_version, 1);
    assert_eq!(restore_plan(false, false), RestorePlan::Create);
    assert_eq!(restore_plan(true, true), RestorePlan::Replace);
    assert_eq!(restore_plan(true, false), RestorePlan::Refuse);
}

#[test]
fn password_change_keeps_the_inventory() {
    let mut base = snapshot();
    let subnet_id = new_id();
    base = store_subnet(base, subnet(&subnet_id, "10.0.0.0/24", "", None)).unwrap();
    base = store_device(base, device(&new_id(), "10.0.0.5", &subnet_id, "")).unwrap();
    let changed = change_password(base.clone(), s("$argon2id$v=19$new")).unwrap();
    assert_eq!(changed.credentials.password_hash, "$argon2id$v=19$new");
    assert_eq!(changed.credentials.username, "admin");
    assert_eq!(changed.devices.len(), 1);
    assert_eq!(changed.subnets.len(), 1);
    let mut broken = base;
    broken.schema_version = 2;
    assert!(matches!(
        change_password(broken, s("x")),
        Err(InventoryError::Invalid(ValidationError::UnsupportedSchema))
    ));
}

#[test]
fn acceptance_ignores_record_order() {
    let a = new_id();
    let b = new_id();
    let mut v = snapshot();
    v.subnets.push(subnet(&a, "10.1.0.0/24", "10.1.0.1", None));
    v.subnets.push(subnet(&b, "10.2.0.0/24", "", Some(20)));
    let parent = new_id();
    v.devices.push(device(&parent, "10.1.0.2", &a, ""));
    v.devices.push(device(&new_id(), "10.2.0.2", &b, &parent));
    assert!(validate(&v).is_ok());
    let mut w = v.clone();
    w.subnets.reverse();
    w.devices.reverse();
    assert!(validate(&w).is_ok());
    let mut bad = v.clone();
    bad.devices[1].ip = s("10.1.0.2");
    bad.devices[1].subnet_id = a.clone();
    assert!(validate(&bad).is_err());
    bad.devices.reverse();
    assert!(validate(&bad).is_err());
}
