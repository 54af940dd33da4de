//! The inventory records, the stored snapshot, and their mathematical views.

use vstd::prelude::*;

verus! {

/// The schema version this build reads and writes.
pub const SCHEMA_VERSION: u32 = 1;

/// The administrator account.
#[derive(Clone, Debug)]
pub struct Credentials {
    pub username: String,
    pub password_hash: String,
}

/// A device of the lab.
#[derive(Clone, Debug)]
pub struct Device {
    pub id: String,
    pub name: String,
    pub model: String,
    /// The device type ("Router", "Server", ...).
    pub kind: String,
    pub ip: String,
    pub subnet_id: String,
    pub firmware: String,
    pub target: String,
    /// The id of the device this one is connected to, or empty.
    pub parent: String,
    /// The next firmware check date, `YYYY-MM-DD`, or empty.
    pub due: String,
    pub status: String,
    pub location: String,
    pub notes: String,
}

/// An IPv4 subnet of the address plan.
#[derive(Clone, Debug)]
pub struct Subnet {
    pub id: String,
    pub name: String,
    pub cidr: String,
    pub gateway: String,
    pub vlan: Option<u16>,
}

/// A port, service and access path recorded by hand.
#[derive(Clone, Debug)]
pub struct ServicePort {
    pub id: String,
    pub port: u16,
    pub protocol: String,
    pub host: String,
    pub service: String,
    pub access: String,
    pub url: String,
    pub status: String,
    pub notes: String,
}

/// Everything the database stores.
#[derive(Clone, Debug)]
pub struct Snapshot {
    pub schema_version: u32,
    pub credentials: Credentials,
    pub devices: Vec<Device>,
    pub subnets: Vec<Subnet>,
    pub ports: Vec<ServicePort>,
}

/// What the inventory API shows: the snapshot without the credentials.
#[derive(Clone, Debug)]
pub struct Inventory {
    pub devices: Vec<Device>,
    pub subnets: Vec<Subnet>,
    pub ports: Vec<ServicePort>,
}

pub struct CredentialsView {
    pub username: Seq<char>,
    pub password_hash: Seq<char>,
}

pub struct DeviceView {
    pub id: Seq<char>,
    pub name: Seq<char>,
    pub model: Seq<char>,
    pub kind: Seq<char>,
    pub ip: Seq<char>,
    pub subnet_id: Seq<char>,
    pub firmware: Seq<char>,
    pub target: Seq<char>,
    pub parent: Seq<char>,
    pub due: Seq<char>,
    pub status: Seq<char>,
    pub location: Seq<char>,
    pub notes: Seq<char>,
}

pub struct SubnetView {
    pub id: Seq<char>,
    pub name: Seq<char>,
    pub cidr: Seq<char>,
    pub gateway: Seq<char>,
    pub vlan: Option<u16>,
}

pub struct PortView {
    pub id: Seq<char>,
    pub port: u16,
    pub protocol: Seq<char>,
    pub host: Seq<char>,
    pub service: Seq<char>,
    pub access: Seq<char>,
    pub url: Seq<char>,
    pub status: Seq<char>,
    pub notes: Seq<char>,
}

pub struct SnapshotView {
    pub schema_version: u32,
    pub credentials: CredentialsView,
    pub devices: Seq<DeviceView>,
    pub subnets: Seq<SubnetView>,
    pub ports: Seq<PortView>,
}

pub struct InventoryView {
    pub devices: Seq<DeviceView>,
    pub subnets: Seq<SubnetView>,
    pub ports: Seq<PortView>,
}

impl View for Credentials {
    type V = CredentialsView;

    open spec fn view(&self) -> CredentialsView {
        CredentialsView { username: self.username@, password_hash: self.password_hash@ }
    }
}

impl View for Device {
    type V = DeviceView;

    open spec fn view(&self) -> DeviceView {
        DeviceView {
            id: self.id@,
            name: self.name@,
            model: self.model@,
            kind: self.kind@,
            ip: self.ip@,
            subnet_id: self.subnet_id@,
            firmware: self.firmware@,
            target: self.target@,
            parent: self.parent@,
            due: self.due@,
            status: self.status@,
            location: self.location@,
            notes: self.notes@,
        }
    }
}

impl View for Subnet {
    type V = SubnetView;

    open spec fn view(&self) -> SubnetView {
        SubnetView {
            id: self.id@,
            name: self.name@,
            cidr: self.cidr@,
            gateway: self.gateway@,
            vlan: self.vlan,
        }
    }
}

impl View for ServicePort {
    type V = PortView;

    open spec fn view(&self) -> PortView {
        PortView {
            id: self.id@,
            port: self.port,
            protocol: self.protocol@,
            host: self.host@,
            service: self.service@,
            access: self.access@,
            url: self.url@,
            status: self.status@,
            notes: self.notes@,
        }
    }
}

/// The views of a list of devices.
pub open spec fn devices_view(v: Seq<Device>) -> Seq<DeviceView> {
    v.map_values(|d: Device| d@)
}

/// The views of a list of subnets.
pub open spec fn subnets_view(v: Seq<Subnet>) -> Seq<SubnetView> {
    v.map_values(|s: Subnet| s@)
}

/// The views of a list of ports.
pub open spec fn ports_view(v: Seq<ServicePort>) -> Seq<PortView> {
    v.map_values(|p: ServicePort| p@)
}

impl View for Snapshot {
    type V = SnapshotView;

    open spec fn view(&self) -> SnapshotView {
        SnapshotView {
            schema_version: self.schema_version,
            credentials: self.credentials@,
            devices: devices_view(self.devices@),
            subnets: subnets_view(self.subnets@),
            ports: ports_view(self.ports@),
        }
    }
}

impl View for Inventory {
    type V = InventoryView;

    open spec fn view(&self) -> InventoryView {
        InventoryView {
            devices: devices_view(self.devices@),
            subnets: subnets_view(self.subnets@),
            ports: ports_view(self.ports@),
        }
    }
}

impl From<Snapshot> for Inventory {
    fn from(s: Snapshot) -> (r: Inventory) {
        Inventory { devices: s.devices, subnets: s.subnets, ports: s.ports }
    }
}

impl vstd::std_specs::convert::FromSpecImpl<Snapshot> for Inventory {
    open spec fn obeys_from_spec() -> bool {
        true
    }

    open spec fn from_spec(s: Snapshot) -> Inventory {
        Inventory { devices: s.devices, subnets: s.subnets, ports: s.ports }
    }
}

} // verus!
