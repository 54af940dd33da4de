use homelab_manager::inventory::InventoryError;
use homelab_manager::validation::ValidationError;

#[test]
fn error_messages() {
    assert_eq!(
        ValidationError::NotNetworkAddress { network: 0x0a00_0300, prefix: 24 }.message(),
        "Use the network address in CIDR, e.g. 10.0.3.0/24"
    );
    assert_eq!(ValidationError::DuplicateIp.message(), "This IP address is already assigned");
    assert_eq!(ValidationError::SubnetName.message(), "Subnet name must contain 1–100 bytes");
    let e = InventoryError::SubnetInUse.to_api_error();
    assert_eq!(e.status, 400);
    assert_eq!(e.message, "Move assigned devices out of this subnet before deleting it");
    let e = InventoryError::Invalid(ValidationError::NetworkLoop).to_api_error();
    assert_eq!(e.message, "This connection creates a network loop");
}
