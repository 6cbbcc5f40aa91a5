use wg_profiles::profile::{config_path, interface_name, resolve_name, staging_path, strip_interface_name, temp_path};

#[test]
fn derives_interface_name_from_profile_name() {
    assert_eq!(interface_name("dpto"), "wg0-dpto");
    assert_eq!(interface_name(""), "wg0-");
}

#[test]
fn resolves_missing_name_to_legacy_default() {
    assert_eq!(resolve_name(None), "dpto");
    assert_eq!(resolve_name(Some(String::from("casa"))), "casa");
}

#[test]
fn stripping_the_prefix_recovers_the_name() {
    let iface = interface_name("casa");
    assert_eq!(strip_interface_name(iface.as_str()), Some(String::from("casa")));
    let iface2 = interface_name("dpto");
    assert_eq!(strip_interface_name(iface2.as_str()), Some(String::from("dpto")));
}

#[test]
fn stripping_rejects_foreign_interface_names() {
    assert_eq!(strip_interface_name("eth0"), None);
    assert_eq!(strip_interface_name("wg1-dpto"), None);
    assert_eq!(strip_interface_name("wg0"), None);
}

#[test]
fn paths_follow_the_interface_name() {
    assert_eq!(config_path("wg0-dpto"), "/etc/wireguard/wg0-dpto.conf");
    assert_eq!(staging_path("wg0-dpto"), "/tmp/wg0-dpto.conf");
    assert_eq!(temp_path("wg0-dpto"), "/tmp/wg0-dpto-temp.conf");
}
