use wg_profiles::invoke::{command_outcome, CmdResult};
use wg_profiles::status::{find_active, find_active_vpn, is_active, vpn_ip};

fn ran(success: bool, stdout: &str) -> CmdResult {
    CmdResult { success, stdout: String::from(stdout), stderr: String::new() }
}

#[test]
fn finds_the_first_active_profile_in_a_report() {
    let report = "interface: wg0-dpto\n  public key: abc\n  listening port: 51820\n";
    assert_eq!(find_active(report), Some(String::from("dpto")));
}

#[test]
fn reports_no_active_profile_without_a_matching_line() {
    let report = "interface: wg1\n  public key: abc\n";
    assert_eq!(find_active(report), None);
    assert_eq!(find_active(""), None);
}

#[test]
fn takes_the_first_of_several_active_profiles() {
    let report = "interface: wg0-alpha\n  peer: x\ninterface: wg0-beta\n  peer: y\n";
    assert_eq!(find_active(report), Some(String::from("alpha")));
}

#[test]
fn discovery_over_the_query_distinguishes_failure_from_nothing() {
    let found = find_active_vpn(Ok(ran(true, "interface: wg0-dpto\nrest\n")));
    assert_eq!(found, Ok(Some(String::from("dpto"))));
    let none = find_active_vpn(Ok(ran(true, "no tunnels\n")));
    assert_eq!(none, Ok(None));
    let failed_exit = find_active_vpn(Ok(ran(false, "interface: wg0-dpto\n")));
    assert_eq!(failed_exit, Ok(None));
    let not_run = find_active_vpn(Err(String::from("no such file")));
    assert_eq!(not_run, Err(String::from("Error al ejecutar wg show: no such file")));
}

#[test]
fn active_when_the_address_listing_shows_an_address() {
    let primary = Some(ran(true, "7: wg0-dpto: <POINTOPOINT>\n    inet 10.0.0.2/24 scope global\n"));
    assert!(is_active(&primary, &None));
}

#[test]
fn inactive_when_the_address_listing_shows_no_address() {
    let primary = Some(ran(true, "7: wg0-dpto: <POINTOPOINT>\n"));
    assert!(!is_active(&primary, &None));
    let empty = Some(ran(true, ""));
    assert!(!is_active(&empty, &None));
}

#[test]
fn secondary_strategy_decides_when_the_primary_fails() {
    let primary = Some(ran(false, ""));
    let secondary = Some(ran(true, "interface: wg0-dpto\n"));
    assert!(is_active(&primary, &secondary));
    let silent_secondary = Some(ran(true, ""));
    assert!(!is_active(&primary, &silent_secondary));
    let failed_secondary = Some(ran(false, "text"));
    assert!(!is_active(&primary, &failed_secondary));
}

#[test]
fn inactive_when_neither_strategy_is_available() {
    assert!(!is_active(&None, &None));
    assert!(!is_active(&Some(ran(false, "")), &None));
}

#[test]
fn extracts_the_tunnel_address_from_the_listing() {
    let out = "7: wg0-dpto: <POINTOPOINT,UP>\n    inet 192.168.100.105/32 scope global wg0-dpto\n";
    assert_eq!(vpn_ip(&Some(ran(true, out))), "192.168.100.105");
}

#[test]
fn skips_loopback_lines_when_extracting_the_address() {
    let out = "    inet 127.0.0.1/8 scope host lo\n    inet 10.1.2.3/24 scope global\n";
    assert_eq!(vpn_ip(&Some(ran(true, out))), "10.1.2.3");
}

#[test]
fn reports_not_connected_or_error_for_failed_address_queries() {
    assert_eq!(vpn_ip(&Some(ran(true, "no address lines\n"))), "No conectado");
    assert_eq!(vpn_ip(&Some(ran(false, ""))), "No conectado");
    assert_eq!(vpn_ip(&None), "Error");
}

#[test]
fn connect_outcome_surfaces_the_raw_streams() {
    let ok = command_outcome(Ok(CmdResult {
        success: true,
        stdout: String::from("[#] ip link add wg0-dpto type wireguard\n"),
        stderr: String::new(),
    }));
    assert_eq!(ok, Ok(String::from("[#] ip link add wg0-dpto type wireguard\n")));
    let failed = command_outcome(Ok(CmdResult {
        success: false,
        stdout: String::new(),
        stderr: String::from("wg-quick: `wg0-dpto' is not a WireGuard interface\n"),
    }));
    assert_eq!(failed, Err(String::from("wg-quick: `wg0-dpto' is not a WireGuard interface\n")));
    let not_run = command_outcome(Err(String::from("No such file or directory")));
    assert_eq!(not_run, Err(String::from("Error al ejecutar: No such file or directory")));
}
