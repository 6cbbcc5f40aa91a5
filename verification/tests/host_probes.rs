use wg_profiles::host::{dns_servers, os_pretty_name, probe_text};
use wg_profiles::invoke::CmdResult;

fn ran(stdout: &str) -> Option<CmdResult> {
    Some(CmdResult { success: true, stdout: String::from(stdout), stderr: String::new() })
}

#[test]
fn probe_text_trims_and_falls_back() {
    assert_eq!(probe_text(&ran("myhost\n"), "Desconocido"), "myhost");
    assert_eq!(probe_text(&None, "Desconocido"), "Desconocido");
    assert_eq!(probe_text(&ran("  10.0.0.7 \n"), "Desconocida"), "10.0.0.7");
}

#[test]
fn os_pretty_name_strips_quotes() {
    assert_eq!(os_pretty_name(&ran("\"Debian GNU/Linux 12 (bookworm)\"\n")), "Debian GNU/Linux 12 (bookworm)");
    assert_eq!(os_pretty_name(&ran("Arch Linux\n")), "Arch Linux");
    assert_eq!(os_pretty_name(&None), "Desconocido");
}

#[test]
fn dns_servers_collects_and_joins_the_marked_lines() {
    let report = "Global\n         DNS Servers: 1.1.1.1\nLink 2 (eth0)\n         DNS Servers: 8.8.8.8\n";
    assert_eq!(dns_servers(&ran(report)), "1.1.1.1, 8.8.8.8");
}

#[test]
fn dns_servers_handles_empty_reports() {
    assert_eq!(dns_servers(&ran("Global\nno servers here\n")), "");
    assert_eq!(dns_servers(&None), "No disponible");
}
