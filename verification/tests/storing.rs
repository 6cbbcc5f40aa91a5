use wg_profiles::config::{check_complete, deactivate_dns};
use wg_profiles::store::{
    store_read, store_write, ElevationResult, StoreState, WriteFallbackReason, WriteOutcome,
};

#[test]
fn normalization_deactivates_the_dns_line() {
    let config = "[Interface]\nPrivateKey = abc\nDNS = 10.0.0.1\n";
    assert_eq!(
        deactivate_dns(config),
        "[Interface]\nPrivateKey = abc\n#DNS = 10.0.0.1\n"
    );
}

#[test]
fn normalization_leaves_other_text_alone() {
    let config = "[Interface]\nAddress = 10.0.0.2/24\n";
    assert_eq!(deactivate_dns(config), config);
    assert_eq!(deactivate_dns(""), "");
}

#[test]
fn normalization_replaces_every_occurrence_once() {
    assert_eq!(deactivate_dns("DNS = a\nDNS = b"), "#DNS = a\n#DNS = b");
    assert_eq!(deactivate_dns("#DNS = a"), "##DNS = a");
}

#[test]
fn normalization_needs_the_exact_assignment_shape() {
    assert_eq!(deactivate_dns("DNS=10.0.0.1\n"), "DNS=10.0.0.1\n");
    assert_eq!(deactivate_dns("dns = 10.0.0.1\n"), "dns = 10.0.0.1\n");
}

#[test]
fn write_then_read_returns_the_normalized_content() {
    let state = StoreState { privileged: None, staging: None };
    let content = "[Interface]\nDNS = 10.0.0.1\n";
    let (state2, outcome) = store_write(
        state,
        "wg0-dpto",
        content,
        true,
        Ok(()),
        ElevationResult::Copied,
    );
    match outcome {
        WriteOutcome::FullSuccess { path } => {
            assert_eq!(path, "/etc/wireguard/wg0-dpto.conf");
        }
        _ => panic!("expected full success"),
    }
    assert_eq!(store_read(state2), "[Interface]\n#DNS = 10.0.0.1\n");
}

#[test]
fn read_with_no_files_returns_the_empty_string() {
    let state = StoreState { privileged: None, staging: None };
    assert_eq!(store_read(state), "");
}

#[test]
fn read_prefers_the_privileged_copy() {
    let state = StoreState {
        privileged: Some(String::from("real")),
        staging: Some(String::from("draft")),
    };
    assert_eq!(store_read(state), "real");
    let staged_only = StoreState { privileged: None, staging: Some(String::from("draft")) };
    assert_eq!(store_read(staged_only), "draft");
}

#[test]
fn failed_elevated_copy_degrades_to_partial_success() {
    let state = StoreState { privileged: Some(String::from("old")), staging: None };
    let (state2, outcome) = store_write(
        state,
        "wg0-dpto",
        "new text",
        true,
        Ok(()),
        ElevationResult::CopyFailed,
    );
    match outcome {
        WriteOutcome::PartialSuccess { staged_path, reason } => {
            assert_eq!(staged_path, "/tmp/wg0-dpto.conf");
            assert!(matches!(reason, WriteFallbackReason::PrivilegedCopyFailed));
        }
        _ => panic!("expected partial success"),
    }
    assert_eq!(store_read(state2), "old");
}

#[test]
fn unavailable_elevation_degrades_to_partial_success() {
    let state = StoreState { privileged: None, staging: None };
    let (state2, outcome) = store_write(
        state,
        "wg0-casa",
        "draft",
        true,
        Ok(()),
        ElevationResult::NotInvocable,
    );
    match outcome {
        WriteOutcome::PartialSuccess { staged_path, reason } => {
            assert_eq!(staged_path, "/tmp/wg0-casa.conf");
            assert!(matches!(reason, WriteFallbackReason::ElevationUnavailable));
        }
        _ => panic!("expected partial success"),
    }
    assert_eq!(store_read(state2), "draft");
}

#[test]
fn failed_temporary_write_is_a_hard_failure() {
    let state = StoreState { privileged: None, staging: None };
    let (_, outcome) = store_write(
        state,
        "wg0-dpto",
        "draft",
        false,
        Err(String::from("permission denied")),
        ElevationResult::NotInvocable,
    );
    match outcome {
        WriteOutcome::HardFailure { error } => {
            assert_eq!(error, "permission denied");
        }
        _ => panic!("expected hard failure"),
    }
}

#[test]
fn completeness_rejects_blank_and_incomplete_configs() {
    assert!(!check_complete(""));
    assert!(!check_complete("   \n  \n"));
    assert!(!check_complete("PrivateKey = abc\nPublicKey = def\n"));
    assert!(!check_complete("PrivateKey = abc\nEndpoint = 1.2.3.4:51820\n"));
    assert!(!check_complete("PublicKey = def\nEndpoint = 1.2.3.4:51820\n"));
}

#[test]
fn completeness_rejects_placeholder_values() {
    let with_placeholder_key =
        "PrivateKey = abc\nPublicKey = SERVIDOR_PUBLIC_KEY_AQUI\nEndpoint = 1.2.3.4:51820\n";
    assert!(!check_complete(with_placeholder_key));
    let with_placeholder_endpoint =
        "PrivateKey = abc\nPublicKey = def\nEndpoint = x.x.x.x:51820\n";
    assert!(!check_complete(with_placeholder_endpoint));
}

#[test]
fn completeness_accepts_a_filled_config() {
    let config = "[Interface]\nPrivateKey = abc\n[Peer]\nPublicKey = def\nEndpoint = 1.2.3.4:51820\n";
    assert!(check_complete(config));
}

#[test]
fn completeness_needs_a_real_value_after_the_key() {
    assert!(!check_complete("PrivateKey =\nPublicKey = def\nEndpoint = 1.2.3.4:51820\n"));
}
