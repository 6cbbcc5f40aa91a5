use wg_profiles::catalog::list_from_listing;
use wg_profiles::keys::{provision_decide, provision_finish, ProvisionDecision};

#[test]
fn lists_profile_names_sorted_ascending() {
    let listing = "wg0-zeta.conf\nwg0-alpha.conf\nother.txt\n";
    let names = list_from_listing(listing);
    assert_eq!(names, vec![String::from("alpha"), String::from("zeta")]);
}

#[test]
fn listing_ignores_foreign_entries() {
    let listing = "params\nwg0-dpto.conf\nwg1-x.conf\nwg0-notes.txt\nREADME\n";
    assert_eq!(list_from_listing(listing), vec![String::from("dpto")]);
}

#[test]
fn empty_listing_yields_no_profiles() {
    assert_eq!(list_from_listing(""), Vec::<String>::new());
    assert_eq!(list_from_listing("unrelated\n"), Vec::<String>::new());
}

#[test]
fn listing_keeps_duplicate_names_and_sorts_them_together() {
    let listing = "wg0-b.conf\nwg0-a.conf\nwg0-b.conf\n";
    assert_eq!(
        list_from_listing(listing),
        vec![String::from("a"), String::from("b"), String::from("b")]
    );
}

#[test]
fn cached_keys_are_reused_and_identical_across_calls() {
    let first = provision_decide(
        Some(String::from("privatekeytext\n")),
        Some(String::from("publickeytext\n")),
    );
    let second = provision_decide(
        Some(String::from("privatekeytext\n")),
        Some(String::from("publickeytext\n")),
    );
    match (first, second) {
        (
            ProvisionDecision::UseCached { private_key: p1, public_key: q1 },
            ProvisionDecision::UseCached { private_key: p2, public_key: q2 },
        ) => {
            assert_eq!(p1, "privatekeytext");
            assert_eq!(q1, "publickeytext");
            assert_eq!(p1, p2);
            assert_eq!(q1, q2);
        }
        _ => panic!("expected both decisions to reuse the cache"),
    }
}

#[test]
fn incomplete_cache_forces_generation() {
    assert!(matches!(
        provision_decide(Some(String::from("priv")), None),
        ProvisionDecision::Generate
    ));
    assert!(matches!(
        provision_decide(None, Some(String::from("pub"))),
        ProvisionDecision::Generate
    ));
    assert!(matches!(provision_decide(None, None), ProvisionDecision::Generate));
}

#[test]
fn generated_keys_are_trimmed() {
    let (private_key, public_key) = provision_finish("  abc\n", "def \n");
    assert_eq!(private_key, "abc");
    assert_eq!(public_key, "def");
}
