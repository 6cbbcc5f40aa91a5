//! Profile identity: the mapping between a user-facing profile name and the
//! derived network-interface name, and the on-disk paths that belong to an
//! interface.

use vstd::prelude::*;

verus! {

/// The fixed prefix every profile interface name carries.
pub open spec fn iface_prefix() -> Seq<char> {
    "wg0-"@
}

/// The legacy profile name used when the caller names none.
pub open spec fn spec_default_profile() -> Seq<char> {
    "dpto"@
}

/// The profile name a request resolves to: the given one, or the fixed
/// legacy name when none is given.
pub open spec fn spec_resolve_name(name: Option<Seq<char>>) -> Seq<char> {
    match name {
        Some(n) => n,
        None => spec_default_profile(),
    }
}

/// Resolves an optional profile name, as [`spec_resolve_name`] describes.
pub fn resolve_name(name: Option<String>) -> (r: String)
    ensures
        r@ == spec_resolve_name(name.deep_view()),
{
    match name {
        Some(n) => n,
        None => String::from_str("dpto"),
    }
}

/// The interface name derived from a profile name: the fixed prefix
/// followed by the name.
pub open spec fn spec_interface_name(name: Seq<char>) -> Seq<char> {
    iface_prefix() + name
}

/// Derives the interface name, as [`spec_interface_name`] describes.
pub fn interface_name(name: &str) -> (r: String)
    ensures
        r@ == spec_interface_name(name@),
{
    let mut r = String::from_str("wg0-");
    r.append(name);
    r
}

/// The profile name recovered from an interface name: the part after the
/// fixed prefix, or nothing when the prefix is absent.
pub open spec fn spec_strip_interface_name(iface: Seq<char>) -> Option<Seq<char>> {
    if iface_prefix().is_prefix_of(iface) {
        Some(iface.skip(iface_prefix().len() as int))
    } else {
        None
    }
}

/// Recovers the profile name from an interface name, as
/// [`spec_strip_interface_name`] describes.
pub fn strip_interface_name(iface: &str) -> (r: Option<String>)
    ensures
        r.deep_view() == spec_strip_interface_name(iface@),
{
    if crate::text::starts_with(iface, "wg0-") {
        proof {
            reveal_strlit("wg0-");
        }
        let rest = iface.substring_char(4, iface.unicode_len());
        Some(String::from_str(rest))
    } else {
        None
    }
}

/// Derivation and stripping are inverse: stripping the prefix from the
/// interface name of any profile name recovers that name exactly.
pub proof fn lemma_interface_name_roundtrip(name: Seq<char>)
    ensures
        spec_strip_interface_name(spec_interface_name(name)) == Some(name),
{
    let iface = spec_interface_name(name);
    assert(iface_prefix() =~= iface.subrange(0, iface_prefix().len() as int));
    assert(iface.skip(iface_prefix().len() as int) =~= name);
}

/// Distinct profile names derive distinct interface names.
pub proof fn lemma_interface_name_injective(a: Seq<char>, b: Seq<char>)
    requires
        spec_interface_name(a) == spec_interface_name(b),
    ensures
        a == b,
{
    lemma_interface_name_roundtrip(a);
    lemma_interface_name_roundtrip(b);
}

/// The privileged configuration path of an interface.
pub open spec fn spec_config_path(iface: Seq<char>) -> Seq<char> {
    "/etc/wireguard/"@ + iface + ".conf"@
}

/// Builds the privileged configuration path, as [`spec_config_path`]
/// describes.
pub fn config_path(iface: &str) -> (r: String)
    ensures
        r@ == spec_config_path(iface@),
{
    let mut r = String::from_str("/etc/wireguard/");
    r.append(iface);
    r.append(".conf");
    proof {
        assert(r@ =~= spec_config_path(iface@));
    }
    r
}

/// The unprivileged staging path of an interface, always written as a
/// durable fallback copy.
pub open spec fn spec_staging_path(iface: Seq<char>) -> Seq<char> {
    "/tmp/"@ + iface + ".conf"@
}

/// Builds the staging path, as [`spec_staging_path`] describes.
pub fn staging_path(iface: &str) -> (r: String)
    ensures
        r@ == spec_staging_path(iface@),
{
    let mut r = String::from_str("/tmp/");
    r.append(iface);
    r.append(".conf");
    proof {
        assert(r@ =~= spec_staging_path(iface@));
    }
    r
}

/// The temporary path an interface's configuration is staged at before the
/// elevated copy into the privileged location.
pub open spec fn spec_temp_path(iface: Seq<char>) -> Seq<char> {
    "/tmp/"@ + iface + "-temp.conf"@
}

/// Builds the temporary path, as [`spec_temp_path`] describes.
pub fn temp_path(iface: &str) -> (r: String)
    ensures
        r@ == spec_temp_path(iface@),
{
    let mut r = String::from_str("/tmp/");
    r.append(iface);
    r.append("-temp.conf");
    proof {
        assert(r@ =~= spec_temp_path(iface@));
    }
    r
}

} // verus!
