//! Connection status: deciding whether an interface is active from the two
//! detection strategies' observed results, discovering the active profile
//! in the tunnel tool's global report, and extracting the tunnel address
//! from the live address listing.

use vstd::prelude::*;
use crate::invoke::CmdResult;

verus! {

/// What the secondary strategy (the tunnel tool's own single-interface
/// report) says: active exactly when the query ran, exited successfully
/// and printed something.
pub open spec fn spec_secondary_active(secondary: Option<CmdResult>) -> bool {
    match secondary {
        Some(s) => s.success && s.stdout@.len() > 0,
        None => false,
    }
}

/// Whether an interface is active: the primary strategy (the live address
/// listing) decides when it ran and exited successfully — active means
/// non-empty output with address evidence; otherwise the secondary
/// strategy decides; with neither available the interface counts as
/// inactive, never as an error.
pub open spec fn spec_is_active(primary: Option<CmdResult>, secondary: Option<CmdResult>) -> bool {
    match primary {
        Some(p) => if p.success {
            p.stdout@.len() > 0 && crate::text::spec_contains(p.stdout@, "inet"@)
        } else {
            spec_secondary_active(secondary)
        },
        None => spec_secondary_active(secondary),
    }
}

/// Decides connection status, as [`spec_is_active`] describes.
pub fn is_active(primary: &Option<CmdResult>, secondary: &Option<CmdResult>) -> (r: bool)
    ensures
        r == spec_is_active(*primary, *secondary),
{
    match primary {
        Some(p) => {
            if p.success {
                !p.stdout.as_str().is_empty() && crate::text::contains(p.stdout.as_str(), "inet")
            } else {
                secondary_active(secondary)
            }
        },
        None => secondary_active(secondary),
    }
}

/// Decides the secondary strategy, as [`spec_secondary_active`] describes.
fn secondary_active(secondary: &Option<CmdResult>) -> (r: bool)
    ensures
        r == spec_secondary_active(*secondary),
{
    match secondary {
        Some(s) => s.success && !s.stdout.as_str().is_empty(),
        None => false,
    }
}

/// The line prefix announcing an active interface in the tunnel tool's
/// global report, for interfaces that follow the profile naming scheme.
pub open spec fn active_line_prefix() -> Seq<char> {
    "interface: wg0-"@
}

/// The first profile name announced in the given report lines, with the
/// fixed prefix stripped; later announcements are ignored.
pub open spec fn spec_find_active_lines(lines: Seq<Seq<char>>) -> Option<Seq<char>>
    decreases lines.len(),
{
    if lines.len() == 0 {
        None
    } else if active_line_prefix().is_prefix_of(lines[0]) {
        Some(lines[0].skip(active_line_prefix().len() as int))
    } else {
        spec_find_active_lines(lines.drop_first())
    }
}

/// The first active profile name in a whole report.
pub open spec fn spec_find_active(report: Seq<char>) -> Option<Seq<char>> {
    spec_find_active_lines(crate::text::spec_split_lines(report))
}

/// Scans a report for the first active profile, as [`spec_find_active`]
/// describes.
pub fn find_active(report: &str) -> (r: Option<String>)
    ensures
        r.deep_view() == spec_find_active(report@),
{
    let lines = crate::text::split_lines(report);
    let ghost lv = crate::text::spec_split_lines(report@);
    let n = lines.len();
    let mut i: usize = 0;
    proof {
        assert(lv.skip(0) =~= lv);
    }
    while i < n
        invariant
            n == lines.len(),
            0 <= i <= n,
            lv == crate::text::spec_split_lines(report@),
            lines.deep_view() == lv,
            spec_find_active_lines(lv) == spec_find_active_lines(lv.skip(i as int)),
        decreases n - i,
    {
        let line = &lines[i];
        assert(line@ == lv[i as int]);
        if crate::text::starts_with(line.as_str(), "interface: wg0-") {
            proof {
                reveal_strlit("interface: wg0-");
                assert(lv.skip(i as int)[0] == lv[i as int]);
                assert(spec_find_active_lines(lv.skip(i as int)) == Some(
                    lv[i as int].skip(15),
                ));
            }
            let name = line.as_str().substring_char(15, line.as_str().unicode_len());
            return Some(String::from_str(name));
        }
        i = i + 1;
        proof {
            assert(lv.skip(i - 1).drop_first() =~= lv.skip(i as int));
        }
    }
    proof {
        assert(lv.skip(n as int) =~= Seq::<Seq<char>>::empty());
    }
    None
}

/// A report none of whose lines carries the active-interface prefix
/// yields no active profile.
pub proof fn lemma_find_active_none(lines: Seq<Seq<char>>)
    requires
        forall|i: int|
            0 <= i < lines.len() ==> !active_line_prefix().is_prefix_of(#[trigger] lines[i]),
    ensures
        spec_find_active_lines(lines) is None,
    decreases lines.len(),
{
    if lines.len() > 0 {
        assert(forall|i: int|
            0 <= i < lines.drop_first().len() ==> #[trigger] lines.drop_first()[i] == lines[
                i + 1
            ]);
        lemma_find_active_none(lines.drop_first());
    }
}

/// The first line carrying the active-interface prefix decides the
/// result: discovery returns that line's profile name, whatever follows.
pub proof fn lemma_find_active_first_match(lines: Seq<Seq<char>>, k: int)
    requires
        0 <= k < lines.len(),
        active_line_prefix().is_prefix_of(lines[k]),
        forall|i: int| 0 <= i < k ==> !active_line_prefix().is_prefix_of(#[trigger] lines[i]),
    ensures
        spec_find_active_lines(lines) == Some(
            lines[k].skip(active_line_prefix().len() as int),
        ),
    decreases k,
{
    if k > 0 {
        assert(forall|i: int|
            0 <= i < lines.drop_first().len() ==> #[trigger] lines.drop_first()[i] == lines[
                i + 1
            ]);
        lemma_find_active_first_match(lines.drop_first(), k - 1);
    }
}

/// The full discovery operation over the global report query: a query that
/// could not be run is a reported error; a query that ran is scanned, with
/// a failing exit read as no active profile.
pub fn find_active_vpn(query: Result<CmdResult, String>) -> (r: Result<Option<String>, String>)
    ensures
        query matches Ok(o) ==> ({
            &&& o.success ==> (r matches Ok(found) && found.deep_view() == spec_find_active(
                o.stdout@,
            ))
            &&& !o.success ==> (r matches Ok(found) && found is None)
        }),
        query matches Err(e) ==> (r matches Err(msg) && msg@ == "Error al ejecutar wg show: "@
            + e@),
{
    match query {
        Ok(o) => {
            if o.success {
                Ok(find_active(o.stdout.as_str()))
            } else {
                Ok(None)
            }
        },
        Err(e) => {
            let mut msg = String::from_str("Error al ejecutar wg show: ");
            msg.append(e.as_str());
            Err(msg)
        },
    }
}

/// The leading piece of `s` before its first `/`, or all of `s` when it
/// has none.
pub open spec fn spec_before_slash(s: Seq<char>) -> Seq<char>
    decreases s.len(),
{
    if s.len() == 0 || s[0] == '/' {
        Seq::empty()
    } else {
        seq![s[0]] + spec_before_slash(s.skip(1))
    }
}

proof fn lemma_before_slash_take(s: Seq<char>, k: int)
    requires
        0 <= k <= s.len(),
        forall|j: int| 0 <= j < k ==> s[j] != '/',
        k == s.len() || s[k] == '/',
    ensures
        spec_before_slash(s) == s.take(k),
    decreases k,
{
    if k == 0 {
        assert(s.take(0) =~= Seq::<char>::empty());
    } else {
        lemma_before_slash_take(s.skip(1), k - 1);
        assert(seq![s[0]] + s.skip(1).take(k - 1) =~= s.take(k));
    }
}

/// Cuts `s` at its first `/`, as [`spec_before_slash`] describes.
fn take_before_slash<'a>(s: &'a str) -> (r: &'a str)
    ensures
        r@ == spec_before_slash(s@),
{
    let n = s.unicode_len();
    let mut k: usize = 0;
    while k < n && s.get_char(k) != '/'
        invariant
            n == s@.len(),
            0 <= k <= n,
            forall|j: int| 0 <= j < k ==> s@[j] != '/',
        decreases n - k,
    {
        k = k + 1;
    }
    proof {
        lemma_before_slash_take(s@, k as int);
    }
    s.substring_char(0, k)
}

/// The tunnel address a single report line yields: a line that, trimmed,
/// starts with the address marker and does not mention the loopback
/// address yields its second whitespace token cut at the first `/`; a line
/// with no second token yields nothing.
pub open spec fn spec_vpn_ip_line(line: Seq<char>) -> Option<Seq<char>> {
    let t = crate::text::spec_trim(line);
    if "inet "@.is_prefix_of(t) && !crate::text::spec_contains(line, "127.0.0.1"@) {
        let tok = crate::text::spec_token(
            crate::text::spec_trim_start(t.skip("inet "@.len() as int)),
        );
        if tok.len() > 0 {
            Some(spec_before_slash(tok))
        } else {
            None
        }
    } else {
        None
    }
}

/// Extracts the address from one line, as [`spec_vpn_ip_line`] describes.
fn vpn_ip_line(line: &str) -> (r: Option<String>)
    ensures
        r.deep_view() == spec_vpn_ip_line(line@),
{
    let t = crate::text::trim(line);
    if crate::text::starts_with(t, "inet ") && !crate::text::contains(line, "127.0.0.1") {
        proof {
            reveal_strlit("inet ");
        }
        let after = t.substring_char(5, t.unicode_len());
        let tok = crate::text::take_token(crate::text::trim_start(after));
        if tok.unicode_len() > 0 {
            Some(String::from_str(take_before_slash(tok)))
        } else {
            None
        }
    } else {
        None
    }
}

/// The address the first yielding line gives, scanning in order.
pub open spec fn spec_find_ip_lines(lines: Seq<Seq<char>>) -> Option<Seq<char>>
    decreases lines.len(),
{
    if lines.len() == 0 {
        None
    } else if spec_vpn_ip_line(lines[0]) is Some {
        spec_vpn_ip_line(lines[0])
    } else {
        spec_find_ip_lines(lines.drop_first())
    }
}

/// What the address query reports: the extracted address on a successful
/// query with a yielding line; a fixed not-connected text when the query
/// ran without yielding one or exited with failure; a fixed error text
/// when the query could not be run.
pub open spec fn spec_vpn_ip(query: Option<CmdResult>) -> Seq<char> {
    match query {
        Some(o) => if o.success {
            match spec_find_ip_lines(crate::text::spec_split_lines(o.stdout@)) {
                Some(ip) => ip,
                None => "No conectado"@,
            }
        } else {
            "No conectado"@
        },
        None => "Error"@,
    }
}

/// Reports the tunnel address, as [`spec_vpn_ip`] describes.
pub fn vpn_ip(query: &Option<CmdResult>) -> (r: String)
    ensures
        r@ == spec_vpn_ip(*query),
{
    match query {
        Some(o) => {
            if o.success {
                let lines = crate::text::split_lines(o.stdout.as_str());
                let ghost lv = crate::text::spec_split_lines(o.stdout@);
                let n = lines.len();
                let mut i: usize = 0;
                proof {
                    assert(lv.skip(0) =~= lv);
                }
                while i < n
                    invariant
                        n == lines.len(),
                        0 <= i <= n,
                        (*query) matches Some(q) && q.success && lv
                            == crate::text::spec_split_lines(q.stdout@),
                        lines.deep_view() == lv,
                        spec_find_ip_lines(lv) == spec_find_ip_lines(lv.skip(i as int)),
                    decreases n - i,
                {
                    let line = &lines[i];
                    assert(line@ == lv[i as int]);
                    let found = vpn_ip_line(line.as_str());
                    if let Some(ip) = found {
                        proof {
                            assert(lv.skip(i as int)[0] == lv[i as int]);
                            assert(spec_find_ip_lines(lv.skip(i as int)) == spec_vpn_ip_line(
                                lv[i as int],
                            ));
                        }
                        return ip;
                    }
                    i = i + 1;
                    proof {
                        assert(lv.skip(i - 1).drop_first() =~= lv.skip(i as int));
                    }
                }
                proof {
                    assert(lv.skip(n as int) =~= Seq::<Seq<char>>::empty());
                }
                String::from_str("No conectado")
            } else {
                String::from_str("No conectado")
            }
        },
        None => String::from_str("Error"),
    }
}

} // verus!
