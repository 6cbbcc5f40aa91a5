//! Host introspection text handling: the small parsers over the probe
//! commands' outputs — hostname-style trimmed one-liners, the quoted OS
//! pretty-name, and the resolver report's DNS server lines.

use vstd::prelude::*;
use crate::invoke::CmdResult;

verus! {

/// A probe that reports a trimmed one-line text, with a fixed fallback
/// when the probe could not run at all.
pub fn probe_text(query: &Option<CmdResult>, fallback: &str) -> (r: String)
    ensures
        (*query) matches Some(o) ==> r@ == crate::text::spec_trim(o.stdout@),
        (*query) is None ==> r@ == fallback@,
{
    match query {
        Some(o) => String::from_str(crate::text::trim(o.stdout.as_str())),
        None => String::from_str(fallback),
    }
}

/// `s` with every double-quote character removed.
pub open spec fn spec_remove_quotes(s: Seq<char>) -> Seq<char>
    decreases s.len(),
{
    if s.len() == 0 {
        Seq::empty()
    } else if s[0] == '"' {
        spec_remove_quotes(s.skip(1))
    } else {
        seq![s[0]] + spec_remove_quotes(s.skip(1))
    }
}

/// The OS pretty-name an `os-release` probe line yields: quotes removed,
/// whitespace trimmed.
pub open spec fn spec_os_pretty_name(out: Seq<char>) -> Seq<char> {
    crate::text::spec_trim(spec_remove_quotes(out))
}

/// Removes every double-quote character, as [`spec_remove_quotes`]
/// describes.
fn remove_quotes(s: &str) -> (r: String)
    ensures
        r@ == spec_remove_quotes(s@),
{
    let n = s.unicode_len();
    let mut out = String::new();
    let mut i: usize = 0;
    proof {
        assert(s@.skip(0) =~= s@);
    }
    while i < n
        invariant
            n == s@.len(),
            0 <= i <= n,
            spec_remove_quotes(s@) == out@ + spec_remove_quotes(s@.skip(i as int)),
        decreases n - i,
    {
        let ghost tail = s@.skip(i as int);
        let c = s.get_char(i);
        if c != '"' {
            let piece = s.substring_char(i, i + 1);
            out.append(piece);
        }
        i = i + 1;
        proof {
            assert(tail.skip(1) =~= s@.skip(i as int));
            if c != '"' {
                assert(spec_remove_quotes(tail) == seq![tail[0]] + spec_remove_quotes(
                    s@.skip(i as int),
                ));
                assert(out@ + spec_remove_quotes(s@.skip(i as int)) =~= spec_remove_quotes(s@));
            } else {
                assert(spec_remove_quotes(tail) == spec_remove_quotes(s@.skip(i as int)));
            }
        }
    }
    proof {
        assert(s@.skip(n as int) =~= Seq::<char>::empty());
        assert(out@ =~= out@ + Seq::<char>::empty());
    }
    out
}

/// What the OS probe reports: the cleaned pretty-name, or the fixed
/// fallback when the probe could not run.
pub fn os_pretty_name(query: &Option<CmdResult>) -> (r: String)
    ensures
        (*query) matches Some(o) ==> r@ == spec_os_pretty_name(o.stdout@),
        (*query) is None ==> r@ == "Desconocido"@,
{
    match query {
        Some(o) => {
            let cleaned = remove_quotes(o.stdout.as_str());
            String::from_str(crate::text::trim(cleaned.as_str()))
        },
        None => String::from_str("Desconocido"),
    }
}

/// The marker announcing a DNS server line in the resolver report.
pub open spec fn dns_marker() -> Seq<char> {
    "DNS Servers:"@
}

/// `s` with every occurrence of the DNS marker removed, scanning left to
/// right.
pub open spec fn spec_remove_marker(s: Seq<char>) -> Seq<char>
    decreases s.len(),
{
    if dns_marker().len() == 0 || s.len() < dns_marker().len() {
        s
    } else if s.take(dns_marker().len() as int) == dns_marker() {
        spec_remove_marker(s.skip(dns_marker().len() as int))
    } else {
        s.take(1) + spec_remove_marker(s.skip(1))
    }
}

/// Removes the DNS marker, as [`spec_remove_marker`] describes.
fn remove_marker(s: &str) -> (r: String)
    ensures
        r@ == spec_remove_marker(s@),
{
    let n = s.unicode_len();
    let mut out = String::new();
    let mut i: usize = 0;
    proof {
        reveal_strlit("DNS Servers:");
        assert(s@.skip(0) =~= s@);
    }
    while i < n
        invariant
            n == s@.len(),
            0 <= i <= n,
            dns_marker().len() == 12,
            spec_remove_marker(s@) == out@ + spec_remove_marker(s@.skip(i as int)),
        decreases n - i,
    {
        let ghost tail = s@.skip(i as int);
        if crate::text::match_at(s, "DNS Servers:", i) {
            i = i + 12;
            proof {
                assert(tail.take(12) =~= s@.subrange(i - 12, i as int));
                assert(tail.skip(12) =~= s@.skip(i as int));
                assert(spec_remove_marker(tail) == spec_remove_marker(s@.skip(i as int)));
            }
        } else {
            let piece = s.substring_char(i, i + 1);
            out.append(piece);
            i = i + 1;
            proof {
                assert(tail.skip(1) =~= s@.skip(i as int));
                assert(piece@ =~= tail.take(1));
                if tail.len() >= 12 {
                    assert(tail.take(12) =~= s@.subrange(i - 1, i - 1 + 12));
                    assert(tail.take(12) != dns_marker());
                    assert(spec_remove_marker(tail) == tail.take(1) + spec_remove_marker(
                        s@.skip(i as int),
                    ));
                } else {
                    assert(spec_remove_marker(tail) == tail);
                    assert(spec_remove_marker(s@.skip(i as int)) == s@.skip(i as int));
                    assert(tail =~= tail.take(1) + s@.skip(i as int));
                }
                assert(out@ + spec_remove_marker(s@.skip(i as int)) =~= spec_remove_marker(s@));
            }
        }
    }
    proof {
        assert(s@.skip(n as int) =~= Seq::<char>::empty());
        assert(out@ =~= out@ + Seq::<char>::empty());
    }
    out
}

/// Whether a report line announces DNS servers: ignoring leading
/// whitespace, it starts with the marker.
pub open spec fn spec_is_dns_line(line: Seq<char>) -> bool {
    dns_marker().is_prefix_of(crate::text::spec_trim_start(line))
}

/// The server text a DNS line yields: the line trimmed, the marker
/// removed, and the remainder trimmed again.
pub open spec fn spec_dns_entry(line: Seq<char>) -> Seq<char> {
    crate::text::spec_trim(spec_remove_marker(crate::text::spec_trim(line)))
}

/// The server texts of all DNS lines, in report order.
pub open spec fn spec_dns_entries(lines: Seq<Seq<char>>) -> Seq<Seq<char>>
    decreases lines.len(),
{
    if lines.len() == 0 {
        Seq::empty()
    } else {
        let rest = spec_dns_entries(lines.drop_first());
        if spec_is_dns_line(lines[0]) {
            seq![spec_dns_entry(lines[0])] + rest
        } else {
            rest
        }
    }
}

/// The continuation of a comma-separated join: a separator before each
/// remaining part.
pub open spec fn spec_join_rest(parts: Seq<Seq<char>>) -> Seq<char>
    decreases parts.len(),
{
    if parts.len() == 0 {
        Seq::empty()
    } else {
        ", "@ + parts[0] + spec_join_rest(parts.drop_first())
    }
}

/// The parts joined with a comma separator.
pub open spec fn spec_join_comma(parts: Seq<Seq<char>>) -> Seq<char> {
    if parts.len() == 0 {
        Seq::empty()
    } else {
        parts[0] + spec_join_rest(parts.drop_first())
    }
}

/// The whole DNS report a resolver probe yields.
pub open spec fn spec_dns_servers(out: Seq<char>) -> Seq<char> {
    spec_join_comma(spec_dns_entries(crate::text::spec_split_lines(out)))
}

/// Collects and joins the DNS server lines of a resolver report, as
/// [`spec_dns_servers`] describes; a probe that could not run reports a
/// fixed unavailable text.
pub fn dns_servers(query: &Option<CmdResult>) -> (r: String)
    ensures
        (*query) matches Some(o) ==> r@ == spec_dns_servers(o.stdout@),
        (*query) is None ==> r@ == "No disponible"@,
{
    match query {
        Some(o) => {
            let lines = crate::text::split_lines(o.stdout.as_str());
            let ghost lv = crate::text::spec_split_lines(o.stdout@);
            let ghost all = spec_dns_entries(lv);
            let mut parts: Vec<String> = Vec::new();
            let n = lines.len();
            let mut i: usize = 0;
            proof {
                assert(lv.skip(0) =~= lv);
                assert(parts.deep_view() + all =~~= all);
            }
            while i < n
                invariant
                    n == lines.len(),
                    0 <= i <= n,
                    (*query) matches Some(q) && lv == crate::text::spec_split_lines(q.stdout@),
                    all == spec_dns_entries(lv),
                    lines.deep_view() == lv,
                    all == parts.deep_view() + spec_dns_entries(lv.skip(i as int)),
                decreases n - i,
            {
                let ghost old_parts = parts.deep_view();
                let ghost tail = lv.skip(i as int);
                let line = &lines[i];
                assert(line@ == lv[i as int]);
                proof {
                    assert(tail[0] == lv[i as int]);
                    assert(tail.drop_first() =~= lv.skip(i + 1));
                }
                if crate::text::starts_with(crate::text::trim_start(line.as_str()), "DNS Servers:")
                {
                    let entry = remove_marker(crate::text::trim(line.as_str()));
                    let entry = String::from_str(crate::text::trim(entry.as_str()));
                    let ghost ev = entry@;
                    parts.push(entry);
                    proof {
                        assert(spec_dns_entries(tail) == seq![ev] + spec_dns_entries(
                            lv.skip(i + 1),
                        ));
                        assert(parts.deep_view() =~~= old_parts.push(ev));
                        assert(old_parts + (seq![ev] + spec_dns_entries(lv.skip(i + 1)))
                            =~~= parts.deep_view() + spec_dns_entries(lv.skip(i + 1)));
                    }
                } else {
                    proof {
                        assert(spec_dns_entries(tail) == spec_dns_entries(lv.skip(i + 1)));
                    }
                }
                i = i + 1;
            }
            proof {
                assert(lv.skip(n as int) =~= Seq::<Seq<char>>::empty());
                assert(parts.deep_view() + Seq::<Seq<char>>::empty() =~~= parts.deep_view());
                assert(all == parts.deep_view());
            }
            join_comma(parts)
        },
        None => String::from_str("No disponible"),
    }
}

/// Joins parts with a comma separator, as [`spec_join_comma`] describes.
fn join_comma(parts: Vec<String>) -> (r: String)
    ensures
        r@ == spec_join_comma(parts.deep_view()),
{
    let ghost pv = parts.deep_view();
    let n = parts.len();
    if n == 0 {
        return String::new();
    }
    let mut out = parts[0].clone();
    let mut i: usize = 1;
    proof {
        assert(pv.skip(1).len() == pv.len() - 1);
        assert(spec_join_comma(pv) == pv[0] + spec_join_rest(pv.drop_first()));
        assert(pv.drop_first() =~= pv.skip(1));
    }
    while i < n
        invariant
            n == parts.len(),
            1 <= i <= n,
            parts.deep_view() == pv,
            spec_join_comma(pv) == out@ + spec_join_rest(pv.skip(i as int)),
        decreases n - i,
    {
        let ghost tail = pv.skip(i as int);
        out.append(", ");
        out.append(parts[i].as_str());
        i = i + 1;
        proof {
            assert(tail[0] == pv[i - 1]);
            assert(tail.drop_first() =~= pv.skip(i as int));
            assert(spec_join_rest(tail) == ", "@ + pv[i - 1] + spec_join_rest(
                pv.skip(i as int),
            ));
            assert(out@ + spec_join_rest(pv.skip(i as int)) =~= spec_join_comma(pv));
        }
    }
    proof {
        assert(pv.skip(n as int).len() == 0);
        assert(pv.skip(n as int) =~= Seq::<Seq<char>>::empty());
        assert(spec_join_rest(Seq::<Seq<char>>::empty()) == Seq::<char>::empty());
        assert(out@ =~= out@ + Seq::<char>::empty());
    }
    out
}

} // verus!
