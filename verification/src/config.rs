//! Configuration text handling: the mandatory normalization that
//! deactivates a `DNS =` assignment before the text is persisted, and the
//! syntactic completeness check over the three required fields.

use vstd::prelude::*;

verus! {

/// The assignment prefix that normalization deactivates.
pub open spec fn dns_pat() -> Seq<char> {
    "DNS ="@
}

/// `s` with every occurrence of the `DNS =` assignment text deactivated by
/// a leading comment mark, scanning left to right without rescanning the
/// replacement.
pub open spec fn spec_deactivate_dns(s: Seq<char>) -> Seq<char>
    decreases s.len(),
{
    if dns_pat().len() == 0 || s.len() < dns_pat().len() {
        s
    } else if s.take(dns_pat().len() as int) == dns_pat() {
        "#"@ + dns_pat() + spec_deactivate_dns(s.skip(dns_pat().len() as int))
    } else {
        s.take(1) + spec_deactivate_dns(s.skip(1))
    }
}

/// Normalizes configuration text, as [`spec_deactivate_dns`] describes.
pub fn deactivate_dns(s: &str) -> (r: String)
    ensures
        r@ == spec_deactivate_dns(s@),
{
    let n = s.unicode_len();
    let mut out = String::new();
    let mut i: usize = 0;
    proof {
        reveal_strlit("DNS =");
        reveal_strlit("#");
        reveal_strlit("#DNS =");
        assert(s@.skip(0) =~= s@);
    }
    while i < n
        invariant
            n == s@.len(),
            0 <= i <= n,
            dns_pat().len() == 5,
            "#DNS ="@ == "#"@ + dns_pat(),
            spec_deactivate_dns(s@) == out@ + spec_deactivate_dns(s@.skip(i as int)),
        decreases n - i,
    {
        let ghost tail = s@.skip(i as int);
        if crate::text::match_at(s, "DNS =", i) {
            out.append("#DNS =");
            i = i + 5;
            proof {
                assert(tail.take(5) =~= s@.subrange(i - 5, i as int));
                assert(tail.skip(5) =~= s@.skip(i as int));
                assert(spec_deactivate_dns(tail) == "#"@ + dns_pat() + spec_deactivate_dns(
                    s@.skip(i as int),
                ));
                assert(out@ + spec_deactivate_dns(s@.skip(i as int)) =~= spec_deactivate_dns(s@));
            }
        } else {
            let piece = s.substring_char(i, i + 1);
            out.append(piece);
            i = i + 1;
            proof {
                assert(tail.skip(1) =~= s@.skip(i as int));
                assert(piece@ =~= tail.take(1));
                if tail.len() >= 5 {
                    assert(tail.take(5) =~= s@.subrange(i - 1, i - 1 + 5));
                    assert(tail.take(5) != dns_pat());
                    assert(spec_deactivate_dns(tail) == tail.take(1) + spec_deactivate_dns(
                        s@.skip(i as int),
                    ));
                } else {
                    assert(spec_deactivate_dns(tail) == tail);
                    assert(spec_deactivate_dns(s@.skip(i as int)) == s@.skip(i as int));
                    assert(tail =~= tail.take(1) + s@.skip(i as int));
                }
                assert(out@ + spec_deactivate_dns(s@.skip(i as int)) =~= spec_deactivate_dns(s@));
            }
        }
    }
    proof {
        assert(s@.skip(n as int) =~= Seq::<char>::empty());
        assert(spec_deactivate_dns(Seq::<char>::empty()) == Seq::<char>::empty());
        assert(out@ =~= out@ + Seq::<char>::empty());
    }
    out
}

proof fn lemma_deactivate_prefix_verbatim(t: Seq<char>, u: Seq<char>)
    requires
        forall|j: int| 0 <= j < u.len() ==> u[j] != '#',
        u.len() <= spec_deactivate_dns(t).len(),
        spec_deactivate_dns(t).take(u.len() as int) == u,
    ensures
        u.len() <= t.len(),
        t.take(u.len() as int) == u,
    decreases u.len(),
{
    reveal_strlit("DNS =");
    reveal_strlit("#");
    let d = spec_deactivate_dns(t);
    if u.len() == 0 {
        assert(t.take(0) =~= u);
    } else if t.len() < dns_pat().len() {
        assert(d == t);
        assert(t.take(u.len() as int) == u);
    } else if t.take(dns_pat().len() as int) == dns_pat() {
        assert(d[0] == '#');
        assert(u[0] == d.take(u.len() as int)[0]);
        assert(false);
    } else {
        let rest = spec_deactivate_dns(t.skip(1));
        assert(d == t.take(1) + rest);
        assert(d[0] == t[0]);
        assert(u[0] == d.take(u.len() as int)[0]);
        assert(rest.take(u.len() - 1) =~= u.drop_first()) by {
            assert forall|j: int| 0 <= j < u.len() - 1 implies rest.take(u.len() - 1)[j]
                == u.drop_first()[j] by {
                assert(rest[j] == d[j + 1]);
                assert(d[j + 1] == d.take(u.len() as int)[j + 1]);
            }
        }
        assert(forall|j: int| 0 <= j < u.drop_first().len() ==> u.drop_first()[j] == u[j + 1]);
        lemma_deactivate_prefix_verbatim(t.skip(1), u.drop_first());
        assert(t.take(u.len() as int) =~= u) by {
            assert forall|j: int| 0 <= j < u.len() implies t.take(u.len() as int)[j] == u[j] by {
                if j >= 1 {
                    assert(t[j] == t.skip(1)[j - 1]);
                    assert(t.skip(1)[j - 1] == t.skip(1).take(u.len() - 1)[j - 1]);
                }
            }
        }
    }
}

/// Normalization really deactivates: wherever the assignment text occurs
/// in normalized output, a comment mark stands right before it.
pub proof fn lemma_deactivate_dns_deactivates(s: Seq<char>)
    ensures
        forall|i: int|
            #[trigger] crate::text::matches_at(spec_deactivate_dns(s), dns_pat(), i) ==> i >= 1
                && spec_deactivate_dns(s)[i - 1] == '#',
    decreases s.len(),
{
    reveal_strlit("DNS =");
    reveal_strlit("#");
    let out = spec_deactivate_dns(s);
    let pat = dns_pat();
    if s.len() < pat.len() {
        assert(out == s);
    } else if s.take(pat.len() as int) == pat {
        lemma_deactivate_dns_deactivates(s.skip(5));
        let rest = spec_deactivate_dns(s.skip(5));
        assert(out == "#"@ + pat + rest);
        assert(out.len() == 6 + rest.len());
        assert forall|i: int| crate::text::matches_at(out, pat, i) implies i >= 1 && out[i - 1]
            == '#' by {
            assert(out.subrange(i, i + 5) =~= pat);
            assert(out[i] == out.subrange(i, i + 5)[0]);
            if i == 0 {
                assert(out[0] == '#' && pat[0] == 'D');
                assert(false);
            } else if i == 1 {
                assert(out[0] == '#');
            } else if i <= 5 {
                assert(out[i] == pat[i - 1]);
                assert(pat[0] == 'D');
                assert(false);
            } else {
                assert(rest.subrange(i - 6, i - 1) =~= out.subrange(i, i + 5)) by {
                    assert(forall|j: int|
                        0 <= j < rest.len() ==> #[trigger] rest[j] == out[j + 6]);
                }
                assert(crate::text::matches_at(rest, pat, i - 6));
                assert(i - 6 >= 1 && rest[i - 7] == '#');
                assert(out[i - 1] == rest[i - 7]);
            }
        }
    } else {
        lemma_deactivate_dns_deactivates(s.skip(1));
        let rest = spec_deactivate_dns(s.skip(1));
        assert(out == s.take(1) + rest);
        assert(out.len() == 1 + rest.len());
        assert(out[0] == s[0]);
        assert forall|i: int| crate::text::matches_at(out, pat, i) implies i >= 1 && out[i - 1]
            == '#' by {
            assert(out.subrange(i, i + 5) =~= pat);
            if i == 0 {
                assert(s[0] == out.subrange(0, 5)[0]);
                assert(s[0] == pat[0]);
                assert(rest.take(4) =~= pat.drop_first()) by {
                    assert forall|j: int| 0 <= j < 4 implies rest.take(4)[j]
                        == pat.drop_first()[j] by {
                        assert(rest[j] == out[j + 1]);
                        assert(out[j + 1] == out.subrange(0, 5)[j + 1]);
                    }
                }
                assert(forall|j: int| 0 <= j < 4 ==> #[trigger] pat.drop_first()[j] != '#');
                lemma_deactivate_prefix_verbatim(s.skip(1), pat.drop_first());
                assert(s.take(5) =~= pat) by {
                    assert forall|j: int| 0 <= j < 5 implies s.take(5)[j] == pat[j] by {
                        if j >= 1 {
                            assert(s[j] == s.skip(1)[j - 1]);
                            assert(s.skip(1)[j - 1] == s.skip(1).take(4)[j - 1]);
                            assert(pat[j] == pat.drop_first()[j - 1]);
                        }
                    }
                }
                assert(false);
            } else {
                assert(rest.subrange(i - 1, i + 4) =~= out.subrange(i, i + 5)) by {
                    assert(forall|j: int|
                        0 <= j < rest.len() ==> #[trigger] rest[j] == out[j + 1]);
                }
                assert(crate::text::matches_at(rest, pat, i - 1));
                assert(i - 1 >= 1 && rest[i - 2] == '#');
                assert(out[i - 1] == rest[i - 2]);
            }
        }
    }
}

/// A line carries the given field with some value: trimmed, it starts with
/// the `Key =` text and holds at least two further characters.
pub open spec fn spec_field_filled(line: Seq<char>, key_pat: Seq<char>) -> bool {
    &&& key_pat.is_prefix_of(crate::text::spec_trim(line))
    &&& crate::text::spec_trim(line).len() > key_pat.len() + 1
}

/// The placeholder a configuration template leaves for the server's public
/// key until the user fills it in.
pub open spec fn public_key_placeholder() -> Seq<char> {
    "SERVIDOR_PUBLIC_KEY_AQUI"@
}

/// The placeholder a configuration template leaves for the endpoint.
pub open spec fn endpoint_placeholder() -> Seq<char> {
    "x.x.x.x:51820"@
}

/// A line fills the private-key field.
pub open spec fn spec_private_key_line(line: Seq<char>) -> bool {
    spec_field_filled(line, "PrivateKey ="@)
}

/// A line fills the public-key field with a value other than the template
/// placeholder.
pub open spec fn spec_public_key_line(line: Seq<char>) -> bool {
    &&& spec_field_filled(line, "PublicKey ="@)
    &&& !crate::text::spec_contains(line, public_key_placeholder())
}

/// A line fills the endpoint field with a value other than the template
/// placeholder.
pub open spec fn spec_endpoint_line(line: Seq<char>) -> bool {
    &&& spec_field_filled(line, "Endpoint ="@)
    &&& !crate::text::spec_contains(line, endpoint_placeholder())
}

/// A configuration is syntactically complete: not blank, and some line
/// fills each of the three required fields with a non-placeholder value.
pub open spec fn spec_check_complete(s: Seq<char>) -> bool {
    let lines = crate::text::spec_split_lines(s);
    &&& crate::text::spec_trim(s).len() > 0
    &&& exists|i: int| 0 <= i < lines.len() && spec_private_key_line(#[trigger] lines[i])
    &&& exists|i: int| 0 <= i < lines.len() && spec_public_key_line(#[trigger] lines[i])
    &&& exists|i: int| 0 <= i < lines.len() && spec_endpoint_line(#[trigger] lines[i])
}

/// Checks one line for one field, with the placeholder rejection used for
/// the public-key and endpoint fields.
fn field_filled(line: &str, key_pat: &str) -> (r: bool)
    ensures
        r == spec_field_filled(line@, key_pat@),
{
    let t = crate::text::trim(line);
    if crate::text::starts_with(t, key_pat) {
        t.unicode_len() - key_pat.unicode_len() > 1
    } else {
        false
    }
}

/// Checks configuration text for completeness, as [`spec_check_complete`]
/// describes: true only when a non-placeholder `PrivateKey`, `PublicKey`
/// and `Endpoint` are all present.
pub fn check_complete(config: &str) -> (r: bool)
    ensures
        r == spec_check_complete(config@),
{
    let trimmed = crate::text::trim(config);
    if trimmed.is_empty() {
        return false;
    }
    let lines = crate::text::split_lines(config);
    let ghost lv = crate::text::spec_split_lines(config@);
    let mut has_private: bool = false;
    let mut has_public: bool = false;
    let mut has_endpoint: bool = false;
    let n = lines.len();
    let mut i: usize = 0;
    while i < n
        invariant
            n == lines.len(),
            0 <= i <= n,
            lines.deep_view() == lv,
            has_private == exists|j: int|
                0 <= j < i && spec_private_key_line(#[trigger] lv[j]),
            has_public == exists|j: int| 0 <= j < i && spec_public_key_line(#[trigger] lv[j]),
            has_endpoint == exists|j: int| 0 <= j < i && spec_endpoint_line(#[trigger] lv[j]),
        decreases n - i,
    {
        let line = &lines[i];
        assert(line@ == lv[i as int]);
        if !has_private && field_filled(line.as_str(), "PrivateKey =") {
            has_private = true;
        }
        if !has_public {
            if field_filled(line.as_str(), "PublicKey =") {
                if !crate::text::contains(line.as_str(), "SERVIDOR_PUBLIC_KEY_AQUI") {
                    has_public = true;
                }
            }
        }
        if !has_endpoint {
            if field_filled(line.as_str(), "Endpoint =") {
                if !crate::text::contains(line.as_str(), "x.x.x.x:51820") {
                    has_endpoint = true;
                }
            }
        }
        i = i + 1;
    }
    has_private && has_public && has_endpoint
}

} // verus!
