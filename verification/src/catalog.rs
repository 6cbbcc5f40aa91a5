//! The profile catalog: extracting profile names from a listing of the
//! privileged configuration directory and returning them sorted ascending.

use vstd::prelude::*;
use vstd::relations::sorted_by;
use vstd::seq_lib::lemma_multiset_commutative;
use vstd::seq_lib::lemma_sorted_unique;

verus! {

broadcast use {vstd::multiset::group_multiset_axioms, vstd::seq_lib::group_to_multiset_ensures};

/// The profile name a single listing line yields: trimmed, an entry of the
/// form prefix + name + `.conf` yields the name, anything else nothing.
pub open spec fn spec_entry_name(line: Seq<char>) -> Option<Seq<char>> {
    let t = crate::text::spec_trim(line);
    if "wg0-"@.is_prefix_of(t) && ".conf"@.is_suffix_of(t) && t.len() >= "wg0-"@.len()
        + ".conf"@.len() {
        Some(t.subrange("wg0-"@.len() as int, t.len() - ".conf"@.len()))
    } else {
        None
    }
}

/// The names the listing lines yield, in listing order.
pub open spec fn spec_catalog_names(lines: Seq<Seq<char>>) -> Seq<Seq<char>>
    decreases lines.len(),
{
    if lines.len() == 0 {
        Seq::empty()
    } else {
        let rest = spec_catalog_names(lines.drop_first());
        match spec_entry_name(lines[0]) {
            Some(n) => seq![n] + rest,
            None => rest,
        }
    }
}

/// The catalog a listing yields: its profile names, sorted ascending.
pub open spec fn spec_list_available(listing: Seq<char>) -> Seq<Seq<char>> {
    spec_catalog_names(crate::text::spec_split_lines(listing)).sort_by(crate::text::lex_leq())
}

/// Extracts the profile name from one listing line, as [`spec_entry_name`]
/// describes.
fn entry_name(line: &str) -> (r: Option<String>)
    ensures
        r.deep_view() == spec_entry_name(line@),
{
    let t = crate::text::trim(line);
    if crate::text::starts_with(t, "wg0-") && crate::text::ends_with(t, ".conf") {
        proof {
            reveal_strlit("wg0-");
            reveal_strlit(".conf");
        }
        if t.unicode_len() >= 9 {
            let name = t.substring_char(4, t.unicode_len() - 5);
            Some(String::from_str(name))
        } else {
            None
        }
    } else {
        None
    }
}

/// Inserts `x` into an ascending vector, keeping it ascending; the
/// contents change exactly by the one insertion.
fn insert_sorted(v: &mut Vec<String>, x: String)
    requires
        sorted_by(old(v).deep_view(), crate::text::lex_leq()),
    ensures
        sorted_by(final(v).deep_view(), crate::text::lex_leq()),
        final(v).deep_view().to_multiset() == old(v).deep_view().to_multiset().insert(x@),
{
    let ghost dv0 = v.deep_view();
    let ghost leq = crate::text::lex_leq();
    let n = v.len();
    let mut k: usize = 0;
    while k < n && crate::text::str_le(v[k].as_str(), x.as_str())
        invariant
            n == v.len(),
            v.deep_view() == dv0,
            0 <= k <= n,
            forall|j: int| 0 <= j < k ==> crate::text::lex_le(#[trigger] dv0[j], x@),
        decreases n - k,
    {
        k = k + 1;
    }
    proof {
        if k < n {
            crate::text::lemma_lex_le_total(dv0[k as int], x@);
        }
    }
    let ghost xv = x@;
    v.insert(k, x);
    proof {
        let dv1 = v.deep_view();
        assert(dv1 =~~= dv0.take(k as int).push(xv) + dv0.skip(k as int));
        assert forall|i: int, j: int| 0 <= i < j < dv1.len() implies leq(dv1[i], dv1[j]) by {
            if j < k {
                assert(leq(dv0[i], dv0[j]));
            } else if j == k {
                assert(crate::text::lex_le(dv0[i], xv));
            } else if i < k {
                assert(leq(dv0[i], dv0[j - 1]));
            } else if i == k {
                assert(crate::text::lex_le(xv, dv0[k as int]));
                if j - 1 > k {
                    assert(leq(dv0[k as int], dv0[j - 1]));
                    crate::text::lemma_lex_le_trans(xv, dv0[k as int], dv0[j - 1]);
                }
            } else {
                assert(leq(dv0[i - 1], dv0[j - 1]));
            }
        }
        let pre = dv0.take(k as int);
        let post = dv0.skip(k as int);
        lemma_multiset_commutative(pre.push(xv), post);
        lemma_multiset_commutative(pre, post);
        assert(pre + post =~= dv0);
        assert(dv1.to_multiset() =~= dv0.to_multiset().insert(xv));
    }
}

/// Extracts and sorts the profile names of a whole directory listing, as
/// [`spec_list_available`] describes; the result is ascending.
pub fn list_from_listing(listing: &str) -> (r: Vec<String>)
    ensures
        r.deep_view() == spec_list_available(listing@),
        sorted_by(r.deep_view(), crate::text::lex_leq()),
{
    let lines = crate::text::split_lines(listing);
    let ghost lv = crate::text::spec_split_lines(listing@);
    let ghost all = spec_catalog_names(lv);
    let mut names: Vec<String> = Vec::new();
    let n = lines.len();
    let mut i: usize = 0;
    proof {
        assert(lv.skip(0) =~= lv);
        assert(names.deep_view() + spec_catalog_names(lv) =~~= spec_catalog_names(lv));
    }
    while i < n
        invariant
            n == lines.len(),
            0 <= i <= n,
            lv == crate::text::spec_split_lines(listing@),
            all == spec_catalog_names(lv),
            lines.deep_view() == lv,
            all == names.deep_view() + spec_catalog_names(lv.skip(i as int)),
        decreases n - i,
    {
        let ghost old_names = names.deep_view();
        let ghost tail = lv.skip(i as int);
        let line = &lines[i];
        assert(line@ == lv[i as int]);
        proof {
            assert(tail[0] == lv[i as int]);
            assert(tail.drop_first() =~= lv.skip(i + 1));
        }
        let entry = entry_name(line.as_str());
        match entry {
            Some(name) => {
                let ghost nm = name@;
                names.push(name);
                proof {
                    assert(spec_catalog_names(tail) == seq![nm] + spec_catalog_names(
                        lv.skip(i + 1),
                    ));
                    assert(names.deep_view() =~~= old_names.push(nm));
                    assert(old_names + (seq![nm] + spec_catalog_names(lv.skip(i + 1)))
                        =~~= names.deep_view() + spec_catalog_names(lv.skip(i + 1)));
                }
            },
            None => {
                proof {
                    assert(spec_catalog_names(tail) == spec_catalog_names(lv.skip(i + 1)));
                }
            },
        }
        i = i + 1;
    }
    proof {
        assert(lv.skip(n as int) =~= Seq::<Seq<char>>::empty());
        assert(names.deep_view() + Seq::<Seq<char>>::empty() =~~= names.deep_view());
        assert(all == names.deep_view());
    }
    let ghost nv = names.deep_view();
    let mut result: Vec<String> = Vec::new();
    let m = names.len();
    let mut j: usize = 0;
    proof {
        assert(nv.take(0) =~= Seq::<Seq<char>>::empty());
        assert(result.deep_view() =~~= Seq::<Seq<char>>::empty());
        assert(Seq::<Seq<char>>::empty().to_multiset() =~= nv.take(0).to_multiset());
    }
    while j < m
        invariant
            m == names.len(),
            0 <= j <= m,
            names.deep_view() == nv,
            sorted_by(result.deep_view(), crate::text::lex_leq()),
            result.deep_view().to_multiset() == nv.take(j as int).to_multiset(),
        decreases m - j,
    {
        let x = names[j].clone();
        assert(x@ == nv[j as int]);
        insert_sorted(&mut result, x);
        j = j + 1;
        proof {
            assert(nv.take(j as int) =~= nv.take(j - 1).push(nv[j - 1]));
            assert(nv.take(j - 1).push(nv[j - 1]).to_multiset() =~= nv.take(
                j - 1,
            ).to_multiset().insert(nv[j - 1]));
        }
    }
    proof {
        assert(nv.take(m as int) =~= nv);
        crate::text::lemma_lex_total_ordering();
        all.lemma_sort_by_ensures(crate::text::lex_leq());
        lemma_sorted_unique(
            result.deep_view(),
            all.sort_by(crate::text::lex_leq()),
            crate::text::lex_leq(),
        );
        assert(result.deep_view() == spec_list_available(listing@));
    }
    result
}

/// The full enumeration over the privileged directory listing query: a
/// query that could not be run, or that exited with failure, is a reported
/// error — "no profiles" and "could not determine" are distinguished; a
/// successful query yields the sorted names.
pub fn list_available(query: Result<crate::invoke::CmdResult, String>) -> (r: Result<
    Vec<String>,
    String,
>)
    ensures
        query matches Ok(o) ==> ({
            &&& o.success ==> (r matches Ok(names) && names.deep_view() == spec_list_available(
                o.stdout@,
            ))
            &&& !o.success ==> (r matches Err(msg) && msg@ == "Error listando /etc/wireguard/: "@
                + o.stderr@)
        }),
        query matches Err(e) ==> (r matches Err(msg) && msg@ == "Error ejecutando sudo ls: "@
            + e@),
{
    match query {
        Ok(o) => {
            if o.success {
                Ok(list_from_listing(o.stdout.as_str()))
            } else {
                let mut msg = String::from_str("Error listando /etc/wireguard/: ");
                msg.append(o.stderr.as_str());
                Err(msg)
            }
        },
        Err(e) => {
            let mut msg = String::from_str("Error ejecutando sudo ls: ");
            msg.append(e.as_str());
            Err(msg)
        },
    }
}

} // verus!
