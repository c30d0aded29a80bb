//! Playlist resolution: order the entries of an unexpected playlist by
//! their url and drop accidental duplicates, keeping one entry per
//! distinct url.

use vstd::prelude::*;
use crate::model::{ItemDescription, PlanError, SchemaField};
use crate::text::{lemma_str_lt_trans, lemma_str_lt_trichotomy, str_eq, str_lt, str_lt_exec};

verus! {

broadcast use vstd::seq_lib::group_to_multiset_ensures;

/// The url of an entry, which playlist resolution keys on.
pub open spec fn url_of(e: ItemDescription) -> Seq<char> {
    e.url->Some_0@
}

/// `a`'s url comes before `b`'s, or the two are equal.
pub open spec fn url_le(a: ItemDescription, b: ItemDescription) -> bool {
    str_lt(url_of(a), url_of(b)) || url_of(a) == url_of(b)
}

/// Every entry carries a string url.
pub open spec fn all_urls_present(s: Seq<ItemDescription>) -> bool {
    forall|i: int| 0 <= i < s.len() ==> (#[trigger] s[i]).url is Some
}

/// Urls ascend, duplicates allowed.
pub open spec fn urls_sorted(s: Seq<ItemDescription>) -> bool {
    forall|i: int, j: int| 0 <= i < j < s.len() ==> url_le(#[trigger] s[i], #[trigger] s[j])
}

/// Urls strictly ascend: sorted, and pairwise distinct.
pub open spec fn urls_strictly_sorted(s: Seq<ItemDescription>) -> bool {
    forall|i: int, j: int| 0 <= i < j < s.len() ==> str_lt(
        url_of(#[trigger] s[i]),
        url_of(#[trigger] s[j]),
    )
}

/// Some entry of `out` carries the url `u`.
pub open spec fn url_covered(out: Seq<ItemDescription>, u: Seq<char>) -> bool {
    exists|j: int| 0 <= j < out.len() && url_of(#[trigger] out[j]) == u
}

fn url_str<'a>(e: &'a ItemDescription) -> (r: &'a String)
    requires
        e.url is Some,
    ensures
        r@ == url_of(*e),
{
    match &e.url {
        Some(u) => u,
        None => vstd::pervasive::unreached(),
    }
}

fn sort_by_url(entries: Vec<ItemDescription>) -> (r: Vec<ItemDescription>)
    requires
        all_urls_present(entries@),
    ensures
        all_urls_present(r@),
        urls_sorted(r@),
        r@.to_multiset() == entries@.to_multiset(),
{
    let ghost orig = entries@;
    let mut rest = entries;
    let mut sorted: Vec<ItemDescription> = Vec::new();
    proof {
        assert forall|a: ItemDescription| sorted@.to_multiset().count(a) == 0 by {
            if sorted@.to_multiset().count(a) > 0 {
                assert(sorted@.contains(a));
            }
        }
        assert(sorted@.to_multiset().add(rest@.to_multiset()) =~= orig.to_multiset());
    }
    while rest.len() > 0
        invariant
            all_urls_present(rest@),
            all_urls_present(sorted@),
            urls_sorted(sorted@),
            sorted@.to_multiset().add(rest@.to_multiset()) == orig.to_multiset(),
            forall|i: int, j: int|
                0 <= i < sorted@.len() && 0 <= j < rest@.len() ==> url_le(
                    #[trigger] sorted@[i],
                    #[trigger] rest@[j],
                ),
        decreases rest@.len(),
    {
        let mut m: usize = 0;
        let mut j: usize = 1;
        while j < rest.len()
            invariant
                0 < rest@.len(),
                0 <= m < rest@.len(),
                1 <= j <= rest@.len(),
                all_urls_present(rest@),
                forall|t: int| 0 <= t < j ==> url_le(rest@[m as int], #[trigger] rest@[t]),
            decreases rest@.len() - j,
        {
            if str_lt_exec(url_str(&rest[j]).as_str(), url_str(&rest[m]).as_str()) {
                proof {
                    assert forall|t: int| 0 <= t < j + 1 implies url_le(
                        rest@[j as int],
                        #[trigger] rest@[t],
                    ) by {
                        if t < j {
                            if str_lt(url_of(rest@[m as int]), url_of(rest@[t])) {
                                lemma_str_lt_trans(
                                    url_of(rest@[j as int]),
                                    url_of(rest@[m as int]),
                                    url_of(rest@[t]),
                                );
                            }
                        }
                    }
                }
                m = j;
            } else {
                proof {
                    lemma_str_lt_trichotomy(url_of(rest@[j as int]), url_of(rest@[m as int]));
                }
            }
            j = j + 1;
        }
        let ghost prev = rest@;
        let ghost prev_sorted = sorted@;
        let e = rest.remove(m);
        sorted.push(e);
        proof {
            assert(e == prev[m as int]);
            assert(prev.contains(prev[m as int])) by {
                assert(0 <= m < prev.len() && prev[m as int] == prev[m as int]);
            }
            assert(prev.to_multiset().count(e) > 0);
            assert(rest@.to_multiset() =~= prev.to_multiset().remove(e));
            assert(sorted@.to_multiset() =~= prev_sorted.to_multiset().insert(e));
            assert(sorted@.to_multiset().add(rest@.to_multiset()) =~= orig.to_multiset());
            assert forall|i: int| 0 <= i < rest@.len() implies (#[trigger] rest@[i]).url is Some
                && url_le(e, rest@[i]) by {
                if i < m {
                    assert(rest@[i] == prev[i]);
                } else {
                    assert(rest@[i] == prev[i + 1]);
                }
            }
            assert forall|i: int, jj: int|
                0 <= i < sorted@.len() && 0 <= jj < rest@.len() implies url_le(
                #[trigger] sorted@[i],
                #[trigger] rest@[jj],
            ) by {
                if i < sorted@.len() - 1 {
                    if jj < m {
                        assert(rest@[jj] == prev[jj]);
                        assert(url_le(prev_sorted[i], prev[jj]));
                    } else {
                        assert(rest@[jj] == prev[jj + 1]);
                        assert(url_le(prev_sorted[i], prev[jj + 1]));
                    }
                } else {
                    assert(sorted@[i] == e);
                }
            }
            assert forall|i: int, jj: int| 0 <= i < jj < sorted@.len() implies url_le(
                #[trigger] sorted@[i],
                #[trigger] sorted@[jj],
            ) by {
                if jj < sorted@.len() - 1 {
                    assert(url_le(prev_sorted[i], prev_sorted[jj]));
                } else {
                    assert(sorted@[jj] == e);
                    assert(url_le(prev_sorted[i], prev[m as int]));
                }
            }
        }
    }
    proof {
        assert(rest@.len() == 0);
        assert forall|a: ItemDescription| rest@.to_multiset().count(a) == 0 by {
            if rest@.to_multiset().count(a) > 0 {
                assert(rest@.contains(a));
            }
        }
        assert(sorted@.to_multiset() =~= orig.to_multiset());
    }
    sorted
}

fn dedup_sorted(sorted: Vec<ItemDescription>) -> (r: Vec<ItemDescription>)
    requires
        all_urls_present(sorted@),
        urls_sorted(sorted@),
    ensures
        all_urls_present(r@),
        urls_strictly_sorted(r@),
        forall|i: int| 0 <= i < sorted@.len() ==> url_covered(r@, url_of(#[trigger] sorted@[i])),
        forall|j: int| 0 <= j < r@.len() ==> sorted@.contains(#[trigger] r@[j]),
{
    let ghost sseq = sorted@;
    let mut rest = sorted;
    let mut out: Vec<ItemDescription> = Vec::new();
    let ghost mut t: int = 0;
    proof {
        assert(rest@ =~= sseq.skip(0));
    }
    while rest.len() > 0
        invariant
            0 <= t <= sseq.len(),
            rest@ == sseq.skip(t),
            urls_sorted(sseq),
            all_urls_present(sseq),
            urls_strictly_sorted(out@),
            all_urls_present(out@),
            out@.len() == 0 ==> t == 0,
            out@.len() > 0 ==> 0 < t && url_of(out@.last()) == url_of(sseq[t - 1]),
            forall|i: int| 0 <= i < t ==> url_covered(out@, url_of(#[trigger] sseq[i])),
            forall|jj: int| 0 <= jj < out@.len() ==> sseq.contains(#[trigger] out@[jj]),
        decreases rest@.len(),
    {
        let ghost prev_out = out@;
        let e = rest.remove(0);
        proof {
            assert(e == sseq.skip(t)[0]);
            assert(e == sseq[t]);
            assert(rest@ =~= sseq.skip(t + 1));
        }
        let push_it = out.len() == 0 || !str_eq(
            url_str(&out[out.len() - 1]).as_str(),
            url_str(&e).as_str(),
        );
        if push_it {
            proof {
                if prev_out.len() > 0 {
                    assert(url_le(sseq[t - 1], sseq[t]));
                    assert(url_of(prev_out.last()) != url_of(e));
                    assert(str_lt(url_of(prev_out.last()), url_of(e)));
                }
            }
            out.push(e);
            proof {
                assert forall|i: int, jj: int| 0 <= i < jj < out@.len() implies str_lt(
                    url_of(#[trigger] out@[i]),
                    url_of(#[trigger] out@[jj]),
                ) by {
                    if jj < out@.len() - 1 {
                        assert(str_lt(url_of(prev_out[i]), url_of(prev_out[jj])));
                    } else {
                        assert(out@[jj] == e);
                        if i < out@.len() - 2 {
                            assert(str_lt(url_of(prev_out[i]), url_of(prev_out.last())));
                            lemma_str_lt_trans(
                                url_of(prev_out[i]),
                                url_of(prev_out.last()),
                                url_of(e),
                            );
                        }
                    }
                }
                assert forall|i: int| 0 <= i < t + 1 implies url_covered(
                    out@,
                    url_of(#[trigger] sseq[i]),
                ) by {
                    if i < t {
                        let w = choose|j: int|
                            0 <= j < prev_out.len() && url_of(#[trigger] prev_out[j]) == url_of(
                                sseq[i],
                            );
                        assert(out@[w] == prev_out[w]);
                        assert(url_of(out@[w]) == url_of(sseq[i]));
                    } else {
                        assert(url_of(out@[out@.len() - 1]) == url_of(sseq[t]));
                    }
                }
                assert(sseq.contains(sseq[t])) by {
                    assert(0 <= t < sseq.len() && sseq[t] == sseq[t]);
                }
                assert forall|jj: int| 0 <= jj < out@.len() implies sseq.contains(
                    #[trigger] out@[jj],
                ) by {
                    if jj < out@.len() - 1 {
                        assert(out@[jj] == prev_out[jj]);
                    } else {
                        assert(out@[jj] == sseq[t]);
                    }
                }
            }
        } else {
            proof {
                assert(url_of(out@.last()) == url_of(e));
                assert forall|i: int| 0 <= i < t + 1 implies url_covered(
                    out@,
                    url_of(#[trigger] sseq[i]),
                ) by {
                    if i == t {
                        assert(url_of(out@[out@.len() - 1]) == url_of(sseq[t]));
                    }
                }
            }
        }
        proof {
            t = t + 1;
        }
    }
    proof {
        assert(t == sseq.len());
    }
    out
}

/// Resolve an unexpected playlist: order its entries by url and keep one
/// entry per distinct url. Returns the resolved entries together with the
/// pre-deduplication count (for the caller's advisory warning); an entry
/// without a string url is a schema failure.
pub fn resolve_playlist(entries: Vec<ItemDescription>) -> (r: Result<
    (Vec<ItemDescription>, usize),
    PlanError,
>)
    ensures
        (r is Ok) == all_urls_present(entries@),
        r is Err ==> r == Err::<(Vec<ItemDescription>, usize), PlanError>(
            PlanError::Schema(SchemaField::EntryUrl),
        ),
        r matches Ok(pair) ==> pair.1 == entries@.len() && all_urls_present(pair.0@)
            && urls_strictly_sorted(pair.0@) && (forall|i: int|
            0 <= i < entries@.len() ==> url_covered(pair.0@, url_of(#[trigger] entries@[i]))) && (
        forall|j: int| 0 <= j < pair.0@.len() ==> entries@.contains(#[trigger] pair.0@[j])),
{
    let pre = entries.len();
    let mut k: usize = 0;
    while k < entries.len()
        invariant
            0 <= k <= entries@.len(),
            forall|i: int| 0 <= i < k ==> (#[trigger] entries@[i]).url is Some,
        decreases entries@.len() - k,
    {
        if entries[k].url.is_none() {
            return Err(PlanError::Schema(SchemaField::EntryUrl));
        }
        k = k + 1;
    }
    let ghost orig = entries@;
    let sorted = sort_by_url(entries);
    let ghost sseq = sorted@;
    let out = dedup_sorted(sorted);
    proof {
        assert forall|i: int| 0 <= i < orig.len() implies url_covered(
            out@,
            url_of(#[trigger] orig[i]),
        ) by {
            assert(orig.contains(orig[i])) by {
                assert(0 <= i < orig.len() && orig[i] == orig[i]);
            }
            assert(orig.to_multiset().count(orig[i]) > 0);
            assert(sseq.to_multiset().count(orig[i]) > 0);
            assert(sseq.contains(orig[i]));
            let idx = choose|j: int| 0 <= j < sseq.len() && sseq[j] == orig[i];
            assert(url_covered(out@, url_of(sseq[idx])));
        }
        assert forall|j: int| 0 <= j < out@.len() implies orig.contains(#[trigger] out@[j]) by {
            assert(sseq.contains(out@[j]));
            assert(sseq.to_multiset().count(out@[j]) > 0);
            assert(orig.to_multiset().count(out@[j]) > 0);
            assert(orig.contains(out@[j]));
        }
    }
    Ok((out, pre))
}

} // verus!
