//! The suggestion pipeline: sort the remote phrases by title, drop duplicate
//! titles, and, when the policy asks for it, put the literal query first and
//! remove it from the remote entries.

use vstd::prelude::*;
use crate::lex::{lex_le, lex_lt, lemma_lex_le_refl, lemma_lex_le_total, lemma_lex_le_trans, lemma_lex_le_lt_trans, lemma_lex_le_antisym, str_le, str_eq};

verus! {

broadcast use vstd::seq_lib::group_to_multiset_ensures;

/// The character sequences of a list of titles.
pub open spec fn titles(v: Seq<String>) -> Seq<Seq<char>> {
    v.map_values(|s: String| s@)
}

/// Every pair of titles is in weak ascending ordinal order.
pub open spec fn sorted_le(s: Seq<Seq<char>>) -> bool {
    forall|i: int, j: int| 0 <= i < j < s.len() ==> lex_le(s[i], s[j])
}

/// Every pair of titles is in strict ascending ordinal order; in particular
/// no title occurs twice.
pub open spec fn strictly_sorted(s: Seq<Seq<char>>) -> bool {
    forall|i: int, j: int| 0 <= i < j < s.len() ==> lex_lt(s[i], s[j])
}

/// The position of a least title of a non-empty list.
fn index_of_min(v: &Vec<String>) -> (k: usize)
    requires
        v@.len() > 0,
    ensures
        k < v@.len(),
        forall|j: int| 0 <= j < v@.len() ==> lex_le(v@[k as int]@, v@[j]@),
{
    let mut best: usize = 0;
    let mut i: usize = 1;
    proof {
        lemma_lex_le_refl(v@[0]@);
    }
    while i < v.len()
        invariant
            best < i <= v@.len(),
            forall|j: int| 0 <= j < i ==> lex_le(v@[best as int]@, v@[j]@),
        decreases v@.len() - i,
    {
        if str_le(v[i].as_str(), v[best].as_str()) {
            proof {
                assert forall|j: int| 0 <= j < i implies lex_le(v@[i as int]@, v@[j]@) by {
                    lemma_lex_le_trans(v@[i as int]@, v@[best as int]@, v@[j]@);
                }
                lemma_lex_le_refl(v@[i as int]@);
            }
            best = i;
        } else {
            proof {
                lemma_lex_le_total(v@[i as int]@, v@[best as int]@);
            }
        }
        i = i + 1;
    }
    best
}

/// Sorting keeps exactly the titles that came in, with their multiplicity.
pub fn sort_phrases(phrases: Vec<String>) -> (r: Vec<String>)
    ensures
        sorted_le(titles(r@)),
        titles(r@).to_multiset() == titles(phrases@).to_multiset(),
{
    let mut rest = phrases;
    let mut out: Vec<String> = Vec::new();
    proof {
        assert(titles(out@) =~= Seq::<Seq<char>>::empty());
        assert(titles(out@).to_multiset().add(titles(rest@).to_multiset()) =~= titles(
            rest@,
        ).to_multiset());
    }
    while rest.len() > 0
        invariant
            sorted_le(titles(out@)),
            titles(out@).to_multiset().add(titles(rest@).to_multiset()) == titles(
                phrases@,
            ).to_multiset(),
            forall|i: int, j: int|
                0 <= i < out@.len() && 0 <= j < rest@.len() ==> lex_le(out@[i]@, rest@[j]@),
        decreases rest@.len(),
    {
        let k = index_of_min(&rest);
        let ghost old_out = out@;
        let ghost old_rest = rest@;
        let s = rest.remove(k);
        out.push(s);
        proof {
            assert(titles(out@) =~= titles(old_out).push(s@));
            assert(titles(rest@) =~= titles(old_rest).remove(k as int));
            assert(titles(old_rest)[k as int] == s@);
            assert(titles(out@).to_multiset() =~= titles(old_out).to_multiset().insert(s@));
            assert(titles(rest@).to_multiset() =~= titles(old_rest).to_multiset().remove(s@));
            assert(titles(old_rest).to_multiset().count(s@) > 0);
            assert(titles(out@).to_multiset().add(titles(rest@).to_multiset()) =~= titles(
                old_out,
            ).to_multiset().add(titles(old_rest).to_multiset()));
            assert forall|i: int| 0 <= i < old_out.len() implies lex_le(old_out[i]@, s@) by {
                assert(lex_le(old_out[i]@, old_rest[k as int]@));
            }
            assert(sorted_le(titles(out@)));
            assert forall|i: int, j: int|
                0 <= i < out@.len() && 0 <= j < rest@.len() implies lex_le(
                out@[i]@,
                rest@[j]@,
            ) by {
                let jo: int = if j < k { j } else { j + 1 };
                if i < old_out.len() {
                    assert(lex_le(old_out[i]@, old_rest[jo]@));
                } else {
                    assert(lex_le(s@, old_rest[jo]@));
                }
            }
        }
    }
    proof {
        assert(titles(rest@) =~= Seq::<Seq<char>>::empty());
        assert(titles(out@).to_multiset().add(titles(rest@).to_multiset()) =~= titles(
            out@,
        ).to_multiset());
    }
    out
}

/// One linear pass over a sorted list, always comparing to the last kept
/// title: afterwards each distinct title stands exactly once, still in
/// ascending order.
pub fn dedup_sorted(phrases: Vec<String>) -> (r: Vec<String>)
    requires
        sorted_le(titles(phrases@)),
    ensures
        strictly_sorted(titles(r@)),
        forall|t: Seq<char>|
            #[trigger] titles(r@).contains(t) <==> titles(phrases@).contains(t),
{
    let mut out: Vec<String> = Vec::new();
    let mut i: usize = 0;
    while i < phrases.len()
        invariant
            i <= phrases@.len(),
            sorted_le(titles(phrases@)),
            strictly_sorted(titles(out@)),
            i == 0 ==> out@.len() == 0,
            i > 0 ==> out@.len() > 0 && out@.last()@ == phrases@[i - 1]@,
            forall|t: Seq<char>|
                #[trigger] titles(out@).contains(t) <==> (exists|j: int|
                    0 <= j < i && #[trigger] phrases@[j]@ == t),
        decreases phrases@.len() - i,
    {
        let keep = if out.len() == 0 {
            true
        } else {
            !str_eq(out[out.len() - 1].as_str(), phrases[i].as_str())
        };
        let ghost old_out = out@;
        let ghost e = phrases@[i as int]@;
        if keep {
            out.push(phrases[i].clone());
            proof {
                assert(titles(out@) =~= titles(old_out).push(e));
                if i > 0 {
                    assert(lex_le(titles(phrases@)[i - 1], titles(phrases@)[i as int]));
                    assert(lex_lt(old_out.last()@, e));
                }
                assert forall|k: int| 0 <= k < old_out.len() implies lex_lt(
                    titles(old_out)[k],
                    e,
                ) by {
                    assert(titles(old_out)[old_out.len() - 1] == old_out.last()@);
                    if k < old_out.len() - 1 {
                        assert(lex_lt(titles(old_out)[k], titles(old_out)[old_out.len() - 1]));
                        lemma_lex_le_lt_trans(titles(old_out)[k], old_out.last()@, e);
                    }
                }
                assert(strictly_sorted(titles(out@)));
                assert forall|t: Seq<char>| #[trigger] titles(out@).contains(t) implies (
                exists|j: int| 0 <= j < i + 1 && #[trigger] phrases@[j]@ == t) by {
                    let k = choose|k: int|
                        0 <= k < titles(out@).len() && titles(out@)[k] == t;
                    if k < old_out.len() {
                        assert(titles(old_out).contains(t));
                    } else {
                        assert(phrases@[i as int]@ == t);
                    }
                }
                assert forall|t: Seq<char>|
                    (exists|j: int| 0 <= j < i + 1 && #[trigger] phrases@[j]@ == t) implies
                    #[trigger] titles(out@).contains(t) by {
                    let j = choose|j: int| 0 <= j < i + 1 && phrases@[j]@ == t;
                    if j < i {
                        assert(titles(old_out).contains(t));
                        let k = choose|k: int|
                            0 <= k < titles(old_out).len() && titles(old_out)[k] == t;
                        assert(titles(out@)[k] == t);
                    } else {
                        assert(titles(out@)[out@.len() - 1] == t);
                    }
                }
            }
        } else {
            proof {
                assert(e == old_out.last()@);
                assert(titles(out@)[out@.len() - 1] == e);
                assert(titles(out@).contains(e));
                assert forall|t: Seq<char>|
                    (exists|j: int| 0 <= j < i + 1 && #[trigger] phrases@[j]@ == t) implies
                    #[trigger] titles(out@).contains(t) by {
                    let j = choose|j: int| 0 <= j < i + 1 && phrases@[j]@ == t;
                }
            }
        }
        i = i + 1;
    }
    proof {
        assert forall|t: Seq<char>| #[trigger] titles(phrases@).contains(t) implies (
        exists|j: int| 0 <= j < phrases@.len() && #[trigger] phrases@[j]@ == t) by {
            let k = choose|k: int|
                0 <= k < titles(phrases@).len() && titles(phrases@)[k] == t;
            assert(phrases@[k]@ == t);
        }
        assert forall|t: Seq<char>|
            (exists|j: int| 0 <= j < phrases@.len() && #[trigger] phrases@[j]@ == t) implies
            #[trigger] titles(phrases@).contains(t) by {
            let j = choose|j: int| 0 <= j < phrases@.len() && phrases@[j]@ == t;
            assert(titles(phrases@)[j] == t);
        }
    }
    out
}

/// The spec-level test that keeps an entry when the policy inserts the
/// query: everything except the query's own title survives.
pub open spec fn keep_pred(q: Seq<char>) -> spec_fn(Seq<char>) -> bool {
    |t: Seq<char>| t != q
}

proof fn lemma_filter_singleton(x: Seq<char>, pred: spec_fn(Seq<char>) -> bool)
    ensures
        seq![x].filter(pred) == (if pred(x) {
            seq![x]
        } else {
            Seq::<Seq<char>>::empty()
        }),
{
    reveal_with_fuel(Seq::filter, 2);
    assert(seq![x].drop_last() =~= Seq::<Seq<char>>::empty());
    if pred(x) {
        assert(seq![x].filter(pred) =~= seq![x]);
    } else {
        assert(seq![x].filter(pred) =~= Seq::<Seq<char>>::empty());
    }
}

/// Every entry that the policy keeps, the original query aside, stands in
/// the remote list and differs from the query; order is kept unchanged.
pub fn include_query(query: &str, phrases: Vec<String>) -> (r: Vec<String>)
    ensures
        titles(r@) == seq![query@] + titles(phrases@).filter(keep_pred(query@)),
{
    broadcast use vstd::seq_lib::group_filter_ensures;

    let mut out: Vec<String> = Vec::new();
    out.push(query.to_owned());
    let ghost pred = keep_pred(query@);
    proof {
        assert(titles(phrases@.take(0)) =~= Seq::<Seq<char>>::empty());
        assert(Seq::<Seq<char>>::empty().filter(pred) =~= Seq::<Seq<char>>::empty()) by {
            reveal(Seq::filter);
        }
        assert(titles(out@) =~= seq![query@] + titles(phrases@.take(0)).filter(pred));
    }
    let mut i: usize = 0;
    while i < phrases.len()
        invariant
            i <= phrases@.len(),
            titles(out@) == seq![query@] + titles(phrases@.take(i as int)).filter(
                keep_pred(query@),
            ),
        decreases phrases@.len() - i,
    {
        let ghost pred = keep_pred(query@);
        let ghost old_out = out@;
        let ghost e = phrases@[i as int]@;
        let ghost tk = titles(phrases@.take(i as int));
        proof {
            assert(titles(phrases@.take(i + 1)) =~= tk + seq![e]);
            Seq::filter_distributes_over_add(tk, seq![e], pred);
            lemma_filter_singleton(e, pred);
        }
        if !str_eq(phrases[i].as_str(), query) {
            out.push(phrases[i].clone());
            proof {
                assert(pred(e));
                assert(seq![e].filter(pred) == seq![e]);
                assert(titles(phrases@.take(i + 1)).filter(pred) == tk.filter(pred) + seq![e]);
                assert(titles(out@) =~= titles(old_out).push(e));
                assert(titles(old_out).push(e) =~= titles(old_out) + seq![e]);
                assert(titles(out@) =~= seq![query@] + titles(phrases@.take(i + 1)).filter(
                    pred,
                ));
            }
        } else {
            proof {
                assert(!pred(e));
                assert(seq![e].filter(pred) == Seq::<Seq<char>>::empty());
                assert(tk.filter(pred) + Seq::<Seq<char>>::empty() =~= tk.filter(pred));
                assert(titles(phrases@.take(i + 1)).filter(pred) =~= tk.filter(pred));
            }
        }
        i = i + 1;
    }
    proof {
        assert(phrases@.take(phrases@.len() as int) =~= phrases@);
    }
    out
}

/// What a filtered sequence holds, it held before filtering.
proof fn lemma_filter_subset(s: Seq<Seq<char>>, pred: spec_fn(Seq<char>) -> bool)
    ensures
        forall|t: Seq<char>| #[trigger] s.filter(pred).contains(t) ==> s.contains(t),
    decreases s.len(),
{
    reveal(Seq::filter);
    if s.len() > 0 {
        lemma_filter_subset(s.drop_last(), pred);
        let f = s.filter(pred);
        let fd = s.drop_last().filter(pred);
        assert forall|t: Seq<char>| #[trigger] f.contains(t) implies s.contains(t) by {
            let i = choose|i: int| 0 <= i < f.len() && f[i] == t;
            if pred(s.last()) && i == f.len() - 1 {
                assert(s[s.len() - 1] == t);
            } else {
                assert(fd[i] == t);
                assert(fd.contains(t));
                assert(s.drop_last().contains(t));
                let j = choose|j: int|
                    0 <= j < s.drop_last().len() && s.drop_last()[j] == t;
                assert(s[j] == t);
            }
        }
    }
}

/// Filtering a strictly sorted sequence leaves it strictly sorted.
proof fn lemma_filter_strictly_sorted(s: Seq<Seq<char>>, pred: spec_fn(Seq<char>) -> bool)
    requires
        strictly_sorted(s),
    ensures
        strictly_sorted(s.filter(pred)),
    decreases s.len(),
{
    reveal(Seq::filter);
    if s.len() > 0 {
        assert(strictly_sorted(s.drop_last()));
        lemma_filter_strictly_sorted(s.drop_last(), pred);
        let f = s.filter(pred);
        let fd = s.drop_last().filter(pred);
        if pred(s.last()) {
            lemma_filter_subset(s.drop_last(), pred);
            assert forall|i: int| 0 <= i < fd.len() implies lex_lt(fd[i], s[s.len() - 1]) by {
                assert(fd.contains(fd[i]));
                assert(s.drop_last().contains(fd[i]));
                let j = choose|j: int|
                    0 <= j < s.drop_last().len() && s.drop_last()[j] == fd[i];
                assert(lex_lt(s[j], s[s.len() - 1]));
            }
            assert(strictly_sorted(f));
        }
    }
}

/// The titles a remote response offers: none at all when the transport or
/// the parse failed.
pub open spec fn available_titles(response: Option<Seq<Seq<char>>>) -> Seq<Seq<char>> {
    match response {
        Some(ps) => ps,
        None => Seq::empty(),
    }
}

/// The one result the pipeline may return for a query, a response and the
/// policy flag. With the policy off: the distinct remote titles in strict
/// ascending ordinal order. With it on: the literal query first, followed by
/// the distinct remote titles other than the query, in the same order.
pub open spec fn is_fetch_result(
    q: Seq<char>,
    response: Option<Seq<Seq<char>>>,
    always_include_query: bool,
    r: Seq<Seq<char>>,
) -> bool {
    let avail = available_titles(response);
    if always_include_query {
        &&& r.len() >= 1
        &&& r[0] == q
        &&& strictly_sorted(r.drop_first())
        &&& forall|t: Seq<char>|
            #[trigger] r.drop_first().contains(t) <==> avail.contains(t) && t != q
    } else {
        &&& strictly_sorted(r)
        &&& forall|t: Seq<char>| #[trigger] r.contains(t) <==> avail.contains(t)
    }
}

/// The titles carried by a parsed response, `None` when there is none.
pub open spec fn response_titles(response: Option<Vec<String>>) -> Option<Seq<Seq<char>>> {
    match response {
        Some(v) => Some(titles(v@)),
        None => None,
    }
}

/// The whole normalization pipeline on an already-parsed response: sort by
/// title, drop duplicate titles, and apply the inclusion policy. A failed
/// fetch or parse arrives as `None` and degrades to an empty phrase list.
pub fn suggestions(query: &str, response: Option<Vec<String>>, always_include_query: bool) -> (r:
    Vec<String>)
    ensures
        is_fetch_result(query@, response_titles(response), always_include_query, titles(r@)),
{
    broadcast use vstd::seq_lib::group_filter_ensures;

    let ghost resp = response_titles(response);
    let phrases = match response {
        Some(v) => v,
        None => Vec::new(),
    };
    proof {
        assert(available_titles(resp) =~= titles(phrases@));
    }
    let sorted = sort_phrases(phrases);
    let deduped = dedup_sorted(sorted);
    proof {
        assert forall|t: Seq<char>| #[trigger] titles(deduped@).contains(t) <==> titles(
            phrases@,
        ).contains(t) by {
            assert(titles(sorted@).contains(t) == (titles(sorted@).to_multiset().count(t) > 0));
            assert(titles(phrases@).contains(t) == (titles(phrases@).to_multiset().count(t)
                > 0));
        }
    }
    if always_include_query {
        let r = include_query(query, deduped);
        proof {
            let pred = keep_pred(query@);
            let dt = titles(deduped@);
            assert(titles(r@).drop_first() =~= dt.filter(pred));
            lemma_filter_strictly_sorted(dt, pred);
            lemma_filter_subset(dt, pred);
            assert forall|t: Seq<char>| #[trigger] dt.filter(pred).contains(t) implies
                available_titles(resp).contains(t) && t != query@ by {
                let i = choose|i: int|
                    0 <= i < dt.filter(pred).len() && dt.filter(pred)[i] == t;
                assert(pred(dt.filter(pred)[i]));
            }
            assert forall|t: Seq<char>|
                available_titles(resp).contains(t) && t != query@ implies #[trigger] dt.filter(
                pred,
            ).contains(t) by {
                assert(titles(deduped@).contains(t));
                let i = choose|i: int| 0 <= i < dt.len() && dt[i] == t;
                assert(pred(dt[i]));
                assert(dt.filter(pred).contains(dt[i]));
            }
        }
        r
    } else {
        deduped
    }
}

/// Two strictly sorted sequences holding the same titles are the same
/// sequence.
proof fn lemma_strictly_sorted_same_set(a: Seq<Seq<char>>, b: Seq<Seq<char>>)
    requires
        strictly_sorted(a),
        strictly_sorted(b),
        forall|t: Seq<char>| #[trigger] a.contains(t) ==> b.contains(t),
        forall|t: Seq<char>| #[trigger] b.contains(t) ==> a.contains(t),
    ensures
        a == b,
    decreases a.len(),
{
    if a.len() == 0 {
        if b.len() > 0 {
            assert(b.contains(b[0]));
            assert(false);
        }
        assert(a =~= b);
    } else {
        assert(a.contains(a[0]));
        assert(b.len() > 0);
        assert(b.contains(b[0]));
        let i = choose|i: int| 0 <= i < a.len() && a[i] == b[0];
        let j = choose|j: int| 0 <= j < b.len() && b[j] == a[0];
        if i > 0 && j > 0 {
            assert(lex_lt(a[0], a[i]));
            assert(lex_lt(b[0], b[j]));
            lemma_lex_le_antisym(a[0], b[0]);
            assert(false);
        }
        assert(a[0] == b[0]);
        assert(strictly_sorted(a.drop_first()));
        assert(strictly_sorted(b.drop_first()));
        assert forall|t: Seq<char>|
            #[trigger] a.drop_first().contains(t) implies b.drop_first().contains(t) by {
            let k = choose|k: int| 0 <= k < a.drop_first().len() && a.drop_first()[k] == t;
            assert(a[k + 1] == t);
            assert(a.contains(t));
            assert(lex_lt(a[0], a[k + 1]));
            let m = choose|m: int| 0 <= m < b.len() && b[m] == t;
            assert(m > 0);
            assert(b.drop_first()[m - 1] == t);
        }
        assert forall|t: Seq<char>|
            #[trigger] b.drop_first().contains(t) implies a.drop_first().contains(t) by {
            let k = choose|k: int| 0 <= k < b.drop_first().len() && b.drop_first()[k] == t;
            assert(b[k + 1] == t);
            assert(b.contains(t));
            assert(lex_lt(b[0], b[k + 1]));
            let m = choose|m: int| 0 <= m < a.len() && a[m] == t;
            assert(m > 0);
            assert(a.drop_first()[m - 1] == t);
        }
        lemma_strictly_sorted_same_set(a.drop_first(), b.drop_first());
        assert(a.len() == b.len());
        assert forall|k: int| 0 <= k < a.len() implies a[k] == b[k] by {
            if k > 0 {
                assert(a[k] == a.drop_first()[k - 1]);
                assert(b[k] == b.drop_first()[k - 1]);
            }
        }
        assert(a =~= b);
    }
}

/// The fetch contract pins its result: for one query, one response and one
/// policy value there is exactly one list of titles that meets it.
pub proof fn lemma_fetch_result_unique(
    q: Seq<char>,
    response: Option<Seq<Seq<char>>>,
    always_include_query: bool,
    r1: Seq<Seq<char>>,
    r2: Seq<Seq<char>>,
)
    requires
        is_fetch_result(q, response, always_include_query, r1),
        is_fetch_result(q, response, always_include_query, r2),
    ensures
        r1 == r2,
{
    if always_include_query {
        assert forall|t: Seq<char>|
            #[trigger] r1.drop_first().contains(t) implies r2.drop_first().contains(t) by {
            assert(r2.drop_first().contains(t));
        }
        assert forall|t: Seq<char>|
            #[trigger] r2.drop_first().contains(t) implies r1.drop_first().contains(t) by {
            assert(r1.drop_first().contains(t));
        }
        lemma_strictly_sorted_same_set(r1.drop_first(), r2.drop_first());
        assert(r1.len() == r2.len());
        assert forall|k: int| 0 <= k < r1.len() implies r1[k] == r2[k] by {
            if k > 0 {
                assert(r1[k] == r1.drop_first()[k - 1]);
                assert(r2[k] == r2.drop_first()[k - 1]);
            }
        }
        assert(r1 =~= r2);
    } else {
        lemma_strictly_sorted_same_set(r1, r2);
    }
}

/// With the policy on, a fetch whose remote response failed, or parsed to
/// nothing, yields exactly one entry: the query's own title.
pub proof fn lemma_no_response_policy_on(q: Seq<char>, r: Seq<Seq<char>>)
    requires
        is_fetch_result(q, None, true, r),
    ensures
        r == seq![q],
{
    if r.drop_first().len() > 0 {
        assert(r.drop_first().contains(r.drop_first()[0]));
        assert(false);
    }
    assert(r =~= seq![q]);
}

/// With the policy off, a fetch whose remote response failed yields an
/// empty list.
pub proof fn lemma_no_response_policy_off(q: Seq<char>, r: Seq<Seq<char>>)
    requires
        is_fetch_result(q, None, false, r),
    ensures
        r == Seq::<Seq<char>>::empty(),
{
    if r.len() > 0 {
        assert(r.contains(r[0]));
        assert(false);
    }
    assert(r =~= Seq::<Seq<char>>::empty());
}

} // verus!
