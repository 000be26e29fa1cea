//! Relevance of a URI for a list of search terms.
//!
//! Each term is looked up at its right-most occurrence in the candidate; a
//! term found at character index `i` of a candidate of length `L` adds
//! `(i + 1) / L` to the score, so that matches towards the end of a path,
//! its most specific part, weigh more. A candidate that misses a term, an
//! empty candidate and an empty list of terms have no score at all.
//!
//! Scores are kept exactly, as the sum of `i + 1` over the terms, and
//! compared in thousandths rounded down.

use vstd::prelude::*;
use vstd::arithmetic::div_mod::{
    lemma_div_is_ordered, lemma_fundamental_div_mod, lemma_hoist_over_denominator,
};
use crate::ranking::{is_ranking, key_view, labelled, lemma_ranking_unique, precedes, rank_order, ranked};
use crate::text::{chars_of, decode_or_keep, decoded_or_raw, lower_of, lowercase};

verus! {

/// `t` occurs in `c` at character index `i`.
pub open spec fn occurs_at(c: Seq<char>, t: Seq<char>, i: int) -> bool {
    0 <= i && i + t.len() <= c.len() && c.subrange(i, i + t.len()) == t
}

/// `t` occurs somewhere in `c`.
pub open spec fn occurs(c: Seq<char>, t: Seq<char>) -> bool {
    exists|i: int| occurs_at(c, t, i)
}

/// The largest index no greater than `n` at which `t` occurs in `c`, or -1.
pub open spec fn last_occurrence_upto(c: Seq<char>, t: Seq<char>, n: int) -> int
    decreases n + 1,
{
    if n < 0 {
        -1
    } else if occurs_at(c, t, n) {
        n
    } else {
        last_occurrence_upto(c, t, n - 1)
    }
}

/// The index of the right-most occurrence of `t` in `c`, or -1.
pub open spec fn last_occurrence(c: Seq<char>, t: Seq<char>) -> int {
    last_occurrence_upto(c, t, c.len() - t.len())
}

/// The sum of `i + 1` over the right-most occurrences `i` of the terms, or
/// `None` where a term does not occur.
pub open spec fn position_sum(c: Seq<char>, ts: Seq<Seq<char>>) -> Option<int>
    decreases ts.len(),
{
    if ts.len() == 0 {
        Some(0)
    } else {
        match position_sum(c, ts.drop_last()) {
            None => None,
            Some(s) => {
                let i = last_occurrence(c, ts.last());
                if i < 0 {
                    None
                } else {
                    Some(s + i + 1)
                }
            },
        }
    }
}

/// The score of `c` for the terms `ts` in thousandths, rounded down; `None`
/// where `c` does not match.
pub open spec fn score_milli(c: Seq<char>, ts: Seq<Seq<char>>) -> Option<int> {
    if ts.len() == 0 || c.len() == 0 {
        None
    } else {
        match position_sum(c, ts) {
            Some(s) => Some((1000 * s) / (c.len() as int)),
            None => None,
        }
    }
}

/// The lower-case forms of the terms.
pub open spec fn lowered(terms: Seq<String>) -> Seq<Seq<char>> {
    terms.map(|k: int, t: String| lower_of(t@))
}

/// What a URI is scored as: its decoded text, in lower case.
pub open spec fn folded_uri(uri: Seq<char>) -> Seq<char> {
    lower_of(decoded_or_raw(uri))
}

/// The score of a URI for search terms, as the matcher defines it.
pub open spec fn uri_score(uri: Seq<char>, terms: Seq<String>) -> Option<int> {
    score_milli(folded_uri(uri), lowered(terms))
}

/// The right-most occurrence is an occurrence, and none lies to its right.
pub proof fn lemma_last_occurrence_upto(c: Seq<char>, t: Seq<char>, n: int)
    ensures
        last_occurrence_upto(c, t, n) >= 0 ==> last_occurrence_upto(c, t, n) <= n,
        last_occurrence_upto(c, t, n) >= 0 ==> occurs_at(c, t, last_occurrence_upto(c, t, n)),
        last_occurrence_upto(c, t, n) >= -1,
        forall|j: int|
            last_occurrence_upto(c, t, n) < j <= n ==> !occurs_at(c, t, j),
    decreases n + 1,
{
    if n >= 0 && !occurs_at(c, t, n) {
        lemma_last_occurrence_upto(c, t, n - 1);
    }
}

/// `last_occurrence` is -1 exactly where `t` does not occur, and otherwise
/// the largest index at which it occurs.
pub proof fn lemma_last_occurrence(c: Seq<char>, t: Seq<char>)
    ensures
        last_occurrence(c, t) >= -1,
        last_occurrence(c, t) == -1 <==> !occurs(c, t),
        last_occurrence(c, t) >= 0 ==> occurs_at(c, t, last_occurrence(c, t)),
        forall|j: int| last_occurrence(c, t) < j ==> !occurs_at(c, t, j),
{
    lemma_last_occurrence_upto(c, t, c.len() - t.len());
    let k = last_occurrence(c, t);
    if k >= 0 {
        assert(occurs_at(c, t, k));
    }
    assert forall|j: int| k < j implies !occurs_at(c, t, j) by {
        if j > c.len() - t.len() {
            assert(!occurs_at(c, t, j));
        }
    }
}

/// Whether `t` occurs in `c` at index `i`.
fn occurs_at_exec(c: &Vec<char>, t: &Vec<char>, i: usize) -> (r: bool)
    requires
        i + t@.len() <= c@.len(),
    ensures
        r == occurs_at(c@, t@, i as int),
{
    let n = t.len();
    let cl = c.len();
    let mut k: usize = 0;
    while k < n
        invariant
            n == t@.len(),
            cl == c@.len(),
            i + n <= c@.len(),
            k <= n,
            forall|m: int| 0 <= m < k ==> c@[i + m] == t@[m],
        decreases n - k,
    {
        if c[i + k] != t[k] {
            assert(c@.subrange(i as int, i + n)[k as int] != t@[k as int]);
            return false;
        }
        k = k + 1;
    }
    assert(c@.subrange(i as int, i + n) =~= t@);
    true
}

/// The character index of the right-most occurrence of `t` in `c`.
pub fn rfind(c: &Vec<char>, t: &Vec<char>) -> (r: Option<usize>)
    ensures
        r matches Some(i) ==> i as int == last_occurrence(c@, t@),
        r is None ==> last_occurrence(c@, t@) == -1,
{
    if t.len() > c.len() {
        return None;
    }
    let mut n: usize = c.len() - t.len();
    loop
        invariant
            t@.len() <= c@.len(),
            n <= c@.len() - t@.len(),
            last_occurrence(c@, t@) == last_occurrence_upto(c@, t@, n as int),
        decreases n,
    {
        if occurs_at_exec(c, t, n) {
            return Some(n);
        }
        if n == 0 {
            assert(last_occurrence_upto(c@, t@, -1) == -1);
            return None;
        }
        n = n - 1;
    }
}

/// The score of an already folded candidate for already folded terms, in
/// thousandths rounded down; `None` where the candidate does not match.
pub fn score_folded(c: &Vec<char>, terms: &Vec<Vec<char>>) -> (r: Option<u128>)
    ensures
        r matches Some(k) ==> score_milli(c@, terms.deep_view()) == Some(k as int),
        r is None ==> score_milli(c@, terms.deep_view()) is None,
{
    let ghost ts = terms.deep_view();
    let len = c.len();
    if terms.len() == 0 || len == 0 {
        return None;
    }
    let l = len as u128;
    // The sum of positions so far is `whole * len + part`.
    let mut whole: u128 = 0;
    let mut part: u128 = 0;
    let mut k: usize = 0;
    while k < terms.len()
        invariant
            ts == terms.deep_view(),
            len == c@.len(),
            l == len,
            len > 0,
            k <= terms@.len(),
            part < l,
            whole <= 2 * k,
            position_sum(c@, ts.take(k as int)) == Some(whole * l + part),
        decreases terms@.len() - k,
    {
        assert(ts.take(k + 1).drop_last() =~= ts.take(k as int));
        assert(ts.take(k + 1).last() == terms@[k as int]@);
        match rfind(c, &terms[k]) {
            None => {
                assert(position_sum(c@, ts.take(k + 1)) is None);
                proof {
                    lemma_position_sum_missing(c@, ts, k + 1);
                }
                return None;
            },
            Some(i) => {
                let sum = part + (i as u128) + 1;
                let ghost before = whole * l + part;
                proof {
                    lemma_fundamental_div_mod(sum as int, l as int);
                    assert(sum / l <= 2) by {
                        lemma_last_occurrence(c@, terms@[k as int]@);
                        assert(sum <= 2 * l);
                        lemma_div_is_ordered(sum as int, 2 * l, l as int);
                        assert((2 * l) / (l as int) == 2) by (nonlinear_arith)
                            requires l > 0;
                    }
                    assert((whole + sum / l) * l + sum % l == whole * l + sum) by (nonlinear_arith)
                        requires sum == l * (sum / l) + (sum % l);
                }
                whole = whole + sum / l;
                part = sum % l;
            },
        }
        k = k + 1;
    }
    assert(ts.take(terms@.len() as int) =~= ts);
    let key = 1000 * whole + (1000 * part) / l;
    proof {
        lemma_hoist_over_denominator((1000 * part) as int, (1000 * whole) as int, l as nat);
        assert(1000 * part + (1000 * whole) * l == 1000 * (whole * l + part)) by (nonlinear_arith);
    }
    Some(key)
}

/// Once a term is missing, the position sum stays undefined.
proof fn lemma_position_sum_missing(c: Seq<char>, ts: Seq<Seq<char>>, k: int)
    requires
        0 <= k <= ts.len(),
        position_sum(c, ts.take(k)) is None,
    ensures
        position_sum(c, ts) is None,
    decreases ts.len() - k,
{
    if k < ts.len() {
        assert(ts.take(k + 1).drop_last() =~= ts.take(k));
        lemma_position_sum_missing(c, ts, k + 1);
    } else {
        assert(ts.take(k) =~= ts);
    }
}

/// The scores of URIs for search terms, one for each URI.
pub open spec fn uri_keys(uris: Seq<String>, terms: Seq<String>) -> Seq<Option<int>> {
    uris.map(|i: int, u: String| uri_score(u@, terms))
}

/// `r` is the ranking of `uris` for `terms`: the URIs that match, best
/// score first, equal scores in input order.
pub open spec fn ranks_uris(uris: Seq<String>, terms: Seq<String>, r: Seq<String>) -> bool {
    ranked(uri_keys(uris, terms), uris, r)
}

/// The characters that a URI is scored as.
fn fold_uri(uri: &str) -> (r: Vec<char>)
    ensures
        r@ == folded_uri(uri@),
{
    let decoded = decode_or_keep(uri);
    let lower = lowercase(decoded.as_str());
    chars_of(lower.as_str())
}

/// The characters of the lower-case forms of the terms.
fn fold_terms(terms: &Vec<String>) -> (r: Vec<Vec<char>>)
    ensures
        r.deep_view() == lowered(terms@),
{
    let mut r: Vec<Vec<char>> = Vec::new();
    let mut k: usize = 0;
    while k < terms.len()
        invariant
            k <= terms@.len(),
            r.deep_view() == lowered(terms@).take(k as int),
        decreases terms@.len() - k,
    {
        let lower = lowercase(terms[k].as_str());
        let cs = chars_of(lower.as_str());
        assert(cs.deep_view() =~= lowered(terms@)[k as int]);
        let ghost prev = r.deep_view();
        r.push(cs);
        assert(r.deep_view() =~= prev.push(cs.deep_view()));
        assert(r.deep_view() =~= lowered(terms@).take(k + 1));
        k = k + 1;
    }
    assert(lowered(terms@).take(k as int) =~= lowered(terms@));
    r
}

/// Scores of the URIs for terms that are already folded.
fn score_each(uris: &Vec<String>, folded: &Vec<Vec<char>>, Ghost(terms): Ghost<Seq<String>>) -> (r: Vec<Option<u128>>)
    requires
        folded.deep_view() == lowered(terms),
    ensures
        key_view(r@) == uri_keys(uris@, terms),
{
    let mut r: Vec<Option<u128>> = Vec::new();
    let mut k: usize = 0;
    while k < uris.len()
        invariant
            folded.deep_view() == lowered(terms),
            k <= uris@.len(),
            r@.len() == k,
            forall|j: int| 0 <= j < k ==> #[trigger] key_view(r@)[j] == uri_score(uris@[j]@, terms),
        decreases uris@.len() - k,
    {
        let c = fold_uri(uris[k].as_str());
        let key = score_folded(&c, folded);
        let ghost prev = r@;
        r.push(key);
        assert forall|j: int| 0 <= j < k + 1 implies #[trigger] key_view(r@)[j] == uri_score(uris@[j]@, terms) by {
            if j < k {
                assert(r@[j] == prev[j]);
                assert(key_view(prev)[j] == uri_score(uris@[j]@, terms));
            }
        }
        k = k + 1;
    }
    assert(key_view(r@) =~= uri_keys(uris@, terms));
    r
}

/// The scores of URIs for search terms, one for each URI, in thousandths
/// rounded down; `None` for a URI that does not match.
pub fn score_uris(uris: &Vec<String>, terms: &Vec<String>) -> (r: Vec<Option<u128>>)
    ensures
        key_view(r@) == uri_keys(uris@, terms@),
{
    let folded = fold_terms(terms);
    score_each(uris, &folded, Ghost(terms@))
}

/// How well `uri` matches all of `terms`, in thousandths rounded down.
///
/// The URI is percent-decoded where that succeeds and compared in lower
/// case; `None` where a term does not occur in it, where it is empty, and
/// where there are no terms.
pub fn score_uri(uri: &str, terms: &Vec<String>) -> (r: Option<u128>)
    ensures
        r matches Some(k) ==> uri_score(uri@, terms@) == Some(k as int),
        r is None ==> uri_score(uri@, terms@) is None,
{
    let folded = fold_terms(terms);
    let c = fold_uri(uri);
    score_folded(&c, &folded)
}

/// The labels of the ranked positions, in order.
pub fn pick_labels(labels: &Vec<String>, order: &Vec<usize>) -> (r: Vec<String>)
    requires
        forall|a: int| 0 <= a < order@.len() ==> #[trigger] order@[a] < labels@.len(),
    ensures
        labelled(labels@, order@.map(|a: int, i: usize| i as int), r@),
{
    let mut r: Vec<String> = Vec::new();
    let mut a: usize = 0;
    while a < order.len()
        invariant
            a <= order@.len(),
            forall|b: int| 0 <= b < order@.len() ==> #[trigger] order@[b] < labels@.len(),
            r@.len() == a,
            forall|b: int| 0 <= b < a ==> r@[b] == labels@[order@[b] as int],
        decreases order@.len() - a,
    {
        r.push(labels[order[a]].clone());
        a = a + 1;
    }
    r
}

/// The URIs of `uris` that match all of `terms`, best score first; URIs of
/// equal score keep their relative order.
pub fn find_matching_uris(uris: Vec<String>, terms: &Vec<String>) -> (r: Vec<String>)
    ensures
        ranks_uris(uris@, terms@, r@),
{
    let keys = score_uris(&uris, terms);
    let order = rank_order(&keys);
    let ghost o = order@.map(|a: int, i: usize| i as int);
    assert forall|a: int| 0 <= a < order@.len() implies #[trigger] order@[a] < uris@.len() by {
        assert(o[a] == order@[a] as int);
    }
    let r = pick_labels(&uris, &order);
    assert(is_ranking(uri_keys(uris@, terms@), o) && labelled(uris@, o, r@));
    r
}

/// Ranking is deterministic: the same URIs and terms always give the same
/// result.
pub proof fn lemma_rank_deterministic(uris: Seq<String>, terms: Seq<String>, r1: Seq<String>, r2: Seq<String>)
    requires
        ranks_uris(uris, terms, r1),
        ranks_uris(uris, terms, r2),
    ensures
        r1 == r2,
{
    let ks = uri_keys(uris, terms);
    let o1 = choose|o: Seq<int>| #[trigger] is_ranking(ks, o) && labelled(uris, o, r1);
    let o2 = choose|o: Seq<int>| #[trigger] is_ranking(ks, o) && labelled(uris, o, r2);
    lemma_ranking_unique(ks, o1, o2);
    assert forall|a: int| 0 <= a < r1.len() implies r1[a] == r2[a] by {
        assert(r1[a] == uris[o1[a]]);
        assert(r2[a] == uris[o2[a]]);
    }
    assert(r1 =~= r2);
}

/// A term that is missing leaves no position sum.
proof fn lemma_position_sum_term_missing(c: Seq<char>, ts: Seq<Seq<char>>, k: int)
    requires
        0 <= k < ts.len(),
        !occurs(c, ts[k]),
    ensures
        position_sum(c, ts) is None,
    decreases ts.len(),
{
    lemma_last_occurrence(c, ts[k]);
    if k < ts.len() - 1 {
        assert(ts.drop_last()[k] == ts[k]);
        lemma_position_sum_term_missing(c, ts.drop_last(), k);
    }
}

/// A URI in which one of the terms does not occur, after decoding and in
/// lower case, has no score and is left out of every ranking, however well
/// the other terms match.
pub proof fn lemma_all_terms_required(uris: Seq<String>, terms: Seq<String>, i: int, k: int)
    requires
        0 <= i < uris.len(),
        0 <= k < terms.len(),
        !occurs(folded_uri(uris[i]@), lower_of(terms[k]@)),
    ensures
        uri_score(uris[i]@, terms) is None,
        forall|order: Seq<int>| #[trigger] is_ranking(uri_keys(uris, terms), order) ==> !order.contains(i),
{
    lemma_position_sum_term_missing(folded_uri(uris[i]@), lowered(terms), k);
    let ks = uri_keys(uris, terms);
    assert(ks[i] is None);
    assert forall|order: Seq<int>| #[trigger] is_ranking(ks, order) implies !order.contains(i) by {
        if order.contains(i) {
            let a = choose|a: int| 0 <= a < order.len() && order[a] == i;
            assert(ks[order[a]] is Some);
        }
    }
}

/// URIs of equal score keep their relative input order in a ranking.
pub proof fn lemma_equal_scores_keep_order(uris: Seq<String>, terms: Seq<String>, order: Seq<int>, a: int, b: int)
    requires
        is_ranking(uri_keys(uris, terms), order),
        0 <= a < order.len(),
        0 <= b < order.len(),
        uri_score(uris[order[a]]@, terms) == uri_score(uris[order[b]]@, terms),
        order[a] < order[b],
    ensures
        a < b,
{
    let ks = uri_keys(uris, terms);
    if b < a {
        assert(precedes(ks, order[b], order[a]));
    }
}

} // verus!
