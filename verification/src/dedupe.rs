//! Removal of repeated raw entries by their `raw_name` key.
//!
//! The first occurrence of each distinct `raw_name` wins; later duplicates
//! are dropped and the relative order of the survivors is preserved.
//! Equality on keys is exact string equality, with an absent name equal
//! only to another absent name.

use crate::record::{opt_view, views, Reviewer, ReviewerV};
use vstd::prelude::*;

verus! {

/// Whether position `i` of `s` repeats the `raw_name` of an earlier position.
pub open spec fn seen_before(s: Seq<ReviewerV>, i: int) -> bool {
    exists|j: int| 0 <= j < i && s[j].raw_name == s[i].raw_name
}

/// First-occurrence-wins deduplication of a record sequence by `raw_name`.
pub open spec fn dedup_spec(s: Seq<ReviewerV>) -> Seq<ReviewerV>
    decreases s.len(),
{
    if s.len() == 0 {
        Seq::empty()
    } else if seen_before(s, s.len() - 1) {
        dedup_spec(s.drop_last())
    } else {
        dedup_spec(s.drop_last()).push(s.last())
    }
}

/// Whether some element of `s` carries the key `k`.
pub open spec fn key_in(s: Seq<ReviewerV>, k: Option<Seq<char>>) -> bool {
    exists|i: int| 0 <= i < s.len() && s[i].raw_name == k
}

/// Whether no two elements of `s` share a `raw_name`.
pub open spec fn distinct_keys(s: Seq<ReviewerV>) -> bool {
    forall|i: int, j: int| 0 <= i < j < s.len() ==> s[i].raw_name != s[j].raw_name
}

/// Compares two optional strings by value.
pub fn opt_str_eq(a: &Option<String>, b: &Option<String>) -> (r: bool)
    ensures
        r == (opt_view(*a) == opt_view(*b)),
{
    match (a, b) {
        (None, None) => true,
        (Some(x), Some(y)) => *x == *y,
        _ => false,
    }
}

/// Retains the first occurrence of each distinct `raw_name`, preserving the
/// input order of the survivors.
pub fn dedupe(records: &Vec<Reviewer>) -> (r: Vec<Reviewer>)
    ensures
        views(r@) == dedup_spec(views(records@)),
{
    let ghost s = views(records@);
    let mut out: Vec<Reviewer> = Vec::new();
    let mut i: usize = 0;
    while i < records.len()
        invariant
            i <= records@.len(),
            s == views(records@),
            views(out@) == dedup_spec(s.take(i as int)),
        decreases records@.len() - i,
    {
        let mut j: usize = 0;
        let mut seen = false;
        while j < i
            invariant
                j <= i,
                i < records@.len(),
                s == views(records@),
                seen == exists|k: int| 0 <= k < j && s[k].raw_name == s[i as int].raw_name,
            decreases i - j,
        {
            if opt_str_eq(&records[j].raw_name, &records[i].raw_name) {
                seen = true;
                proof {
                    assert(s[j as int].raw_name == s[i as int].raw_name);
                }
            }
            j += 1;
        }
        proof {
            let t = s.take(i as int + 1);
            assert(t.drop_last() =~= s.take(i as int));
            assert(t.last() == s[i as int]);
            assert(seen == seen_before(t, t.len() - 1)) by {
                if seen {
                    let k = choose|k: int|
                        0 <= k < i && s[k].raw_name == s[i as int].raw_name;
                    assert(t[k].raw_name == t[t.len() - 1].raw_name);
                }
                if seen_before(t, t.len() - 1) {
                    let k = choose|k: int|
                        0 <= k < t.len() - 1 && #[trigger] t[k].raw_name == t[t.len()
                            - 1].raw_name;
                    assert(s[k].raw_name == s[i as int].raw_name);
                }
            }
        }
        if !seen {
            let picked = records[i].duplicate();
            out.push(picked);
            proof {
                assert(views(out@) =~= dedup_spec(s.take(i as int + 1)));
            }
        }
        i += 1;
    }
    proof {
        assert(s.take(s.len() as int) =~= s);
    }
    out
}

/// Every key of the deduplicated sequence already occurs in the input.
pub proof fn lemma_dedup_keys_subset(s: Seq<ReviewerV>, k: Option<Seq<char>>)
    requires
        key_in(dedup_spec(s), k),
    ensures
        key_in(s, k),
    decreases s.len(),
{
    if s.len() > 0 {
        let d = dedup_spec(s);
        let dp = dedup_spec(s.drop_last());
        if seen_before(s, s.len() - 1) || d.last().raw_name != k {
            // the witness lies in the deduplicated prefix
            let i = choose|i: int| 0 <= i < d.len() && d[i].raw_name == k;
            if seen_before(s, s.len() - 1) {
                assert(dp[i].raw_name == k);
            } else if i < d.len() - 1 {
                assert(dp[i].raw_name == k);
            } else {
                assert(s[s.len() - 1].raw_name == k);
            }
            if key_in(dp, k) {
                lemma_dedup_keys_subset(s.drop_last(), k);
                let w = choose|w: int|
                    0 <= w < s.drop_last().len() && s.drop_last()[w].raw_name == k;
                assert(s[w].raw_name == k);
            }
        } else {
            assert(s[s.len() - 1].raw_name == k);
        }
    }
}

/// Deduplication never repeats a `raw_name`: the output keys are distinct.
pub proof fn lemma_dedup_distinct(s: Seq<ReviewerV>)
    ensures
        distinct_keys(dedup_spec(s)),
    decreases s.len(),
{
    if s.len() > 0 {
        lemma_dedup_distinct(s.drop_last());
        let d = dedup_spec(s);
        let dp = dedup_spec(s.drop_last());
        if !seen_before(s, s.len() - 1) {
            assert forall|i: int, j: int| 0 <= i < j < d.len() implies
                d[i].raw_name != d[j].raw_name by {
                if j == d.len() - 1 {
                    if d[i].raw_name == d[j].raw_name {
                        assert(key_in(dp, s.last().raw_name));
                        lemma_dedup_keys_subset(s.drop_last(), s.last().raw_name);
                        let w = choose|w: int|
                            0 <= w < s.drop_last().len()
                                && s.drop_last()[w].raw_name == s.last().raw_name;
                        assert(s[w].raw_name == s[s.len() - 1].raw_name);
                        assert(seen_before(s, s.len() - 1));
                    }
                } else {
                    assert(d[i] == dp[i] && d[j] == dp[j]);
                }
            }
        }
    }
}

/// Deduplication never grows a sequence.
pub proof fn lemma_dedup_len(s: Seq<ReviewerV>)
    ensures
        dedup_spec(s).len() <= s.len(),
    decreases s.len(),
{
    if s.len() > 0 {
        lemma_dedup_len(s.drop_last());
    }
}

/// A sequence whose keys are already distinct is left unchanged.
pub proof fn lemma_dedup_of_distinct(s: Seq<ReviewerV>)
    requires
        distinct_keys(s),
    ensures
        dedup_spec(s) == s,
    decreases s.len(),
{
    if s.len() > 0 {
        assert(distinct_keys(s.drop_last())) by {
            assert(forall|i: int| 0 <= i < s.len() - 1 ==> s.drop_last()[i] == s[i]);
        }
        lemma_dedup_of_distinct(s.drop_last());
        assert(!seen_before(s, s.len() - 1));
        assert(dedup_spec(s) =~= s);
    }
}

/// Dedup idempotence: deduplicating a deduplicated sequence changes nothing.
pub proof fn lemma_dedup_idempotent(s: Seq<ReviewerV>)
    ensures
        dedup_spec(dedup_spec(s)) == dedup_spec(s),
{
    lemma_dedup_distinct(s);
    lemma_dedup_of_distinct(dedup_spec(s));
}

} // verus!
