//! Pruning of a candidate list against the committee roster.
//!
//! A candidate survives exactly when it carries a non-empty email that is
//! not already on the roster; candidates without an email cannot be
//! checked for novelty and are always dropped.  The survivors keep their
//! input order.

use crate::record::{views, Reviewer, ReviewerV};
use vstd::prelude::*;
use vstd::string::StrSliceExecFns;

verus! {

/// The views of a list of roster emails.
pub open spec fn email_views(s: Seq<String>) -> Seq<Seq<char>> {
    s.map_values(|e: String| e@)
}

/// Whether a candidate survives pruning against the given roster.
pub open spec fn keeps(r: ReviewerV, roster: Seq<Seq<char>>) -> bool {
    match r.email {
        Some(e) => e.len() > 0 && !roster.contains(e),
        None => false,
    }
}

/// The pruned form of a candidate list.
pub open spec fn prune_spec(s: Seq<ReviewerV>, roster: Seq<Seq<char>>) -> Seq<ReviewerV> {
    s.filter(|r: ReviewerV| keeps(r, roster))
}

/// Whether the roster holds the given email.
fn roster_contains(roster_emails: &Vec<String>, email: &String) -> (r: bool)
    ensures
        r == email_views(roster_emails@).contains(email@),
{
    let ghost ros = email_views(roster_emails@);
    let mut i: usize = 0;
    while i < roster_emails.len()
        invariant
            i <= roster_emails@.len(),
            ros == email_views(roster_emails@),
            ros.len() == roster_emails@.len(),
            forall|k: int| 0 <= k < i ==> ros[k] != email@,
        decreases roster_emails@.len() - i,
    {
        if *email == roster_emails[i] {
            proof {
                assert(ros[i as int] == email@);
            }
            return true;
        }
        i += 1;
    }
    proof {
        assert(!ros.contains(email@)) by {
            if ros.contains(email@) {
                let k = choose|k: int| 0 <= k < ros.len() && ros[k] == email@;
            }
        }
    }
    false
}

/// Retains exactly the candidates with a non-empty email that is absent
/// from the roster, in their input order.
pub fn prune(candidates: &Vec<Reviewer>, roster_emails: &Vec<String>) -> (r: Vec<Reviewer>)
    ensures
        views(r@) == prune_spec(views(candidates@), email_views(roster_emails@)),
        forall|k: int|
            0 <= k < r@.len() ==> keeps(#[trigger] r@[k]@, email_views(roster_emails@)),
{
    broadcast use vstd::seq_lib::group_filter_ensures;

    let ghost s = views(candidates@);
    let ghost ros = email_views(roster_emails@);
    let ghost pred = |rv: ReviewerV| keeps(rv, ros);
    let mut out: Vec<Reviewer> = Vec::new();
    proof {
        assert(s.take(0) =~= Seq::<ReviewerV>::empty());
        assert(Seq::<ReviewerV>::empty().filter(pred) =~= Seq::<ReviewerV>::empty()) by {
            reveal_with_fuel(Seq::filter, 2);
        }
    }
    let mut i: usize = 0;
    while i < candidates.len()
        invariant
            i <= candidates@.len(),
            s == views(candidates@),
            s.len() == candidates@.len(),
            ros == email_views(roster_emails@),
            pred == (|rv: ReviewerV| keeps(rv, ros)),
            views(out@) == s.take(i as int).filter(pred),
        decreases candidates@.len() - i,
    {
        let kept: bool = match &candidates[i].email {
            Some(e) => e.as_str().unicode_len() > 0 && !roster_contains(roster_emails, e),
            None => false,
        };
        proof {
            assert(kept == pred(s[i as int]));
        }
        if kept {
            let ghost pre = views(out@);
            out.push(candidates[i].duplicate());
            proof {
                assert(views(out@) =~= pre.push(s[i as int]));
            }
        }
        proof {
            assert(s.take(i as int).push(s[i as int]) =~= s.take(i as int + 1));
            s.take(i as int).lemma_filter_push(s[i as int], pred);
        }
        i += 1;
    }
    proof {
        assert(s.take(s.len() as int) =~= s);
        assert forall|k: int| 0 <= k < out@.len() implies keeps(
            #[trigger] out@[k]@,
            email_views(roster_emails@),
        ) by {
            assert(views(out@)[k] == s.filter(pred)[k]);
            assert(pred(s.filter(pred)[k]));
        }
    }
    out
}

/// Pruning safety: no surviving record's email is on the roster, and no
/// surviving record lacks an email or carries an empty one.
pub proof fn lemma_prune_safety(s: Seq<ReviewerV>, roster: Seq<Seq<char>>, k: int)
    requires
        0 <= k < prune_spec(s, roster).len(),
    ensures
        prune_spec(s, roster)[k].email is Some,
        prune_spec(s, roster)[k].email->0.len() > 0,
        !roster.contains(prune_spec(s, roster)[k].email->0),
{
    broadcast use vstd::seq_lib::group_filter_ensures;

    let pred = |r: ReviewerV| keeps(r, roster);
    assert(pred(prune_spec(s, roster)[k]));
}

} // verus!
