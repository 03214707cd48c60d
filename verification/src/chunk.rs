//! Chunking of a record collection into contiguous batches.
//!
//! A collection of `N` records and batch size `b` yields `ceil(N / b)`
//! batches; every batch is non-empty, no batch exceeds `b` records, the
//! last batch may be smaller, and concatenating the batches in order
//! restores the collection.

use crate::record::{views, Reviewer, ReviewerV};
use vstd::prelude::*;

verus! {

/// The contiguous chunks of `s` with chunk size `b`: full chunks of `b`
/// elements, then one final chunk holding the remainder, if any.
pub open spec fn chunks_spec(s: Seq<ReviewerV>, b: int) -> Seq<Seq<ReviewerV>>
    decreases s.len(),
{
    if b < 1 {
        Seq::empty()
    } else if s.len() == 0 {
        Seq::empty()
    } else if s.len() <= b {
        seq![s]
    } else {
        seq![s.take(b)] + chunks_spec(s.skip(b), b)
    }
}

/// The models of a sequence of record batches.
pub open spec fn chunk_views(s: Seq<Vec<Reviewer>>) -> Seq<Seq<ReviewerV>> {
    s.map_values(|v: Vec<Reviewer>| views(v@))
}

/// Splits `records` into contiguous batches of `batch_size` records, the
/// last batch possibly smaller.
pub fn chunk(records: &Vec<Reviewer>, batch_size: usize) -> (r: Vec<Vec<Reviewer>>)
    requires
        batch_size >= 1,
    ensures
        chunk_views(r@) == chunks_spec(views(records@), batch_size as int),
{
    let ghost s = views(records@);
    let ghost b = batch_size as int;
    let mut out: Vec<Vec<Reviewer>> = Vec::new();
    let mut i: usize = 0;
    proof {
        assert(s.skip(0) =~= s);
        assert(chunk_views(out@) + chunks_spec(s.skip(0), b) =~= chunks_spec(s, b));
    }
    while i < records.len()
        invariant
            batch_size >= 1,
            b == batch_size as int,
            s == views(records@),
            i <= records@.len(),
            chunks_spec(s, b) == chunk_views(out@) + chunks_spec(s.skip(i as int), b),
        decreases records@.len() - i,
    {
        let end = if records.len() - i < batch_size {
            records.len()
        } else {
            i + batch_size
        };
        let mut c: Vec<Reviewer> = Vec::new();
        let mut j: usize = i;
        while j < end
            invariant
                i <= j <= end,
                end <= records@.len(),
                s == views(records@),
                s.len() == records@.len(),
                c@.len() == j - i,
                forall|k: int| 0 <= k < c@.len() ==> c@[k]@ == s[i + k],
            decreases end - j,
        {
            c.push(records[j].duplicate());
            j += 1;
        }
        proof {
            assert(views(c@) =~= s.subrange(i as int, end as int));
        }
        out.push(c);
        proof {
            let rest = s.skip(i as int);
            if rest.len() <= b {
                assert(s.subrange(i as int, end as int) =~= rest);
                assert(chunks_spec(rest, b) =~= seq![rest]);
            } else {
                assert(s.subrange(i as int, end as int) =~= rest.take(b));
                assert(rest.skip(b) =~= s.skip(end as int));
            }
            assert(chunk_views(out@) + chunks_spec(s.skip(end as int), b)
                =~= (chunk_views(out@.drop_last()) + seq![s.subrange(i as int, end as int)])
                + chunks_spec(s.skip(end as int), b));
            assert(chunk_views(out@) + chunks_spec(s.skip(end as int), b)
                == chunks_spec(s, b));
        }
        i = end;
    }
    proof {
        assert(s.skip(s.len() as int) =~= Seq::<ReviewerV>::empty());
        assert(chunk_views(out@) + chunks_spec(s.skip(i as int), b) =~= chunk_views(out@));
    }
    out
}

/// Every chunk is non-empty and holds at most `b` records.
pub proof fn lemma_chunks_sizes(s: Seq<ReviewerV>, b: int)
    requires
        b >= 1,
    ensures
        forall|k: int|
            0 <= k < chunks_spec(s, b).len() ==> 0 < #[trigger] chunks_spec(s, b)[k].len()
                <= b,
    decreases s.len(),
{
    let c = chunks_spec(s, b);
    if s.len() > b {
        lemma_chunks_sizes(s.skip(b), b);
        assert forall|k: int| 0 <= k < c.len() implies 0 < #[trigger] c[k].len() <= b by {
            if k == 0 {
                assert(c[k] == s.take(b));
            } else {
                assert(c[k] == chunks_spec(s.skip(b), b)[k - 1]);
            }
        }
    } else if s.len() > 0 {
        assert(c[0] == s);
    }
}

/// The chunks cover the input exactly once: flattening them in order
/// restores the input sequence.
pub proof fn lemma_chunks_flatten(s: Seq<ReviewerV>, b: int)
    requires
        b >= 1,
    ensures
        chunks_spec(s, b).flatten() == s,
    decreases s.len(),
{
    if s.len() == 0 {
        assert(chunks_spec(s, b).flatten() =~= s);
    } else if s.len() <= b {
        assert(chunks_spec(s, b) =~= seq![s]);
        assert(seq![s].flatten() =~= s) by {
            seq![s].lemma_flatten_one_element();
        }
    } else {
        lemma_chunks_flatten(s.skip(b), b);
        let c = chunks_spec(s, b);
        assert(c.len() >= 1);
        assert(c.first() == s.take(b));
        assert(c.drop_first() =~= chunks_spec(s.skip(b), b));
        assert(c.flatten() == c.first().add(c.drop_first().flatten()));
        assert(c.flatten() =~= s.take(b) + s.skip(b));
        assert(s.take(b) + s.skip(b) =~= s);
    }
}

/// The number of chunks is the input length divided by `b`, rounded up.
pub proof fn lemma_chunks_count(s: Seq<ReviewerV>, b: int)
    requires
        b >= 1,
    ensures
        chunks_spec(s, b).len() == (s.len() + b - 1) / b,
    decreases s.len(),
{
    let n = s.len() as int;
    if s.len() == 0 {
        assert((b - 1) / b == 0) by (nonlinear_arith)
            requires
                b >= 1,
        ;
    } else if s.len() <= b {
        assert((n + b - 1) / b == 1) by (nonlinear_arith)
            requires
                b >= 1 && 1 <= n <= b,
        ;
    } else {
        lemma_chunks_count(s.skip(b), b);
        assert(chunks_spec(s, b).len() == 1 + (n - b + b - 1) / b);
        assert(1 + (n - 1) / b == (n - 1 + b) / b) by (nonlinear_arith)
            requires
                b >= 1 && n > b,
        ;
    }
}

} // verus!
