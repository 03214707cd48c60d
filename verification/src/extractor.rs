//! The batch extractor: chunked, retry-bounded, resumable extraction.
//!
//! The extractor is a state machine.  The caller repeatedly asks for the
//! current request (a system and a user prompt), performs the oracle call
//! itself, and feeds the outcome back in.  A structurally valid response
//! finishes the current batch, partitioning its records into successes
//! and failures by the email criterion; an invalid response consumes one
//! of the batch's attempts, and a batch whose attempts run out fails as
//! a whole, carrying its original raw records into the failure list.  An
//! absent response aborts the run.  Every fed-back response yields a
//! transcript (name and content) that the caller must persist.

use crate::chunk::{chunk, chunk_views, chunks_spec};
use crate::codec::{batch_to_json, batch_from_json, json_batch, sp_batch};
use crate::index::{batch_context, context_spec, index_view};
use crate::prompt::{assemble_user_prompt, replace_spec};
use crate::record::{views, Reviewer, ReviewerV};
use crate::transcript::{
    transcript_content,
    transcript_file_name,
    transcript_name_spec,
    transcript_text_spec,
};
use crate::{BATCH_SIZE, MAX_ATTEMPTS};
use std::collections::HashMap;
use vstd::prelude::*;

verus! {

/// The records of a parsed batch that count as successes.
pub open spec fn successes_of(rs: Seq<ReviewerV>) -> Seq<ReviewerV> {
    rs.filter(|r: ReviewerV| r.is_successful())
}

/// The records of a parsed batch that count as failures.
pub open spec fn failures_of(rs: Seq<ReviewerV>) -> Seq<ReviewerV> {
    rs.filter(|r: ReviewerV| !r.is_successful())
}

/// Partition completeness: every record of a parsed batch is counted
/// exactly once, as a success or as a failure.
pub proof fn lemma_partition_complete(rs: Seq<ReviewerV>)
    ensures
        successes_of(rs).len() + failures_of(rs).len() == rs.len(),
    decreases rs.len(),
{
    reveal_with_fuel(Seq::filter, 2);
    if rs.len() > 0 {
        lemma_partition_complete(rs.drop_last());
    }
}

/// The mathematical state of the extractor.
#[verifier::ext_equal]
pub struct ExtractorModel {
    pub batches: Seq<Seq<ReviewerV>>,
    pub prompts: Seq<Seq<char>>,
    pub system_prompt: Seq<char>,
    pub batch_idx: int,
    pub attempt: int,
    pub successes: Seq<ReviewerV>,
    pub failures: Seq<ReviewerV>,
    pub aborted: bool,
    pub logged: Seq<(int, int)>,
}

/// What one fed-back response does to the extractor state.
pub open spec fn step_spec(m: ExtractorModel, response: Seq<char>) -> ExtractorModel {
    let logged2 = m.logged.push((m.batch_idx, m.attempt));
    match sp_batch(response) {
        Some(rs) => (ExtractorModel {
            batch_idx: m.batch_idx + 1,
            attempt: 0,
            successes: m.successes + successes_of(rs),
            failures: m.failures + failures_of(rs),
            logged: logged2,
            ..m
        }),
        None => if m.attempt + 1 < MAX_ATTEMPTS {
            (ExtractorModel { attempt: m.attempt + 1, logged: logged2, ..m })
        } else {
            (ExtractorModel {
                batch_idx: m.batch_idx + 1,
                attempt: 0,
                failures: m.failures + m.batches[m.batch_idx],
                logged: logged2,
                ..m
            })
        },
    }
}

/// The user prompt of one batch: the template with the raw-data block
/// and the submission-context block substituted in.
pub open spec fn batch_prompt_spec(
    batch: Seq<ReviewerV>,
    m: Map<u64, Seq<char>>,
    template: Seq<char>,
) -> Seq<char> {
    replace_spec(
        replace_spec(template, "<REVIEWER_RAW_DATA>"@, json_batch(batch)),
        "<SUBMISSION_DETAILS>"@,
        context_spec(batch, m),
    )
}

/// The extractor.  `batches` holds the deduplicated input in chunks of
/// [`BATCH_SIZE`], `prompts` the pre-assembled user prompt of each batch.
pub struct BatchExtractor {
    pub batches: Vec<Vec<Reviewer>>,
    pub prompts: Vec<String>,
    pub system_prompt: String,
    pub batch_idx: usize,
    pub attempt: usize,
    pub successes: Vec<Reviewer>,
    pub failures: Vec<Reviewer>,
    pub aborted: bool,
    pub logged: Ghost<Seq<(int, int)>>,
}

impl View for BatchExtractor {
    type V = ExtractorModel;

    open spec fn view(&self) -> ExtractorModel {
        ExtractorModel {
            batches: chunk_views(self.batches@),
            prompts: self.prompts@.map_values(|p: String| p@),
            system_prompt: self.system_prompt@,
            batch_idx: self.batch_idx as int,
            attempt: self.attempt as int,
            successes: views(self.successes@),
            failures: views(self.failures@),
            aborted: self.aborted,
            logged: self.logged@,
        }
    }
}

impl BatchExtractor {
    /// The structural invariant of a live extractor.
    pub open spec fn wf(self) -> bool {
        &&& self.prompts@.len() == self.batches@.len()
        &&& self.batch_idx as int <= self.batches@.len()
        &&& (self.attempt as int) < MAX_ATTEMPTS as int
    }

    /// Whether the run is over: all batches handled, or aborted.
    pub open spec fn done_spec(self) -> bool {
        self.batch_idx as int >= self.batches@.len() || self.aborted
    }

    /// Prepares a run: chunks the records, assembles each batch's user
    /// prompt from the template, the batch's serialized raw data and its
    /// submission context.
    pub fn new(
        records: &Vec<Reviewer>,
        index: &HashMap<u64, String>,
        system_prompt: String,
        user_template: &str,
    ) -> (r: BatchExtractor)
        ensures
            r.wf(),
            r@.batches == chunks_spec(views(records@), BATCH_SIZE as int),
            r@.system_prompt == system_prompt@,
            r@.batch_idx == 0,
            r@.attempt == 0,
            r@.successes == Seq::<ReviewerV>::empty(),
            r@.failures == Seq::<ReviewerV>::empty(),
            r@.aborted == false,
            r@.logged == Seq::<(int, int)>::empty(),
            forall|k: int|
                0 <= k < r@.batches.len() ==> r@.prompts[k] == batch_prompt_spec(
                    r@.batches[k],
                    index_view(index@),
                    user_template@,
                ),
    {
        let batches = chunk(records, BATCH_SIZE);
        let ghost bv = chunk_views(batches@);
        let mut prompts: Vec<String> = Vec::new();
        let mut i: usize = 0;
        while i < batches.len()
            invariant
                bv == chunk_views(batches@),
                bv.len() == batches@.len(),
                i <= batches@.len(),
                prompts@.len() == i,
                forall|k: int|
                    0 <= k < i ==> prompts@[k]@ == batch_prompt_spec(
                        bv[k],
                        index_view(index@),
                        user_template@,
                    ),
            decreases batches@.len() - i,
        {
            let raw = batch_to_json(&batches[i]);
            let ctx = batch_context(&batches[i], index);
            let p = assemble_user_prompt(user_template, raw.as_str(), ctx.as_str());
            prompts.push(p);
            i += 1;
        }
        BatchExtractor {
            batches,
            prompts,
            system_prompt,
            batch_idx: 0,
            attempt: 0,
            successes: Vec::new(),
            failures: Vec::new(),
            aborted: false,
            logged: Ghost(Seq::empty()),
        }
    }

    /// Whether the run is over.
    pub fn is_done(&self) -> (r: bool)
        ensures
            r == self.done_spec(),
    {
        self.aborted || self.batch_idx >= self.batches.len()
    }

    /// The request to put to the oracle next: the system prompt and the
    /// current batch's user prompt.
    pub fn current_request(&self) -> (r: Option<(String, String)>)
        requires
            self.wf(),
        ensures
            match r {
                Some(p) => !self.done_spec() && p.0@ == self@.system_prompt && p.1@
                    == self@.prompts[self@.batch_idx],
                None => self.done_spec(),
            },
    {
        if self.aborted || self.batch_idx >= self.batches.len() {
            None
        } else {
            Some((self.system_prompt.clone(), self.prompts[self.batch_idx].clone()))
        }
    }

    /// Feeds back the text of one oracle response.  Returns the
    /// transcript (file name, content) of the exchange, which the caller
    /// must persist; the state advances by [`step_spec`].
    pub fn on_response(&mut self, response: &str) -> (log: (String, String))
        requires
            old(self).wf(),
            !old(self).done_spec(),
        ensures
            final(self).wf(),
            final(self)@ == step_spec(old(self)@, response@),
            log.0@ == transcript_name_spec(
                old(self)@.batch_idx as nat,
                old(self)@.attempt as nat,
            ),
            log.1@ == transcript_text_spec(
                old(self)@.system_prompt,
                old(self)@.prompts[old(self)@.batch_idx],
                response@,
            ),
    {
        let nb = self.batches.len();
        let name = transcript_file_name(self.batch_idx, self.attempt);
        let content = transcript_content(
            self.system_prompt.as_str(),
            self.prompts[self.batch_idx].as_str(),
            response,
        );
        proof {
            self.logged@ = self.logged@.push((self.batch_idx as int, self.attempt as int));
        }
        match batch_from_json(response) {
            Some(parsed) => {
                let ghost pv = views(parsed@);
                let ghost succ0 = views(self.successes@);
                let ghost fail0 = views(self.failures@);
                let mut q: usize = 0;
                proof {
                    reveal_with_fuel(Seq::filter, 2);
                    assert(pv.take(0) =~= Seq::<ReviewerV>::empty());
                    assert(succ0 + successes_of(pv.take(0)) =~= succ0);
                    assert(fail0 + failures_of(pv.take(0)) =~= fail0);
                }
                while q < parsed.len()
                    invariant
                        pv == views(parsed@),
                        pv.len() == parsed@.len(),
                        q <= parsed@.len(),
                        views(self.successes@) == succ0 + successes_of(pv.take(q as int)),
                        views(self.failures@) == fail0 + failures_of(pv.take(q as int)),
                        self.batches@ == old(self).batches@,
                        self.prompts@ == old(self).prompts@,
                        self.system_prompt == old(self).system_prompt,
                        self.batch_idx == old(self).batch_idx,
                        self.attempt == old(self).attempt,
                        self.aborted == old(self).aborted,
                        self.logged@ == old(self).logged@.push(
                            (old(self).batch_idx as int, old(self).attempt as int),
                        ),
                        nb == self.batches@.len(),
                        self.batch_idx < nb,
                    decreases parsed@.len() - q,
                {
                    let rec = parsed[q].duplicate();
                    let ghost spre = views(self.successes@);
                    let ghost fpre = views(self.failures@);
                    if rec.is_successful() {
                        self.successes.push(rec);
                        proof {
                            assert(views(self.successes@) =~= spre.push(pv[q as int]));
                        }
                    } else {
                        self.failures.push(rec);
                        proof {
                            assert(views(self.failures@) =~= fpre.push(pv[q as int]));
                        }
                    }
                    proof {
                        assert(pv.take(q as int).push(pv[q as int]) =~= pv.take(q as int + 1));
                        pv.take(q as int).lemma_filter_push(
                            pv[q as int],
                            |r: ReviewerV| r.is_successful(),
                        );
                        pv.take(q as int).lemma_filter_push(
                            pv[q as int],
                            |r: ReviewerV| !r.is_successful(),
                        );
                        if pv[q as int].is_successful() {
                            assert(views(self.successes@) =~= succ0 + successes_of(
                                pv.take(q as int + 1),
                            ));
                            assert(views(self.failures@) =~= fail0 + failures_of(
                                pv.take(q as int + 1),
                            ));
                        } else {
                            assert(views(self.successes@) =~= succ0 + successes_of(
                                pv.take(q as int + 1),
                            ));
                            assert(views(self.failures@) =~= fail0 + failures_of(
                                pv.take(q as int + 1),
                            ));
                        }
                    }
                    q += 1;
                }
                self.batch_idx += 1;
                self.attempt = 0;
                proof {
                    assert(pv.take(pv.len() as int) =~= pv);
                    assert(self@ =~~= step_spec(old(self)@, response@));
                }
            },
            None => {
                if self.attempt + 1 < MAX_ATTEMPTS {
                    self.attempt += 1;
                    proof {
                        assert(self@ =~~= step_spec(old(self)@, response@));
                    }
                } else {
                    let ghost fail0 = views(self.failures@);
                    let ghost bv = chunk_views(self.batches@)[self.batch_idx as int];
                    let mut k: usize = 0;
                    let batch_len = self.batches[self.batch_idx].len();
                    proof {
                        assert(fail0 + bv.take(0) =~= fail0);
                    }
                    while k < batch_len
                        invariant
                            (self.batch_idx as int) < self.batches@.len(),
                            bv == chunk_views(self.batches@)[self.batch_idx as int],
                            bv.len() == batch_len,
                            batch_len == self.batches@[self.batch_idx as int]@.len(),
                            k <= batch_len,
                            views(self.failures@) == fail0 + bv.take(k as int),
                            self.batches@ == old(self).batches@,
                            self.prompts@ == old(self).prompts@,
                            self.system_prompt == old(self).system_prompt,
                            self.batch_idx == old(self).batch_idx,
                            self.attempt == old(self).attempt,
                            self.aborted == old(self).aborted,
                            self.successes@ == old(self).successes@,
                            self.logged@ == old(self).logged@.push(
                                (old(self).batch_idx as int, old(self).attempt as int),
                            ),
                            nb == self.batches@.len(),
                            self.batch_idx < nb,
                        decreases batch_len - k,
                    {
                        let rec = self.batches[self.batch_idx][k].duplicate();
                        let ghost fpre = views(self.failures@);
                        self.failures.push(rec);
                        proof {
                            assert(views(self.failures@) =~= fpre.push(bv[k as int]));
                            assert(fail0 + bv.take(k as int + 1) =~= (fail0 + bv.take(
                                k as int,
                            )).push(bv[k as int]));
                        }
                        k += 1;
                    }
                    self.batch_idx += 1;
                    self.attempt = 0;
                    proof {
                        assert(bv.take(bv.len() as int) =~= bv);
                        assert(self@ =~~= step_spec(old(self)@, response@));
                    }
                }
            },
        }
        (name, content)
    }

    /// Records that the oracle returned no response at all: a hard fault
    /// that aborts the whole run.
    pub fn on_no_response(&mut self)
        requires
            old(self).wf(),
        ensures
            final(self).wf(),
            final(self)@ == (ExtractorModel { aborted: true, ..old(self)@ }),
    {
        self.aborted = true;
        proof {
            assert(self@ =~~= (ExtractorModel { aborted: true, ..old(self)@ }));
        }
    }

    /// The running success and failure counts, for progress reporting.
    pub fn counts(&self) -> (r: (usize, usize))
        ensures
            r.0 == self@.successes.len(),
            r.1 == self@.failures.len(),
    {
        (self.successes.len(), self.failures.len())
    }
}

/// Retry bound: from a fresh batch, three structurally invalid responses
/// consume exactly the attempt bound, log one transcript per attempt,
/// keep the successes unchanged, and fail the whole batch with its
/// original records.
pub proof fn lemma_retry_bound(m: ExtractorModel, r1: Seq<char>, r2: Seq<char>, r3: Seq<char>)
    requires
        m.attempt == 0,
        !m.aborted,
        0 <= m.batch_idx < m.batches.len(),
        sp_batch(r1) is None,
        sp_batch(r2) is None,
        sp_batch(r3) is None,
    ensures
        ({
            let m1 = step_spec(m, r1);
            let m2 = step_spec(m1, r2);
            let m3 = step_spec(m2, r3);
            &&& m1.batch_idx == m.batch_idx && m1.attempt == 1
            &&& m2.batch_idx == m.batch_idx && m2.attempt == 2
            &&& m3.batch_idx == m.batch_idx + 1 && m3.attempt == 0
            &&& m3.successes == m.successes
            &&& m3.failures == m.failures + m.batches[m.batch_idx]
            &&& m3.logged == m.logged + seq![
                (m.batch_idx, 0int),
                (m.batch_idx, 1int),
                (m.batch_idx, 2int),
            ]
        }),
{
    let m1 = step_spec(m, r1);
    let m2 = step_spec(m1, r2);
    let m3 = step_spec(m2, r3);
    assert(m3.logged =~= m.logged + seq![
        (m.batch_idx, 0int),
        (m.batch_idx, 1int),
        (m.batch_idx, 2int),
    ]);
}

/// A structurally valid response advances by exactly one batch and
/// accounts for every parsed record once: the success and failure lists
/// together grow by the parse's size.
pub proof fn lemma_step_partition(m: ExtractorModel, response: Seq<char>, rs: Seq<ReviewerV>)
    requires
        sp_batch(response) == Some(rs),
    ensures
        step_spec(m, response).successes.len() + step_spec(m, response).failures.len()
            == m.successes.len() + m.failures.len() + rs.len(),
        step_spec(m, response).batch_idx == m.batch_idx + 1,
{
    lemma_partition_complete(rs);
}

} // verus!
