//! The single entity of the pipeline: a referee record.

use vstd::prelude::*;

verus! {

/// A referee record.  `paper_id` identifies the submission the referee
/// was named on; `raw_name` holds the unparsed source string; the four
/// remaining fields are populated only after a successful extraction.
#[derive(Debug, PartialEq)]
pub struct Reviewer {
    pub paper_id: u64,
    pub raw_name: Option<String>,
    pub first_name: Option<String>,
    pub last_name: Option<String>,
    pub institution: Option<String>,
    pub email: Option<String>,
}

/// The mathematical model of a referee record: the same fields with strings
/// replaced by character sequences.
pub struct ReviewerV {
    pub paper_id: u64,
    pub raw_name: Option<Seq<char>>,
    pub first_name: Option<Seq<char>>,
    pub last_name: Option<Seq<char>>,
    pub institution: Option<Seq<char>>,
    pub email: Option<Seq<char>>,
}

pub open spec fn opt_view(o: Option<String>) -> Option<Seq<char>> {
    match o {
        Some(s) => Some(s@),
        None => None,
    }
}

impl View for Reviewer {
    type V = ReviewerV;

    open spec fn view(&self) -> ReviewerV {
        ReviewerV {
            paper_id: self.paper_id,
            raw_name: opt_view(self.raw_name),
            first_name: opt_view(self.first_name),
            last_name: opt_view(self.last_name),
            institution: opt_view(self.institution),
            email: opt_view(self.email),
        }
    }
}

/// The views of a sequence of records.
pub open spec fn views(s: Seq<Reviewer>) -> Seq<ReviewerV> {
    s.map_values(|r: Reviewer| r@)
}

/// Clones an optional string; the clone has the same view.
pub fn clone_opt_string(o: &Option<String>) -> (r: Option<String>)
    ensures
        opt_view(r) == opt_view(*o),
{
    match o {
        Some(s) => Some(s.clone()),
        None => None,
    }
}

impl Reviewer {
    /// A copy of the record whose model equals this record's model.
    pub fn duplicate(&self) -> (r: Reviewer)
        ensures
            r@ == self@,
    {
        Reviewer {
            paper_id: self.paper_id,
            raw_name: clone_opt_string(&self.raw_name),
            first_name: clone_opt_string(&self.first_name),
            last_name: clone_opt_string(&self.last_name),
            institution: clone_opt_string(&self.institution),
            email: clone_opt_string(&self.email),
        }
    }

    /// Whether extraction succeeded for this record: the sole criterion is
    /// a populated, non-empty email.
    pub fn is_successful(&self) -> (r: bool)
        ensures
            r == self@.is_successful(),
    {
        match &self.email {
            Some(e) => e.as_str().unicode_len() > 0,
            None => false,
        }
    }
}

impl ReviewerV {
    /// A record is extraction-successful exactly when its email field holds
    /// a non-empty string.
    pub open spec fn is_successful(self) -> bool {
        match self.email {
            Some(e) => e.len() > 0,
            None => false,
        }
    }
}

/// Clones a whole collection of records; the models are unchanged.
pub fn duplicate_all(records: &Vec<Reviewer>) -> (r: Vec<Reviewer>)
    ensures
        views(r@) == views(records@),
{
    let mut out: Vec<Reviewer> = Vec::new();
    let mut i: usize = 0;
    while i < records.len()
        invariant
            i <= records@.len(),
            out@.len() == i,
            forall|j: int| 0 <= j < i ==> out@[j]@ == records@[j]@,
        decreases records@.len() - i,
    {
        out.push(records[i].duplicate());
        i += 1;
    }
    proof {
        assert(views(out@) =~= views(records@));
    }
    out
}

} // verus!
