//! Conversation transcripts: the deterministic file name and the
//! human-readable content of one oracle exchange.  Writing the file is
//! the caller's concern.

use crate::numbers::dec_digits;
use vstd::prelude::*;
use vstd::string::StringExecFns;

verus! {

/// The transcript file name for one batch and attempt.
pub open spec fn transcript_name_spec(batch: nat, attempt: nat) -> Seq<char> {
    "mandatory_reviewer_parse-"@ + dec_digits(batch) + "-"@ + dec_digits(attempt) + ".txt"@
}

/// The transcript text of one exchange.
pub open spec fn transcript_text_spec(sys: Seq<char>, user: Seq<char>, resp: Seq<char>) -> Seq<
    char,
> {
    "SYSTEM PROMPT:\n"@ + sys + "\n\nUSER PROMPT:\n"@ + user + "\n\nRESPONSE:\n"@ + resp
}

/// Builds the transcript file name, keyed by batch and attempt number.
pub fn transcript_file_name(batch: usize, attempt: usize) -> (r: String)
    ensures
        r@ == transcript_name_spec(batch as nat, attempt as nat),
{
    let mut out = String::new();
    out.append("mandatory_reviewer_parse-");
    let b = crate::numbers::u64_to_string(batch as u64);
    out.append(b.as_str());
    out.append("-");
    let a = crate::numbers::u64_to_string(attempt as u64);
    out.append(a.as_str());
    out.append(".txt");
    proof {
        assert(out@ =~= transcript_name_spec(batch as nat, attempt as nat));
    }
    out
}

/// Builds the transcript text of one exchange.
pub fn transcript_content(sys: &str, user: &str, resp: &str) -> (r: String)
    ensures
        r@ == transcript_text_spec(sys@, user@, resp@),
{
    let mut out = String::new();
    out.append("SYSTEM PROMPT:\n");
    out.append(sys);
    out.append("\n\nUSER PROMPT:\n");
    out.append(user);
    out.append("\n\nRESPONSE:\n");
    out.append(resp);
    proof {
        assert(out@ =~= transcript_text_spec(sys@, user@, resp@));
    }
    out
}

} // verus!
