//! Prompt assembly: literal placeholder substitution in a template.
//!
//! Each placeholder token is replaced everywhere it occurs, scanning left
//! to right without overlap, with no escaping and no recursive
//! substitution.

use vstd::prelude::*;
use vstd::string::{StrSliceExecFns, StringExecFns};

verus! {

/// `s` with every leftmost, non-overlapping occurrence of `pat` replaced
/// by `val`.  An empty or over-long pattern leaves `s` unchanged.
pub open spec fn replace_spec(s: Seq<char>, pat: Seq<char>, val: Seq<char>) -> Seq<char>
    decreases s.len(),
{
    if pat.len() == 0 || pat.len() > s.len() {
        s
    } else if s.take(pat.len() as int) == pat {
        val + replace_spec(s.skip(pat.len() as int), pat, val)
    } else {
        seq![s[0]] + replace_spec(s.skip(1), pat, val)
    }
}

/// Whether `pat` occurs in `s` starting at position `i`.
pub(crate) fn matches_at(s: &str, n: usize, i: usize, pat: &str, m: usize) -> (r: bool)
    requires
        n == s@.len(),
        m == pat@.len(),
        i + m <= n,
    ensures
        r == (s@.subrange(i as int, i as int + m as int) == pat@),
{
    let mut j: usize = 0;
    while j < m
        invariant
            n == s@.len(),
            m == pat@.len(),
            i + m <= n,
            j <= m,
            forall|k: int| 0 <= k < j ==> s@[i + k] == pat@[k],
        decreases m - j,
    {
        if s.get_char(i + j) != pat.get_char(j) {
            proof {
                assert(s@.subrange(i as int, i as int + m as int)[j as int] != pat@[j as int]);
            }
            return false;
        }
        j += 1;
    }
    proof {
        assert(s@.subrange(i as int, i as int + m as int) =~= pat@);
    }
    true
}

/// Replaces every leftmost, non-overlapping occurrence of `pat` in `s`
/// with `val`.
pub fn replace_all(s: &str, pat: &str, val: &str) -> (r: String)
    requires
        pat@.len() >= 1,
    ensures
        r@ == replace_spec(s@, pat@, val@),
{
    let n = s.unicode_len();
    let m = pat.unicode_len();
    let mut out = String::new();
    let mut i: usize = 0;
    proof {
        assert(s@.skip(0) =~= s@);
        assert(out@ + replace_spec(s@, pat@, val@) =~= replace_spec(s@, pat@, val@));
    }
    while i < n
        invariant
            n == s@.len(),
            m == pat@.len(),
            m >= 1,
            i <= n,
            out@ + replace_spec(s@.skip(i as int), pat@, val@) == replace_spec(s@, pat@, val@),
        decreases n - i,
    {
        let ghost rest = s@.skip(i as int);
        if m <= n - i && matches_at(s, n, i, pat, m) {
            out.append(val);
            proof {
                assert(rest.take(m as int) =~= s@.subrange(i as int, i as int + m as int));
                assert(rest.take(m as int) == pat@);
                assert(rest.skip(m as int) =~= s@.skip(i as int + m as int));
                assert(replace_spec(rest, pat@, val@) == val@ + replace_spec(
                    s@.skip(i as int + m as int),
                    pat@,
                    val@,
                ));
            }
            i += m;
        } else {
            let c = s.get_char(i);
            out.push(c);
            proof {
                assert(rest[0] == s@[i as int]);
                assert(rest.skip(1) =~= s@.skip(i as int + 1));
                if m <= n - i {
                    assert(rest.take(m as int) =~= s@.subrange(i as int, i as int + m as int));
                    assert(rest.take(m as int) != pat@);
                    assert(replace_spec(rest, pat@, val@) == seq![rest[0]] + replace_spec(
                        rest.skip(1),
                        pat@,
                        val@,
                    ));
                } else {
                    // the remaining tail is shorter than the pattern
                    assert(replace_spec(rest, pat@, val@) == rest);
                    assert(replace_spec(rest.skip(1), pat@, val@) == rest.skip(1));
                    assert(rest =~= seq![rest[0]] + rest.skip(1));
                }
                assert(out@ + replace_spec(s@.skip(i as int + 1), pat@, val@) =~= replace_spec(
                    s@,
                    pat@,
                    val@,
                ));
            }
            i += 1;
        }
    }
    proof {
        assert(s@.skip(n as int) =~= Seq::<char>::empty());
        assert(replace_spec(Seq::<char>::empty(), pat@, val@) =~= Seq::<char>::empty());
        assert(out@ =~= out@ + Seq::<char>::empty());
    }
    out
}

/// Assembles the per-batch user prompt: substitutes the serialized raw
/// record block and the submission context block into the template.
pub fn assemble_user_prompt(template: &str, raw_block: &str, context_block: &str) -> (r: String)
    ensures
        r@ == replace_spec(
            replace_spec(template@, "<REVIEWER_RAW_DATA>"@, raw_block@),
            "<SUBMISSION_DETAILS>"@,
            context_block@,
        ),
{
    proof {
        reveal_strlit("<REVIEWER_RAW_DATA>");
        reveal_strlit("<SUBMISSION_DETAILS>");
    }
    let s1 = replace_all(template, "<REVIEWER_RAW_DATA>", raw_block);
    let s2 = replace_all(s1.as_str(), "<SUBMISSION_DETAILS>", context_block);
    s2
}

} // verus!
