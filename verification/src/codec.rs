//! The wire format for a batch of referee records.
//!
//! A batch travels to the oracle as a JSON array of flat objects with the
//! record's six fields, and is expected back in the same shape.  The
//! encoder produces one canonical text per batch; the parser accepts
//! standard JSON for the record schema — whitespace between tokens, the
//! fields in any order, optional fields omitted, the standard string
//! escapes — and the round-trip law below shows it inverts the encoder.
//! A response that does not decode is "structurally invalid" and counts
//! against the per-batch retry bound.  Not accepted: unknown field keys,
//! duplicate keys, and surrogate-pair (`\uD800..`) escapes.

use crate::numbers::{dec_digits, digit_val, digits_val, is_digit, u64_to_string};
use crate::record::{views, Reviewer, ReviewerV};
use vstd::prelude::*;
use vstd::string::{StrSliceExecFns, StringExecFns};

verus! {

/// The lower-case hex digit for a value in `0 ..= 15`.
pub open spec fn hex_char_lo(d: int) -> char {
    if d < 10 {
        ((48 + d) as u8) as char
    } else {
        ((87 + d) as u8) as char
    }
}

/// The escaped form of one character inside a JSON string value: the
/// quote and backslash, the named control escapes, a `\u00XX` escape for
/// the remaining control characters, and every other character itself.
pub open spec fn esc_char(c: char) -> Seq<char> {
    if c == '"' {
        seq!['\\', '"']
    } else if c == '\\' {
        seq!['\\', '\\']
    } else if c == '\n' {
        seq!['\\', 'n']
    } else if c == '\t' {
        seq!['\\', 't']
    } else if c == '\r' {
        seq!['\\', 'r']
    } else if c == '\u{8}' {
        seq!['\\', 'b']
    } else if c == '\u{c}' {
        seq!['\\', 'f']
    } else if (c as u32) < 32 {
        seq!['\\', 'u', '0', '0', hex_char_lo(((c as u32) / 16) as int), hex_char_lo(
            ((c as u32) % 16) as int,
        )]
    } else {
        seq![c]
    }
}

/// The escaped form of a whole string value.
pub open spec fn esc_str(s: Seq<char>) -> Seq<char>
    decreases s.len(),
{
    if s.len() == 0 {
        Seq::empty()
    } else {
        esc_char(s[0]) + esc_str(s.skip(1))
    }
}

/// A quoted, escaped JSON string.
pub open spec fn json_string(s: Seq<char>) -> Seq<char> {
    seq!['"'] + esc_str(s) + seq!['"']
}

/// An optional text field: `null` when absent, a JSON string otherwise.
pub open spec fn json_opt(o: Option<Seq<char>>) -> Seq<char> {
    match o {
        None => "null"@,
        Some(s) => json_string(s),
    }
}

/// One record as a JSON object, fields in schema order.
pub open spec fn json_record(r: ReviewerV) -> Seq<char> {
    seq!['{'] + "\"paper_id\""@ + seq![':'] + dec_digits(r.paper_id as nat) + seq![',']
        + "\"raw_name\""@ + seq![':'] + json_opt(r.raw_name) + seq![','] + "\"first_name\""@
        + seq![':'] + json_opt(r.first_name) + seq![','] + "\"last_name\""@ + seq![':']
        + json_opt(r.last_name) + seq![','] + "\"institution\""@ + seq![':'] + json_opt(
        r.institution,
    ) + seq![','] + "\"email\""@ + seq![':'] + json_opt(r.email) + seq!['}']
}

/// The comma-separated object list of a batch.
pub open spec fn json_records(rs: Seq<ReviewerV>) -> Seq<char>
    decreases rs.len(),
{
    if rs.len() == 0 {
        Seq::empty()
    } else if rs.len() == 1 {
        json_record(rs[0])
    } else {
        json_record(rs[0]) + seq![','] + json_records(rs.skip(1))
    }
}

/// A whole batch as a JSON array.
pub open spec fn json_batch(rs: Seq<ReviewerV>) -> Seq<char> {
    seq!['['] + json_records(rs) + seq![']']
}

/// Appending one character to a value extends its escaped form by that
/// character's escape.
proof fn lemma_esc_str_push(t: Seq<char>, c: char)
    ensures
        esc_str(t.push(c)) == esc_str(t) + esc_char(c),
    decreases t.len(),
{
    if t.len() == 0 {
        let p = t.push(c);
        assert(p[0] == c);
        assert(p.skip(1) =~= Seq::<char>::empty());
        assert(esc_str(p) == esc_char(c) + esc_str(p.skip(1)));
        assert(esc_str(p.skip(1)) == Seq::<char>::empty());
        assert(esc_char(c) + Seq::<char>::empty() =~= esc_char(c));
        assert(esc_str(t) + esc_char(c) =~= esc_char(c));
    } else {
        assert(t.push(c)[0] == t[0]);
        assert(t.push(c).skip(1) =~= t.skip(1).push(c));
        lemma_esc_str_push(t.skip(1), c);
        assert(esc_str(t.push(c)) == esc_char(t[0]) + (esc_str(t.skip(1)) + esc_char(c)));
        assert(esc_char(t[0]) + (esc_str(t.skip(1)) + esc_char(c)) =~= (esc_char(t[0])
            + esc_str(t.skip(1))) + esc_char(c));
    }
}

/// The lower-case hex digit character for a nibble.
fn hex_char_exec(d: u8) -> (r: char)
    requires
        d < 16,
    ensures
        r == hex_char_lo(d as int),
{
    if d < 10 {
        (48 + d) as char
    } else {
        (87 + d) as char
    }
}

/// Appends the quoted, escaped form of `s` to `out`.
fn append_json_string(out: &mut String, s: &str)
    ensures
        final(out)@ == old(out)@ + json_string(s@),
{
    let n = s.unicode_len();
    out.push('"');
    let mut i: usize = 0;
    while i < n
        invariant
            n == s@.len(),
            i <= n,
            out@ == old(out)@ + seq!['"'] + esc_str(s@.take(i as int)),
        decreases n - i,
    {
        let c = s.get_char(i);
        if c == '"' {
            out.push('\\');
            out.push('"');
        } else if c == '\\' {
            out.push('\\');
            out.push('\\');
        } else if c == '\n' {
            out.push('\\');
            out.push('n');
        } else if c == '\t' {
            out.push('\\');
            out.push('t');
        } else if c == '\r' {
            out.push('\\');
            out.push('r');
        } else if c == '\u{8}' {
            out.push('\\');
            out.push('b');
        } else if c == '\u{c}' {
            out.push('\\');
            out.push('f');
        } else if (c as u32) < 32 {
            let b = (c as u32) as u8;
            out.push('\\');
            out.push('u');
            out.push('0');
            out.push('0');
            out.push(hex_char_exec(b / 16));
            out.push(hex_char_exec(b % 16));
        } else {
            out.push(c);
        }
        proof {
            lemma_esc_str_push(s@.take(i as int), s@[i as int]);
            assert(s@.take(i as int).push(s@[i as int]) =~= s@.take(i as int + 1));
            assert(out@ =~= old(out)@ + seq!['"'] + esc_str(s@.take(i as int + 1)));
        }
        i += 1;
    }
    out.push('"');
    proof {
        assert(s@.take(n as int) =~= s@);
        assert(out@ =~= old(out)@ + json_string(s@));
    }
}

/// Appends `null` or the quoted form of the field to `out`.
fn append_json_opt(out: &mut String, o: &Option<String>)
    ensures
        final(out)@ == old(out)@ + json_opt(crate::record::opt_view(*o)),
{
    match o {
        None => {
            out.append("null");
        },
        Some(s) => {
            append_json_string(out, s.as_str());
        },
    }
}

/// Appends one record as a JSON object to `out`.
#[verifier::rlimit(100)]
#[verifier::spinoff_prover]
fn append_json_record(out: &mut String, r: &Reviewer)
    ensures
        final(out)@ == old(out)@ + json_record(r@),
{
    out.push('{');
    out.append("\"paper_id\"");
    out.push(':');
    let num = u64_to_string(r.paper_id);
    out.append(num.as_str());
    out.push(',');
    out.append("\"raw_name\"");
    out.push(':');
    append_json_opt(out, &r.raw_name);
    out.push(',');
    out.append("\"first_name\"");
    out.push(':');
    append_json_opt(out, &r.first_name);
    out.push(',');
    out.append("\"last_name\"");
    out.push(':');
    append_json_opt(out, &r.last_name);
    out.push(',');
    out.append("\"institution\"");
    out.push(':');
    append_json_opt(out, &r.institution);
    out.push(',');
    out.append("\"email\"");
    out.push(':');
    append_json_opt(out, &r.email);
    out.push('}');
    proof {
        assert(out@ =~= old(out)@ + json_record(r@));
    }
}

/// Extending a batch by one record appends a comma (when the batch was
/// non-empty) and the record's object.
proof fn lemma_json_records_push(rs: Seq<ReviewerV>, r: ReviewerV)
    ensures
        rs.len() == 0 ==> json_records(rs.push(r)) == json_record(r),
        rs.len() > 0 ==> json_records(rs.push(r)) == json_records(rs) + seq![','] + json_record(
            r,
        ),
    decreases rs.len(),
{
    let p = rs.push(r);
    if rs.len() == 0 {
        assert(p.len() == 1);
        assert(p[0] == r);
    } else {
        assert(p[0] == rs[0]);
        assert(p.skip(1) =~= rs.skip(1).push(r));
        lemma_json_records_push(rs.skip(1), r);
        if rs.len() == 1 {
            assert(json_records(p) == json_record(rs[0]) + seq![','] + json_records(p.skip(1)));
            assert(json_records(p.skip(1)) == json_record(r));
        } else {
            assert(json_records(p) == json_record(rs[0]) + seq![','] + json_records(p.skip(1)));
            assert(json_record(rs[0]) + seq![','] + (json_records(rs.skip(1)) + seq![',']
                + json_record(r)) =~= (json_record(rs[0]) + seq![','] + json_records(rs.skip(1)))
                + seq![','] + json_record(r));
        }
    }
}

/// Serializes a batch of records to its canonical JSON array text.
pub fn batch_to_json(records: &Vec<Reviewer>) -> (r: String)
    ensures
        r@ == json_batch(views(records@)),
{
    let ghost s = views(records@);
    let mut out = String::new();
    out.push('[');
    let mut i: usize = 0;
    while i < records.len()
        invariant
            s == views(records@),
            s.len() == records@.len(),
            i <= records@.len(),
            out@ == seq!['['] + json_records(s.take(i as int)),
        decreases records@.len() - i,
    {
        if i > 0 {
            out.push(',');
        }
        append_json_record(&mut out, &records[i]);
        proof {
            lemma_json_records_push(s.take(i as int), s[i as int]);
            assert(s.take(i as int).push(s[i as int]) =~= s.take(i as int + 1));
            assert(out@ =~= seq!['['] + json_records(s.take(i as int + 1)));
        }
        i += 1;
    }
    out.push(']');
    proof {
        assert(s.take(s.len() as int) =~= s);
        assert(out@ =~= json_batch(s));
    }
    out
}

// ---------------------------------------------------------------------
// The parser.  Each `sp_*` spec function is the grammar itself, written
// as a recursive descent over the character sequence: it returns the
// parsed value and the index just past it, or nothing when the text is
// not canonical.  Each `p_*` exec function computes exactly its spec.
// ---------------------------------------------------------------------
/// The literal `lit` expected at position `i`; yields the index past it.
pub open spec fn sp_lit(s: Seq<char>, i: int, lit: Seq<char>) -> Option<int> {
    if 0 <= i && i + lit.len() <= s.len() && s.subrange(i, i + lit.len()) == lit {
        Some(i + lit.len())
    } else {
        None
    }
}

/// Whether `c` is JSON inter-token whitespace.
pub open spec fn is_ws(c: char) -> bool {
    c == ' ' || c == '\t' || c == '\n' || c == '\r'
}

/// The first index at or after `i` that does not hold whitespace.
pub open spec fn sp_ws(s: Seq<char>, i: int) -> int
    decreases s.len() - i,
{
    if 0 <= i < s.len() && is_ws(s[i]) {
        sp_ws(s, i + 1)
    } else {
        i
    }
}

/// Whether `c` is a hex digit.
pub open spec fn is_hex(c: char) -> bool {
    is_digit(c) || ('a' <= c && c <= 'f') || ('A' <= c && c <= 'F')
}

/// The value of a hex digit.
pub open spec fn hex_val(c: char) -> int {
    if is_digit(c) {
        digit_val(c)
    } else if 'a' <= c && c <= 'f' {
        c as int - 87
    } else {
        c as int - 55
    }
}

/// The code point of a character.
pub open spec fn code_of(c: char) -> int {
    (c as u32) as int
}

/// The character with the given code point.
pub open spec fn char_of(code: int) -> char {
    choose|c: char| #[trigger] code_of(c) == code
}

/// The decoded character of a two-character escape.
pub open spec fn esc_decode(e: char) -> Option<char> {
    if e == '"' {
        Some('"')
    } else if e == '\\' {
        Some('\\')
    } else if e == '/' {
        Some('/')
    } else if e == 'n' {
        Some('\n')
    } else if e == 't' {
        Some('\t')
    } else if e == 'r' {
        Some('\r')
    } else if e == 'b' {
        Some('\u{8}')
    } else if e == 'f' {
        Some('\u{c}')
    } else {
        None
    }
}

/// The body of a string value, after the opening quote: characters up to
/// the closing quote, with the standard JSON escapes decoded — the
/// two-character escapes and `\uXXXX` for a non-surrogate code point.  A
/// raw control character inside the body is refused, as JSON requires.
pub open spec fn sp_str_body(s: Seq<char>, i: int) -> Option<(Seq<char>, int)>
    decreases s.len() - i,
{
    if i < 0 || i >= s.len() {
        None
    } else if s[i] == '"' {
        Some((Seq::empty(), i + 1))
    } else if s[i] == '\\' {
        if i + 2 <= s.len() && s[i + 1] == 'u' {
            if i + 6 <= s.len() && is_hex(s[i + 2]) && is_hex(s[i + 3]) && is_hex(s[i + 4])
                && is_hex(s[i + 5]) {
                let code = hex_val(s[i + 2]) * 4096 + hex_val(s[i + 3]) * 256 + hex_val(
                    s[i + 4],
                ) * 16 + hex_val(s[i + 5]);
                if code < 0xD800 || code >= 0xE000 {
                    match sp_str_body(s, i + 6) {
                        Some((t, j)) => Some((seq![char_of(code)] + t, j)),
                        None => None,
                    }
                } else {
                    None
                }
            } else {
                None
            }
        } else if i + 2 <= s.len() {
            match esc_decode(s[i + 1]) {
                Some(c) => match sp_str_body(s, i + 2) {
                    Some((t, j)) => Some((seq![c] + t, j)),
                    None => None,
                },
                None => None,
            }
        } else {
            None
        }
    } else if (s[i] as u32) < 32 {
        None
    } else {
        match sp_str_body(s, i + 1) {
            Some((t, j)) => Some((seq![s[i]] + t, j)),
            None => None,
        }
    }
}

/// A quoted string value at position `i`.
pub open spec fn sp_string(s: Seq<char>, i: int) -> Option<(Seq<char>, int)> {
    if 0 <= i < s.len() && s[i] == '"' {
        sp_str_body(s, i + 1)
    } else {
        None
    }
}

/// The first index at or after `i` that does not hold a digit.
pub open spec fn sp_digits_end(s: Seq<char>, i: int) -> int
    decreases s.len() - i,
{
    if 0 <= i < s.len() && is_digit(s[i]) {
        sp_digits_end(s, i + 1)
    } else {
        i
    }
}

/// A non-empty run of digits at position `i`, read as a number.
pub open spec fn sp_number(s: Seq<char>, i: int) -> Option<(int, int)> {
    let e = sp_digits_end(s, i);
    if e > i {
        Some((digits_val(s.subrange(i, e)), e))
    } else {
        None
    }
}

/// An optional text field: `null`, or a quoted string.
pub open spec fn sp_opt_text(s: Seq<char>, i: int) -> Option<(Option<Seq<char>>, int)> {
    match sp_lit(s, i, "null"@) {
        Some(j) => Some((None, j)),
        None => match sp_string(s, i) {
            Some((t, j)) => Some((Some(t), j)),
            None => None,
        },
    }
}
/// The partially gathered fields of one record object: absent while the
/// field's key has not appeared yet.
#[verifier::ext_equal]
pub struct RecAcc {
    pub paper_id: Option<int>,
    pub raw_name: Option<Option<Seq<char>>>,
    pub first_name: Option<Option<Seq<char>>>,
    pub last_name: Option<Option<Seq<char>>>,
    pub institution: Option<Option<Seq<char>>>,
    pub email: Option<Option<Seq<char>>>,
}

/// The accumulator before any field has been read.
pub open spec fn empty_acc() -> RecAcc {
    RecAcc {
        paper_id: None,
        raw_name: None,
        first_name: None,
        last_name: None,
        institution: None,
        email: None,
    }
}

/// An optional field that was never written is absent.
pub open spec fn opt_or_absent(o: Option<Option<Seq<char>>>) -> Option<Seq<char>> {
    match o {
        None => None,
        Some(x) => x,
    }
}

/// The record of a completed accumulator: the paper id is required, the
/// text fields default to absent.
pub open spec fn finalize(acc: RecAcc) -> Option<ReviewerV> {
    match acc.paper_id {
        None => None,
        Some(v) => Some(
            ReviewerV {
                paper_id: v as u64,
                raw_name: opt_or_absent(acc.raw_name),
                first_name: opt_or_absent(acc.first_name),
                last_name: opt_or_absent(acc.last_name),
                institution: opt_or_absent(acc.institution),
                email: opt_or_absent(acc.email),
            },
        ),
    }
}

/// One `"key": value` field and whatever fields follow it.  The six
/// schema keys are accepted in any order, each at most once; the paper id
/// takes a number, the rest take a string or `null`; an unknown key is
/// refused.
pub open spec fn sp_fields(s: Seq<char>, i: int, acc: RecAcc, fuel: nat) -> Option<
    (RecAcc, int),
>
    decreases fuel, 1int,
{
    if fuel == 0 {
        None
    } else {
        match sp_lit(s, i, "\"paper_id\""@) {
            Some(j) => if acc.paper_id is Some {
                None
            } else {
                let j1 = sp_ws(s, j);
                if !(j1 < s.len() && s[j1] == ':') {
                    None
                } else {
                    match sp_number(s, sp_ws(s, j1 + 1)) {
                        None => None,
                        Some((v, j2)) => if v > u64::MAX {
                            None
                        } else {
                            sp_after_field(s, j2, (RecAcc { paper_id: Some(v), ..acc }), fuel)
                        },
                    }
                }
            },
            None => match sp_lit(s, i, "\"raw_name\""@) {
                Some(j) => if acc.raw_name is Some {
                    None
                } else {
                    let j1 = sp_ws(s, j);
                    if !(j1 < s.len() && s[j1] == ':') {
                        None
                    } else {
                        match sp_opt_text(s, sp_ws(s, j1 + 1)) {
                            None => None,
                            Some((t, j2)) => sp_after_field(
                                s,
                                j2,
                                (RecAcc { raw_name: Some(t), ..acc }),
                                fuel,
                            ),
                        }
                    }
                },
                None => match sp_lit(s, i, "\"first_name\""@) {
                    Some(j) => if acc.first_name is Some {
                        None
                    } else {
                        let j1 = sp_ws(s, j);
                        if !(j1 < s.len() && s[j1] == ':') {
                            None
                        } else {
                            match sp_opt_text(s, sp_ws(s, j1 + 1)) {
                                None => None,
                                Some((t, j2)) => sp_after_field(
                                    s,
                                    j2,
                                    (RecAcc { first_name: Some(t), ..acc }),
                                    fuel,
                                ),
                            }
                        }
                    },
                    None => match sp_lit(s, i, "\"last_name\""@) {
                        Some(j) => if acc.last_name is Some {
                            None
                        } else {
                            let j1 = sp_ws(s, j);
                            if !(j1 < s.len() && s[j1] == ':') {
                                None
                            } else {
                                match sp_opt_text(s, sp_ws(s, j1 + 1)) {
                                    None => None,
                                    Some((t, j2)) => sp_after_field(
                                        s,
                                        j2,
                                        (RecAcc { last_name: Some(t), ..acc }),
                                        fuel,
                                    ),
                                }
                            }
                        },
                        None => match sp_lit(s, i, "\"institution\""@) {
                            Some(j) => if acc.institution is Some {
                                None
                            } else {
                                let j1 = sp_ws(s, j);
                                if !(j1 < s.len() && s[j1] == ':') {
                                    None
                                } else {
                                    match sp_opt_text(s, sp_ws(s, j1 + 1)) {
                                        None => None,
                                        Some((t, j2)) => sp_after_field(
                                            s,
                                            j2,
                                            (RecAcc { institution: Some(t), ..acc }),
                                            fuel,
                                        ),
                                    }
                                }
                            },
                            None => match sp_lit(s, i, "\"email\""@) {
                                Some(j) => if acc.email is Some {
                                    None
                                } else {
                                    let j1 = sp_ws(s, j);
                                    if !(j1 < s.len() && s[j1] == ':') {
                                        None
                                    } else {
                                        match sp_opt_text(s, sp_ws(s, j1 + 1)) {
                                            None => None,
                                            Some((t, j2)) => sp_after_field(
                                                s,
                                                j2,
                                                (RecAcc { email: Some(t), ..acc }),
                                                fuel,
                                            ),
                                        }
                                    }
                                },
                                None => None,
                            },
                        },
                    },
                },
            },
        }
    }
}

/// After a field's value: either a comma and more fields, or the end of
/// the field list, the index left on the first non-whitespace character.
pub open spec fn sp_after_field(s: Seq<char>, i: int, acc: RecAcc, fuel: nat) -> Option<
    (RecAcc, int),
>
    decreases fuel, 0int,
{
    let j = sp_ws(s, i);
    if j < s.len() && s[j] == ',' {
        if fuel == 0 {
            None
        } else {
            sp_fields(s, sp_ws(s, j + 1), acc, (fuel - 1) as nat)
        }
    } else {
        Some((acc, j))
    }
}

/// One record object at position `i`: a brace-delimited field list with
/// the paper id present, optional text fields defaulting to absent.
pub open spec fn sp_record(s: Seq<char>, i: int) -> Option<(ReviewerV, int)> {
    if !(0 <= i < s.len() && s[i] == '{') {
        None
    } else {
        match sp_fields(s, sp_ws(s, i + 1), empty_acc(), s.len() as nat) {
            None => None,
            Some((acc, j)) => if j < s.len() && s[j] == '}' {
                match finalize(acc) {
                    None => None,
                    Some(r) => Some((r, j + 1)),
                }
            } else {
                None
            },
        }
    }
}

/// A non-empty, comma-separated record list at position `i`, whitespace
/// allowed between tokens.  The fuel bounds the recursion; any fuel at
/// least the number of records works.
pub open spec fn sp_records(s: Seq<char>, i: int, fuel: nat) -> Option<(Seq<ReviewerV>, int)>
    decreases fuel,
{
    if fuel == 0 {
        None
    } else {
        match sp_record(s, i) {
            None => None,
            Some((r, j)) => {
                let j1 = sp_ws(s, j);
                if j1 < s.len() && s[j1] == ',' {
                    match sp_records(s, sp_ws(s, j1 + 1), (fuel - 1) as nat) {
                        Some((rs, k)) => Some((seq![r] + rs, k)),
                        None => None,
                    }
                } else {
                    Some((seq![r], j1))
                }
            },
        }
    }
}

/// A whole batch: a JSON array of records covering the entire text, with
/// whitespace allowed around every token.
pub open spec fn sp_batch(s: Seq<char>) -> Option<Seq<ReviewerV>> {
    let i0 = sp_ws(s, 0);
    if !(i0 < s.len() && s[i0] == '[') {
        None
    } else {
        let i1 = sp_ws(s, i0 + 1);
        if i1 < s.len() && s[i1] == ']' {
            if sp_ws(s, i1 + 1) == s.len() {
                Some(Seq::empty())
            } else {
                None
            }
        } else {
            match sp_records(s, i1, s.len() as nat) {
                None => None,
                Some((rs, j)) => if j < s.len() && s[j] == ']' && sp_ws(s, j + 1) == s.len() {
                    Some(rs)
                } else {
                    None
                },
            }
        }
    }
}

/// Matches `lit` at position `i`, yielding the index past it.
fn p_lit(s: &str, n: usize, i: usize, lit: &str) -> (r: Option<usize>)
    requires
        n == s@.len(),
        i <= n,
    ensures
        match r {
            Some(j) => sp_lit(s@, i as int, lit@) == Some(j as int) && i <= j <= n,
            None => sp_lit(s@, i as int, lit@) is None,
        },
{
    let m = lit.unicode_len();
    if m <= n - i && crate::prompt::matches_at(s, n, i, lit, m) {
        Some(i + m)
    } else {
        None
    }
}

/// Whether `c` is a hex digit.
fn is_hex_exec(c: char) -> (r: bool)
    ensures
        r == is_hex(c),
{
    ('0' <= c && c <= '9') || ('a' <= c && c <= 'f') || ('A' <= c && c <= 'F')
}

/// The value of a hex digit.
fn hex_val_exec(c: char) -> (r: u32)
    requires
        is_hex(c),
    ensures
        r as int == hex_val(c),
        r < 16,
{
    if '0' <= c && c <= '9' {
        (c as u32) - 48
    } else if 'a' <= c && c <= 'f' {
        (c as u32) - 87
    } else {
        (c as u32) - 55
    }
}

/// The decoded character of a two-character escape.
fn esc_decode_exec(e: char) -> (r: Option<char>)
    ensures
        r == esc_decode(e),
{
    if e == '"' {
        Some('"')
    } else if e == '\\' {
        Some('\\')
    } else if e == '/' {
        Some('/')
    } else if e == 'n' {
        Some('\n')
    } else if e == 't' {
        Some('\t')
    } else if e == 'r' {
        Some('\r')
    } else if e == 'b' {
        Some('\u{8}')
    } else if e == 'f' {
        Some('\u{c}')
    } else {
        None
    }
}

/// Skips whitespace from `i`.
fn p_ws(s: &str, n: usize, i: usize) -> (r: usize)
    requires
        n == s@.len(),
        i <= n,
    ensures
        r as int == sp_ws(s@, i as int),
        i <= r <= n,
{
    let mut e: usize = i;
    let mut stop = false;
    while !stop && e < n
        invariant
            n == s@.len(),
            i <= e <= n,
            forall|k: int| i <= k < e ==> is_ws(#[trigger] s@[k]),
            stop ==> e < n && !is_ws(s@[e as int]),
        decreases n - e, (if stop { 0int } else { 1int }),
    {
        let c = s.get_char(e);
        if c == ' ' || c == '\t' || c == '\n' || c == '\r' {
            e += 1;
        } else {
            stop = true;
        }
    }
    proof {
        lemma_ws_end(s@, i as int, e as int);
    }
    e
}

/// Where a whitespace run provably ends, the grammar's end agrees.
proof fn lemma_ws_end(s: Seq<char>, i: int, e: int)
    requires
        0 <= i <= e <= s.len(),
        forall|k: int| i <= k < e ==> is_ws(#[trigger] s[k]),
        e == s.len() || !is_ws(s[e]),
    ensures
        sp_ws(s, i) == e,
    decreases e - i,
{
    if i < e {
        lemma_ws_end(s, i + 1, e);
    }
}

/// Parses a string body, after the opening quote.
fn p_str_body(s: &str, n: usize, i: usize) -> (r: Option<(String, usize)>)
    requires
        n == s@.len(),
        i <= n,
    ensures
        match r {
            Some((t, j)) => sp_str_body(s@, i as int) == Some((t@, j as int)) && i <= j <= n,
            None => sp_str_body(s@, i as int) is None,
        },
    decreases n - i,
{
    if i >= n {
        return None;
    }
    let c = s.get_char(i);
    if c == '"' {
        Some((String::new(), i + 1))
    } else if c == '\\' {
        if i + 1 < n {
            let c2 = s.get_char(i + 1);
            if c2 == 'u' {
                if n - i >= 6 {
                    let h1 = s.get_char(i + 2);
                    let h2 = s.get_char(i + 3);
                    let h3 = s.get_char(i + 4);
                    let h4 = s.get_char(i + 5);
                    if is_hex_exec(h1) && is_hex_exec(h2) && is_hex_exec(h3) && is_hex_exec(h4) {
                        let code: u32 = hex_val_exec(h1) * 4096 + hex_val_exec(h2) * 256
                            + hex_val_exec(h3) * 16 + hex_val_exec(h4);
                        if code < 0xD800 || code >= 0xE000 {
                            match char::from_u32(code) {
                                Some(dc) => {
                                    proof {
                                        assert(code_of(dc) == code as int);
                                        assert(code_of(char_of(code as int)) == code as int);
                                        assert(char_of(code as int) == dc) by {
                                            vstd::utf8::char_u32_cast(dc, code);
                                            vstd::utf8::char_u32_cast(
                                                char_of(code as int),
                                                code,
                                            );
                                        }
                                    }
                                    match p_str_body(s, n, i + 6) {
                                        Some((t, j)) => {
                                            let mut out = String::new();
                                            out.push(dc);
                                            out.append(t.as_str());
                                            proof {
                                                assert(out@ =~= seq![dc] + t@);
                                            }
                                            Some((out, j))
                                        },
                                        None => None,
                                    }
                                },
                                None => {
                                    proof {
                                        assert(false);
                                    }
                                    None
                                },
                            }
                        } else {
                            None
                        }
                    } else {
                        None
                    }
                } else {
                    None
                }
            } else {
                match esc_decode_exec(c2) {
                    Some(dec) => match p_str_body(s, n, i + 2) {
                        Some((t, j)) => {
                            let mut out = String::new();
                            out.push(dec);
                            out.append(t.as_str());
                            proof {
                                assert(out@ =~= seq![dec] + t@);
                            }
                            Some((out, j))
                        },
                        None => None,
                    },
                    None => None,
                }
            }
        } else {
            None
        }
    } else if (c as u32) < 32 {
        None
    } else {
        match p_str_body(s, n, i + 1) {
            Some((t, j)) => {
                let mut out = String::new();
                out.push(c);
                out.append(t.as_str());
                proof {
                    assert(out@ =~= seq![c] + t@);
                }
                Some((out, j))
            },
            None => None,
        }
    }
}

/// Parses a number, refusing one whose value does not fit in a `u64`.
fn p_number(s: &str, n: usize, i: usize) -> (r: Option<(u64, usize)>)
    requires
        n == s@.len(),
        i <= n,
    ensures
        match r {
            Some((v, j)) => sp_number(s@, i as int) == Some((v as int, j as int)) && i <= j
                <= n,
            None => sp_number(s@, i as int) is None || sp_number(s@, i as int)->Some_0.0
                > u64::MAX,
        },
{
    let mut e: usize = i;
    let mut stop = false;
    while !stop && e < n
        invariant
            n == s@.len(),
            i <= e <= n,
            forall|k: int| i <= k < e ==> is_digit(#[trigger] s@[k]),
            stop ==> e < n && !is_digit(s@[e as int]),
        decreases n - e, (if stop { 0int } else { 1int }),
    {
        let c = s.get_char(e);
        if '0' <= c && c <= '9' {
            e += 1;
        } else {
            stop = true;
        }
    }
    proof {
        lemma_digits_end(s@, i as int, e as int);
    }
    if e == i {
        return None;
    }
    let digits = s.substring_char(i, e);
    match crate::numbers::parse_u64(digits) {
        Some(v) => Some((v, e)),
        None => {
            proof {
                assert(digits@ == s@.subrange(i as int, e as int));
                assert(digits@.len() > 0);
                assert(crate::numbers::all_digits(digits@));
                crate::numbers::lemma_digits_val_nonneg(digits@);
            }
            None
        },
    }
}

/// Where a digit run provably ends, the grammar's end agrees.
proof fn lemma_digits_end(s: Seq<char>, i: int, e: int)
    requires
        0 <= i <= e <= s.len(),
        forall|k: int| i <= k < e ==> is_digit(#[trigger] s[k]),
        e == s.len() || !is_digit(s[e]),
    ensures
        sp_digits_end(s, i) == e,
    decreases e - i,
{
    if i < e {
        lemma_digits_end(s, i + 1, e);
    }
}

/// Parses an optional text field.
fn p_opt_text(s: &str, n: usize, i: usize) -> (r: Option<(Option<String>, usize)>)
    requires
        n == s@.len(),
        i <= n,
    ensures
        match r {
            Some((o, j)) => sp_opt_text(s@, i as int) == Some(
                (crate::record::opt_view(o), j as int),
            ) && i <= j <= n,
            None => sp_opt_text(s@, i as int) is None,
        },
{
    match p_lit(s, n, i, "null") {
        Some(j) => Some((None, j)),
        None => {
            if i < n {
                let c = s.get_char(i);
                if c == '"' {
                    match p_str_body(s, n, i + 1) {
                        Some((t, j)) => Some((Some(t), j)),
                        None => None,
                    }
                } else {
                    None
                }
            } else {
                None
            }
        },
    }
}

/// The executable field accumulator mirroring [`RecAcc`].
struct RecAccX {
    paper_id: Option<u64>,
    raw_name: Option<Option<String>>,
    first_name: Option<Option<String>>,
    last_name: Option<Option<String>>,
    institution: Option<Option<String>>,
    email: Option<Option<String>>,
}

impl View for RecAccX {
    type V = RecAcc;

    closed spec fn view(&self) -> RecAcc {
        RecAcc {
            paper_id: match self.paper_id {
                Some(v) => Some(v as int),
                None => None,
            },
            raw_name: match self.raw_name {
                Some(t) => Some(crate::record::opt_view(t)),
                None => None,
            },
            first_name: match self.first_name {
                Some(t) => Some(crate::record::opt_view(t)),
                None => None,
            },
            last_name: match self.last_name {
                Some(t) => Some(crate::record::opt_view(t)),
                None => None,
            },
            institution: match self.institution {
                Some(t) => Some(crate::record::opt_view(t)),
                None => None,
            },
            email: match self.email {
                Some(t) => Some(crate::record::opt_view(t)),
                None => None,
            },
        }
    }
}

/// Parses one `"key": value` field and whatever fields follow it.
fn p_fields(s: &str, n: usize, i: usize, acc: RecAccX, fuel: usize) -> (r: Option<
    (RecAccX, usize),
>)
    requires
        n == s@.len(),
        i <= n,
    ensures
        match r {
            Some((a2, j)) => sp_fields(s@, i as int, acc@, fuel as nat) == Some(
                (a2@, j as int),
            ) && i <= j <= n,
            None => sp_fields(s@, i as int, acc@, fuel as nat) is None,
        },
    decreases fuel, 1int,
{
    if fuel == 0 {
        return None;
    }
    if let Some(j) = p_lit(s, n, i, "\"paper_id\"") {
        if acc.paper_id.is_some() {
            return None;
        }
        let j1 = p_ws(s, n, j);
        if !(j1 < n && s.get_char(j1) == ':') {
            return None;
        }
        let j2 = p_ws(s, n, j1 + 1);
        match p_number(s, n, j2) {
            None => None,
            Some((v, j3)) => {
                let acc2 = RecAccX { paper_id: Some(v), ..acc };
                p_after_field(s, n, j3, acc2, fuel)
            },
        }
    } else if let Some(j) = p_lit(s, n, i, "\"raw_name\"") {
        if acc.raw_name.is_some() {
            return None;
        }
        let j1 = p_ws(s, n, j);
        if !(j1 < n && s.get_char(j1) == ':') {
            return None;
        }
        let j2 = p_ws(s, n, j1 + 1);
        match p_opt_text(s, n, j2) {
            None => None,
            Some((t, j3)) => {
                let acc2 = RecAccX { raw_name: Some(t), ..acc };
                p_after_field(s, n, j3, acc2, fuel)
            },
        }
    } else if let Some(j) = p_lit(s, n, i, "\"first_name\"") {
        if acc.first_name.is_some() {
            return None;
        }
        let j1 = p_ws(s, n, j);
        if !(j1 < n && s.get_char(j1) == ':') {
            return None;
        }
        let j2 = p_ws(s, n, j1 + 1);
        match p_opt_text(s, n, j2) {
            None => None,
            Some((t, j3)) => {
                let acc2 = RecAccX { first_name: Some(t), ..acc };
                p_after_field(s, n, j3, acc2, fuel)
            },
        }
    } else if let Some(j) = p_lit(s, n, i, "\"last_name\"") {
        if acc.last_name.is_some() {
            return None;
        }
        let j1 = p_ws(s, n, j);
        if !(j1 < n && s.get_char(j1) == ':') {
            return None;
        }
        let j2 = p_ws(s, n, j1 + 1);
        match p_opt_text(s, n, j2) {
            None => None,
            Some((t, j3)) => {
                let acc2 = RecAccX { last_name: Some(t), ..acc };
                p_after_field(s, n, j3, acc2, fuel)
            },
        }
    } else if let Some(j) = p_lit(s, n, i, "\"institution\"") {
        if acc.institution.is_some() {
            return None;
        }
        let j1 = p_ws(s, n, j);
        if !(j1 < n && s.get_char(j1) == ':') {
            return None;
        }
        let j2 = p_ws(s, n, j1 + 1);
        match p_opt_text(s, n, j2) {
            None => None,
            Some((t, j3)) => {
                let acc2 = RecAccX { institution: Some(t), ..acc };
                p_after_field(s, n, j3, acc2, fuel)
            },
        }
    } else if let Some(j) = p_lit(s, n, i, "\"email\"") {
        if acc.email.is_some() {
            return None;
        }
        let j1 = p_ws(s, n, j);
        if !(j1 < n && s.get_char(j1) == ':') {
            return None;
        }
        let j2 = p_ws(s, n, j1 + 1);
        match p_opt_text(s, n, j2) {
            None => None,
            Some((t, j3)) => {
                let acc2 = RecAccX { email: Some(t), ..acc };
                p_after_field(s, n, j3, acc2, fuel)
            },
        }
    } else {
        None
    }
}

/// Parses the separator after a field's value.
fn p_after_field(s: &str, n: usize, i: usize, acc: RecAccX, fuel: usize) -> (r: Option<
    (RecAccX, usize),
>)
    requires
        n == s@.len(),
        i <= n,
    ensures
        match r {
            Some((a2, j)) => sp_after_field(s@, i as int, acc@, fuel as nat) == Some(
                (a2@, j as int),
            ) && i <= j <= n,
            None => sp_after_field(s@, i as int, acc@, fuel as nat) is None,
        },
    decreases fuel, 0int,
{
    let j = p_ws(s, n, i);
    let comma = j < n && s.get_char(j) == ',';
    if comma {
        if fuel == 0 {
            None
        } else {
            let j2 = p_ws(s, n, j + 1);
            p_fields(s, n, j2, acc, fuel - 1)
        }
    } else {
        Some((acc, j))
    }
}

/// An optional field that was never written is absent.
fn opt_opt_string(o: Option<Option<String>>) -> (r: Option<String>)
    ensures
        crate::record::opt_view(r) == opt_or_absent(
            match o {
                Some(t) => Some(crate::record::opt_view(t)),
                None => None,
            },
        ),
{
    match o {
        None => None,
        Some(t) => t,
    }
}

/// Parses one record object.
fn p_record(s: &str, n: usize, i: usize) -> (r: Option<(Reviewer, usize)>)
    requires
        n == s@.len(),
        i <= n,
    ensures
        match r {
            Some((rec, j)) => sp_record(s@, i as int) == Some((rec@, j as int)) && i <= j <= n,
            None => sp_record(s@, i as int) is None,
        },
{
    if !(i < n && s.get_char(i) == '{') {
        return None;
    }
    let j0 = p_ws(s, n, i + 1);
    let empty = RecAccX {
        paper_id: None,
        raw_name: None,
        first_name: None,
        last_name: None,
        institution: None,
        email: None,
    };
    proof {
        assert(empty@ == empty_acc());
    }
    match p_fields(s, n, j0, empty, n) {
        None => None,
        Some((acc, j)) => {
            if !(j < n && s.get_char(j) == '}') {
                return None;
            }
            match acc.paper_id {
                None => None,
                Some(v) => {
                    let ghost av = acc@;
                    let rec = Reviewer {
                        paper_id: v,
                        raw_name: opt_opt_string(acc.raw_name),
                        first_name: opt_opt_string(acc.first_name),
                        last_name: opt_opt_string(acc.last_name),
                        institution: opt_opt_string(acc.institution),
                        email: opt_opt_string(acc.email),
                    };
                    proof {
                        assert(finalize(av) == Some(rec@));
                    }
                    Some((rec, j + 1))
                },
            }
        },
    }
}

/// Parses a non-empty record list.
fn p_records(s: &str, n: usize, i: usize, fuel: usize) -> (r: Option<(Vec<Reviewer>, usize)>)
    requires
        n == s@.len(),
        i <= n,
    ensures
        match r {
            Some((v, j)) => sp_records(s@, i as int, fuel as nat) == Some((views(v@), j as int))
                && i <= j <= n,
            None => sp_records(s@, i as int, fuel as nat) is None,
        },
    decreases fuel,
{
    if fuel == 0 {
        return None;
    }
    let (rec, j) = match p_record(s, n, i) {
        Some(x) => x,
        None => {
            return None;
        },
    };
    let j1 = p_ws(s, n, j);
    let comma = j1 < n && s.get_char(j1) == ',';
    if comma {
        let j2 = p_ws(s, n, j1 + 1);
        match p_records(s, n, j2, fuel - 1) {
            Some((rest, k)) => {
                let mut out: Vec<Reviewer> = Vec::new();
                out.push(rec);
                let mut q: usize = 0;
                while q < rest.len()
                    invariant
                        out@.len() == q + 1,
                        q <= rest@.len(),
                        out@[0]@ == rec@,
                        forall|t: int| 0 <= t < q ==> out@[t + 1]@ == rest@[t]@,
                    decreases rest@.len() - q,
                {
                    out.push(rest[q].duplicate());
                    q += 1;
                }
                proof {
                    assert(views(out@) =~= seq![rec@] + views(rest@));
                }
                Some((out, k))
            },
            None => None,
        }
    } else {
        let mut out: Vec<Reviewer> = Vec::new();
        out.push(rec);
        proof {
            assert(views(out@) =~= seq![rec@]);
        }
        Some((out, j1))
    }
}

/// Parses the JSON array text of a batch of records.  The result is
/// exactly what the grammar `sp_batch` assigns to the text: the records
/// when the text fits the schema's JSON, nothing otherwise.
pub fn batch_from_json(s: &str) -> (r: Option<Vec<Reviewer>>)
    ensures
        match r {
            Some(v) => sp_batch(s@) == Some(views(v@)),
            None => sp_batch(s@) is None,
        },
{
    let n = s.unicode_len();
    let i0 = p_ws(s, n, 0);
    if !(i0 < n && s.get_char(i0) == '[') {
        return None;
    }
    let i1 = p_ws(s, n, i0 + 1);
    if i1 < n && s.get_char(i1) == ']' {
        if p_ws(s, n, i1 + 1) == n {
            let out: Vec<Reviewer> = Vec::new();
            proof {
                assert(views(out@) =~= Seq::<ReviewerV>::empty());
            }
            Some(out)
        } else {
            None
        }
    } else {
        match p_records(s, n, i1, n) {
            Some((v, j)) => {
                if j < n && s.get_char(j) == ']' && p_ws(s, n, j + 1) == n {
                    Some(v)
                } else {
                    None
                }
            },
            None => None,
        }
    }
}

// ---------------------------------------------------------------------
// Round trip: the parser is a left inverse of the encoder.
// ---------------------------------------------------------------------
/// A range of `s` equal to a concatenation splits into its two parts.
proof fn lemma_split(s: Seq<char>, i: int, a: Seq<char>, b: Seq<char>)
    requires
        0 <= i,
        i + a.len() + b.len() <= s.len(),
        s.subrange(i, i + a.len() + b.len()) == a + b,
    ensures
        s.subrange(i, i + a.len()) == a,
        s.subrange(i + a.len(), i + a.len() + b.len()) == b,
{
    let w = s.subrange(i, i + a.len() + b.len());
    assert forall|k: int| 0 <= k < a.len() implies s.subrange(i, i + a.len())[k] == a[k] by {
        assert(w[k] == (a + b)[k]);
    }
    assert(s.subrange(i, i + a.len()) =~= a);
    assert forall|k: int| 0 <= k < b.len() implies s.subrange(
        i + a.len(),
        i + a.len() + b.len(),
    )[k] == b[k] by {
        assert(w[a.len() + k] == (a + b)[a.len() + k]);
    }
    assert(s.subrange(i + a.len(), i + a.len() + b.len()) =~= b);
}

/// A hex digit character renders and reads back as its value.
proof fn lemma_hex_char(d: int)
    requires
        0 <= d < 16,
    ensures
        is_hex(hex_char_lo(d)),
        hex_val(hex_char_lo(d)) == d,
{
    if d < 10 {
        assert(hex_char_lo(d) as int == 48 + d);
    } else {
        assert(hex_char_lo(d) as int == 87 + d);
    }
}

/// Parsing the escaped body of `t` followed by the closing quote yields
/// `t` and stops right after the quote.
proof fn lemma_str_body_round(s: Seq<char>, i: int, t: Seq<char>)
    requires
        0 <= i,
        i + esc_str(t).len() + 1 <= s.len(),
        s.subrange(i, i + esc_str(t).len() + 1) == esc_str(t) + seq!['"'],
    ensures
        sp_str_body(s, i) == Some((t, i + esc_str(t).len() + 1)),
    decreases t.len(),
{
    if t.len() == 0 {
        assert(s[i] == (esc_str(t) + seq!['"'])[0]);
        assert(s[i] == '"');
        assert(sp_str_body(s, i) == Some((Seq::<char>::empty(), i + 1)));
        assert(t =~= Seq::<char>::empty());
    } else {
        let c0 = t[0];
        let e0 = esc_char(c0);
        let rest = esc_str(t.skip(1));
        assert(esc_str(t) == e0 + rest);
        assert((e0 + rest) + seq!['"'] =~= e0 + (rest + seq!['"']));
        lemma_split(s, i, e0, rest + seq!['"']);
        let i2 = i + e0.len();
        lemma_str_body_round(s, i2, t.skip(1));
        if c0 == '"' || c0 == '\\' || c0 == '\n' || c0 == '\t' || c0 == '\r' || c0 == '\u{8}'
            || c0 == '\u{c}' {
            assert(e0.len() == 2);
            assert(s.subrange(i, i + 2)[0] == e0[0]);
            assert(s.subrange(i, i + 2)[1] == e0[1]);
            assert(s[i] == '\\');
            assert(s[i + 1] != 'u');
            assert(esc_decode(s[i + 1]) == Some(c0));
            assert(sp_str_body(s, i) == Some((seq![c0] + t.skip(1), i2 + rest.len() + 1)));
        } else if (c0 as u32) < 32 {
            assert(e0.len() == 6);
            assert(s.subrange(i, i + 6)[0] == e0[0]);
            assert(s.subrange(i, i + 6)[1] == e0[1]);
            assert(s.subrange(i, i + 6)[2] == e0[2]);
            assert(s.subrange(i, i + 6)[3] == e0[3]);
            assert(s.subrange(i, i + 6)[4] == e0[4]);
            assert(s.subrange(i, i + 6)[5] == e0[5]);
            assert(s[i] == '\\' && s[i + 1] == 'u');
            let hi = ((c0 as u32) / 16) as int;
            let lo = ((c0 as u32) % 16) as int;
            assert(s[i + 2] == '0' && s[i + 3] == '0');
            assert(s[i + 4] == hex_char_lo(hi) && s[i + 5] == hex_char_lo(lo));
            lemma_hex_char(hi);
            lemma_hex_char(lo);
            assert(is_hex('0') && hex_val('0') == 0);
            let code = hex_val(s[i + 2]) * 4096 + hex_val(s[i + 3]) * 256 + hex_val(s[i + 4])
                * 16 + hex_val(s[i + 5]);
            assert(code == hi * 16 + lo);
            assert(code == code_of(c0));
            assert(0 <= code < 0xD800);
            assert(code_of(char_of(code)) == code);
            assert(char_of(code) == c0) by {
                vstd::utf8::char_u32_cast(c0, c0 as u32);
                vstd::utf8::char_u32_cast(char_of(code), c0 as u32);
            }
            assert(sp_str_body(s, i) == Some((seq![c0] + t.skip(1), i2 + rest.len() + 1)));
        } else {
            assert(e0.len() == 1);
            assert(s.subrange(i, i + 1)[0] == e0[0]);
            assert(s[i] == c0);
            assert(s[i] != '"' && s[i] != '\\');
            assert(!((s[i] as u32) < 32));
            assert(sp_str_body(s, i) == Some((seq![c0] + t.skip(1), i2 + rest.len() + 1)));
        }
        assert(seq![c0] + t.skip(1) =~= t);
    }
}

/// Parsing the quoted form of `t` yields `t`.
proof fn lemma_string_round(s: Seq<char>, i: int, t: Seq<char>)
    requires
        0 <= i,
        i + json_string(t).len() <= s.len(),
        s.subrange(i, i + json_string(t).len()) == json_string(t),
    ensures
        sp_string(s, i) == Some((t, i + json_string(t).len())),
{
    assert(json_string(t) == (seq!['"'] + esc_str(t)) + seq!['"']);
    assert(seq!['"'] + esc_str(t) + seq!['"'] =~= seq!['"'] + (esc_str(t) + seq!['"']));
    lemma_split(s, i, seq!['"'], esc_str(t) + seq!['"']);
    assert(s[i] == '"') by {
        assert(s.subrange(i, i + 1)[0] == seq!['"'][0]);
    }
    lemma_str_body_round(s, i + 1, t);
}

/// Parsing the decimal rendering of `v`, not followed by a digit, yields
/// `v`.
proof fn lemma_number_round(s: Seq<char>, i: int, v: u64)
    requires
        0 <= i,
        i + dec_digits(v as nat).len() <= s.len(),
        s.subrange(i, i + dec_digits(v as nat).len()) == dec_digits(v as nat),
        i + dec_digits(v as nat).len() == s.len() || !is_digit(
            s[i + dec_digits(v as nat).len()],
        ),
    ensures
        sp_number(s, i) == Some((v as int, i + dec_digits(v as nat).len())),
{
    let d = dec_digits(v as nat);
    crate::numbers::lemma_dec_digits_val(v as nat);
    assert(forall|k: int| i <= k < i + d.len() ==> is_digit(#[trigger] s[k])) by {
        assert(forall|k: int|
            i <= k < i + d.len() ==> s[k] == s.subrange(i, i + d.len())[k - i]);
    }
    lemma_digits_end(s, i, i + d.len());
    assert(digits_val(s.subrange(i, i + d.len())) == v as int);
}

/// Parsing the encoding of an optional field yields the field.
proof fn lemma_opt_round(s: Seq<char>, i: int, o: Option<Seq<char>>)
    requires
        0 <= i,
        i + json_opt(o).len() <= s.len(),
        s.subrange(i, i + json_opt(o).len()) == json_opt(o),
    ensures
        sp_opt_text(s, i) == Some((o, i + json_opt(o).len())),
{
    reveal_strlit("null");
    match o {
        None => {
            assert(sp_lit(s, i, "null"@) == Some(i + "null"@.len()));
        },
        Some(t) => {
            assert(s[i] == '"') by {
                assert(json_opt(o)[0] == s.subrange(i, i + json_opt(o).len())[0]);
                assert(json_string(t)[0] == (seq!['"'] + esc_str(t) + seq!['"'])[0]);
            }
            assert(sp_lit(s, i, "null"@) is None) by {
                if i + 4 <= s.len() {
                    assert("null"@.len() == 4);
                    if s.subrange(i, i + 4) == "null"@ {
                        assert(s.subrange(i, i + 4)[0] == "null"@[0]);
                        assert(s[i] == 'n');
                    }
                }
            }
            lemma_string_round(s, i, t);
        },
    }
}

/// A field value's text starts with `n` (of `null`) or a quote, and is
/// at least two characters long.
proof fn lemma_json_opt_head(o: Option<Seq<char>>)
    ensures
        json_opt(o).len() >= 2,
        json_opt(o)[0] == 'n' || json_opt(o)[0] == '"',
        !is_ws(json_opt(o)[0]),
{
    reveal_strlit("null");
    match o {
        None => {
            assert(json_opt(o)[0] == 'n');
        },
        Some(t) => {
            assert(json_opt(o)[0] == (seq!['"'] + esc_str(t) + seq!['"'])[0]);
        },
    }
}

/// A record's text starts with the opening brace.
proof fn lemma_json_record_head(r: ReviewerV)
    ensures
        json_record(r).len() >= 1,
        json_record(r)[0] == '{',
{
    reveal_strlit("\"paper_id\"");
    assert(json_record(r)[0] == '{');
}

/// One `sp_fields` unfold for the `paper_id` field.
#[verifier::spinoff_prover]
proof fn lemma_field_paper_id(
    s: Seq<char>,
    q: int,
    c: int,
    v: int,
    m: int,
    pid: u64,
    acc: RecAcc,
    fuel: nat,
    res: Option<(RecAcc, int)>,
)
    requires
        fuel >= 1,
        sp_lit(s, q, "\"paper_id\""@) == Some(c),
        acc.paper_id is None,
        sp_ws(s, c) == c,
        0 <= c < s.len(),
        s[c] == ':',
        sp_ws(s, c + 1) == v,
        sp_number(s, v) == Some((pid as int, m)),
        sp_after_field(s, m, (RecAcc { paper_id: Some(pid as int), ..acc }), fuel) == res,
    ensures
        sp_fields(s, q, acc, fuel) == res,
{
}

/// One `sp_fields` unfold for the `raw_name` field.
#[verifier::spinoff_prover]
proof fn lemma_field_raw_name(
    s: Seq<char>,
    q: int,
    c: int,
    v: int,
    m: int,
    t: Option<Seq<char>>,
    acc: RecAcc,
    fuel: nat,
    res: Option<(RecAcc, int)>,
)
    requires
        fuel >= 1,
        sp_lit(s, q, "\"paper_id\""@) is None,
        sp_lit(s, q, "\"raw_name\""@) == Some(c),
        acc.raw_name is None,
        sp_ws(s, c) == c,
        0 <= c < s.len(),
        s[c] == ':',
        sp_ws(s, c + 1) == v,
        sp_opt_text(s, v) == Some((t, m)),
        sp_after_field(s, m, (RecAcc { raw_name: Some(t), ..acc }), fuel) == res,
    ensures
        sp_fields(s, q, acc, fuel) == res,
{
}

/// One `sp_fields` unfold for the `first_name` field.
#[verifier::spinoff_prover]
proof fn lemma_field_first_name(
    s: Seq<char>,
    q: int,
    c: int,
    v: int,
    m: int,
    t: Option<Seq<char>>,
    acc: RecAcc,
    fuel: nat,
    res: Option<(RecAcc, int)>,
)
    requires
        fuel >= 1,
        sp_lit(s, q, "\"paper_id\""@) is None,
        sp_lit(s, q, "\"raw_name\""@) is None,
        sp_lit(s, q, "\"first_name\""@) == Some(c),
        acc.first_name is None,
        sp_ws(s, c) == c,
        0 <= c < s.len(),
        s[c] == ':',
        sp_ws(s, c + 1) == v,
        sp_opt_text(s, v) == Some((t, m)),
        sp_after_field(s, m, (RecAcc { first_name: Some(t), ..acc }), fuel) == res,
    ensures
        sp_fields(s, q, acc, fuel) == res,
{
}

/// One `sp_fields` unfold for the `last_name` field.
#[verifier::spinoff_prover]
proof fn lemma_field_last_name(
    s: Seq<char>,
    q: int,
    c: int,
    v: int,
    m: int,
    t: Option<Seq<char>>,
    acc: RecAcc,
    fuel: nat,
    res: Option<(RecAcc, int)>,
)
    requires
        fuel >= 1,
        sp_lit(s, q, "\"paper_id\""@) is None,
        sp_lit(s, q, "\"raw_name\""@) is None,
        sp_lit(s, q, "\"first_name\""@) is None,
        sp_lit(s, q, "\"last_name\""@) == Some(c),
        acc.last_name is None,
        sp_ws(s, c) == c,
        0 <= c < s.len(),
        s[c] == ':',
        sp_ws(s, c + 1) == v,
        sp_opt_text(s, v) == Some((t, m)),
        sp_after_field(s, m, (RecAcc { last_name: Some(t), ..acc }), fuel) == res,
    ensures
        sp_fields(s, q, acc, fuel) == res,
{
}

/// One `sp_fields` unfold for the `institution` field.
#[verifier::spinoff_prover]
proof fn lemma_field_institution(
    s: Seq<char>,
    q: int,
    c: int,
    v: int,
    m: int,
    t: Option<Seq<char>>,
    acc: RecAcc,
    fuel: nat,
    res: Option<(RecAcc, int)>,
)
    requires
        fuel >= 1,
        sp_lit(s, q, "\"paper_id\""@) is None,
        sp_lit(s, q, "\"raw_name\""@) is None,
        sp_lit(s, q, "\"first_name\""@) is None,
        sp_lit(s, q, "\"last_name\""@) is None,
        sp_lit(s, q, "\"institution\""@) == Some(c),
        acc.institution is None,
        sp_ws(s, c) == c,
        0 <= c < s.len(),
        s[c] == ':',
        sp_ws(s, c + 1) == v,
        sp_opt_text(s, v) == Some((t, m)),
        sp_after_field(s, m, (RecAcc { institution: Some(t), ..acc }), fuel) == res,
    ensures
        sp_fields(s, q, acc, fuel) == res,
{
}

/// One `sp_fields` unfold for the `email` field.
#[verifier::spinoff_prover]
proof fn lemma_field_email(
    s: Seq<char>,
    q: int,
    c: int,
    v: int,
    m: int,
    t: Option<Seq<char>>,
    acc: RecAcc,
    fuel: nat,
    res: Option<(RecAcc, int)>,
)
    requires
        fuel >= 1,
        sp_lit(s, q, "\"paper_id\""@) is None,
        sp_lit(s, q, "\"raw_name\""@) is None,
        sp_lit(s, q, "\"first_name\""@) is None,
        sp_lit(s, q, "\"last_name\""@) is None,
        sp_lit(s, q, "\"institution\""@) is None,
        sp_lit(s, q, "\"email\""@) == Some(c),
        acc.email is None,
        sp_ws(s, c) == c,
        0 <= c < s.len(),
        s[c] == ':',
        sp_ws(s, c + 1) == v,
        sp_opt_text(s, v) == Some((t, m)),
        sp_after_field(s, m, (RecAcc { email: Some(t), ..acc }), fuel) == res,
    ensures
        sp_fields(s, q, acc, fuel) == res,
{
}

/// Parsing the encoding of one record yields the record.
#[verifier::rlimit(100)]
proof fn lemma_record_round(s: Seq<char>, i: int, r: ReviewerV)
    requires
        0 <= i,
        i + json_record(r).len() <= s.len(),
        s.subrange(i, i + json_record(r).len()) == json_record(r),
    ensures
        sp_record(s, i) == Some((r, i + json_record(r).len())),
{
    reveal_strlit("\"paper_id\"");
    reveal_strlit("\"raw_name\"");
    reveal_strlit("\"first_name\"");
    reveal_strlit("\"last_name\"");
    reveal_strlit("\"institution\"");
    reveal_strlit("\"email\"");
    let kp = "\"paper_id\""@;
    let kr = "\"raw_name\""@;
    let kf = "\"first_name\""@;
    let kl = "\"last_name\""@;
    let ki = "\"institution\""@;
    let ke = "\"email\""@;
    let p1 = dec_digits(r.paper_id as nat);
    let p2 = json_opt(r.raw_name);
    let p3 = json_opt(r.first_name);
    let p4 = json_opt(r.last_name);
    let p5 = json_opt(r.institution);
    let p6 = json_opt(r.email);
    let colon = seq![':'];
    let comma = seq![','];
    let b1 = seq!['{'];
    let b2 = b1 + kp;
    let b3 = b2 + colon;
    let b4 = b3 + p1;
    let b5 = b4 + comma;
    let b6 = b5 + kr;
    let b7 = b6 + colon;
    let b8 = b7 + p2;
    let b9 = b8 + comma;
    let b10 = b9 + kf;
    let b11 = b10 + colon;
    let b12 = b11 + p3;
    let b13 = b12 + comma;
    let b14 = b13 + kl;
    let b15 = b14 + colon;
    let b16 = b15 + p4;
    let b17 = b16 + comma;
    let b18 = b17 + ki;
    let b19 = b18 + colon;
    let b20 = b19 + p5;
    let b21 = b20 + comma;
    let b22 = b21 + ke;
    let b23 = b22 + colon;
    let b24 = b23 + p6;
    let b25 = b24 + seq!['}'];
    assert(json_record(r) == b25);
    lemma_split(s, i, b24, seq!['}']);
    lemma_split(s, i, b23, p6);
    lemma_split(s, i, b22, colon);
    lemma_split(s, i, b21, ke);
    lemma_split(s, i, b20, comma);
    lemma_split(s, i, b19, p5);
    lemma_split(s, i, b18, colon);
    lemma_split(s, i, b17, ki);
    lemma_split(s, i, b16, comma);
    lemma_split(s, i, b15, p4);
    lemma_split(s, i, b14, colon);
    lemma_split(s, i, b13, kl);
    lemma_split(s, i, b12, comma);
    lemma_split(s, i, b11, p3);
    lemma_split(s, i, b10, colon);
    lemma_split(s, i, b9, kf);
    lemma_split(s, i, b8, comma);
    lemma_split(s, i, b7, p2);
    lemma_split(s, i, b6, colon);
    lemma_split(s, i, b5, kr);
    lemma_split(s, i, b4, comma);
    lemma_split(s, i, b3, p1);
    lemma_split(s, i, b2, colon);
    lemma_split(s, i, b1, kp);
    let q1 = i + 1;
    let c1 = i + b2.len();
    let v1 = i + b3.len();
    let m1 = i + b4.len();
    let q2 = i + b5.len();
    let c2 = i + b6.len();
    let v2 = i + b7.len();
    let m2 = i + b8.len();
    let q3 = i + b9.len();
    let c3 = i + b10.len();
    let v3 = i + b11.len();
    let m3 = i + b12.len();
    let q4 = i + b13.len();
    let c4 = i + b14.len();
    let v4 = i + b15.len();
    let m4 = i + b16.len();
    let q5 = i + b17.len();
    let c5 = i + b18.len();
    let v5 = i + b19.len();
    let m5 = i + b20.len();
    let q6 = i + b21.len();
    let c6 = i + b22.len();
    let v6 = i + b23.len();
    let m6 = i + b24.len();
    let fin = i + b25.len();
    // the single separator characters
    assert(s[i] == '{') by {
        assert(s.subrange(i, i + 1)[0] == '{');
    }
    assert(s[c1] == ':') by {
        assert(s.subrange(c1, v1)[0] == ':');
    }
    assert(s[m1] == ',') by {
        assert(s.subrange(m1, q2)[0] == ',');
    }
    assert(s[c2] == ':') by {
        assert(s.subrange(c2, v2)[0] == ':');
    }
    assert(s[m2] == ',') by {
        assert(s.subrange(m2, q3)[0] == ',');
    }
    assert(s[c3] == ':') by {
        assert(s.subrange(c3, v3)[0] == ':');
    }
    assert(s[m3] == ',') by {
        assert(s.subrange(m3, q4)[0] == ',');
    }
    assert(s[c4] == ':') by {
        assert(s.subrange(c4, v4)[0] == ':');
    }
    assert(s[m4] == ',') by {
        assert(s.subrange(m4, q5)[0] == ',');
    }
    assert(s[c5] == ':') by {
        assert(s.subrange(c5, v5)[0] == ':');
    }
    assert(s[m5] == ',') by {
        assert(s.subrange(m5, q6)[0] == ',');
    }
    assert(s[c6] == ':') by {
        assert(s.subrange(c6, v6)[0] == ':');
    }
    assert(s[m6] == '}') by {
        assert(s.subrange(m6, fin)[0] == '}');
    }
    // the head characters of the keys
    assert(s[q1] == '"' && s[q1 + 1] == 'p') by {
        assert(s.subrange(q1, c1)[0] == kp[0]);
        assert(s.subrange(q1, c1)[1] == kp[1]);
    }
    assert(s[q2] == '"' && s[q2 + 1] == 'r') by {
        assert(s.subrange(q2, c2)[0] == kr[0]);
        assert(s.subrange(q2, c2)[1] == kr[1]);
    }
    assert(s[q3] == '"' && s[q3 + 1] == 'f') by {
        assert(s.subrange(q3, c3)[0] == kf[0]);
        assert(s.subrange(q3, c3)[1] == kf[1]);
    }
    assert(s[q4] == '"' && s[q4 + 1] == 'l') by {
        assert(s.subrange(q4, c4)[0] == kl[0]);
        assert(s.subrange(q4, c4)[1] == kl[1]);
    }
    assert(s[q5] == '"' && s[q5 + 1] == 'i') by {
        assert(s.subrange(q5, c5)[0] == ki[0]);
        assert(s.subrange(q5, c5)[1] == ki[1]);
    }
    assert(s[q6] == '"' && s[q6 + 1] == 'e') by {
        assert(s.subrange(q6, c6)[0] == ke[0]);
        assert(s.subrange(q6, c6)[1] == ke[1]);
    }
    // the head characters of the values
    crate::numbers::lemma_dec_digits_val(r.paper_id as nat);
    assert(is_digit(s[v1])) by {
        assert(s.subrange(v1, m1)[0] == p1[0]);
    }
    lemma_json_opt_head(r.raw_name);
    lemma_json_opt_head(r.first_name);
    lemma_json_opt_head(r.last_name);
    lemma_json_opt_head(r.institution);
    lemma_json_opt_head(r.email);
    assert(s[v2] == p2[0]) by {
        assert(s.subrange(v2, m2)[0] == p2[0]);
    }
    assert(s[v3] == p3[0]) by {
        assert(s.subrange(v3, m3)[0] == p3[0]);
    }
    assert(s[v4] == p4[0]) by {
        assert(s.subrange(v4, m4)[0] == p4[0]);
    }
    assert(s[v5] == p5[0]) by {
        assert(s.subrange(v5, m5)[0] == p5[0]);
    }
    assert(s[v6] == p6[0]) by {
        assert(s.subrange(v6, m6)[0] == p6[0]);
    }
    // the values parse
    lemma_number_round(s, v1, r.paper_id);
    lemma_opt_round(s, v2, r.raw_name);
    lemma_opt_round(s, v3, r.first_name);
    lemma_opt_round(s, v4, r.last_name);
    lemma_opt_round(s, v5, r.institution);
    lemma_opt_round(s, v6, r.email);
    // the keys match where they stand and nowhere earlier in the chain
    assert(sp_lit(s, q1, kp) == Some(c1));
    assert(sp_lit(s, q2, kr) == Some(c2));
    assert(sp_lit(s, q3, kf) == Some(c3));
    assert(sp_lit(s, q4, kl) == Some(c4));
    assert(sp_lit(s, q5, ki) == Some(c5));
    assert(sp_lit(s, q6, ke) == Some(c6));
    assert(sp_lit(s, q2, kp) is None) by {
        if 0 <= q2 && q2 + kp.len() <= s.len() && s.subrange(q2, q2 + kp.len()) == kp {
            assert(s.subrange(q2, q2 + kp.len())[1] == kp[1]);
        }
    }
    assert(sp_lit(s, q3, kp) is None) by {
        if 0 <= q3 && q3 + kp.len() <= s.len() && s.subrange(q3, q3 + kp.len()) == kp {
            assert(s.subrange(q3, q3 + kp.len())[1] == kp[1]);
        }
    }
    assert(sp_lit(s, q3, kr) is None) by {
        if 0 <= q3 && q3 + kr.len() <= s.len() && s.subrange(q3, q3 + kr.len()) == kr {
            assert(s.subrange(q3, q3 + kr.len())[1] == kr[1]);
        }
    }
    assert(sp_lit(s, q4, kp) is None) by {
        if 0 <= q4 && q4 + kp.len() <= s.len() && s.subrange(q4, q4 + kp.len()) == kp {
            assert(s.subrange(q4, q4 + kp.len())[1] == kp[1]);
        }
    }
    assert(sp_lit(s, q4, kr) is None) by {
        if 0 <= q4 && q4 + kr.len() <= s.len() && s.subrange(q4, q4 + kr.len()) == kr {
            assert(s.subrange(q4, q4 + kr.len())[1] == kr[1]);
        }
    }
    assert(sp_lit(s, q4, kf) is None) by {
        if 0 <= q4 && q4 + kf.len() <= s.len() && s.subrange(q4, q4 + kf.len()) == kf {
            assert(s.subrange(q4, q4 + kf.len())[1] == kf[1]);
        }
    }
    assert(sp_lit(s, q5, kp) is None) by {
        if 0 <= q5 && q5 + kp.len() <= s.len() && s.subrange(q5, q5 + kp.len()) == kp {
            assert(s.subrange(q5, q5 + kp.len())[1] == kp[1]);
        }
    }
    assert(sp_lit(s, q5, kr) is None) by {
        if 0 <= q5 && q5 + kr.len() <= s.len() && s.subrange(q5, q5 + kr.len()) == kr {
            assert(s.subrange(q5, q5 + kr.len())[1] == kr[1]);
        }
    }
    assert(sp_lit(s, q5, kf) is None) by {
        if 0 <= q5 && q5 + kf.len() <= s.len() && s.subrange(q5, q5 + kf.len()) == kf {
            assert(s.subrange(q5, q5 + kf.len())[1] == kf[1]);
        }
    }
    assert(sp_lit(s, q5, kl) is None) by {
        if 0 <= q5 && q5 + kl.len() <= s.len() && s.subrange(q5, q5 + kl.len()) == kl {
            assert(s.subrange(q5, q5 + kl.len())[1] == kl[1]);
        }
    }
    assert(sp_lit(s, q6, kp) is None) by {
        if 0 <= q6 && q6 + kp.len() <= s.len() && s.subrange(q6, q6 + kp.len()) == kp {
            assert(s.subrange(q6, q6 + kp.len())[1] == kp[1]);
        }
    }
    assert(sp_lit(s, q6, kr) is None) by {
        if 0 <= q6 && q6 + kr.len() <= s.len() && s.subrange(q6, q6 + kr.len()) == kr {
            assert(s.subrange(q6, q6 + kr.len())[1] == kr[1]);
        }
    }
    assert(sp_lit(s, q6, kf) is None) by {
        if 0 <= q6 && q6 + kf.len() <= s.len() && s.subrange(q6, q6 + kf.len()) == kf {
            assert(s.subrange(q6, q6 + kf.len())[1] == kf[1]);
        }
    }
    assert(sp_lit(s, q6, kl) is None) by {
        if 0 <= q6 && q6 + kl.len() <= s.len() && s.subrange(q6, q6 + kl.len()) == kl {
            assert(s.subrange(q6, q6 + kl.len())[1] == kl[1]);
        }
    }
    assert(sp_lit(s, q6, ki) is None) by {
        if 0 <= q6 && q6 + ki.len() <= s.len() && s.subrange(q6, q6 + ki.len()) == ki {
            assert(s.subrange(q6, q6 + ki.len())[1] == ki[1]);
        }
    }
    // walk the field chain, innermost step first
    let fuel = s.len() as nat;
    assert(s.len() >= 6);
    let acc0 = empty_acc();
    let acc1 = RecAcc { paper_id: Some(r.paper_id as int), ..acc0 };
    let acc2 = RecAcc { raw_name: Some(r.raw_name), ..acc1 };
    let acc3 = RecAcc { first_name: Some(r.first_name), ..acc2 };
    let acc4 = RecAcc { last_name: Some(r.last_name), ..acc3 };
    let acc5 = RecAcc { institution: Some(r.institution), ..acc4 };
    let acc6 = RecAcc { email: Some(r.email), ..acc5 };
    assert(sp_ws(s, q1) == q1);
    assert(sp_ws(s, c1) == c1);
    assert(sp_ws(s, v1) == v1);
    assert(sp_ws(s, m1) == m1);
    assert(sp_ws(s, q2) == q2);
    assert(sp_ws(s, c2) == c2);
    assert(sp_ws(s, v2) == v2);
    assert(sp_ws(s, m2) == m2);
    assert(sp_ws(s, q3) == q3);
    assert(sp_ws(s, c3) == c3);
    assert(sp_ws(s, v3) == v3);
    assert(sp_ws(s, m3) == m3);
    assert(sp_ws(s, q4) == q4);
    assert(sp_ws(s, c4) == c4);
    assert(sp_ws(s, v4) == v4);
    assert(sp_ws(s, m4) == m4);
    assert(sp_ws(s, q5) == q5);
    assert(sp_ws(s, c5) == c5);
    assert(sp_ws(s, v5) == v5);
    assert(sp_ws(s, m5) == m5);
    assert(sp_ws(s, q6) == q6);
    assert(sp_ws(s, c6) == c6);
    assert(sp_ws(s, v6) == v6);
    assert(sp_ws(s, m6) == m6);
    let res = Some((acc6, m6));
    assert(sp_after_field(s, m6, acc6, (fuel - 5) as nat) == res);
    lemma_field_email(s, q6, c6, v6, m6, r.email, acc5, (fuel - 5) as nat, res);
    assert(sp_after_field(s, m5, acc5, (fuel - 4) as nat) == res);
    lemma_field_institution(s, q5, c5, v5, m5, r.institution, acc4, (fuel - 4) as nat, res);
    assert(sp_after_field(s, m4, acc4, (fuel - 3) as nat) == res);
    lemma_field_last_name(s, q4, c4, v4, m4, r.last_name, acc3, (fuel - 3) as nat, res);
    assert(sp_after_field(s, m3, acc3, (fuel - 2) as nat) == res);
    lemma_field_first_name(s, q3, c3, v3, m3, r.first_name, acc2, (fuel - 2) as nat, res);
    assert(sp_after_field(s, m2, acc2, (fuel - 1) as nat) == res);
    lemma_field_raw_name(s, q2, c2, v2, m2, r.raw_name, acc1, (fuel - 1) as nat, res);
    assert(sp_after_field(s, m1, acc1, fuel) == res);
    lemma_field_paper_id(s, q1, c1, v1, m1, r.paper_id, acc0, fuel, res);
    assert(sp_fields(s, q1, acc0, fuel) == res);
    // finish the record
    let parsed = ReviewerV {
        paper_id: (r.paper_id as int) as u64,
        raw_name: r.raw_name,
        first_name: r.first_name,
        last_name: r.last_name,
        institution: r.institution,
        email: r.email,
    };
    assert(finalize(acc6) == Some(parsed));
    assert(parsed == r);
    assert(sp_record(s, i) == Some((r, fin)));
}

/// Parsing an encoded record list, followed by anything but a comma or
/// whitespace, yields the records.
#[verifier::rlimit(100)]
#[verifier::spinoff_prover]
proof fn lemma_records_round(s: Seq<char>, i: int, rs: Seq<ReviewerV>, fuel: nat)
    requires
        0 <= i,
        rs.len() >= 1,
        fuel >= rs.len(),
        i + json_records(rs).len() < s.len(),
        s.subrange(i, i + json_records(rs).len()) == json_records(rs),
        s[i + json_records(rs).len()] != ',',
        !is_ws(s[i + json_records(rs).len()]),
    ensures
        sp_records(s, i, fuel) == Some((rs, i + json_records(rs).len())),
    decreases rs.len(),
{
    if rs.len() == 1 {
        assert(json_records(rs) == json_record(rs[0]));
        lemma_record_round(s, i, rs[0]);
        let j = i + json_records(rs).len();
        assert(sp_ws(s, j) == j);
        assert(sp_records(s, i, fuel) == Some((seq![rs[0]], j)));
        assert(seq![rs[0]] =~= rs);
    } else {
        let h = json_record(rs[0]);
        let rest = json_records(rs.skip(1));
        assert(json_records(rs) == h + seq![','] + rest);
        assert((h + seq![','] + rest) =~= (h + seq![',']) + rest);
        lemma_split(s, i, h + seq![','], rest);
        lemma_split(s, i, h, seq![',']);
        lemma_record_round(s, i, rs[0]);
        let j = i + h.len();
        assert(s[j] == ',') by {
            assert(s.subrange(j, j + 1)[0] == ',');
        }
        assert(sp_ws(s, j) == j);
        lemma_json_record_head(rs.skip(1)[0]);
        assert(rest.len() >= 1 && rest[0] == '{') by {
            if rs.skip(1).len() > 1 {
                assert(rest == json_record(rs.skip(1)[0]) + seq![','] + json_records(
                    rs.skip(1).skip(1),
                ));
            }
        }
        assert(s[j + 1] == '{') by {
            assert(s.subrange(j + 1, i + json_records(rs).len())[0] == rest[0]);
        }
        assert(sp_ws(s, j + 1) == j + 1);
        lemma_records_round(s, j + 1, rs.skip(1), (fuel - 1) as nat);
        assert(sp_records(s, i, fuel) == Some(
            (seq![rs[0]] + rs.skip(1), j + 1 + rest.len()),
        ));
        assert(seq![rs[0]] + rs.skip(1) =~= rs);
    }
}

/// Each record list is at least as long in text as in records.
proof fn lemma_json_records_len(rs: Seq<ReviewerV>)
    ensures
        json_records(rs).len() >= rs.len(),
    decreases rs.len(),
{
    if rs.len() > 1 {
        lemma_json_records_len(rs.skip(1));
        lemma_json_record_head(rs[0]);
    } else if rs.len() == 1 {
        lemma_json_record_head(rs[0]);
    }
}

/// Round trip: parsing the canonical encoding of any batch of records
/// yields exactly that batch.
pub proof fn lemma_batch_json_round_trip(rs: Seq<ReviewerV>)
    ensures
        sp_batch(json_batch(rs)) == Some(rs),
{
    let s = json_batch(rs);
    assert(s == (seq!['['] + json_records(rs)) + seq![']']);
    assert(s.len() == 2 + json_records(rs).len());
    assert(s[0] == '[');
    assert(s[s.len() - 1] == ']');
    assert(sp_ws(s, 0) == 0);
    if rs.len() == 0 {
        assert(s.len() == 2);
        assert(s[1] == ']');
        assert(sp_ws(s, 1) == 1);
        assert(sp_ws(s, 2) == 2);
        assert(sp_batch(s) == Some(Seq::<ReviewerV>::empty()));
        assert(Seq::<ReviewerV>::empty() =~= rs);
    } else {
        lemma_json_records_len(rs);
        lemma_json_record_head(rs[0]);
        assert(s.len() > 2);
        assert(json_records(rs).len() >= 1 && json_records(rs)[0] == '{') by {
            if rs.len() > 1 {
                assert(json_records(rs) == json_record(rs[0]) + seq![','] + json_records(
                    rs.skip(1),
                ));
            }
        }
        assert(s[1] == '{') by {
            assert(s[1] == json_records(rs)[0]);
        }
        assert(sp_ws(s, 1) == 1);
        assert(s.subrange(1, 1 + json_records(rs).len() as int) =~= json_records(rs));
        assert(s[1 + json_records(rs).len() as int] == ']');
        lemma_records_round(s, 1, rs, s.len() as nat);
        assert(sp_ws(s, s.len() as int) == s.len() as int);
        assert(sp_batch(s) == Some(rs));
    }
}

} // verus!
