//! Tests of the record-level building blocks: deduplication, chunking,
//! numbers, prompt assembly, schema conversion and pruning.

use conftool_helper::dedupe::dedupe;
use conftool_helper::chunk::chunk;
use conftool_helper::numbers::{parse_id, parse_u64, u64_to_string};
use conftool_helper::prompt::{assemble_user_prompt, replace_all};
use conftool_helper::prune::prune;
use conftool_helper::record::Reviewer;
use conftool_helper::store::{column_index, record_to_row, row_to_record};
use conftool_helper::errors::LoadError;

fn raw(paper_id: u64, name: &str) -> Reviewer {
    Reviewer {
        paper_id,
        raw_name: Some(name.to_string()),
        first_name: None,
        last_name: None,
        institution: None,
        email: None,
    }
}

fn with_email(paper_id: u64, name: &str, email: &str) -> Reviewer {
    Reviewer {
        paper_id,
        raw_name: Some(name.to_string()),
        first_name: None,
        last_name: None,
        institution: None,
        email: Some(email.to_string()),
    }
}

#[test]
fn dedupe_drops_later_duplicates_keeps_order() {
    let input = vec![raw(1, "Ada"), raw(2, "Bob"), raw(3, "Ada"), raw(4, "Cyd")];
    let out = dedupe(&input);
    assert_eq!(out.len(), 3);
    assert_eq!(out[0], raw(1, "Ada"));
    assert_eq!(out[1], raw(2, "Bob"));
    assert_eq!(out[2], raw(4, "Cyd"));
}

#[test]
fn dedupe_first_occurrence_wins() {
    let input = vec![raw(7, "Same"), raw(9, "Same")];
    let out = dedupe(&input);
    assert_eq!(out.len(), 1);
    assert_eq!(out[0].paper_id, 7);
}

#[test]
fn dedupe_is_idempotent_on_concrete_input() {
    let input = vec![raw(1, "A"), raw(2, "B"), raw(3, "A"), raw(4, "B"), raw(5, "C")];
    let once = dedupe(&input);
    let twice = dedupe(&once);
    assert_eq!(once, twice);
    assert!(once.len() <= input.len());
}

#[test]
fn dedupe_treats_absent_names_as_equal() {
    let mut a = raw(1, "x");
    a.raw_name = None;
    let mut b = raw(2, "y");
    b.raw_name = None;
    let out = dedupe(&vec![a, b]);
    assert_eq!(out.len(), 1);
    assert_eq!(out[0].paper_id, 1);
}

#[test]
fn chunk_eleven_records_gives_five_five_one() {
    let input: Vec<Reviewer> = (0..11).map(|i| raw(i, "n")).collect();
    let out = chunk(&input, 5);
    let sizes: Vec<usize> = out.iter().map(|c| c.len()).collect();
    assert_eq!(sizes, vec![5, 5, 1]);
    assert_eq!(out[2][0].paper_id, 10);
}

#[test]
fn chunk_exact_multiple_and_empty() {
    let input: Vec<Reviewer> = (0..10).map(|i| raw(i, "n")).collect();
    assert_eq!(chunk(&input, 5).len(), 2);
    let empty: Vec<Reviewer> = Vec::new();
    assert_eq!(chunk(&empty, 5).len(), 0);
}

#[test]
fn number_rendering_is_canonical() {
    assert_eq!(u64_to_string(0), "0");
    assert_eq!(u64_to_string(7), "7");
    assert_eq!(u64_to_string(1234), "1234");
    assert_eq!(u64_to_string(u64::MAX), "18446744073709551615");
}

#[test]
fn number_parsing_accepts_digits_only() {
    assert_eq!(parse_u64("0"), Some(0));
    assert_eq!(parse_u64("007"), Some(7));
    assert_eq!(parse_u64("18446744073709551615"), Some(u64::MAX));
    assert_eq!(parse_u64(""), None);
    assert_eq!(parse_u64("12a"), None);
    assert_eq!(parse_u64("-4"), None);
    assert_eq!(parse_u64("18446744073709551616"), None);
}

#[test]
fn replace_substitutes_every_occurrence() {
    let out = replace_all("a<X>b<X>c", "<X>", "Y");
    assert_eq!(out, "aYbYc");
}

#[test]
fn replace_leaves_text_without_pattern_alone() {
    assert_eq!(replace_all("plain text", "<X>", "Y"), "plain text");
}

#[test]
fn replace_does_not_rescan_substituted_text() {
    assert_eq!(replace_all("aa", "a", "ab"), "abab");
}

#[test]
fn prompt_assembly_fills_both_placeholders() {
    let template = "data:\n<REVIEWER_RAW_DATA>\nctx:\n<SUBMISSION_DETAILS>";
    let out = assemble_user_prompt(template, "RAW", "CTX");
    assert_eq!(out, "data:\nRAW\nctx:\nCTX");
}

#[test]
fn column_index_finds_first_match() {
    let headers = vec!["paperID".to_string(), "title".to_string(), "email".to_string()];
    assert_eq!(column_index(&headers, "email"), Some(2));
    assert_eq!(column_index(&headers, "paperID"), Some(0));
    assert_eq!(column_index(&headers, "absent"), None);
}

#[test]
fn record_row_round_trip() {
    let rec = Reviewer {
        paper_id: 42,
        raw_name: Some("Jane Roe, Example Univ".to_string()),
        first_name: Some("Jane".to_string()),
        last_name: Some("Roe".to_string()),
        institution: None,
        email: Some("jane@example.org".to_string()),
    };
    let row = record_to_row(&rec);
    assert_eq!(row[0], "42");
    assert_eq!(row[4], "");
    let headers: Vec<String> = vec![
        "paper_id".to_string(),
        "raw_name".to_string(),
        "first_name".to_string(),
        "last_name".to_string(),
        "institution".to_string(),
        "email".to_string(),
    ];
    let back = row_to_record(&headers, &row).unwrap();
    assert_eq!(back, rec);
}

#[test]
fn row_without_paper_id_column_is_a_schema_error() {
    let headers = vec!["id".to_string(), "raw_name".to_string()];
    let row = vec!["1".to_string(), "x".to_string()];
    assert_eq!(row_to_record(&headers, &row), Err(LoadError::SchemaError));
}

#[test]
fn row_with_bad_number_or_width_is_a_parse_error() {
    let headers = vec!["paper_id".to_string(), "raw_name".to_string()];
    let bad_num = vec!["x1".to_string(), "n".to_string()];
    assert_eq!(row_to_record(&headers, &bad_num), Err(LoadError::ParseError));
    let short = vec!["1".to_string()];
    assert_eq!(row_to_record(&headers, &short), Err(LoadError::ParseError));
}

#[test]
fn id_cells_allow_one_leading_plus_sign() {
    assert_eq!(parse_id("+7"), Some(7));
    assert_eq!(parse_id("7"), Some(7));
    assert_eq!(parse_id("+"), None);
    assert_eq!(parse_id("++7"), None);
    assert_eq!(parse_id("-7"), None);
    let headers = vec!["paper_id".to_string(), "raw_name".to_string()];
    let row = vec!["+12".to_string(), "n".to_string()];
    let rec = row_to_record(&headers, &row).unwrap();
    assert_eq!(rec.paper_id, 12);
}

#[test]
fn raw_input_rows_read_with_optional_columns_missing() {
    let headers = vec!["paper_id".to_string(), "raw_name".to_string()];
    let row = vec!["12".to_string(), "Some Person".to_string()];
    let rec = row_to_record(&headers, &row).unwrap();
    assert_eq!(rec, raw(12, "Some Person"));
}

#[test]
fn prune_removes_roster_matches_and_email_less_candidates() {
    let candidates = vec![
        with_email(1, "a", "new@one.org"),
        with_email(2, "b", "member@tpc.org"),
        raw(3, "c"),
        with_email(4, "d", ""),
        with_email(5, "e", "new@two.org"),
    ];
    let roster = vec!["member@tpc.org".to_string(), "other@tpc.org".to_string()];
    let out = prune(&candidates, &roster);
    assert_eq!(out.len(), 2);
    assert_eq!(out[0].paper_id, 1);
    assert_eq!(out[1].paper_id, 5);
    for r in &out {
        let email = r.email.as_ref().unwrap();
        assert!(!email.is_empty());
        assert!(!roster.contains(email));
    }
}

#[test]
fn prune_of_nothing_is_nothing() {
    let out = prune(&Vec::new(), &vec!["x@y.z".to_string()]);
    assert!(out.is_empty());
}
