//! Tests of the wire codec, the submission index, the transcripts, the
//! batch extractor's retry and partition behaviour, and the pipeline
//! state machine, ending with the full end-to-end scenario.

use conftool_helper::codec::{batch_from_json, batch_to_json};
use conftool_helper::dedupe::dedupe;
use conftool_helper::errors::LoadError;
use conftool_helper::extractor::BatchExtractor;
use conftool_helper::index::{batch_context, build_submission_index};
use conftool_helper::pipeline::{advance, decide_extraction, PipelineEvent, PipelineState};
use conftool_helper::prune::prune;
use conftool_helper::record::Reviewer;
use conftool_helper::transcript::{transcript_content, transcript_file_name};
use std::collections::HashMap;

fn raw(paper_id: u64, name: &str) -> Reviewer {
    Reviewer {
        paper_id,
        raw_name: Some(name.to_string()),
        first_name: None,
        last_name: None,
        institution: None,
        email: None,
    }
}

fn parsed(paper_id: u64, name: &str, email: Option<&str>) -> Reviewer {
    Reviewer {
        paper_id,
        raw_name: Some(name.to_string()),
        first_name: None,
        last_name: None,
        institution: None,
        email: email.map(|e| e.to_string()),
    }
}

#[test]
fn encoding_one_record_is_exact() {
    let batch = vec![raw(1, "A")];
    let text = batch_to_json(&batch);
    assert_eq!(
        text,
        "[{\"paper_id\":1,\"raw_name\":\"A\",\"first_name\":null,\"last_name\":null,\
         \"institution\":null,\"email\":null}]"
    );
}

#[test]
fn encoding_escapes_quote_backslash_newline() {
    let batch = vec![raw(2, "a\"b\\c\nd")];
    let text = batch_to_json(&batch);
    assert!(text.contains("\"a\\\"b\\\\c\\nd\""));
    let back = batch_from_json(&text).unwrap();
    assert_eq!(back, batch);
}

#[test]
fn decoding_inverts_encoding() {
    let batch = vec![
        parsed(1, "Ada Lovelace", Some("ada@maths.org")),
        parsed(2, "B", None),
        raw(3, "C"),
    ];
    let text = batch_to_json(&batch);
    assert_eq!(batch_from_json(&text), Some(batch));
}

#[test]
fn decoding_rejects_malformed_text() {
    assert_eq!(batch_from_json("no json at all"), None);
    assert_eq!(batch_from_json(""), None);
    assert_eq!(batch_from_json("{\"paper_id\":1}"), None);
    assert_eq!(batch_from_json("[{\"paper_id\":-1}]"), None);
    // a missing paper id, a duplicate key, an unknown key, trailing text
    assert_eq!(batch_from_json("[{\"raw_name\":\"A\"}]"), None);
    assert_eq!(batch_from_json("[{\"paper_id\":1,\"paper_id\":2}]"), None);
    assert_eq!(batch_from_json("[{\"paper_id\":1,\"unknown\":3}]"), None);
    assert_eq!(batch_from_json("[{\"paper_id\":1}] tail"), None);
    let empty = batch_from_json("[]").unwrap();
    assert!(empty.is_empty());
    assert_eq!(batch_from_json("[ ]").unwrap(), Vec::new());
}

#[test]
fn decoding_accepts_standard_json_for_the_schema() {
    // pretty-printed whitespace, reordered fields, omitted optional
    // fields and the standard escapes all decode
    let pretty = "[\n  {\n    \"paper_id\": 7,\n    \"email\": \"a@b.c\"\n  },\n  {\n    \"raw_name\": \"N\\tM \\u0041\\/\",\n    \"paper_id\": 8\n  }\n]";
    let out = batch_from_json(pretty).unwrap();
    assert_eq!(out.len(), 2);
    assert_eq!(out[0].paper_id, 7);
    assert_eq!(out[0].email.as_deref(), Some("a@b.c"));
    assert_eq!(out[0].raw_name, None);
    assert_eq!(out[1].paper_id, 8);
    assert_eq!(out[1].raw_name.as_deref(), Some("N\tM A/"));
}

#[test]
fn submission_index_last_row_wins_and_bad_id_fails() {
    let rows = vec![
        vec!["First Title".to_string(), "11".to_string()],
        vec!["Other Title".to_string(), "12".to_string()],
        vec!["Newer Title".to_string(), "11".to_string()],
        vec!["short".to_string()],
    ];
    // the short row has no id cell in column 1 and is skipped
    let index = build_submission_index(&rows, 1).unwrap();
    assert_eq!(index.len(), 2);
    assert_eq!(index.get(&11).unwrap(), "Newer Title,11");
    assert_eq!(index.get(&12).unwrap(), "Other Title,12");

    let bad = vec![vec!["T".to_string(), "abc".to_string()]];
    assert_eq!(build_submission_index(&bad, 1), Err(LoadError::ParseError));
}

#[test]
fn batch_context_joins_found_rows_and_skips_missing() {
    let mut index: HashMap<u64, String> = HashMap::new();
    index.insert(1, "row one".to_string());
    index.insert(3, "row three".to_string());
    let batch = vec![raw(1, "a"), raw(2, "b"), raw(3, "c")];
    assert_eq!(batch_context(&batch, &index), "row one\nrow three");
    let none = vec![raw(9, "z")];
    assert_eq!(batch_context(&none, &index), "");
}

#[test]
fn transcript_names_and_content_are_deterministic() {
    assert_eq!(transcript_file_name(2, 1), "mandatory_reviewer_parse-2-1.txt");
    assert_eq!(
        transcript_content("S", "U", "R"),
        "SYSTEM PROMPT:\nS\n\nUSER PROMPT:\nU\n\nRESPONSE:\nR"
    );
}

#[test]
fn retry_bound_three_attempts_then_batch_fails() {
    let records: Vec<Reviewer> = (1..=6).map(|i| raw(i, "n")).collect();
    let index: HashMap<u64, String> = HashMap::new();
    let mut ex = BatchExtractor::new(
        &records,
        &index,
        "sys".to_string(),
        "<REVIEWER_RAW_DATA>|<SUBMISSION_DETAILS>",
    );
    assert!(!ex.is_done());
    let mut transcripts: Vec<String> = Vec::new();
    let mut invocations = 0;
    // the oracle always answers with unparsable text
    while let Some((_sys, _user)) = ex.current_request() {
        if ex.batch_idx > 0 {
            break;  // first batch settled
        }
        let (name, _content) = ex.on_response("garbage");
        transcripts.push(name);
        invocations += 1;
    }
    // exactly MAX_ATTEMPTS invocations for the batch, each one logged
    assert_eq!(invocations, 3);
    assert_eq!(
        transcripts,
        vec![
            "mandatory_reviewer_parse-0-0.txt".to_string(),
            "mandatory_reviewer_parse-0-1.txt".to_string(),
            "mandatory_reviewer_parse-0-2.txt".to_string(),
        ]
    );
    // the whole batch failed with its original records carried forward
    let (succ, fail) = ex.counts();
    assert_eq!(succ, 0);
    assert_eq!(fail, 5);
    assert_eq!(ex.failures, (1..=5).map(|i| raw(i, "n")).collect::<Vec<_>>());
    assert_eq!(ex.batch_idx, 1);
}

#[test]
fn valid_parse_partitions_batch_by_email() {
    let records: Vec<Reviewer> = (1..=3).map(|i| raw(i, "n")).collect();
    let index: HashMap<u64, String> = HashMap::new();
    let mut ex = BatchExtractor::new(
        &records,
        &index,
        "sys".to_string(),
        "<REVIEWER_RAW_DATA>",
    );
    let reply = batch_to_json(&vec![
        parsed(1, "n", Some("a@b.c")),
        parsed(2, "n", None),
        parsed(3, "n", Some("d@e.f")),
    ]);
    ex.on_response(&reply);
    let (succ, fail) = ex.counts();
    assert_eq!(succ + fail, 3);
    assert_eq!(succ, 2);
    assert_eq!(fail, 1);
    assert!(ex.is_done());
}

#[test]
fn empty_email_counts_as_failure() {
    let records = vec![raw(1, "n")];
    let index: HashMap<u64, String> = HashMap::new();
    let mut ex = BatchExtractor::new(&records, &index, "s".to_string(), "<REVIEWER_RAW_DATA>");
    let reply = batch_to_json(&vec![parsed(1, "n", Some(""))]);
    ex.on_response(&reply);
    let (succ, fail) = ex.counts();
    assert_eq!((succ, fail), (0, 1));
}

#[test]
fn absent_response_aborts_the_run() {
    let records = vec![raw(1, "n")];
    let index: HashMap<u64, String> = HashMap::new();
    let mut ex = BatchExtractor::new(&records, &index, "s".to_string(), "t");
    ex.on_no_response();
    assert!(ex.is_done());
    assert!(ex.aborted);
    assert_eq!(ex.current_request(), None);
}

#[test]
fn pipeline_walks_the_happy_path() {
    let mut s = PipelineState::Start;
    s = advance(s, PipelineEvent::RawLoaded);
    assert_eq!(s, PipelineState::Loaded);
    s = advance(s, PipelineEvent::Deduped);
    assert_eq!(s, PipelineState::Deduplicated);
    s = advance(
        s,
        PipelineEvent::OutputsChecked {
            success_exists: false,
            failure_exists: true,
            overwrite: false,
        },
    );
    assert_eq!(s, PipelineState::Deduplicated);
    s = advance(s, PipelineEvent::ExtractionFinished);
    assert_eq!(s, PipelineState::Extracted);
    s = advance(s, PipelineEvent::ReconciledLoaded);
    assert_eq!(s, PipelineState::Reconciled);
    s = advance(s, PipelineEvent::PrunedDone);
    assert_eq!(s, PipelineState::Pruned);
    s = advance(s, PipelineEvent::FinalWritten);
    assert_eq!(s, PipelineState::Finished);
}

#[test]
fn pipeline_skips_extraction_on_cached_outputs() {
    assert!(decide_extraction(false, true, true));
    assert!(!decide_extraction(true, true, true));
    assert!(!decide_extraction(false, false, true));
    assert!(!decide_extraction(false, true, false));
    let s = advance(
        PipelineState::Deduplicated,
        PipelineEvent::OutputsChecked {
            success_exists: true,
            failure_exists: true,
            overwrite: false,
        },
    );
    assert_eq!(s, PipelineState::ExtractionSkipped);
    // from the skipped state the run proceeds straight to reconciliation
    let s = advance(s, PipelineEvent::ReconciledLoaded);
    assert_eq!(s, PipelineState::Reconciled);
}

#[test]
fn fatal_event_aborts_from_any_state() {
    assert_eq!(advance(PipelineState::Start, PipelineEvent::Fatal), PipelineState::Aborted);
    assert_eq!(advance(PipelineState::Pruned, PipelineEvent::Fatal), PipelineState::Aborted);
}

#[test]
fn end_to_end_seven_records_to_three_survivors() {
    // 7 raw records, two sharing an identical raw name
    let input = vec![
        raw(1, "Ada Lovelace"),
        raw(2, "Grace Hopper"),
        raw(3, "Ada Lovelace"),
        raw(4, "Alan Turing"),
        raw(5, "Edsger Dijkstra"),
        raw(6, "Kurt Goedel"),
        raw(7, "Emmy Noether"),
    ];
    let unique = dedupe(&input);
    assert_eq!(unique.len(), 6);

    // two batches: five records, then one
    let index: HashMap<u64, String> = HashMap::new();
    let mut ex = BatchExtractor::new(&unique, &index, "sys".to_string(), "<REVIEWER_RAW_DATA>");
    assert_eq!(ex.batches.len(), 2);
    assert_eq!(ex.batches[0].len(), 5);
    assert_eq!(ex.batches[1].len(), 1);

    // the oracle answers both batches validly: four records carry emails,
    // two do not
    let reply1 = batch_to_json(&vec![
        parsed(1, "Ada Lovelace", Some("ada@maths.org")),
        parsed(2, "Grace Hopper", Some("grace@navy.mil")),
        parsed(4, "Alan Turing", None),
        parsed(5, "Edsger Dijkstra", Some("edsger@cs.utexas.edu")),
        parsed(6, "Kurt Goedel", None),
    ]);
    let reply2 = batch_to_json(&vec![parsed(7, "Emmy Noether", Some("emmy@algebra.org"))]);
    ex.on_response(&reply1);
    ex.on_response(&reply2);
    assert!(ex.is_done());
    let (succ, fail) = ex.counts();
    assert_eq!(succ, 4);
    assert_eq!(fail, 2);

    // manual reconciliation: the four successes plus one extra record
    // whose email is on the roster; one of the four also turns out to be
    // an existing member
    let mut reconciled = conftool_helper::record::duplicate_all(&ex.successes);
    reconciled.push(parsed(9, "Charles Babbage", Some("charles@tpc.org")));
    let roster = vec!["charles@tpc.org".to_string(), "grace@navy.mil".to_string()];
    let survivors = prune(&reconciled, &roster);
    assert_eq!(survivors.len(), 3);
    for r in &survivors {
        let email = r.email.as_ref().unwrap();
        assert!(!email.is_empty());
        assert!(!roster.contains(email));
    }
}
