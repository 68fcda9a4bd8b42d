use goose_session::commands::{activity_choice_label, keep_writing, outcome_of_pr_state, session_list_line_of, session_lookup, tally_outcomes, updated_choice_label, InferenceOutcome, InferenceTally, LineWrite, SessionLookup};
use goose_session::session::{order_sessions, positions_of_set};
use goose_session::commands::{
    archive_status, diagnostics_file_name, home_relative_display, infer_status, is_nostr_import,
    pr_for_status_inference, pr_state_query_args, session_choice_label, session_list_line,
    ArchiveStatusError, ExportFormat, StatusInference,
};
use goose_session::conversation::{Conversation, Message};
use goose_session::pr_status::GitHubPrRef;
use goose_session::session::{
    first_session_named, listed_session_order, sessions_with_id_matching, SessionStatus,
    SessionSummary, Timestamp,
};
use goose_session::text::{
    contains_str, parse_decimal_u64, safe_truncate, u64_to_decimal,
};

fn session(id: &str, name: &str, status: SessionStatus, dir: &str, updated: i64, last: Option<i64>) -> SessionSummary {
    SessionSummary {
        id: id.to_string(),
        name: name.to_string(),
        status,
        working_dir: dir.to_string(),
        updated_at: Timestamp { secs: updated, nanos: 0 },
        last_message_at: last.map(|secs| Timestamp { secs, nanos: 0 }),
    }
}

fn sample() -> Vec<SessionSummary> {
    vec![
        session("s0", "alpha", SessionStatus::Active, "/home/me/Work/api", 10, None),
        session("s1", "beta", SessionStatus::Pending, "/home/me/play", 5, Some(30)),
        session("s2", "alpha", SessionStatus::Archived, "/home/me/WORK/web", 20, None),
        session("s3", "gamma", SessionStatus::Completed, "/tmp", 10, None),
    ]
}

#[test]
fn listing_orders_by_last_activity() {
    let ss = sample();
    assert_eq!(listed_session_order(&ss, None, true, None), vec![0, 3, 2, 1]);
    assert_eq!(listed_session_order(&ss, None, false, None), vec![1, 2, 0, 3]);
}

#[test]
fn listing_filters_by_directory_ignoring_case_and_limits() {
    let ss = sample();
    assert_eq!(listed_session_order(&ss, Some("work"), false, None), vec![2, 0]);
    assert_eq!(listed_session_order(&ss, Some("WORK/A"), true, None), vec![0]);
    let accented = vec![session("u", "", SessionStatus::Active, "/Projets/ÉTÉ", 1, None)];
    assert_eq!(listed_session_order(&accented, Some("été"), true, None), vec![0]);
    assert_eq!(listed_session_order(&ss, None, false, Some(2)), vec![1, 2]);
    assert_eq!(listed_session_order(&ss, None, false, Some(0)), Vec::<usize>::new());
    assert_eq!(listed_session_order(&ss, Some("nowhere"), true, Some(3)), Vec::<usize>::new());
}

#[test]
fn activity_prefers_last_message() {
    let s = session("x", "", SessionStatus::Active, "/", 7, Some(3));
    assert_eq!(s.activity_at(), Timestamp { secs: 3, nanos: 0 });
    let s = session("x", "", SessionStatus::Active, "/", 7, None);
    assert_eq!(s.activity_at(), Timestamp { secs: 7, nanos: 0 });
    assert!(Timestamp { secs: 1, nanos: 5 }.is_before(&Timestamp { secs: 1, nanos: 6 }));
    assert!(!Timestamp { secs: 2, nanos: 0 }.is_before(&Timestamp { secs: 1, nanos: 9 }));
}

#[test]
fn lookup_by_name_respects_scope() {
    let ss = sample();
    assert_eq!(first_session_named(&ss, "alpha", None), Some(0));
    assert_eq!(first_session_named(&ss, "alpha", Some(true)), Some(0));
    assert_eq!(first_session_named(&ss, "alpha", Some(false)), Some(2));
    assert_eq!(first_session_named(&ss, "beta", Some(false)), None);
    assert_eq!(first_session_named(&ss, "delta", None), None);
}

#[test]
fn sessions_selected_by_id_pattern() {
    let ss = sample();
    assert_eq!(sessions_with_id_matching(&ss, "^s[13]$"), Ok(vec![1, 3]));
    assert_eq!(sessions_with_id_matching(&ss, "zzz"), Ok(vec![]));
    assert!(sessions_with_id_matching(&ss, "(").is_err());
}

#[test]
fn status_names_read_back() {
    for s in [
        SessionStatus::Active,
        SessionStatus::Pending,
        SessionStatus::Completed,
        SessionStatus::Rejected,
        SessionStatus::Superseded,
        SessionStatus::Archived,
    ] {
        assert_eq!(SessionStatus::parse(s.name()), Some(s));
    }
    assert_eq!(SessionStatus::parse("Archived"), None);
    assert!(SessionStatus::Pending.is_open());
    assert!(!SessionStatus::Rejected.is_open());
}

#[test]
fn archive_refuses_active_and_unknown() {
    assert_eq!(archive_status("completed"), Ok(SessionStatus::Completed));
    assert_eq!(archive_status("archived"), Ok(SessionStatus::Archived));
    assert_eq!(archive_status("active"), Err(ArchiveStatusError::UseUnarchive));
    assert_eq!(archive_status("done"), Err(ArchiveStatusError::UnknownStatus));
}

#[test]
fn list_lines_tag_non_active_sessions() {
    assert_eq!(
        session_list_line("id1", "fix", SessionStatus::Active, "2024-01-01 00:00:00 UTC", "~/w"),
        "id1 - fix - 2024-01-01 00:00:00 UTC - ~/w"
    );
    assert_eq!(
        session_list_line("id2", "fix", SessionStatus::Pending, "t", "/p"),
        "id2 - fix [pending] - t - /p"
    );
}

#[test]
fn choice_labels_name_and_truncate() {
    assert_eq!(session_choice_label("t", "", "7"), "t - (no name) (7)");
    assert_eq!(session_choice_label("t", "short", "7"), "t - short (7)");
    let long = "x".repeat(61);
    let label = session_choice_label("t", &long, "7");
    assert_eq!(label, format!("t - {}... (7)", "x".repeat(57)));
    let exact = "y".repeat(60);
    assert_eq!(session_choice_label("t", &exact, "7"), format!("t - {} (7)", exact));
}

#[test]
fn truncation_counts_characters() {
    assert_eq!(safe_truncate("abcdef", 5), "ab...");
    assert_eq!(safe_truncate("abc", 3), "abc");
    assert_eq!(safe_truncate("abcd", 2), "...");
    assert_eq!(safe_truncate("héllo wörld", 8), "héllo...");
}

#[test]
fn decimal_numbers() {
    assert_eq!(parse_decimal_u64("42"), Some(42));
    assert_eq!(parse_decimal_u64("+5"), Some(5));
    assert_eq!(parse_decimal_u64("+"), None);
    assert_eq!(parse_decimal_u64(""), None);
    assert_eq!(parse_decimal_u64("-1"), None);
    assert_eq!(parse_decimal_u64("1a"), None);
    assert_eq!(parse_decimal_u64("18446744073709551615"), Some(u64::MAX));
    assert_eq!(parse_decimal_u64("18446744073709551616"), None);
    assert_eq!(u64_to_decimal(0), "0");
    assert_eq!(u64_to_decimal(10616), "10616");
    for n in [0u64, 9, 10, 1234567, u64::MAX] {
        assert_eq!(parse_decimal_u64(&u64_to_decimal(n)), Some(n));
        assert_eq!(u64_to_decimal(n), n.to_string());
    }
}

#[test]
fn substring_and_lowercase() {
    assert!(contains_str("/home/me/work", "me/w"));
    assert!(contains_str("abc", ""));
    assert!(!contains_str("abc", "abcd"));
    assert!(!contains_str("abc", "ac"));
}

#[test]
fn infers_status_from_pr_state() {
    assert_eq!(infer_status(SessionStatus::Active, "OPEN\n"), StatusInference::Changed(SessionStatus::Pending));
    assert_eq!(infer_status(SessionStatus::Pending, "open"), StatusInference::Unchanged);
    assert_eq!(infer_status(SessionStatus::Pending, "MERGED"), StatusInference::Changed(SessionStatus::Completed));
    assert_eq!(infer_status(SessionStatus::Active, "CLOSED"), StatusInference::Changed(SessionStatus::Rejected));
    assert_eq!(infer_status(SessionStatus::Active, "DRAFT"), StatusInference::Unrecognized);
}

#[test]
fn gh_query_arguments() {
    let pr = GitHubPrRef {
        owner: "block".to_string(),
        repo: "goose".to_string(),
        number: 10670,
    };
    assert_eq!(
        pr_state_query_args(&pr),
        vec!["pr", "view", "10670", "--repo", "block/goose", "--json", "state", "--jq", ".state"]
    );
}

#[test]
fn status_inference_uses_latest_pr() {
    let conversation = Conversation::new_unvalidated(vec![
        Message::user().with_text("github.com/a/b/pull/3 github.com/a/b/pull/4"),
        Message::assistant().with_text("github.com/a/b/pull/3"),
    ]);
    assert_eq!(pr_for_status_inference(&conversation).map(|p| p.number), Some(3));
    let quiet = Conversation::new_unvalidated(vec![Message::user().with_text("no links")]);
    assert_eq!(pr_for_status_inference(&quiet), None);
}

#[test]
fn export_and_import_choices() {
    assert_eq!(ExportFormat::parse("json"), Some(ExportFormat::Json));
    assert_eq!(ExportFormat::parse("yaml"), Some(ExportFormat::Yaml));
    assert_eq!(ExportFormat::parse("markdown"), Some(ExportFormat::Markdown));
    assert_eq!(ExportFormat::parse("html"), None);
    assert!(is_nostr_import("goose://sessions/nostr/abc", false));
    assert!(is_nostr_import("session.json", true));
    assert!(!is_nostr_import("session.json", false));
    assert!(!is_nostr_import("goose://sessions/nos", false));
}

#[test]
fn file_names_and_paths() {
    assert_eq!(diagnostics_file_name("abc"), "diagnostics_abc.json");
    assert_eq!(home_relative_display("/home/me/x", Some("x")), "~/x");
    assert_eq!(home_relative_display("/opt/x", None), "/opt/x");
}

#[test]
fn list_lines_and_labels_from_sessions() {
    let s = session("id9", "fix", SessionStatus::Rejected, "/w", 0, Some(86_400));
    assert_eq!(
        session_list_line_of(&s, "~/w"),
        Some("id9 - fix [rejected] - 1970-01-02 00:00:00 UTC - ~/w".to_string())
    );
    assert_eq!(
        activity_choice_label(&s),
        Some("1970-01-02 00:00:00 UTC - fix (id9)".to_string())
    );
    assert_eq!(
        updated_choice_label(&s),
        Some("1970-01-01 00:00:00 UTC - fix (id9)".to_string())
    );
    let mut half = session("h", "", SessionStatus::Active, "/", 0, None);
    half.updated_at.nanos = 500_000_000;
    assert_eq!(
        session_list_line_of(&half, "/"),
        Some("h -  - 1970-01-01 00:00:00.500 UTC - /".to_string())
    );
    let far = session("f", "far", SessionStatus::Active, "/", i64::MAX, None);
    assert_eq!(session_list_line_of(&far, "/"), None);
    assert_eq!(activity_choice_label(&far), None);
}

#[test]
fn ordering_from_given_selection() {
    let ss = sample();
    assert_eq!(order_sessions(&ss, &vec![true, false, true, true], true, None), vec![0, 3, 2]);
    assert_eq!(order_sessions(&ss, &vec![true, true, true, true], false, Some(3)), vec![1, 2, 0]);
}

#[test]
fn positions_of_set_flags() {
    assert_eq!(positions_of_set(&vec![false, true, true, false, true]), vec![1, 2, 4]);
    assert_eq!(positions_of_set(&vec![]), Vec::<usize>::new());
}

#[test]
fn inference_tally_counts_and_summarises() {
    let mut t = InferenceTally::new();
    assert_eq!(t.summary(), "Inferred status for 0 session(s) with PRs, 0 updated");
    t.record(InferenceOutcome::NoPr);
    t.record(InferenceOutcome::StateUnread);
    t.record(InferenceOutcome::Inferred(StatusInference::Changed(SessionStatus::Completed)));
    t.record(InferenceOutcome::Inferred(StatusInference::Unchanged));
    assert_eq!((t.checked(), t.updated()), (3, 1));
    assert_eq!(t.summary(), "Inferred status for 3 session(s) with PRs, 1 updated");
    let all = tally_outcomes(&vec![
        InferenceOutcome::Inferred(StatusInference::Unrecognized),
        InferenceOutcome::NoPr,
        InferenceOutcome::Inferred(StatusInference::Changed(SessionStatus::Rejected)),
    ])
    .unwrap();
    assert_eq!(all.summary(), "Inferred status for 2 session(s) with PRs, 1 updated");
}

#[test]
fn outcome_of_a_read_or_unread_state() {
    assert_eq!(
        outcome_of_pr_state(SessionStatus::Active, Some("MERGED")),
        InferenceOutcome::Inferred(StatusInference::Changed(SessionStatus::Completed))
    );
    assert_eq!(
        outcome_of_pr_state(SessionStatus::Pending, Some("open")),
        InferenceOutcome::Inferred(StatusInference::Unchanged)
    );
    assert_eq!(outcome_of_pr_state(SessionStatus::Active, None), InferenceOutcome::StateUnread);
}

#[test]
fn writing_stops_quietly_on_broken_pipe() {
    assert_eq!(keep_writing(LineWrite::Written), Some(true));
    assert_eq!(keep_writing(LineWrite::BrokenPipe), Some(false));
    assert_eq!(keep_writing(LineWrite::Failed), None);
}

#[test]
fn session_lookup_prefers_id_then_path_then_name() {
    assert_eq!(session_lookup(true, true, true), Some(SessionLookup::ById));
    assert_eq!(session_lookup(false, true, true), Some(SessionLookup::ByPath));
    assert_eq!(session_lookup(false, false, true), Some(SessionLookup::ByName));
    assert_eq!(session_lookup(false, false, false), None);
}
