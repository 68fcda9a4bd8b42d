use goose_session::pr_status::pr_refs_from_captures;
use goose_session::conversation::{CallToolResult, Content, Conversation, Message, ToolError};
use goose_session::pr_status::{
    extract_github_pr_refs, find_conversation_pr_refs, status_from_github_pr_state, GitHubPrRef,
};
use goose_session::session::SessionStatus;

#[test]
fn extracts_pr_refs_from_text() {
    let text = "Opened https://github.com/aaif-goose/goose/pull/10616 for review,                     supersedes github.com/block/goose/pull/10500.";
    let refs = extract_github_pr_refs(text);
    assert_eq!(
        refs,
        vec![
            GitHubPrRef {
                owner: "aaif-goose".into(),
                repo: "goose".into(),
                number: 10616
            },
            GitHubPrRef {
                owner: "block".into(),
                repo: "goose".into(),
                number: 10500
            },
        ]
    );
    assert_eq!(refs[0].repo_slug(), "aaif-goose/goose");
}

#[test]
fn repeated_pr_ref_moves_to_end() {
    let text = "see github.com/a/b/pull/1 then github.com/a/b/pull/2 and back to github.com/a/b/pull/1";
    let refs = extract_github_pr_refs(text);
    assert_eq!(refs.len(), 2);
    assert_eq!(refs.last().unwrap().number, 1);
}

#[test]
fn dedupes_and_ignores_non_pr_links() {
    let text = "https://github.com/a/b/pull/1 and https://github.com/a/b/pull/1                     plus https://github.com/a/b/issues/2 and https://example.com/a/b/pull/3";
    let refs = extract_github_pr_refs(text);
    assert_eq!(refs.len(), 1);
    assert_eq!(refs[0].number, 1);
}

#[test]
fn maps_pr_states_to_status() {
    assert_eq!(
        status_from_github_pr_state("OPEN"),
        Some(SessionStatus::Pending)
    );
    assert_eq!(
        status_from_github_pr_state("MERGED"),
        Some(SessionStatus::Completed)
    );
    assert_eq!(
        status_from_github_pr_state("CLOSED"),
        Some(SessionStatus::Rejected)
    );
    assert_eq!(
        status_from_github_pr_state("open\n"),
        Some(SessionStatus::Pending)
    );
    assert_eq!(status_from_github_pr_state("DRAFT"), None);
    assert_eq!(status_from_github_pr_state(""), None);
}

#[test]
fn finds_prs_in_messages_and_tool_responses() {
    let mut conversation = Conversation::new_unvalidated(Vec::new());
    conversation.push(Message::user().with_text("working on the fix"));
    conversation.push(
        Message::assistant()
            .with_text("created https://github.com/aaif-goose/goose/pull/10616"),
    );
    conversation.push(Message::user().with_tool_response(
        "call_1",
        Ok(CallToolResult::success(vec![Content::text(
            "https://github.com/block/goose/pull/10670",
        )])),
    ));
    let refs = find_conversation_pr_refs(&conversation);
    assert_eq!(refs.len(), 2);
    assert_eq!(refs.last().unwrap().number, 10670);
}

fn pr(owner: &str, repo: &str, number: u64) -> GitHubPrRef {
    GitHubPrRef {
        owner: owner.to_string(),
        repo: repo.to_string(),
        number,
    }
}

#[test]
fn repeated_mentions_are_ordered_by_last_mention() {
    let text = "github.com/a/b/pull/1 github.com/a/b/pull/2 github.com/a/b/pull/3 github.com/a/b/pull/1 github.com/a/b/pull/2";
    assert_eq!(
        extract_github_pr_refs(text),
        vec![pr("a", "b", 3), pr("a", "b", 1), pr("a", "b", 2)]
    );
}

#[test]
fn same_number_in_other_repo_is_another_pr() {
    let text = "github.com/a/b/pull/7 github.com/a/c/pull/7 github.com/x/b/pull/7";
    assert_eq!(
        extract_github_pr_refs(text),
        vec![pr("a", "b", 7), pr("a", "c", 7), pr("x", "b", 7)]
    );
}

#[test]
fn pr_number_too_large_reads_as_zero() {
    let refs = extract_github_pr_refs("github.com/a/b/pull/99999999999999999999");
    assert_eq!(refs, vec![pr("a", "b", 0)]);
    let refs = extract_github_pr_refs("github.com/a/b/pull/18446744073709551615");
    assert_eq!(refs, vec![pr("a", "b", u64::MAX)]);
}

#[test]
fn pr_number_in_other_digits_reads_as_zero() {
    let refs = extract_github_pr_refs("github.com/a/b/pull/\u{661}\u{662}");
    assert_eq!(refs, vec![pr("a", "b", 0)]);
}

#[test]
fn owner_and_repo_keep_dots_dashes_and_underscores() {
    let refs = extract_github_pr_refs("(https://github.com/my-org_1/repo.rs/pull/0042)");
    assert_eq!(refs, vec![pr("my-org_1", "repo.rs", 42)]);
    assert_eq!(refs[0].repo_slug(), "my-org_1/repo.rs");
}

#[test]
fn text_without_links_gives_nothing() {
    assert!(extract_github_pr_refs("").is_empty());
    assert!(extract_github_pr_refs("github.com/a/b/pull/").is_empty());
    assert!(extract_github_pr_refs("github.com/a/pull/5").is_empty());
}

#[test]
fn pr_state_is_read_without_whitespace_and_case() {
    assert_eq!(status_from_github_pr_state("  merged\t"), Some(SessionStatus::Completed));
    assert_eq!(status_from_github_pr_state("Closed"), Some(SessionStatus::Rejected));
    assert_eq!(
        status_from_github_pr_state("\u{3000}oPeN\u{2003}\r\n"),
        Some(SessionStatus::Pending)
    );
    assert_eq!(status_from_github_pr_state("OPEN PR"), None);
    assert_eq!(status_from_github_pr_state("OPENED"), None);
    assert_eq!(status_from_github_pr_state("   "), None);
}

#[test]
fn conversation_refs_fold_across_texts_by_last_mention() {
    let mut conversation = Conversation::new_unvalidated(Vec::new());
    conversation.push(
        Message::user()
            .with_text("github.com/a/b/pull/1 and github.com/a/b/pull/2")
            .with_text("back to github.com/a/b/pull/1"),
    );
    conversation.push(Message::assistant().with_tool_response(
        "call_2",
        Ok(CallToolResult::success(vec![
            Content::NonText,
            Content::text("github.com/a/b/pull/3"),
            Content::text("github.com/a/b/pull/2"),
        ])),
    ));
    conversation.push(Message::user().with_tool_response(
        "call_3",
        Err(ToolError {
            message: "github.com/a/b/pull/9".to_string(),
        }),
    ));
    let refs = find_conversation_pr_refs(&conversation);
    assert_eq!(refs, vec![pr("a", "b", 1), pr("a", "b", 3), pr("a", "b", 2)]);
    let joined = extract_github_pr_refs(
        "github.com/a/b/pull/1 and github.com/a/b/pull/2 back to github.com/a/b/pull/1 github.com/a/b/pull/3 github.com/a/b/pull/2",
    );
    assert_eq!(refs, joined);
}

#[test]
fn empty_conversation_has_no_refs() {
    let conversation = Conversation::new_unvalidated(vec![Message::user()]);
    assert!(find_conversation_pr_refs(&conversation).is_empty());
}

#[test]
fn refs_from_captures_parse_numbers_and_fold() {
    let caps = vec![
        ("a".to_string(), "b".to_string(), "1".to_string()),
        ("a".to_string(), "b".to_string(), "x".to_string()),
        ("a".to_string(), "b".to_string(), "+01".to_string()),
    ];
    assert_eq!(pr_refs_from_captures(caps), vec![pr("a", "b", 0), pr("a", "b", 1)]);
    assert!(pr_refs_from_captures(Vec::new()).is_empty());
}

#[test]
fn pr_state_ignores_case_and_padding() {
    for s in ["open", "MeRgEd", "closed", "draft", ""] {
        let plain = status_from_github_pr_state(s);
        assert_eq!(status_from_github_pr_state(&s.to_ascii_lowercase()), plain);
        assert_eq!(status_from_github_pr_state(&s.to_ascii_uppercase()), plain);
        assert_eq!(status_from_github_pr_state(&format!(" \t{s}\n")), plain);
    }
}

#[test]
fn textless_content_changes_no_refs() {
    let plain = Conversation::new_unvalidated(vec![
        Message::user().with_text("github.com/a/b/pull/1"),
        Message::assistant().with_text("github.com/a/b/pull/2"),
    ]);
    let mut noisy_first = Message::user().with_tool_response(
        "call_9",
        Err(ToolError {
            message: "github.com/a/b/pull/9".to_string(),
        }),
    );
    noisy_first.content.push(goose_session::conversation::MessageContent::Other);
    let noisy_first = noisy_first.with_text("github.com/a/b/pull/1");
    let noisy = Conversation::new_unvalidated(vec![
        noisy_first,
        Message::assistant()
            .with_tool_response("call_8", Ok(CallToolResult::success(vec![Content::NonText])))
            .with_text("github.com/a/b/pull/2"),
    ]);
    assert_eq!(find_conversation_pr_refs(&noisy), find_conversation_pr_refs(&plain));
}
