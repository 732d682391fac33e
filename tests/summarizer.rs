use issue_summarizer::{
    batch_plan, custom_json_parser, fit_token_budget, issue_message, issue_narrative,
    issue_query, limit_notice, parse_trigger, render_summary, repo_error_message,
    squeeze_fit_post_texts, squeeze_fit_remove_quoted, system_prompt, user_prompt,
    uses_large_model, IssueComment, IssuePost, IssueSummary,
};

fn strings(v: &[&str]) -> Vec<String> {
    v.iter().map(|s| s.to_string()).collect()
}

#[test]
fn empty_post_gives_empty_text() {
    assert_eq!(squeeze_fit_remove_quoted("", 10, 60), "");
}

#[test]
fn backtick_fence_is_dropped() {
    let post = "intro\n```\nlet x = 1;\n```\noutro";
    assert_eq!(squeeze_fit_remove_quoted(post, 100, 60), "intro\noutro\n");
}

#[test]
fn triple_quote_fence_is_dropped() {
    let post = "a\n\"\"\"\nquoted words\n\"\"\"\nb";
    assert_eq!(squeeze_fit_remove_quoted(post, 100, 60), "a\nb\n");
}

#[test]
fn long_words_are_dropped() {
    let long = "x".repeat(150);
    let almost = "y".repeat(149);
    let post = format!("short {} end {}", long, almost);
    assert_eq!(squeeze_fit_remove_quoted(&post, 100, 60), format!("short end {}\n", almost));
}

#[test]
fn unclosed_fence_drops_the_rest() {
    let post = "keep\n```\nlost\nalso lost";
    assert_eq!(squeeze_fit_remove_quoted(post, 100, 60), "keep\n");
}

#[test]
fn under_budget_keeps_lines_and_normalizes_spaces() {
    let post = "  a   b  \n\n c\r\nd";
    assert_eq!(squeeze_fit_remove_quoted(post, 10, 60), "a b\n\nc\nd\n");
}

#[test]
fn over_budget_joins_head_and_tail_words() {
    let post = "a b\nc d e";
    assert_eq!(squeeze_fit_remove_quoted(post, 2, 60), "a e");
    assert_eq!(squeeze_fit_remove_quoted(post, 4, 60), "a b d e");
    assert_eq!(squeeze_fit_remove_quoted(post, 4, 0), "b c d e");
    assert_eq!(squeeze_fit_remove_quoted(post, 4, 100), "a b c d");
}

#[test]
fn at_budget_is_unchanged() {
    let post = "a b\nc";
    assert_eq!(squeeze_fit_remove_quoted(post, 3, 60), "a b\nc\n");
}

#[test]
fn scenario_long_post_keeps_head_and_tail() {
    let words: Vec<String> = (0..20000).map(|i| format!("w{}", i)).collect();
    let body = words.join(" ");
    let out = squeeze_fit_remove_quoted(&body, 500, 60);
    let out_words: Vec<&str> = out.split_whitespace().collect();
    let expected: Vec<String> = (0..300).chain(19800..20000).map(|i| format!("w{}", i)).collect();
    assert_eq!(out_words, expected);
    assert_eq!(out_words.len(), 500);
}

#[test]
fn token_budget_not_reached_gives_none() {
    let t: Vec<u32> = (1..=5).collect();
    assert_eq!(fit_token_budget(&t, 8, 40), None);
}

#[test]
fn token_budget_head_only_when_head_fills_it() {
    let t: Vec<u32> = (1..=10).collect();
    assert_eq!(fit_token_budget(&t, 4, 40), Some(vec![1, 2, 3, 4]));
}

#[test]
fn token_budget_head_and_tail() {
    let t: Vec<u32> = (1..=10).collect();
    assert_eq!(fit_token_budget(&t, 8, 40), Some(vec![1, 2, 3, 4, 7, 8, 9, 10]));
}

#[test]
fn token_budget_rounds_head_up() {
    let t: Vec<u32> = (1..=11).collect();
    assert_eq!(fit_token_budget(&t, 8, 40), Some(vec![1, 2, 3, 4, 5, 9, 10, 11]));
}

#[test]
fn token_budget_exactly_reached_keeps_all() {
    let t: Vec<u32> = (1..=10).collect();
    assert_eq!(fit_token_budget(&t, 10, 40), Some(t.clone()));
}

#[test]
fn short_narrative_is_unchanged() {
    assert_eq!(squeeze_fit_post_texts("hello world", 100, 40), "hello world");
}

#[test]
fn long_narrative_fits_token_budget() {
    let text = "The quick brown fox jumps over the lazy dog. ".repeat(100);
    let out = squeeze_fit_post_texts(&text, 50, 40);
    assert_ne!(out, text);
    // 40% of the tokens is more than the budget: the head takes all of it
    assert!(text.starts_with(&out));
    let bpe = tiktoken_rs::cl100k_base().unwrap();
    assert!(bpe.encode_ordinary(&out).len() <= 50);
}

#[test]
fn long_whitespace_run_is_not_encoded() {
    let text = format!("a{}b", " ".repeat(100001));
    assert_eq!(squeeze_fit_post_texts(&text, 100, 40), "failed to decode tokens");
}

#[test]
fn whitespace_run_at_limit_is_encoded() {
    let text = format!("a{}b", " ".repeat(100000));
    assert_eq!(squeeze_fit_post_texts(&text, 65535, 40), text);
}

#[test]
fn scenario_short_list_and_stray_line() {
    let reply = "\"PrincipalArguments\": [\"a\", \"b\"]\nSuggestedSolutions: cannot parse this";
    let s = custom_json_parser(reply);
    // the value ` ["a", "b"]` has 11 characters, under the noise threshold
    assert_eq!(s.principal_arguments, None);
    assert_eq!(s.suggested_solutions, None);
}

#[test]
fn list_value_and_stray_line() {
    let reply = "\"PrincipalArguments\": [\"alpha\", \"beta\"]\nSuggestedSolutions: cannot parse this";
    let s = custom_json_parser(reply);
    assert_eq!(s.principal_arguments, Some(strings(&["alpha", "beta"])));
    assert_eq!(s.suggested_solutions, None);
}

#[test]
fn five_field_reply_round_trip() {
    let reply = "{\n  \"PrincipalArguments\": [\"The API is slow\"]\n  \"SuggestedSolutions\": [\"Add a cache layer\", \"Batch calls\"]\n  \"AreasOfConsensus\": [\"Caching helps a lot\"]\n  \"AreasOfDisagreement\": [\"Where to put the cache\"]\n  \"ConciseSummary\": \"Slow API, cache proposed\"\n}";
    let s = custom_json_parser(reply);
    assert_eq!(s.principal_arguments, Some(strings(&["The API is slow"])));
    assert_eq!(s.suggested_solutions, Some(strings(&["Add a cache layer", "Batch calls"])));
    assert_eq!(s.areas_of_consensus, Some(strings(&["Caching helps a lot"])));
    assert_eq!(s.areas_of_disagreement, Some(strings(&["Where to put the cache"])));
    assert_eq!(s.concise_summary, Some("Slow API, cache proposed".to_string()));
}

#[test]
fn trailing_comma_value_is_not_json() {
    let reply = "  \"PrincipalArguments\": [\"The API is slow\"],";
    assert_eq!(custom_json_parser(reply).principal_arguments, None);
}

#[test]
fn short_values_are_ignored() {
    let reply = "\"ConciseSummary\": \"\"\n\"AreasOfConsensus\": \"short\"";
    let s = custom_json_parser(reply);
    assert_eq!(s.concise_summary, None);
    assert_eq!(s.areas_of_consensus, None);
}

#[test]
fn empty_and_garbage_replies_give_empty_summary() {
    for reply in ["", "\u{0}\u{1}{{{::\"", "not json at all\n\"", "\":::::::::::::::::::"] {
        let s = custom_json_parser(reply);
        assert_eq!(s.principal_arguments, None);
        assert_eq!(s.suggested_solutions, None);
        assert_eq!(s.areas_of_consensus, None);
        assert_eq!(s.areas_of_disagreement, None);
        assert_eq!(s.concise_summary, None);
    }
}

#[test]
fn later_line_overrides_earlier() {
    let reply = "\"ConciseSummary\": \"the first summary\"\n\"ConciseSummary\": \"the second summary\"";
    assert_eq!(custom_json_parser(reply).concise_summary, Some("the second summary".to_string()));
}

#[test]
fn invalid_later_line_does_not_override() {
    let reply = "\"ConciseSummary\": \"the first summary\"\n\"ConciseSummary\": not json at all here";
    assert_eq!(custom_json_parser(reply).concise_summary, Some("the first summary".to_string()));
}

#[test]
fn later_value_of_wrong_type_clears_field() {
    let reply = "\"ConciseSummary\": \"the first summary\"\n\"ConciseSummary\": [\"a list here now\"]";
    assert_eq!(custom_json_parser(reply).concise_summary, None);
}

#[test]
fn colons_inside_value_are_kept() {
    let reply = "\"ConciseSummary\": \"Time: 10:30 is the deadline\"";
    assert_eq!(
        custom_json_parser(reply).concise_summary,
        Some("Time: 10:30 is the deadline".to_string())
    );
}

fn empty_summary() -> IssueSummary {
    IssueSummary {
        principal_arguments: None,
        suggested_solutions: None,
        areas_of_consensus: None,
        areas_of_disagreement: None,
        concise_summary: None,
    }
}

#[test]
fn empty_summary_renders_nothing() {
    assert_eq!(render_summary(&empty_summary()), None);
}

#[test]
fn summary_renders_present_fields_in_order() {
    let mut s = empty_summary();
    s.principal_arguments = Some(strings(&["a", "b"]));
    s.areas_of_disagreement = Some(strings(&["x"]));
    s.concise_summary = Some("done".to_string());
    assert_eq!(
        render_summary(&s),
        Some("Key arguments: \"a b\"\n   Disagreement: \"x\"\n Summary: done".to_string())
    );
}

#[test]
fn summary_lists_are_quoted_and_escaped() {
    let mut s = empty_summary();
    s.suggested_solutions = Some(strings(&["say \"hi\""]));
    assert_eq!(
        render_summary(&s),
        Some(" Solutions: \"say \\\"hi\\\"\"\n   ".to_string())
    );
}

#[test]
fn scenario_trigger_with_repo_and_days() {
    let t = parse_trigger("flows summarize org/repo 14", "flows summarize").unwrap();
    assert_eq!(t.owner, "org");
    assert_eq!(t.repo, "repo");
    assert_eq!(t.n_days, 14);
}

#[test]
fn scenario_trigger_without_repo_uses_defaults() {
    let t = parse_trigger("flows summarize 14", "flows summarize").unwrap();
    assert_eq!(t.owner, "WasmEdge");
    assert_eq!(t.repo, "Wasmdge");
    assert_eq!(t.n_days, 14);
}

#[test]
fn trigger_with_owner_only() {
    let t = parse_trigger("flows summarize org 3", "flows summarize").unwrap();
    assert_eq!(t.owner, "org");
    assert_eq!(t.repo, "Wasmdge");
    assert_eq!(t.n_days, 3);
}

#[test]
fn trigger_with_extra_spaces() {
    let t = parse_trigger("  flows summarize   org/repo   5", "flows summarize").unwrap();
    assert_eq!(t.owner, "org");
    assert_eq!(t.repo, "repo");
    assert_eq!(t.n_days, 5);
}

#[test]
fn trigger_number_too_large_uses_default_days() {
    let t = parse_trigger("flows summarize org/repo 99999999999999999999", "flows summarize")
        .unwrap();
    assert_eq!(t.n_days, 7);
}

#[test]
fn messages_that_are_not_commands_are_ignored() {
    assert!(parse_trigger("hello there org/repo 14", "flows summarize").is_none());
    assert!(parse_trigger("flows summarize org/repo", "flows summarize").is_none());
    assert!(parse_trigger("flows summarize org/repo 14x", "flows summarize").is_none());
    assert!(parse_trigger("flows summarize\norg/repo 14", "flows summarize").is_none());
    assert!(parse_trigger("", "flows summarize").is_none());
}

#[test]
fn scenario_batch_of_eleven() {
    assert_eq!(batch_plan(11), (10, true));
}

#[test]
fn batch_limits() {
    assert_eq!(batch_plan(0), (0, false));
    assert_eq!(batch_plan(9), (9, false));
    assert_eq!(batch_plan(10), (10, false));
}

#[test]
fn messages_for_an_issue() {
    assert_eq!(issue_message(Some("S".to_string()), "u"), "S\nu");
    assert_eq!(
        issue_message(None, "u"),
        "Summarization failed, no summary generated for issue: u"
    );
    assert_eq!(
        limit_notice(),
        "You've reached your limit of 10 issues. Please wait 10 minutes before running the command again."
    );
    assert_eq!(
        repo_error_message("cmd"),
        "Please double check if there are errors in the owner and repo names provided in your message:\ncmd\nif yes, please correct the spelling and resend your instruction."
    );
}

#[test]
fn query_for_recent_issues() {
    assert_eq!(
        issue_query("org", "repo", "2024-01-01T00:00:00Z"),
        "repo:org/repo is:issue state:open updated:>2024-01-01T00:00:00Z"
    );
}

#[test]
fn model_tier_by_length() {
    assert!(!uses_large_model(&"é".repeat(12000)));
    assert!(uses_large_model(&"é".repeat(12001)));
}

#[test]
fn prompts_name_the_issue() {
    let p = system_prompt("alice", "Bug X");
    assert!(p.starts_with("Given the information that user 'alice' opened an issue titled 'Bug X', your task"));
    let u = user_prompt("TEXT");
    assert!(u.starts_with("Analyze the GitHub issue content: TEXT. Concentrate"));
    assert!(u.ends_with("\"ConciseSummary\": \"\"\n}\n```"));
}

#[test]
fn narrative_of_issue_and_comments() {
    let post = IssuePost {
        creator: "alice".to_string(),
        title: "Bug X".to_string(),
        labels: strings(&["bug", "ui"]),
        body: Some("It crashes\n```\ntrace\n```\non start".to_string()),
    };
    let comments = vec![
        IssueComment { commenter: "bob".to_string(), body: Some("Me   too".to_string()) },
        IssueComment { commenter: "carol".to_string(), body: None },
    ];
    assert_eq!(
        issue_narrative(&post, &comments),
        "User 'alice', opened an issue titled 'Bug X', labeled 'bug, ui', with the following post: 'It crashes\non start\n'.bob commented: Me too\ncarol commented: "
    );
}
