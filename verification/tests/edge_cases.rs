use add_jira_tag::{
    current_branch_from, extract_jira_from_branch, find_old_format_tag, has_bracket_tag,
    process_commit_message, remove_trailing_tag, should_skip_title, status_message,
    ProcessResult, SkipReason,
};

fn run_twice(content: &str, branch: &str) -> (String, String, ProcessResult) {
    let (first, _) = process_commit_message(content, branch);
    let (second, status) = process_commit_message(&first, branch);
    (first, second, status)
}

#[test]
fn idempotent_on_fresh_message() {
    let (first, second, status) = run_twice("Add feature\n\nBody.\n", "fb-ABC-7");
    assert_eq!(first, "[ABC-7] Add feature\n\nBody.\n");
    assert_eq!(second, first);
    assert_eq!(status, ProcessResult::AlreadyTagged);
}

#[test]
fn idempotent_on_converted_message() {
    let (first, second, status) = run_twice("Fix it\n\nABC-9\n", "fb-XYZ-1-x");
    assert_eq!(first, "[ABC-9] Fix it\n");
    assert_eq!(second, first);
    assert_eq!(status, ProcessResult::AlreadyTagged);
}

#[test]
fn idempotent_when_only_a_tag_line() {
    let (first, second, status) = run_twice("ABC-1\n", "fb-XYZ-1");
    assert_eq!(first, "[ABC-1] ");
    assert_eq!(second, first);
    assert_eq!(status, ProcessResult::AlreadyTagged);
}

#[test]
fn not_idempotent_when_two_old_tags_remain() {
    // The first run converts the last tag; the one above it is found next time.
    let (first, second, status) = run_twice("Title\nABC-1\nABC-2\n", "fb-XYZ-1");
    assert_eq!(first, "[ABC-2] Title\nABC-1\n");
    assert_eq!(second, "[ABC-2] Title\n");
    assert_eq!(status, ProcessResult::Converted("ABC-1".to_string()));
}

#[test]
fn old_tag_wins_over_branch() {
    let a = process_commit_message("Work\n\nOLD-5\n", "fb-NEW-1");
    let b = process_commit_message("Work\n\nOLD-5\n", "fb-OTHER-22-topic");
    assert_eq!(a, b);
    assert_eq!(a.1, ProcessResult::Converted("OLD-5".to_string()));
}

#[test]
fn skip_messages() {
    assert_eq!(
        process_commit_message("Add\n", "main").1,
        ProcessResult::Skipped("Branch is not in format 'fb-{JIRA_TAG}'.".to_string())
    );
    assert_eq!(
        process_commit_message("", "fb-A-1"),
        (String::new(), ProcessResult::Skipped("Empty commit message.".to_string()))
    );
    assert_eq!(
        process_commit_message("fixup! x\n", "fb-A-1").1,
        ProcessResult::Skipped("Skipping fixup/squash/amend/merge commit...".to_string())
    );
    assert_eq!(
        process_commit_message("squash! x\n", "fb-A-1").1,
        ProcessResult::Skipped("Skipping squash/squash/amend/merge commit...".to_string())
    );
    assert_eq!(
        process_commit_message("amend! x\n", "fb-A-1").1,
        ProcessResult::Skipped("Skipping amend/squash/amend/merge commit...".to_string())
    );
    assert_eq!(
        process_commit_message("Merge x\n", "fb-A-1").1,
        ProcessResult::Skipped("Skipping merge/squash/amend/merge commit...".to_string())
    );
}

#[test]
fn skip_reason_needs_exact_prefix() {
    assert_eq!(should_skip_title("fixup"), None);
    assert_eq!(should_skip_title("Merge"), None);
    assert_eq!(should_skip_title("merge branch"), None);
    assert_eq!(should_skip_title(" fixup! x"), None);
    assert_eq!(should_skip_title("Merge "), Some(SkipReason::Merge));
    assert_eq!(should_skip_title(""), None);
}

#[test]
fn branch_grammar() {
    assert_eq!(extract_jira_from_branch("fb-ABC-12-"), Some("ABC-12".to_string()));
    assert_eq!(extract_jira_from_branch("fb-ABC-12-x-y-z"), Some("ABC-12".to_string()));
    assert_eq!(extract_jira_from_branch("fb-ABC-12-x\ny"), None);
    assert_eq!(extract_jira_from_branch("fb-ABC-12\n"), None);
    assert_eq!(extract_jira_from_branch("fb-abc-12"), None);
    assert_eq!(extract_jira_from_branch("fb-ABC12"), None);
    assert_eq!(extract_jira_from_branch("fb-ABC-12x"), None);
    assert_eq!(extract_jira_from_branch("fb-ABC-"), None);
    assert_eq!(extract_jira_from_branch("xfb-ABC-1"), None);
    assert_eq!(extract_jira_from_branch("fb--1"), None);
}

#[test]
fn bracket_grammar() {
    assert!(has_bracket_tag("[ABC-1]"));
    assert!(has_bracket_tag("[ABC-1]x"));
    assert!(!has_bracket_tag("[ABC-]"));
    assert!(!has_bracket_tag("[abc-1]"));
    assert!(!has_bracket_tag(" [ABC-1]"));
    assert!(!has_bracket_tag("[ABC-1"));
    assert!(!has_bracket_tag(""));
}

#[test]
fn old_format_tag_is_trimmed() {
    assert_eq!(find_old_format_tag("T\n\n  ABC-1  \n"), Some("ABC-1".to_string()));
    assert_eq!(find_old_format_tag("T\r\n\r\nABC-1\r\n"), Some("ABC-1".to_string()));
    assert_eq!(
        find_old_format_tag("T\n\u{3000}ABC-1\u{a0}\n\t\n"),
        Some("ABC-1".to_string())
    );
    assert_eq!(find_old_format_tag(""), None);
    assert_eq!(find_old_format_tag("\n \n"), None);
    assert_eq!(find_old_format_tag("ABC-1 ABC-2"), None);
}

#[test]
fn removal_keeps_other_lines() {
    // No trailing tag and no trailing blank line: nothing goes.
    assert_eq!(remove_trailing_tag("A\n\nB\n", "X-1"), "A\n\nB\n");
    assert_eq!(remove_trailing_tag("A\nPROJ-1\nB\n", "PROJ-1"), "A\nPROJ-1\nB\n");
    // Without a trailing tag only the trailing blank lines go.
    assert_eq!(remove_trailing_tag("A\n\nB\n \n\n", "X-1"), "A\n\nB\n");
    // Without a final newline none is added.
    assert_eq!(remove_trailing_tag("A\n\nX-1", "X-1"), "A");
    // A tag line that is not the last non-blank line stays.
    assert_eq!(remove_trailing_tag("A\nX-1\nB\n\n", "X-1"), "A\nX-1\nB\n");
    // Only the trailing tag line goes.
    assert_eq!(remove_trailing_tag("X-1\nA\nX-1\n", "X-1"), "X-1\nA\n");
    // The tag line is found through its surrounding whitespace.
    assert_eq!(remove_trailing_tag("A\n\n  X-1 \t\n\n", "X-1"), "A\n");
    // Carriage returns of line endings are not kept.
    assert_eq!(remove_trailing_tag("T\r\n\r\nX-1\r\n", "X-1"), "T\n");
    // Nothing left: no newline either.
    assert_eq!(remove_trailing_tag("X-1\n\n", "X-1"), "");
    assert_eq!(remove_trailing_tag("", "X-1"), "");
    assert_eq!(remove_trailing_tag(" \n\t\n", "X-1"), "");
}

#[test]
fn removal_keeps_leading_lines() {
    for (content, tag) in [
        ("A\n\nB\n\nX-1\n", "X-1"),
        ("A\n \nB\n", "X-1"),
        ("A\nX-1\nB", "X-1"),
    ] {
        let out = remove_trailing_tag(content, tag);
        let before: Vec<&str> = content.lines().collect();
        let after: Vec<&str> = out.lines().collect();
        assert!(after.len() <= before.len());
        assert_eq!(&before[..after.len()], &after[..]);
        let nb_before: Vec<&str> = before.iter().copied().filter(|l| !l.trim().is_empty()).collect();
        let nb_after: Vec<&str> = after.iter().copied().filter(|l| !l.trim().is_empty()).collect();
        assert!(
            nb_after == nb_before
                || (nb_before.last().map(|l| l.trim()) == Some(tag)
                    && nb_after[..] == nb_before[..nb_before.len() - 1])
        );
    }
}

#[test]
fn old_format_tag_ignores_trailing_whitespace() {
    for base in ["Add\n\nABC-1", "Add\n\nABC-1\n", "Add\n", "", "ABC-1 x"] {
        let expected = find_old_format_tag(base);
        for extra in ["", " ", "\t", "\n", "\n\n \t\n", " \r\n"] {
            let content = format!("{}{}", base, extra);
            assert_eq!(find_old_format_tag(&content), expected, "{:?}", content);
        }
    }
}

#[test]
fn removal_leaves_no_trailing_blank_line() {
    for (content, tag) in [
        ("A\n  \nX-1\n \n", "X-1"),
        ("A\n\t\n", "X-1"),
        ("A\r\n\r\n", "X-1"),
        ("\n\n\n", "X-1"),
    ] {
        let out = remove_trailing_tag(content, tag);
        if let Some(last) = out.lines().last() {
            assert!(!last.trim().is_empty(), "{:?} -> {:?}", content, out);
        }
    }
}

#[test]
fn result_title_is_tagged() {
    for (content, branch) in [
        ("Add\n", "fb-A-1"),
        ("Add\n\nB-2\n", "fb-A-1"),
        ("[C-3] Add\n", "fb-A-1"),
        ("B-2\n", "fb-A-1"),
        ("\n\nBody\n", "fb-A-1"),
    ] {
        let (out, status) = process_commit_message(content, branch);
        assert!(!matches!(status, ProcessResult::Skipped(_)));
        let title = out.lines().next().unwrap_or("");
        assert!(has_bracket_tag(title), "{:?} -> {:?}", content, out);
    }
}

#[test]
fn current_branch_choice() {
    assert_eq!(current_branch_from(Some(""), Some("fb-A-1\n")), None);
    assert_eq!(
        current_branch_from(Some("fb-A-1"), Some("other\n")),
        Some("fb-A-1".to_string())
    );
    assert_eq!(current_branch_from(None, Some("  fb-A-1\n")), Some("fb-A-1".to_string()));
    assert_eq!(current_branch_from(None, Some("\n")), None);
    assert_eq!(current_branch_from(None, None), None);
}

#[test]
fn status_lines() {
    assert_eq!(
        status_message(&ProcessResult::Added("A-1".to_string())),
        "Adding tag '[A-1]' to commit message title"
    );
    assert_eq!(
        status_message(&ProcessResult::Converted("A-1".to_string())),
        "Converting old format tag 'A-1' to new format..."
    );
    assert_eq!(
        status_message(&ProcessResult::AlreadyTagged),
        "JIRA tag already in title. Skipping..."
    );
    assert_eq!(status_message(&ProcessResult::Skipped("why".to_string())), "why");
}
