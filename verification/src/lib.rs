//! Tags commit messages with the JIRA key found in the branch name.
pub mod hook;
pub mod laws;
pub mod pattern;
pub mod text;

pub use hook::{
    extract_jira_from_branch, find_old_format_tag, has_bracket_tag, process_commit_message,
    remove_trailing_tag, should_skip_title, current_branch_from, status_message, ProcessResult, SkipReason,
};
