//! The commit message hook: where the JIRA tag comes from, which titles are
//! left alone, how an old trailing tag is converted, and how a message is
//! tagged.
use vstd::prelude::*;

use crate::pattern::{
    compile, is_jira_key, matcher_capture, matcher_is_match, opt_text, spec_branch_key,
    starts_with_bracket_key, BRACKET_TAG_PATTERN, BRANCH_PATTERN, JIRA_KEY_PATTERN,
};
use crate::text::{
    blank_range, chars_of, equal_range, is_blank, join_lines, join_spans, line_spans, lines,
    spans_within, starts_with_chars, string_of, texts, trim, trim_range,
};

verus! {

/// Why a commit title is left as it is.
#[derive(Debug, PartialEq, Eq, Structural, Clone, Copy)]
pub enum SkipReason {
    Fixup,
    Squash,
    Amend,
    Merge,
}

/// What processing did to a commit message.
#[derive(Debug, PartialEq)]
pub enum ProcessResult {
    /// The branch's tag was put in front of the title.
    Added(String),
    /// A trailing tag line was moved to the title; the tag is carried.
    Converted(String),
    /// The title already starts with a bracketed tag.
    AlreadyTagged,
    /// The message was left alone, for the reason given.
    Skipped(String),
}

/// [`ProcessResult`] with its texts as character sequences.
pub ghost enum ProcessResultView {
    Added(Seq<char>),
    Converted(Seq<char>),
    AlreadyTagged,
    Skipped(Seq<char>),
}

impl View for ProcessResult {
    type V = ProcessResultView;

    open spec fn view(&self) -> ProcessResultView {
        match self {
            ProcessResult::Added(t) => ProcessResultView::Added(t@),
            ProcessResult::Converted(t) => ProcessResultView::Converted(t@),
            ProcessResult::AlreadyTagged => ProcessResultView::AlreadyTagged,
            ProcessResult::Skipped(m) => ProcessResultView::Skipped(m@),
        }
    }
}

// ---------------------------------------------------------------------------
// Specifications
// ---------------------------------------------------------------------------

/// The special commit a title announces, by its first characters.
pub open spec fn skip_reason(title: Seq<char>) -> Option<SkipReason> {
    if "fixup!"@.is_prefix_of(title) {
        Some(SkipReason::Fixup)
    } else if "squash!"@.is_prefix_of(title) {
        Some(SkipReason::Squash)
    } else if "amend!"@.is_prefix_of(title) {
        Some(SkipReason::Amend)
    } else if "Merge "@.is_prefix_of(title) {
        Some(SkipReason::Merge)
    } else {
        None
    }
}

/// The message for a branch that names no JIRA key.
pub open spec fn branch_skip_message() -> Seq<char> {
    "Branch is not in format 'fb-{JIRA_TAG}'."@
}

/// The message for a commit message without lines.
pub open spec fn empty_skip_message() -> Seq<char> {
    "Empty commit message."@
}

/// The word for a skip reason.
pub open spec fn reason_word(reason: SkipReason) -> Seq<char> {
    match reason {
        SkipReason::Fixup => "fixup"@,
        SkipReason::Squash => "squash"@,
        SkipReason::Amend => "amend"@,
        SkipReason::Merge => "merge"@,
    }
}

/// The message for a special commit.
pub open spec fn skip_message(reason: SkipReason) -> Seq<char> {
    "Skipping "@ + reason_word(reason) + "/squash/amend/merge commit..."@
}

/// `content` with `"[tag] "` in front.
pub open spec fn tagged(tag: Seq<char>, content: Seq<char>) -> Seq<char> {
    seq!['['] + tag + seq![']', ' '] + content
}

/// The first line of `s`, or nothing when it has no lines.
pub open spec fn title_of(s: Seq<char>) -> Seq<char> {
    if lines(s).len() > 0 {
        lines(s)[0]
    } else {
        Seq::<char>::empty()
    }
}

/// `k` is the index of the last line of `ls` that is not blank.
pub open spec fn is_last_non_blank(ls: Seq<Seq<char>>, k: int) -> bool {
    &&& 0 <= k < ls.len()
    &&& !is_blank(ls[k])
    &&& forall|j: int| k < j < ls.len() ==> is_blank(#[trigger] ls[j])
}

/// The index of the last line of `ls` that is not blank, if there is one.
pub open spec fn last_non_blank(ls: Seq<Seq<char>>) -> Option<int> {
    if exists|k: int| is_last_non_blank(ls, k) {
        Some(choose|k: int| is_last_non_blank(ls, k))
    } else {
        None
    }
}

/// The old-format tag of `content`: its last line that is not blank, trimmed,
/// when that is a JIRA key.
pub open spec fn spec_old_format_tag(content: Seq<char>) -> Option<Seq<char>> {
    match last_non_blank(lines(content)) {
        Some(k) => if is_jira_key(trim(lines(content)[k])) {
            Some(trim(lines(content)[k]))
        } else {
            None
        },
        None => None,
    }
}

/// The lines of `ls` that are not blank, in order.
pub open spec fn non_blank_lines(ls: Seq<Seq<char>>) -> Seq<Seq<char>>
    decreases ls.len(),
{
    if ls.len() == 0 {
        ls
    } else if is_blank(ls.last()) {
        non_blank_lines(ls.drop_last())
    } else {
        non_blank_lines(ls.drop_last()).push(ls.last())
    }
}

/// `ls` without its trailing tag: when the last line that is not blank trims
/// to `tag`, that line and the blank lines after it go.
pub open spec fn without_trailing_tag(ls: Seq<Seq<char>>, tag: Seq<char>) -> Seq<Seq<char>> {
    match last_non_blank(ls) {
        Some(k) => if trim(ls[k]) == tag {
            ls.take(k)
        } else {
            ls
        },
        None => ls,
    }
}

/// `ls` without the blank lines at its end.
pub open spec fn drop_trailing_blank(ls: Seq<Seq<char>>) -> Seq<Seq<char>>
    decreases ls.len(),
{
    if ls.len() > 0 && is_blank(ls.last()) {
        drop_trailing_blank(ls.drop_last())
    } else {
        ls
    }
}

/// `content` without its trailing tag line and its trailing blank lines, the
/// kept lines joined by `'\n'`; a final `'\n'` of `content` is kept when
/// anything is left.
pub open spec fn spec_remove_trailing_tag(content: Seq<char>, tag: Seq<char>) -> Seq<char> {
    let body = join_lines(drop_trailing_blank(without_trailing_tag(lines(content), tag)));
    if body.len() > 0 && content.len() > 0 && content.last() == '\n' {
        body.push('\n')
    } else {
        body
    }
}

/// The message and the result that processing `content` on `branch` gives.
pub open spec fn spec_process(content: Seq<char>, branch: Seq<char>) -> (
    Seq<char>,
    ProcessResultView,
) {
    match spec_branch_key(branch) {
        None => (content, ProcessResultView::Skipped(branch_skip_message())),
        Some(branch_tag) => {
            let ls = lines(content);
            if ls.len() == 0 {
                (content, ProcessResultView::Skipped(empty_skip_message()))
            } else {
                match skip_reason(ls[0]) {
                    Some(reason) => (content, ProcessResultView::Skipped(skip_message(reason))),
                    None => match spec_old_format_tag(content) {
                        Some(old) => {
                            let cleaned = spec_remove_trailing_tag(content, old);
                            if starts_with_bracket_key(title_of(cleaned)) {
                                (cleaned, ProcessResultView::Converted(old))
                            } else {
                                (tagged(old, cleaned), ProcessResultView::Converted(old))
                            }
                        },
                        None => if starts_with_bracket_key(ls[0]) {
                            (content, ProcessResultView::AlreadyTagged)
                        } else {
                            (tagged(branch_tag, content), ProcessResultView::Added(branch_tag))
                        },
                    },
                }
            }
        },
    }
}

/// The line the hook prints for a result.
pub open spec fn status_text(result: ProcessResultView) -> Seq<char> {
    match result {
        ProcessResultView::Added(tag) => "Adding tag '["@ + tag + "]' to commit message title"@,
        ProcessResultView::Converted(tag) => "Converting old format tag '"@ + tag
            + "' to new format..."@,
        ProcessResultView::AlreadyTagged => "JIRA tag already in title. Skipping..."@,
        ProcessResultView::Skipped(reason) => reason,
    }
}

/// The branch that is current: a non-empty override as it is; without an
/// override, the trimmed output of git when it is not empty.
pub open spec fn spec_current_branch(
    override_branch: Option<Seq<char>>,
    git_output: Option<Seq<char>>,
) -> Option<Seq<char>> {
    match override_branch {
        Some(b) => if b.len() == 0 {
            None
        } else {
            Some(b)
        },
        None => match git_output {
            Some(o) => if trim(o).len() == 0 {
                None
            } else {
                Some(trim(o))
            },
            None => None,
        },
    }
}

/// The text of an optional `&str`.
pub open spec fn opt_str(o: Option<&str>) -> Option<Seq<char>> {
    match o {
        Some(s) => Some(s@),
        None => None,
    }
}

// ---------------------------------------------------------------------------
// Lemmas on the specifications
// ---------------------------------------------------------------------------

/// At most one index is the last non-blank line.
pub(crate) proof fn lemma_last_non_blank_is(ls: Seq<Seq<char>>, k: int)
    requires
        is_last_non_blank(ls, k),
    ensures
        last_non_blank(ls) == Some(k),
{
    let c = choose|c: int| is_last_non_blank(ls, c);
    if c < k {
        assert(is_blank(ls[k]));
    } else if k < c {
        assert(is_blank(ls[c]));
    }
}

// ---------------------------------------------------------------------------
// Executable functions
// ---------------------------------------------------------------------------

/// Extracts the JIRA key from a branch named `fb-{KEY}` or `fb-{KEY}-{suffix}`.
pub fn extract_jira_from_branch(branch: &str) -> (r: Option<String>)
    ensures
        opt_text(r) == spec_branch_key(branch@),
{
    match compile(BRANCH_PATTERN) {
        Ok(re) => matcher_capture(&re, branch, 1),
        Err(_) => None,
    }
}

/// Whether the commit title announces a commit that must not be modified.
pub fn should_skip_title(title: &str) -> (r: Option<SkipReason>)
    ensures
        r == skip_reason(title@),
{
    let t = chars_of(title);
    if starts_with_chars(&t, &chars_of("fixup!")) {
        Some(SkipReason::Fixup)
    } else if starts_with_chars(&t, &chars_of("squash!")) {
        Some(SkipReason::Squash)
    } else if starts_with_chars(&t, &chars_of("amend!")) {
        Some(SkipReason::Amend)
    } else if starts_with_chars(&t, &chars_of("Merge ")) {
        Some(SkipReason::Merge)
    } else {
        None
    }
}

/// Whether the title already starts with a JIRA tag in brackets.
pub fn has_bracket_tag(title: &str) -> (r: bool)
    ensures
        r == starts_with_bracket_key(title@),
{
    match compile(BRACKET_TAG_PATTERN) {
        Ok(re) => matcher_is_match(&re, title),
        Err(_) => false,
    }
}

/// The index of the last line that is not blank among the lines that `spans`
/// cut out of `v`.
fn last_non_blank_line(v: &Vec<char>, spans: &Vec<(usize, usize)>) -> (r: Option<usize>)
    requires
        spans_within(v@, spans@),
    ensures
        r matches Some(k) ==> k < spans.len() && last_non_blank(texts(v@, spans@)) == Some(
            k as int,
        ),
        r is None ==> last_non_blank(texts(v@, spans@)) is None,
{
    let ghost ls = texts(v@, spans@);
    let mut i = spans.len();
    while i > 0
        invariant
            i <= spans.len(),
            spans_within(v@, spans@),
            ls == texts(v@, spans@),
            forall|j: int| i <= j < ls.len() ==> is_blank(#[trigger] ls[j]),
        decreases i,
    {
        i -= 1;
        let (lo, hi) = spans[i];
        assert(v@.subrange(lo as int, hi as int) == ls[i as int]);
        if !blank_range(v, lo, hi) {
            proof {
                lemma_last_non_blank_is(ls, i as int);
            }
            return Some(i);
        }
    }
    proof {
        if exists|k: int| is_last_non_blank(ls, k) {
            let k = choose|k: int| is_last_non_blank(ls, k);
            assert(is_blank(ls[k]));
        }
    }
    None
}

/// The old-format tag: a JIRA key that stands alone as the last line of the
/// message that is not blank.
pub fn find_old_format_tag(content: &str) -> (r: Option<String>)
    ensures
        opt_text(r) == spec_old_format_tag(content@),
        r matches Some(t) ==> is_jira_key(t@),
{
    let re = match compile(JIRA_KEY_PATTERN) {
        Ok(re) => re,
        Err(_) => {
            return None;
        },
    };
    let v = chars_of(content);
    let spans = line_spans(&v);
    match last_non_blank_line(&v, &spans) {
        Some(k) => {
            let (lo, hi) = spans[k];
            assert(v@.subrange(lo as int, hi as int) == lines(content@)[k as int]);
            let (a, b) = trim_range(&v, lo, hi);
            let line = string_of(&v, a, b);
            if matcher_is_match(&re, line.as_str()) {
                Some(line)
            } else {
                None
            }
        },
        None => None,
    }
}

/// Removes the trailing tag and any trailing blank lines: when the last line
/// that is not blank trims to `tag`, that line goes with the blank lines after
/// it; then the blank lines left at the end go.
pub fn remove_trailing_tag(content: &str, tag: &str) -> (r: String)
    ensures
        r@ == spec_remove_trailing_tag(content@, tag@),
{
    let v = chars_of(content);
    let t = chars_of(tag);
    let spans = line_spans(&v);
    let ghost ls = lines(content@);
    let mut keep = spans.len();
    match last_non_blank_line(&v, &spans) {
        Some(k) => {
            let (lo, hi) = spans[k];
            assert(v@.subrange(lo as int, hi as int) == ls[k as int]);
            let (a, b) = trim_range(&v, lo, hi);
            if equal_range(&v, a, b, &t) {
                keep = k;
            }
        },
        None => {},
    }
    assert(ls.take(keep as int) == without_trailing_tag(ls, tag@)) by {
        assert(ls.take(ls.len() as int) =~= ls);
    }
    while keep > 0 && blank_range(&v, spans[keep - 1].0, spans[keep - 1].1)
        invariant
            keep <= spans.len(),
            spans_within(v@, spans@),
            texts(v@, spans@) == ls,
            drop_trailing_blank(ls.take(keep as int)) == drop_trailing_blank(
                without_trailing_tag(ls, tag@),
            ),
        decreases keep,
    {
        assert(ls.take(keep as int).drop_last() =~= ls.take(keep - 1));
        assert(ls.take(keep as int).last() == v@.subrange(
            spans@[keep - 1].0 as int,
            spans@[keep - 1].1 as int,
        ));
        keep -= 1;
    }
    assert(drop_trailing_blank(ls.take(keep as int)) == ls.take(keep as int)) by {
        if keep > 0 {
            assert(ls.take(keep as int).last() == ls[keep - 1]);
        }
    }
    let mut kept: Vec<(usize, usize)> = Vec::new();
    let mut j: usize = 0;
    while j < keep
        invariant
            j <= keep <= spans.len(),
            spans_within(v@, spans@),
            kept@ == spans@.take(j as int),
        decreases keep - j,
    {
        kept.push(spans[j]);
        j += 1;
        assert(kept@ =~= spans@.take(j as int));
    }
    assert(texts(v@, kept@) =~= ls.take(keep as int));
    let mut out = join_spans(&v, &kept);
    if out.len() > 0 && v.len() > 0 && v[v.len() - 1] == '\n' {
        out.push('\n');
    }
    string_of(&out, 0, out.len())
}

/// `content` with `"[tag] "` in front.
fn tag_message(tag: &str, content: &str) -> (r: String)
    ensures
        r@ == tagged(tag@, content@),
{
    let mut r = String::new();
    r.push('[');
    r.append(tag);
    r.push(']');
    r.push(' ');
    r.append(content);
    assert(r@ =~= tagged(tag@, content@));
    r
}

/// The text of `s` as a new `String`.
fn copy_str(s: &str) -> (r: String)
    ensures
        r@ == s@,
{
    let v = chars_of(s);
    string_of(&v, 0, v.len())
}

/// Tags a commit message with the JIRA key of the branch, converting an
/// old-format trailing tag if there is one, and says what was done.
pub fn process_commit_message(content: &str, branch: &str) -> (r: (String, ProcessResult))
    ensures
        r.0@ == spec_process(content@, branch@).0,
        r.1@ == spec_process(content@, branch@).1,
{
    let branch_tag = match extract_jira_from_branch(branch) {
        Some(tag) => tag,
        None => {
            return (
                copy_str(content),
                ProcessResult::Skipped(copy_str("Branch is not in format 'fb-{JIRA_TAG}'.")),
            );
        },
    };
    let v = chars_of(content);
    let spans = line_spans(&v);
    if spans.len() == 0 {
        return (copy_str(content), ProcessResult::Skipped(copy_str("Empty commit message.")));
    }
    let title = string_of(&v, spans[0].0, spans[0].1);
    assert(title@ == lines(content@)[0]);
    if let Some(reason) = should_skip_title(title.as_str()) {
        let reason_str = match reason {
            SkipReason::Fixup => "fixup",
            SkipReason::Squash => "squash",
            SkipReason::Amend => "amend",
            SkipReason::Merge => "merge",
        };
        let mut message = copy_str("Skipping ");
        message.append(reason_str);
        message.append("/squash/amend/merge commit...");
        return (copy_str(content), ProcessResult::Skipped(message));
    }
    if let Some(old_tag) = find_old_format_tag(content) {
        let cleaned = remove_trailing_tag(content, old_tag.as_str());
        let cv = chars_of(cleaned.as_str());
        let cspans = line_spans(&cv);
        let new_title = if cspans.len() > 0 {
            string_of(&cv, cspans[0].0, cspans[0].1)
        } else {
            String::new()
        };
        assert(new_title@ == title_of(cleaned@));
        if has_bracket_tag(new_title.as_str()) {
            return (cleaned, ProcessResult::Converted(old_tag));
        }
        let tagged_message = tag_message(old_tag.as_str(), cleaned.as_str());
        return (tagged_message, ProcessResult::Converted(old_tag));
    }
    if has_bracket_tag(title.as_str()) {
        return (copy_str(content), ProcessResult::AlreadyTagged);
    }
    let tagged_message = tag_message(branch_tag.as_str(), content);
    (tagged_message, ProcessResult::Added(branch_tag))
}

/// The current branch, from an override (the `TEST_BRANCH_NAME` variable)
/// or, without one, from the output of `git branch --show-current`
/// (`None` where git could not be run, failed, or wrote no UTF-8).
pub fn current_branch_from(override_branch: Option<&str>, git_output: Option<&str>) -> (r: Option<
    String,
>)
    ensures
        opt_text(r) == spec_current_branch(opt_str(override_branch), opt_str(git_output)),
{
    match override_branch {
        Some(b) => {
            let v = chars_of(b);
            if v.len() == 0 {
                None
            } else {
                Some(copy_str(b))
            }
        },
        None => match git_output {
            Some(o) => {
                let v = chars_of(o);
                let (a, b) = trim_range(&v, 0, v.len());
                assert(v@.subrange(0, v.len() as int) =~= o@);
                if a == b {
                    None
                } else {
                    Some(string_of(&v, a, b))
                }
            },
            None => None,
        },
    }
}


/// The line the hook prints for a result.
pub fn status_message(result: &ProcessResult) -> (r: String)
    ensures
        r@ == status_text(result@),
{
    match result {
        ProcessResult::Added(tag) => {
            let mut r = copy_str("Adding tag '[");
            r.append(tag.as_str());
            r.append("]' to commit message title");
            r
        },
        ProcessResult::Converted(tag) => {
            let mut r = copy_str("Converting old format tag '");
            r.append(tag.as_str());
            r.append("' to new format...");
            r
        },
        ProcessResult::AlreadyTagged => copy_str("JIRA tag already in title. Skipping..."),
        ProcessResult::Skipped(reason) => copy_str(reason.as_str()),
    }
}

} // verus!
