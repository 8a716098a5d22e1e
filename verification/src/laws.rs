//! Properties of the hook that hold for every message and branch.
use vstd::prelude::*;

use crate::hook::{
    drop_trailing_blank, non_blank_lines, spec_remove_trailing_tag, without_trailing_tag,
    is_last_non_blank, last_non_blank, skip_reason, spec_old_format_tag, spec_process, tagged,
    title_of, ProcessResultView, SkipReason, spec_current_branch,
};
use crate::pattern::{
    branch_key_is, is_digit, is_jira_key, is_upper, key_split_at, lemma_bracket_key_prefix,
    lemma_branch_key_unique, lemma_key_starts_upper, spec_branch_key, starts_with_bracket_key,
    bracket_key_ends_at,
};
use crate::text::{
    is_blank, is_space, join_lines, lemma_join_split, lemma_last_piece_nonempty,
    lemma_lines_avoid, lemma_lines_prefix, lemma_split_avoids, lemma_split_join,
    lemma_split_nonempty_text, lemma_strip_cr_trim, lemma_trim_end_shape, lemma_trim_push_space,
    lines, no_newlines, split_newlines, strip_cr, trim, trim_end, trim_start,
};

verus! {

// ---------------------------------------------------------------------------
// Helper lemmas
// ---------------------------------------------------------------------------

/// A JIRA key holds only letters, digits and one hyphen: no line break.
proof fn lemma_key_has_no_newline(key: Seq<char>)
    requires
        is_jira_key(key),
    ensures
        !key.contains('\n'),
{
    let i = choose|i: int| key_split_at(key, i);
    if key.contains('\n') {
        let j = choose|j: int| 0 <= j < key.len() && key[j] == '\n';
        if j < i {
            assert(is_upper(key[j]));
        } else if j > i {
            assert(is_digit(key[j]));
        }
    }
}

/// The prefix `"[tag] "` that tagging puts in front of a message.
spec fn tag_prefix(tag: Seq<char>) -> Seq<char> {
    seq!['['] + tag + seq![']', ' ']
}

/// Facts on the prefix `"[tag] "` for a JIRA key `tag`.
proof fn lemma_tag_prefix(tag: Seq<char>, s: Seq<char>)
    requires
        is_jira_key(tag),
    ensures
        tagged(tag, s) == tag_prefix(tag) + s,
        !tag_prefix(tag).contains('\n'),
        tag_prefix(tag).len() > 0,
        tag_prefix(tag).last() != '\r',
        tag_prefix(tag)[0] == '[',
        starts_with_bracket_key(tag_prefix(tag) + s),
{
    let q = tag_prefix(tag);
    assert(tagged(tag, s) =~= q + s);
    lemma_key_has_no_newline(tag);
    if q.contains('\n') {
        let j = choose|j: int| 0 <= j < q.len() && q[j] == '\n';
        assert(0 < j <= tag.len());
        assert(tag[j - 1] == q[j]);
    }
    assert(q + s =~= seq!['['] + tag + seq![']'] + (seq![' '] + s));
    lemma_bracket_key_prefix(tag, seq![' '] + s);
}

/// A text that starts with `'['` is not blank, and trimmed it is no JIRA key.
proof fn lemma_bracket_start_not_key(t: Seq<char>)
    requires
        t.len() > 0,
        t[0] == '[',
    ensures
        !is_blank(t),
        !is_jira_key(trim(t)),
{
    assert(!is_space(t[0]));
    assert(trim_start(t) == t);
    lemma_trim_end_shape(t);
    if trim_end(t).len() == 0 {
        assert(t.skip(0) =~= t);
        assert(is_space(t.skip(0)[0]));
    }
    assert(trim(t)[0] == t.take(trim_end(t).len() as int)[0]);
    if is_jira_key(trim(t)) {
        lemma_key_starts_upper(trim(t));
    }
}

/// A title that starts with a bracketed key announces no special commit.
proof fn lemma_bracket_title_not_skipped(t: Seq<char>)
    requires
        starts_with_bracket_key(t),
    ensures
        skip_reason(t) is None,
        t.len() > 0 && t[0] == '[',
{
    let e = choose|e: int| bracket_key_ends_at(t, e);
    reveal_strlit("fixup!");
    reveal_strlit("squash!");
    reveal_strlit("amend!");
    reveal_strlit("Merge ");
    assert(!"fixup!"@.is_prefix_of(t)) by {
        if "fixup!"@.is_prefix_of(t) {
            assert(t.subrange(0, 6)[0] == t[0]);
        }
    }
    assert(!"squash!"@.is_prefix_of(t)) by {
        if "squash!"@.is_prefix_of(t) {
            assert(t.subrange(0, 7)[0] == t[0]);
        }
    }
    assert(!"amend!"@.is_prefix_of(t)) by {
        if "amend!"@.is_prefix_of(t) {
            assert(t.subrange(0, 6)[0] == t[0]);
        }
    }
    assert(!"Merge "@.is_prefix_of(t)) by {
        if "Merge "@.is_prefix_of(t) {
            assert(t.subrange(0, 6)[0] == t[0]);
        }
    }
}

/// A message whose branch names a key, whose title is already tagged and that
/// has no old-format tag is left as it is.
proof fn lemma_already_tagged_fixed(m: Seq<char>, branch: Seq<char>)
    requires
        spec_branch_key(branch) is Some,
        lines(m).len() > 0,
        starts_with_bracket_key(lines(m)[0]),
        spec_old_format_tag(m) is None,
    ensures
        spec_process(m, branch) == (m, ProcessResultView::AlreadyTagged),
{
    lemma_bracket_title_not_skipped(lines(m)[0]);
}

/// The last non-blank line of a list is no JIRA key.
pub open spec fn last_line_not_key(ls: Seq<Seq<char>>) -> bool {
    match last_non_blank(ls) {
        Some(k) => !is_jira_key(trim(ls[k])),
        None => true,
    }
}

/// Replacing the first line by one that is not blank and no key keeps the
/// last non-blank line from being a key.
proof fn lemma_first_line_replaced(ls: Seq<Seq<char>>, lm: Seq<Seq<char>>, x: Seq<char>)
    requires
        ls.len() == 0 ==> lm == seq![x],
        ls.len() > 0 ==> lm == ls.update(0, x),
        !is_blank(x),
        !is_jira_key(trim(x)),
        last_line_not_key(ls),
    ensures
        last_line_not_key(lm),
{
    if exists|c: int| is_last_non_blank(ls, c) {
        let k = choose|c: int| is_last_non_blank(ls, c);
        if k > 0 {
            assert(is_last_non_blank(lm, k)) by {
                assert forall|j: int| k < j < lm.len() implies is_blank(#[trigger] lm[j]) by {
                    assert(lm[j] == ls[j]);
                }
            }
            crate::hook::lemma_last_non_blank_is(lm, k);
        } else {
            assert(is_last_non_blank(lm, 0)) by {
                assert forall|j: int| 0 < j < lm.len() implies is_blank(#[trigger] lm[j]) by {
                    assert(lm[j] == ls[j]);
                }
            }
            crate::hook::lemma_last_non_blank_is(lm, 0);
        }
    } else {
        assert(is_last_non_blank(lm, 0)) by {
            assert forall|j: int| 0 < j < lm.len() implies is_blank(#[trigger] lm[j]) by {
                assert(lm[j] == ls[j]);
                if !is_blank(ls[j]) {
                    lemma_some_last_non_blank(ls, j);
                }
            }
        }
        crate::hook::lemma_last_non_blank_is(lm, 0);
    }
}

/// A list with a line that is not blank has a last such line.
proof fn lemma_some_last_non_blank(ls: Seq<Seq<char>>, j: int)
    requires
        0 <= j < ls.len(),
        !is_blank(ls[j]),
    ensures
        exists|c: int| is_last_non_blank(ls, c),
    decreases ls.len() - j,
{
    if forall|d: int| j < d < ls.len() ==> is_blank(#[trigger] ls[d]) {
        assert(is_last_non_blank(ls, j));
    } else {
        let d = choose|d: int| j < d < ls.len() && !is_blank(#[trigger] ls[d]);
        lemma_some_last_non_blank(ls, d);
    }
}

/// The old-format tag is absent exactly when the last non-blank line is no key.
proof fn lemma_old_tag_none(m: Seq<char>)
    ensures
        (spec_old_format_tag(m) is None) == last_line_not_key(lines(m)),
{
}

/// Putting `"[tag] "` in front of a message adds no old-format tag.
proof fn lemma_tagged_has_no_old_tag(tag: Seq<char>, s: Seq<char>)
    requires
        is_jira_key(tag),
        spec_old_format_tag(s) is None,
    ensures
        spec_old_format_tag(tagged(tag, s)) is None,
        lines(tagged(tag, s)).len() > 0,
        starts_with_bracket_key(lines(tagged(tag, s))[0]),
{
    let q = tag_prefix(tag);
    lemma_tag_prefix(tag, s);
    lemma_lines_prefix(q, s);
    let ls = lines(s);
    let lm = lines(q + s);
    let x = lm[0];
    if ls.len() > 0 {
        lemma_tag_prefix(tag, ls[0]);
    } else {
        lemma_tag_prefix(tag, Seq::<char>::empty());
        assert(q + Seq::<char>::empty() =~= q);
    }
    assert(x[0] == '[');
    lemma_bracket_start_not_key(x);
    lemma_old_tag_none(s);
    lemma_old_tag_none(q + s);
    lemma_first_line_replaced(ls, lm, x);
}

/// Dropping the trailing blank lines keeps a prefix that is empty or ends in a
/// line that is not blank, and leaves the non-blank lines as they are.
proof fn lemma_drop_trailing_blank(ls: Seq<Seq<char>>)
    ensures
        drop_trailing_blank(ls).len() <= ls.len(),
        drop_trailing_blank(ls) == ls.take(drop_trailing_blank(ls).len() as int),
        drop_trailing_blank(ls).len() == 0 || !is_blank(drop_trailing_blank(ls).last()),
        non_blank_lines(drop_trailing_blank(ls)) == non_blank_lines(ls),
    decreases ls.len(),
{
    if ls.len() > 0 && is_blank(ls.last()) {
        let front = ls.drop_last();
        lemma_drop_trailing_blank(front);
        let d = drop_trailing_blank(front);
        assert(front.take(d.len() as int) =~= ls.take(d.len() as int));
    } else {
        assert(ls.take(ls.len() as int) =~= ls);
    }
}

/// A prefix of lines that only blank lines follow has the same non-blank
/// lines.
proof fn lemma_non_blank_prefix(ls: Seq<Seq<char>>, j: int)
    requires
        0 <= j <= ls.len(),
        forall|i: int| j <= i < ls.len() ==> is_blank(#[trigger] ls[i]),
    ensures
        non_blank_lines(ls.take(j)) == non_blank_lines(ls),
    decreases ls.len() - j,
{
    if j == ls.len() {
        assert(ls.take(j) =~= ls);
    } else {
        let front = ls.drop_last();
        assert forall|i: int| j <= i < front.len() implies is_blank(#[trigger] front[i]) by {
            assert(front[i] == ls[i]);
        }
        lemma_non_blank_prefix(front, j);
        assert(front.take(j) =~= ls.take(j));
        assert(is_blank(ls[ls.len() - 1]));
    }
}

/// The lines that removal keeps: a prefix of the message's lines, ending in a
/// line that is not blank; the result is their join, followed by `'\n'` when
/// the message ended in one.
proof fn lemma_removal_shape(content: Seq<char>, tag: Seq<char>)
    ensures
        ({
            let ls = lines(content);
            let kept = drop_trailing_blank(without_trailing_tag(ls, tag));
            let out = spec_remove_trailing_tag(content, tag);
            &&& kept.len() <= ls.len()
            &&& kept == ls.take(kept.len() as int)
            &&& kept.len() == 0 || !is_blank(kept.last())
            &&& lines(out).len() == kept.len()
            &&& forall|i: int|
                0 <= i < kept.len() ==> #[trigger] lines(out)[i] == kept[i] || lines(out)[i]
                    == strip_cr(kept[i])
        }),
{
    let ls = lines(content);
    let w = without_trailing_tag(ls, tag);
    let kept = drop_trailing_blank(w);
    let out = spec_remove_trailing_tag(content, tag);
    lemma_drop_trailing_blank(w);
    assert(w == ls.take(w.len() as int)) by {
        assert(ls.take(ls.len() as int) =~= ls);
    }
    assert(kept =~= ls.take(kept.len() as int));
    lemma_lines_avoid(content, '\n');
    assert(no_newlines(kept)) by {
        assert forall|i: int| 0 <= i < kept.len() implies !(#[trigger] kept[i]).contains('\n') by {
            assert(kept[i] == ls[i]);
        }
    }
    let body = join_lines(kept);
    if kept.len() == 0 {
        assert(out =~= Seq::<char>::empty());
        assert(split_newlines(out) == seq![Seq::<char>::empty()]);
    } else {
        lemma_split_join(kept);
        assert(kept.last().len() > 0) by {
            if kept.last().len() == 0 {
                assert(is_blank(kept.last()));
            }
        }
        if out == body {
            assert(lines(out) =~= kept.drop_last().map_values(|l: Seq<char>| strip_cr(l)).push(
                kept.last(),
            ));
        } else {
            assert(out == body.push('\n'));
            assert(out.drop_last() =~= body);
            assert(split_newlines(out) == kept.push(Seq::<char>::empty()));
        }
    }
}

/// A line without `'\r'` loses nothing to line-ending handling.
proof fn lemma_strip_cr_plain(l: Seq<char>)
    requires
        !l.contains('\r'),
    ensures
        strip_cr(l) == l,
{
    if l.len() > 0 && l.last() == '\r' {
        assert(l[l.len() - 1] == '\r');
    }
}

/// Lines with an equal trim and blankness in the last place, or one blank line
/// more, keep the same last non-blank line and so the same old-format tag.
proof fn lemma_old_tag_stable(ls: Seq<Seq<char>>, lm: Seq<Seq<char>>)
    requires
        ({
            ||| lm == ls.push(Seq::<char>::empty())
            ||| (exists|b: Seq<char>| lm == ls.push(b) && is_blank(b))
            ||| (ls.len() > 0 && lm.len() == ls.len() && lm.drop_last() == ls.drop_last() && trim(
                lm.last(),
            ) == trim(ls.last()) && is_blank(lm.last()) == is_blank(ls.last()))
        }),
    ensures
        last_non_blank(lm) == last_non_blank(ls),
        last_non_blank(ls) matches Some(k) ==> trim(lm[k]) == trim(ls[k]),
{
    if exists|c: int| is_last_non_blank(ls, c) {
        let k = choose|c: int| is_last_non_blank(ls, c);
        assert(is_last_non_blank(lm, k)) by {
            if lm.len() == ls.len() {
                if k < ls.len() - 1 {
                    assert(lm[k] == lm.drop_last()[k]);
                    assert(ls[k] == ls.drop_last()[k]);
                }
                assert forall|j: int| k < j < lm.len() implies is_blank(#[trigger] lm[j]) by {
                    if j < lm.len() - 1 {
                        assert(lm[j] == lm.drop_last()[j]);
                        assert(ls[j] == ls.drop_last()[j]);
                    }
                }
            } else {
                assert(lm[k] == ls[k]);
                assert forall|j: int| k < j < lm.len() implies is_blank(#[trigger] lm[j]) by {
                    if j < ls.len() {
                        assert(lm[j] == ls[j]);
                    }
                }
            }
        }
        crate::hook::lemma_last_non_blank_is(lm, k);
        if lm.len() == ls.len() && k < ls.len() - 1 {
            assert(lm[k] == lm.drop_last()[k]);
            assert(ls[k] == ls.drop_last()[k]);
        }
    } else {
        if exists|c: int| is_last_non_blank(lm, c) {
            let k = choose|c: int| is_last_non_blank(lm, c);
            if lm.len() == ls.len() && k < ls.len() - 1 {
                assert(lm[k] == lm.drop_last()[k]);
                assert(ls[k] == ls.drop_last()[k]);
                assert(is_last_non_blank(ls, k)) by {
                    assert forall|j: int| k < j < ls.len() implies is_blank(#[trigger] ls[j]) by {
                        if j < ls.len() - 1 {
                            assert(lm[j] == lm.drop_last()[j]);
                            assert(ls[j] == ls.drop_last()[j]);
                        }
                    }
                }
            } else if lm.len() == ls.len() {
                assert(is_last_non_blank(ls, k));
            } else {
                if k < ls.len() {
                    assert(lm[k] == ls[k]);
                    assert(is_last_non_blank(ls, k)) by {
                        assert forall|j: int| k < j < ls.len() implies is_blank(
                            #[trigger] ls[j],
                        ) by {
                            assert(lm[j] == ls[j]);
                        }
                    }
                } else {
                    assert(lm[k] == lm.last());
                    if lm == ls.push(Seq::<char>::empty()) {
                        assert(is_blank(lm[k]));
                    }
                }
            }
        }
    }
}

/// Appending one whitespace character leaves the old-format tag as it is.
proof fn lemma_old_tag_push_space(t: Seq<char>, x: char)
    requires
        is_space(x),
    ensures
        spec_old_format_tag(t.push(x)) == spec_old_format_tag(t),
{
    let m = t.push(x);
    let p = split_newlines(t);
    lemma_split_nonempty_text(t);
    assert(m.drop_last() =~= t);
    let ls = lines(t);
    let lm = lines(m);
    let ended = p.drop_last().map_values(|l: Seq<char>| strip_cr(l));
    if x == '\n' {
        assert(split_newlines(m) == p.push(Seq::<char>::empty()));
        assert(lm =~= p.map_values(|l: Seq<char>| strip_cr(l)));
        if p.last().len() == 0 {
            assert(lm =~= ls.push(strip_cr(p.last())));
            assert(strip_cr(p.last()) =~= Seq::<char>::empty());
            lemma_old_tag_stable(ls, lm);
        } else {
            assert(lm.drop_last() =~= ls.drop_last());
            lemma_strip_cr_trim(p.last());
            lemma_old_tag_stable(ls, lm);
        }
    } else {
        let l2 = p.last().push(x);
        assert(split_newlines(m) == p.update(p.len() - 1, l2));
        assert(split_newlines(m).drop_last() =~= p.drop_last());
        assert(lm =~= ended.push(l2));
        if p.last().len() == 0 {
            assert(lm =~= ls.push(l2));
            lemma_trim_push_space(p.last(), x);
            assert(is_blank(p.last()));
            lemma_old_tag_stable(ls, lm);
        } else {
            assert(ls =~= ended.push(p.last()));
            lemma_trim_push_space(p.last(), x);
            assert(lm.drop_last() =~= ls.drop_last());
            lemma_old_tag_stable(ls, lm);
        }
    }
}

// ---------------------------------------------------------------------------
// Laws
// ---------------------------------------------------------------------------

/// A message that is skipped, or whose title already carries a tag, comes
/// back unchanged.
pub proof fn law_untouched_when_skipped_or_tagged(content: Seq<char>, branch: Seq<char>)
    requires
        spec_process(content, branch).1 is Skipped || spec_process(content, branch).1 is AlreadyTagged,
    ensures
        spec_process(content, branch).0 == content,
{
}

/// Unless the message is skipped, the title of the result starts with a JIRA
/// tag in brackets.
pub proof fn law_result_title_is_tagged(content: Seq<char>, branch: Seq<char>)
    requires
        !(spec_process(content, branch).1 is Skipped),
    ensures
        starts_with_bracket_key(title_of(spec_process(content, branch).0)),
{
    let out = spec_process(content, branch).0;
    let bt = spec_branch_key(branch)->0;
    assert(branch_key_is(branch, bt));
    match spec_process(content, branch).1 {
        ProcessResultView::Added(t) => {
            assert(t == bt);
            lemma_tag_prefix(bt, content);
            lemma_lines_prefix(tag_prefix(bt), content);
            lemma_tag_prefix(bt, lines(content)[0]);
        },
        ProcessResultView::Converted(old) => {
            assert(is_jira_key(old));
            let cleaned = crate::hook::spec_remove_trailing_tag(content, old);
            if !starts_with_bracket_key(title_of(cleaned)) {
                lemma_tag_prefix(old, cleaned);
                lemma_tag_prefix(old, Seq::<char>::empty());
                lemma_lines_prefix(tag_prefix(old), cleaned);
                if lines(cleaned).len() > 0 {
                    lemma_tag_prefix(old, lines(cleaned)[0]);
                } else {
                    assert(tag_prefix(old) + Seq::<char>::empty() =~= tag_prefix(old));
                }
            }
        },
        _ => {},
    }
}

/// Running the hook a second time on its own result changes nothing, except
/// where the first run converted an old-format tag and the result still ends
/// in another one.
pub proof fn law_idempotent(content: Seq<char>, branch: Seq<char>)
    requires
        spec_process(content, branch).1 is Converted ==> spec_old_format_tag(
            spec_process(content, branch).0,
        ) is None,
    ensures
        spec_process(spec_process(content, branch).0, branch).0 == spec_process(content, branch).0,
        !(spec_process(content, branch).1 is Skipped) ==> spec_process(
            spec_process(content, branch).0,
            branch,
        ).1 == ProcessResultView::AlreadyTagged,
{
    let out = spec_process(content, branch).0;
    match spec_process(content, branch).1 {
        ProcessResultView::Added(t) => {
            assert(branch_key_is(branch, t));
            lemma_tagged_has_no_old_tag(t, content);
            lemma_already_tagged_fixed(out, branch);
        },
        ProcessResultView::Converted(old) => {
            law_result_title_is_tagged(content, branch);
            assert(lines(out).len() > 0) by {
                if lines(out).len() == 0 {
                    assert(title_of(out) == Seq::<char>::empty());
                }
            }
            lemma_already_tagged_fixed(out, branch);
        },
        ProcessResultView::AlreadyTagged => {
            lemma_already_tagged_fixed(out, branch);
        },
        ProcessResultView::Skipped(_) => {},
    }
}

/// Where a message holds an old-format tag that is converted, the result does
/// not depend on which feature branch it is processed on: the old tag wins.
pub proof fn law_old_tag_wins(content: Seq<char>, branch1: Seq<char>, branch2: Seq<char>)
    requires
        spec_branch_key(branch1) is Some,
        spec_branch_key(branch2) is Some,
        spec_process(content, branch1).1 is Converted,
    ensures
        spec_process(content, branch2) == spec_process(content, branch1),
{
}

/// A branch named `fb-{KEY}`, or `fb-{KEY}-{suffix}` with a suffix on one
/// line, yields `KEY`.
pub proof fn law_branch_key(key: Seq<char>, suffix: Seq<char>)
    requires
        is_jira_key(key),
        suffix.len() == 0 || (suffix[0] == '-' && !suffix.contains('\n')),
    ensures
        spec_branch_key(seq!['f', 'b', '-'] + key + suffix) == Some(key),
{
    let branch = seq!['f', 'b', '-'] + key + suffix;
    assert(branch.take(3) =~= seq!['f', 'b', '-']);
    assert(branch.subrange(3, 3 + key.len() as int) =~= key);
    assert(branch.skip(3 + key.len() as int) =~= suffix);
    assert(branch_key_is(branch, key));
    let c = choose|k: Seq<char>| branch_key_is(branch, k);
    lemma_branch_key_unique(branch, c, key);
}

/// Removing a trailing tag leaves a message that does not end in a blank line.
pub proof fn law_no_trailing_blank_line(content: Seq<char>, tag: Seq<char>)
    ensures
        lines(spec_remove_trailing_tag(content, tag)).len() > 0 ==> !is_blank(
            lines(spec_remove_trailing_tag(content, tag)).last(),
        ),
{
    lemma_removal_shape(content, tag);
    let kept = drop_trailing_blank(without_trailing_tag(lines(content), tag));
    let lo = lines(spec_remove_trailing_tag(content, tag));
    if lo.len() > 0 {
        assert(lo[kept.len() - 1] == kept.last() || lo[kept.len() - 1] == strip_cr(kept.last()));
        lemma_strip_cr_trim(kept.last());
    }
}

/// For a message without `'\r'`, removing a trailing tag keeps the first lines
/// of the message as they are and adds none; the non-blank lines kept are the
/// message's, less at most one line that trims to the tag, the last one.
pub proof fn law_removal_keeps_leading_lines(content: Seq<char>, tag: Seq<char>)
    requires
        !content.contains('\r'),
    ensures
        ({
            let ls = lines(content);
            let lo = lines(spec_remove_trailing_tag(content, tag));
            &&& lo == ls.take(lo.len() as int)
            &&& {
                ||| non_blank_lines(lo) == non_blank_lines(ls)
                ||| (non_blank_lines(ls).len() > 0 && trim(non_blank_lines(ls).last()) == tag
                    && non_blank_lines(lo) == non_blank_lines(ls).drop_last())
            }
        }),
{
    let ls = lines(content);
    let w = without_trailing_tag(ls, tag);
    let kept = drop_trailing_blank(w);
    let lo = lines(spec_remove_trailing_tag(content, tag));
    lemma_removal_shape(content, tag);
    lemma_lines_avoid(content, '\r');
    assert(lo =~= kept) by {
        assert forall|i: int| 0 <= i < kept.len() implies lo[i] == kept[i] by {
            assert(lo[i] == kept[i] || lo[i] == strip_cr(kept[i]));
            assert(kept[i] == ls[i]);
            lemma_strip_cr_plain(ls[i]);
        }
    }
    lemma_drop_trailing_blank(w);
    match last_non_blank(ls) {
        Some(k) => {
            assert(is_last_non_blank(ls, k)) by {
                assert(exists|c: int| is_last_non_blank(ls, c));
            }
            if trim(ls[k]) == tag {
                lemma_non_blank_prefix(ls, k + 1);
                let t = ls.take(k + 1);
                assert(t.drop_last() =~= ls.take(k));
                assert(t.last() == ls[k]);
                assert(non_blank_lines(ls) == non_blank_lines(ls.take(k)).push(ls[k]));
                assert(non_blank_lines(ls).drop_last() =~= non_blank_lines(ls.take(k)));
            }
        },
        None => {},
    }
}

/// A message without `'\r'` whose lines are none of them blank nor the tag is
/// left exactly as it is.
pub proof fn law_removal_leaves_plain_message(content: Seq<char>, tag: Seq<char>)
    requires
        !content.contains('\r'),
        forall|i: int|
            0 <= i < lines(content).len() ==> !is_blank(#[trigger] lines(content)[i]) && trim(
                lines(content)[i],
            ) != tag,
    ensures
        spec_remove_trailing_tag(content, tag) == content,
{
    let ls = lines(content);
    let p = split_newlines(content);
    lemma_split_nonempty_text(content);
    lemma_split_avoids(content, '\r');
    lemma_join_split(content);
    if ls.len() > 0 {
        assert(is_last_non_blank(ls, ls.len() - 1));
        crate::hook::lemma_last_non_blank_is(ls, ls.len() - 1);
    } else {
        assert(last_non_blank(ls) is None) by {
            if exists|c: int| is_last_non_blank(ls, c) {
            }
        }
    }
    assert(without_trailing_tag(ls, tag) == ls);
    assert(drop_trailing_blank(ls) == ls) by {
        if ls.len() > 0 {
            assert(!is_blank(ls[ls.len() - 1]));
        }
    }
    let ended = p.drop_last().map_values(|l: Seq<char>| strip_cr(l));
    assert(ended =~= p.drop_last()) by {
        assert forall|i: int| 0 <= i < ended.len() implies ended[i] == p.drop_last()[i] by {
            assert(!p[i].contains('\r'));
            lemma_strip_cr_plain(p[i]);
        }
    }
    if p.last().len() == 0 {
        if content.len() == 0 {
            assert(join_lines(ls) =~= content);
        } else {
            assert(p.len() >= 2);
            assert(ls =~= p.drop_last());
            assert(join_lines(p) == join_lines(ls) + seq!['\n'] + p.last());
            assert(content.last() == '\n') by {
                if content.last() != '\n' {
                    assert(split_newlines(content).last().len() > 0);
                }
            }
            assert(ls[ls.len() - 1].len() > 0) by {
                if ls[ls.len() - 1].len() == 0 {
                    assert(is_blank(ls[ls.len() - 1]));
                }
            }
            assert(join_lines(ls).len() > 0) by {
                if ls.len() > 1 {
                    assert(join_lines(ls) == join_lines(ls.drop_last()) + seq!['\n'] + ls.last());
                }
            }
            assert(join_lines(ls).push('\n') =~= content);
        }
    } else {
        assert(ls =~= p);
        lemma_last_piece_nonempty(content);
    }
}

/// Whitespace and blank lines added at the end of a message do not change its
/// old-format tag.
pub proof fn law_old_tag_ignores_trailing_space(content: Seq<char>, extra: Seq<char>)
    requires
        is_blank(extra),
    ensures
        spec_old_format_tag(content + extra) == spec_old_format_tag(content),
    decreases extra.len(),
{
    if extra.len() == 0 {
        assert(content + extra =~= content);
    } else {
        let e1 = extra.drop_last();
        assert(is_blank(e1)) by {
            assert forall|i: int| 0 <= i < e1.len() implies is_space(#[trigger] e1[i]) by {
                assert(e1[i] == extra[i]);
            }
        }
        law_old_tag_ignores_trailing_space(content, e1);
        assert(content + extra =~= (content + e1).push(extra.last()));
        assert(is_space(extra[extra.len() - 1]));
        lemma_old_tag_push_space(content + e1, extra.last());
    }
}

/// A title names a special commit when it starts with `fixup!`, `squash!`,
/// `amend!` or `Merge `.
pub open spec fn has_special_prefix(title: Seq<char>) -> bool {
    ||| "fixup!"@.is_prefix_of(title)
    ||| "squash!"@.is_prefix_of(title)
    ||| "amend!"@.is_prefix_of(title)
    ||| "Merge "@.is_prefix_of(title)
}

/// Only the four special prefixes make a title special, each for its own
/// reason: `fixup!` for a fixup, `squash!` for a squash, `amend!` for an amend,
/// `Merge ` for a merge; any other title is no special commit.
pub proof fn law_special_titles(title: Seq<char>)
    ensures
        skip_reason(title) is Some <==> has_special_prefix(title),
        "fixup!"@.is_prefix_of(title) ==> skip_reason(title) == Some(SkipReason::Fixup),
        "squash!"@.is_prefix_of(title) ==> skip_reason(title) == Some(SkipReason::Squash),
        "amend!"@.is_prefix_of(title) ==> skip_reason(title) == Some(SkipReason::Amend),
        "Merge "@.is_prefix_of(title) ==> skip_reason(title) == Some(SkipReason::Merge),
{
    reveal_strlit("fixup!");
    reveal_strlit("squash!");
    reveal_strlit("amend!");
    reveal_strlit("Merge ");
    if "squash!"@.is_prefix_of(title) {
        assert(title.subrange(0, 7)[0] == title[0]);
        assert(title[0] == 's');
    }
    if "amend!"@.is_prefix_of(title) {
        assert(title.subrange(0, 6)[0] == title[0]);
        assert(title[0] == 'a');
    }
    if "Merge "@.is_prefix_of(title) {
        assert(title.subrange(0, 6)[0] == title[0]);
        assert(title[0] == 'M');
    }
}

/// On a feature branch, a message with at least one line whose title is not
/// special, whose last non-blank line is no JIRA key and whose title does not
/// start with a bracketed key gets `"[KEY] "` put in front of it, `KEY` being
/// the branch's key, and the result says the tag was added.
pub proof fn law_plain_message_is_tagged(content: Seq<char>, branch: Seq<char>, key: Seq<char>)
    requires
        spec_branch_key(branch) == Some(key),
        lines(content).len() > 0,
        !has_special_prefix(lines(content)[0]),
        last_line_not_key(lines(content)),
        !starts_with_bracket_key(lines(content)[0]),
    ensures
        spec_process(content, branch) == (
            seq!['['] + key + seq![']', ' '] + content,
            ProcessResultView::Added(key),
        ),
{
    law_special_titles(lines(content)[0]);
    lemma_old_tag_none(content);
}

/// A message is skipped only on a branch that names no JIRA key, when it has
/// no lines at all, or when its title starts with a special prefix.
pub proof fn law_skipped_only_when(content: Seq<char>, branch: Seq<char>)
    ensures
        spec_process(content, branch).1 is Skipped ==> {
            ||| spec_branch_key(branch) is None
            ||| lines(content).len() == 0
            ||| has_special_prefix(lines(content)[0])
        },
{
    if lines(content).len() > 0 {
        law_special_titles(lines(content)[0]);
    }
}

/// The current branch is a non-empty override as it is, or, without an
/// override, the git output trimmed, when that is not empty; there is no
/// branch otherwise.
pub proof fn law_current_branch(override_branch: Option<Seq<char>>, git_output: Option<Seq<char>>)
    ensures
        override_branch is Some && override_branch->0.len() > 0 ==> spec_current_branch(
            override_branch,
            git_output,
        ) == override_branch,
        override_branch is Some && override_branch->0.len() == 0 ==> spec_current_branch(
            override_branch,
            git_output,
        ) is None,
        override_branch is None && git_output is Some && trim(git_output->0).len() > 0
            ==> spec_current_branch(override_branch, git_output) == Some(trim(git_output->0)),
        override_branch is None && git_output is Some && trim(git_output->0).len() == 0
            ==> spec_current_branch(override_branch, git_output) is None,
        override_branch is None && git_output is None ==> spec_current_branch(
            override_branch,
            git_output,
        ) is None,
        spec_current_branch(override_branch, git_output) is Some ==> {
            let b = spec_current_branch(override_branch, git_output)->0;
            &&& b.len() > 0
            &&& (override_branch == Some(b) || (override_branch is None && git_output is Some && b
                == trim(git_output->0)))
        },
{
}

} // verus!
