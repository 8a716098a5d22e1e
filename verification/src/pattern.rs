//! The grammar of JIRA keys and feature branch names, and the regular
//! expressions of the `regex` crate that recognise them.
use vstd::prelude::*;

verus! {

/// The compiled regular expression of the `regex` crate.
#[verifier::external_type_specification]
#[verifier::external_body]
pub struct ExRegex(regex::Regex);

/// The error that `regex::Regex::new` reports.
#[verifier::external_type_specification]
#[verifier::external_body]
pub struct ExRegexError(regex::Error);

/// A JIRA key and nothing else.
pub const JIRA_KEY_PATTERN: &'static str = "^[A-Z]+-[0-9]+$";

/// A JIRA key in square brackets at the start of a title.
pub const BRACKET_TAG_PATTERN: &'static str = "^\\[[A-Z]+-[0-9]+\\]";

/// A feature branch `fb-{KEY}` or `fb-{KEY}-{suffix}`; group 1 is the key.
pub const BRANCH_PATTERN: &'static str = "^fb-([A-Z]+-[0-9]+)(-.*)?$";

// ---------------------------------------------------------------------------
// The grammar
// ---------------------------------------------------------------------------

/// A capital ASCII letter, the class `[A-Z]`.
pub open spec fn is_upper(c: char) -> bool {
    'A' as u32 <= c as u32 <= 'Z' as u32
}

/// An ASCII digit, the class `[0-9]`.
pub open spec fn is_digit(c: char) -> bool {
    '0' as u32 <= c as u32 <= '9' as u32
}

/// `s` is capital letters, then `'-'` at index `i`, then digits, with at
/// least one letter and one digit.
pub open spec fn key_split_at(s: Seq<char>, i: int) -> bool {
    &&& 0 < i < s.len() - 1
    &&& s[i] == '-'
    &&& forall|j: int| 0 <= j < i ==> is_upper(#[trigger] s[j])
    &&& forall|j: int| i < j < s.len() ==> is_digit(#[trigger] s[j])
}

/// A JIRA key such as `PROJ-123`: the language of `[A-Z]+-[0-9]+`.
pub open spec fn is_jira_key(s: Seq<char>) -> bool {
    exists|i: int| key_split_at(s, i)
}

/// `s` opens with `'['`, a JIRA key, and `']'` at index `e`.
pub open spec fn bracket_key_ends_at(s: Seq<char>, e: int) -> bool {
    &&& 1 < e < s.len()
    &&& s[0] == '['
    &&& is_jira_key(s.subrange(1, e))
    &&& s[e] == ']'
}

/// `s` starts with a JIRA key in square brackets, such as `[PROJ-123]`.
pub open spec fn starts_with_bracket_key(s: Seq<char>) -> bool {
    exists|e: int| bracket_key_ends_at(s, e)
}

/// `branch` is `"fb-"`, then `key`, then either nothing or `'-'` followed by
/// characters other than `'\n'`.
pub open spec fn branch_key_is(branch: Seq<char>, key: Seq<char>) -> bool {
    let rest = branch.skip(3 + key.len() as int);
    &&& branch.len() >= 3 + key.len() as int
    &&& branch.take(3) == seq!['f', 'b', '-']
    &&& branch.subrange(3, 3 + key.len() as int) == key
    &&& is_jira_key(key)
    &&& (rest.len() == 0 || (rest[0] == '-' && !rest.contains('\n')))
}

/// The JIRA key that names the feature branch `branch`, if it is one.
pub open spec fn spec_branch_key(branch: Seq<char>) -> Option<Seq<char>> {
    if exists|key: Seq<char>| branch_key_is(branch, key) {
        Some(choose|key: Seq<char>| branch_key_is(branch, key))
    } else {
        None
    }
}

/// The three patterns of this library.
pub open spec fn is_library_pattern(p: Seq<char>) -> bool {
    p == JIRA_KEY_PATTERN@ || p == BRACKET_TAG_PATTERN@ || p == BRANCH_PATTERN@
}

/// The text of an optional `String`.
pub open spec fn opt_text(o: Option<String>) -> Option<Seq<char>> {
    match o {
        Some(s) => Some(s@),
        None => None,
    }
}

// ---------------------------------------------------------------------------
// Lemmas on the grammar
// ---------------------------------------------------------------------------

/// A JIRA key has one hyphen, so it splits at one place only.
pub proof fn lemma_key_split_unique(s: Seq<char>, i: int, k: int)
    requires
        key_split_at(s, i),
        key_split_at(s, k),
    ensures
        i == k,
{
    if i < k {
        assert(is_upper(s[i]));
    } else if k < i {
        assert(is_upper(s[k]));
    }
}

/// A JIRA key starts with a capital letter.
pub proof fn lemma_key_starts_upper(s: Seq<char>)
    requires
        is_jira_key(s),
    ensures
        s.len() >= 3,
        is_upper(s[0]),
{
    let i = choose|i: int| key_split_at(s, i);
    assert(is_upper(s[0]));
}

/// `"[" + key + "]"` followed by anything starts with a bracketed key.
pub proof fn lemma_bracket_key_prefix(key: Seq<char>, rest: Seq<char>)
    requires
        is_jira_key(key),
    ensures
        starts_with_bracket_key(seq!['['] + key + seq![']'] + rest),
{
    let s = seq!['['] + key + seq![']'] + rest;
    assert(s.subrange(1, key.len() + 1int) =~= key);
    assert(bracket_key_ends_at(s, key.len() + 1int));
}

/// The branch key is unique.
pub proof fn lemma_branch_key_unique(branch: Seq<char>, k1: Seq<char>, k2: Seq<char>)
    requires
        branch_key_is(branch, k1),
        branch_key_is(branch, k2),
    ensures
        k1 == k2,
{
    let i1 = choose|i: int| key_split_at(k1, i);
    let i2 = choose|i: int| key_split_at(k2, i);
    if k1.len() < k2.len() {
        // k2 holds the hyphen that follows k1 in the branch, and its own.
        assert(k2[k1.len() as int] == branch[3 + k1.len() as int]);
        assert(branch.skip(3 + k1.len() as int)[0] == branch[3 + k1.len() as int]);
        assert(k2[k1.len() as int] == '-');
        assert(k2[i1] == k1[i1]);
        assert(k2[i1] == '-');
        lemma_key_split_unique(k2, i1, i2);
        assert(is_digit(k2[k1.len() as int]));
    } else if k2.len() < k1.len() {
        assert(k1[k2.len() as int] == branch[3 + k2.len() as int]);
        assert(branch.skip(3 + k2.len() as int)[0] == branch[3 + k2.len() as int]);
        assert(k1[k2.len() as int] == '-');
        assert(k1[i2] == k2[i2]);
        assert(k1[i2] == '-');
        lemma_key_split_unique(k1, i2, i1);
        assert(is_digit(k1[k2.len() as int]));
    } else {
        assert(k1 =~= k2);
    }
}

// ---------------------------------------------------------------------------
// The regex crate
// ---------------------------------------------------------------------------

/// Whether `regex::Regex::new` accepts the pattern.
pub uninterp spec fn regex_compiles(pattern: Seq<char>) -> bool;

/// What `regex::Regex::is_match` answers for the pattern and the haystack.
pub uninterp spec fn regex_is_match(pattern: Seq<char>, text: Seq<char>) -> bool;

/// The text of capture group `group` that `regex::Regex::captures` reports
/// for the pattern and the haystack (`None` where there is no match, or the
/// group took no part in it).
pub uninterp spec fn regex_capture(pattern: Seq<char>, text: Seq<char>, group: int) -> Option<
    Seq<char>,
>;

/// A compiled regular expression together with the pattern it was compiled
/// from. Only [`compile`] makes one.
pub struct Matcher {
    regex: regex::Regex,
    pattern: Ghost<Seq<char>>,
}

impl Matcher {
    /// The pattern this matcher was compiled from.
    pub closed spec fn pattern(&self) -> Seq<char> {
        self.pattern@
    }
}

/// Calls `regex::Regex::new`. The contract claims that the outcome depends on
/// the pattern alone, that the compiled regex is kept with its pattern, and
/// that the three patterns of this library compile: the crate refuses only an
/// invalid pattern or one whose compiled form is over its size limit, and
/// these are valid and a few states long.
#[verifier::external_body]
pub(crate) fn compile(pattern: &str) -> (r: Result<Matcher, regex::Error>)
    ensures
        r is Ok == regex_compiles(pattern@),
        r matches Ok(m) ==> m.pattern() == pattern@,
        is_library_pattern(pattern@) ==> r is Ok,
{
    match regex::Regex::new(pattern) {
        Ok(regex) => Ok(Matcher { regex, pattern: Ghost(pattern@) }),
        Err(e) => Err(e),
    }
}

/// Calls `regex::Regex::is_match`. The contract claims that the answer depends
/// on the pattern and the haystack alone, and for the two patterns of this
/// library that it uses states what the crate's syntax documentation gives:
/// `^` and `$` anchor at the start and end of the haystack, `[A-Z]` and
/// `[0-9]` are those ASCII ranges, `+` is one or more.
#[verifier::external_body]
pub(crate) fn matcher_is_match(m: &Matcher, text: &str) -> (r: bool)
    ensures
        r == regex_is_match(m.pattern(), text@),
        m.pattern() == JIRA_KEY_PATTERN@ ==> r == is_jira_key(text@),
        m.pattern() == BRACKET_TAG_PATTERN@ ==> r == starts_with_bracket_key(text@),
{
    m.regex.is_match(text)
}

/// Calls `regex::Regex::captures` and reads the text of group `group` from the
/// result (`Captures::get`, `Match::as_str`). The contract claims that the
/// answer depends on the pattern, the haystack and the group alone, and for the
/// branch pattern and its group 1 states what the crate's syntax documentation
/// gives: the haystack must be `"fb-"`, a key, and then either its end or `'-'`
/// followed by characters other than `'\n'` (`.` does not match `'\n'`, `$` is
/// the end of the haystack); the group is the key.
#[verifier::external_body]
pub(crate) fn matcher_capture(m: &Matcher, text: &str, group: usize) -> (r: Option<String>)
    ensures
        opt_text(r) == regex_capture(m.pattern(), text@, group as int),
        m.pattern() == BRANCH_PATTERN@ && group == 1 ==> opt_text(r) == spec_branch_key(text@),
{
    m.regex.captures(text).and_then(|caps| caps.get(group)).map(|g| g.as_str().to_string())
}

} // verus!
