//! Character-level text model: whitespace, trimming, line splitting and
//! joining, with the executable routines that compute them.
use vstd::prelude::*;

verus! {

/// `String::push` appends one character.
pub assume_specification[ String::push ](s: &mut String, ch: char)
    ensures
        final(s)@ == old(s)@.push(ch),
;

// ---------------------------------------------------------------------------
// Specifications
// ---------------------------------------------------------------------------

/// The Unicode `White_Space` property: the characters that `char::is_whitespace`
/// accepts and that `str::trim` removes.
pub open spec fn is_space(c: char) -> bool {
    let n = c as u32;
    ||| 0x9 <= n <= 0xd
    ||| n == 0x20
    ||| n == 0x85
    ||| n == 0xa0
    ||| n == 0x1680
    ||| 0x2000 <= n <= 0x200a
    ||| n == 0x2028
    ||| n == 0x2029
    ||| n == 0x202f
    ||| n == 0x205f
    ||| n == 0x3000
}

/// Every character of `s` is whitespace (the empty text is blank).
pub open spec fn is_blank(s: Seq<char>) -> bool {
    forall|i: int| 0 <= i < s.len() ==> is_space(#[trigger] s[i])
}

/// `s` without its leading whitespace.
pub open spec fn trim_start(s: Seq<char>) -> Seq<char>
    decreases s.len(),
{
    if s.len() > 0 && is_space(s[0]) {
        trim_start(s.drop_first())
    } else {
        s
    }
}

/// `s` without its trailing whitespace.
pub open spec fn trim_end(s: Seq<char>) -> Seq<char>
    decreases s.len(),
{
    if s.len() > 0 && is_space(s.last()) {
        trim_end(s.drop_last())
    } else {
        s
    }
}

/// `s` without leading and trailing whitespace, as `str::trim` gives it.
pub open spec fn trim(s: Seq<char>) -> Seq<char> {
    trim_end(trim_start(s))
}

/// The pieces of `s` that lie between `'\n'` characters; there is always at
/// least one piece, the text after the last `'\n'`.
pub open spec fn split_newlines(s: Seq<char>) -> Seq<Seq<char>>
    decreases s.len(),
{
    if s.len() == 0 {
        seq![Seq::<char>::empty()]
    } else {
        let p = split_newlines(s.drop_last());
        if s.last() == '\n' {
            p.push(Seq::<char>::empty())
        } else {
            p.update(p.len() - 1, p.last().push(s.last()))
        }
    }
}

/// A line that was ended by `"\r\n"` loses its `'\r'`.
pub open spec fn strip_cr(l: Seq<char>) -> Seq<char> {
    if l.len() > 0 && l.last() == '\r' {
        l.drop_last()
    } else {
        l
    }
}

/// The lines of `s`, as `str::lines` yields them: `s` is split at each `'\n'`,
/// a line ended by `"\r\n"` loses the `'\r'`, and the final line ending is
/// optional (no empty line follows a trailing `'\n'`).
pub open spec fn lines(s: Seq<char>) -> Seq<Seq<char>> {
    let p = split_newlines(s);
    let ended = p.drop_last().map_values(|l: Seq<char>| strip_cr(l));
    if p.last().len() == 0 {
        ended
    } else {
        ended.push(p.last())
    }
}

/// The lines `ls` joined with `'\n'` between them.
pub open spec fn join_lines(ls: Seq<Seq<char>>) -> Seq<char>
    decreases ls.len(),
{
    if ls.len() == 0 {
        Seq::<char>::empty()
    } else if ls.len() == 1 {
        ls[0]
    } else {
        join_lines(ls.drop_last()) + seq!['\n'] + ls.last()
    }
}

/// The texts that `spans` cut out of `v`.
pub open spec fn texts(v: Seq<char>, spans: Seq<(usize, usize)>) -> Seq<Seq<char>> {
    spans.map_values(|p: (usize, usize)| v.subrange(p.0 as int, p.1 as int))
}

/// Each span of `spans` is a range of `v`.
pub open spec fn spans_within(v: Seq<char>, spans: Seq<(usize, usize)>) -> bool {
    forall|j: int| 0 <= j < spans.len() ==> #[trigger] spans[j].0 <= spans[j].1 <= v.len()
}

// ---------------------------------------------------------------------------
// Lemmas
// ---------------------------------------------------------------------------

/// Trimming leaves no whitespace at either end.
pub proof fn lemma_trim_start_shape(s: Seq<char>)
    ensures
        trim_start(s).len() > 0 ==> !is_space(trim_start(s)[0]),
        trim_start(s).len() <= s.len(),
        s.skip(s.len() - trim_start(s).len()) == trim_start(s),
        is_blank(s.take(s.len() - trim_start(s).len())),
    decreases s.len(),
{
    if s.len() > 0 && is_space(s[0]) {
        lemma_trim_start_shape(s.drop_first());
        let t = trim_start(s.drop_first());
        let k = s.len() - t.len();
        assert(s.drop_first().skip(s.drop_first().len() - t.len()) =~= s.skip(k));
        assert forall|i: int| 0 <= i < k implies is_space(#[trigger] s.take(k)[i]) by {
            if i > 0 {
                assert(s.take(k)[i] == s.drop_first().take(k - 1)[i - 1]);
            }
        }
    } else {
        assert(s.skip(0) =~= s);
    }
}

/// Trimming the end leaves no whitespace there.
pub proof fn lemma_trim_end_shape(s: Seq<char>)
    ensures
        trim_end(s).len() > 0 ==> !is_space(trim_end(s).last()),
        trim_end(s).len() <= s.len(),
        s.take(trim_end(s).len() as int) == trim_end(s),
        is_blank(s.skip(trim_end(s).len() as int)),
    decreases s.len(),
{
    if s.len() > 0 && is_space(s.last()) {
        lemma_trim_end_shape(s.drop_last());
        let t = trim_end(s.drop_last());
        assert(s.drop_last().take(t.len() as int) =~= s.take(t.len() as int));
        assert forall|i: int| 0 <= i < s.len() - t.len() implies is_space(
            #[trigger] s.skip(t.len() as int)[i],
        ) by {
            if i < s.len() - 1 - t.len() {
                assert(s.skip(t.len() as int)[i] == s.drop_last().skip(t.len() as int)[i]);
            }
        }
    } else {
        assert(s.take(s.len() as int) =~= s);
    }
}

/// A text trims to nothing exactly when it is blank.
pub proof fn lemma_trim_empty_iff_blank(s: Seq<char>)
    ensures
        (trim(s).len() == 0) == is_blank(s),
{
    lemma_trim_start_shape(s);
    lemma_trim_end_shape(trim_start(s));
    let a = trim_start(s);
    let k = s.len() - a.len();
    if trim(s).len() == 0 {
        assert forall|i: int| 0 <= i < s.len() implies is_space(#[trigger] s[i]) by {
            if i < k {
                assert(s.take(k)[i] == s[i]);
            } else {
                assert(a.skip(0)[i - k] == s[i]);
            }
        }
    } else {
        let t = trim(s);
        assert(t[0] == a[0]);
        assert(a[0] == s[k]);
        if a.len() > 0 && trim(s).len() > 0 {
            assert(!is_space(s[k]));
        }
    }
}

/// A text without `'\n'` is a single piece.
pub proof fn lemma_split_no_newline(s: Seq<char>)
    requires
        !s.contains('\n'),
    ensures
        split_newlines(s) == seq![s],
    decreases s.len(),
{
    if s.len() > 0 {
        assert(!s.drop_last().contains('\n')) by {
            if s.drop_last().contains('\n') {
                let i = choose|i: int| 0 <= i < s.drop_last().len() && s.drop_last()[i] == '\n';
                assert(s[i] == '\n');
            }
        }
        lemma_split_no_newline(s.drop_last());
        assert(s[s.len() - 1] != '\n');
        assert(s.drop_last().push(s.last()) =~= s);
        assert(split_newlines(s) =~= seq![s]);
    } else {
        assert(s =~= Seq::<char>::empty());
    }
}

/// Prefixing a text that holds no `'\n'` extends its first piece.
pub proof fn lemma_split_prefix(q: Seq<char>, s: Seq<char>)
    requires
        !q.contains('\n'),
    ensures
        split_newlines(q + s) == split_newlines(s).update(0, q + split_newlines(s)[0]),
        split_newlines(s).len() >= 1,
    decreases s.len(),
{
    if s.len() == 0 {
        assert(q + s =~= q);
        lemma_split_no_newline(q);
        assert(q + Seq::<char>::empty() =~= q);
    } else {
        let s1 = s.drop_last();
        lemma_split_prefix(q, s1);
        assert((q + s).drop_last() =~= q + s1);
        assert((q + s).last() == s.last());
        let p = split_newlines(s1);
        if s.last() == '\n' {
            assert(split_newlines(q + s) =~= split_newlines(s).update(0, q + split_newlines(s)[0]));
        } else {
            if p.len() == 1 {
                assert(q + p[0].push(s.last()) =~= (q + p[0]).push(s.last()));
            }
            assert(split_newlines(q + s) =~= split_newlines(s).update(0, q + split_newlines(s)[0]));
        }
    }
}

/// Prefixing a text that holds no line break extends its first line.
pub proof fn lemma_lines_prefix(q: Seq<char>, s: Seq<char>)
    requires
        !q.contains('\n'),
        q.len() > 0,
        q.last() != '\r',
    ensures
        lines(s).len() == 0 ==> lines(q + s) == seq![q],
        lines(s).len() > 0 ==> lines(q + s) == lines(s).update(0, q + lines(s)[0]),
        lines(s).len() == 0 <==> s.len() == 0,
{
    lemma_split_prefix(q, s);
    lemma_split_prefix(Seq::<char>::empty(), s);
    let p = split_newlines(s);
    let pq = split_newlines(q + s);
    lemma_split_nonempty_text(s);
    if p.len() == 1 {
        if p[0].len() == 0 {
            assert(lines(q + s) =~= seq![q]);
        } else {
            assert(lines(q + s) =~= lines(s).update(0, q + lines(s)[0]));
        }
    } else {
        assert(strip_cr(q + p[0]) =~= q + strip_cr(p[0]));
        assert(lines(q + s) =~= lines(s).update(0, q + lines(s)[0]));
    }
}

/// Only the empty text splits into a single empty piece.
pub proof fn lemma_split_nonempty_text(s: Seq<char>)
    ensures
        split_newlines(s).len() >= 1,
        (split_newlines(s).len() == 1 && split_newlines(s)[0].len() == 0) <==> s.len() == 0,
    decreases s.len(),
{
    if s.len() > 0 {
        lemma_split_nonempty_text(s.drop_last());
    }
}


/// No text of `ls` holds the character `c`.
pub open spec fn none_contain(ls: Seq<Seq<char>>, c: char) -> bool {
    forall|i: int| 0 <= i < ls.len() ==> !(#[trigger] ls[i]).contains(c)
}

/// No text of `ls` holds a `'\n'`.
pub open spec fn no_newlines(ls: Seq<Seq<char>>) -> bool {
    none_contain(ls, '\n')
}

/// Appending a text without `'\n'` extends the last piece.
pub proof fn lemma_split_suffix(x: Seq<char>, y: Seq<char>)
    requires
        !y.contains('\n'),
    ensures
        split_newlines(x + y) == split_newlines(x).update(
            split_newlines(x).len() - 1,
            split_newlines(x).last() + y,
        ),
        split_newlines(x).len() >= 1,
    decreases y.len(),
{
    lemma_split_nonempty_text(x);
    if y.len() == 0 {
        assert(x + y =~= x);
        assert(split_newlines(x).last() + y =~= split_newlines(x).last());
        assert(split_newlines(x).update(split_newlines(x).len() - 1, split_newlines(x).last())
            =~= split_newlines(x));
    } else {
        let y1 = y.drop_last();
        assert(!y1.contains('\n')) by {
            if y1.contains('\n') {
                let i = choose|i: int| 0 <= i < y1.len() && y1[i] == '\n';
                assert(y[i] == '\n');
            }
        }
        lemma_split_suffix(x, y1);
        assert((x + y).drop_last() =~= x + y1);
        assert((x + y).last() == y.last());
        assert(y[y.len() - 1] != '\n');
        assert((split_newlines(x).last() + y1).push(y.last()) =~= split_newlines(x).last() + y);
        assert(split_newlines(x + y) =~= split_newlines(x).update(
            split_newlines(x).len() - 1,
            split_newlines(x).last() + y,
        ));
    }
}

/// Lines without `'\n'` joined by `'\n'` split back into themselves.
pub proof fn lemma_split_join(ls: Seq<Seq<char>>)
    requires
        ls.len() >= 1,
        no_newlines(ls),
    ensures
        split_newlines(join_lines(ls)) == ls,
    decreases ls.len(),
{
    if ls.len() == 1 {
        assert(!ls[0].contains('\n'));
        lemma_split_no_newline(ls[0]);
        assert(seq![ls[0]] =~= ls);
    } else {
        let front = ls.drop_last();
        assert(no_newlines(front)) by {
            assert forall|i: int| 0 <= i < front.len() implies !(#[trigger] front[i]).contains(
                '\n',
            ) by {
                assert(front[i] == ls[i]);
            }
        }
        lemma_split_join(front);
        let a = join_lines(front) + seq!['\n'];
        assert(a.drop_last() =~= join_lines(front));
        assert(split_newlines(a) == split_newlines(join_lines(front)).push(Seq::<char>::empty()));
        assert(!ls.last().contains('\n'));
        lemma_split_suffix(a, ls.last());
        assert(Seq::<char>::empty() + ls.last() =~= ls.last());
        assert(split_newlines(a + ls.last()) =~= ls);
    }
}

/// The pieces of a text hold no `'\n'`, nor any character the text lacks.
pub proof fn lemma_split_avoids(s: Seq<char>, c: char)
    requires
        c == '\n' || !s.contains(c),
    ensures
        none_contain(split_newlines(s), c),
    decreases s.len(),
{
    if s.len() > 0 {
        assert(c == '\n' || !s.drop_last().contains(c)) by {
            if c != '\n' && s.drop_last().contains(c) {
                let i = choose|i: int| 0 <= i < s.drop_last().len() && s.drop_last()[i] == c;
                assert(s[i] == c);
            }
        }
        lemma_split_avoids(s.drop_last(), c);
        lemma_split_nonempty_text(s.drop_last());
        let p = split_newlines(s.drop_last());
        if s.last() != '\n' {
            let l = p.last().push(s.last());
            assert(s.last() != c) by {
                if c != '\n' {
                    assert(s[s.len() - 1] == s.last());
                }
            }
            assert(!l.contains(c)) by {
                if l.contains(c) {
                    let i = choose|i: int| 0 <= i < l.len() && l[i] == c;
                    assert(!p[p.len() - 1].contains(c));
                    if i < l.len() - 1 {
                        assert(p.last()[i] == c);
                    }
                }
            }
        }
        assert forall|i: int| 0 <= i < split_newlines(s).len() implies !(
        #[trigger] split_newlines(s)[i]).contains(c) by {
            if i < p.len() - 1 {
                assert(split_newlines(s)[i] == p[i]);
            } else if i == p.len() - 1 && s.last() == '\n' {
                assert(split_newlines(s)[i] == p[i]);
            }
        }
    }
}

/// The lines of a text hold no `'\n'`, nor any character the text lacks.
pub proof fn lemma_lines_avoid(s: Seq<char>, c: char)
    requires
        c == '\n' || !s.contains(c),
    ensures
        none_contain(lines(s), c),
{
    lemma_split_avoids(s, c);
    lemma_split_nonempty_text(s);
    let p = split_newlines(s);
    assert forall|i: int| 0 <= i < lines(s).len() implies !(#[trigger] lines(s)[i]).contains(
        c,
    ) by {
        if i < p.len() - 1 {
            let l = p[i];
            assert(!l.contains(c));
            if strip_cr(l).contains(c) {
                let j = choose|j: int| 0 <= j < strip_cr(l).len() && strip_cr(l)[j] == c;
                assert(l[j] == c);
            }
        } else {
            assert(lines(s)[i] == p.last());
        }
    }
}

/// Extending the last of some lines extends their join.
pub proof fn lemma_join_extend_last(q: Seq<Seq<char>>, y: Seq<char>)
    requires
        q.len() >= 1,
    ensures
        join_lines(q.update(q.len() - 1, q.last() + y)) == join_lines(q) + y,
{
    let u = q.update(q.len() - 1, q.last() + y);
    if q.len() == 1 {
    } else {
        assert(u.drop_last() =~= q.drop_last());
        assert(join_lines(u) =~= join_lines(q) + y);
    }
}

/// Joining the pieces of a text with `'\n'` gives the text back.
pub proof fn lemma_join_split(s: Seq<char>)
    ensures
        join_lines(split_newlines(s)) == s,
    decreases s.len(),
{
    if s.len() == 0 {
        assert(join_lines(split_newlines(s)) =~= s);
    } else {
        let s1 = s.drop_last();
        lemma_join_split(s1);
        lemma_split_nonempty_text(s1);
        let p = split_newlines(s1);
        if s.last() == '\n' {
            let q = p.push(Seq::<char>::empty());
            assert(q.drop_last() =~= p);
            assert(join_lines(q) =~= s1 + seq!['\n'] + Seq::<char>::empty());
            assert(s1.push('\n') =~= s);
            assert(s1 + seq!['\n'] + Seq::<char>::empty() =~= s);
        } else {
            lemma_join_extend_last(p, seq![s.last()]);
            assert(p.last() + seq![s.last()] =~= p.last().push(s.last()));
            assert(s1 + seq![s.last()] =~= s);
        }
    }
}

/// A text whose last piece is not empty does not end in `'\n'`.
pub proof fn lemma_last_piece_nonempty(s: Seq<char>)
    requires
        split_newlines(s).last().len() > 0,
    ensures
        s.len() > 0,
        s.last() != '\n',
{
    if s.len() == 0 {
        assert(split_newlines(s).last().len() == 0);
    }
}

/// Whitespace added at the end does not change what a text trims to.
pub proof fn lemma_trim_push_space(l: Seq<char>, x: char)
    requires
        is_space(x),
    ensures
        trim(l.push(x)) == trim(l),
        is_blank(l.push(x)) == is_blank(l),
    decreases l.len(),
{
    let m = l.push(x);
    if l.len() == 0 {
        assert(m.drop_first() =~= Seq::<char>::empty());
        assert(trim_start(m) == trim_start(Seq::<char>::empty()));
        assert(trim_start(Seq::<char>::empty()) =~= Seq::<char>::empty());
        assert(trim(m) =~= Seq::<char>::empty());
        assert(l =~= Seq::<char>::empty());
    } else if is_space(l[0]) {
        assert(m.drop_first() =~= l.drop_first().push(x));
        lemma_trim_push_space(l.drop_first(), x);
        assert(trim_start(m) == trim_start(l.drop_first().push(x)));
        assert(trim_start(l) == trim_start(l.drop_first()));
    } else {
        assert(trim_start(m) == m);
        assert(trim_start(l) == l);
        assert(m.drop_last() =~= l);
        assert(m.last() == x);
        assert(trim_end(m) == trim_end(l));
    }
    if is_blank(l) {
        assert forall|i: int| 0 <= i < m.len() implies is_space(#[trigger] m[i]) by {
            if i < l.len() {
                assert(m[i] == l[i]);
            }
        }
    }
    if is_blank(m) {
        assert forall|i: int| 0 <= i < l.len() implies is_space(#[trigger] l[i]) by {
            assert(m[i] == l[i]);
        }
    }
}

/// Dropping the `'\r'` of a line ending changes neither trim nor blankness.
pub proof fn lemma_strip_cr_trim(l: Seq<char>)
    ensures
        trim(strip_cr(l)) == trim(l),
        is_blank(strip_cr(l)) == is_blank(l),
{
    if l.len() > 0 && l.last() == '\r' {
        assert(l.drop_last().push('\r') =~= l);
        lemma_trim_push_space(l.drop_last(), '\r');
    }
}

// ---------------------------------------------------------------------------
// Executable routines
// ---------------------------------------------------------------------------

/// Whether `c` is whitespace.
pub fn is_space_char(c: char) -> (b: bool)
    ensures
        b == is_space(c),
{
    let n = c as u32;
    (0x9 <= n && n <= 0xd) || n == 0x20 || n == 0x85 || n == 0xa0 || n == 0x1680 || (0x2000 <= n
        && n <= 0x200a) || n == 0x2028 || n == 0x2029 || n == 0x202f || n == 0x205f || n == 0x3000
}

/// The characters of `s`.
pub fn chars_of(s: &str) -> (v: Vec<char>)
    ensures
        v@ == s@,
{
    let mut v: Vec<char> = Vec::new();
    for c in it: s.chars()
        invariant
            v@ == it.seq().take(it.index()),
    {
        v.push(c);
    }
    v
}

/// The characters `v[lo..hi]` as a `String`.
pub fn string_of(v: &Vec<char>, lo: usize, hi: usize) -> (s: String)
    requires
        lo <= hi <= v.len(),
    ensures
        s@ == v@.subrange(lo as int, hi as int),
{
    let mut s = String::new();
    let mut i = lo;
    while i < hi
        invariant
            lo <= i <= hi <= v.len(),
            s@ == v@.subrange(lo as int, i as int),
        decreases hi - i,
    {
        s.push(v[i]);
        i += 1;
        assert(s@ =~= v@.subrange(lo as int, i as int));
    }
    s
}

/// Whether `v[lo..hi]` is blank.
pub fn blank_range(v: &Vec<char>, lo: usize, hi: usize) -> (b: bool)
    requires
        lo <= hi <= v.len(),
    ensures
        b == is_blank(v@.subrange(lo as int, hi as int)),
{
    let mut i = lo;
    while i < hi
        invariant
            lo <= i <= hi <= v.len(),
            is_blank(v@.subrange(lo as int, i as int)),
        decreases hi - i,
    {
        if !is_space_char(v[i]) {
            assert(v@.subrange(lo as int, hi as int)[i - lo] == v[i as int]);
            return false;
        }
        i += 1;
        assert forall|j: int| 0 <= j < i - lo implies is_space(
            #[trigger] v@.subrange(lo as int, i as int)[j],
        ) by {
            if j < i - 1 - lo {
                assert(v@.subrange(lo as int, i as int)[j] == v@.subrange(
                    lo as int,
                    i - 1,
                )[j]);
            }
        }
    }
    true
}

/// Whether `v[lo..hi]` is the text `t`.
pub fn equal_range(v: &Vec<char>, lo: usize, hi: usize, t: &Vec<char>) -> (b: bool)
    requires
        lo <= hi <= v.len(),
    ensures
        b == (v@.subrange(lo as int, hi as int) == t@),
{
    if hi - lo != t.len() {
        return false;
    }
    let mut i: usize = 0;
    while i < t.len()
        invariant
            lo <= hi <= v.len(),
            hi - lo == t.len(),
            i <= t.len(),
            forall|j: int| 0 <= j < i ==> v@[lo + j] == t@[j],
        decreases t.len() - i,
    {
        if v[lo + i] != t[i] {
            assert(v@.subrange(lo as int, hi as int)[i as int] != t@[i as int]);
            return false;
        }
        i += 1;
    }
    assert(v@.subrange(lo as int, hi as int) =~= t@);
    true
}

/// Whether `p` is a prefix of `v`.
pub fn starts_with_chars(v: &Vec<char>, p: &Vec<char>) -> (b: bool)
    ensures
        b == p@.is_prefix_of(v@),
{
    if p.len() > v.len() {
        return false;
    }
    equal_range(v, 0, p.len(), p)
}

/// The bounds of `v[lo..hi]` with its leading and trailing whitespace left out.
pub fn trim_range(v: &Vec<char>, lo: usize, hi: usize) -> (r: (usize, usize))
    requires
        lo <= hi <= v.len(),
    ensures
        lo <= r.0 <= r.1 <= hi,
        v@.subrange(r.0 as int, r.1 as int) == trim(v@.subrange(lo as int, hi as int)),
{
    let mut a = lo;
    while a < hi && is_space_char(v[a])
        invariant
            lo <= a <= hi <= v.len(),
            trim_start(v@.subrange(lo as int, hi as int)) == trim_start(
                v@.subrange(a as int, hi as int),
            ),
        decreases hi - a,
    {
        assert(v@.subrange(a as int, hi as int).drop_first() =~= v@.subrange(a + 1, hi as int));
        a += 1;
    }
    assert(trim_start(v@.subrange(a as int, hi as int)) == v@.subrange(a as int, hi as int));
    let mut b = hi;
    while b > a && is_space_char(v[b - 1])
        invariant
            lo <= a <= b <= hi <= v.len(),
            trim_end(v@.subrange(a as int, hi as int)) == trim_end(
                v@.subrange(a as int, b as int),
            ),
        decreases b - a,
    {
        assert(v@.subrange(a as int, b as int).drop_last() =~= v@.subrange(a as int, b - 1));
        b -= 1;
    }
    (a, b)
}

/// The spans of the lines of `v` (see [`lines`]).
pub fn line_spans(v: &Vec<char>) -> (r: Vec<(usize, usize)>)
    ensures
        spans_within(v@, r@),
        texts(v@, r@) == lines(v@),
{
    let mut spans: Vec<(usize, usize)> = Vec::new();
    let mut start: usize = 0;
    let mut i: usize = 0;
    while i < v.len()
        invariant
            start <= i <= v.len(),
            spans@.len() + 1 == split_newlines(v@.take(i as int)).len(),
            spans_within(v@, spans@),
            forall|j: int|
                0 <= j < spans@.len() ==> #[trigger] v@.subrange(
                    spans@[j].0 as int,
                    spans@[j].1 as int,
                ) == strip_cr(split_newlines(v@.take(i as int))[j]),
            split_newlines(v@.take(i as int)).last() == v@.subrange(start as int, i as int),
        decreases v.len() - i,
    {
        let ghost p = split_newlines(v@.take(i as int));
        assert(v@.take(i + 1).drop_last() =~= v@.take(i as int));
        assert(v@.take(i + 1).last() == v@[i as int]);
        if v[i] == '\n' {
            let mut end = i;
            if end > start && v[end - 1] == '\r' {
                end = end - 1;
            }
            proof {
                let l = v@.subrange(start as int, i as int);
                if i > start && v@[i - 1] == '\r' {
                    assert(l.drop_last() =~= v@.subrange(start as int, end as int));
                } else {
                    assert(l =~= v@.subrange(start as int, end as int));
                }
                assert(strip_cr(l) == v@.subrange(start as int, end as int));
            }
            spans.push((start, end));
            start = i + 1;
            i += 1;
            proof {
                let p2 = split_newlines(v@.take(i as int));
                assert(p2 == p.push(Seq::<char>::empty()));
                assert(v@.subrange(start as int, i as int) =~= Seq::<char>::empty());
                assert forall|j: int| 0 <= j < spans@.len() implies #[trigger] v@.subrange(
                    spans@[j].0 as int,
                    spans@[j].1 as int,
                ) == strip_cr(p2[j]) by {
                    if j < spans@.len() - 1 {
                        assert(p2[j] == p[j]);
                    }
                }
            }
        } else {
            i += 1;
            proof {
                let p2 = split_newlines(v@.take(i as int));
                assert(p2 == p.update(p.len() - 1, p.last().push(v@[i - 1])));
                assert(v@.subrange(start as int, i as int) =~= v@.subrange(
                    start as int,
                    i - 1,
                ).push(v@[i - 1]));
                assert forall|j: int| 0 <= j < spans@.len() implies #[trigger] v@.subrange(
                    spans@[j].0 as int,
                    spans@[j].1 as int,
                ) == strip_cr(p2[j]) by {
                    assert(p2[j] == p[j]);
                }
            }
        }
    }
    assert(v@.take(v.len() as int) =~= v@);
    let ghost p = split_newlines(v@);
    if start < v.len() {
        spans.push((start, v.len()));
    }
    proof {
        let ended = p.drop_last().map_values(|l: Seq<char>| strip_cr(l));
        if start < v.len() {
            assert(texts(v@, spans@) =~= ended.push(p.last()));
        } else {
            assert(texts(v@, spans@) =~= ended);
        }
    }
    spans
}

/// The texts that `spans` cut out of `v`, joined with `'\n'` between them.
pub fn join_spans(v: &Vec<char>, spans: &Vec<(usize, usize)>) -> (out: Vec<char>)
    requires
        spans_within(v@, spans@),
    ensures
        out@ == join_lines(texts(v@, spans@)),
{
    let mut out: Vec<char> = Vec::new();
    let mut j: usize = 0;
    while j < spans.len()
        invariant
            j <= spans.len(),
            spans_within(v@, spans@),
            out@ == join_lines(texts(v@, spans@.take(j as int))),
        decreases spans.len() - j,
    {
        let (lo, hi) = spans[j];
        assert(lo <= hi <= v.len());
        if j > 0 {
            out.push('\n');
        }
        let mut i = lo;
        let ghost before = out@;
        while i < hi
            invariant
                lo <= i <= hi <= v.len(),
                out@ == before + v@.subrange(lo as int, i as int),
            decreases hi - i,
        {
            out.push(v[i]);
            i += 1;
            assert(out@ =~= before + v@.subrange(lo as int, i as int));
        }
        proof {
            let t = texts(v@, spans@.take(j + 1));
            assert(t.drop_last() =~= texts(v@, spans@.take(j as int)));
            assert(t.last() == v@.subrange(lo as int, hi as int));
            if j == 0 {
                assert(out@ =~= t[0]);
            } else {
                assert(out@ =~= join_lines(t.drop_last()) + seq!['\n'] + t.last());
            }
        }
        j += 1;
    }
    assert(spans@.take(spans.len() as int) =~= spans@);
    out
}

} // verus!
