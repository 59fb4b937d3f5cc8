//! Character-level text utilities: whitespace, trimming and line splitting,
//! stated over the characters of a string.

use vstd::prelude::*;

verus! {

broadcast use vstd::string::group_string_axioms;

/// The view of an optional owned string.
pub open spec fn opt_string_view(o: Option<String>) -> Option<Seq<char>> {
    match o {
        Some(s) => Some(s@),
        None => None,
    }
}

/// The view of an optional string slice.
pub open spec fn opt_str_view(o: Option<&str>) -> Option<Seq<char>> {
    match o {
        Some(s) => Some(s@),
        None => None,
    }
}

/// Unicode `White_Space`: the characters that `char::is_whitespace` accepts.
pub open spec fn is_white_space(c: char) -> bool {
    ||| c == '\t'
    ||| c == '\n'
    ||| c == '\u{0B}'
    ||| c == '\u{0C}'
    ||| c == '\r'
    ||| c == ' '
    ||| c == '\u{85}'
    ||| c == '\u{A0}'
    ||| c == '\u{1680}'
    ||| ('\u{2000}' <= c && c <= '\u{200A}')
    ||| c == '\u{2028}'
    ||| c == '\u{2029}'
    ||| c == '\u{202F}'
    ||| c == '\u{205F}'
    ||| c == '\u{3000}'
}

/// `s` without its leading whitespace.
pub open spec fn trim_start(s: Seq<char>) -> Seq<char>
    decreases s.len(),
{
    if s.len() > 0 && is_white_space(s[0]) {
        trim_start(s.drop_first())
    } else {
        s
    }
}

/// `s` without its trailing whitespace.
pub open spec fn trim_end(s: Seq<char>) -> Seq<char>
    decreases s.len(),
{
    if s.len() > 0 && is_white_space(s.last()) {
        trim_end(s.drop_last())
    } else {
        s
    }
}

/// `s` without leading and trailing whitespace.
pub open spec fn trim(s: Seq<char>) -> Seq<char> {
    trim_end(trim_start(s))
}

/// `s` without all leading copies of `c`.
pub open spec fn trim_start_char(s: Seq<char>, c: char) -> Seq<char>
    decreases s.len(),
{
    if s.len() > 0 && s[0] == c {
        trim_start_char(s.drop_first(), c)
    } else {
        s
    }
}

/// The index of the first occurrence of `c` in `s`, or `s.len()` when there is none.
pub open spec fn index_of_char(s: Seq<char>, c: char) -> nat
    decreases s.len(),
{
    if s.len() == 0 {
        0
    } else if s[0] == c {
        0
    } else {
        1 + index_of_char(s.drop_first(), c)
    }
}

/// The index of the first whitespace character of `s`, or `s.len()` when there is none.
pub open spec fn index_of_white_space(s: Seq<char>) -> nat
    decreases s.len(),
{
    if s.len() == 0 {
        0
    } else if is_white_space(s[0]) {
        0
    } else {
        1 + index_of_white_space(s.drop_first())
    }
}

/// Whether `p` is a prefix of `s`.
pub open spec fn has_prefix(s: Seq<char>, p: Seq<char>) -> bool {
    p.len() <= s.len() && s.take(p.len() as int) == p
}

/// Whether `p` is a suffix of `s`.
pub open spec fn has_suffix(s: Seq<char>, p: Seq<char>) -> bool {
    p.len() <= s.len() && s.skip(s.len() - p.len()) == p
}

/// Whether `pat` occurs in `s` starting at index `i`.
pub open spec fn occurs_at(s: Seq<char>, pat: Seq<char>, i: int) -> bool {
    0 <= i && i + pat.len() <= s.len() && s.subrange(i, i + pat.len()) == pat
}

/// The index of the first occurrence of `pat` in `s`, if any.
pub open spec fn find(s: Seq<char>, pat: Seq<char>) -> Option<int> {
    if exists|i: int| occurs_at(s, pat, i) {
        Some(choose|i: int| occurs_at(s, pat, i) && forall|j: int| 0 <= j < i ==> !occurs_at(s, pat, j))
    } else {
        None
    }
}

/// The lines of `s` as `str::lines` yields them: split at each `'\n'`, with a
/// `'\r'` just before a `'\n'` removed, and no line after a final `'\n'`.
pub open spec fn lines(s: Seq<char>) -> Seq<Seq<char>>
    decreases s.len(),
{
    if s.len() == 0 {
        seq![]
    } else {
        let i = index_of_char(s, '\n');
        if i < s.len() {
            seq![strip_cr(s.take(i as int))] + lines(s.skip(i + 1 as int))
        } else {
            seq![s]
        }
    }
}

/// `line` without one final `'\r'`.
pub open spec fn strip_cr(line: Seq<char>) -> Seq<char> {
    if line.len() > 0 && line.last() == '\r' {
        line.drop_last()
    } else {
        line
    }
}

/// The lines joined by `'\n'`.
pub open spec fn join_with_newline(lines: Seq<Seq<char>>) -> Seq<char>
    decreases lines.len(),
{
    if lines.len() == 0 {
        seq![]
    } else if lines.len() == 1 {
        lines[0]
    } else {
        join_with_newline(lines.drop_last()) + seq!['\n'] + lines.last()
    }
}

/// The text of a file holding these lines: joined by `'\n'`, with a final
/// `'\n'` unless the text is empty.
pub open spec fn file_text(lines: Seq<Seq<char>>) -> Seq<char> {
    let joined = join_with_newline(lines);
    if joined.len() == 0 {
        joined
    } else {
        joined + seq!['\n']
    }
}

// ---------------------------------------------------------------------------
// Lemmas relating indices found by loops to the recursive definitions.

pub proof fn lemma_trim_start_at(s: Seq<char>, i: int)
    requires
        0 <= i <= s.len(),
        forall|j: int| 0 <= j < i ==> is_white_space(#[trigger] s[j]),
        i == s.len() || !is_white_space(s[i]),
    ensures
        trim_start(s) == s.skip(i),
    decreases i,
{
    if i == 0 {
        assert(s.skip(0) =~= s);
    } else {
        assert(is_white_space(s[0]));
        let t = s.drop_first();
        assert forall|j: int| 0 <= j < i - 1 implies is_white_space(#[trigger] t[j]) by {
            assert(t[j] == s[j + 1]);
        }
        lemma_trim_start_at(t, i - 1);
        assert(t.skip(i - 1) =~= s.skip(i));
    }
}

pub proof fn lemma_trim_end_at(s: Seq<char>, k: int)
    requires
        0 <= k <= s.len(),
        forall|j: int| k <= j < s.len() ==> is_white_space(#[trigger] s[j]),
        k == 0 || !is_white_space(s[k - 1]),
    ensures
        trim_end(s) == s.take(k),
    decreases s.len() - k,
{
    if k == s.len() {
        assert(s.take(k) =~= s);
    } else {
        assert(is_white_space(s.last()));
        let t = s.drop_last();
        assert forall|j: int| k <= j < t.len() implies is_white_space(#[trigger] t[j]) by {
            assert(t[j] == s[j]);
        }
        lemma_trim_end_at(t, k);
        assert(t.take(k) =~= s.take(k));
    }
}

pub proof fn lemma_trim_start_char_at(s: Seq<char>, c: char, i: int)
    requires
        0 <= i <= s.len(),
        forall|j: int| 0 <= j < i ==> #[trigger] s[j] == c,
        i == s.len() || s[i] != c,
    ensures
        trim_start_char(s, c) == s.skip(i),
    decreases i,
{
    if i == 0 {
        assert(s.skip(0) =~= s);
    } else {
        assert(s[0] == c);
        let t = s.drop_first();
        assert forall|j: int| 0 <= j < i - 1 implies #[trigger] t[j] == c by {
            assert(t[j] == s[j + 1]);
        }
        lemma_trim_start_char_at(t, c, i - 1);
        assert(t.skip(i - 1) =~= s.skip(i));
    }
}

pub proof fn lemma_index_of_char_at(s: Seq<char>, c: char, i: int)
    requires
        0 <= i <= s.len(),
        forall|j: int| 0 <= j < i ==> #[trigger] s[j] != c,
        i == s.len() || s[i] == c,
    ensures
        index_of_char(s, c) == i,
    decreases i,
{
    if i > 0 {
        let t = s.drop_first();
        assert forall|j: int| 0 <= j < i - 1 implies #[trigger] t[j] != c by {
            assert(t[j] == s[j + 1]);
        }
        lemma_index_of_char_at(t, c, i - 1);
    }
}

pub proof fn lemma_index_of_white_space_at(s: Seq<char>, i: int)
    requires
        0 <= i <= s.len(),
        forall|j: int| 0 <= j < i ==> !is_white_space(#[trigger] s[j]),
        i == s.len() || is_white_space(s[i]),
    ensures
        index_of_white_space(s) == i,
    decreases i,
{
    if i > 0 {
        let t = s.drop_first();
        assert forall|j: int| 0 <= j < i - 1 implies !is_white_space(#[trigger] t[j]) by {
            assert(t[j] == s[j + 1]);
        }
        lemma_index_of_white_space_at(t, i - 1);
    }
}

/// Whether `l` can stand as one line of a file: no `'\n'` in it, and no
/// final `'\r'` that `lines` would remove.
pub open spec fn is_plain_line(l: Seq<char>) -> bool {
    &&& forall|j: int| 0 <= j < l.len() ==> #[trigger] l[j] != '\n'
    &&& (l.len() == 0 || l.last() != '\r')
}

proof fn lemma_join_cons(ls: Seq<Seq<char>>)
    requires
        ls.len() >= 2,
    ensures
        join_with_newline(ls) == ls[0] + seq!['\n'] + join_with_newline(ls.drop_first()),
    decreases ls.len(),
{
    if ls.len() == 2 {
        assert(ls.drop_last() =~= seq![ls[0]]);
        assert(ls.drop_first() =~= seq![ls[1]]);
        assert(join_with_newline(ls.drop_last()) == ls[0]);
        assert(join_with_newline(ls.drop_first()) == ls[1]);
        assert(ls.last() == ls[1]);
    } else {
        lemma_join_cons(ls.drop_last());
        assert(ls.drop_last().drop_first() =~= ls.drop_first().drop_last());
        assert(ls.drop_first().last() == ls.last());
        assert(ls.drop_last()[0] == ls[0]);
        let a = join_with_newline(ls.drop_last().drop_first());
        assert(join_with_newline(ls.drop_first()) == a + seq!['\n'] + ls.last());
        assert(join_with_newline(ls) == (ls[0] + seq!['\n'] + a) + seq!['\n'] + ls.last());
        assert((ls[0] + seq!['\n'] + a) + seq!['\n'] + ls.last() =~= ls[0] + seq!['\n'] + (a
            + seq!['\n'] + ls.last()));
    }
}

proof fn lemma_lines_cons(l: Seq<char>, rest: Seq<char>)
    requires
        is_plain_line(l),
    ensures
        lines(l + seq!['\n'] + rest) == seq![l] + lines(rest),
{
    let s = l + seq!['\n'] + rest;
    assert forall|j: int| 0 <= j < l.len() implies #[trigger] s[j] != '\n' by {
        assert(s[j] == l[j]);
    }
    assert(s[l.len() as int] == '\n');
    lemma_index_of_char_at(s, '\n', l.len() as int);
    assert(s.take(l.len() as int) =~= l);
    assert(s.skip(l.len() + 1 as int) =~= rest);
}

/// Lines each followed by a newline read back as the same lines.
pub proof fn lemma_lines_terminated(ls: Seq<Seq<char>>)
    requires
        ls.len() >= 1,
        forall|k: int| 0 <= k < ls.len() ==> is_plain_line(#[trigger] ls[k]),
    ensures
        lines(join_with_newline(ls) + seq!['\n']) == ls,
    decreases ls.len(),
{
    assert(is_plain_line(ls[0]));
    if ls.len() == 1 {
        lemma_lines_cons(ls[0], seq![]);
        assert(ls[0] + seq!['\n'] + Seq::<char>::empty() =~= join_with_newline(ls) + seq!['\n']);
        assert(lines(Seq::<char>::empty()) =~= Seq::<Seq<char>>::empty());
        assert(seq![ls[0]] + Seq::<Seq<char>>::empty() =~= ls);
    } else {
        let rest = ls.drop_first();
        assert forall|k: int| 0 <= k < rest.len() implies is_plain_line(#[trigger] rest[k]) by {
            assert(rest[k] == ls[k + 1]);
        }
        lemma_lines_terminated(rest);
        lemma_join_cons(ls);
        let tail = join_with_newline(rest) + seq!['\n'];
        lemma_lines_cons(ls[0], tail);
        assert(join_with_newline(ls) + seq!['\n'] =~= ls[0] + seq!['\n'] + tail);
        assert(seq![ls[0]] + rest =~= ls);
    }
}

/// Writing lines to a file and reading them back gives the same lines,
/// for lines that hold no `'\n'` and end in no `'\r'`, except the single
/// empty line, whose file is empty.
pub proof fn lemma_file_text_lines(ls: Seq<Seq<char>>)
    requires
        forall|k: int| 0 <= k < ls.len() ==> is_plain_line(#[trigger] ls[k]),
        !(ls.len() == 1 && ls[0].len() == 0),
    ensures
        lines(file_text(ls)) == ls,
{
    if ls.len() == 0 {
        assert(lines(file_text(ls)) =~= ls);
    } else {
        lemma_lines_terminated(ls);
        if ls.len() >= 2 {
            lemma_join_cons(ls);
        }
        assert(join_with_newline(ls).len() > 0);
    }
}

// ---------------------------------------------------------------------------
// Executable functions.

/// The characters of `s`, in order.
pub fn chars_of(s: &str) -> (v: Vec<char>)
    ensures
        v@ == s@,
{
    let mut v: Vec<char> = Vec::new();
    for c in it: s.chars()
        invariant
            v@ == it.seq().take(it.index()),
            it.seq() == s@,
    {
        v.push(c);
    }
    v
}

/// Whether `c` is Unicode white space (as `char::is_whitespace`).
pub fn is_whitespace(c: char) -> (r: bool)
    ensures
        r == is_white_space(c),
{
    c == '\t' || c == '\n' || c == '\u{0B}' || c == '\u{0C}' || c == '\r' || c == ' ' || c
        == '\u{85}' || c == '\u{A0}' || c == '\u{1680}' || ('\u{2000}' <= c && c <= '\u{200A}')
        || c == '\u{2028}' || c == '\u{2029}' || c == '\u{202F}' || c == '\u{205F}' || c
        == '\u{3000}'
}

/// The index of the first non-whitespace character of `v` at or after `from`, or `v.len()`.
pub fn skip_white_space(v: &Vec<char>, from: usize) -> (i: usize)
    requires
        from <= v.len(),
    ensures
        from <= i <= v.len(),
        forall|j: int| from <= j < i ==> is_white_space(#[trigger] v@[j]),
        i == v.len() || !is_white_space(v@[i as int]),
{
    let mut i = from;
    while i < v.len() && is_whitespace(v[i])
        invariant
            from <= i <= v.len(),
            forall|j: int| from <= j < i ==> is_white_space(#[trigger] v@[j]),
        decreases v.len() - i,
    {
        i = i + 1;
    }
    i
}

/// The end of `v[from..to]` with its trailing whitespace removed.
fn trailing_white_space_start(v: &Vec<char>, from: usize, to: usize) -> (k: usize)
    requires
        from <= to <= v.len(),
    ensures
        from <= k <= to,
        forall|j: int| k <= j < to ==> is_white_space(#[trigger] v@[j]),
        k == from || !is_white_space(v@[k - 1]),
{
    let mut k = to;
    while k > from && is_whitespace(v[k - 1])
        invariant
            from <= k <= to,
            to <= v.len(),
            forall|j: int| k <= j < to ==> is_white_space(#[trigger] v@[j]),
        decreases k,
    {
        k = k - 1;
    }
    k
}

/// `s` without leading whitespace (as `str::trim_start`).
pub fn trim_start_str(s: &str) -> (r: &str)
    ensures
        r@ == trim_start(s@),
{
    let v = chars_of(s);
    let i = skip_white_space(&v, 0);
    proof {
        lemma_trim_start_at(s@, i as int);
    }
    s.substring_char(i, v.len())
}

/// `s` without leading and trailing whitespace (as `str::trim`).
pub fn trim_str(s: &str) -> (r: &str)
    ensures
        r@ == trim(s@),
{
    let v = chars_of(s);
    let i = skip_white_space(&v, 0);
    let k = trailing_white_space_start(&v, i, v.len());
    proof {
        lemma_trim_start_at(s@, i as int);
        let t = s@.skip(i as int);
        assert forall|j: int| (k - i) <= j < t.len() implies is_white_space(#[trigger] t[j]) by {
            assert(t[j] == s@[j + i]);
        }
        if k > i {
            assert(t[k - i - 1] == s@[k - 1]);
        }
        lemma_trim_end_at(t, k - i);
        assert(t.take(k - i) =~= s@.subrange(i as int, k as int));
    }
    s.substring_char(i, k)
}

/// `s` without all leading copies of `c` (as `str::trim_start_matches` with a `char`).
pub fn trim_start_matches_char(s: &str, c: char) -> (r: &str)
    ensures
        r@ == trim_start_char(s@, c),
{
    let v = chars_of(s);
    let mut i: usize = 0;
    while i < v.len() && v[i] == c
        invariant
            i <= v.len(),
            v@ == s@,
            forall|j: int| 0 <= j < i ==> #[trigger] v@[j] == c,
        decreases v.len() - i,
    {
        i = i + 1;
    }
    proof {
        lemma_trim_start_char_at(s@, c, i as int);
    }
    s.substring_char(i, v.len())
}

/// Whether `s` starts with `p`.
pub fn starts_with(s: &str, p: &str) -> (r: bool)
    ensures
        r == has_prefix(s@, p@),
{
    let sv = chars_of(s);
    let pv = chars_of(p);
    if pv.len() > sv.len() {
        return false;
    }
    let mut i: usize = 0;
    while i < pv.len()
        invariant
            i <= pv.len() <= sv.len(),
            sv@ == s@,
            pv@ == p@,
            forall|j: int| 0 <= j < i ==> sv@[j] == pv@[j],
        decreases pv.len() - i,
    {
        if sv[i] != pv[i] {
            proof {
                assert(s@.take(p@.len() as int)[i as int] != p@[i as int]);
            }
            return false;
        }
        i = i + 1;
    }
    assert(s@.take(p@.len() as int) =~= p@);
    true
}

/// Whether `s` ends with `p`.
pub fn ends_with(s: &str, p: &str) -> (r: bool)
    ensures
        r == has_suffix(s@, p@),
{
    let sv = chars_of(s);
    let pv = chars_of(p);
    if pv.len() > sv.len() {
        return false;
    }
    let off = sv.len() - pv.len();
    let mut i: usize = 0;
    while i < pv.len()
        invariant
            i <= pv.len() <= sv.len(),
            off == sv.len() - pv.len(),
            sv@ == s@,
            pv@ == p@,
            forall|j: int| 0 <= j < i ==> sv@[off + j] == pv@[j],
        decreases pv.len() - i,
    {
        if sv[off + i] != pv[i] {
            proof {
                assert(s@.skip(off as int)[i as int] != p@[i as int]);
            }
            return false;
        }
        i = i + 1;
    }
    assert(s@.skip(off as int) =~= p@);
    true
}

/// Whether the two strings hold the same characters.
pub fn str_eq(a: &str, b: &str) -> (r: bool)
    ensures
        r == (a@ == b@),
{
    let av = chars_of(a);
    let bv = chars_of(b);
    if av.len() != bv.len() {
        return false;
    }
    let mut i: usize = 0;
    while i < av.len()
        invariant
            i <= av.len() == bv.len(),
            av@ == a@,
            bv@ == b@,
            forall|j: int| 0 <= j < i ==> av@[j] == bv@[j],
        decreases av.len() - i,
    {
        if av[i] != bv[i] {
            return false;
        }
        i = i + 1;
    }
    assert(a@ =~= b@);
    true
}


/// The views of a sequence of strings.
pub open spec fn views(v: Seq<String>) -> Seq<Seq<char>> {
    v.map_values(|l: String| l@)
}

/// The lines of `s` (as `str::lines`), each as an owned string.
pub fn lines_of(s: &str) -> (r: Vec<String>)
    ensures
        views(r@) == lines(s@),
{
    let v = chars_of(s);
    let n = v.len();
    let mut out: Vec<String> = Vec::new();
    let mut start: usize = 0;
    assert(s@.skip(0) =~= s@);
    assert(views(out@) + lines(s@) =~= lines(s@));
    while start < n
        invariant
            v@ == s@,
            n == v.len(),
            start <= n,
            views(out@) + lines(s@.skip(start as int)) == lines(s@),
        decreases n - start,
    {
        let ghost t = s@.skip(start as int);
        let mut i = start;
        while i < n && v[i] != '\n'
            invariant
                start <= i <= n,
                n == v.len(),
                v@ == s@,
                forall|j: int| start <= j < i ==> #[trigger] v@[j] != '\n',
            decreases n - i,
        {
            i = i + 1;
        }
        proof {
            assert forall|j: int| 0 <= j < i - start implies #[trigger] t[j] != '\n' by {
                assert(t[j] == s@[j + start]);
            }
            if i < n {
                assert(t[i - start] == s@[i as int]);
            }
            lemma_index_of_char_at(t, '\n', i - start);
        }
        let end = if i < n && i > start && v[i - 1] == '\r' {
            i - 1
        } else {
            i
        };
        let line = s.substring_char(start, end).to_owned();
        proof {
            let raw = t.take(i - start);
            assert(raw =~= s@.subrange(start as int, i as int));
            if i < n {
                assert(strip_cr(raw) =~= s@.subrange(start as int, end as int));
            } else {
                assert(t =~= s@.subrange(start as int, end as int));
            }
        }
        let ghost old_out = out@;
        out.push(line);
        proof {
            assert(views(out@) =~= views(old_out).push(line@));
            if i < n {
                assert(t.skip(i - start + 1) =~= s@.skip(i + 1));
                assert(lines(t) == seq![line@] + lines(s@.skip(i + 1)));
                assert(views(out@) + lines(s@.skip(i + 1)) =~= views(old_out) + lines(t));
            } else {
                assert(s@.skip(n as int) =~= Seq::<char>::empty());
                assert(lines(t) == seq![line@]);
                assert(views(out@) + lines(s@.skip(n as int)) =~= views(old_out) + lines(t));
            }
        }
        start = if i < n { i + 1 } else { n };
    }
    assert(s@.skip(n as int) =~= Seq::<char>::empty());
    assert(views(out@) =~= views(out@) + lines(s@.skip(n as int)));
    out
}

/// The text of a file holding `lines`: joined by `'\n'`, with a final `'\n'`
/// unless the text is empty.
pub fn file_text_of(lines: &Vec<String>) -> (r: String)
    ensures
        r@ == file_text(views(lines@)),
{
    let mut r = String::new();
    let mut i: usize = 0;
    while i < lines.len()
        invariant
            i <= lines.len(),
            r@ == join_with_newline(views(lines@).take(i as int)),
        decreases lines.len() - i,
    {
        let ghost before = views(lines@).take(i as int);
        if i > 0 {
            r.append("\n");
        }
        r.append(lines[i].as_str());
        proof {
            let after = views(lines@).take(i + 1);
            assert(after.drop_last() =~= before);
            assert(after.last() == lines@[i as int]@);
            if i == 0 {
                assert(r@ =~= join_with_newline(after));
            } else {
                reveal_strlit("\n");
                assert(r@ =~= join_with_newline(after));
            }
        }
        i = i + 1;
    }
    assert(views(lines@).take(lines.len() as int) =~= views(lines@));
    if r.as_str().unicode_len() > 0 {
        r.append("\n");
        proof {
            reveal_strlit("\n");
        }
    }
    r
}


/// The index of the first occurrence of `pat` in `s` (as `str::find`, counted in characters).
pub fn find_str(s: &str, pat: &str) -> (r: Option<usize>)
    ensures
        match r {
            Some(i) => find(s@, pat@) == Some(i as int) && occurs_at(s@, pat@, i as int),
            None => find(s@, pat@) is None,
        },
{
    let sv = chars_of(s);
    let pv = chars_of(pat);
    if pv.len() > sv.len() {
        assert forall|i: int| !occurs_at(s@, pat@, i) by {}
        return None;
    }
    let last = sv.len() - pv.len();
    let mut i: usize = 0;
    while i <= last
        invariant
            last == sv.len() - pv.len(),
            pv.len() <= sv.len(),
            i <= last + 1,
            sv@ == s@,
            pv@ == pat@,
            forall|j: int| 0 <= j < i ==> !occurs_at(s@, pat@, j),
        decreases last + 1 - i,
    {
        let mut k: usize = 0;
        while k < pv.len() && sv[i + k] == pv[k]
            invariant
                i <= last,
                last == sv.len() - pv.len(),
                k <= pv.len(),
                sv@ == s@,
                pv@ == pat@,
                forall|j: int| 0 <= j < k ==> sv@[i + j] == pv@[j],
            decreases pv.len() - k,
        {
            k = k + 1;
        }
        if k == pv.len() {
            assert(s@.subrange(i as int, i + pat@.len()) =~= pat@);
            proof {
                let f = find(s@, pat@);
                assert(occurs_at(s@, pat@, i as int));
                let c = choose|c: int|
                    occurs_at(s@, pat@, c) && forall|j: int| 0 <= j < c ==> !occurs_at(s@, pat@, j);
                assert(occurs_at(s@, pat@, c) && forall|j: int| 0 <= j < c ==> !occurs_at(s@, pat@, j));
                if c < i {
                    assert(!occurs_at(s@, pat@, c));
                }
                if i < c {
                    assert(!occurs_at(s@, pat@, i as int));
                }
            }
            return Some(i);
        }
        assert(!occurs_at(s@, pat@, i as int)) by {
            if occurs_at(s@, pat@, i as int) {
                assert(s@.subrange(i as int, i + pat@.len())[k as int] == sv@[i + k]);
            }
        }
        i = i + 1;
    }
    assert forall|j: int| !occurs_at(s@, pat@, j) by {
        if 0 <= j && j + pat@.len() <= s@.len() {
            assert(j <= last);
        }
    }
    None
}

/// Whether `v` holds a string equal to `s`.
pub fn contains_str(v: &Vec<String>, s: &str) -> (r: bool)
    ensures
        r == views(v@).contains(s@),
{
    let mut i: usize = 0;
    while i < v.len()
        invariant
            i <= v.len(),
            forall|j: int| 0 <= j < i ==> v@[j]@ != s@,
        decreases v.len() - i,
    {
        if str_eq(v[i].as_str(), s) {
            assert(views(v@)[i as int] == s@);
            return true;
        }
        i = i + 1;
    }
    assert forall|j: int| 0 <= j < views(v@).len() implies views(v@)[j] != s@ by {
        assert(views(v@)[j] == v@[j]@);
    }
    false
}

} // verus!
