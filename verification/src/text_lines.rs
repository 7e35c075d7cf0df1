//! Splitting text into lines at `'\n'`, exactly as `str::split('\n')` does:
//! `n` newlines give `n + 1` lines, and an empty text is one empty line.
use vstd::prelude::*;

verus! {

/// The lines of `s`, separated by `'\n'`.
pub open spec fn split_lines(s: Seq<char>) -> Seq<Seq<char>>
    decreases s.len(),
{
    if s.len() == 0 {
        seq![Seq::<char>::empty()]
    } else {
        let init = split_lines(s.drop_last());
        if s.last() == '\n' {
            init.push(Seq::<char>::empty())
        } else {
            init.update(init.len() - 1, init.last().push(s.last()))
        }
    }
}

/// The lines joined back together with `'\n'` between each pair.
pub open spec fn join_lines(lines: Seq<Seq<char>>) -> Seq<char>
    decreases lines.len(),
{
    if lines.len() == 0 {
        Seq::<char>::empty()
    } else if lines.len() == 1 {
        lines[0]
    } else {
        join_lines(lines.drop_last()) + seq!['\n'] + lines.last()
    }
}

/// The number of `'\n'` characters in `s`.
pub open spec fn newline_count(s: Seq<char>) -> nat
    decreases s.len(),
{
    if s.len() == 0 {
        0
    } else {
        newline_count(s.drop_last()) + if s.last() == '\n' { 1nat } else { 0nat }
    }
}

/// Every text has at least one line, and one more line than it has newlines.
pub proof fn lemma_line_count(s: Seq<char>)
    ensures
        split_lines(s).len() == newline_count(s) + 1,
    decreases s.len(),
{
    if s.len() > 0 {
        lemma_line_count(s.drop_last());
    }
}

/// Joining the lines of a text with `'\n'` gives the text back.
pub proof fn law_join_split(s: Seq<char>)
    ensures
        join_lines(split_lines(s)) == s,
    decreases s.len(),
{
    if s.len() > 0 {
        let p = s.drop_last();
        let c = s.last();
        let lines = split_lines(p);
        law_join_split(p);
        lemma_line_count(p);
        assert(s == p.push(c));
        if c == '\n' {
            let out = lines.push(Seq::<char>::empty());
            assert(out.drop_last() == lines);
            assert(join_lines(out) == join_lines(lines) + seq!['\n'] + Seq::<char>::empty());
        } else {
            let out = lines.update(lines.len() - 1, lines.last().push(c));
            if lines.len() == 1 {
                assert(join_lines(out) == out[0]);
            } else {
                assert(out.drop_last() == lines.drop_last());
                assert(join_lines(out) == join_lines(lines.drop_last()) + seq!['\n'] + out.last());
                assert(join_lines(lines) == join_lines(lines.drop_last()) + seq!['\n'] + lines.last());
            }
        }
    }
}

/// No line contains a newline.
pub proof fn law_lines_have_no_newline(s: Seq<char>, i: int)
    requires
        0 <= i < split_lines(s).len(),
    ensures
        !split_lines(s)[i].contains('\n'),
    decreases s.len(),
{
    if s.len() > 0 {
        let p = s.drop_last();
        lemma_line_count(p);
        let lines = split_lines(p);
        if s.last() == '\n' {
            if i < lines.len() {
                law_lines_have_no_newline(p, i);
            }
        } else {
            law_lines_have_no_newline(p, i);
            if i == lines.len() - 1 {
                let l = lines.last().push(s.last());
                assert forall|j: int| 0 <= j < l.len() implies l[j] != '\n' by {
                    if j < l.len() - 1 {
                        assert(l[j] == lines.last()[j]);
                    }
                }
            }
        }
    }
}

/// Appending characters never changes a line that is already closed by a newline.
proof fn lemma_closed_lines_stable(s: Seq<char>, t: Seq<char>, j: int)
    requires
        s.is_prefix_of(t),
        0 <= j < split_lines(s).len() - 1,
    ensures
        split_lines(t).len() >= split_lines(s).len(),
        split_lines(t)[j] == split_lines(s)[j],
    decreases t.len() - s.len(),
{
    if t.len() > s.len() {
        let u = t.drop_last();
        assert(s.is_prefix_of(u)) by {
            assert forall|k: int| 0 <= k < s.len() implies s[k] == u[k] by {
                assert(s[k] == t[k]);
            }
        }
        lemma_closed_lines_stable(s, u, j);
    } else {
        assert(s == t);
    }
}

/// The characters of `s`, in order.
pub fn chars_of(s: &str) -> (v: Vec<char>)
    ensures
        v@ == s@,
{
    let mut v: Vec<char> = Vec::new();
    for c in it: s.chars()
        invariant
            v@ == it.seq().take(it.index() as int),
            it.seq() == s@,
    {
        v.push(c);
    }
    v
}

/// How many lines `chars` splits into.
pub fn count_lines(chars: &Vec<char>) -> (n: usize)
    requires
        chars@.len() < usize::MAX,
    ensures
        n == split_lines(chars@).len(),
{
    let mut n: usize = 1;
    let mut i: usize = 0;
    while i < chars.len()
        invariant
            i <= chars@.len() < usize::MAX,
            n == split_lines(chars@.take(i as int)).len(),
            1 <= n <= i + 1,
        decreases chars@.len() - i,
    {
        let ghost p = chars@.take(i as int);
        assert(chars@.take(i + 1).drop_last() == p);
        proof {
            lemma_line_count(p);
        }
        if chars[i] == '\n' {
            n = n + 1;
        }
        i = i + 1;
    }
    assert(chars@.take(i as int) == chars@);
    n
}

/// Where line `k` of `chars` starts and ends, as character positions.
pub fn line_bounds(chars: &Vec<char>, k: usize) -> (r: (usize, usize))
    requires
        k < split_lines(chars@).len(),
    ensures
        r.0 <= r.1 <= chars@.len(),
        chars@.subrange(r.0 as int, r.1 as int) == split_lines(chars@)[k as int],
{
    let mut line: usize = 0;
    let mut start: usize = 0;
    let mut i: usize = 0;
    while i < chars.len()
        invariant
            start <= i <= chars@.len(),
            line <= k,
            split_lines(chars@.take(i as int)).len() == line + 1,
            split_lines(chars@.take(i as int)).last() == chars@.subrange(start as int, i as int),
            k < split_lines(chars@).len(),
        decreases chars@.len() - i,
    {
        let ghost p = chars@.take(i as int);
        let ghost q = chars@.take(i + 1);
        assert(q.drop_last() == p);
        proof {
            lemma_line_count(p);
        }
        if chars[i] == '\n' {
            if line == k {
                assert(split_lines(q).len() == line + 2);
                assert(split_lines(q)[k as int] == split_lines(p)[k as int]);
                assert(chars@.take(i as int).is_prefix_of(chars@));
                proof {
                    lemma_closed_lines_stable(q, chars@, k as int);
                }
                return (start, i);
            }
            line = line + 1;
            start = i + 1;
            assert(split_lines(q).last() == chars@.subrange(start as int, (i + 1) as int));
        } else {
            assert(chars@.subrange(start as int, (i + 1) as int) == chars@.subrange(
                start as int,
                i as int,
            ).push(chars[i as int]));
        }
        i = i + 1;
    }
    assert(chars@.take(i as int) == chars@);
    (start, i)
}

/// Whether `chars` holds a NUL character.
pub fn has_nul(chars: &Vec<char>) -> (r: bool)
    ensures
        r == chars@.contains('\0'),
{
    let mut i: usize = 0;
    while i < chars.len()
        invariant
            i <= chars@.len(),
            forall|j: int| 0 <= j < i ==> chars@[j] != '\0',
        decreases chars@.len() - i,
    {
        if chars[i] == '\0' {
            assert(chars@[i as int] == '\0');
            return true;
        }
        i = i + 1;
    }
    false
}

/// How many lines `text` splits into.
pub fn line_count(text: &str) -> (n: usize)
    requires
        text@.len() < usize::MAX,
    ensures
        n == split_lines(text@).len(),
{
    let chars = chars_of(text);
    count_lines(&chars)
}

/// Line `k` of `text`.
pub fn line_at(text: &str, k: usize) -> (line: String)
    requires
        k < split_lines(text@).len(),
    ensures
        line@ == split_lines(text@)[k as int],
{
    let chars = chars_of(text);
    let (start, end) = line_bounds(&chars, k);
    text.substring_char(start, end).to_owned()
}

/// The characters held by each string of a vector.
pub open spec fn views_of(v: Seq<String>) -> Seq<Seq<char>> {
    v.map_values(|s: String| s@)
}

/// The lines of `text`, as `text.split('\n')` yields them.
pub fn lines_of(text: &str) -> (lines: Vec<String>)
    ensures
        views_of(lines@) == split_lines(text@),
{
    let chars = chars_of(text);
    let mut lines: Vec<String> = Vec::new();
    let mut start: usize = 0;
    let mut i: usize = 0;
    while i < chars.len()
        invariant
            chars@ == text@,
            start <= i <= chars@.len(),
            views_of(lines@) == split_lines(chars@.take(i as int)).drop_last(),
            split_lines(chars@.take(i as int)).last() == chars@.subrange(start as int, i as int),
        decreases chars@.len() - i,
    {
        let ghost p = chars@.take(i as int);
        let ghost q = chars@.take(i + 1);
        assert(q.drop_last() == p);
        proof {
            lemma_line_count(p);
        }
        if chars[i] == '\n' {
            let line = text.substring_char(start, i).to_owned();
            lines.push(line);
            assert(views_of(lines@) == views_of(lines@).drop_last().push(line@));
            assert(split_lines(q).drop_last() == split_lines(p));
            assert(split_lines(p) == split_lines(p).drop_last().push(split_lines(p).last()));
            start = i + 1;
            assert(split_lines(q).last() == chars@.subrange(start as int, (i + 1) as int));
        } else {
            assert(chars@.subrange(start as int, (i + 1) as int) == chars@.subrange(
                start as int,
                i as int,
            ).push(chars[i as int]));
            assert(split_lines(q).drop_last() == split_lines(p).drop_last());
        }
        i = i + 1;
    }
    assert(chars@.take(i as int) == chars@);
    proof {
        lemma_line_count(chars@);
    }
    let last = text.substring_char(start, i).to_owned();
    lines.push(last);
    assert(views_of(lines@) == views_of(lines@).drop_last().push(last@));
    assert(split_lines(chars@) == split_lines(chars@).drop_last().push(split_lines(chars@).last()));
    lines
}

} // verus!
