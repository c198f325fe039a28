//! Characters, searching and line splitting.
//!
//! The input file is an ordered sequence of lines. Lines are separated by
//! `'\n'`; a `"\r\n"` pair also counts as one separator, in which case the
//! `'\r'` is not part of the line. A final line needs no terminator.

use vstd::prelude::*;

verus! {

/// A whitespace character: the Unicode `White_Space` set, the set that
/// `str::trim` removes.
pub open spec fn is_space_char(c: char) -> bool {
    c == ' ' || c == '\t' || c == '\n' || c == '\u{0B}' || c == '\u{0C}' || c == '\r'
        || c == '\u{85}' || c == '\u{A0}' || c == '\u{1680}' || c == '\u{2000}'
        || c == '\u{2001}' || c == '\u{2002}' || c == '\u{2003}' || c == '\u{2004}'
        || c == '\u{2005}' || c == '\u{2006}' || c == '\u{2007}' || c == '\u{2008}'
        || c == '\u{2009}' || c == '\u{200A}' || c == '\u{2028}' || c == '\u{2029}'
        || c == '\u{202F}' || c == '\u{205F}' || c == '\u{3000}'
}

/// Decides `is_space_char`.
pub fn is_space(c: char) -> (r: bool)
    ensures
        r == is_space_char(c),
{
    c == ' ' || c == '\t' || c == '\n' || c == '\u{0B}' || c == '\u{0C}' || c == '\r'
        || c == '\u{85}' || c == '\u{A0}' || c == '\u{1680}' || c == '\u{2000}'
        || c == '\u{2001}' || c == '\u{2002}' || c == '\u{2003}' || c == '\u{2004}'
        || c == '\u{2005}' || c == '\u{2006}' || c == '\u{2007}' || c == '\u{2008}'
        || c == '\u{2009}' || c == '\u{200A}' || c == '\u{2028}' || c == '\u{2029}'
        || c == '\u{202F}' || c == '\u{205F}' || c == '\u{3000}'
}

/// The index of the first occurrence of `c` in `s`, or `s.len()` when `c`
/// does not occur.
pub open spec fn first_index_of(s: Seq<char>, c: char) -> int
    decreases s.len(),
{
    if s.len() == 0 {
        0
    } else if s[0] == c {
        0
    } else {
        1 + first_index_of(s.drop_first(), c)
    }
}

/// `first_index_of(s, c)` is the unique `j` such that `c` occurs nowhere
/// before `j` and, unless `j` is the length, occurs at `j`.
pub proof fn lemma_first_index_at(s: Seq<char>, c: char, j: int)
    requires
        0 <= j <= s.len(),
        forall|i: int| 0 <= i < j ==> s[i] != c,
        j < s.len() ==> s[j] == c,
    ensures
        first_index_of(s, c) == j,
    decreases s.len(),
{
    if j == 0 {
        if s.len() > 0 {
            assert(s[0] == c);
        }
    } else {
        assert(s[0] != c);
        let t = s.drop_first();
        assert(forall|i: int| 0 <= i < j - 1 ==> t[i] != c);
        lemma_first_index_at(t, c, j - 1);
    }
}

/// Basic bounds and occurrence facts about `first_index_of`.
pub proof fn lemma_first_index_bounds(s: Seq<char>, c: char)
    ensures
        0 <= first_index_of(s, c) <= s.len(),
        first_index_of(s, c) < s.len() ==> s[first_index_of(s, c)] == c,
        forall|i: int| 0 <= i < first_index_of(s, c) ==> s[i] != c,
    decreases s.len(),
{
    if s.len() > 0 && s[0] != c {
        lemma_first_index_bounds(s.drop_first(), c);
        let t = s.drop_first();
        assert(forall|i: int| 0 <= i < first_index_of(s, c) ==> {
            &&& i >= 1 ==> s[i] == t[i - 1]
            &&& s[i] != c
        });
    }
}

/// Finds the least index at or after `from` where `c` occurs in `s`, or
/// `s@.len()` when `c` does not occur there.
pub fn find_char(s: &str, from: usize, c: char) -> (j: usize)
    requires
        from <= s@.len(),
    ensures
        from <= j <= s@.len(),
        forall|i: int| from <= i < j ==> s@[i] != c,
        j < s@.len() ==> s@[j as int] == c,
{
    let n: usize = s.unicode_len();
    let mut j: usize = from;
    while j < n
        invariant
            from <= j <= n,
            n == s@.len(),
            forall|i: int| from <= i < j ==> s@[i] != c,
        decreases n - j,
    {
        if s.get_char(j) == c {
            return j;
        }
        j = j + 1;
    }
    j
}

/// `line` without a single trailing `'\r'`, if it has one.
pub open spec fn strip_trailing_cr(line: Seq<char>) -> Seq<char> {
    if line.len() > 0 && line.last() == '\r' {
        line.drop_last()
    } else {
        line
    }
}

/// The lines of `text`: segments separated by `'\n'`, where a segment that
/// was terminated by `'\n'` loses one trailing `'\r'` (so `"\r\n"` acts as
/// one separator). A terminator after the last segment produces no further,
/// empty line; empty text has no lines at all.
pub open spec fn lines_of(text: Seq<char>) -> Seq<Seq<char>>
    decreases text.len(),
{
    if text.len() == 0 {
        Seq::empty()
    } else {
        let j = first_index_of(text, '\n');
        if 0 <= j < text.len() {
            seq![strip_trailing_cr(text.take(j))] + lines_of(text.skip(j + 1))
        } else {
            seq![text]
        }
    }
}

/// Whether `s` contains no line terminator.
pub open spec fn has_no_newline(s: Seq<char>) -> bool {
    forall|i: int| 0 <= i < s.len() ==> s[i] != '\n'
}

/// No line produced by `lines_of` contains a line terminator.
pub proof fn lemma_lines_have_no_newline(text: Seq<char>)
    ensures
        forall|i: int|
            0 <= i < lines_of(text).len() ==> has_no_newline(#[trigger] lines_of(text)[i]),
    decreases text.len(),
{
    if text.len() > 0 {
        lemma_first_index_bounds(text, '\n');
        let j = first_index_of(text, '\n');
        if j < text.len() {
            let head = strip_trailing_cr(text.take(j));
            assert(has_no_newline(head)) by {
                assert(forall|i: int| 0 <= i < head.len() ==> head[i] == text[i] && head[i] != '\n');
            }
            lemma_lines_have_no_newline(text.skip(j + 1));
            assert(forall|i: int| 0 <= i < lines_of(text).len() ==> has_no_newline(
                #[trigger] lines_of(text)[i],
            )) by {
                assert(forall|i: int|
                    1 <= i < lines_of(text).len() ==> lines_of(text)[i] == lines_of(
                        text.skip(j + 1),
                    )[i - 1]);
            }
        } else {
            assert(has_no_newline(text));
        }
    }
}

/// The views of a sequence of owned strings.
pub open spec fn views_of(lines: Seq<String>) -> Seq<Seq<char>> {
    lines.map_values(|l: String| l@)
}

/// Splits `s` into its lines, as `lines_of` describes.
pub fn split_lines(s: &str) -> (lines: Vec<String>)
    ensures
        views_of(lines@) == lines_of(s@),
{
    let n: usize = s.unicode_len();
    let mut lines: Vec<String> = Vec::new();
    let mut start: usize = 0;
    proof {
        assert(s@.skip(0) =~= s@);
        assert(views_of(lines@) + lines_of(s@) =~= lines_of(s@));
    }
    while start < n
        invariant
            start <= n,
            n == s@.len(),
            lines_of(s@) == views_of(lines@) + lines_of(s@.skip(start as int)),
        decreases n - start,
    {
        let ghost rest = s@.skip(start as int);
        let j = find_char(s, start, '\n');
        if j < n {
            let line = if j > start && s.get_char(j - 1) == '\r' {
                s.substring_char(start, j - 1)
            } else {
                s.substring_char(start, j)
            };
            lines.push(line.to_owned());
            proof {
                assert(forall|i: int| 0 <= i < j - start ==> rest[i] != '\n');
                lemma_first_index_at(rest, '\n', j - start);
                assert(rest.take(j - start) =~= s@.subrange(start as int, j as int));
                assert(line@ =~= strip_trailing_cr(rest.take(j - start)));
                assert(rest.skip(j - start + 1) =~= s@.skip(j + 1));
                assert(views_of(lines@) =~= views_of(lines@.drop_last()) + seq![line@]);
                assert(lines_of(s@) =~= views_of(lines@) + lines_of(s@.skip(j + 1)));
            }
            start = j + 1;
        } else {
            let line = s.substring_char(start, n);
            lines.push(line.to_owned());
            proof {
                assert(forall|i: int| 0 <= i < rest.len() ==> rest[i] != '\n');
                lemma_first_index_at(rest, '\n', rest.len() as int);
                assert(line@ =~= rest);
                assert(views_of(lines@) =~= views_of(lines@.drop_last()) + seq![line@]);
                assert(lines_of(s@) =~= views_of(lines@) + lines_of(s@.skip(n as int)));
            }
            start = n;
        }
    }
    proof {
        assert(s@.skip(start as int) =~= Seq::<char>::empty());
        assert(views_of(lines@) =~= views_of(lines@) + lines_of(s@.skip(start as int)));
    }
    lines
}

} // verus!
