//! The sample generator: the pure transformation from the text of an
//! environment file, plus an override map, to the text of its sanitized
//! sample counterpart.
//!
//! Each input line is handled independently and in order. A comment or
//! blank line is reproduced as it is; any other line yields
//! `NAME=VALUE\n`, where `NAME` is the part of the line before its first
//! `'='` and `VALUE` is the override for `NAME`, or the placeholder
//! `<NAME>` when there is none. Every emitted line ends with `'\n'`,
//! whether or not the source line had a terminator.

use vstd::prelude::*;

use crate::overrides::Overrides;
use crate::text::first_index_of;
use crate::text::find_char;
use crate::text::has_no_newline;
use crate::text::is_space;
use crate::text::is_space_char;
use crate::text::lemma_first_index_at;
use crate::text::lemma_first_index_bounds;
use crate::text::lemma_lines_have_no_newline;
use crate::text::lines_of;
use crate::text::split_lines;
use crate::text::strip_trailing_cr;
use crate::text::views_of;

verus! {

/// A comment line: its very first character is `'#'`, with no trimming.
pub open spec fn is_comment(line: Seq<char>) -> bool {
    line.len() > 0 && line[0] == '#'
}

/// A blank line: every character is whitespace (so also the empty line).
pub open spec fn is_blank(line: Seq<char>) -> bool {
    forall|i: int| 0 <= i < line.len() ==> is_space_char(line[i])
}

/// A line that is reproduced unchanged: a comment or a blank line.
pub open spec fn is_comment_or_blank(line: Seq<char>) -> bool {
    is_comment(line) || is_blank(line)
}

/// The variable name of a line: everything before the first `'='`, or the
/// whole line when it holds no `'='`.
pub open spec fn var_name(line: Seq<char>) -> Seq<char> {
    line.take(first_index_of(line, '='))
}

/// The placeholder emitted for a variable with no override: `<NAME>`.
pub open spec fn placeholder_of(name: Seq<char>) -> Seq<char> {
    seq!['<'] + name + seq!['>']
}

/// The value emitted for a variable: its override, or the placeholder.
pub open spec fn sample_value(name: Seq<char>, m: Map<Seq<char>, Seq<char>>) -> Seq<char> {
    if m.contains_key(name) {
        m[name]
    } else {
        placeholder_of(name)
    }
}

/// One output line (with its terminator) for one input line.
pub open spec fn sample_line(line: Seq<char>, m: Map<Seq<char>, Seq<char>>) -> Seq<char> {
    if is_comment_or_blank(line) {
        line + seq!['\n']
    } else {
        var_name(line) + seq!['='] + sample_value(var_name(line), m) + seq!['\n']
    }
}

/// The concatenation of the output lines for a sequence of input lines.
pub open spec fn render_lines(lines: Seq<Seq<char>>, m: Map<Seq<char>, Seq<char>>) -> Seq<char>
    decreases lines.len(),
{
    if lines.len() == 0 {
        Seq::empty()
    } else {
        sample_line(lines.first(), m) + render_lines(lines.drop_first(), m)
    }
}

/// The sample text for a whole input text: its lines, each transformed,
/// concatenated in order.
pub open spec fn sample_content(text: Seq<char>, m: Map<Seq<char>, Seq<char>>) -> Seq<char> {
    render_lines(lines_of(text), m)
}

/// Rendering distributes over appending one line at the end.
proof fn lemma_render_lines_push(lines: Seq<Seq<char>>, x: Seq<char>, m: Map<Seq<char>, Seq<char>>)
    ensures
        render_lines(lines.push(x), m) == render_lines(lines, m) + sample_line(x, m),
    decreases lines.len(),
{
    if lines.len() == 0 {
        assert(lines.push(x).drop_first() =~= lines);
        assert(render_lines(lines.push(x), m) =~= render_lines(lines, m) + sample_line(x, m));
    } else {
        assert(lines.push(x).drop_first() =~= lines.drop_first().push(x));
        lemma_render_lines_push(lines.drop_first(), x, m);
        assert(render_lines(lines.push(x), m) =~= render_lines(lines, m) + sample_line(x, m));
    }
}

/// A comment or blank line is reproduced unchanged, up to the appended
/// line terminator.
pub proof fn lemma_comment_or_blank_kept(line: Seq<char>, m: Map<Seq<char>, Seq<char>>)
    requires
        is_comment_or_blank(line),
    ensures
        sample_line(line, m) == line + seq!['\n'],
{
}

/// A variable line `NAME=anything` yields `NAME=V\n` when the override map
/// binds `NAME` to `V`, and `NAME=<NAME>\n` otherwise.
pub proof fn lemma_variable_line(line: Seq<char>, m: Map<Seq<char>, Seq<char>>)
    requires
        !is_comment_or_blank(line),
    ensures
        m.contains_key(var_name(line)) ==> sample_line(line, m) == var_name(line) + seq!['=']
            + m[var_name(line)] + seq!['\n'],
        !m.contains_key(var_name(line)) ==> sample_line(line, m) == var_name(line) + seq!['=']
            + placeholder_of(var_name(line)) + seq!['\n'],
{
}

/// The transformation is a function of the input text and the override map
/// alone: two runs on the same input yield identical output.
pub proof fn lemma_generation_deterministic(
    text: Seq<char>,
    m: Map<Seq<char>, Seq<char>>,
    r1: Seq<char>,
    r2: Seq<char>,
)
    requires
        r1 == sample_content(text, m),
        r2 == sample_content(text, m),
    ensures
        r1 == r2,
{
}

/// The output line for a line without a terminator: nonempty, ends with
/// the terminator, and holds no other terminator.
proof fn lemma_sample_line_shape(line: Seq<char>, m: Map<Seq<char>, Seq<char>>)
    requires
        has_no_newline(line),
        forall|k: Seq<char>| m.contains_key(k) ==> has_no_newline(#[trigger] m[k]),
    ensures
        sample_line(line, m).len() > 0,
        sample_line(line, m).last() == '\n',
        has_no_newline(sample_line(line, m).drop_last()),
{
    if is_comment_or_blank(line) {
        assert((line + seq!['\n']).drop_last() =~= line);
    } else {
        let nm = var_name(line);
        let v = sample_value(nm, m);
        lemma_first_index_bounds(line, '=');
        assert(has_no_newline(nm)) by {
            assert(forall|i: int| 0 <= i < nm.len() ==> nm[i] == line[i] && nm[i] != '\n');
        }
        assert(has_no_newline(v)) by {
            if !m.contains_key(nm) {
                assert(forall|i: int| 0 <= i < v.len() ==> v[i] != '\n') by {
                    assert(forall|i: int| 1 <= i < nm.len() + 1 ==> v[i] == nm[i - 1]);
                    assert(v[0] == '<' && v[v.len() - 1] == '>');
                }
            }
        }
        let body = nm + seq!['='] + v;
        assert(has_no_newline(body)) by {
            assert(forall|i: int| 0 <= i < nm.len() ==> body[i] == nm[i]);
            assert(body[nm.len() as int] == '=');
            assert(forall|i: int| nm.len() + 1 <= i < body.len() ==> body[i] == v[i - nm.len() - 1]);
        }
        assert(sample_line(line, m) =~= body + seq!['\n']);
        assert((body + seq!['\n']).drop_last() =~= body);
    }
}

/// Splitting `body + '\n' + rest` peels off exactly the line `body` (less
/// a trailing carriage return) and leaves `rest`.
proof fn lemma_lines_of_chunk(body: Seq<char>, rest: Seq<char>)
    requires
        has_no_newline(body),
    ensures
        lines_of(body + seq!['\n'] + rest) == seq![strip_trailing_cr(body)] + lines_of(rest),
{
    let chunk = body + seq!['\n'] + rest;
    assert(chunk[body.len() as int] == '\n');
    assert(forall|i: int| 0 <= i < body.len() ==> chunk[i] == body[i] && chunk[i] != '\n');
    lemma_first_index_at(chunk, '\n', body.len() as int);
    assert(chunk.take(body.len() as int) =~= body);
    assert(chunk.skip(body.len() as int + 1) =~= rest);
}

/// Rendering a sequence of terminator-free lines yields a text with
/// exactly one line per input line.
proof fn lemma_render_line_count(lines: Seq<Seq<char>>, m: Map<Seq<char>, Seq<char>>)
    requires
        forall|i: int| 0 <= i < lines.len() ==> has_no_newline(#[trigger] lines[i]),
        forall|k: Seq<char>| m.contains_key(k) ==> has_no_newline(#[trigger] m[k]),
    ensures
        lines_of(render_lines(lines, m)).len() == lines.len(),
    decreases lines.len(),
{
    if lines.len() > 0 {
        let sl = sample_line(lines.first(), m);
        lemma_sample_line_shape(lines.first(), m);
        let rest = render_lines(lines.drop_first(), m);
        assert(render_lines(lines, m) =~= sl.drop_last() + seq!['\n'] + rest);
        lemma_lines_of_chunk(sl.drop_last(), rest);
        lemma_render_line_count(lines.drop_first(), m);
    }
}

/// The output has exactly as many lines as the input, whatever the input
/// text, provided no override value smuggles in a line terminator.
pub proof fn lemma_line_count_preserved(text: Seq<char>, m: Map<Seq<char>, Seq<char>>)
    requires
        forall|k: Seq<char>| m.contains_key(k) ==> has_no_newline(#[trigger] m[k]),
    ensures
        lines_of(sample_content(text, m)).len() == lines_of(text).len(),
{
    lemma_lines_have_no_newline(text);
    lemma_render_line_count(lines_of(text), m);
}

/// Decides `is_blank`.
fn is_blank_exec(line: &str) -> (r: bool)
    ensures
        r == is_blank(line@),
{
    let n: usize = line.unicode_len();
    let mut i: usize = 0;
    while i < n
        invariant
            i <= n,
            n == line@.len(),
            forall|k: int| 0 <= k < i ==> is_space_char(line@[k]),
        decreases n - i,
    {
        if !is_space(line.get_char(i)) {
            return false;
        }
        i = i + 1;
    }
    true
}

/// Produces the output line (with its `'\n'` terminator) for one input line.
fn sample_line_exec(line: &str, examples: &Overrides) -> (res: String)
    ensures
        res@ == sample_line(line@, examples@),
{
    let n: usize = line.unicode_len();
    let comment = n > 0 && line.get_char(0) == '#';
    if comment || is_blank_exec(line) {
        let mut out = line.to_owned();
        out.append("\n");
        proof {
            reveal_strlit("\n");
            assert(out@ =~= line@ + seq!['\n']);
        }
        out
    } else {
        let e = find_char(line, 0, '=');
        proof {
            lemma_first_index_at(line@, '=', e as int);
        }
        let name = line.substring_char(0, e).to_owned();
        proof {
            assert(name@ =~= var_name(line@));
        }
        let mut out = name.clone();
        out.append("=");
        match examples.get(&name) {
            Some(v) => {
                out.append(v.as_str());
            },
            None => {
                out.append("<");
                out.append(name.as_str());
                out.append(">");
                proof {
                    reveal_strlit("<");
                    reveal_strlit(">");
                }
            },
        }
        out.append("\n");
        proof {
            reveal_strlit("=");
            reveal_strlit("\n");
            assert(out@ =~= sample_line(line@, examples@));
        }
        out
    }
}

/// Produces the full sample text for the text of an environment file and a
/// map of example values, as `sample_content` describes: one output line
/// per input line, comments and blank lines kept, every value replaced by
/// its override or by the `<NAME>` placeholder.
pub fn create_sample_content(env_file: String, examples: &Overrides) -> (res: String)
    ensures
        res@ == sample_content(env_file@, examples@),
{
    let lines = split_lines(env_file.as_str());
    let ghost line_views = views_of(lines@);
    let mut out = String::new();
    let n: usize = lines.len();
    let mut i: usize = 0;
    proof {
        assert(line_views.take(0) =~= Seq::<Seq<char>>::empty());
    }
    while i < n
        invariant
            i <= n,
            n == lines@.len(),
            line_views == views_of(lines@),
            line_views == lines_of(env_file@),
            out@ == render_lines(line_views.take(i as int), examples@),
        decreases n - i,
    {
        let piece = sample_line_exec(lines[i].as_str(), examples);
        out.append(piece.as_str());
        proof {
            assert(line_views.take(i + 1) =~= line_views.take(i as int).push(line_views[i as int]));
            lemma_render_lines_push(line_views.take(i as int), line_views[i as int], examples@);
        }
        i = i + 1;
    }
    proof {
        assert(line_views.take(n as int) =~= line_views);
    }
    out
}

} // verus!
