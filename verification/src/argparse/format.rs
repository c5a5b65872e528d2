//! The help and usage texts of an argument parser (`HelpFormatter`).

use vstd::prelude::*;

use crate::argparse::{
    char_views, invocation, is_positional, join, join_chars, usage_part, Argument, ArgumentParser,
};
use crate::pystr::{backslashreplace, PyStr};
use crate::text::{chars_of, pad_right, push_all, push_str, string_of};

verus! {

/// The `HelpFormatter` width for a terminal of `columns` columns
/// (`columns - 2`, saturating).
pub open spec fn spec_formatter_width(columns: i64) -> int {
    if columns - 2 < i64::MIN {
        i64::MIN as int
    } else {
        columns - 2
    }
}

/// The `HelpFormatter` width for a terminal of `columns` columns.
pub fn formatter_width(columns: i64) -> (r: i64)
    ensures
        r == spec_formatter_width(columns),
{
    if columns < i64::MIN + 2 {
        i64::MIN
    } else {
        columns - 2
    }
}

/// The Unicode `White_Space` property (`char::is_whitespace`).
pub open spec fn white_space(c: char) -> bool {
    let u = c as u32;
    (9 <= u && u <= 13) || u == 32 || u == 0x85 || u == 0xA0 || u == 0x1680 || (0x2000 <= u && u
        <= 0x200A) || u == 0x2028 || u == 0x2029 || u == 0x202F || u == 0x205F || u == 0x3000
}

/// `c.is_whitespace()`.
pub fn is_whitespace(c: char) -> (r: bool)
    ensures
        r == white_space(c),
{
    let u = c as u32;
    (9 <= u && u <= 13) || u == 32 || u == 0x85 || u == 0xA0 || u == 0x1680 || (0x2000 <= u && u
        <= 0x200A) || u == 0x2028 || u == 0x2029 || u == 0x202F || u == 0x205F || u == 0x3000
}

/// The end of the run of `close` at `k`.
pub open spec fn run_end(chars: Seq<char>, k: int, close: char) -> int
    decreases chars.len() - k,
{
    if 0 <= k < chars.len() && chars[k] == close {
        run_end(chars, k + 1, close)
    } else {
        k
    }
}

/// `(?=\s|$)` at `k`.
pub open spec fn at_break(chars: Seq<char>, k: int) -> bool {
    k >= chars.len() || white_space(chars[k])
}

/// The end of `.*?\)+(?=\s|$)` from `j` (`.` does not match a newline).
pub open spec fn find_close(chars: Seq<char>, j: int, close: char) -> Option<int>
    decreases chars.len() - j,
{
    if j < 0 || j >= chars.len() || chars[j] == '\n' {
        None
    } else if chars[j] == close && at_break(chars, run_end(chars, j, close)) {
        Some(run_end(chars, j, close))
    } else {
        find_close(chars, j + 1, close)
    }
}

/// The end of `\S+` from `k`.
pub open spec fn word_end(chars: Seq<char>, k: int) -> int
    decreases chars.len() - k,
{
    if 0 <= k < chars.len() && !white_space(chars[k]) {
        word_end(chars, k + 1)
    } else {
        k
    }
}

/// The end of the part that starts at `i`: a bracketed group if one
/// closes before white space or the end, else a run of non-space.
pub open spec fn part_end(chars: Seq<char>, i: int) -> int {
    let group = if chars[i] == '(' {
        find_close(chars, i + 1, ')')
    } else if chars[i] == '[' {
        find_close(chars, i + 1, ']')
    } else {
        None
    };
    match group {
        Some(e) => e,
        None => word_end(chars, i),
    }
}

/// The parts of `chars` from `i` on.
pub open spec fn split_from(chars: Seq<char>, i: int) -> Seq<Seq<char>>
    decreases chars.len() - i,
{
    if i < 0 || i >= chars.len() {
        seq![]
    } else if white_space(chars[i]) {
        split_from(chars, i + 1)
    } else {
        let end = part_end(chars, i);
        if i < end <= chars.len() {
            seq![chars.subrange(i, end)] + split_from(chars, end)
        } else {
            seq![]
        }
    }
}

/// `re.findall(r'\(.*?\)+(?=\s|$)|\[.*?\]+(?=\s|$)|\S+', text)`
/// (`part_regexp` of `HelpFormatter._format_usage`).
pub open spec fn spec_split_usage(text: Seq<char>) -> Seq<Seq<char>> {
    split_from(text, 0)
}

fn run_end_exec(chars: &Vec<char>, k: usize, close: char) -> (r: usize)
    requires
        k <= chars@.len(),
    ensures
        r == run_end(chars@, k as int, close),
        k <= r <= chars@.len(),
        (k < chars@.len() && chars@[k as int] == close) ==> r > k,
{
    let mut e = k;
    while e < chars.len() && chars[e] == close
        invariant
            k <= e <= chars@.len(),
            run_end(chars@, k as int, close) == run_end(chars@, e as int, close),
        decreases chars@.len() - e,
    {
        e = e + 1;
    }
    e
}

fn find_close_exec(chars: &Vec<char>, j: usize, close: char) -> (r: Option<usize>)
    requires
        j <= chars@.len(),
    ensures
        r matches Some(e) ==> find_close(chars@, j as int, close) == Some(e as int) && j < e <= chars@.len(),
        r is None ==> find_close(chars@, j as int, close) is None,
{
    let mut i = j;
    while i < chars.len() && chars[i] != '\n'
        invariant
            j <= i <= chars@.len(),
            find_close(chars@, j as int, close) == find_close(chars@, i as int, close),
        decreases chars@.len() - i,
    {
        if chars[i] == close {
            let k = run_end_exec(chars, i, close);
            if k >= chars.len() || is_whitespace(chars[k]) {
                return Some(k);
            }
        }
        i = i + 1;
    }
    None
}

fn word_end_exec(chars: &Vec<char>, k: usize) -> (r: usize)
    requires
        k <= chars@.len(),
    ensures
        r == word_end(chars@, k as int),
        k <= r <= chars@.len(),
        (k < chars@.len() && !white_space(chars@[k as int])) ==> r > k,
{
    let mut e = k;
    while e < chars.len() && !is_whitespace(chars[e])
        invariant
            k <= e <= chars@.len(),
            word_end(chars@, k as int) == word_end(chars@, e as int),
        decreases chars@.len() - e,
    {
        e = e + 1;
    }
    e
}

/// `re.findall(r'\(.*?\)+(?=\s|$)|\[.*?\]+(?=\s|$)|\S+', text)`
/// (`part_regexp` of `HelpFormatter._format_usage`).
pub fn split_usage(chars: &Vec<char>) -> (r: Vec<Vec<char>>)
    ensures
        char_views(r@) == spec_split_usage(chars@),
{
    let mut parts: Vec<Vec<char>> = Vec::new();
    let mut i: usize = 0;
    let ghost goal = split_from(chars@, 0);
    assert(char_views(parts@) + split_from(chars@, 0) =~= goal);
    while i < chars.len()
        invariant
            0 <= i <= chars@.len(),
            goal == split_from(chars@, 0),
            goal == char_views(parts@) + split_from(chars@, i as int),
        decreases chars@.len() - i,
    {
        if is_whitespace(chars[i]) {
            i = i + 1;
            continue;
        }
        let group = if chars[i] == '(' {
            find_close_exec(chars, i + 1, ')')
        } else if chars[i] == '[' {
            find_close_exec(chars, i + 1, ']')
        } else {
            None
        };
        let end = match group {
            Some(e) => e,
            None => word_end_exec(chars, i),
        };
        assert(end == part_end(chars@, i as int));
        if end <= i {
            assert(!white_space(chars@[i as int]));
            assert(false);
        }
        let mut part: Vec<char> = Vec::new();
        let mut k = i;
        while k < end
            invariant
                i <= k <= end <= chars@.len(),
                part@ == chars@.subrange(i as int, k as int),
            decreases end - k,
        {
            part.push(chars[k]);
            assert(chars@.subrange(i as int, k + 1) =~= chars@.subrange(i as int, k as int).push(
                chars@[k as int],
            ));
            k = k + 1;
        }
        let ghost before = char_views(parts@);
        parts.push(part);
        assert(char_views(parts@) =~= before.push(chars@.subrange(i as int, end as int)));
        assert(before + split_from(chars@, i as int) =~= char_views(parts@)
            + split_from(chars@, end as int));
        i = end;
    }
    assert(char_views(parts@) + Seq::<Seq<char>>::empty() =~= char_views(
        parts@,
    ));
    parts
}


/// The number of UTF-8 bytes of `c`.
pub open spec fn utf8_width(c: char) -> nat {
    let u = c as u32;
    if u < 0x80 {
        1
    } else if u < 0x800 {
        2
    } else if u < 0x10000 {
        3
    } else {
        4
    }
}

/// The number of UTF-8 bytes of `s` (`str::len`).
pub open spec fn utf8_len(s: Seq<char>) -> nat
    decreases s.len(),
{
    if s.len() == 0 {
        0
    } else {
        utf8_len(s.drop_last()) + utf8_width(s.last())
    }
}

/// The number of UTF-8 bytes of `s`.
fn utf8_len_exec(s: &Vec<char>) -> (r: u128)
    ensures
        r == utf8_len(s@),
        r <= 4 * s@.len(),
        r <= 4 * usize::MAX,
{
    let len = s.len();
    let mut n: u128 = 0;
    let mut i: usize = 0;
    while i < s.len()
        invariant
            0 <= i <= s@.len(),
            n == utf8_len(s@.take(i as int)),
            n <= 4 * i,
        decreases s@.len() - i,
    {
        let u = s[i] as u32;
        let w: u128 = if u < 0x80 {
            1
        } else if u < 0x800 {
            2
        } else if u < 0x10000 {
            3
        } else {
            4
        };
        assert(s@.take(i + 1).drop_last() =~= s@.take(i as int));
        n = n + w;
        i = i + 1;
    }
    assert(s@.take(i as int) =~= s@);
    n
}

/// `n` spaces.
pub open spec fn spaces(n: nat) -> Seq<char> {
    Seq::new(n, |i: int| ' ')
}

/// `n` spaces.
fn spaces_exec(n: usize) -> (r: Vec<char>)
    ensures
        r@ == spaces(n as nat),
{
    let mut out: Vec<char> = Vec::new();
    let mut i: usize = 0;
    while i < n
        invariant
            0 <= i <= n,
            out@ == spaces(i as nat),
        decreases n - i,
    {
        out.push(' ');
        assert(out@ =~= spaces((i + 1) as nat));
        i = i + 1;
    }
    out
}

/// The loop of `get_lines()` from part `k` on: the lines so far, the
/// parts of the current line and its length.
pub open spec fn lines_from(
    parts: Seq<Seq<char>>,
    k: int,
    indent: nat,
    text_width: int,
    lines: Seq<Seq<char>>,
    line: Seq<Seq<char>>,
    line_len: int,
) -> Seq<Seq<char>>
    decreases parts.len() - k,
{
    if k < 0 || k >= parts.len() {
        if line.len() > 0 {
            lines.push(spaces(indent) + join(line, seq![' ']))
        } else {
            lines
        }
    } else {
        let part = parts[k];
        let wrap_now = line_len + 1 + utf8_len(part) > text_width && line.len() > 0;
        let lines1 = if wrap_now {
            lines.push(spaces(indent) + join(line, seq![' ']))
        } else {
            lines
        };
        let line1 = if wrap_now {
            seq![part]
        } else {
            line.push(part)
        };
        let len1 = if wrap_now {
            indent - 1
        } else {
            line_len
        };
        lines_from(parts, k + 1, indent, text_width, lines1, line1, len1 + utf8_len(part) + 1)
    }
}

/// `get_lines(parts, indent, prefix)` inside `_format_usage()`, where
/// `prefix_len` is the length of `prefix` if there is one.
pub open spec fn spec_usage_lines(parts: Seq<Seq<char>>, indent: nat, prefix_len: Option<nat>, text_width: int) -> Seq<
    Seq<char>,
> {
    let start = match prefix_len {
        Some(p) => p,
        None => indent,
    };
    let lines = lines_from(parts, 0, indent, text_width, seq![], seq![], start - 1);
    if prefix_len is Some && lines.len() > 0 {
        lines.update(0, lines[0].skip(indent as int))
    } else {
        lines
    }
}

/// `sep.join(parts)` with a one-character separator.
fn join_char(parts: &Vec<Vec<char>>, sep: char) -> (r: Vec<char>)
    ensures
        r@ == join(char_views(parts@), seq![sep]),
{
    let mut s: Vec<char> = Vec::new();
    s.push(sep);
    let ghost sv = s@;
    let mut out: Vec<char> = Vec::new();
    if parts.len() == 0 {
        return out;
    }
    let mut joined: Vec<char> = Vec::new();
    let mut i: usize = 0;
    let ghost all = char_views(parts@);
    while i < parts.len()
        invariant
            0 <= i <= parts@.len(),
            all == char_views(parts@),
            parts@.len() > 0,
            i == 0 ==> joined@.len() == 0,
            i > 0 ==> joined@ == join(all.take(i as int), seq![sep]),
        decreases parts@.len() - i,
    {
        let ghost before = joined@;
        if i > 0 {
            joined.push(sep);
        }
        push_all(&mut joined, &parts[i]);
        proof {
            lemma_join_push(all.take(i as int), all[i as int], sep);
            assert(all.take(i + 1) =~= all.take(i as int).push(all[i as int]));
            if i == 0 {
                assert(all.take(1) =~= seq![all[0]]);
            }
        }
        i = i + 1;
    }
    assert(all.take(i as int) =~= all);
    joined
}

proof fn lemma_join_push(parts: Seq<Seq<char>>, x: Seq<char>, sep: char)
    ensures
        join(parts.push(x), seq![sep]) == if parts.len() == 0 {
            x
        } else {
            join(parts, seq![sep]) + seq![sep] + x
        },
    decreases parts.len(),
{
    if parts.len() == 0 {
        assert(parts.push(x) =~= seq![x]);
    } else if parts.len() == 1 {
        assert(parts.push(x).drop_first() =~= seq![x]);
        assert(parts.push(x)[0] == parts[0]);
        assert(join(seq![x], seq![sep]) == x);
    } else {
        assert(parts.push(x)[0] == parts[0]);
        lemma_join_push(parts.drop_first(), x, sep);
        assert(parts.push(x).drop_first() =~= parts.drop_first().push(x));
        assert(parts[0] + seq![sep] + (join(parts.drop_first(), seq![sep]) + seq![sep] + x) =~= (
        parts[0] + seq![sep] + join(parts.drop_first(), seq![sep])) + seq![sep] + x);
    }
}

/// `get_lines()` inside `_format_usage()`.
pub fn usage_lines(parts: &Vec<Vec<char>>, indent: usize, prefix: Option<&str>, text_width: i64) -> (r:
    Vec<Vec<char>>)
    ensures
        char_views(r@) == spec_usage_lines(
            char_views(parts@),
            indent as nat,
            match prefix {
                Some(p) => Some(utf8_len(p@)),
                None => None,
            },
            text_width as int,
        ),
{
    let ghost pv = char_views(parts@);
    let indent_str = spaces_exec(indent);
    let mut lines: Vec<Vec<char>> = Vec::new();
    let mut line: Vec<Vec<char>> = Vec::new();
    let start: u128 = match prefix {
        Some(p) => utf8_len_exec(&chars_of(p)),
        None => indent as u128,
    };
    let mut line_len: i128 = (start as i128) - 1;
    let ghost prefix_len = match prefix {
        Some(p) => Some(utf8_len(p@)),
        None => None::<nat>,
    };
    let ghost goal = lines_from(pv, 0, indent as nat, text_width as int, seq![], seq![], start - 1);
    assert(char_views(lines@) =~= Seq::<Seq<char>>::empty());
    assert(char_views(line@) =~= Seq::<Seq<char>>::empty());
    let mut k: usize = 0;
    while k < parts.len()
        invariant
            0 <= k <= parts@.len(),
            pv == char_views(parts@),
            indent_str@ == spaces(indent as nat),
            start <= 4 * usize::MAX,
            -1 <= line_len <= i64::MAX + 8 * usize::MAX + 2,
            line@.len() == 0 ==> line_len == start - 1,
            forall|t: int| 0 <= t < lines@.len() ==> (#[trigger] lines@[t])@.len() >= indent,
            goal == lines_from(
                pv,
                k as int,
                indent as nat,
                text_width as int,
                char_views(lines@),
                char_views(line@),
                line_len as int,
            ),
        decreases parts@.len() - k,
    {
        let part = &parts[k];
        let plen = utf8_len_exec(part);
        assert(pv[k as int] == part@);
        let ghost lines0 = char_views(lines@);
        let ghost line0 = char_views(line@);
        let ghost len0 = line_len as int;
        let ghost wrap_now = len0 + 1 + utf8_len(part@) > text_width as int && line0.len() > 0;
        if line_len + 1 + (plen as i128) > text_width as i128 && line.len() > 0 {
            let mut l: Vec<char> = Vec::new();
            push_all(&mut l, &indent_str);
            let j = join_char(&line, ' ');
            push_all(&mut l, &j);
            lines.push(l);
            assert(char_views(lines@) =~= lines0.push(spaces(indent as nat) + join(line0, seq![' '])));
            line = Vec::new();
            assert(char_views(line@) =~= Seq::<Seq<char>>::empty());
            line_len = (indent as i128) - 1;
        }
        let ghost lnb = char_views(line@);
        let mut pc: Vec<char> = Vec::new();
        push_all(&mut pc, part);
        line.push(pc);
        assert(char_views(line@) =~= lnb.push(part@));
        proof {
            if wrap_now {
                assert(char_views(line@) =~= seq![part@]);
            }
        }
        line_len = line_len + (plen as i128) + 1;
        k = k + 1;
    }
    if line.len() > 0 {
        let mut l: Vec<char> = Vec::new();
        push_all(&mut l, &indent_str);
        let j = join_char(&line, ' ');
        push_all(&mut l, &j);
        let ghost lb = char_views(lines@);
        lines.push(l);
        assert(char_views(lines@) =~= lb.push(spaces(indent as nat) + join(char_views(line@), seq![' '])));
    }
    assert(forall|t: int| 0 <= t < lines@.len() ==> (#[trigger] lines@[t])@.len() >= indent);
    if prefix.is_some() && lines.len() > 0 {
        let first = &lines[0];
        let mut rest: Vec<char> = Vec::new();
        let mut i = indent;
        while i < first.len()
            invariant
                indent <= i <= first@.len() || (i == indent && indent > first@.len()),
                rest@ == (if indent <= first@.len() {
                    first@.subrange(indent as int, i as int)
                } else {
                    Seq::<char>::empty()
                }),
            decreases first@.len() - i,
        {
            rest.push(first[i]);
            assert(first@.subrange(indent as int, i + 1) =~= first@.subrange(indent as int, i as int).push(
                first@[i as int],
            ));
            i = i + 1;
        }
        let ghost lv = char_views(lines@);
        assert(rest@ =~= first@.skip(indent as int));
        lines.set(0, rest);
        assert(char_views(lines@) =~= lv.update(0, lv[0].skip(indent as int)));
    }
    lines
}


// ---------------------------------------------------------------------
// `textwrap.wrap`.

/// `s` is white space only (`s.trim().is_empty()`).
pub open spec fn blank(s: Seq<char>) -> bool {
    forall|i: int| 0 <= i < s.len() ==> #[trigger] white_space(s[i])
}

/// The index of the first `c` of `s`.
pub open spec fn index_of_char(s: Seq<char>, c: char) -> Option<int>
    decreases s.len(),
{
    if s.len() == 0 {
        None
    } else if s[0] == c {
        Some(0)
    } else {
        match index_of_char(s.drop_first(), c) {
            Some(k) => Some(k + 1),
            None => None,
        }
    }
}

/// `s.split(sep)`.
pub open spec fn split_char(s: Seq<char>, sep: char) -> Seq<Seq<char>>
    decreases s.len(),
{
    match index_of_char(s, sep) {
        Some(i) => if 0 <= i < s.len() {
            seq![s.take(i)] + split_char(s.skip(i + 1), sep)
        } else {
            seq![s]
        },
        None => seq![s],
    }
}

/// The words with a single space between each two.
pub open spec fn interleave(words: Seq<Seq<char>>) -> Seq<Seq<char>>
    decreases words.len(),
{
    if words.len() == 0 {
        seq![]
    } else if words.len() == 1 {
        seq![words[0]]
    } else {
        seq![words[0], seq![' ']] + interleave(words.drop_first())
    }
}

/// The chunks of `text` (words and single spaces), reversed like
/// `_wrap_chunks` does.
pub open spec fn wrap_chunks(text: Seq<char>) -> Seq<Seq<char>> {
    interleave(split_char(text, ' ')).reverse()
}

/// The chunks from the end of `c` that fit on the line after `cur_len`
/// characters: the line, its length and the chunks left.
pub open spec fn fill(c: Seq<Seq<char>>, width: int, line: Seq<Seq<char>>, cur_len: int) -> (
    Seq<Seq<char>>,
    int,
    Seq<Seq<char>>,
)
    decreases c.len(),
{
    if c.len() > 0 && cur_len + c.last().len() <= width {
        fill(c.drop_last(), width, line.push(c.last()), cur_len + c.last().len())
    } else {
        (line, cur_len, c)
    }
}

/// The number of chunks plus their characters.
pub open spec fn weight(c: Seq<Seq<char>>) -> nat
    decreases c.len(),
{
    if c.len() == 0 {
        0
    } else {
        weight(c.drop_last()) + c.last().len() + 1
    }
}

/// The lines `_wrap_chunks` makes of the chunks `c` (a stack, its top at
/// the end) after `lines`.
pub open spec fn wrap_loop(c: Seq<Seq<char>>, width: int, lines: Seq<Seq<char>>) -> Seq<Seq<char>>
    decreases weight(c),
{
    if c.len() == 0 {
        lines
    } else {
        let c1 = if lines.len() > 0 && blank(c.last()) {
            c.drop_last()
        } else {
            c
        };
        let f = fill(c1, width, seq![], 0);
        let line = f.0;
        let cur_len = f.1;
        let c2 = f.2;
        let split = c2.len() > 0 && c2.last().len() > width;
        let space_left = width - cur_len;
        let line2 = if split {
            line.push(c2.last().take(space_left))
        } else {
            line
        };
        let c3 = if split {
            c2.drop_last().push(c2.last().skip(space_left))
        } else {
            c2
        };
        let line3 = if line2.len() > 0 && blank(line2.last()) {
            line2.drop_last()
        } else {
            line2
        };
        let lines2 = if line3.len() > 0 {
            lines.push(join(line3, seq![]))
        } else {
            lines
        };
        if weight(c3) < weight(c) {
            wrap_loop(c3, width, lines2)
        } else {
            lines2
        }
    }
}

/// `textwrap.wrap(text, width)` for a text of words separated by single
/// spaces, without hyphens or tabs.
pub open spec fn spec_wrap(text: Seq<char>, width: int) -> Seq<Seq<char>> {
    wrap_loop(wrap_chunks(text), width, seq![])
}

/// The number of characters of the parts.
pub open spec fn total_len(parts: Seq<Seq<char>>) -> nat
    decreases parts.len(),
{
    if parts.len() == 0 {
        0
    } else {
        parts[0].len() + total_len(parts.drop_first())
    }
}

proof fn lemma_total_len_push(parts: Seq<Seq<char>>, x: Seq<char>)
    ensures
        total_len(parts.push(x)) == total_len(parts) + x.len(),
    decreases parts.len(),
{
    if parts.len() > 0 {
        assert(parts.push(x).drop_first() =~= parts.drop_first().push(x));
        assert(parts.push(x)[0] == parts[0]);
        lemma_total_len_push(parts.drop_first(), x);
    } else {
        assert(parts.push(x).drop_first() =~= Seq::<Seq<char>>::empty());
        assert(total_len(parts.push(x).drop_first()) == 0);
        assert(parts.push(x)[0] == x);
        assert(total_len(parts) == 0);
    }
}

proof fn lemma_join_len(parts: Seq<Seq<char>>)
    ensures
        join(parts, seq![]).len() == total_len(parts),
    decreases parts.len(),
{
    if parts.len() == 1 {
        assert(parts.drop_first().len() == 0);
        assert(total_len(parts.drop_first()) == 0);
        assert(join(parts, seq![]) == parts[0]);
    } else if parts.len() > 1 {
        lemma_join_len(parts.drop_first());
        let e: Seq<char> = seq![];
        assert(join(parts, e) == parts[0] + e + join(parts.drop_first(), e));
    }
}

proof fn lemma_fill_fits(c: Seq<Seq<char>>, width: int, line: Seq<Seq<char>>, cur_len: int)
    requires
        cur_len == total_len(line),
        cur_len <= width,
    ensures
        fill(c, width, line, cur_len).1 == total_len(fill(c, width, line, cur_len).0),
        fill(c, width, line, cur_len).1 <= width,
    decreases c.len(),
{
    if c.len() > 0 && cur_len + c.last().len() <= width {
        lemma_total_len_push(line, c.last());
        lemma_fill_fits(c.drop_last(), width, line.push(c.last()), cur_len + c.last().len());
    }
}

proof fn lemma_wrap_loop_fits(c: Seq<Seq<char>>, width: int, lines: Seq<Seq<char>>)
    requires
        width >= 1,
        forall|i: int| 0 <= i < lines.len() ==> #[trigger] lines[i].len() <= width,
    ensures
        forall|i: int|
            0 <= i < wrap_loop(c, width, lines).len() ==> #[trigger] wrap_loop(c, width, lines)[i].len() <= width,
    decreases weight(c),
{
    if c.len() > 0 {
        let c1 = if lines.len() > 0 && blank(c.last()) {
            c.drop_last()
        } else {
            c
        };
        let f = fill(c1, width, seq![], 0);
        lemma_fill_fits(c1, width, seq![], 0);
        let line = f.0;
        let cur_len = f.1;
        let c2 = f.2;
        let split = c2.len() > 0 && c2.last().len() > width;
        let space_left = width - cur_len;
        let line2 = if split {
            line.push(c2.last().take(space_left))
        } else {
            line
        };
        if split {
            lemma_total_len_push(line, c2.last().take(space_left));
        }
        assert(total_len(line2) <= width);
        let line3 = if line2.len() > 0 && blank(line2.last()) {
            line2.drop_last()
        } else {
            line2
        };
        if line2.len() > 0 && blank(line2.last()) {
            assert(line2 =~= line3.push(line2.last()));
            lemma_total_len_push(line3, line2.last());
        }
        assert(total_len(line3) <= width);
        lemma_join_len(line3);
        let lines2 = if line3.len() > 0 {
            lines.push(join(line3, seq![]))
        } else {
            lines
        };
        assert forall|i: int| 0 <= i < lines2.len() implies #[trigger] lines2[i].len() <= width by {
            if i < lines.len() {
                assert(lines2[i] == lines[i]);
            }
        }
        let c3 = if split {
            c2.drop_last().push(c2.last().skip(space_left))
        } else {
            c2
        };
        assert(wrap_loop(c, width, lines) == if weight(c3) < weight(c) {
            wrap_loop(c3, width, lines2)
        } else {
            lines2
        });
        if weight(c3) < weight(c) {
            lemma_wrap_loop_fits(c3, width, lines2);
        }
    }
}

/// `textwrap.wrap` breaks the text into lines of at most `width`
/// characters.
pub proof fn lemma_wrap_lines_fit(text: Seq<char>, width: int)
    requires
        width >= 1,
    ensures
        forall|i: int| 0 <= i < spec_wrap(text, width).len() ==> #[trigger] spec_wrap(text, width)[i].len() <= width,
{
    lemma_wrap_loop_fits(wrap_chunks(text), width, seq![]);
}

fn is_blank(s: &Vec<char>) -> (r: bool)
    ensures
        r == blank(s@),
{
    let mut i: usize = 0;
    while i < s.len()
        invariant
            0 <= i <= s@.len(),
            forall|j: int| 0 <= j < i ==> #[trigger] white_space(s@[j]),
        decreases s@.len() - i,
    {
        if !is_whitespace(s[i]) {
            return false;
        }
        i = i + 1;
    }
    true
}

/// `s[from..to]`, copied.
fn sub_chars(s: &Vec<char>, from: usize, to: usize) -> (r: Vec<char>)
    requires
        from <= to <= s@.len(),
    ensures
        r@ == s@.subrange(from as int, to as int),
{
    let mut out: Vec<char> = Vec::new();
    let mut i = from;
    while i < to
        invariant
            from <= i <= to <= s@.len(),
            out@ == s@.subrange(from as int, i as int),
        decreases to - i,
    {
        out.push(s[i]);
        assert(s@.subrange(from as int, i + 1) =~= s@.subrange(from as int, i as int).push(s@[i as int]));
        i = i + 1;
    }
    out
}

/// `text.split(' ')`.
fn split_spaces(chars: &Vec<char>) -> (r: Vec<Vec<char>>)
    ensures
        char_views(r@) == split_char(chars@, ' '),
{
    let mut words: Vec<Vec<char>> = Vec::new();
    let mut start: usize = 0;
    let mut i: usize = 0;
    let ghost goal = split_char(chars@, ' ');
    assert(chars@.skip(0) =~= chars@);
    while i < chars.len()
        invariant
            0 <= start <= i <= chars@.len(),
            goal == split_char(chars@, ' '),
            goal == char_views(words@) + split_char(chars@.skip(start as int), ' '),
            index_of_char(chars@.skip(start as int), ' ') == (match index_of_char(
                chars@.skip(i as int),
                ' ',
            ) {
                Some(k) => Some(k + i - start),
                None => None,
            }),
        decreases chars@.len() - i,
    {
        assert(chars@.skip(i as int)[0] == chars@[i as int]);
        assert(chars@.skip(i as int).drop_first() =~= chars@.skip(i + 1));
        if chars[i] == ' ' {
            let w = sub_chars(chars, start, i);
            let ghost rest = chars@.skip(start as int);
            assert(w@ =~= rest.take(i - start));
            assert(rest.skip(i - start + 1) =~= chars@.skip(i + 1));
            let ghost before = char_views(words@);
            words.push(w);
            assert(char_views(words@) =~= before.push(w@));
            assert(before + (seq![w@] + split_char(chars@.skip(i + 1), ' ')) =~= char_views(words@)
                + split_char(chars@.skip(i + 1), ' '));
            start = i + 1;
            assert(chars@.skip(start as int) =~= chars@.skip(i + 1));
        }
        i = i + 1;
    }
    let w = sub_chars(chars, start, chars.len());
    assert(w@ =~= chars@.skip(start as int));
    assert(chars@.skip(i as int) =~= Seq::<char>::empty());
    let ghost before = char_views(words@);
    words.push(w);
    assert(char_views(words@) =~= before + seq![w@]);
    words
}

proof fn lemma_weight_push(c: Seq<Seq<char>>, x: Seq<char>)
    ensures
        weight(c.push(x)) == weight(c) + x.len() + 1,
{
    assert(c.push(x).drop_last() =~= c);
}

/// `textwrap.wrap(text, width)` for a text of words separated by single
/// spaces, without hyphens or tabs (true of every help text here), and a
/// `width` of at least 1.
pub fn wrap(text: &str, width: usize) -> (r: Vec<Vec<char>>)
    requires
        width >= 1,
    ensures
        char_views(r@) == spec_wrap(text@, width as int),
{
    let chars = chars_of(text);
    let words = split_spaces(&chars);
    let ghost wv = char_views(words@);
    // The chunks in order.
    let mut fwd: Vec<Vec<char>> = Vec::new();
    let mut k: usize = 0;
    assert(wv.skip(0) =~= wv);
    assert(char_views(fwd@) + interleave(wv.skip(0)) =~= interleave(wv));
    while k < words.len()
        invariant
            0 <= k <= words@.len(),
            wv == char_views(words@),
            interleave(wv) == char_views(fwd@) + interleave(wv.skip(k as int)),
        decreases words@.len() - k,
    {
        let ghost before = char_views(fwd@);
        let ghost rest = wv.skip(k as int);
        assert(rest[0] == words@[k as int]@);
        assert(rest.drop_first() =~= wv.skip(k + 1));
        let mut w: Vec<char> = Vec::new();
        push_all(&mut w, &words[k]);
        fwd.push(w);
        if k + 1 < words.len() {
            let mut sp: Vec<char> = Vec::new();
            sp.push(' ');
            fwd.push(sp);
            assert(char_views(fwd@) =~= before + seq![rest[0], seq![' ']]);
        } else {
            assert(char_views(fwd@) =~= before + seq![rest[0]]);
            assert(wv.skip(k + 1) =~= Seq::<Seq<char>>::empty());
        }
        k = k + 1;
    }
    assert(wv.skip(k as int) =~= Seq::<Seq<char>>::empty());
    assert(char_views(fwd@) + Seq::<Seq<char>>::empty() =~= char_views(fwd@));
    // The stack: reversed.
    let mut chunks: Vec<Vec<char>> = Vec::new();
    let mut j = fwd.len();
    while j > 0
        invariant
            0 <= j <= fwd@.len(),
            char_views(chunks@) == char_views(fwd@).skip(j as int).reverse(),
        decreases j,
    {
        let mut w: Vec<char> = Vec::new();
        push_all(&mut w, &fwd[j - 1]);
        let ghost before = char_views(chunks@);
        let ghost fv = char_views(fwd@);
        chunks.push(w);
        assert(char_views(chunks@) =~= before.push(fv[j - 1]));
        assert(fv.skip(j - 1).reverse() =~= fv.skip(j as int).reverse().push(fv[j - 1]));
        j = j - 1;
    }
    assert(char_views(fwd@).skip(0) =~= char_views(fwd@));
    let ghost goal = spec_wrap(text@, width as int);
    assert(char_views(chunks@) == wrap_chunks(text@));
    let mut lines: Vec<Vec<char>> = Vec::new();
    assert(char_views(lines@) =~= Seq::<Seq<char>>::empty());
    while chunks.len() > 0
        invariant
            width >= 1,
            goal == wrap_loop(char_views(chunks@), width as int, char_views(lines@)),
        decreases weight(char_views(chunks@)),
    {
        let ghost c0 = char_views(chunks@);
        let ghost lines0 = char_views(lines@);
        let mut cur_line: Vec<Vec<char>> = Vec::new();
        let mut cur_len: usize = 0;
        let n = chunks.len();
        assert(c0.last() == chunks@[n - 1]@);
        if lines.len() > 0 && is_blank(&chunks[n - 1]) {
            let _ = chunks.pop();
            assert(char_views(chunks@) =~= c0.drop_last());
        }
        let ghost c1 = char_views(chunks@);
        assert(char_views(cur_line@) =~= Seq::<Seq<char>>::empty());
        while chunks.len() > 0 && chunks[chunks.len() - 1].len() <= width - cur_len
            invariant
                cur_len <= width,
                fill(c1, width as int, seq![], 0) == fill(
                    char_views(chunks@),
                    width as int,
                    char_views(cur_line@),
                    cur_len as int,
                ),
                weight(c1) == weight(char_views(chunks@)) + cur_len + cur_line@.len(),
            decreases chunks@.len(),
        {
            let ghost cv = char_views(chunks@);
            let ghost lv = char_views(cur_line@);
            let top = chunks.pop().unwrap();
            assert(cv.last() == top@);
            assert(char_views(chunks@) =~= cv.drop_last());
            cur_len = cur_len + top.len();
            cur_line.push(top);
            assert(char_views(cur_line@) =~= lv.push(cv.last()));
        }
        let ghost c2 = char_views(chunks@);
        let ghost f = fill(c1, width as int, seq![], 0);
        assert(f == (char_views(cur_line@), cur_len as int, c2));
        if chunks.len() > 0 && chunks[chunks.len() - 1].len() > width {
            let m = chunks.len();
            let space_left = width - cur_len;
            let top = chunks.pop().unwrap();
            assert(c2.last() == top@);
            let head = sub_chars(&top, 0, space_left);
            let tail = sub_chars(&top, space_left, top.len());
            assert(head@ =~= top@.take(space_left as int));
            assert(tail@ =~= top@.skip(space_left as int));
            let ghost lv = char_views(cur_line@);
            cur_line.push(head);
            assert(char_views(cur_line@) =~= lv.push(head@));
            chunks.push(tail);
            assert(char_views(chunks@) =~= c2.drop_last().push(tail@));
            proof {
                lemma_weight_push(c2.drop_last(), tail@);
                assert(c2.drop_last().push(c2.last()) =~= c2);
                lemma_weight_push(c2.drop_last(), c2.last());
            }
        }
        let ghost c3 = char_views(chunks@);
        let ghost line2 = char_views(cur_line@);
        if cur_line.len() > 0 && is_blank(&cur_line[cur_line.len() - 1]) {
            let _ = cur_line.pop();
            assert(char_views(cur_line@) =~= line2.drop_last());
        }
        if cur_line.len() > 0 {
            let l = crate::argparse::join_chars(&cur_line, "");
            proof {
                reveal_strlit("");
            }
            assert(""@ =~= Seq::<char>::empty());
            let ghost lb = char_views(lines@);
            lines.push(l);
            assert(char_views(lines@) =~= lb.push(join(char_views(cur_line@), seq![])));
        }
        proof {
            if lines0.len() > 0 && blank(c0.last()) {
                assert(c0.drop_last().push(c0.last()) =~= c0);
                lemma_weight_push(c0.drop_last(), c0.last());
            }
        }
        assert(weight(c3) < weight(c0));
    }
    lines
}


// ---------------------------------------------------------------------
// Usage and help.

/// The `usage: ` prefix.
pub const USAGE_PREFIX: &'static str = "usage: ";

/// The usage parts of the options (`positional == false`) or of the
/// positionals, from argument `i` on.
pub open spec fn usage_texts(args: Seq<Argument>, positional: bool, i: int) -> Seq<Seq<char>>
    decreases args.len() - i,
{
    if i < 0 || i >= args.len() {
        seq![]
    } else if is_positional(args[i]) == positional {
        seq![usage_part(args[i])] + usage_texts(args, positional, i + 1)
    } else {
        usage_texts(args, positional, i + 1)
    }
}

/// The wrappable parts of the usage of the options or of the
/// positionals: `part_regexp` applied to their usage text.
pub open spec fn spec_usage_parts(args: Seq<Argument>, positional: bool) -> Seq<Seq<char>> {
    spec_split_usage(join(usage_texts(args, positional, 0), seq![' ']))
}

/// `prog` and the usage of the actions, joined by a space (either may be
/// empty).
pub open spec fn full_usage(prog: Seq<char>, action_usage: Seq<char>) -> Seq<char> {
    if prog.len() > 0 && action_usage.len() > 0 {
        prog + seq![' '] + action_usage
    } else if prog.len() > 0 {
        prog
    } else {
        action_usage
    }
}

/// `n` as an `i64`, saturating.
pub open spec fn sat64(n: int) -> int {
    if n > i64::MAX {
        i64::MAX as int
    } else {
        n
    }
}

/// `_format_usage()`: `usage: ...` without the trailing blank line, for a
/// text width `width`.
pub open spec fn spec_usage_text(prog: Seq<char>, args: Seq<Argument>, width: int) -> Seq<char> {
    let option_parts = spec_usage_parts(args, false);
    let positional_parts = spec_usage_parts(args, true);
    let full = full_usage(prog, join(option_parts + positional_parts, seq![' ']));
    let prefix = USAGE_PREFIX@;
    if sat64((prefix.len() + full.len()) as int) <= width {
        prefix + full
    } else {
        let prefix_bytes = utf8_len(prefix);
        let lines = if 4 * sat64((prefix_bytes + prog.len()) as int) <= 3 * width {
            let indent = (prefix_bytes + prog.len() + 1) as nat;
            let first = if option_parts.len() == 0 {
                spec_usage_lines(seq![prog] + positional_parts, indent, Some(prefix_bytes), width)
            } else {
                spec_usage_lines(seq![prog] + option_parts, indent, Some(prefix_bytes), width)
            };
            if option_parts.len() > 0 && positional_parts.len() > 0 {
                first + spec_usage_lines(positional_parts, indent, None, width)
            } else {
                first
            }
        } else {
            let all = spec_usage_lines(option_parts + positional_parts, prefix_bytes, None, width);
            let lines = if all.len() > 1 {
                spec_usage_lines(option_parts, prefix_bytes, None, width) + spec_usage_lines(
                    positional_parts,
                    prefix_bytes,
                    None,
                    width,
                )
            } else {
                all
            };
            seq![prog] + lines
        };
        prefix + join(lines, seq!['\n'])
    }
}

/// The largest `_format_action_invocation()` length plus 2, from
/// argument `i` on (0 if there is none).
pub open spec fn max_invocation(args: Seq<Argument>, i: int) -> int
    decreases args.len() - i,
{
    if i < 0 || i >= args.len() {
        0
    } else {
        let here = sat64(invocation(args[i]).len() as int) + 2;
        let rest = max_invocation(args, i + 1);
        if here > rest {
            here
        } else {
            rest
        }
    }
}

/// `min(a, b)`.
pub open spec fn min_int(a: int, b: int) -> int {
    if a < b {
        a
    } else {
        b
    }
}

/// `max(a, b)`.
pub open spec fn max_int(a: int, b: int) -> int {
    if a > b {
        a
    } else {
        b
    }
}

/// `n` as a `usize`, `usize::MAX` if it is larger.
pub open spec fn to_usize_sat(n: int) -> nat {
    if n < 0 {
        0
    } else if n > usize::MAX {
        usize::MAX as nat
    } else {
        n as nat
    }
}

/// Each line followed by a newline, the lines after the first indented
/// by `indent`.
pub open spec fn help_lines(lines: Seq<Seq<char>>, indent: Seq<char>, first: bool) -> Seq<char>
    decreases lines.len(),
{
    if lines.len() == 0 {
        seq![]
    } else {
        (if first {
            seq![]
        } else {
            indent
        }) + lines[0] + seq!['\n'] + help_lines(lines.drop_first(), indent, false)
    }
}

/// The help of one argument: its invocation, padded to `action_width`
/// or on a line of its own, then its help wrapped at `help_width`.
pub open spec fn arg_help(a: Argument, action_width: int, help_width: nat, help_indent: Seq<char>) -> Seq<char> {
    let inv = invocation(a);
    let head = if sat64(inv.len() as int) <= action_width {
        seq![' ', ' '] + pad_right(inv, to_usize_sat(action_width)) + seq![' ', ' ']
    } else {
        seq![' ', ' '] + inv + seq!['\n'] + help_indent
    };
    head + help_lines(spec_wrap(a.help@, help_width as int), help_indent, true)
}

/// The help of the positionals or of the options from argument `i` on.
pub open spec fn args_help(
    args: Seq<Argument>,
    positional: bool,
    i: int,
    action_width: int,
    help_width: nat,
    help_indent: Seq<char>,
) -> Seq<char>
    decreases args.len() - i,
{
    if i < 0 || i >= args.len() {
        seq![]
    } else {
        (if is_positional(args[i]) == positional {
            arg_help(args[i], action_width, help_width, help_indent)
        } else {
            seq![]
        }) + args_help(args, positional, i + 1, action_width, help_width, help_indent)
    }
}

/// Whether any argument from `i` on is a positional (or an option).
pub open spec fn any_of_kind(args: Seq<Argument>, positional: bool) -> bool {
    exists|i: int| 0 <= i < args.len() && is_positional(#[trigger] args[i]) == positional
}

/// A section of the help: its heading and its arguments, if it has any.
pub open spec fn section(
    args: Seq<Argument>,
    positional: bool,
    heading: Seq<char>,
    action_width: int,
    help_width: nat,
    help_indent: Seq<char>,
) -> Seq<char> {
    if any_of_kind(args, positional) {
        seq!['\n'] + heading + seq![':', '\n'] + args_help(
            args,
            positional,
            0,
            action_width,
            help_width,
            help_indent,
        )
    } else {
        seq![]
    }
}

/// Each line followed by a newline.
pub open spec fn text_lines(lines: Seq<Seq<char>>) -> Seq<char>
    decreases lines.len(),
{
    if lines.len() == 0 {
        seq![]
    } else {
        lines[0] + seq!['\n'] + text_lines(lines.drop_first())
    }
}

/// `parser.format_help()` for a terminal of `columns` columns.
pub open spec fn spec_format_help(
    prog: Seq<char>,
    description: Option<&'static str>,
    args: Seq<Argument>,
    columns: i64,
) -> Seq<char> {
    let width = spec_formatter_width(columns);
    let max_help_position = min_int(24, max_int(width - 20, 4));
    let help_position = min_int(max_invocation(args, 0) + 2, max_help_position);
    let help_width = to_usize_sat(max_int(width - help_position, 11));
    let action_width = help_position - 4;
    let help_indent = spaces(to_usize_sat(help_position));
    let desc = match description {
        Some(d) => seq!['\n'] + text_lines(spec_wrap(d@, to_usize_sat(max_int(width, 11)) as int)),
        None => seq![],
    };
    spec_usage_text(prog, args, width) + seq!['\n'] + desc + section(
        args,
        true,
        "positional arguments"@,
        action_width,
        help_width,
        help_indent,
    ) + section(args, false, "options"@, action_width, help_width, help_indent)
}

/// `parser.format_usage()` for a terminal of `columns` columns.
pub open spec fn spec_format_usage(prog: Seq<char>, args: Seq<Argument>, columns: i64) -> Seq<char> {
    spec_usage_text(prog, args, spec_formatter_width(columns)) + seq!['\n']
}

/// What `parser.error(message)` writes to stderr.
pub open spec fn spec_format_error(prog: Seq<char>, args: Seq<Argument>, message: Seq<u32>, columns: i64) -> Seq<
    char,
> {
    spec_format_usage(prog, args, columns) + prog + ": error: "@ + backslashreplace(message) + seq!['\n']
}


/// `s` padded on the right with spaces to at least `width` characters.
fn pad_right_exec(s: &Vec<char>, width: usize) -> (r: Vec<char>)
    ensures
        r@ == pad_right(s@, width as nat),
{
    let mut out: Vec<char> = Vec::new();
    push_all(&mut out, s);
    if s.len() >= width {
        return out;
    }
    let n = width - s.len();
    let pad = spaces_exec(n);
    push_all(&mut out, &pad);
    assert(out@ =~= pad_right(s@, width as nat));
    out
}

/// `n` as a `usize`, `usize::MAX` if it is larger, 0 if negative.
fn to_usize_sat_exec(n: i128) -> (r: usize)
    ensures
        r == to_usize_sat(n as int),
{
    if n < 0 {
        0
    } else if n > usize::MAX as i128 {
        usize::MAX
    } else {
        n as usize
    }
}

/// Appends each line followed by a newline, the lines after the first
/// indented by `indent`.
fn push_help_lines(out: &mut Vec<char>, lines: &Vec<Vec<char>>, indent: &Vec<char>)
    ensures
        final(out)@ == old(out)@ + help_lines(char_views(lines@), indent@, true),
{
    let ghost lv = char_views(lines@);
    let ghost start = out@;
    let mut i: usize = 0;
    assert(lv.skip(0) =~= lv);
    while i < lines.len()
        invariant
            0 <= i <= lines@.len(),
            lv == char_views(lines@),
            start + help_lines(lv, indent@, true) == out@ + help_lines(lv.skip(i as int), indent@, i == 0),
        decreases lines@.len() - i,
    {
        assert(lv.skip(i as int)[0] == lines@[i as int]@);
        assert(lv.skip(i as int).drop_first() =~= lv.skip(i + 1));
        let ghost before = out@;
        if i > 0 {
            push_all(out, indent);
        }
        push_all(out, &lines[i]);
        out.push('\n');
        assert(before + ((if i == 0 {
            Seq::<char>::empty()
        } else {
            indent@
        }) + lines@[i as int]@ + seq!['\n'] + help_lines(lv.skip(i + 1), indent@, false)) =~= out@
            + help_lines(lv.skip(i + 1), indent@, false));
        i = i + 1;
    }
    assert(lv.skip(i as int) =~= Seq::<Seq<char>>::empty());
    assert(out@ + Seq::<char>::empty() =~= out@);
}

/// Appends each line followed by a newline.
fn push_text_lines(out: &mut Vec<char>, lines: &Vec<Vec<char>>)
    ensures
        final(out)@ == old(out)@ + text_lines(char_views(lines@)),
{
    let ghost lv = char_views(lines@);
    let ghost start = out@;
    let mut i: usize = 0;
    assert(lv.skip(0) =~= lv);
    while i < lines.len()
        invariant
            0 <= i <= lines@.len(),
            lv == char_views(lines@),
            start + text_lines(lv) == out@ + text_lines(lv.skip(i as int)),
        decreases lines@.len() - i,
    {
        assert(lv.skip(i as int)[0] == lines@[i as int]@);
        assert(lv.skip(i as int).drop_first() =~= lv.skip(i + 1));
        let ghost before = out@;
        push_all(out, &lines[i]);
        out.push('\n');
        assert(before + (lines@[i as int]@ + seq!['\n'] + text_lines(lv.skip(i + 1))) =~= out@
            + text_lines(lv.skip(i + 1)));
        i = i + 1;
    }
    assert(lv.skip(i as int) =~= Seq::<Seq<char>>::empty());
    assert(out@ + Seq::<char>::empty() =~= out@);
}

/// Appends `sep.join(parts)` with `sep` the character `sep`.
fn concat_parts(a: &Vec<Vec<char>>, b: &Vec<Vec<char>>) -> (r: Vec<Vec<char>>)
    ensures
        char_views(r@) == char_views(a@) + char_views(b@),
{
    let mut out: Vec<Vec<char>> = Vec::new();
    let mut i: usize = 0;
    while i < a.len()
        invariant
            0 <= i <= a@.len(),
            char_views(out@) == char_views(a@).take(i as int),
        decreases a@.len() - i,
    {
        let mut c: Vec<char> = Vec::new();
        push_all(&mut c, &a[i]);
        assert(c@ =~= a@[i as int]@);
        let ghost before = char_views(out@);
        out.push(c);
        assert(char_views(out@) =~= before.push(a@[i as int]@));
        assert(char_views(a@).take(i + 1) =~= char_views(a@).take(i as int).push(a@[i as int]@));
        i = i + 1;
    }
    let mut j: usize = 0;
    while j < b.len()
        invariant
            0 <= j <= b@.len(),
            char_views(out@) == char_views(a@) + char_views(b@).take(j as int),
        decreases b@.len() - j,
    {
        let mut c: Vec<char> = Vec::new();
        push_all(&mut c, &b[j]);
        assert(c@ =~= b@[j as int]@);
        let ghost before = char_views(out@);
        out.push(c);
        assert(char_views(out@) =~= before.push(b@[j as int]@));
        assert(char_views(b@).take(j + 1) =~= char_views(b@).take(j as int).push(b@[j as int]@));
        j = j + 1;
    }
    assert(char_views(a@).take(i as int) =~= char_views(a@));
    assert(char_views(b@).take(j as int) =~= char_views(b@));
    out
}

/// `[first] + rest`.
fn cons_part(first: &Vec<char>, rest: &Vec<Vec<char>>) -> (r: Vec<Vec<char>>)
    ensures
        char_views(r@) == seq![first@] + char_views(rest@),
{
    let mut one: Vec<Vec<char>> = Vec::new();
    let mut c: Vec<char> = Vec::new();
    push_all(&mut c, first);
    one.push(c);
    assert(char_views(one@) =~= seq![first@]);
    concat_parts(&one, rest)
}

impl ArgumentParser {
    /// The usage texts of the options or of the positionals.
    fn usage_texts(&self, positional: bool) -> (r: Vec<Vec<char>>)
        ensures
            char_views(r@) == usage_texts(self.arguments@, positional, 0),
    {
        let ghost a = self.arguments@;
        let mut out: Vec<Vec<char>> = Vec::new();
        let mut i: usize = 0;
        assert(char_views(out@) + usage_texts(a, positional, 0) =~= usage_texts(a, positional, 0));
        while i < self.arguments.len()
            invariant
                0 <= i <= a.len(),
                a == self.arguments@,
                usage_texts(a, positional, 0) == char_views(out@) + usage_texts(a, positional, i as int),
            decreases a.len() - i,
        {
            if self.arguments[i].is_positional() == positional {
                let ghost before = char_views(out@);
                out.push(self.arguments[i].usage_part());
                assert(char_views(out@) =~= before.push(usage_part(a[i as int])));
                assert(before.push(usage_part(a[i as int])) + usage_texts(a, positional, i + 1) =~= before
                    + (seq![usage_part(a[i as int])] + usage_texts(a, positional, i + 1)));
            }
            i = i + 1;
        }
        assert(char_views(out@) + Seq::<Seq<char>>::empty() =~= char_views(out@));
        out
    }

    /// The wrappable parts of the usage of the options or of the
    /// positionals.
    fn usage_parts(&self, positional: bool) -> (r: Vec<Vec<char>>)
        ensures
            char_views(r@) == spec_usage_parts(self.arguments@, positional),
    {
        let texts = self.usage_texts(positional);
        let usage = join_char(&texts, ' ');
        split_usage(&usage)
    }

    /// `_format_usage()`: `usage: ...` without the trailing blank line.
    fn usage_text(&self, width: i64) -> (r: Vec<char>)
        requires
            self.prog@.len() + 32 <= usize::MAX,
        ensures
            r@ == spec_usage_text(self.prog@, self.arguments@, width as int),
    {
        let prog = chars_of(self.prog.as_str());
        let option_parts = self.usage_parts(false);
        let positional_parts = self.usage_parts(true);
        let all = concat_parts(&option_parts, &positional_parts);
        let action_usage = join_char(&all, ' ');
        let mut full: Vec<char> = Vec::new();
        if prog.len() > 0 && action_usage.len() > 0 {
            push_all(&mut full, &prog);
            full.push(' ');
            push_all(&mut full, &action_usage);
        } else if prog.len() > 0 {
            push_all(&mut full, &prog);
        } else {
            push_all(&mut full, &action_usage);
        }
        assert(full@ =~= full_usage(prog@, join(char_views(option_parts@) + char_views(positional_parts@), seq![' '])));
        let prefix = chars_of(USAGE_PREFIX);
        proof {
            reveal_strlit("usage: ");
        }
        assert(prefix@.len() == 7);
        let mut out: Vec<char> = Vec::new();
        push_all(&mut out, &prefix);
        let total: u128 = (prefix.len() as u128) + (full.len() as u128);
        let total_sat: i128 = if total > i64::MAX as u128 {
            i64::MAX as i128
        } else {
            total as i128
        };
        if total_sat <= width as i128 {
            push_all(&mut out, &full);
            return out;
        }
        let prefix_bytes = utf8_len_exec(&prefix);
        let pb = prefix_bytes as usize;
        let pp: u128 = prefix_bytes + (prog.len() as u128);
        let pp_sat: i128 = if pp > i64::MAX as u128 {
            i64::MAX as i128
        } else {
            pp as i128
        };
        let lines: Vec<Vec<char>> = if 4 * pp_sat <= 3 * (width as i128) {
            let indent: usize = pb + prog.len() + 1;
            let first = if option_parts.len() == 0 {
                let parts = cons_part(&prog, &positional_parts);
                usage_lines(&parts, indent, Some(USAGE_PREFIX), width)
            } else {
                let parts = cons_part(&prog, &option_parts);
                usage_lines(&parts, indent, Some(USAGE_PREFIX), width)
            };
            if option_parts.len() > 0 && positional_parts.len() > 0 {
                let more = usage_lines(&positional_parts, indent, None, width);
                concat_parts(&first, &more)
            } else {
                first
            }
        } else {
            let all_lines = usage_lines(&all, pb, None, width);
            let lines = if all_lines.len() > 1 {
                let a = usage_lines(&option_parts, pb, None, width);
                let b = usage_lines(&positional_parts, pb, None, width);
                concat_parts(&a, &b)
            } else {
                all_lines
            };
            cons_part(&prog, &lines)
        };
        let joined = join_char(&lines, '\n');
        push_all(&mut out, &joined);
        out
    }

    /// `parser.format_usage()` for a terminal of `columns` columns (see
    /// [`crate::terminal`]).
    pub fn format_usage(&self, columns: i64) -> (r: String)
        requires
            self.prog@.len() + 32 <= usize::MAX,
        ensures
            r@ == spec_format_usage(self.prog@, self.arguments@, columns),
    {
        let mut out = self.usage_text(formatter_width(columns));
        out.push('\n');
        string_of(&out)
    }

    /// The help of one argument.
    fn arg_help(a: &Argument, action_width: i128, help_width: usize, help_indent: &Vec<char>) -> (r: Vec<char>)
        requires
            help_width >= 1,
        ensures
            r@ == arg_help(*a, action_width as int, help_width as nat, help_indent@),
    {
        let inv = a.invocation();
        let lines = wrap(a.help, help_width);
        let n: i128 = if inv.len() as u128 > i64::MAX as u128 {
            i64::MAX as i128
        } else {
            inv.len() as i128
        };
        let mut out: Vec<char> = Vec::new();
        out.push(' ');
        out.push(' ');
        if n <= action_width {
            let padded = pad_right_exec(&inv, to_usize_sat_exec(action_width));
            push_all(&mut out, &padded);
            out.push(' ');
            out.push(' ');
        } else {
            push_all(&mut out, &inv);
            out.push('\n');
            push_all(&mut out, help_indent);
        }
        let ghost head = out@;
        push_help_lines(&mut out, &lines, help_indent);
        out
    }

    /// A section of the help.
    fn section(&self, positional: bool, heading: &str, action_width: i128, help_width: usize, help_indent: &Vec<
        char,
    >) -> (r: Vec<char>)
        requires
            help_width >= 1,
        ensures
            r@ == section(
                self.arguments@,
                positional,
                heading@,
                action_width as int,
                help_width as nat,
                help_indent@,
            ),
    {
        let ghost a = self.arguments@;
        let mut any = false;
        let mut i: usize = 0;
        while i < self.arguments.len()
            invariant
                0 <= i <= a.len(),
                a == self.arguments@,
                any == exists|j: int| 0 <= j < i && is_positional(#[trigger] a[j]) == positional,
            decreases a.len() - i,
        {
            if self.arguments[i].is_positional() == positional {
                any = true;
            }
            i = i + 1;
        }
        let mut out: Vec<char> = Vec::new();
        if !any {
            return out;
        }
        out.push('\n');
        push_str(&mut out, heading);
        out.push(':');
        out.push('\n');
        let ghost head = out@;
        let mut k: usize = 0;
        assert(head + args_help(a, positional, 0, action_width as int, help_width as nat, help_indent@)
            == out@ + args_help(a, positional, 0, action_width as int, help_width as nat, help_indent@));
        while k < self.arguments.len()
            invariant
                0 <= k <= a.len(),
                a == self.arguments@,
                help_width >= 1,
                head + args_help(a, positional, 0, action_width as int, help_width as nat, help_indent@)
                    == out@ + args_help(
                    a,
                    positional,
                    k as int,
                    action_width as int,
                    help_width as nat,
                    help_indent@,
                ),
            decreases a.len() - k,
        {
            let ghost before = out@;
            if self.arguments[k].is_positional() == positional {
                let h = Self::arg_help(&self.arguments[k], action_width, help_width, help_indent);
                push_all(&mut out, &h);
                assert(before + (arg_help(a[k as int], action_width as int, help_width as nat, help_indent@)
                    + args_help(a, positional, k + 1, action_width as int, help_width as nat, help_indent@))
                    =~= out@ + args_help(a, positional, k + 1, action_width as int, help_width as nat, help_indent@));
            } else {
                assert(before + (Seq::<char>::empty() + args_help(a, positional, k + 1, action_width as int, help_width as nat, help_indent@))
                    =~= out@ + args_help(a, positional, k + 1, action_width as int, help_width as nat, help_indent@));
            }
            k = k + 1;
        }
        assert(out@ + Seq::<char>::empty() =~= out@);
        out
    }

    /// `parser.format_help()` for a terminal of `columns` columns.
    pub fn format_help(&self, columns: i64) -> (r: String)
        requires
            self.prog@.len() + 32 <= usize::MAX,
        ensures
            r@ == spec_format_help(self.prog@, self.description, self.arguments@, columns),
    {
        let ghost a = self.arguments@;
        let width = formatter_width(columns);
        let w = width as i128;
        let mut m = w - 20;
        if m < 4 {
            m = 4;
        }
        let max_help_position: i128 = if m < 24 {
            m
        } else {
            24
        };
        let mut action_max_length: i128 = 0;
        let mut i = self.arguments.len();
        while i > 0
            invariant
                0 <= i <= a.len(),
                a == self.arguments@,
                action_max_length == max_invocation(a, i as int),
                0 <= action_max_length <= i64::MAX + 2,
            decreases i,
        {
            let inv = self.arguments[i - 1].invocation();
            let n: i128 = if inv.len() as u128 > i64::MAX as u128 {
                i64::MAX as i128
            } else {
                inv.len() as i128
            };
            if n + 2 > action_max_length {
                action_max_length = n + 2;
            }
            i = i - 1;
        }
        let help_position: i128 = if action_max_length + 2 < max_help_position {
            action_max_length + 2
        } else {
            max_help_position
        };
        let hw = if w - help_position > 11 {
            w - help_position
        } else {
            11
        };
        let help_width = to_usize_sat_exec(hw);
        let action_width = help_position - 4;
        let help_indent = spaces_exec(to_usize_sat_exec(help_position));
        let mut out = self.usage_text(width);
        out.push('\n');
        let ghost desc = match self.description {
            Some(d) => seq!['\n'] + text_lines(spec_wrap(d@, to_usize_sat(max_int(width as int, 11)) as int)),
            None => seq![],
        };
        let ghost before_desc = out@;
        match self.description {
            Some(d) => {
                let tw = to_usize_sat_exec(if w > 11 {
                    w
                } else {
                    11
                });
                out.push('\n');
                let lines = wrap(d, tw);
                push_text_lines(&mut out, &lines);
            },
            None => {},
        }
        assert(out@ =~= before_desc + desc);
        let p = self.section(true, "positional arguments", action_width, help_width, &help_indent);
        push_all(&mut out, &p);
        let o = self.section(false, "options", action_width, help_width, &help_indent);
        push_all(&mut out, &o);
        string_of(&out)
    }

    /// What `parser.error(message)` writes to stderr: the usage and
    /// `{prog}: error: {message}`, encoded like Python's stderr
    /// (`backslashreplace`).
    pub fn format_error(&self, message: &PyStr, columns: i64) -> (r: String)
        requires
            self.prog@.len() + 32 <= usize::MAX,
        ensures
            r@ == spec_format_error(self.prog@, self.arguments@, message@, columns),
    {
        let mut out = self.usage_text(formatter_width(columns));
        out.push('\n');
        let prog = chars_of(self.prog.as_str());
        push_all(&mut out, &prog);
        push_str(&mut out, ": error: ");
        let m = message.encode_backslashreplace();
        let mc = chars_of(m.as_str());
        push_all(&mut out, &mc);
        out.push('\n');
        string_of(&out)
    }
}

} // verus!

verus! {

/// The help starts with the usage; then come the description (if any)
/// and the sections of the positional arguments and of the options, each
/// left out when it has no argument.
pub proof fn lemma_help_layout(prog: Seq<char>, description: Option<&'static str>, args: Seq<Argument>, columns: i64)
    ensures
        spec_format_help(prog, description, args, columns).take(spec_format_usage(prog, args, columns).len() as int)
            == spec_format_usage(prog, args, columns),
        ({
            let width = spec_formatter_width(columns);
            let help_position = min_int(max_invocation(args, 0) + 2, min_int(24, max_int(width - 20, 4)));
            let help_width = to_usize_sat(max_int(width - help_position, 11));
            let help_indent = spaces(to_usize_sat(help_position));
            spec_format_help(prog, description, args, columns) == spec_format_usage(prog, args, columns) + (
            match description {
                Some(d) => seq!['\n'] + text_lines(spec_wrap(d@, to_usize_sat(max_int(width, 11)) as int)),
                None => seq![],
            }) + (if any_of_kind(args, true) {
                "\npositional arguments:\n"@ + args_help(args, true, 0, help_position - 4, help_width, help_indent)
            } else {
                seq![]
            }) + (if any_of_kind(args, false) {
                "\noptions:\n"@ + args_help(args, false, 0, help_position - 4, help_width, help_indent)
            } else {
                seq![]
            })
        }),
{
    reveal_strlit("\npositional arguments:\n");
    reveal_strlit("\noptions:\n");
    reveal_strlit("positional arguments");
    reveal_strlit("options");
    let h = spec_format_help(prog, description, args, columns);
    let u = spec_format_usage(prog, args, columns);
    assert(seq!['\n'] + "positional arguments"@ + seq![':', '\n'] =~= "\npositional arguments:\n"@);
    assert(seq!['\n'] + "options"@ + seq![':', '\n'] =~= "\noptions:\n"@);
    assert(h.take(u.len() as int) =~= u);
}

/// The usage error: the usage, then `{prog}: error: {message}` (the
/// message encoded with `backslashreplace`) and a newline.
pub proof fn lemma_error_layout(prog: Seq<char>, args: Seq<Argument>, message: Seq<u32>, columns: i64)
    ensures
        spec_format_error(prog, args, message, columns) == spec_format_usage(prog, args, columns) + prog
            + ": error: "@ + backslashreplace(message) + seq!['\n'],
{
}

proof fn lemma_max_invocation_nonneg(args: Seq<Argument>, i: int)
    ensures
        max_invocation(args, i) >= 0,
    decreases args.len() - i,
{
    if 0 <= i < args.len() {
        lemma_max_invocation_nonneg(args, i + 1);
    }
}

/// Below a text width of 0 every part starts a new line: the lines do not
/// depend on how far below it is.
proof fn lemma_lines_from_narrow(
    parts: Seq<Seq<char>>,
    k: int,
    indent: nat,
    w1: int,
    w2: int,
    lines: Seq<Seq<char>>,
    line: Seq<Seq<char>>,
    line_len: int,
)
    requires
        w1 <= -1,
        w2 <= -1,
        line_len >= -1,
    ensures
        lines_from(parts, k, indent, w1, lines, line, line_len) == lines_from(parts, k, indent, w2, lines, line, line_len),
    decreases parts.len() - k,
{
    if 0 <= k < parts.len() {
        let part = parts[k];
        let wrap_now = line.len() > 0;
        let lines1 = if wrap_now {
            lines.push(spaces(indent) + join(line, seq![' ']))
        } else {
            lines
        };
        let line1 = if wrap_now {
            seq![part]
        } else {
            line.push(part)
        };
        let len1 = if wrap_now {
            indent - 1
        } else {
            line_len
        };
        lemma_lines_from_narrow(parts, k + 1, indent, w1, w2, lines1, line1, len1 + utf8_len(part) + 1);
    }
}

proof fn lemma_usage_text_narrow(prog: Seq<char>, args: Seq<Argument>, w1: int, w2: int)
    requires
        w1 <= -1,
        w2 <= -1,
    ensures
        spec_usage_text(prog, args, w1) == spec_usage_text(prog, args, w2),
{
    let option_parts = spec_usage_parts(args, false);
    let positional_parts = spec_usage_parts(args, true);
    let prefix_bytes = utf8_len(USAGE_PREFIX@);
    let all = option_parts + positional_parts;
    lemma_lines_from_narrow(all, 0, prefix_bytes, w1, w2, seq![], seq![], prefix_bytes - 1);
    lemma_lines_from_narrow(option_parts, 0, prefix_bytes, w1, w2, seq![], seq![], prefix_bytes - 1);
    lemma_lines_from_narrow(positional_parts, 0, prefix_bytes, w1, w2, seq![], seq![], prefix_bytes - 1);
}

/// A terminal narrower than three columns: the help, the usage and a
/// usage error are the same for every such width (every usage part on a
/// line of its own, help texts wrapped at 11 columns).
pub proof fn lemma_narrow_terminals(
    prog: Seq<char>,
    description: Option<&'static str>,
    args: Seq<Argument>,
    message: Seq<u32>,
    c: i64,
    d: i64,
)
    requires
        c <= 1,
        d <= 1,
    ensures
        spec_format_usage(prog, args, c) == spec_format_usage(prog, args, d),
        spec_format_help(prog, description, args, c) == spec_format_help(prog, description, args, d),
        spec_format_error(prog, args, message, c) == spec_format_error(prog, args, message, d),
{
    let w1 = spec_formatter_width(c);
    let w2 = spec_formatter_width(d);
    lemma_usage_text_narrow(prog, args, w1, w2);
    lemma_max_invocation_nonneg(args, 0);
}

} // verus!
