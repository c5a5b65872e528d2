//! The `fasm` tool (`fasm/tool.py`): prints a FASM file, or its canonical
//! lines, or `Error: ...` for a file it cannot read. This module holds the
//! tool's logic over the parsed lines: the text of each line, of the whole
//! output, the `--parser` check, and which of two parse errors the tool
//! reports (the positions in the file and the bytes that separate them).

use vstd::prelude::*;

pub mod canonical;

use crate::argparse::format::{spec_format_error, spec_format_help};
use crate::argparse::{
    fasm_tool_arguments, fasm_tool_parser, namespace_is, namespace_of, py_views, spec_parse_args, Argument,
    Namespace, OutcomeView, PROG,
};
use crate::fasm2frames::{start_is, start_with, Exit, Start};
use crate::pystr::{surrogateescape_encode, PyStr};
use crate::text::{bytes_of, push_all, push_str, push_str_bytes, str_eq, string_of, utf8_of};

verus! {

// ---------------------------------------------------------------------
// The command line.

/// What the tool does after parsing its command line.
#[derive(Clone, Debug, PartialEq, Eq)]
pub enum ToolStart {
    /// Exit (help, usage error).
    Exit(Exit),
    /// Print the file named in these arguments.
    Run(Namespace),
}

/// `s` is what the tool does with the parse outcome `o` of its arguments
/// `args` for a terminal of `columns` columns: the help on stdout (exit
/// code 0), a usage error on stderr (exit code 2), or the run.
pub open spec fn tool_start_is(s: ToolStart, o: OutcomeView, args: Seq<Argument>, columns: i64) -> bool {
    match o {
        OutcomeView::Help => s matches ToolStart::Exit(e) && e.code == 0 && e.stdout@ == spec_format_help(
            PROG@,
            None,
            args,
            columns,
        ) && e.stderr@.len() == 0,
        OutcomeView::Error(m) => s matches ToolStart::Exit(e) && e.code == 2 && e.stdout@.len() == 0
            && e.stderr@ == spec_format_error(PROG@, args, m, columns),
        OutcomeView::Run(entries) => s matches ToolStart::Run(ns) && namespace_is(ns, entries),
    }
}

/// What the tool does with the command line arguments `args` (without the
/// program name) for a terminal of `columns` columns.
pub fn start(args: &[PyStr], columns: i64) -> (r: ToolStart)
    ensures
        exists|a: Seq<Argument>|
            fasm_tool_arguments(a) && #[trigger] tool_start_is(r, spec_parse_args(a, py_views(args@)), a, columns),
{
    let p = fasm_tool_parser();
    proof {
        reveal_strlit("FASM tool");
    }
    let s = start_with(&p, args, columns, None);
    let r = match s {
        Start::Exit(e) => ToolStart::Exit(e),
        Start::Assemble(values) => ToolStart::Run(namespace_of(&values)),
    };
    assert(tool_start_is(r, spec_parse_args(p.arguments@, py_views(args@)), p.arguments@, columns));
    r
}

/// The `--parser` values that select the (only) parser: the Python
/// tool's `antlr` and `textx`, and `rust`.
pub open spec fn is_parser_name(s: Seq<u32>) -> bool {
    s == crate::text::code_points("antlr"@) || s == crate::text::code_points("textx"@)
        || s == crate::text::code_points("rust"@)
}

/// The `--parser` check: `Err` with the message of the tool for a parser
/// that is not available.
pub open spec fn spec_check_parser(parser: Option<Seq<u32>>) -> Result<(), Seq<u8>> {
    match parser {
        Some(p) => if is_parser_name(p) {
            Ok(())
        } else {
            Err(utf8_of("Parser '") + surrogateescape_encode(p) + utf8_of("' is not available."))
        },
        None => Ok(()),
    }
}

/// Checks `--parser` (see [`spec_check_parser`]).
pub fn check_parser(parser: Option<&PyStr>) -> (r: Result<(), Vec<u8>>)
    ensures
        match (r, spec_check_parser(match parser {
            Some(p) => Some(p@),
            None => None,
        })) {
            (Ok(()), Ok(())) => true,
            (Err(m), Err(n)) => m@ == n,
            _ => false,
        },
{
    match parser {
        None => Ok(()),
        Some(p) => {
            if p.eq_str("antlr") || p.eq_str("textx") || p.eq_str("rust") {
                Ok(())
            } else {
                let mut m = bytes_of("Parser '");
                let e = p.encode_surrogateescape();
                push_all(&mut m, &e);
                push_str_bytes(&mut m, "' is not available.");
                Err(m)
            }
        },
    }
}

/// The output of the tool for an error: `Error: ` and the message, on a
/// line of its own.
pub fn error_output(message: &[u8]) -> (r: Vec<u8>)
    ensures
        r@ == utf8_of("Error: ") + message@ + seq![10u8],
{
    let mut out = bytes_of("Error: ");
    let m = vstd::slice::slice_to_vec(message);
    push_all(&mut out, &m);
    out.push(10);
    out
}

// ---------------------------------------------------------------------
// Positions in the file.

/// A UTF-8 continuation byte (it does not start a code point).
pub open spec fn is_continuation(b: u8) -> bool {
    0x80 <= b < 0xC0
}

/// The number of code points in `bytes` as the parser counts columns:
/// the bytes that are not continuation bytes.
pub open spec fn spec_code_points(bytes: Seq<u8>) -> nat
    decreases bytes.len(),
{
    if bytes.len() == 0 {
        0
    } else {
        spec_code_points(bytes.drop_last()) + if is_continuation(bytes.last()) {
            0nat
        } else {
            1nat
        }
    }
}

proof fn lemma_code_points_le(bytes: Seq<u8>)
    ensures
        spec_code_points(bytes) <= bytes.len(),
    decreases bytes.len(),
{
    if bytes.len() > 0 {
        lemma_code_points_le(bytes.drop_last());
    }
}

/// The number of code points in `bytes` as the parser counts columns.
pub fn code_points(bytes: &[u8]) -> (r: usize)
    ensures
        r == spec_code_points(bytes@),
{
    let mut n: usize = 0;
    let mut i: usize = 0;
    while i < bytes.len()
        invariant
            0 <= i <= bytes@.len(),
            n == spec_code_points(bytes@.take(i as int)),
        decreases bytes@.len() - i,
    {
        assert(bytes@.take(i + 1).drop_last() =~= bytes@.take(i as int));
        proof {
            lemma_code_points_le(bytes@.take(i as int));
        }
        if !(0x80 <= bytes[i] && bytes[i] < 0xC0) {
            n = n + 1;
        }
        i = i + 1;
    }
    assert(bytes@.take(bytes@.len() as int) =~= bytes@);
    n
}

/// The UTF-8 byte order mark, skipped at the start of a file.
pub open spec fn has_bom(data: Seq<u8>) -> bool {
    data.len() >= 3 && data[0] == 0xEF && data[1] == 0xBB && data[2] == 0xBF
}

/// The first index at or after `from` holding `b`.
pub open spec fn find_byte(data: Seq<u8>, from: int, b: u8) -> Option<int>
    decreases data.len() - from,
{
    if from < 0 || from >= data.len() {
        None
    } else if data[from] == b {
        Some(from)
    } else {
        find_byte(data, from + 1, b)
    }
}

/// The offset of the start of line `start`'s `k`-th following line.
pub open spec fn skip_lines(data: Seq<u8>, start: int, k: nat) -> Option<int>
    decreases k,
{
    if k == 0 {
        Some(start)
    } else {
        match find_byte(data, start, 10) {
            Some(n) => skip_lines(data, n + 1, (k - 1) as nat),
            None => None,
        }
    }
}

/// The first offset at or after `p` that is not a continuation byte (or
/// past the end).
pub open spec fn skip_continuations(data: Seq<u8>, p: int) -> int
    decreases data.len() - p,
{
    if 0 <= p < data.len() && is_continuation(data[p]) {
        skip_continuations(data, p + 1)
    } else {
        p
    }
}

/// The offset `k` code points after `p`.
pub open spec fn advance(data: Seq<u8>, p: int, k: nat) -> int
    decreases k,
{
    if k == 0 {
        p
    } else {
        advance(data, skip_continuations(data, p + 1), (k - 1) as nat)
    }
}

/// The byte offset of the parser position `line`:`column` (lines count
/// from 1, columns in code points from 0; after a byte order mark), if it
/// is in the file or at its end.
pub open spec fn spec_byte_offset(data: Seq<u8>, line: nat, column: nat) -> Option<int> {
    let first: int = if has_bom(data) {
        3
    } else {
        0
    };
    let skipped: nat = if line >= 1 {
        (line - 1) as nat
    } else {
        0
    };
    match skip_lines(data, first, skipped) {
        Some(start) => {
            let p = advance(data, start, column);
            if p <= data.len() {
                Some(p)
            } else {
                None
            }
        },
        None => None,
    }
}

proof fn lemma_skip_continuations_ge(data: Seq<u8>, p: int)
    ensures
        skip_continuations(data, p) >= p,
        p <= data.len() ==> skip_continuations(data, p) <= data.len(),
    decreases data.len() - p,
{
    if 0 <= p < data.len() && is_continuation(data[p]) {
        lemma_skip_continuations_ge(data, p + 1);
    }
}

proof fn lemma_advance_ge(data: Seq<u8>, p: int, k: nat)
    ensures
        advance(data, p, k) >= p + k,
    decreases k,
{
    if k > 0 {
        lemma_skip_continuations_ge(data, p + 1);
        lemma_advance_ge(data, skip_continuations(data, p + 1), (k - 1) as nat);
    }
}

proof fn lemma_advance_step(data: Seq<u8>, p: int, k: nat)
    ensures
        advance(data, p, k + 1) == skip_continuations(data, advance(data, p, k) + 1),
    decreases k,
{
    let q = skip_continuations(data, p + 1);
    if k == 0 {
        assert(advance(data, p, 1) == advance(data, q, 0));
    } else {
        lemma_advance_step(data, q, (k - 1) as nat);
        assert(((k - 1) as nat + 1) as nat == k);
        assert(advance(data, p, k + 1) == advance(data, q, k));
        assert(advance(data, p, k) == advance(data, q, (k - 1) as nat));
    }
}

proof fn lemma_find_byte_in(data: Seq<u8>, from: int, b: u8)
    ensures
        find_byte(data, from, b) matches Some(n) ==> from <= n < data.len() && data[n] == b,
    decreases data.len() - from,
{
    if 0 <= from < data.len() && data[from] != b {
        lemma_find_byte_in(data, from + 1, b);
    }
}

/// The first `\n` at or after `from`.
fn next_newline(data: &[u8], from: usize) -> (r: Option<usize>)
    ensures
        r matches Some(n) ==> find_byte(data@, from as int, 10) == Some(n as int),
        r is None ==> find_byte(data@, from as int, 10) is None,
{
    let mut i = from;
    while i < data.len()
        invariant
            from <= i,
            find_byte(data@, from as int, 10) == find_byte(data@, i as int, 10),
        decreases data@.len() - i,
    {
        if data[i] == 10 {
            return Some(i);
        }
        i = i + 1;
    }
    None
}

/// The byte offset of the parser position `line`:`column` (see
/// [`spec_byte_offset`]).
pub fn byte_offset(data: &[u8], line: usize, column: usize) -> (r: Option<usize>)
    ensures
        r matches Some(p) ==> spec_byte_offset(data@, line as nat, column as nat) == Some(p as int),
        r is None ==> spec_byte_offset(data@, line as nat, column as nat) is None,
{
    let n = data.len();
    let first: usize = if n >= 3 && data[0] == 0xEF && data[1] == 0xBB && data[2] == 0xBF {
        3
    } else {
        0
    };
    let ghost skipped: nat = if line >= 1 {
        (line - 1) as nat
    } else {
        0
    };
    assert(first as int == (if has_bom(data@) { 3int } else { 0int }));
    let mut start = first;
    let mut k: usize = 1;
    while k < line
        invariant
            1 <= k,
            k <= line || (line == 0 && k == 1),
            start <= n,
            n == data@.len(),
            skip_lines(data@, first as int, skipped) == skip_lines(data@, start as int, (skipped - (k - 1)) as nat),
            skipped == (if line >= 1 { (line - 1) as nat } else { 0nat }),
            first as int == (if has_bom(data@) { 3int } else { 0int }),
        decreases line - k,
    {
        let ghost m: nat = (skipped - (k - 1)) as nat;
        assert(m >= 1);
        match next_newline(data, start) {
            Some(p) => {
                proof {
                    lemma_find_byte_in(data@, start as int, 10);
                    assert(skip_lines(data@, start as int, m) == skip_lines(data@, p + 1, (m - 1) as nat));
                }
                start = p + 1;
            },
            None => {
                assert(skip_lines(data@, start as int, m) is None);
                return None;
            },
        }
        k = k + 1;
        assert((skipped - (k - 1)) as nat == (m - 1) as nat);
    }
    assert((skipped - (k - 1)) as nat == 0);
    assert(skip_lines(data@, first as int, skipped) == Some(start as int));
    let mut position = start;
    let mut seen: usize = 0;
    while seen < column
        invariant
            0 <= seen <= column,
            position <= n,
            n == data@.len(),
            advance(data@, start as int, seen as nat) == position,
            skip_lines(data@, first as int, skipped) == Some(start as int),
            skipped == (if line >= 1 { (line - 1) as nat } else { 0nat }),
            first as int == (if has_bom(data@) { 3int } else { 0int }),
        decreases column - seen,
    {
        proof {
            lemma_advance_step(data@, start as int, seen as nat);
        }
        if position == n {
            proof {
                lemma_skip_continuations_ge(data@, position + 1);
                lemma_advance_ge(
                    data@,
                    advance(data@, start as int, (seen + 1) as nat),
                    (column - seen - 1) as nat,
                );
                lemma_advance_split(data@, start as int, (seen + 1) as nat, (column - seen - 1) as nat);
            }
            return None;
        }
        position = position + 1;
        while position < n && 0x80 <= data[position] && data[position] < 0xC0
            invariant
                position <= n,
                n == data@.len(),
                skip_continuations(data@, position as int) == advance(data@, start as int, (seen + 1) as nat),
            decreases n - position,
        {
            position = position + 1;
        }
        seen = seen + 1;
    }
    Some(position)
}

proof fn lemma_advance_split(data: Seq<u8>, p: int, a: nat, b: nat)
    ensures
        advance(data, p, a + b) == advance(data, advance(data, p, a), b),
    decreases a,
{
    if a > 0 {
        lemma_advance_split(data, skip_continuations(data, p + 1), (a - 1) as nat, b);
        assert((a + b - 1) as nat == ((a - 1) as nat + b) as nat);
    }
}

/// The offset of the first `\n` or `\r` at or after `i` (or the end).
pub open spec fn comment_end(data: Seq<u8>, i: int) -> int
    decreases data.len() - i,
{
    if i < 0 || i >= data.len() {
        data.len() as int
    } else if data[i] == 10 || data[i] == 13 {
        i
    } else {
        comment_end(data, i + 1)
    }
}

/// The end of the logical line from `i`, scanning outside (`quoted` false)
/// or inside an annotation value.
pub open spec fn line_end_from(data: Seq<u8>, i: int, quoted: bool) -> int
    decreases data.len() - i,
{
    if i < 0 || i >= data.len() {
        data.len() as int
    } else if quoted {
        if data[i] == 92 {
            if i + 2 >= data.len() {
                data.len() as int
            } else {
                line_end_from(data, i + 2, true)
            }
        } else if data[i] == 34 {
            line_end_from(data, i + 1, false)
        } else {
            line_end_from(data, i + 1, true)
        }
    } else if data[i] == 10 || data[i] == 13 {
        i
    } else if data[i] == 35 {
        comment_end(data, i)
    } else if data[i] == 34 {
        line_end_from(data, i + 1, true)
    } else {
        line_end_from(data, i + 1, false)
    }
}

/// The offset of the line terminator (`\n` or `\r`) that ends the FASM
/// line that `position` is in, before any comment (or the end of `data`):
/// terminators inside annotation values (between `"`s, where `\` escapes
/// the next byte) do not end the line.
pub fn logical_line_end(data: &[u8], position: usize) -> (r: usize)
    ensures
        r == line_end_from(data@, position as int, false),
{
    let n = data.len();
    let mut i = position;
    let mut quoted = false;
    while i < n
        invariant
            n == data@.len(),
            line_end_from(data@, position as int, false) == line_end_from(data@, i as int, quoted),
        decreases n - i,
    {
        let b = data[i];
        if quoted {
            if b == 92 {
                if n - i <= 2 {
                    return n;
                }
                i = i + 2;
            } else {
                if b == 34 {
                    quoted = false;
                }
                i = i + 1;
            }
        } else if b == 10 || b == 13 {
            return i;
        } else if b == 35 {
            let mut j = i;
            while j < n && data[j] != 10 && data[j] != 13
                invariant
                    i <= j <= n,
                    n == data@.len(),
                    comment_end(data@, i as int) == comment_end(data@, j as int),
                decreases n - j,
            {
                j = j + 1;
            }
            return j;
        } else {
            if b == 34 {
                quoted = true;
            }
            i = i + 1;
        }
    }
    n
}

} // verus!

verus! {

// ---------------------------------------------------------------------
// Which parse error is reported.

/// The number of bytes `b` in `s`.
pub open spec fn count_byte(s: Seq<u8>, b: u8) -> nat
    decreases s.len(),
{
    if s.len() == 0 {
        0
    } else {
        count_byte(s.drop_last(), b) + if s.last() == b {
            1nat
        } else {
            0nat
        }
    }
}

/// Where parsing resumes after a value range error at `line`:`column`:
/// the offset of the terminator that ends the error's FASM line, and the
/// parser position of that offset (`None` if the position is not in the
/// file, or the line is the last one).
pub open spec fn spec_resume(data: Seq<u8>, line: nat, column: nat) -> Option<(int, nat, nat)> {
    match spec_byte_offset(data, line, column) {
        None => None,
        Some(p) => {
            let end = line_end_from(data, p, false);
            if end >= data.len() {
                None
            } else {
                let skipped = data.subrange(p, end);
                match crate::gflags::last_index_of_byte(skipped, 10) {
                    None => Some((end, line, column + spec_code_points(skipped))),
                    Some(last) => Some(
                        (end, line + count_byte(skipped, 10), spec_code_points(skipped.skip(last + 1))),
                    ),
                }
            }
        },
    }
}

/// Where parsing resumes after a value range error (see [`spec_resume`]).
#[derive(Clone, Copy, Debug, PartialEq, Eq, Structural)]
pub struct Resume {
    /// The offset of the line terminator the parse resumes at.
    pub end: usize,
    /// Its line.
    pub line: usize,
    /// Its column.
    pub column: usize,
}

proof fn lemma_skip_lines_ge(data: Seq<u8>, start: int, k: nat)
    ensures
        skip_lines(data, start, k) matches Some(s) ==> s >= start + k,
    decreases k,
{
    if k > 0 {
        lemma_find_byte_in(data, start, 10);
        if let Some(n) = find_byte(data, start, 10) {
            lemma_skip_lines_ge(data, n + 1, (k - 1) as nat);
        }
    }
}

proof fn lemma_line_end_ge(data: Seq<u8>, i: int, quoted: bool)
    ensures
        0 <= i ==> i <= line_end_from(data, i, quoted) || line_end_from(data, i, quoted) == data.len(),
        line_end_from(data, i, quoted) <= data.len(),
    decreases data.len() - i,
{
    if 0 <= i < data.len() {
        if quoted {
            if data[i] == 92 {
                if i + 2 < data.len() {
                    lemma_line_end_ge(data, i + 2, true);
                }
            } else if data[i] == 34 {
                lemma_line_end_ge(data, i + 1, false);
            } else {
                lemma_line_end_ge(data, i + 1, true);
            }
        } else if data[i] == 10 || data[i] == 13 {
        } else if data[i] == 35 {
            lemma_comment_end(data, i);
        } else if data[i] == 34 {
            lemma_line_end_ge(data, i + 1, true);
        } else {
            lemma_line_end_ge(data, i + 1, false);
        }
    }
}

proof fn lemma_comment_end(data: Seq<u8>, i: int)
    ensures
        0 <= i ==> i <= comment_end(data, i) || comment_end(data, i) == data.len(),
        comment_end(data, i) <= data.len(),
    decreases data.len() - i,
{
    if 0 <= i < data.len() && data[i] != 10 && data[i] != 13 {
        lemma_comment_end(data, i + 1);
    }
}

proof fn lemma_count_byte_le(s: Seq<u8>, b: u8)
    ensures
        count_byte(s, b) <= s.len(),
    decreases s.len(),
{
    if s.len() > 0 {
        lemma_count_byte_le(s.drop_last(), b);
    }
}

/// Where parsing resumes after a value range error at `line`:`column`
/// (see [`spec_resume`]).
pub fn resume(data: &[u8], line: usize, column: usize) -> (r: Option<Resume>)
    ensures
        match (r, spec_resume(data@, line as nat, column as nat)) {
            (Some(x), Some(y)) => x.end == y.0 && x.line == y.1 && x.column == y.2,
            (None, None) => true,
            _ => false,
        },
{
    let p = match byte_offset(data, line, column) {
        Some(p) => p,
        None => {
            return None;
        },
    };
    let end = logical_line_end(data, p);
    let n = data.len();
    if end >= n {
        return None;
    }
    proof {
        lemma_line_end_ge(data@, p as int, false);
        let first: int = if has_bom(data@) { 3 } else { 0 };
        let skipped: nat = if line >= 1 { (line - 1) as nat } else { 0 };
        lemma_skip_lines_ge(data@, first, skipped);
        let start = skip_lines(data@, first, skipped)->0;
        lemma_advance_ge(data@, start, column as nat);
        assert(p as int == advance(data@, start, column as nat));
        assert(p >= column);
        assert(p >= line - 1);
    }
    // The newlines between `p` and `end`, and the last one.
    let mut newlines: usize = 0;
    let mut last: Option<usize> = None;
    let mut i = p;
    while i < end
        invariant
            p <= i <= end < n,
            n == data@.len(),
            newlines == count_byte(data@.subrange(p as int, i as int), 10),
            match last {
                Some(l) => p <= l < i && crate::gflags::last_index_of_byte(data@.subrange(p as int, i as int), 10)
                    == Some(l - p),
                None => crate::gflags::last_index_of_byte(data@.subrange(p as int, i as int), 10) is None,
            },
        decreases end - i,
    {
        assert(data@.subrange(p as int, i + 1).drop_last() =~= data@.subrange(p as int, i as int));
        proof {
            lemma_count_byte_le(data@.subrange(p as int, i as int), 10);
        }
        if data[i] == 10 {
            newlines = newlines + 1;
            last = Some(i);
        }
        i = i + 1;
    }
    let ghost skipped = data@.subrange(p as int, end as int);
    let from = match last {
        Some(l) => l + 1,
        None => p,
    };
    let mut cps: usize = 0;
    let mut k = from;
    while k < end
        invariant
            p <= from <= k <= end < n,
            n == data@.len(),
            cps == spec_code_points(data@.subrange(from as int, k as int)),
        decreases end - k,
    {
        assert(data@.subrange(from as int, k + 1).drop_last() =~= data@.subrange(from as int, k as int));
        proof {
            lemma_code_points_le(data@.subrange(from as int, k as int));
        }
        if !(0x80 <= data[k] && data[k] < 0xC0) {
            cps = cps + 1;
        }
        k = k + 1;
    }
    proof {
        lemma_code_points_le(data@.subrange(from as int, end as int));
    }
    match last {
        None => {
            assert(data@.subrange(from as int, end as int) =~= skipped);
            Some(Resume { end, line, column: column + cps })
        },
        Some(l) => {
            assert(data@.subrange(from as int, end as int) =~= skipped.skip(l - p + 1));
            proof {
                lemma_count_byte_le(skipped, 10);
            }
            Some(Resume { end, line: line + newlines, column: cps })
        },
    }
}

/// The position in the file of the error at `next_line`:`next_column` of
/// the text parsed from `r.end`: its first line continues the line of
/// `r.end`.
pub open spec fn spec_next_position(r: Resume, next_line: nat, next_column: nat) -> (int, int) {
    if next_line == 1 {
        (r.line as int, r.column + next_column)
    } else {
        (r.line + next_line - 1, next_column as int)
    }
}

/// The position in the file of an error at `next_line`:`next_column`
/// (lines from 1) of the text parsed from `r.end`.
pub fn next_position(r: Resume, next_line: usize, next_column: usize) -> (p: (usize, usize))
    requires
        next_line >= 1,
        r.line + next_line - 1 <= usize::MAX,
        r.column + next_column <= usize::MAX,
    ensures
        (p.0 as int, p.1 as int) == spec_next_position(r, next_line as nat, next_column as nat),
{
    if next_line == 1 {
        (r.line, r.column + next_column)
    } else {
        (r.line + (next_line - 1), next_column)
    }
}

/// A parse error as the choice of the reported error sees it: its
/// position, and whether it is a value range error (one that is only
/// detected once the whole file has been read).
#[derive(Clone, Copy, Debug, PartialEq, Eq, Structural)]
pub struct ErrorAt {
    /// Its line (from 1).
    pub line: usize,
    /// Its column.
    pub column: usize,
    /// Whether it is a value range error.
    pub late: bool,
}

/// What to do with the error at hand while choosing the reported one.
#[derive(Clone, Copy, Debug, PartialEq, Eq, Structural)]
pub enum ReportStep {
    /// Report the error at hand.
    ReportCurrent,
    /// Report the file's first error.
    ReportFirst,
    /// Parse the file from `Resume::end` on, and hand its first error
    /// (if any) to [`error_after`].
    ParseFrom(Resume),
}

/// The step for the error `current` of the file `data`: a syntax error is
/// reported; after a value range error the parse resumes at the end of
/// its FASM line, unless that line is the last one (then the file's first
/// error is reported).
pub open spec fn spec_report_step(data: Seq<u8>, current: ErrorAt) -> ReportStep {
    if !current.late {
        ReportStep::ReportCurrent
    } else {
        match spec_resume(data, current.line as nat, current.column as nat) {
            None => ReportStep::ReportFirst,
            Some(y) => ReportStep::ParseFrom(Resume { end: y.0 as usize, line: y.1 as usize, column: y.2 as usize }),
        }
    }
}

/// The step for the error `current` of the file `data` (see
/// [`spec_report_step`]).
pub fn report_step(data: &[u8], current: ErrorAt) -> (r: ReportStep)
    ensures
        r == spec_report_step(data@, current),
        r matches ReportStep::ParseFrom(x) ==> x.end < data@.len(),
{
    if !current.late {
        return ReportStep::ReportCurrent;
    }
    match resume(data, current.line, current.column) {
        None => ReportStep::ReportFirst,
        Some(x) => {
            proof {
                lemma_resume_in_file(data@, current.line as nat, current.column as nat);
            }
            ReportStep::ParseFrom(x)
        },
    }
}

proof fn lemma_resume_in_file(data: Seq<u8>, line: nat, column: nat)
    ensures
        spec_resume(data, line, column) matches Some(y) ==> 0 <= y.0 < data.len(),
{
    if let Some(p) = spec_byte_offset(data, line, column) {
        lemma_line_end_ge(data, p, false);
    }
}

/// The error that takes the place of the one at hand, given the first
/// error `next` of the text parsed from `r.end` (its position counted in
/// that text): `None` (report the file's first error) where that text has
/// none, else `next` placed in the file.
pub open spec fn spec_error_after(r: Resume, next: Option<ErrorAt>) -> Option<ErrorAt> {
    match next {
        None => None,
        Some(e) => {
            let p = spec_next_position(r, e.line as nat, e.column as nat);
            Some(ErrorAt { line: p.0 as usize, column: p.1 as usize, late: e.late })
        },
    }
}

/// The error that takes the place of the one at hand (see
/// [`spec_error_after`]).
pub fn error_after(r: Resume, next: Option<ErrorAt>) -> (e: Option<ErrorAt>)
    requires
        next matches Some(n) ==> n.line >= 1 && r.line + n.line - 1 <= usize::MAX && r.column + n.column
            <= usize::MAX,
    ensures
        e == spec_error_after(r, next),
{
    match next {
        None => None,
        Some(n) => {
            let (line, column) = next_position(r, n.line, n.column);
            Some(ErrorAt { line, column, late: n.late })
        },
    }
}

} // verus!

verus! {

// ---------------------------------------------------------------------
// The text of the lines.

/// The parts of a FASM line, as text: the set feature (as the FASM
/// library writes it), the annotations (name and value), the comment.
#[derive(Clone, Debug, PartialEq, Eq)]
pub struct LineParts {
    /// The set feature.
    pub feature: Option<String>,
    /// The annotations.
    pub annotations: Vec<(String, String)>,
    /// The comment, without its `#`.
    pub comment: Option<String>,
}

/// The annotations `a` as `fasm_line_to_string` joins them:
/// `name = "value"`, separated by `, `.
pub open spec fn annotations_text(a: Seq<(Seq<char>, Seq<char>)>) -> Seq<char>
    decreases a.len(),
{
    if a.len() == 0 {
        seq![]
    } else {
        annotations_text(a.drop_last()) + (if a.len() > 1 {
            ", "@
        } else {
            seq![]
        }) + a.last().0 + " = \""@ + a.last().1 + "\""@
    }
}

/// The views of the annotations.
pub open spec fn annotation_views(a: Seq<(String, String)>) -> Seq<(Seq<char>, Seq<char>)> {
    a.map_values(|p: (String, String)| (p.0@, p.1@))
}

/// `fasm_line_to_string(line, canonical=False)`: the feature, the
/// annotation block (`{ ... }`, if there are annotations) and the comment
/// (`#...`), separated by single spaces.
pub open spec fn spec_line_text(
    feature: Option<Seq<char>>,
    annotations: Seq<(Seq<char>, Seq<char>)>,
    comment: Option<Seq<char>>,
) -> Seq<char> {
    let t1 = match feature {
        Some(f) => f,
        None => seq![],
    };
    let t2 = if annotations.len() > 0 {
        (if feature is Some {
            t1 + " "@
        } else {
            t1
        }) + "{ "@ + annotations_text(annotations) + " }"@
    } else {
        t1
    };
    let empty = feature is None && annotations.len() == 0;
    match comment {
        Some(c) => (if empty {
            t2
        } else {
            t2 + " "@
        }) + "#"@ + c,
        None => t2,
    }
}

fn push_annotations(out: &mut Vec<char>, a: &Vec<(String, String)>)
    ensures
        final(out)@ == old(out)@ + annotations_text(annotation_views(a@)),
{
    let ghost start = out@;
    let ghost views = annotation_views(a@);
    let mut i: usize = 0;
    while i < a.len()
        invariant
            0 <= i <= a@.len(),
            views == annotation_views(a@),
            out@ == start + annotations_text(views.take(i as int)),
        decreases a@.len() - i,
    {
        proof {
            reveal_strlit(", ");
            reveal_strlit(" = \"");
            reveal_strlit("\"");
        }
        assert(views.take(i + 1).drop_last() =~= views.take(i as int));
        assert(views.take(i + 1).last() == (a@[i as int].0@, a@[i as int].1@));
        if i > 0 {
            push_str(out, ", ");
        }
        push_str(out, a[i].0.as_str());
        push_str(out, " = \"");
        push_str(out, a[i].1.as_str());
        push_str(out, "\"");
        i = i + 1;
    }
    assert(views.take(a@.len() as int) =~= views);
}

/// `fasm_line_to_string(line, canonical=False)` (see [`spec_line_text`]).
pub fn line_text(line: &LineParts) -> (r: String)
    ensures
        r@ == spec_line_text(
            match line.feature {
                Some(f) => Some(f@),
                None => None,
            },
            annotation_views(line.annotations@),
            match line.comment {
                Some(c) => Some(c@),
                None => None,
            },
        ),
{
    let mut out: Vec<char> = Vec::new();
    let mut empty = true;
    if let Some(f) = &line.feature {
        push_str(&mut out, f.as_str());
        empty = false;
    }
    if line.annotations.len() > 0 {
        if !empty {
            push_str(&mut out, " ");
        }
        push_str(&mut out, "{ ");
        push_annotations(&mut out, &line.annotations);
        push_str(&mut out, " }");
        empty = false;
    }
    if let Some(c) = &line.comment {
        if !empty {
            push_str(&mut out, " ");
        }
        push_str(&mut out, "#");
        push_str(&mut out, c.as_str());
    }
    string_of(&out)
}

/// The lines `lines`, each followed by a newline.
pub open spec fn lines_text(lines: Seq<Seq<char>>) -> Seq<char>
    decreases lines.len(),
{
    if lines.len() == 0 {
        seq![]
    } else {
        lines_text(lines.drop_last()) + lines.last() + seq!['\n']
    }
}

/// `print(fasm_tuple_to_string(lines))` for lines with the texts `lines`:
/// every line followed by a newline (a lone newline for no lines), then
/// the newline of `print`.
pub open spec fn spec_output_text(lines: Seq<Seq<char>>) -> Seq<char> {
    lines_text(lines) + (if lines.len() == 0 {
        seq!['\n']
    } else {
        seq![]
    }) + seq!['\n']
}

/// The views of strings.
pub open spec fn string_views(v: Seq<String>) -> Seq<Seq<char>> {
    v.map_values(|s: String| s@)
}

/// The output of the tool for lines with the texts `lines` (see
/// [`spec_output_text`]).
pub fn output_text(lines: &Vec<String>) -> (r: String)
    ensures
        r@ == spec_output_text(string_views(lines@)),
{
    let ghost views = string_views(lines@);
    let mut out: Vec<char> = Vec::new();
    let mut i: usize = 0;
    while i < lines.len()
        invariant
            0 <= i <= lines@.len(),
            views == string_views(lines@),
            out@ == lines_text(views.take(i as int)),
        decreases lines@.len() - i,
    {
        assert(views.take(i + 1).drop_last() =~= views.take(i as int));
        push_str(&mut out, lines[i].as_str());
        out.push('\n');
        i = i + 1;
    }
    assert(views.take(lines@.len() as int) =~= views);
    if lines.len() == 0 {
        out.push('\n');
    }
    out.push('\n');
    string_of(&out)
}

} // verus!
