//! The front of the `fasm2frames` tool (the `xc_fasm.fasm2frames` console
//! script of f4pga-xc-fasm: FASM to `.frm` frames): its command line
//! (Python's argparse, [`crate::argparse`]), with the defaults that
//! `prjxray.util` takes from the environment, and what it prints for help
//! and usage errors.

use vstd::prelude::*;

use crate::argparse::format::{spec_format_error, spec_format_help};
use crate::argparse::{
    outcome_view, py_views, spec_parse_args, Argument, ArgumentParser, Kind, Nargs, Outcome, OutcomeView,
    Values,
};
use crate::pystr::PyStr;
use crate::text::{chars_of, code_points, push_all, string_of};

verus! {

/// The environment variables `prjxray.util` reads for the defaults.
#[derive(Clone, Debug, Default, PartialEq, Eq)]
pub struct Environment {
    /// `XRAY_DATABASE_DIR`.
    pub xray_database_dir: Option<PyStr>,
    /// `XRAY_DATABASE`.
    pub xray_database: Option<PyStr>,
    /// `XRAY_PART`.
    pub xray_part: Option<PyStr>,
}

/// `os.path.join(a, b)` (POSIX).
pub open spec fn spec_path_join(a: Seq<u32>, b: Seq<u32>) -> Seq<u32> {
    if (b.len() > 0 && b[0] == 47) || a.len() == 0 {
        b
    } else if a.last() == 47 {
        a + b
    } else {
        a.push(47) + b
    }
}

/// `os.path.join(a, b)` (POSIX).
pub fn path_join(a: &PyStr, b: &PyStr) -> (r: PyStr)
    ensures
        r@ == spec_path_join(a@, b@),
{
    if b.at(0) == Some(47u32) || a.is_empty() {
        return b.copy();
    }
    let mut out = a.copy();
    let n = out.0.len();
    if out.0[n - 1] != 47 {
        out.0.push(47);
    }
    push_all(&mut out.0, &b.0);
    out
}

/// `a` is the argument with these fields.
pub open spec fn argument_with(
    a: Argument,
    options: Seq<&'static str>,
    dest: &'static str,
    kind: Kind,
    nargs: Nargs,
    required: bool,
    default: Option<Seq<u32>>,
    help: &'static str,
) -> bool {
    &&& a.option_strings@ == options
    &&& a.dest == dest
    &&& a.kind == kind
    &&& a.nargs == nargs
    &&& a.required == required
    &&& crate::pystr::opt_seq(a.default) == default
    &&& a.help == help
}

/// `-h, --help`.
pub open spec fn is_help_argument(a: Argument) -> bool {
    argument_with(
        a,
        seq!["-h", "--help"],
        "help",
        Kind::Help,
        Nargs::Zero,
        false,
        None,
        "show this help message and exit",
    )
}

/// `add_argument(option, action='store_true', help=help)`.
pub open spec fn is_flag(a: Argument, option: &'static str, dest: &'static str, help: &'static str) -> bool {
    argument_with(a, seq![option], dest, Kind::StoreTrue, Nargs::Zero, false, None, help)
}

/// `add_argument(option, help=help)`, with `required` and `default`.
pub open spec fn is_option(
    a: Argument,
    option: &'static str,
    dest: &'static str,
    required: bool,
    default: Option<Seq<u32>>,
    help: &'static str,
) -> bool {
    argument_with(a, seq![option], dest, Kind::Store, Nargs::One, required, default, help)
}

/// The default of `--db-root`: `XRAY_DATABASE_DIR` joined with
/// `XRAY_DATABASE`, if both are set.
pub open spec fn db_root_default(env: Environment) -> Option<Seq<u32>> {
    match (env.xray_database_dir, env.xray_database) {
        (Some(dir), Some(database)) => Some(spec_path_join(dir@, database@)),
        _ => None,
    }
}

/// `--db-root` (`prjxray.util.db_root_arg`): required unless the
/// environment gives its default.
pub open spec fn is_db_root(a: Argument, env: Environment) -> bool {
    is_option(a, "--db-root", "db_root", db_root_default(env) is None, db_root_default(env), "Database root.")
}

/// `--part` (`part_arg`): required unless the environment gives its
/// default.
pub open spec fn is_part(a: Argument, env: Environment, help: &'static str) -> bool {
    is_option(a, "--part", "part", env.xray_part is None, crate::pystr::opt_seq(env.xray_part), help)
}

/// The description of the parsers.
pub const DESCRIPTION: &'static str = "Convert FPGA configuration description (\"FPGA assembly\") into binary frame equivalent";

/// The arguments of `fasm2frames` for the environment `env`.
pub open spec fn fasm2frames_arguments(args: Seq<Argument>, env: Environment) -> bool {
    &&& args.len() == 9
    &&& is_help_argument(args[0])
    &&& is_db_root(args[1], env)
    &&& is_part(args[2], env, "Part name. When not given defaults to XRAY_PART env. var.")
    &&& is_flag(args[3], "--sparse", "sparse", "Don't zero fill all frames")
    &&& is_option(
        args[4],
        "--roi",
        "roi",
        false,
        None,
        "ROI design.json file defining which tiles are within the ROI.",
    )
    &&& is_flag(
        args[5],
        "--emit_pudc_b_pullup",
        "emit_pudc_b_pullup",
        "Emit an IBUF and PULLUP on the PUDC_B pin if unused",
    )
    &&& is_flag(args[6], "--debug", "debug", "Print debug dump")
    &&& argument_with(
        args[7],
        seq![],
        "fn_in",
        Kind::Store,
        Nargs::One,
        true,
        None,
        "Input FPGA assembly (.fasm) file",
    )
    &&& argument_with(
        args[8],
        seq![],
        "fn_out",
        Kind::Store,
        Nargs::Optional,
        false,
        Some(code_points("/dev/stdout"@)),
        "Output FPGA frame (.frm) file",
    )
}

/// `--db-root` for the environment `env`.
pub fn db_root_argument(env: &Environment) -> (r: Argument)
    ensures
        is_db_root(r, *env),
{
    let db_root = Argument::option("--db-root", "db_root", "Database root.");
    match (&env.xray_database_dir, &env.xray_database) {
        (Some(dir), Some(database)) => db_root.required(false).default(path_join(dir, database)),
        _ => db_root.required(true),
    }
}

/// `--part` for the environment `env`.
pub fn part_argument(env: &Environment, help: &'static str) -> (r: Argument)
    ensures
        is_part(r, *env, help),
{
    let part = Argument::option("--part", "part", help);
    match &env.xray_part {
        Some(value) => part.required(false).default(value.copy()),
        None => part.required(true),
    }
}

/// The argument parser of `xc_fasm.fasm2frames.main`.
pub fn parser(prog: &str, env: &Environment) -> (r: ArgumentParser)
    ensures
        r.prog@ == prog@,
        r.description == Some(DESCRIPTION),
        fasm2frames_arguments(r.arguments@, *env),
{
    let mut arguments: Vec<Argument> = Vec::new();
    arguments.push(Argument::help());
    arguments.push(db_root_argument(env));
    arguments.push(part_argument(env, "Part name. When not given defaults to XRAY_PART env. var."));
    arguments.push(Argument::flag("--sparse", "sparse", "Don't zero fill all frames"));
    arguments.push(
        Argument::option("--roi", "roi", "ROI design.json file defining which tiles are within the ROI."),
    );
    arguments.push(
        Argument::flag(
            "--emit_pudc_b_pullup",
            "emit_pudc_b_pullup",
            "Emit an IBUF and PULLUP on the PUDC_B pin if unused",
        ),
    );
    arguments.push(Argument::flag("--debug", "debug", "Print debug dump"));
    arguments.push(Argument::positional("fn_in", "Input FPGA assembly (.fasm) file"));
    arguments.push(
        Argument::positional("fn_out", "Output FPGA frame (.frm) file").optional().default(
            PyStr::from_str("/dev/stdout"),
        ),
    );
    ArgumentParser { prog: prog.to_string(), description: Some(DESCRIPTION), arguments }
}

/// The program name argparse derives from `argv[0]`
/// (`os.path.basename(sys.argv[0])`): the text after the last `/`.
pub open spec fn spec_prog_name(argv0: Seq<char>) -> Seq<char>
    decreases argv0.len(),
{
    if argv0.len() == 0 {
        argv0
    } else if argv0.last() == '/' {
        seq![]
    } else {
        spec_prog_name(argv0.drop_last()).push(argv0.last())
    }
}

/// The program name argparse derives from `argv[0]` (already decoded,
/// lossily).
pub fn prog_name(argv0: &str) -> (r: String)
    ensures
        r@ == spec_prog_name(argv0@),
{
    let chars = chars_of(argv0);
    let mut k = chars.len();
    assert(chars@.take(k as int) =~= chars@);
    assert(chars@.skip(k as int) =~= Seq::<char>::empty());
    assert(spec_prog_name(chars@.take(k as int)) + chars@.skip(k as int) =~= spec_prog_name(argv0@));
    while k > 0 && chars[k - 1] != '/'
        invariant
            0 <= k <= chars@.len(),
            chars@ == argv0@,
            spec_prog_name(argv0@) == spec_prog_name(chars@.take(k as int)) + chars@.skip(k as int),
        decreases k,
    {
        assert(chars@.take(k as int).drop_last() =~= chars@.take(k - 1));
        assert(spec_prog_name(chars@.take(k - 1)).push(chars@[k - 1]) + chars@.skip(k as int) =~= spec_prog_name(
            chars@.take(k - 1),
        ) + chars@.skip(k - 1));
        k = k - 1;
    }
    proof {
        if k == 0 {
            assert(chars@.take(0) =~= Seq::<char>::empty());
        } else {
            assert(chars@.take(k as int).last() == '/');
        }
    }
    let mut out: Vec<char> = Vec::new();
    let mut i = k;
    while i < chars.len()
        invariant
            k <= i <= chars@.len(),
            out@ == chars@.subrange(k as int, i as int),
        decreases chars@.len() - i,
    {
        out.push(chars[i]);
        assert(chars@.subrange(k as int, i + 1) =~= chars@.subrange(k as int, i as int).push(chars@[i as int]));
        i = i + 1;
    }
    assert(out@ =~= chars@.skip(k as int));
    assert(spec_prog_name(chars@.take(k as int)) =~= Seq::<char>::empty());
    string_of(&out)
}

/// How a tool exits before its work: exit code and output.
#[derive(Clone, Debug, PartialEq, Eq)]
pub struct Exit {
    /// The exit code.
    pub code: u8,
    /// Text for stdout.
    pub stdout: String,
    /// Text for stderr.
    pub stderr: String,
}

/// What a tool does after parsing its command line.
#[derive(Clone, Debug, PartialEq, Eq)]
pub enum Start {
    /// Exit (help, usage error).
    Exit(Exit),
    /// Do the work with these arguments.
    Assemble(Values),
}

/// `s` is what the parser (of `prog`, `description` and `args`) does with
/// `outcome` for a terminal of `columns` columns: the help on stdout with
/// code 0, or `help_error` on stderr with code 1 if there is one; a usage
/// error on stderr with code 2.
pub open spec fn start_is(
    s: Start,
    outcome: OutcomeView,
    prog: Seq<char>,
    description: Option<&'static str>,
    args: Seq<Argument>,
    columns: i64,
    help_error: Option<Seq<char>>,
) -> bool {
    match outcome {
        OutcomeView::Help => s matches Start::Exit(e) && match help_error {
            None => e.code == 0 && e.stdout@ == spec_format_help(prog, description, args, columns)
                && e.stderr@.len() == 0,
            Some(m) => e.code == 1 && e.stdout@.len() == 0 && e.stderr@ == m,
        },
        OutcomeView::Error(m) => s matches Start::Exit(e) && e.code == 2 && e.stdout@.len() == 0
            && e.stderr@ == spec_format_error(prog, args, m, columns),
        OutcomeView::Run(entries) => s matches Start::Assemble(v) && v.entries() == entries,
    }
}

/// Parses `args` with `parser` and decides what the tool does.
pub fn start_with(parser: &ArgumentParser, args: &[PyStr], columns: i64, help_error: Option<&str>) -> (r: Start)
    requires
        parser.prog@.len() + 32 <= usize::MAX,
    ensures
        start_is(
            r,
            spec_parse_args(parser.arguments@, py_views(args@)),
            parser.prog@,
            parser.description,
            parser.arguments@,
            columns,
            match help_error {
                Some(m) => Some(m@),
                None => None,
            },
        ),
{
    match parser.parse_args(args) {
        Outcome::Run(values) => Start::Assemble(values),
        Outcome::Help => match help_error {
            None => Start::Exit(
                Exit { code: 0, stdout: parser.format_help(columns), stderr: String::new() },
            ),
            Some(m) => Start::Exit(Exit { code: 1, stdout: String::new(), stderr: m.to_string() }),
        },
        Outcome::Error(message) => Start::Exit(
            Exit { code: 2, stdout: String::new(), stderr: parser.format_error(&message, columns) },
        ),
    }
}

/// What `fasm2frames` does with the command line arguments `args`
/// (without the program name) for a terminal of `columns` columns: print
/// the help (exit code 0), a usage error (exit code 2), or assemble.
pub fn start(prog: &str, args: &[PyStr], env: &Environment, columns: i64) -> (r: Start)
    requires
        prog@.len() + 32 <= usize::MAX,
    ensures
        exists|a: Seq<Argument>|
            fasm2frames_arguments(a, *env) && #[trigger] start_is(
                r,
                spec_parse_args(a, py_views(args@)),
                prog@,
                Some(DESCRIPTION),
                a,
                columns,
                None,
            ),
{
    let p = parser(prog, env);
    let r = start_with(&p, args, columns, None);
    assert(start_is(r, spec_parse_args(p.arguments@, py_views(args@)), prog@, Some(DESCRIPTION), p.arguments@, columns, None));
    r
}

} // verus!

verus! {

/// The last offset of `pat` in `text` at or before `i`.
pub open spec fn last_index_from(text: Seq<char>, pat: Seq<char>, i: int) -> Option<int>
    decreases i + 1,
{
    if i < 0 {
        None
    } else if i + pat.len() <= text.len() && text.subrange(i, i + pat.len()) == pat {
        Some(i)
    } else {
        last_index_from(text, pat, i - 1)
    }
}

/// The separator of the errno in the text of an `io::Error`.
pub const OS_ERROR: &'static str = " (os error ";

/// The last line of Python's traceback for an `OSError` whose Rust text
/// is `text` (`strerror (os error N)`) and errno `errno`: the text before
/// the last ` (os error `, `BrokenPipeError` for `EPIPE`.
pub open spec fn spec_os_error_line(text: Seq<char>, errno: Option<i32>) -> Seq<char> {
    let strerror = match last_index_from(text, OS_ERROR@, text.len() as int) {
        Some(i) => text.take(i),
        None => text,
    };
    let name = if errno == Some(32i32) {
        "BrokenPipeError"@
    } else {
        "OSError"@
    };
    name + match errno {
        Some(e) => ": [Errno "@ + crate::text::decimal_text(e as int) + "] "@,
        None => ": "@,
    } + strerror + "\n"@
}

/// The last line of Python's traceback for an `OSError` (see
/// [`spec_os_error_line`]).
pub fn os_error_line(text: &str, errno: Option<i32>) -> (r: String)
    ensures
        r@ == spec_os_error_line(text@, errno),
{
    let t = chars_of(text);
    let p = chars_of(OS_ERROR);
    proof {
        reveal_strlit(" (os error ");
    }
    let n = t.len();
    let m = p.len();
    // The last match, searching down from the end.
    let mut i: usize = n;
    let mut found: Option<usize> = None;
    loop
        invariant_except_break
            found is None,
        invariant
            i <= n,
            n == t@.len(),
            m == p@.len(),
            p@ == OS_ERROR@,
            last_index_from(t@, p@, n as int) == last_index_from(t@, p@, i as int),
        ensures
            match found {
                Some(k) => last_index_from(t@, p@, n as int) == Some(k as int) && k <= n,
                None => last_index_from(t@, p@, n as int) is None,
            },
        decreases i,
    {
        let fits = m <= n && i <= n - m;
        let mut matches = fits;
        if fits {
            let mut j: usize = 0;
            while j < m
                invariant
                    fits,
                    i + m <= n,
                    n == t@.len(),
                    m == p@.len(),
                    0 <= j <= m,
                    matches == (forall|q: int| 0 <= q < j ==> t@[i + q] == p@[q]),
                decreases m - j,
            {
                if t[i + j] != p[j] {
                    matches = false;
                }
                j = j + 1;
            }
            assert(matches == (t@.subrange(i as int, i + m) =~= p@));
        }
        if matches {
            found = Some(i);
            break;
        }
        if i == 0 {
            assert(last_index_from(t@, p@, -1) is None);
            break;
        }
        i = i - 1;
    }
    let mut out: Vec<char> = Vec::new();
    if errno == Some(32i32) {
        crate::text::push_str(&mut out, "BrokenPipeError");
    } else {
        crate::text::push_str(&mut out, "OSError");
    }
    match errno {
        Some(e) => {
            crate::text::push_str(&mut out, ": [Errno ");
            crate::text::push_decimal_i64(&mut out, e as i64);
            crate::text::push_str(&mut out, "] ");
        },
        None => {
            crate::text::push_str(&mut out, ": ");
        },
    }
    let end = match found {
        Some(k) => k,
        None => n,
    };
    let mut k: usize = 0;
    let ghost head = out@;
    while k < end
        invariant
            k <= end <= n,
            n == t@.len(),
            out@ == head + t@.take(k as int),
        decreases end - k,
    {
        out.push(t[k]);
        assert(t@.take(k + 1) =~= t@.take(k as int).push(t@[k as int]));
        k = k + 1;
    }
    assert(t@.take(n as int) =~= t@);
    crate::text::push_str(&mut out, "\n");
    string_of(&out)
}

} // verus!
