//! The front of the `uray-fasm2frames` tool (prjuray's
//! `utils/fasm2frames.py`: FASM to `.frm` frames for the parts of
//! prjuray-db): its command line, with the defaults of prjuray's `util.py`
//! (`--db-root` from `URAY_DATABASE_DIR` and `URAY_DATABASE`, `--part`
//! from `URAY_PART`, held in the fields of [`Environment`]), and what it
//! prints for help, usage errors and assembler errors.

use vstd::prelude::*;

use crate::argparse::{py_views, spec_parse_args, Argument, ArgumentParser};
use crate::fasm2frames::{
    db_root_argument, is_db_root, is_flag, is_help_argument, is_option, is_part, part_argument,
    start_is, start_with, Environment, Start, DESCRIPTION,
};
use crate::pystr::PyStr;
use crate::text::{chars_of, code_points, push_str, string_of};

verus! {

/// The help of `--part`.
pub const PART_HELP: &'static str = "Part name. When not given defaults to URAY_PART env.";

/// The help of `--dump_bits`.
pub const DUMP_BITS_HELP: &'static str = "Output in bits format (bit_%08x_%03d_%02d)";

/// The arguments of prjuray's `fasm2frames.py` for the environment `env`.
pub open spec fn uray_arguments(args: Seq<Argument>, env: Environment) -> bool {
    &&& args.len() == 9
    &&& is_help_argument(args[0])
    &&& is_db_root(args[1], env)
    &&& is_part(args[2], env, PART_HELP)
    &&& is_flag(args[3], "--sparse", "sparse", "Don't zero fill all frames")
    &&& is_option(
        args[4],
        "--roi",
        "roi",
        false,
        None,
        "ROI design.json file defining which tiles are within the ROI.",
    )
    &&& is_flag(args[5], "--debug", "debug", "Print debug dump")
    &&& is_flag(args[6], "--dump_bits", "dump_bits", DUMP_BITS_HELP)
    &&& crate::fasm2frames::argument_with(
        args[7],
        seq![],
        "fn_in",
        crate::argparse::Kind::Store,
        crate::argparse::Nargs::One,
        true,
        None,
        "Input FPGA assembly (.fasm) file",
    )
    &&& crate::fasm2frames::argument_with(
        args[8],
        seq![],
        "fn_out",
        crate::argparse::Kind::Store,
        crate::argparse::Nargs::Optional,
        false,
        Some(code_points("/dev/stdout"@)),
        "Output FPGA frame (.frm) file",
    )
}

/// The argument parser of prjuray's `utils/fasm2frames.py`.
pub fn parser(prog: &str, env: &Environment) -> (r: ArgumentParser)
    ensures
        r.prog@ == prog@,
        r.description == Some(DESCRIPTION),
        uray_arguments(r.arguments@, *env),
{
    let mut arguments: Vec<Argument> = Vec::new();
    arguments.push(Argument::help());
    arguments.push(db_root_argument(env));
    arguments.push(part_argument(env, PART_HELP));
    arguments.push(Argument::flag("--sparse", "sparse", "Don't zero fill all frames"));
    arguments.push(
        Argument::option("--roi", "roi", "ROI design.json file defining which tiles are within the ROI."),
    );
    arguments.push(Argument::flag("--debug", "debug", "Print debug dump"));
    arguments.push(Argument::flag("--dump_bits", "dump_bits", DUMP_BITS_HELP));
    arguments.push(Argument::positional("fn_in", "Input FPGA assembly (.fasm) file"));
    arguments.push(
        Argument::positional("fn_out", "Output FPGA frame (.frm) file").optional().default(
            PyStr::from_str("/dev/stdout"),
        ),
    );
    ArgumentParser { prog: prog.to_string(), description: Some(DESCRIPTION), arguments }
}

/// What the tool prints for `--help`: argparse expands the `%` of the
/// `--dump_bits` help (`"... (bit_%08x_%03d_%02d)" % params`), which fails.
pub const HELP_ERROR: &'static str = "TypeError: %x format: an integer is required, not dict\n";

/// What the tool does with the command line arguments `args` (without the
/// program name) for a terminal of `columns` columns: fail on `--help`
/// ([`HELP_ERROR`], exit code 1), print a usage error (exit code 2), or
/// assemble.
pub fn start(prog: &str, args: &[PyStr], env: &Environment, columns: i64) -> (r: Start)
    requires
        prog@.len() + 32 <= usize::MAX,
    ensures
        exists|a: Seq<Argument>|
            uray_arguments(a, *env) && #[trigger] start_is(
                r,
                spec_parse_args(a, py_views(args@)),
                prog@,
                Some(DESCRIPTION),
                a,
                columns,
                Some(HELP_ERROR@),
            ),
{
    let p = parser(prog, env);
    let r = start_with(&p, args, columns, Some(HELP_ERROR));
    assert(start_is(
        r,
        spec_parse_args(p.arguments@, py_views(args@)),
        prog@,
        Some(DESCRIPTION),
        p.arguments@,
        columns,
        Some(HELP_ERROR@),
    ));
    r
}

/// The module prefix of the assembler exceptions of xc_fasm.
pub const XRAY_ASSEMBLER: &'static str = "prjxray.fasm_assembler.";

/// The module prefix of the assembler exceptions of prjuray.
pub const URAY_ASSEMBLER: &'static str = "utils.fasm_assembler.";

/// The traceback line `line` of an xc_fasm assembler error as prjuray
/// reports it: its module renamed, with a newline.
pub open spec fn spec_uray_traceback(line: Seq<char>) -> Seq<char> {
    if XRAY_ASSEMBLER@.is_prefix_of(line) {
        URAY_ASSEMBLER@ + line.skip(XRAY_ASSEMBLER@.len() as int) + seq!['\n']
    } else {
        line + seq!['\n']
    }
}

/// The traceback line `line` (the last line of a Python traceback, naming
/// an xc_fasm exception) as prjuray's assembler reports it.
pub fn uray_traceback(line: &str) -> (r: String)
    ensures
        r@ == spec_uray_traceback(line@),
{
    let chars = chars_of(line);
    let prefix = chars_of(XRAY_ASSEMBLER);
    proof {
        reveal_strlit("prjxray.fasm_assembler.");
    }
    let n = prefix.len();
    let mut matches = n <= chars.len();
    let mut i: usize = 0;
    while matches && i < n
        invariant
            prefix@ == XRAY_ASSEMBLER@,
            chars@ == line@,
            n == prefix@.len(),
            0 <= i <= n,
            matches ==> n <= chars@.len(),
            matches ==> chars@.take(i as int) == prefix@.take(i as int),
            !matches ==> !XRAY_ASSEMBLER@.is_prefix_of(line@),
        decreases n - i + (if matches { 1int } else { 0int }),
    {
        if chars[i] != prefix[i] {
            matches = false;
        } else {
            assert(chars@.take(i + 1) =~= chars@.take(i as int).push(chars@[i as int]));
            assert(prefix@.take(i + 1) =~= prefix@.take(i as int).push(prefix@[i as int]));
            i = i + 1;
        }
    }
    let mut out: Vec<char> = Vec::new();
    let start: usize = if matches {
        assert(prefix@.take(n as int) =~= prefix@);
        assert(chars@.take(n as int) =~= chars@.subrange(0, prefix@.len() as int));
        push_str(&mut out, URAY_ASSEMBLER);
        n
    } else {
        0
    };
    let ghost head = out@;
    let mut k = start;
    while k < chars.len()
        invariant
            start <= k <= chars@.len(),
            out@ == head + chars@.subrange(start as int, k as int),
        decreases chars@.len() - k,
    {
        out.push(chars[k]);
        assert(chars@.subrange(start as int, k + 1) =~= chars@.subrange(start as int, k as int).push(
            chars@[k as int],
        ));
        k = k + 1;
    }
    out.push('\n');
    proof {
        reveal_strlit("utils.fasm_assembler.");
        assert(chars@.subrange(start as int, chars@.len() as int) =~= chars@.skip(start as int));
        assert(chars@.skip(0) =~= chars@);
    }
    string_of(&out)
}

} // verus!
