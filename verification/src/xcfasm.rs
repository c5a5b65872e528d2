//! The front of the `xcfasm` tool (`xc_fasm.xc_fasm.main` of
//! f4pga-xc-fasm: FASM to `.frm` to `.bit` in one step): its command line,
//! what it prints for help and usage errors, and the `xc7frames2bit`
//! command line it builds for the bitstream step (run in process), with
//! the message Python's `subprocess` gives when that step fails.

use vstd::prelude::*;

use crate::argparse::{py_views, spec_parse_args, str_value, Argument, ArgumentParser, Values};
use crate::fasm2frames::{
    db_root_argument, is_db_root, is_flag, is_help_argument, is_option, is_part, part_argument,
    start_is, start_with, Environment, Start, DESCRIPTION,
};
use crate::pystr::{surrogateescape_encode, PyStr};
use crate::text::{ascii_bytes, bytes_of, decimal_text, push_all, push_decimal_bytes, push_str_bytes, utf8_of};

verus! {

/// The help of `--part` (as in `fasm2frames`).
pub const PART_HELP: &'static str = "Part name. When not given defaults to XRAY_PART env. var.";

/// The arguments of `xc_fasm.xc_fasm.main` for the environment `env`.
pub open spec fn xcfasm_arguments(args: Seq<Argument>, env: Environment) -> bool {
    &&& args.len() == 12
    &&& is_help_argument(args[0])
    &&& is_db_root(args[1], env)
    &&& is_part(args[2], env, PART_HELP)
    &&& is_option(args[3], "--part_file", "part_file", true, None, "Part YAML file.")
    &&& is_flag(args[4], "--sparse", "sparse", "Don't zero fill all frames")
    &&& is_option(
        args[5],
        "--roi",
        "roi",
        false,
        None,
        "ROI design.json file defining which tiles are within the ROI.",
    )
    &&& is_flag(
        args[6],
        "--emit_pudc_b_pullup",
        "emit_pudc_b_pullup",
        "Emit an IBUF and PULLUP on the PUDC_B pin if unused",
    )
    &&& is_flag(args[7], "--debug", "debug", "Print debug dump")
    &&& is_option(
        args[8],
        "--frm2bit",
        "frm2bit",
        false,
        Some(crate::text::code_points("xc7frames2bit"@)),
        "xc7frames2bit tool.",
    )
    &&& is_option(args[9], "--fn_in", "fn_in", false, None, "Input FPGA assembly (.fasm) file")
    &&& is_option(args[10], "--bit_out", "bit_out", false, None, "Output FPGA bitstream (.bit) file")
    &&& is_option(args[11], "--frm_out", "frm_out", false, None, "Output FPGA frame (.frm) file")
}

/// The argument parser of `xc_fasm.xc_fasm.main`.
pub fn parser(prog: &str, env: &Environment) -> (r: ArgumentParser)
    ensures
        r.prog@ == prog@,
        r.description == Some(DESCRIPTION),
        xcfasm_arguments(r.arguments@, *env),
{
    let mut arguments: Vec<Argument> = Vec::new();
    arguments.push(Argument::help());
    arguments.push(db_root_argument(env));
    arguments.push(part_argument(env, PART_HELP));
    arguments.push(Argument::option("--part_file", "part_file", "Part YAML file.").required(true));
    arguments.push(Argument::flag("--sparse", "sparse", "Don't zero fill all frames"));
    arguments.push(
        Argument::option("--roi", "roi", "ROI design.json file defining which tiles are within the ROI."),
    );
    arguments.push(
        Argument::flag(
            "--emit_pudc_b_pullup",
            "emit_pudc_b_pullup",
            "Emit an IBUF and PULLUP on the PUDC_B pin if unused",
        ),
    );
    arguments.push(Argument::flag("--debug", "debug", "Print debug dump"));
    arguments.push(
        Argument::option("--frm2bit", "frm2bit", "xc7frames2bit tool.").default(PyStr::from_str("xc7frames2bit")),
    );
    arguments.push(Argument::option("--fn_in", "fn_in", "Input FPGA assembly (.fasm) file"));
    arguments.push(Argument::option("--bit_out", "bit_out", "Output FPGA bitstream (.bit) file"));
    arguments.push(Argument::option("--frm_out", "frm_out", "Output FPGA frame (.frm) file"));
    ArgumentParser { prog: prog.to_string(), description: Some(DESCRIPTION), arguments }
}

/// What the tool does with the command line arguments `args` (without the
/// program name) for a terminal of `columns` columns: print the help (exit
/// code 0), a usage error (exit code 2), or assemble.
pub fn start(prog: &str, args: &[PyStr], env: &Environment, columns: i64) -> (r: Start)
    requires
        prog@.len() + 32 <= usize::MAX,
    ensures
        exists|a: Seq<Argument>|
            xcfasm_arguments(a, *env) && #[trigger] start_is(
                r,
                spec_parse_args(a, py_views(args@)),
                prog@,
                Some(DESCRIPTION),
                a,
                columns,
                None,
            ),
{
    let p = parser(prog, env);
    let r = start_with(&p, args, columns, None);
    assert(start_is(r, spec_parse_args(p.arguments@, py_views(args@)), prog@, Some(DESCRIPTION), p.arguments@, columns, None));
    r
}

/// The text `str.format` gives the argument `dest`, as bytes: its value
/// (the bytes of the command line argument), or `None`.
pub open spec fn spec_format_arg(entries: Seq<(Seq<char>, crate::argparse::ValueView)>, dest: Seq<char>) -> Seq<u8> {
    match str_value(entries, dest) {
        Some(s) => surrogateescape_encode(s),
        None => utf8_of("None"),
    }
}

/// The text `str.format` gives the argument `dest` (see
/// [`spec_format_arg`]).
pub fn format_arg(values: &Values, dest: &str) -> (r: Vec<u8>)
    ensures
        r@ == spec_format_arg(values.entries(), dest@),
{
    match values.str(dest) {
        Some(s) => s.encode_surrogateescape(),
        None => bytes_of("None"),
    }
}

/// The bitstream step of a run: the `xc7frames2bit` flags, and the shell
/// command the tool would run for them.
#[derive(Clone, Debug, PartialEq, Eq)]
pub struct BitStep {
    /// `--frm_file`: the `.frm` file, or the input file without one.
    pub frm_file: Vec<u8>,
    /// `--output_file`.
    pub output_file: Vec<u8>,
    /// `--part_name`.
    pub part_name: Vec<u8>,
    /// `--part_file`.
    pub part_file: Vec<u8>,
    /// `{frm2bit} --frm_file {frm_out} --output_file {bit_out}
    /// --part_name {part} --part_file {part_file}`.
    pub command: Vec<u8>,
}

/// The `--frm_file` of the bitstream step: `frm_out` if it is given,
/// `fn_in` otherwise.
pub open spec fn spec_frm_file(entries: Seq<(Seq<char>, crate::argparse::ValueView)>) -> Seq<u8> {
    if str_value(entries, "frm_out"@) is Some {
        spec_format_arg(entries, "frm_out"@)
    } else {
        spec_format_arg(entries, "fn_in"@)
    }
}

/// `s` is the bitstream step for the parsed arguments `entries`.
pub open spec fn bit_step_is(s: BitStep, entries: Seq<(Seq<char>, crate::argparse::ValueView)>) -> bool {
    &&& s.frm_file@ == spec_frm_file(entries)
    &&& s.output_file@ == spec_format_arg(entries, "bit_out"@)
    &&& s.part_name@ == spec_format_arg(entries, "part"@)
    &&& s.part_file@ == spec_format_arg(entries, "part_file"@)
    &&& s.command@ == spec_format_arg(entries, "frm2bit"@) + utf8_of(" --frm_file ") + s.frm_file@
        + utf8_of(" --output_file ") + s.output_file@ + utf8_of(" --part_name ") + s.part_name@
        + utf8_of(" --part_file ") + s.part_file@
}

/// The bitstream step for the parsed arguments `values`.
pub fn bit_step(values: &Values) -> (r: BitStep)
    ensures
        bit_step_is(r, values.entries()),
{
    let frm_file = if values.str("frm_out").is_some() {
        format_arg(values, "frm_out")
    } else {
        format_arg(values, "fn_in")
    };
    let output_file = format_arg(values, "bit_out");
    let part_name = format_arg(values, "part");
    let part_file = format_arg(values, "part_file");
    let mut command = format_arg(values, "frm2bit");
    push_str_bytes(&mut command, " --frm_file ");
    push_all(&mut command, &frm_file);
    push_str_bytes(&mut command, " --output_file ");
    push_all(&mut command, &output_file);
    push_str_bytes(&mut command, " --part_name ");
    push_all(&mut command, &part_name);
    push_str_bytes(&mut command, " --part_file ");
    push_all(&mut command, &part_file);
    BitStep { frm_file, output_file, part_name, part_file, command }
}

/// The last line of Python's traceback when the bitstream step `command`
/// exits with `code`.
pub open spec fn spec_called_process_error(command: Seq<u8>, code: u8) -> Seq<u8> {
    utf8_of("subprocess.CalledProcessError: Command '") + command + utf8_of("' returned non-zero exit status ")
        + ascii_bytes(decimal_text(code as int)) + utf8_of(".\n")
}

/// The last line of Python's traceback when the bitstream step `command`
/// exits with `code`.
pub fn called_process_error(command: &[u8], code: u8) -> (r: Vec<u8>)
    ensures
        r@ == spec_called_process_error(command@, code),
{
    let mut m = bytes_of("subprocess.CalledProcessError: Command '");
    let c = vstd::slice::slice_to_vec(command);
    push_all(&mut m, &c);
    push_str_bytes(&mut m, "' returned non-zero exit status ");
    push_decimal_bytes(&mut m, code as i64);
    push_str_bytes(&mut m, ".\n");
    m
}

} // verus!
