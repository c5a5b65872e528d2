//! The `xc7frames2bit` tool (prjxray's `tools/xc7frames2bit.cc`) and the
//! `xcframes2bit` tool (prjuray-tools' `tools/xcframes2bit.cc`): `.frm`
//! frames to a `.bit` bitstream. This module holds their command line
//! flags, the process environment they read, the choice of the bitstream
//! format and the messages they print.

use vstd::prelude::*;

use crate::bitread::FrameFields;
use crate::gflags::{
    flag_value, outcome_is, parse, spec_parse, Flag, FlagType, Outcome, ParseView, Parsed, Program,
};
use crate::text::views;
use vstd::utf8::encode_utf8;
use crate::text::{
    bytes_of, chars_of, decimal_text, pad_left, push_all, push_radix, push_radix_padded, push_str,
    radix_text, string_of, utf8_of,
};

verus! {

/// The process environment the tools read.
#[derive(Clone, Debug, Default)]
pub struct Env {
    /// All variables (for `--fromenv`, `SOURCE_DATE_EPOCH`).
    pub vars: Vec<(String, Vec<u8>)>,
}

/// The value of the first variable named `name` in `vars`.
pub open spec fn env_lookup(vars: Seq<(String, Vec<u8>)>, name: Seq<char>) -> Option<Seq<u8>>
    decreases vars.len(),
{
    if vars.len() == 0 {
        None
    } else if vars[0].0@ == name {
        Some(vars[0].1@)
    } else {
        env_lookup(vars.drop_first(), name)
    }
}

fn chars_eq(a: &Vec<char>, b: &Vec<char>) -> (r: bool)
    ensures
        r == (a@ == b@),
{
    if a.len() != b.len() {
        return false;
    }
    let mut i: usize = 0;
    while i < a.len()
        invariant
            a@.len() == b@.len(),
            0 <= i <= a@.len(),
            forall|j: int| 0 <= j < i ==> a@[j] == b@[j],
        decreases a@.len() - i,
    {
        if a[i] != b[i] {
            return false;
        }
        i = i + 1;
    }
    assert(a@ =~= b@);
    true
}

impl Env {
    /// The value of the variable whose name has the characters `name`.
    pub fn get_chars(&self, name: &Vec<char>) -> (r: Option<Vec<u8>>)
        ensures
            r matches Some(v) ==> env_lookup(self.vars@, name@) == Some(v@),
            r is None ==> env_lookup(self.vars@, name@) is None,
    {
        let mut i: usize = 0;
        assert(self.vars@.skip(0) =~= self.vars@);
        while i < self.vars.len()
            invariant
                0 <= i <= self.vars@.len(),
                env_lookup(self.vars@, name@) == env_lookup(self.vars@.skip(i as int), name@),
            decreases self.vars@.len() - i,
        {
            let key = chars_of(self.vars[i].0.as_str());
            assert(self.vars@.skip(i as int)[0] == self.vars@[i as int]);
            assert(self.vars@.skip(i as int).drop_first() =~= self.vars@.skip(i + 1));
            if chars_eq(&key, name) {
                let mut v: Vec<u8> = Vec::new();
                push_all(&mut v, &self.vars[i].1);
                assert(v@ =~= self.vars@[i as int].1@);
                return Some(v);
            }
            i = i + 1;
        }
        None
    }

    /// The value of `name`.
    pub fn get(&self, name: &str) -> (r: Option<Vec<u8>>)
        ensures
            r matches Some(v) ==> env_lookup(self.vars@, name@) == Some(v@),
            r is None ==> env_lookup(self.vars@, name@) is None,
    {
        let n = chars_of(name);
        self.get_chars(&n)
    }
}


// ---------------------------------------------------------------------
// The tools and their flags.

/// Which tool a run behaves as.
#[derive(Clone, Copy, Debug, PartialEq, Eq, Structural)]
pub enum Tool {
    /// prjxray's `xc7frames2bit`.
    Xc7frames2bit,
    /// prjuray-tools' `xcframes2bit`.
    Xcframes2bit,
}

/// The source file the help lists the tool's flags under.
pub open spec fn tool_file(tool: Tool) -> &'static str {
    match tool {
        Tool::Xc7frames2bit => "tools/xc7frames2bit.cc",
        Tool::Xcframes2bit => "tools/xcframes2bit.cc",
    }
}

/// The tool's name.
pub open spec fn tool_name(tool: Tool) -> &'static str {
    match tool {
        Tool::Xc7frames2bit => "xc7frames2bit",
        Tool::Xcframes2bit => "xcframes2bit",
    }
}

impl Tool {
    /// The source file the help lists the tool's flags under.
    pub fn file(self) -> (r: &'static str)
        ensures
            r == tool_file(self),
    {
        match self {
            Tool::Xc7frames2bit => "tools/xc7frames2bit.cc",
            Tool::Xcframes2bit => "tools/xcframes2bit.cc",
        }
    }

    /// The tool's name.
    pub fn name(self) -> (r: &'static str)
        ensures
            r == tool_name(self),
    {
        match self {
            Tool::Xc7frames2bit => "xc7frames2bit",
            Tool::Xcframes2bit => "xcframes2bit",
        }
    }

    /// `true` for the prjuray-tools implementation.
    pub fn is_prjuray(self) -> (r: bool)
        ensures
            r == (self == Tool::Xcframes2bit),
    {
        match self {
            Tool::Xc7frames2bit => false,
            Tool::Xcframes2bit => true,
        }
    }
}

/// The flags of `tool`.
pub open spec fn spec_flags_of(tool: Tool) -> Seq<Flag> {
    let file = tool_file(tool);
    seq![
        Flag { name: "part_name", file, ty: FlagType::String, default: "", help: "Name of the 7-series part" },
        Flag { name: "part_file", file, ty: FlagType::String, default: "", help: "Definition file for target 7-series part" },
        Flag { name: "frm_file", file, ty: FlagType::String, default: "", help: "File containing a list of frame deltas to be applied to the base bitstream.  Each line in the file is of the form: <frame_address> <word1>,...,<word101>." },
        Flag { name: "output_file", file, ty: FlagType::String, default: "", help: "Write bitstream to file" },
        Flag { name: "architecture", file, ty: FlagType::String, default: "Series7", help: "Architecture of the provided bitstream" },
    ]
}

/// The flags of `xc7frames2bit`.
pub fn flags() -> (r: Vec<Flag>)
    ensures
        r@ == spec_flags_of(Tool::Xc7frames2bit),
{
    flags_of(Tool::Xc7frames2bit)
}

/// The flags of `tool` (the same flags and texts, another file).
pub fn flags_of(tool: Tool) -> (r: Vec<Flag>)
    ensures
        r@ == spec_flags_of(tool),
{
    let file = tool.file();
    let mut r: Vec<Flag> = Vec::new();
    r.push(Flag { name: "part_name", file, ty: FlagType::String, default: "", help: "Name of the 7-series part" });
    r.push(Flag { name: "part_file", file, ty: FlagType::String, default: "", help: "Definition file for target 7-series part" });
    r.push(Flag { name: "frm_file", file, ty: FlagType::String, default: "", help: "File containing a list of frame deltas to be applied to the base bitstream.  Each line in the file is of the form: <frame_address> <word1>,...,<word101>." });
    r.push(Flag { name: "output_file", file, ty: FlagType::String, default: "", help: "Write bitstream to file" });
    r.push(Flag { name: "architecture", file, ty: FlagType::String, default: "Series7", help: "Architecture of the provided bitstream" });
    assert(r@ =~= spec_flags_of(tool));
    r
}

/// The exit code for an abort (`std::terminate` after an uncaught C++
/// exception): the binary calls `std::process::abort()` for it.
pub const ABORT: u8 = 134;

/// The `std::terminate` message of `ArchitectureFactory::create_architecture`
/// in prjuray-tools for an unknown name.
pub const BAD_VARIANT_TERMINATE: &'static str = "terminate called after throwing an instance of 'absl::bad_variant_access'\n  what():  Bad variant access\n";

/// The `std::terminate` message of the C++ tools for a part file that is
/// a directory.
pub const DIRECTORY_TERMINATE: &'static str = "terminate called after throwing an instance of 'std::__ios_failure'\n  what():  basic_filebuf::underflow error reading the file: Is a directory\n";

// ---------------------------------------------------------------------
// Architectures.

/// The architectures of the Xilinx parts.
#[derive(Clone, Copy, Debug, PartialEq, Eq, Structural)]
pub enum Architecture {
    /// 7-series.
    Series7,
    /// UltraScale.
    UltraScale,
    /// UltraScale+.
    UltraScalePlus,
}

/// The bitstream format a tool uses: the architecture, with its own part
/// types, frame addresses and ECC (`native`), or with the Series7 ones and
/// the architecture's word counts (prjxray's).
#[derive(Clone, Copy, Debug, PartialEq, Eq, Structural)]
pub struct FormatChoice {
    /// The architecture.
    pub architecture: Architecture,
    /// The architecture's own part types, frame addresses and ECC.
    pub native: bool,
}

/// Why `--architecture` cannot be used.
#[derive(Clone, Debug, PartialEq, Eq)]
pub enum ArchitectureError {
    /// Spartan6 (supported by the C++ tools, not here): the
    /// message, exit code 1.
    Unsupported(String),
    /// prjuray-tools aborts on an unknown name: the `std::terminate`
    /// message ([`ABORT`]).
    Abort(String),
}

/// [`ArchitectureError`] over plain values.
pub enum ArchitectureErrorView {
    /// The message of an unsupported architecture.
    Unsupported(Seq<char>),
    /// The `std::terminate` message.
    Abort(Seq<char>),
}

/// The view of an architecture result.
pub open spec fn architecture_view(r: Result<FormatChoice, ArchitectureError>) -> Result<
    FormatChoice,
    ArchitectureErrorView,
> {
    match r {
        Ok(f) => Ok(f),
        Err(ArchitectureError::Unsupported(m)) => Err(ArchitectureErrorView::Unsupported(m@)),
        Err(ArchitectureError::Abort(m)) => Err(ArchitectureErrorView::Abort(m@)),
    }
}

/// `ArchitectureFactory::create_architecture(name)` of the C++ tool:
/// prjxray's returns the default variant (Series7) for an
/// unknown name and has the Series7 part types for UltraScale and
/// UltraScale+; prjuray-tools' aborts for an unknown name and has their
/// own.
pub open spec fn spec_architecture(tool: Seq<char>, prjuray: bool, name: Seq<u8>) -> Result<
    FormatChoice,
    ArchitectureErrorView,
> {
    let arch = if name == utf8_of("Series7") {
        Some(Architecture::Series7)
    } else if name == utf8_of("UltraScale") {
        Some(Architecture::UltraScale)
    } else if name == utf8_of("UltraScalePlus") {
        Some(Architecture::UltraScalePlus)
    } else {
        None
    };
    if name == utf8_of("Spartan6") {
        Err(
            ArchitectureErrorView::Unsupported(
                tool + ": --architecture=Spartan6 is not supported yet (only Series7, UltraScale and UltraScalePlus)\n"@,
            ),
        )
    } else if arch is None && prjuray {
        Err(ArchitectureErrorView::Abort(BAD_VARIANT_TERMINATE@))
    } else {
        Ok(
            FormatChoice {
                architecture: match arch {
                    Some(a) => a,
                    None => Architecture::Series7,
                },
                native: prjuray,
            },
        )
    }
}

/// The format of `--architecture=name` for `tool` (see
/// [`spec_architecture`]).
pub fn architecture(tool: &str, prjuray: bool, name: &[u8]) -> (r: Result<FormatChoice, ArchitectureError>)
    ensures
        architecture_view(r) == spec_architecture(tool@, prjuray, name@),
{
    let arch = if crate::text::bytes_eq(name, &bytes_of("Series7")) {
        Some(Architecture::Series7)
    } else if crate::text::bytes_eq(name, &bytes_of("UltraScale")) {
        Some(Architecture::UltraScale)
    } else if crate::text::bytes_eq(name, &bytes_of("UltraScalePlus")) {
        Some(Architecture::UltraScalePlus)
    } else {
        None
    };
    if crate::text::bytes_eq(name, &bytes_of("Spartan6")) {
        let mut m: Vec<char> = Vec::new();
        push_str(&mut m, tool);
        push_str(
            &mut m,
            ": --architecture=Spartan6 is not supported yet (only Series7, UltraScale and UltraScalePlus)\n",
        );
        return Err(ArchitectureError::Unsupported(string_of(&m)));
    }
    match arch {
        None => {
            if prjuray {
                return Err(ArchitectureError::Abort(BAD_VARIANT_TERMINATE.to_string()));
            }
            Ok(FormatChoice { architecture: Architecture::Series7, native: prjuray })
        },
        Some(a) => Ok(FormatChoice { architecture: a, native: prjuray }),
    }
}

/// What a run of the tool does once its flags are read: exit (help, flag
/// errors, an architecture it cannot use), or build the bitstream.
#[derive(Clone, Debug, PartialEq, Eq)]
pub enum Step {
    /// Exit with this code after writing the output.
    Exit {
        /// Exit code.
        code: u8,
        /// Text for stdout.
        stdout: Vec<u8>,
        /// Text for stderr.
        stderr: Vec<u8>,
    },
    /// Read the part and the frames, and write the bitstream.
    Build(Build),
}

/// The work of a run: the flag values it reads, and the format.
#[derive(Clone, Debug, PartialEq, Eq)]
pub struct Build {
    /// The bitstream format (`--architecture`).
    pub format: FormatChoice,
    /// `--part_file`.
    pub part_file: Vec<u8>,
    /// `--frm_file`.
    pub frm_file: Vec<u8>,
    /// `--part_name`.
    pub part_name: Vec<u8>,
    /// `--output_file`.
    pub output_file: Vec<u8>,
    /// Whether reading stops at the first frame that is not in the part
    /// (prjuray-tools' `readFrames(file, part)`).
    pub valid_frames_only: bool,
}

/// [`Step`] over plain values.
pub enum StepView {
    /// Exit with this code and output.
    Exit { code: u8, stdout: Seq<u8>, stderr: Seq<u8> },
    /// Build the bitstream.
    Build {
        format: FormatChoice,
        part_file: Seq<u8>,
        frm_file: Seq<u8>,
        part_name: Seq<u8>,
        output_file: Seq<u8>,
        valid_frames_only: bool,
    },
}

/// The view of a step.
pub open spec fn step_view(s: Step) -> StepView {
    match s {
        Step::Exit { code, stdout, stderr } => StepView::Exit { code, stdout: stdout@, stderr: stderr@ },
        Step::Build(b) => StepView::Build {
            format: b.format,
            part_file: b.part_file@,
            frm_file: b.frm_file@,
            part_name: b.part_name@,
            output_file: b.output_file@,
            valid_frames_only: b.valid_frames_only,
        },
    }
}

/// What `tool` does with the flags `args` (without `argv[0]`) in the
/// environment `env`: gflags' verdict (usage `argv0`), then the format of
/// `--architecture` (an unsupported one exits with 1, an unknown one of
/// prjuray-tools with [`ABORT`]).
pub open spec fn spec_run_tool(
    tool: Tool,
    argv0: Seq<u8>,
    args: Seq<Seq<u8>>,
    env: Seq<(String, Vec<u8>)>,
) -> StepView {
    match spec_parse(spec_flags_of(tool), argv0, argv0, args, env) {
        ParseView::Exit { code, stdout, stderr } => StepView::Exit { code, stdout, stderr },
        ParseView::Run { flags, current, .. } => match spec_architecture(
            tool_name(tool)@,
            tool == Tool::Xcframes2bit,
            flag_value(flags, current, utf8_of("architecture")),
        ) {
            Err(ArchitectureErrorView::Unsupported(m)) => StepView::Exit {
                code: 1,
                stdout: seq![],
                stderr: encode_utf8(m),
            },
            Err(ArchitectureErrorView::Abort(m)) => StepView::Exit {
                code: ABORT,
                stdout: seq![],
                stderr: encode_utf8(m),
            },
            Ok(format) => StepView::Build {
                format,
                part_file: flag_value(flags, current, utf8_of("part_file")),
                frm_file: flag_value(flags, current, utf8_of("frm_file")),
                part_name: flag_value(flags, current, utf8_of("part_name")),
                output_file: flag_value(flags, current, utf8_of("output_file")),
                valid_frames_only: tool == Tool::Xcframes2bit,
            },
        },
    }
}

/// Reads the flags `args` (without `argv[0]`) of `tool` and decides what
/// the run does (see [`spec_run_tool`]).
pub fn run_tool(tool: Tool, argv0: &[u8], args: &[Vec<u8>], env: &Env) -> (r: Step)
    ensures
        step_view(r) == spec_run_tool(tool, argv0@, views(args@), env.vars@),
{
    let argv0_bytes = vstd::slice::slice_to_vec(argv0);
    let program = Program { argv0: argv0_bytes.clone(), usage: argv0_bytes, flags: flags_of(tool) };
    let parsed = match parse(&program, args, env) {
        Outcome::Run(parsed) => parsed,
        Outcome::Exit { code, stdout, stderr } => {
            return Step::Exit { code, stdout, stderr };
        },
    };
    let name = parsed.value("architecture");
    match architecture(tool.name(), tool.is_prjuray(), name.as_slice()) {
        Err(ArchitectureError::Unsupported(m)) => Step::Exit {
            code: 1,
            stdout: Vec::new(),
            stderr: bytes_of(m.as_str()),
        },
        Err(ArchitectureError::Abort(m)) => Step::Exit {
            code: ABORT,
            stdout: Vec::new(),
            stderr: bytes_of(m.as_str()),
        },
        Ok(format) => Step::Build(
            Build {
                format,
                part_file: parsed.value("part_file"),
                frm_file: parsed.value("frm_file"),
                part_name: parsed.value("part_name"),
                output_file: parsed.value("output_file"),
                valid_frames_only: tool.is_prjuray(),
            },
        ),
    }
}

/// What a run of `xc7frames2bit` does with the flags `args` (without
/// `argv[0]`): [`run_tool`] of [`Tool::Xc7frames2bit`].
pub fn run(argv0: &[u8], args: &[Vec<u8>], env: &Env) -> (r: Step)
    ensures
        step_view(r) == spec_run_tool(Tool::Xc7frames2bit, argv0@, views(args@), env.vars@),
{
    run_tool(Tool::Xc7frames2bit, argv0, args, env)
}

/// The message for a part file that cannot be read.
pub fn part_not_found(part_file: &[u8]) -> (r: Vec<u8>)
    ensures
        r@ == utf8_of("Part file ") + part_file@ + utf8_of(" not found or invalid\n"),
{
    let mut m = bytes_of("Part file ");
    let rest = vstd::slice::slice_to_vec(part_file);
    push_all(&mut m, &rest);
    crate::text::push_str_bytes(&mut m, " not found or invalid\n");
    m
}

/// The message of `std::terminate` for an uncaught exception of
/// `std::stoul` (`std::out_of_range` or `std::invalid_argument`).
pub open spec fn spec_stoul_terminate(out_of_range: bool) -> Seq<char> {
    "terminate called after throwing an instance of '"@ + (if out_of_range {
        "std::out_of_range"@
    } else {
        "std::invalid_argument"@
    }) + "'\n  what():  stoul\n"@
}

/// The message of `std::terminate` for an uncaught exception of
/// `std::stoul`.
pub fn stoul_terminate(out_of_range: bool) -> (r: String)
    ensures
        r@ == spec_stoul_terminate(out_of_range),
{
    let mut m: Vec<char> = Vec::new();
    push_str(&mut m, "terminate called after throwing an instance of '");
    if out_of_range {
        push_str(&mut m, "std::out_of_range");
    } else {
        push_str(&mut m, "std::invalid_argument");
    }
    push_str(&mut m, "'\n  what():  stoul\n");
    string_of(&m)
}

// ---------------------------------------------------------------------
// Frame addresses.

/// The name of a block type.
pub open spec fn block_type_name(block_type: u32) -> Seq<char> {
    if block_type == 0 {
        "CLB/IO/CLK"@
    } else if block_type == 1 {
        "Block RAM"@
    } else if block_type == 2 {
        "Config CLB"@
    } else {
        seq![]
    }
}

/// `%#x` of `address` (`0` has no `0x`, like `std::showbase`).
pub open spec fn showbase_hex(address: u32) -> Seq<char> {
    if address == 0 {
        seq!['0']
    } else {
        seq!['0', 'x'] + radix_text(address as nat, 16, false)
    }
}

/// `v` right-aligned in two columns (`%2d`).
pub open spec fn num2(v: u32) -> Seq<char> {
    pad_left(decimal_text(v as int), 2, ' ')
}

/// `operator<<(std::ostream&, const FrameAddress&)` of the C++ frame
/// address of `arch` whose fields are `fields`:
/// `[<%#10x>] <TOP|BOTTOM> Row=%2d Column=%2d Minor=%2d Type=<type>`,
/// the `TOP`/`BOTTOM` part only for Series7, whose row has no half bit.
pub open spec fn spec_cpp_frame_address(arch: Architecture, address: u32, fields: FrameFields) -> Seq<char> {
    let half = if arch == Architecture::Series7 {
        if fields.bottom != 0 {
            "BOTTOM"@
        } else {
            "TOP"@
        }
    } else {
        seq![]
    };
    seq!['['] + pad_left(showbase_hex(address), 10, ' ') + seq![']', ' '] + half + " Row="@ + num2(
        fields.row,
    ) + " Column="@ + num2(fields.column) + " Minor="@ + num2(fields.minor) + " Type="@
        + block_type_name(fields.block_type)
}

fn showbase_hex_padded(address: u32) -> (r: Vec<char>)
    ensures
        r@ == pad_left(showbase_hex(address), 10, ' '),
{
    let mut hex: Vec<char> = Vec::new();
    if address == 0 {
        hex.push('0');
    } else {
        hex.push('0');
        hex.push('x');
        push_radix(&mut hex, address as u64, 16, false);
    }
    assert(hex@ =~= showbase_hex(address));
    let mut m: Vec<char> = Vec::new();
    if hex.len() < 10 {
        let mut k = hex.len();
        while k < 10
            invariant
                hex@.len() <= k <= 10,
                m@ == Seq::new((k - hex@.len()) as nat, |i: int| ' '),
            decreases 10 - k,
        {
            m.push(' ');
            assert(m@ =~= Seq::new((k + 1 - hex@.len()) as nat, |i: int| ' '));
            k = k + 1;
        }
    }
    push_all(&mut m, &hex);
    assert(m@ =~= pad_left(hex@, 10, ' '));
    m
}

fn half_text(arch: Architecture, bottom: u32) -> (r: Vec<char>)
    ensures
        r@ == (if arch == Architecture::Series7 {
            if bottom != 0 {
                "BOTTOM"@
            } else {
                "TOP"@
            }
        } else {
            Seq::<char>::empty()
        }),
{
    let mut m: Vec<char> = Vec::new();
    if arch == Architecture::Series7 {
        if bottom != 0 {
            push_str(&mut m, "BOTTOM");
        } else {
            push_str(&mut m, "TOP");
        }
    }
    m
}

fn block_type_text(block_type: u32) -> (r: Vec<char>)
    ensures
        r@ == block_type_name(block_type),
{
    let mut m: Vec<char> = Vec::new();
    if block_type == 0 {
        push_str(&mut m, "CLB/IO/CLK");
    } else if block_type == 1 {
        push_str(&mut m, "Block RAM");
    } else if block_type == 2 {
        push_str(&mut m, "Config CLB");
    }
    m
}

/// The C++ text of the frame address `address` of `arch` with the decoded
/// fields `fields` (see [`spec_cpp_frame_address`]).
pub fn cpp_frame_address(arch: Architecture, address: u32, fields: &FrameFields) -> (r: String)
    ensures
        r@ == spec_cpp_frame_address(arch, address, *fields),
{
    let hex = showbase_hex_padded(address);
    let half = half_text(arch, fields.bottom);
    let block = block_type_text(fields.block_type);
    let mut m: Vec<char> = Vec::new();
    m.push('[');
    push_all(&mut m, &hex);
    m.push(']');
    m.push(' ');
    push_all(&mut m, &half);
    push_str(&mut m, " Row=");
    push_radix_padded(&mut m, fields.row as u64, 10, false, 2, ' ');
    push_str(&mut m, " Column=");
    push_radix_padded(&mut m, fields.column as u64, 10, false, 2, ' ');
    push_str(&mut m, " Minor=");
    push_radix_padded(&mut m, fields.minor as u64, 10, false, 2, ' ');
    push_str(&mut m, " Type=");
    push_all(&mut m, &block);
    assert(m@ =~= spec_cpp_frame_address(arch, address, *fields));
    string_of(&m)
}

} // verus!

verus! {

// ---------------------------------------------------------------------
// `SOURCE_DATE_EPOCH`.

/// The text of `bytes` if they are valid UTF-8.
pub open spec fn utf8_text(bytes: Seq<u8>) -> Option<Seq<char>> {
    if vstd::utf8::valid_utf8(bytes) {
        Some(vstd::utf8::decode_utf8(bytes))
    } else {
        None
    }
}

/// `std::str::from_utf8`: the text of `bytes` if they are valid UTF-8
/// (std's documentation: an error for any invalid sequence), as a
/// `String`.
#[verifier::external_body]
fn from_utf8(bytes: &[u8]) -> (r: Option<String>)
    ensures
        match r {
            Some(s) => utf8_text(bytes@) == Some(s@),
            None => utf8_text(bytes@) is None,
        },
{
    std::str::from_utf8(bytes).ok().map(|s| s.to_string())
}

/// `char::is_whitespace`: the characters of the Unicode `White_Space`
/// property.
pub open spec fn white_space(c: char) -> bool {
    let v = c as int;
    (0x09 <= v <= 0x0D) || v == 0x20 || v == 0x85 || v == 0xA0 || v == 0x1680 || (0x2000 <= v <= 0x200A) || v
        == 0x2028 || v == 0x2029 || v == 0x202F || v == 0x205F || v == 0x3000
}

fn is_white_space(c: char) -> (r: bool)
    ensures
        r == white_space(c),
{
    let v = c as u32;
    (0x09 <= v && v <= 0x0D) || v == 0x20 || v == 0x85 || v == 0xA0 || v == 0x1680 || (0x2000 <= v && v
        <= 0x200A) || v == 0x2028 || v == 0x2029 || v == 0x202F || v == 0x205F || v == 0x3000
}

/// `s.trim_start()`.
pub open spec fn trim_start(s: Seq<char>) -> Seq<char>
    decreases s.len(),
{
    if s.len() > 0 && white_space(s[0]) {
        trim_start(s.drop_first())
    } else {
        s
    }
}

/// `s.trim_end()`.
pub open spec fn trim_end(s: Seq<char>) -> Seq<char>
    decreases s.len(),
{
    if s.len() > 0 && white_space(s.last()) {
        trim_end(s.drop_last())
    } else {
        s
    }
}

/// `s.trim()`.
pub open spec fn trim(s: Seq<char>) -> Seq<char> {
    trim_end(trim_start(s))
}

/// Every character of `s` is an ASCII digit.
pub open spec fn ascii_digits(s: Seq<char>) -> bool {
    forall|i: int| 0 <= i < s.len() ==> '0' <= #[trigger] s[i] <= '9'
}

/// The value of the decimal digits `s`.
pub open spec fn digits_value(s: Seq<char>) -> int
    decreases s.len(),
{
    if s.len() == 0 {
        0
    } else {
        digits_value(s.drop_last()) * 10 + (s.last() as int - 48)
    }
}

/// `s.parse::<i64>()`: an optional sign, then decimal digits, in range.
pub open spec fn spec_parse_i64(s: Seq<char>) -> Option<i64> {
    let signed = s.len() > 0 && (s[0] == '+' || s[0] == '-');
    let body = if signed {
        s.skip(1)
    } else {
        s
    };
    let v = if signed && s[0] == '-' {
        -digits_value(body)
    } else {
        digits_value(body)
    };
    if body.len() > 0 && ascii_digits(body) && i64::MIN <= v <= i64::MAX {
        Some(v as i64)
    } else {
        None
    }
}

proof fn lemma_digits_value_grows(s: Seq<char>, k: int)
    requires
        ascii_digits(s),
        0 <= k <= s.len(),
    ensures
        0 <= digits_value(s.take(k)) <= digits_value(s),
    decreases s.len() - k,
{
    if k < s.len() {
        lemma_digits_value_grows(s, k + 1);
        assert(s.take(k + 1).drop_last() =~= s.take(k));
        assert('0' <= s[k] <= '9');
    } else {
        assert(s.take(k) =~= s);
        lemma_digits_value_nonnegative(s);
    }
}

proof fn lemma_digits_value_nonnegative(s: Seq<char>)
    requires
        ascii_digits(s),
    ensures
        digits_value(s) >= 0,
    decreases s.len(),
{
    if s.len() > 0 {
        assert(ascii_digits(s.drop_last())) by {
            assert forall|i: int| 0 <= i < s.drop_last().len() implies '0' <= #[trigger] s.drop_last()[i] <= '9' by {
                assert(s.drop_last()[i] == s[i]);
            }
        }
        lemma_digits_value_nonnegative(s.drop_last());
        assert('0' <= s[s.len() - 1] <= '9');
    }
}

/// `s.parse::<i64>()` (see [`spec_parse_i64`]).
fn parse_i64(s: &Vec<char>) -> (r: Option<i64>)
    ensures
        r == spec_parse_i64(s@),
{
    let n = s.len();
    let signed = n > 0 && (s[0] == '+' || s[0] == '-');
    let negative = signed && s[0] == '-';
    let start: usize = if signed {
        1
    } else {
        0
    };
    let ghost body = if signed {
        s@.skip(1)
    } else {
        s@
    };
    assert(body =~= s@.subrange(start as int, n as int));
    if start == n {
        return None;
    }
    let mut acc: u64 = 0;
    let mut k = start;
    while k < n
        invariant
            start <= k <= n,
            n == s@.len(),
            body == s@.subrange(start as int, n as int),
            signed == (s@.len() > 0 && (s@[0] == '+' || s@[0] == '-')),
            negative == (signed && s@[0] == '-'),
            start == (if signed { 1usize } else { 0usize }),
            body == (if signed { s@.skip(1) } else { s@ }),
            start < n,
            ascii_digits(body.take(k - start)),
            acc == digits_value(body.take(k - start)),
            acc <= 9223372036854775808,
        decreases n - k,
    {
        let c = s[k];
        assert(body[k - start] == c);
        if !('0' <= c && c <= '9') {
            return None;
        }
        let d = (c as u32 - 48) as u64;
        assert(body.take(k + 1 - start).drop_last() =~= body.take(k - start));
        assert(ascii_digits(body.take(k + 1 - start))) by {
            assert forall|i: int| 0 <= i < body.take(k + 1 - start).len() implies '0' <= #[trigger] body.take(
                k + 1 - start,
            )[i] <= '9' by {
                if i < k - start {
                    assert(body.take(k + 1 - start)[i] == body.take(k - start)[i]);
                }
            }
        }
        if acc > 922337203685477580 || (acc == 922337203685477580 && d > 8) {
            // The value no longer fits: neither does the whole number.
            proof {
                assert(digits_value(body.take(k + 1 - start)) == acc * 10 + d);
                if ascii_digits(body) {
                    lemma_digits_value_grows(body, k + 1 - start);
                }
            }
            return None;
        }
        acc = acc * 10 + d;
        k = k + 1;
    }
    assert(body.take(n - start) =~= body);
    if negative {
        Some((0i128 - acc as i128) as i64)
    } else if acc <= 9223372036854775807 {
        Some(acc as i64)
    } else {
        None
    }
}

/// The start of `s` without its leading white space.
fn trimmed(s: &Vec<char>) -> (r: Vec<char>)
    ensures
        r@ == trim(s@),
{
    let n = s.len();
    let mut a: usize = 0;
    assert(s@.skip(0) =~= s@);
    while a < n && is_white_space(s[a])
        invariant
            a <= n,
            n == s@.len(),
            trim_start(s@) == trim_start(s@.skip(a as int)),
        decreases n - a,
    {
        assert(s@.skip(a as int).drop_first() =~= s@.skip(a + 1));
        a = a + 1;
    }
    let ghost t = s@.skip(a as int);
    assert(trim_start(s@) == t);
    let mut b = n;
    assert(t.take((b - a) as int) =~= t);
    while b > a && is_white_space(s[b - 1])
        invariant
            a <= b <= n,
            n == s@.len(),
            t == s@.skip(a as int),
            trim_end(t) == trim_end(t.take(b - a)),
        decreases b,
    {
        assert(t.take(b - a).drop_last() =~= t.take(b - a - 1));
        assert(t.take(b - a).last() == s@[b - 1]);
        b = b - 1;
    }
    let mut r: Vec<char> = Vec::new();
    let mut k = a;
    while k < b
        invariant
            a <= k <= b <= n,
            n == s@.len(),
            r@ == s@.subrange(a as int, k as int),
        decreases b - k,
    {
        r.push(s[k]);
        assert(s@.subrange(a as int, k + 1) =~= s@.subrange(a as int, k as int).push(s@[k as int]));
        k = k + 1;
    }
    assert(t.take(b - a) =~= s@.subrange(a as int, b as int));
    if b > a {
        assert(t.take(b - a).last() == s@[b - 1]);
    }
    r
}

/// What `SOURCE_DATE_EPOCH` in `vars` gives: not set (`Ok(None)`), the
/// seconds it holds (decimal, with white space around), or its value if
/// that is no integer.
pub open spec fn spec_source_epoch(vars: Seq<(String, Vec<u8>)>) -> Result<Option<i64>, Seq<u8>> {
    match env_lookup(vars, "SOURCE_DATE_EPOCH"@) {
        None => Ok(None),
        Some(v) => match utf8_text(v) {
            Some(t) => match spec_parse_i64(trim(t)) {
                Some(seconds) => Ok(Some(seconds)),
                None => Err(v),
            },
            None => Err(v),
        },
    }
}

impl Env {
    /// The seconds since the epoch that `SOURCE_DATE_EPOCH` gives the
    /// bitstream header (see [`spec_source_epoch`]).
    pub fn source_epoch(&self) -> (r: Result<Option<i64>, Vec<u8>>)
        ensures
            match (r, spec_source_epoch(self.vars@)) {
                (Ok(a), Ok(b)) => a == b,
                (Err(a), Err(b)) => a@ == b,
                _ => false,
            },
    {
        let value = match self.get("SOURCE_DATE_EPOCH") {
            None => {
                return Ok(None);
            },
            Some(v) => v,
        };
        match from_utf8(value.as_slice()) {
            None => Err(value),
            Some(text) => {
                let chars = chars_of(text.as_str());
                let t = trimmed(&chars);
                match parse_i64(&t) {
                    Some(seconds) => Ok(Some(seconds)),
                    None => Err(value),
                }
            },
        }
    }
}

} // verus!
