//! The command line of the `fasm-db-cache` tool (maintenance of the
//! binary cache of the part databases): its plain argument parser, the
//! command it selects, and its usage errors.
//!
//! ```text
//! usage: fasm-db-cache [--cache-dir DIR] COMMAND [ARGS]
//! ```

use vstd::prelude::*;

use crate::text::{bytes_eq, bytes_of, chars_of, push_all, push_str, string_of, utf8_of};
use vstd::utf8::encode_utf8;

verus! {

/// The help text.
pub const USAGE: &'static str = "usage: fasm-db-cache [--cache-dir DIR] COMMAND [ARGS]

Maintains the binary cache of prjxray-db / prjuray-db part databases that
fasm2frames and xcfasm load instead of the text files.

commands:
  build DB_ROOT PART...  load the parts from the text files and (re)write
                         their cache files
  build --all DB_ROOT    the same for every part of the family
                         (mapping/parts.yaml, or every PART/tilegrid.json)
  verify [FILE...]       fully check cache files (default: all in the cache
                         directory): file hashes, loader version and the
                         content hash of every source file
  info [FILE...]         show the headers of cache files (default: all)
  list                   list the cache files
  clear                  remove every cache file of the cache directory

options:
  --cache-dir DIR        the cache directory (default: $FASM_XDB_CACHE, else
                         $XDG_CACHE_HOME/fasm/db, else ~/.cache/fasm/db)
  -h, --help             show this help

exit codes: 0 success, 1 failure, 2 usage error
";

/// A command line argument: its bytes, and its text (the bytes decoded as
/// UTF-8, lossily).
#[derive(Clone, Debug, PartialEq, Eq)]
pub struct CommandArg {
    /// The bytes.
    pub bytes: Vec<u8>,
    /// The text.
    pub text: String,
}

/// The text `format!("{s:?}")` gives a string: quoted, with `\`
/// escapes.
pub uninterp spec fn debug_text(s: Seq<char>) -> Seq<char>;

/// `format!("{s:?}")` (std's `Debug` of `str`): the string in double
/// quotes, with the escapes of `char::escape_debug` (`\t`, `\r`, `\n`,
/// `\\`, `\"`, `\u{..}` for the characters that are not printable).
/// Nothing is stated of the escaping itself.
#[verifier::external_body]
fn debug_quoted(s: &str) -> (r: String)
    ensures
        r@ == debug_text(s@),
{
    format!("{s:?}")
}

/// What the command line asks for.
#[derive(Clone, Debug, PartialEq, Eq)]
pub enum DbCommand {
    /// `build --all DB_ROOT`.
    BuildAll {
        /// The database root.
        root: Vec<u8>,
    },
    /// `build DB_ROOT PART...`.
    Build {
        /// The database root.
        root: Vec<u8>,
        /// The parts.
        parts: Vec<String>,
    },
    /// `verify [FILE...]`.
    Verify(Vec<Vec<u8>>),
    /// `info [FILE...]`.
    Info(Vec<Vec<u8>>),
    /// `list`.
    List,
    /// `clear`.
    Clear,
}

/// What the tool does with its command line.
#[derive(Clone, Debug, PartialEq, Eq)]
pub enum DbStart {
    /// Print [`USAGE`] on stdout, exit code 0.
    Help,
    /// A usage error: this text on stderr, exit code 2.
    Usage(String),
    /// Run the command with the cache directory given by `--cache-dir`
    /// (else the configured one).
    Run {
        /// `--cache-dir`.
        cache_dir: Option<Vec<u8>>,
        /// The command.
        command: DbCommand,
    },
}

/// How the options before the command end.
pub enum OptionsView {
    /// `-h` or `--help`.
    Help,
    /// A usage error with this message.
    Error(Seq<char>),
    /// The command is at `i`; `--cache-dir` gave `dir`.
    Command { i: int, dir: Option<Seq<u8>> },
}

/// The options from argument `i` on, with `--cache-dir` so far `dir`.
pub open spec fn spec_options(args: Seq<CommandArg>, i: int, dir: Option<Seq<u8>>) -> OptionsView
    decreases args.len() - i,
{
    if i < 0 || i >= args.len() {
        OptionsView::Error("no command given"@)
    } else {
        let t = args[i].text@;
        if t == "-h"@ || t == "--help"@ {
            OptionsView::Help
        } else if t == "--cache-dir"@ {
            if i + 1 >= args.len() {
                OptionsView::Error("--cache-dir needs a directory"@)
            } else {
                spec_options(args, i + 2, Some(args[i + 1].bytes@))
            }
        } else if "--cache-dir="@.is_prefix_of(t) {
            spec_options(args, i + 1, Some(encode_utf8(t.skip(12))))
        } else if t.len() > 0 && t[0] == '-' {
            OptionsView::Error("unknown option "@ + t)
        } else {
            OptionsView::Command { i, dir }
        }
    }
}

/// `b` is `-h` or `--help`.
pub open spec fn is_help(b: Seq<u8>) -> bool {
    b == utf8_of("-h") || b == utf8_of("--help")
}

/// The usage error text for `message`.
pub open spec fn spec_usage_error(message: Seq<char>) -> Seq<char> {
    USAGE@ + "\nfasm-db-cache: error: "@ + message + "\n"@
}

/// The texts of the arguments.
pub open spec fn texts(args: Seq<CommandArg>) -> Seq<Seq<char>> {
    args.map_values(|a: CommandArg| a.text@)
}

/// The bytes of the arguments.
pub open spec fn arg_bytes(args: Seq<CommandArg>) -> Seq<Seq<u8>> {
    args.map_values(|a: CommandArg| a.bytes@)
}

/// The views of strings.
pub open spec fn string_views(v: Seq<String>) -> Seq<Seq<char>> {
    v.map_values(|s: String| s@)
}

/// The views of byte vectors.
pub open spec fn bytes_views(v: Seq<Vec<u8>>) -> Seq<Seq<u8>> {
    v.map_values(|s: Vec<u8>| s@)
}

/// `c` is the command `command` with the arguments `rest`, if they fit
/// it (the argument counts).
pub open spec fn command_is(c: DbCommand, command: Seq<char>, rest: Seq<CommandArg>) -> bool {
    let all = rest.len() > 0 && rest[0].bytes@ == utf8_of("--all");
    if command == "build"@ && all {
        c matches DbCommand::BuildAll { root } && root@ == rest[1].bytes@
    } else if command == "build"@ {
        c matches DbCommand::Build { root, parts } && root@ == rest[0].bytes@ && string_views(parts@)
            == texts(rest.skip(1))
    } else if command == "verify"@ {
        c matches DbCommand::Verify(files) && bytes_views(files@) == arg_bytes(rest)
    } else if command == "info"@ {
        c matches DbCommand::Info(files) && bytes_views(files@) == arg_bytes(rest)
    } else if command == "list"@ {
        c is List
    } else {
        c is Clear
    }
}

/// The argument counts of `command` fit `rest` (`None` for an unknown
/// command).
pub open spec fn arity_ok(command: Seq<char>, rest: Seq<CommandArg>) -> Option<bool> {
    let all = rest.len() > 0 && rest[0].bytes@ == utf8_of("--all");
    if command == "build"@ && all {
        Some(rest.len() == 2)
    } else if command == "build"@ {
        Some(
            rest.len() >= 2 && forall|k: int|
                0 <= k < rest.len() ==> !(#[trigger] rest[k].text@.len() > 0 && rest[k].text@[0] == '-'),
        )
    } else if command == "verify"@ || command == "info"@ {
        Some(true)
    } else if command == "list"@ || command == "clear"@ {
        Some(rest.len() == 0)
    } else {
        None
    }
}

/// `s` is what the tool does with the command line `args` (without the
/// program name).
pub open spec fn db_start_is(s: DbStart, args: Seq<CommandArg>) -> bool {
    match spec_options(args, 0, None) {
        OptionsView::Help => s is Help,
        OptionsView::Error(m) => s matches DbStart::Usage(u) && u@ == spec_usage_error(m),
        OptionsView::Command { i, dir } => {
            let command = args[i].text@;
            let rest = args.skip(i + 1);
            if exists|k: int| 0 <= k < rest.len() && is_help(#[trigger] rest[k].bytes@) {
                s is Help
            } else {
                match arity_ok(command, rest) {
                    None => s matches DbStart::Usage(u) && u@ == spec_usage_error(
                        "unknown command "@ + debug_text(command),
                    ),
                    Some(false) => s matches DbStart::Usage(u) && u@ == spec_usage_error(
                        "wrong arguments for "@ + debug_text(command),
                    ),
                    Some(true) => s matches DbStart::Run { cache_dir, command: c } && (match cache_dir {
                        Some(d) => dir == Some(d@),
                        None => dir is None,
                    }) && command_is(c, command, rest),
                }
            }
        },
    }
}

fn usage_error(message: &Vec<char>) -> (r: DbStart)
    ensures
        r matches DbStart::Usage(u) && u@ == spec_usage_error(message@),
{
    let mut t: Vec<char> = Vec::new();
    push_str(&mut t, USAGE);
    push_str(&mut t, "\nfasm-db-cache: error: ");
    push_all(&mut t, message);
    push_str(&mut t, "\n");
    DbStart::Usage(string_of(&t))
}

fn chars_eq_str(a: &Vec<char>, b: &str) -> (r: bool)
    ensures
        r == (a@ == b@),
{
    let c = chars_of(b);
    if a.len() != c.len() {
        return false;
    }
    let mut i: usize = 0;
    while i < a.len()
        invariant
            a@.len() == c@.len(),
            c@ == b@,
            0 <= i <= a@.len(),
            forall|j: int| 0 <= j < i ==> a@[j] == c@[j],
        decreases a@.len() - i,
    {
        if a[i] != c[i] {
            return false;
        }
        i = i + 1;
    }
    assert(a@ =~= c@);
    true
}

/// Whether `a` starts with `--cache-dir=`.
fn has_cache_dir_prefix(a: &Vec<char>) -> (r: bool)
    ensures
        r == "--cache-dir="@.is_prefix_of(a@),
{
    let p = chars_of("--cache-dir=");
    proof {
        reveal_strlit("--cache-dir=");
    }
    if a.len() < p.len() {
        return false;
    }
    let mut i: usize = 0;
    while i < p.len()
        invariant
            p@ == "--cache-dir="@,
            p@.len() <= a@.len(),
            0 <= i <= p@.len(),
            forall|j: int| 0 <= j < i ==> a@[j] == p@[j],
        decreases p@.len() - i,
    {
        if a[i] != p[i] {
            return false;
        }
        i = i + 1;
    }
    assert(a@.subrange(0, p@.len() as int) =~= p@);
    true
}

/// What the tool does with the command line `args` (without the program
/// name): see [`db_start_is`].
pub fn start(args: &[CommandArg]) -> (r: DbStart)
    ensures
        db_start_is(r, args@),
{
    proof {
        reveal_strlit("--cache-dir=");
        reveal_strlit("-h");
        reveal_strlit("--help");
        reveal_strlit("--cache-dir");
    }
    let n = args.len();
    let mut i: usize = 0;
    let mut dir: Option<Vec<u8>> = None;
    // The options before the command.
    loop
        invariant
            0 <= i <= n,
            n == args@.len(),
            spec_options(args@, 0, None) == spec_options(
                args@,
                i as int,
                match dir {
                    Some(d) => Some(d@),
                    None => None,
                },
            ),
        ensures
            i < n,
            spec_options(args@, 0, None) == (OptionsView::Command {
                i: i as int,
                dir: match dir {
                    Some(d) => Some(d@),
                    None => None,
                },
            }),
        decreases n - i,
    {
        proof {
            reveal_strlit("--cache-dir=");
            reveal_strlit("-h");
            reveal_strlit("--help");
            reveal_strlit("--cache-dir");
        }
        if i >= n {
            let mut m: Vec<char> = Vec::new();
            push_str(&mut m, "no command given");
            return usage_error(&m);
        }
        let t = chars_of(args[i].text.as_str());
        if chars_eq_str(&t, "-h") || chars_eq_str(&t, "--help") {
            return DbStart::Help;
        }
        if chars_eq_str(&t, "--cache-dir") {
            if n - i < 2 {
                let mut m: Vec<char> = Vec::new();
                push_str(&mut m, "--cache-dir needs a directory");
                return usage_error(&m);
            }
            let mut d: Vec<u8> = Vec::new();
            push_all(&mut d, &args[i + 1].bytes);
            dir = Some(d);
            i = i + 2;
        } else if has_cache_dir_prefix(&t) {
            let mut rest: Vec<char> = Vec::new();
            let mut k: usize = 12;
            while k < t.len()
                invariant
                    12 <= k <= t@.len(),
                    rest@ == t@.subrange(12, k as int),
                decreases t@.len() - k,
            {
                rest.push(t[k]);
                assert(t@.subrange(12, k + 1) =~= t@.subrange(12, k as int).push(t@[k as int]));
                k = k + 1;
            }
            assert(rest@ =~= t@.skip(12));
            let s = string_of(&rest);
            dir = Some(bytes_of(s.as_str()));
            i = i + 1;
        } else if t.len() > 0 && t[0] == '-' {
            let mut m: Vec<char> = Vec::new();
            push_str(&mut m, "unknown option ");
            push_all(&mut m, &t);
            return usage_error(&m);
        } else {
            break;
        }
    }
    let ghost rest_view = args@.skip(i + 1);
    let ghost dview = match &dir {
        Some(d) => Some(d@),
        None => None,
    };
    let command = chars_of(args[i].text.as_str());
    // `-h` or `--help` after the command.
    let mut k = i + 1;
    while k < n
        invariant
            i + 1 <= k <= n,
            i < n,
            n == args@.len(),
            rest_view == args@.skip(i + 1),
            spec_options(args@, 0, None) == (OptionsView::Command { i: i as int, dir: dview }),
            forall|j: int| 0 <= j < k - i - 1 ==> !is_help(#[trigger] rest_view[j].bytes@),
        decreases n - k,
    {
        assert(rest_view[k - i - 1] == args@[k as int]);
        if bytes_eq(args[k].bytes.as_slice(), bytes_of("-h").as_slice()) || bytes_eq(
            args[k].bytes.as_slice(),
            bytes_of("--help").as_slice(),
        ) {
            assert(is_help(rest_view[k - i - 1].bytes@));
            return DbStart::Help;
        }
        k = k + 1;
    }
    assert(!exists|j: int| 0 <= j < rest_view.len() && is_help(#[trigger] rest_view[j].bytes@));
    let rest_len = n - i - 1;
    let all = rest_len > 0 && bytes_eq(args[i + 1].bytes.as_slice(), bytes_of("--all").as_slice());
    assert(all == (rest_view.len() > 0 && rest_view[0].bytes@ == utf8_of("--all")));
    let is_build = chars_eq_str(&command, "build");
    let ok = if is_build && all {
        rest_len == 2
    } else if is_build {
        let mut dash = false;
        let mut j = i + 1;
        while j < n
            invariant
                i + 1 <= j <= n,
                n == args@.len(),
                rest_view == args@.skip(i + 1),
                dash == exists|k: int|
                    0 <= k < j - i - 1 && #[trigger] rest_view[k].text@.len() > 0 && rest_view[k].text@[0] == '-',
            decreases n - j,
        {
            assert(rest_view[j - i - 1] == args@[j as int]);
            let t = chars_of(args[j].text.as_str());
            if t.len() > 0 && t[0] == '-' {
                dash = true;
            }
            j = j + 1;
        }
        rest_len >= 2 && !dash
    } else if chars_eq_str(&command, "verify") || chars_eq_str(&command, "info") {
        true
    } else if chars_eq_str(&command, "list") || chars_eq_str(&command, "clear") {
        rest_len == 0
    } else {
        let mut m: Vec<char> = Vec::new();
        push_str(&mut m, "unknown command ");
        let q = debug_quoted(args[i].text.as_str());
        push_str(&mut m, q.as_str());
        return usage_error(&m);
    };
    if !ok {
        let mut m: Vec<char> = Vec::new();
        push_str(&mut m, "wrong arguments for ");
        let q = debug_quoted(args[i].text.as_str());
        push_str(&mut m, q.as_str());
        return usage_error(&m);
    }
    let c = if is_build && all {
        let mut root: Vec<u8> = Vec::new();
        push_all(&mut root, &args[i + 2].bytes);
        assert(rest_view[1] == args@[i + 2]);
        DbCommand::BuildAll { root }
    } else if is_build {
        let mut root: Vec<u8> = Vec::new();
        push_all(&mut root, &args[i + 1].bytes);
        let mut parts: Vec<String> = Vec::new();
        let mut j = i + 2;
        while j < n
            invariant
                i + 2 <= j <= n,
                n == args@.len(),
                rest_view == args@.skip(i + 1),
                parts@.len() == j - i - 2,
                forall|k: int| 0 <= k < j - i - 2 ==> #[trigger] parts@[k]@ == args@[i + 2 + k].text@,
            decreases n - j,
        {
            parts.push(args[j].text.clone());
            j = j + 1;
        }
        assert(string_views(parts@) =~= texts(rest_view.skip(1)));
        DbCommand::Build { root, parts }
    } else if chars_eq_str(&command, "verify") || chars_eq_str(&command, "info") {
        let mut files: Vec<Vec<u8>> = Vec::new();
        let mut j = i + 1;
        while j < n
            invariant
                i + 1 <= j <= n,
                n == args@.len(),
                rest_view == args@.skip(i + 1),
                files@.len() == j - i - 1,
                forall|k: int| 0 <= k < j - i - 1 ==> #[trigger] files@[k]@ == args@[i + 1 + k].bytes@,
            decreases n - j,
        {
            let mut f: Vec<u8> = Vec::new();
            push_all(&mut f, &args[j].bytes);
            files.push(f);
            j = j + 1;
        }
        assert(bytes_views(files@) =~= arg_bytes(rest_view));
        if chars_eq_str(&command, "verify") {
            DbCommand::Verify(files)
        } else {
            DbCommand::Info(files)
        }
    } else if chars_eq_str(&command, "list") {
        DbCommand::List
    } else {
        DbCommand::Clear
    };
    DbStart::Run { cache_dir: dir, command: c }
}

/// `bytes` in lowercase hexadecimal, two digits each.
pub open spec fn spec_hex(bytes: Seq<u8>) -> Seq<char>
    decreases bytes.len(),
{
    if bytes.len() == 0 {
        seq![]
    } else {
        spec_hex(bytes.drop_last()) + crate::text::pad_left(
            crate::text::radix_text(bytes.last() as nat, 16, false),
            2,
            '0',
        )
    }
}

/// `bytes` in lowercase hexadecimal, two digits each.
pub fn hex(bytes: &[u8]) -> (r: String)
    ensures
        r@ == spec_hex(bytes@),
{
    let mut out: Vec<char> = Vec::new();
    let mut i: usize = 0;
    while i < bytes.len()
        invariant
            0 <= i <= bytes@.len(),
            out@ == spec_hex(bytes@.take(i as int)),
        decreases bytes@.len() - i,
    {
        assert(bytes@.take(i + 1).drop_last() =~= bytes@.take(i as int));
        crate::text::push_radix_padded(&mut out, bytes[i] as u64, 16, false, 2, '0');
        i = i + 1;
    }
    assert(bytes@.take(bytes@.len() as int) =~= bytes@);
    string_of(&out)
}

} // verus!

verus! {

// ---------------------------------------------------------------------
// `info`.

/// What a cache file's header says of one of its source files.
#[derive(Clone, Debug, PartialEq, Eq)]
pub enum SourceState {
    /// Its content is hashed: its size and the first bytes of its hash.
    Content {
        /// The size in bytes.
        size: u64,
        /// The hash (its first 8 bytes, or all of a shorter one, are shown).
        hash: Vec<u8>,
    },
    /// It must be absent.
    Absent,
    /// It must be present.
    Present,
}

/// A source file of a cache file.
#[derive(Clone, Debug, PartialEq, Eq)]
pub struct SourceLine {
    /// What is checked of it.
    pub state: SourceState,
    /// Its path in the database.
    pub path: String,
}

/// The header of a cache file as `info` shows it.
#[derive(Clone, Debug, PartialEq, Eq)]
pub struct CacheSummary {
    /// The cache file.
    pub file: String,
    /// The part.
    pub part: String,
    /// The database root.
    pub db_root: String,
    /// The layout (`prjxray` or `prjuray`).
    pub layout: String,
    /// The architecture.
    pub architecture: String,
    /// The format version.
    pub format_version: String,
    /// The version of the library that wrote the file.
    pub crate_version: String,
    /// The loader fingerprint.
    pub loader_fingerprint: String,
    /// The fingerprint is this build's.
    pub this_build: bool,
    /// When the file was created (Unix time).
    pub created: u64,
    /// The size of the file.
    pub file_len: u64,
    /// The size of its payload.
    pub payload_len: u64,
    /// The hash of the sources.
    pub source_hash: Vec<u8>,
    /// The number of bytes of the sources.
    pub source_bytes: u64,
    /// The sources.
    pub sources: Vec<SourceLine>,
}

/// `n` in decimal.
pub open spec fn dec(n: u64) -> Seq<char> {
    crate::text::radix_text(n as nat, 10, false)
}

/// The text of a source: `{:>10}  ` and the hash's first 8 bytes, or
/// `absent` / `present` and 16 spaces.
pub open spec fn source_what(state: SourceState) -> Seq<char> {
    match state {
        SourceState::Content { size, hash } => crate::text::pad_left(dec(size), 10, ' ') + "  "@ + spec_hex(
            if hash@.len() < 8 {
                hash@
            } else {
                hash@.take(8)
            },
        ),
        SourceState::Absent => crate::text::pad_left("absent"@, 10, ' ') + "  "@ + crate::text::pad_right(
            seq![],
            16,
        ),
        SourceState::Present => crate::text::pad_left("present"@, 10, ' ') + "  "@ + crate::text::pad_right(
            seq![],
            16,
        ),
    }
}

/// The lines of the sources.
pub open spec fn source_lines(sources: Seq<SourceLine>) -> Seq<char>
    decreases sources.len(),
{
    if sources.len() == 0 {
        seq![]
    } else {
        source_lines(sources.drop_last()) + "    "@ + source_what(sources.last().state) + "  "@
            + sources.last().path@ + "\n"@
    }
}

/// What `info` prints for a cache file (followed by an empty line).
pub open spec fn spec_info_text(i: CacheSummary) -> Seq<char> {
    i.file@ + "\n"@ + "  part:            "@ + i.part@ + "\n"@ + "  database root:   "@ + i.db_root@ + "\n"@
        + "  layout:          "@ + i.layout@ + "\n"@ + "  architecture:    "@ + i.architecture@ + "\n"@
        + "  format version:  "@ + i.format_version@ + "\n"@ + "  written by:      fasm-xilinx "@
        + i.crate_version@ + " (loader "@ + i.loader_fingerprint@ + (if i.this_build {
        ", this build"@
    } else {
        ", another build: will be rebuilt"@
    }) + ")\n"@ + "  created:         "@ + dec(i.created) + " (Unix time)\n"@ + "  size:            "@ + dec(
        i.file_len,
    ) + " bytes (payload "@ + dec(i.payload_len) + ")\n"@ + "  source hash:     "@ + spec_hex(i.source_hash@)
        + " ("@ + dec(i.source_bytes) + " bytes)\n"@ + "  sources:\n"@ + source_lines(i.sources@) + "\n"@
}

fn push_string(out: &mut Vec<char>, s: &String)
    ensures
        final(out)@ == old(out)@ + s@,
{
    push_str(out, s.as_str());
}

fn push_source_what(out: &mut Vec<char>, state: &SourceState)
    ensures
        final(out)@ == old(out)@ + source_what(*state),
{
    match state {
        SourceState::Content { size, hash } => {
            crate::text::push_radix_padded(out, *size, 10, false, 10, ' ');
            push_str(out, "  ");
            let n = if hash.len() < 8 {
                hash.len()
            } else {
                8
            };
            let mut first: Vec<u8> = Vec::new();
            let mut k: usize = 0;
            while k < n
                invariant
                    k <= n <= hash@.len(),
                    n == (if hash@.len() < 8 { hash@.len() } else { 8 }),
                    first@ == hash@.take(k as int),
                decreases n - k,
            {
                first.push(hash[k]);
                assert(hash@.take(k + 1) =~= hash@.take(k as int).push(hash@[k as int]));
                k = k + 1;
            }
            assert(first@ =~= (if hash@.len() < 8 {
                hash@
            } else {
                hash@.take(8)
            }));
            let h = hex(first.as_slice());
            push_string(out, &h);
        },
        SourceState::Absent => {
            push_str(out, "    absent  ");
            push_str(out, "                ");
            proof {
                reveal_strlit("absent");
                reveal_strlit("    absent  ");
                reveal_strlit("  ");
                reveal_strlit("                ");
                assert(crate::text::pad_right(seq![], 16) =~= "                "@);
                assert(crate::text::pad_left("absent"@, 10, ' ') + "  "@ =~= "    absent  "@);
            }
        },
        SourceState::Present => {
            push_str(out, "   present  ");
            push_str(out, "                ");
            proof {
                reveal_strlit("present");
                reveal_strlit("   present  ");
                reveal_strlit("  ");
                reveal_strlit("                ");
                assert(crate::text::pad_right(seq![], 16) =~= "                "@);
                assert(crate::text::pad_left("present"@, 10, ' ') + "  "@ =~= "   present  "@);
            }
        },
    }
}

/// What `info` prints for a cache file (see [`spec_info_text`]).
pub fn info_text(i: &CacheSummary) -> (r: String)
    ensures
        r@ == spec_info_text(*i),
{
    let mut out: Vec<char> = Vec::new();
    push_string(&mut out, &i.file);
    push_str(&mut out, "\n");
    push_str(&mut out, "  part:            ");
    push_string(&mut out, &i.part);
    push_str(&mut out, "\n");
    push_str(&mut out, "  database root:   ");
    push_string(&mut out, &i.db_root);
    push_str(&mut out, "\n");
    push_str(&mut out, "  layout:          ");
    push_string(&mut out, &i.layout);
    push_str(&mut out, "\n");
    push_str(&mut out, "  architecture:    ");
    push_string(&mut out, &i.architecture);
    push_str(&mut out, "\n");
    push_str(&mut out, "  format version:  ");
    push_string(&mut out, &i.format_version);
    push_str(&mut out, "\n");
    push_str(&mut out, "  written by:      fasm-xilinx ");
    push_string(&mut out, &i.crate_version);
    push_str(&mut out, " (loader ");
    push_string(&mut out, &i.loader_fingerprint);
    if i.this_build {
        push_str(&mut out, ", this build");
    } else {
        push_str(&mut out, ", another build: will be rebuilt");
    }
    push_str(&mut out, ")\n");
    push_str(&mut out, "  created:         ");
    crate::text::push_radix(&mut out, i.created, 10, false);
    push_str(&mut out, " (Unix time)\n");
    push_str(&mut out, "  size:            ");
    crate::text::push_radix(&mut out, i.file_len, 10, false);
    push_str(&mut out, " bytes (payload ");
    crate::text::push_radix(&mut out, i.payload_len, 10, false);
    push_str(&mut out, ")\n");
    push_str(&mut out, "  source hash:     ");
    let h = hex(i.source_hash.as_slice());
    push_string(&mut out, &h);
    push_str(&mut out, " (");
    crate::text::push_radix(&mut out, i.source_bytes, 10, false);
    push_str(&mut out, " bytes)\n");
    push_str(&mut out, "  sources:\n");
    let ghost head = out@;
    let mut k: usize = 0;
    while k < i.sources.len()
        invariant
            0 <= k <= i.sources@.len(),
            out@ == head + source_lines(i.sources@.take(k as int)),
        decreases i.sources@.len() - k,
    {
        assert(i.sources@.take(k + 1).drop_last() =~= i.sources@.take(k as int));
        push_str(&mut out, "    ");
        push_source_what(&mut out, &i.sources[k].state);
        push_str(&mut out, "  ");
        push_string(&mut out, &i.sources[k].path);
        push_str(&mut out, "\n");
        k = k + 1;
    }
    assert(i.sources@.take(i.sources@.len() as int) =~= i.sources@);
    push_str(&mut out, "\n");
    string_of(&out)
}

} // verus!
