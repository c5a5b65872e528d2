//! The gflags command line parsing of prjxray's C++ tools
//! (`ParseCommandLineFlags(&argc, &argv, true)` of the gflags version they
//! bundle):
//!
//! * `-flag`, `--flag`, `-flag=value`, `--flag value` (not for booleans),
//!   `-noflag` for booleans, boolean values `1/0/t/f/true/false/y/n/
//!   yes/no` (any case), int32 values in decimal or `0x` hex;
//! * arguments that are not flags (and `-`) are moved after the flags (GNU
//!   style permutation), `--` ends the flags;
//! * errors (unknown flags, missing or illegal values) are collected per
//!   flag name and printed together on stderr, sorted by name, exit code
//!   1, after the help flags have been handled;
//! * `--help`/`--helpful`, `--helpshort`, `--helpon=M`, `--helpmatch=S`,
//!   `--helppackage`, `--helpxml`, `--version` print to stdout like gflags
//!   (exit code 1, 0 for `--version`), with the flags of each source file
//!   listed under `Flags from <file>:`;
//! * `--undefok`, `--fromenv`, `--tryfromenv` are supported; `--flagfile`
//!   is an error.

use vstd::prelude::*;

pub mod bool_values;

use crate::text::{
    ascii_bytes, bytes_eq, bytes_of, chars_of, decimal_text, push_all, push_decimal_bytes,
    push_str_bytes, str_eq, utf8_of, views,
};
use crate::xc7frames2bit::{env_lookup, Env};

verus! {

/// The type of a flag.
#[derive(Clone, Copy, Debug, PartialEq, Eq, Structural)]
pub enum FlagType {
    /// `DEFINE_bool`.
    Bool,
    /// `DEFINE_int32`.
    Int32,
    /// `DEFINE_string`.
    String,
}

/// The gflags name of a flag type.
pub open spec fn flag_type_name(ty: FlagType) -> &'static str {
    match ty {
        FlagType::Bool => "bool",
        FlagType::Int32 => "int32",
        FlagType::String => "string",
    }
}

impl FlagType {
    /// The gflags type name.
    pub fn name(self) -> (r: &'static str)
        ensures
            r == flag_type_name(self),
    {
        match self {
            FlagType::Bool => "bool",
            FlagType::Int32 => "int32",
            FlagType::String => "string",
        }
    }
}

/// One flag definition (`DEFINE_<type>(name, default, help)` in `file`).
#[derive(Clone, Copy, Debug, PartialEq, Eq)]
pub struct Flag {
    /// The name.
    pub name: &'static str,
    /// The source file (as shown by the help).
    pub file: &'static str,
    /// The type.
    pub ty: FlagType,
    /// The default value as gflags prints it (`false`, `-1`, a string).
    pub default: &'static str,
    /// The help text.
    pub help: &'static str,
}

/// The file of gflags' own flags.
pub const GFLAGS_CC: &'static str = "third_party/gflags/src/gflags.cc";

/// The file of gflags' completion flags.
pub const COMPLETIONS_CC: &'static str = "third_party/gflags/src/gflags_completions.cc";

/// The file of gflags' help flags.
pub const REPORTING_CC: &'static str = "third_party/gflags/src/gflags_reporting.cc";

/// The flags gflags itself defines.
pub open spec fn spec_builtin_flags() -> Seq<Flag> {
    seq![
        Flag { name: "flagfile", file: GFLAGS_CC, ty: FlagType::String, default: "", help: "load flags from file" },
        Flag { name: "fromenv", file: GFLAGS_CC, ty: FlagType::String, default: "", help: "set flags from the environment [use 'export FLAGS_flag1=value']" },
        Flag { name: "tryfromenv", file: GFLAGS_CC, ty: FlagType::String, default: "", help: "set flags from the environment if present" },
        Flag { name: "undefok", file: GFLAGS_CC, ty: FlagType::String, default: "", help: "comma-separated list of flag names that it is okay to specify on the command line even if the program does not define a flag with that name.  IMPORTANT: flags in this list that have arguments MUST use the flag=value format" },
        Flag { name: "tab_completion_columns", file: COMPLETIONS_CC, ty: FlagType::Int32, default: "80", help: "Number of columns to use in output for tab completion" },
        Flag { name: "tab_completion_word", file: COMPLETIONS_CC, ty: FlagType::String, default: "", help: "If non-empty, HandleCommandLineCompletions() will hijack the process and attempt to do bash-style command line flag completion on this value." },
        Flag { name: "help", file: REPORTING_CC, ty: FlagType::Bool, default: "false", help: "show help on all flags [tip: all flags can have two dashes]" },
        Flag { name: "helpful", file: REPORTING_CC, ty: FlagType::Bool, default: "false", help: "show help on all flags -- same as -help" },
        Flag { name: "helpmatch", file: REPORTING_CC, ty: FlagType::String, default: "", help: "show help on modules whose name contains the specified substr" },
        Flag { name: "helpon", file: REPORTING_CC, ty: FlagType::String, default: "", help: "show help on the modules named by this flag value" },
        Flag { name: "helppackage", file: REPORTING_CC, ty: FlagType::Bool, default: "false", help: "show help on all modules in the main package" },
        Flag { name: "helpshort", file: REPORTING_CC, ty: FlagType::Bool, default: "false", help: "show help on only the main module for this program" },
        Flag { name: "helpxml", file: REPORTING_CC, ty: FlagType::Bool, default: "false", help: "produce an xml version of help" },
        Flag { name: "version", file: REPORTING_CC, ty: FlagType::Bool, default: "false", help: "show version and build info and exit" },
    ]
}

/// The flags gflags itself defines.
pub fn builtin_flags() -> (r: Vec<Flag>)
    ensures
        r@ == spec_builtin_flags(),
{
    let r = vec![
        Flag { name: "flagfile", file: GFLAGS_CC, ty: FlagType::String, default: "", help: "load flags from file" },
        Flag { name: "fromenv", file: GFLAGS_CC, ty: FlagType::String, default: "", help: "set flags from the environment [use 'export FLAGS_flag1=value']" },
        Flag { name: "tryfromenv", file: GFLAGS_CC, ty: FlagType::String, default: "", help: "set flags from the environment if present" },
        Flag { name: "undefok", file: GFLAGS_CC, ty: FlagType::String, default: "", help: "comma-separated list of flag names that it is okay to specify on the command line even if the program does not define a flag with that name.  IMPORTANT: flags in this list that have arguments MUST use the flag=value format" },
        Flag { name: "tab_completion_columns", file: COMPLETIONS_CC, ty: FlagType::Int32, default: "80", help: "Number of columns to use in output for tab completion" },
        Flag { name: "tab_completion_word", file: COMPLETIONS_CC, ty: FlagType::String, default: "", help: "If non-empty, HandleCommandLineCompletions() will hijack the process and attempt to do bash-style command line flag completion on this value." },
        Flag { name: "help", file: REPORTING_CC, ty: FlagType::Bool, default: "false", help: "show help on all flags [tip: all flags can have two dashes]" },
        Flag { name: "helpful", file: REPORTING_CC, ty: FlagType::Bool, default: "false", help: "show help on all flags -- same as -help" },
        Flag { name: "helpmatch", file: REPORTING_CC, ty: FlagType::String, default: "", help: "show help on modules whose name contains the specified substr" },
        Flag { name: "helpon", file: REPORTING_CC, ty: FlagType::String, default: "", help: "show help on the modules named by this flag value" },
        Flag { name: "helppackage", file: REPORTING_CC, ty: FlagType::Bool, default: "false", help: "show help on all modules in the main package" },
        Flag { name: "helpshort", file: REPORTING_CC, ty: FlagType::Bool, default: "false", help: "show help on only the main module for this program" },
        Flag { name: "helpxml", file: REPORTING_CC, ty: FlagType::Bool, default: "false", help: "produce an xml version of help" },
        Flag { name: "version", file: REPORTING_CC, ty: FlagType::Bool, default: "false", help: "show version and build info and exit" },
    ];
    assert(r@ =~= spec_builtin_flags());
    r
}

// ---------------------------------------------------------------------
// Values.

/// The text printed before every error.
pub const ERROR: &'static str = "ERROR: ";

/// C `isspace` in the "C" locale.
pub open spec fn c_space(c: u8) -> bool {
    c == 32 || (9 <= c && c <= 13)
}

/// C `isspace` in the "C" locale.
pub fn is_space(c: u8) -> (r: bool)
    ensures
        r == c_space(c),
{
    c == 32 || (9 <= c && c <= 13)
}

/// The value of a digit or letter character (`0`-`9`, then `a`-`z` or
/// `A`-`Z` from 10 on), 36 for any other byte.
pub open spec fn char_digit_value(c: u8) -> nat {
    if 48 <= c && c <= 57 {
        (c - 48) as nat
    } else if 97 <= c && c <= 122 {
        (c - 87) as nat
    } else if 65 <= c && c <= 90 {
        (c - 55) as nat
    } else {
        36
    }
}

/// `(c as char).to_digit(base)`.
pub open spec fn digit_of(c: u8, base: nat) -> Option<nat> {
    if char_digit_value(c) < base {
        Some(char_digit_value(c))
    } else {
        None
    }
}

/// `(c as char).to_digit(base)` for `base` of at most 36.
pub fn to_digit(c: u8, base: u32) -> (r: Option<u32>)
    requires
        base <= 36,
    ensures
        r matches Some(d) ==> digit_of(c, base as nat) == Some(d as nat),
        r is None ==> digit_of(c, base as nat) is None,
{
    let v: u32 = if 48 <= c && c <= 57 {
        (c - 48) as u32
    } else if 97 <= c && c <= 122 {
        (c - 87) as u32
    } else if 65 <= c && c <= 90 {
        (c - 55) as u32
    } else {
        36
    };
    if v < base {
        Some(v)
    } else {
        None
    }
}

/// Every byte of `s` is a digit in `base`.
pub open spec fn all_digits(s: Seq<u8>, base: nat) -> bool {
    forall|i: int| 0 <= i < s.len() ==> #[trigger] digit_of(s[i], base) is Some
}

/// The value of the digits `s` in `base`.
pub open spec fn digits_value(s: Seq<u8>, base: nat) -> nat
    decreases s.len(),
{
    if s.len() == 0 {
        0
    } else {
        digits_value(s.drop_last(), base) * base + char_digit_value(s.last())
    }
}

/// `s` without its leading C white space.
pub open spec fn skip_c_spaces(s: Seq<u8>) -> Seq<u8>
    decreases s.len(),
{
    if s.len() > 0 && c_space(s[0]) {
        skip_c_spaces(s.drop_first())
    } else {
        s
    }
}

/// The sign of a number text: `true` for a leading `-`.
pub open spec fn sign_negative(s: Seq<u8>) -> bool {
    s.len() > 0 && s[0] == 45
}

/// A number text without its sign.
pub open spec fn skip_sign(s: Seq<u8>) -> Seq<u8> {
    if s.len() > 0 && (s[0] == 43 || s[0] == 45) {
        s.drop_first()
    } else {
        s
    }
}

/// `s` starts with `0x` or `0X` followed by a hex digit.
pub open spec fn has_hex_prefix(s: Seq<u8>) -> bool {
    s.len() >= 3 && s[0] == 48 && (s[1] == 120 || s[1] == 88) && digit_of(s[2], 16) is Some
}

/// `strtoll(value, &end, base)` that consumes the whole text without
/// overflow: leading white space, a sign, a `0x` prefix for base 16, then
/// only digits.
pub open spec fn spec_strtoll_full(value: Seq<u8>, base: nat) -> Option<int> {
    let r0 = skip_c_spaces(value);
    let negative = sign_negative(r0);
    let r1 = skip_sign(r0);
    let r2 = if base == 16 && has_hex_prefix(r1) {
        r1.skip(2)
    } else {
        r1
    };
    signed_digits_value(r2, negative, base)
}

/// The value of the digits `s` in `base` with the sign `negative`, if all
/// of `s` are digits and the value fits in an `i64`.
pub open spec fn signed_digits_value(s: Seq<u8>, negative: bool, base: nat) -> Option<int> {
    if s.len() == 0 || !all_digits(s, base) || digits_value(s, base) > i64::MAX + 1 {
        None
    } else {
        let v = if negative {
            -digits_value(s, base)
        } else {
            digits_value(s, base) as int
        };
        if v > i64::MAX {
            None
        } else {
            Some(v)
        }
    }
}

proof fn lemma_skip_c_spaces(s: Seq<u8>, i: int)
    requires
        0 <= i <= s.len(),
        forall|j: int| 0 <= j < i ==> c_space(s[j]),
        i < s.len() ==> !c_space(s[i]),
    ensures
        skip_c_spaces(s) == s.skip(i),
    decreases i,
{
    if i > 0 {
        assert forall|j: int| 0 <= j < i - 1 implies c_space(s.drop_first()[j]) by {
            assert(s.drop_first()[j] == s[j + 1]);
        }
        lemma_skip_c_spaces(s.drop_first(), i - 1);
        assert(s.drop_first().skip(i - 1) =~= s.skip(i));
    } else {
        assert(s.skip(0) =~= s);
    }
}

proof fn lemma_digits_value_grows(s: Seq<u8>, a: int, base: nat)
    requires
        0 <= a <= s.len(),
        base >= 1,
    ensures
        digits_value(s.take(a), base) <= digits_value(s, base),
    decreases s.len() - a,
{
    if a < s.len() {
        lemma_digits_value_grows(s, a + 1, base);
        assert(s.take(a + 1).drop_last() =~= s.take(a));
        let v = digits_value(s.take(a), base);
        assert(v <= v * base + char_digit_value(s[a])) by (nonlinear_arith)
            requires
                base >= 1,
        ;
    } else {
        assert(s.take(a) =~= s);
    }
}

/// Position of the first byte of `s` that is not C white space.
fn skip_spaces_from(s: &[u8], start: usize) -> (r: usize)
    requires
        start <= s@.len(),
    ensures
        start <= r <= s@.len(),
        forall|j: int| start <= j < r ==> c_space(s@[j]),
        r < s@.len() ==> !c_space(s@[r as int]),
{
    let mut i = start;
    while i < s.len() && is_space(s[i])
        invariant
            start <= i <= s@.len(),
            forall|j: int| start <= j < i ==> c_space(s@[j]),
        decreases s@.len() - i,
    {
        i = i + 1;
    }
    i
}

/// `strtoll(value, &end, base)` that must consume the whole text and not
/// overflow (`errno`).
pub fn strtoll_full(value: &[u8], base: u32) -> (r: Option<i64>)
    requires
        base == 10 || base == 16,
    ensures
        r matches Some(v) ==> spec_strtoll_full(value@, base as nat) == Some(v as int),
        r is None ==> spec_strtoll_full(value@, base as nat) is None,
{
    let n = value.len();
    let mut i = skip_spaces_from(value, 0);
    proof {
        lemma_skip_c_spaces(value@, i as int);
    }
    let ghost r0 = value@.skip(i as int);
    let mut negative = false;
    if i < n && (value[i] == 43 || value[i] == 45) {
        negative = value[i] == 45;
        i = i + 1;
    }
    let ghost r1 = value@.skip(i as int);
    assert(r1 =~= skip_sign(r0));
    assert(negative == sign_negative(r0));
    if base == 16 && n - i >= 3 && value[i] == 48 && (value[i + 1] == 120 || value[i + 1] == 88)
        && to_digit(value[i + 2], 16).is_some() {
        assert(has_hex_prefix(r1));
        i = i + 2;
        assert(value@.skip(i as int) =~= r1.skip(2));
    } else {
        assert(!(base == 16 && has_hex_prefix(r1)));
    }
    let ghost r2 = value@.skip(i as int);
    assert(spec_strtoll_full(value@, base as nat) == signed_digits_value(r2, negative, base as nat));
    if i == n {
        return None;
    }
    let mut v: u128 = 0;
    let mut k = i;
    while k < n
        invariant
            i <= k <= n,
            n == value@.len(),
            r2 == value@.skip(i as int),
            spec_strtoll_full(value@, base as nat) == signed_digits_value(r2, negative, base as nat),
            base == 10 || base == 16,
            v == digits_value(r2.take(k - i), base as nat),
            v <= i64::MAX + 1,
            all_digits(r2.take(k - i), base as nat),
        decreases n - k,
    {
        assert(r2.take(k - i + 1).drop_last() =~= r2.take(k - i));
        assert(r2.take(k - i + 1).last() == value@[k as int]);
        let d = match to_digit(value[k], base) {
            Some(d) => d,
            None => {
                assert(!all_digits(r2, base as nat)) by {
                    assert(r2[k - i] == value@[k as int]);
                }
                return None;
            },
        };
        assert(v * (base as nat) + d <= (i64::MAX + 1) * 16 + 16) by (nonlinear_arith)
            requires
                v <= i64::MAX + 1,
                base <= 16,
                d < 16,
        ;
        v = v * (base as u128) + (d as u128);
        assert forall|j: int| 0 <= j < k - i + 1 implies #[trigger] digit_of(
            r2.take(k - i + 1)[j],
            base as nat,
        ) is Some by {
            if j < k - i {
                assert(r2.take(k - i + 1)[j] == r2.take(k - i)[j]);
            }
        }
        if v > 9223372036854775808u128 {
            proof {
                lemma_digits_value_grows(r2, k - i + 1, base as nat);
            }
            return None;
        }
        k = k + 1;
    }
    assert(r2.take(k - i) =~= r2);
    if negative {
        Some((0 - v as i128) as i64)
    } else {
        if v > 9223372036854775807u128 {
            return None;
        }
        Some(v as i64)
    }
}

/// ASCII lower case of `s`.
pub open spec fn ascii_lower(s: Seq<u8>) -> Seq<u8> {
    s.map_values(|c: u8| if 65 <= c && c <= 90 { (c + 32) as u8 } else { c })
}

/// `FlagValue::ParseFrom`: the canonical text of `value` for a flag of
/// type `ty`, or `None` if it is not a valid value.
pub open spec fn spec_parse_value(ty: FlagType, value: Seq<u8>) -> Option<Seq<u8>> {
    match ty {
        FlagType::Bool => {
            let l = ascii_lower(value);
            if l == utf8_of("1") || l == utf8_of("t") || l == utf8_of("true") || l == utf8_of("y")
                || l == utf8_of("yes") {
                Some(utf8_of("true"))
            } else if l == utf8_of("0") || l == utf8_of("f") || l == utf8_of("false") || l
                == utf8_of("n") || l == utf8_of("no") {
                Some(utf8_of("false"))
            } else {
                None
            }
        },
        FlagType::String => Some(value),
        FlagType::Int32 => {
            if value.len() == 0 {
                None
            } else {
                let base: nat = if value.len() >= 2 && value[0] == 48 && (value[1] == 120
                    || value[1] == 88) {
                    16
                } else {
                    10
                };
                match spec_strtoll_full(value, base) {
                    Some(r) => if i32::MIN <= r && r <= i32::MAX {
                        Some(ascii_bytes(decimal_text(r)))
                    } else {
                        None
                    },
                    None => None,
                }
            }
        },
    }
}

fn ascii_lowercase(value: &[u8]) -> (r: Vec<u8>)
    ensures
        r@ == ascii_lower(value@),
{
    let mut out: Vec<u8> = Vec::new();
    let mut i: usize = 0;
    while i < value.len()
        invariant
            0 <= i <= value@.len(),
            out@ == ascii_lower(value@.take(i as int)),
        decreases value@.len() - i,
    {
        let c = value[i];
        out.push(if 65 <= c && c <= 90 { c + 32 } else { c });
        assert(ascii_lower(value@.take(i + 1)) =~= ascii_lower(value@.take(i as int)).push(
            if 65 <= c && c <= 90 { (c + 32) as u8 } else { c },
        ));
        i = i + 1;
    }
    assert(value@.take(value@.len() as int) =~= value@);
    out
}

/// `FlagValue::ParseFrom`: the canonical text of the value, or `None`.
pub fn parse_value(ty: FlagType, value: &[u8]) -> (r: Option<Vec<u8>>)
    ensures
        r matches Some(v) ==> spec_parse_value(ty, value@) == Some(v@),
        r is None ==> spec_parse_value(ty, value@) is None,
{
    match ty {
        FlagType::Bool => {
            let l = ascii_lowercase(value);
            if bytes_eq(&l, &bytes_of("1")) || bytes_eq(&l, &bytes_of("t")) || bytes_eq(
                &l,
                &bytes_of("true"),
            ) || bytes_eq(&l, &bytes_of("y")) || bytes_eq(&l, &bytes_of("yes")) {
                Some(bytes_of("true"))
            } else if bytes_eq(&l, &bytes_of("0")) || bytes_eq(&l, &bytes_of("f")) || bytes_eq(
                &l,
                &bytes_of("false"),
            ) || bytes_eq(&l, &bytes_of("n")) || bytes_eq(&l, &bytes_of("no")) {
                Some(bytes_of("false"))
            } else {
                None
            }
        },
        FlagType::String => Some(vstd::slice::slice_to_vec(value)),
        FlagType::Int32 => {
            if value.len() == 0 {
                return None;
            }
            let base: u32 = if value.len() >= 2 && value[0] == 48 && (value[1] == 120 || value[1]
                == 88) {
                16
            } else {
                10
            };
            match strtoll_full(value, base) {
                Some(r) => {
                    if -2147483648 <= r && r <= 2147483647 {
                        let mut out: Vec<u8> = Vec::new();
                        push_decimal_bytes(&mut out, r);
                        Some(out)
                    } else {
                        None
                    }
                },
                None => None,
            }
        },
    }
}

// ---------------------------------------------------------------------
// Flag lists.

/// `s.split(sep)`: the pieces of `s` between the separators (one more
/// than there are separators).
pub open spec fn split_bytes(s: Seq<u8>, sep: u8) -> Seq<Seq<u8>>
    decreases s.len(),
{
    if s.len() == 0 {
        seq![Seq::<u8>::empty()]
    } else {
        let pieces = split_bytes(s.drop_last(), sep);
        if s.last() == sep {
            pieces.push(Seq::<u8>::empty())
        } else {
            pieces.update(pieces.len() - 1, pieces.last().push(s.last()))
        }
    }
}

proof fn lemma_split_nonempty(s: Seq<u8>, sep: u8)
    ensures
        split_bytes(s, sep).len() > 0,
    decreases s.len(),
{
    if s.len() > 0 {
        lemma_split_nonempty(s.drop_last(), sep);
    }
}

/// `s.split(sep)`.
pub fn split(s: &[u8], sep: u8) -> (r: Vec<Vec<u8>>)
    ensures
        views(r@) == split_bytes(s@, sep),
{
    let mut done: Vec<Vec<u8>> = Vec::new();
    let mut piece: Vec<u8> = Vec::new();
    let mut i: usize = 0;
    while i < s.len()
        invariant
            0 <= i <= s@.len(),
            views(done@).push(piece@) == split_bytes(s@.take(i as int), sep),
        decreases s@.len() - i,
    {
        let ghost before = split_bytes(s@.take(i as int), sep);
        assert(s@.take(i + 1).drop_last() =~= s@.take(i as int));
        if s[i] == sep {
            let finished = piece;
            let ghost old_done = views(done@);
            done.push(finished);
            piece = Vec::new();
            assert(views(done@) =~= old_done.push(finished@));
            assert(views(done@).push(piece@) =~= before.push(Seq::<u8>::empty()));
        } else {
            piece.push(s[i]);
            assert(views(done@).push(piece@) =~= before.update(
                before.len() - 1,
                before.last().push(s@[i as int]),
            ));
        }
        i = i + 1;
    }
    assert(s@.take(s@.len() as int) =~= s@);
    let ghost old_done = views(done@);
    let ghost last = piece@;
    done.push(piece);
    assert(views(done@) =~= old_done.push(last));
    done
}

/// `ParseFlagList`: the names of a comma separated list, or the fatal
/// error of its first empty entry or entry starting with `-`.
pub open spec fn spec_parse_flag_list(value: Seq<u8>) -> Result<Seq<Seq<u8>>, Seq<u8>> {
    if value.len() == 0 {
        Ok(seq![])
    } else {
        check_flag_list(split_bytes(value, 44))
    }
}

/// The first bad entry of `entries` as a fatal error, or `entries`.
pub open spec fn check_flag_list(entries: Seq<Seq<u8>>) -> Result<Seq<Seq<u8>>, Seq<u8>>
    decreases entries.len(),
{
    if entries.len() == 0 {
        Ok(entries)
    } else if entries[0].len() == 0 {
        Err(utf8_of(ERROR) + utf8_of("empty flaglist entry\n"))
    } else if entries[0][0] == 45 {
        Err(utf8_of(ERROR) + utf8_of("flag \"") + entries[0] + utf8_of("\" begins with '-'\n"))
    } else {
        match check_flag_list(entries.drop_first()) {
            Ok(_) => Ok(entries),
            Err(e) => Err(e),
        }
    }
}

/// `ParseFlagList`: a comma separated list; an empty entry or one starting
/// with `-` is a fatal error.
pub fn parse_flag_list(value: &[u8]) -> (r: Result<Vec<Vec<u8>>, Vec<u8>>)
    ensures
        r matches Ok(v) ==> spec_parse_flag_list(value@) == Ok::<Seq<Seq<u8>>, Seq<u8>>(
            views(v@),
        ),
        r matches Err(e) ==> spec_parse_flag_list(value@) == Err::<Seq<Seq<u8>>, Seq<u8>>(e@),
{
    if value.len() == 0 {
        let empty: Vec<Vec<u8>> = Vec::new();
        assert(views(empty@) =~= Seq::<Seq<u8>>::empty());
        return Ok(empty);
    }
    let entries = split(value, 44);
    let ghost all = views(entries@);
    let mut i: usize = 0;
    assert(all.skip(0) =~= all);
    while i < entries.len()
        invariant
            0 <= i <= entries@.len(),
            all == views(entries@),
            all == split_bytes(value@, 44),
            value@.len() > 0,
            check_flag_list(all) == (match check_flag_list(all.skip(i as int)) {
                Ok(_) => Ok::<Seq<Seq<u8>>, Seq<u8>>(all),
                Err(e) => Err(e),
            }),
        decreases entries@.len() - i,
    {
        let entry = &entries[i];
        let ghost rest = all.skip(i as int);
        assert(rest[0] == entry@);
        assert(rest.drop_first() =~= all.skip(i + 1));
        if entry.len() == 0 {
            let mut m = bytes_of(ERROR);
            push_str_bytes(&mut m, "empty flaglist entry\n");
            return Err(m);
        }
        if entry[0] == 45 {
            let mut m = bytes_of(ERROR);
            push_str_bytes(&mut m, "flag \"");
            push_all(&mut m, entry);
            push_str_bytes(&mut m, "\" begins with '-'\n");
            return Err(m);
        }
        i = i + 1;
    }
    assert(all.skip(i as int) =~= Seq::<Seq<u8>>::empty());
    Ok(entries)
}

// ---------------------------------------------------------------------
// Byte strings in order.

/// `a < b` in the lexicographic byte order (that of `str` and `[u8]`).
pub open spec fn bytes_lt(a: Seq<u8>, b: Seq<u8>) -> bool
    decreases a.len(),
{
    if a.len() == 0 {
        b.len() > 0
    } else if b.len() == 0 {
        false
    } else if a[0] != b[0] {
        a[0] < b[0]
    } else {
        bytes_lt(a.drop_first(), b.drop_first())
    }
}

/// `a < b` in the lexicographic byte order.
pub fn less(a: &[u8], b: &[u8]) -> (r: bool)
    ensures
        r == bytes_lt(a@, b@),
{
    let mut i: usize = 0;
    assert(a@.skip(0) =~= a@);
    assert(b@.skip(0) =~= b@);
    while i < a.len() && i < b.len() && a[i] == b[i]
        invariant
            0 <= i <= a@.len(),
            i <= b@.len(),
            bytes_lt(a@, b@) == bytes_lt(a@.skip(i as int), b@.skip(i as int)),
        decreases a@.len() - i,
    {
        assert(a@.skip(i as int).drop_first() =~= a@.skip(i + 1));
        assert(b@.skip(i as int).drop_first() =~= b@.skip(i + 1));
        i = i + 1;
    }
    if i == a.len() {
        i < b.len()
    } else if i == b.len() {
        false
    } else {
        a[i] < b[i]
    }
}

/// The order gflags lists flags in (`GetAllFlags`): by file, then by
/// name.
pub open spec fn flag_key_lt(a: Flag, b: Flag) -> bool {
    bytes_lt(utf8_of(a.file), utf8_of(b.file)) || (utf8_of(a.file) == utf8_of(b.file) && bytes_lt(
        utf8_of(a.name),
        utf8_of(b.name),
    ))
}

/// `sorted` with `x` inserted before the first flag that sorts after it.
pub open spec fn insert_flag(sorted: Seq<Flag>, x: Flag) -> Seq<Flag>
    decreases sorted.len(),
{
    if sorted.len() == 0 {
        seq![x]
    } else if flag_key_lt(x, sorted.last()) {
        insert_flag(sorted.drop_last(), x).push(sorted.last())
    } else {
        sorted.push(x)
    }
}

/// `flags` in gflags' order: a stable sort by file, then by name.
pub open spec fn sort_flags(flags: Seq<Flag>) -> Seq<Flag>
    decreases flags.len(),
{
    if flags.len() == 0 {
        flags
    } else {
        insert_flag(sort_flags(flags.drop_last()), flags.last())
    }
}

fn flag_lt(a: &Flag, b: &Flag) -> (r: bool)
    ensures
        r == flag_key_lt(*a, *b),
{
    let fa = bytes_of(a.file);
    let fb = bytes_of(b.file);
    if less(&fa, &fb) {
        true
    } else if bytes_eq(&fa, &fb) {
        less(&bytes_of(a.name), &bytes_of(b.name))
    } else {
        false
    }
}

/// The flags of `flags` in gflags' order (by file, then by name; flags
/// with the same file and name keep their order).
pub fn sorted_flags(flags: &Vec<Flag>) -> (r: Vec<Flag>)
    ensures
        r@ == sort_flags(flags@),
{
    let mut out: Vec<Flag> = Vec::new();
    let mut i: usize = 0;
    while i < flags.len()
        invariant
            0 <= i <= flags@.len(),
            out@ == sort_flags(flags@.take(i as int)),
        decreases flags@.len() - i,
    {
        let x = flags[i];
        assert(flags@.take(i + 1).drop_last() =~= flags@.take(i as int));
        let ghost before = out@;
        // Insertion: the position after the last flag that does not sort
        // after `x`.
        let mut j: usize = out.len();
        assert(before.take(j as int) =~= before);
        assert(before.skip(j as int) =~= Seq::<Flag>::empty());
        assert(insert_flag(before, x) + Seq::<Flag>::empty() =~= insert_flag(before, x));
        while j > 0 && flag_lt(&x, &out[j - 1])
            invariant
                0 <= j <= out@.len(),
                out@ == before,
                insert_flag(before, x) == insert_flag(before.take(j as int), x) + before.skip(
                    j as int,
                ),
            decreases j,
        {
            assert(before.take(j as int).drop_last() =~= before.take(j - 1));
            assert(before.take(j as int).last() == before[j - 1]);
            assert(insert_flag(before.take(j as int), x) == insert_flag(before.take(j - 1), x).push(
                before[j - 1],
            ));
            assert(insert_flag(before.take(j - 1), x).push(before[j - 1]) + before.skip(j as int)
                =~= insert_flag(before.take(j - 1), x) + before.skip(j - 1));
            j = j - 1;
        }
        proof {
            if j > 0 {
                assert(before.take(j as int).last() == before[j - 1]);
                assert(insert_flag(before.take(j as int), x) == before.take(j as int).push(x));
            } else {
                assert(before.take(0) =~= Seq::<Flag>::empty());
            }
        }
        out.insert(j, x);
        assert(out@ =~= insert_flag(before, x));
        i = i + 1;
    }
    assert(flags@.take(flags@.len() as int) =~= flags@);
    out
}

// ---------------------------------------------------------------------
// Parsing state.

/// The index of the first flag named `name` at or after `i`.
pub open spec fn find_flag_from(flags: Seq<Flag>, name: Seq<u8>, i: nat) -> Option<int>
    decreases flags.len() - i,
{
    if i >= flags.len() {
        None
    } else if utf8_of(flags[i as int].name) == name {
        Some(i as int)
    } else {
        find_flag_from(flags, name, i + 1)
    }
}

/// The index of the first flag named `name`.
pub open spec fn find_flag(flags: Seq<Flag>, name: Seq<u8>) -> Option<int> {
    find_flag_from(flags, name, 0)
}

proof fn lemma_find_flag_bounds(flags: Seq<Flag>, name: Seq<u8>, i: nat)
    ensures
        find_flag_from(flags, name, i) matches Some(k) ==> i <= k < flags.len() && utf8_of(
            flags[k].name,
        ) == name,
    decreases flags.len() - i,
{
    if i < flags.len() {
        lemma_find_flag_bounds(flags, name, i + 1);
    }
}

/// The index of the first flag named `name`.
pub fn find(flags: &[Flag], name: &[u8]) -> (r: Option<usize>)
    ensures
        r matches Some(k) ==> find_flag(flags@, name@) == Some(k as int) && k < flags@.len(),
        r is None ==> find_flag(flags@, name@) is None,
{
    let mut i: usize = 0;
    while i < flags.len()
        invariant
            0 <= i <= flags@.len(),
            find_flag(flags@, name@) == find_flag_from(flags@, name@, i as nat),
        decreases flags@.len() - i,
    {
        let n = bytes_of(flags[i].name);
        if bytes_eq(&n, name) {
            return Some(i);
        }
        i = i + 1;
    }
    None
}

/// `errors` (sorted by key) with `msg` as the error of `key`: gflags keeps
/// one error per flag name, the last one, and reports them by name.
pub open spec fn map_insert(errors: Seq<(Seq<u8>, Seq<u8>)>, key: Seq<u8>, msg: Seq<u8>) -> Seq<
    (Seq<u8>, Seq<u8>),
>
    decreases errors.len(),
{
    if errors.len() == 0 {
        seq![(key, msg)]
    } else if errors[0].0 == key {
        seq![(key, msg)] + errors.drop_first()
    } else if bytes_lt(key, errors[0].0) {
        seq![(key, msg)] + errors
    } else {
        seq![errors[0]] + map_insert(errors.drop_first(), key, msg)
    }
}

/// The views of pairs of byte vectors.
pub open spec fn pair_views(v: Seq<(Vec<u8>, Vec<u8>)>) -> Seq<(Seq<u8>, Seq<u8>)> {
    v.map_values(|p: (Vec<u8>, Vec<u8>)| (p.0@, p.1@))
}

/// The concatenated messages of `errors`, in order.
pub open spec fn error_text(errors: Seq<(Seq<u8>, Seq<u8>)>) -> Seq<u8>
    decreases errors.len(),
{
    if errors.len() == 0 {
        seq![]
    } else {
        errors[0].1 + error_text(errors.drop_first())
    }
}

/// The state of the parse: the current value and `modified` bit of every
/// flag, the errors by flag name and the names of unknown flags.
pub struct FlagState {
    pub current: Seq<Seq<u8>>,
    pub modified: Seq<bool>,
    pub errors: Seq<(Seq<u8>, Seq<u8>)>,
    pub undefined: Set<Seq<u8>>,
}

/// `st` with the error `msg` for `key`.
pub open spec fn with_error(st: FlagState, key: Seq<u8>, msg: Seq<u8>) -> FlagState {
    FlagState { errors: map_insert(st.errors, key, msg), ..st }
}

/// `st` with `key` an unknown flag name.
pub open spec fn with_undefined(st: FlagState, key: Seq<u8>) -> FlagState {
    FlagState { undefined: st.undefined.insert(key), ..st }
}

/// `st` with flag `index` set to `v`.
pub open spec fn with_value(st: FlagState, index: int, v: Seq<u8>) -> FlagState {
    FlagState { current: st.current.update(index, v), modified: st.modified.update(index, true), ..st }
}

/// The error for an invalid value of a flag.
pub open spec fn illegal_value_message(flag: Flag, value: Seq<u8>) -> Seq<u8> {
    utf8_of(ERROR) + utf8_of("illegal value '") + value + utf8_of("' specified for ") + utf8_of(
        flag_type_name(flag.ty),
    ) + utf8_of(" flag '") + utf8_of(flag.name) + utf8_of("'\n")
}

/// The fatal error of `--flagfile`, which is not supported.
pub open spec fn flagfile_message() -> Seq<u8> {
    utf8_of(ERROR) + utf8_of(
        "--flagfile is not supported by this implementation of the prjxray tools\n",
    )
}

/// `ProcessSingleOptionLocked`: sets flag `index` to `value` (and reads the
/// environment for `--fromenv` and `--tryfromenv`, at most 8 levels deep);
/// the new state and the fatal error, if any.
pub open spec fn spec_set(
    flags: Seq<Flag>,
    env: Seq<(String, Vec<u8>)>,
    st: FlagState,
    index: int,
    value: Seq<u8>,
    depth: nat,
) -> (FlagState, Option<Seq<u8>>)
    decreases 8 - depth, 0int, 0int,
{
    let flag = flags[index];
    match spec_parse_value(flag.ty, value) {
        None => (with_error(st, utf8_of(flag.name), illegal_value_message(flag, value)), None),
        Some(v) => {
            let st1 = with_value(st, index, v);
            if flag.name@ == "flagfile"@ && value.len() > 0 {
                (st1, Some(flagfile_message()))
            } else if (flag.name@ == "fromenv"@ || flag.name@ == "tryfromenv"@) && depth < 8 {
                spec_process_env(flags, env, st1, value, flag.name@ == "fromenv"@, depth + 1)
            } else {
                (st1, None)
            }
        },
    }
}

/// `ProcessFromenvLocked`: sets the flags named in `value` from the
/// environment variables `FLAGS_<name>`.
pub open spec fn spec_process_env(
    flags: Seq<Flag>,
    env: Seq<(String, Vec<u8>)>,
    st: FlagState,
    value: Seq<u8>,
    fatal: bool,
    depth: nat,
) -> (FlagState, Option<Seq<u8>>)
    decreases 8 - depth, 2int, 0int,
{
    match spec_parse_flag_list(value) {
        Err(m) => (st, Some(m)),
        Ok(names) => spec_env_names(flags, env, st, names, fatal, depth),
    }
}

/// [`spec_process_env`] for the names `names`.
pub open spec fn spec_env_names(
    flags: Seq<Flag>,
    env: Seq<(String, Vec<u8>)>,
    st: FlagState,
    names: Seq<Seq<u8>>,
    fatal: bool,
    depth: nat,
) -> (FlagState, Option<Seq<u8>>)
    decreases 8 - depth, 1int, names.len(),
{
    if names.len() == 0 {
        (st, None)
    } else {
        let name = names[0];
        let rest = names.drop_first();
        match find_flag(flags, name) {
            None => {
                let msg = utf8_of(ERROR) + utf8_of("unknown command line flag '") + name + utf8_of(
                    "' (via --fromenv or --tryfromenv)\n",
                );
                spec_env_names(
                    flags,
                    env,
                    with_undefined(with_error(st, name, msg), name),
                    rest,
                    fatal,
                    depth,
                )
            },
            Some(index) => match env_lookup(env, "FLAGS_"@ + flags[index].name@) {
                None => {
                    let st1 = if fatal {
                        with_error(
                            st,
                            name,
                            utf8_of(ERROR) + utf8_of("FLAGS_") + name + utf8_of(
                                " not found in environment\n",
                            ),
                        )
                    } else {
                        st
                    };
                    spec_env_names(flags, env, st1, rest, fatal, depth)
                },
                Some(ev) => if ev == utf8_of("fromenv") || ev == utf8_of("tryfromenv") {
                    let msg = utf8_of(ERROR) + utf8_of("infinite recursion on environment flag '")
                        + ev + utf8_of("'\n");
                    spec_env_names(flags, env, with_error(st, name, msg), rest, fatal, depth)
                } else {
                    let (st1, err) = spec_set(flags, env, st, index, ev, depth);
                    if err is Some {
                        (st1, err)
                    } else {
                        spec_env_names(flags, env, st1, rest, fatal, depth)
                    }
                },
            },
        }
    }
}

/// The fatal error of a result.
pub open spec fn err_of(r: Result<(), Vec<u8>>) -> Option<Seq<u8>> {
    match r {
        Ok(_) => None,
        Err(e) => Some(e@),
    }
}

/// A copy of `v`.
fn copy_bytes(v: &Vec<u8>) -> (r: Vec<u8>)
    ensures
        r@ == v@,
{
    let mut out: Vec<u8> = Vec::new();
    push_all(&mut out, v);
    out
}

/// The executable parse state (see [`FlagState`]).
struct State {
    current: Vec<Vec<u8>>,
    modified: Vec<bool>,
    errors: Vec<(Vec<u8>, Vec<u8>)>,
    undefined: Vec<Vec<u8>>,
}

impl State {
    spec fn view(&self) -> FlagState {
        FlagState {
            current: views(self.current@),
            modified: self.modified@,
            errors: pair_views(self.errors@),
            undefined: views(self.undefined@).to_set(),
        }
    }

    spec fn wf(&self, n: nat) -> bool {
        self.current@.len() == n && self.modified@.len() == n
    }

    /// `errors[key] = msg`.
    fn add_error(&mut self, key: Vec<u8>, msg: Vec<u8>)
        ensures
            final(self).view() == with_error(old(self).view(), key@, msg@),
            final(self).current@ == old(self).current@,
            final(self).modified@ == old(self).modified@,
    {
        let ghost errs = pair_views(self.errors@);
        let mut i: usize = 0;
        assert(errs.skip(0) =~= errs);
        assert(errs.take(0) + map_insert(errs.skip(0), key@, msg@) =~= map_insert(errs, key@, msg@));
        while i < self.errors.len()
            invariant
                0 <= i <= self.errors@.len(),
                errs == pair_views(self.errors@),
                self.current@ == old(self).current@,
                self.modified@ == old(self).modified@,
                self.undefined@ == old(self).undefined@,
                errs == pair_views(old(self).errors@),
                map_insert(errs, key@, msg@) == errs.take(i as int) + map_insert(
                    errs.skip(i as int),
                    key@,
                    msg@,
                ),
            decreases self.errors@.len() - i,
        {
            let ghost rest = errs.skip(i as int);
            assert(rest[0] == (self.errors@[i as int].0@, self.errors@[i as int].1@));
            if bytes_eq(&self.errors[i].0, &key) {
                self.errors.set(i, (key, msg));
                assert(pair_views(self.errors@) =~= errs.take(i as int) + map_insert(
                    rest,
                    key@,
                    msg@,
                ));
                return;
            }
            if less(&key, &self.errors[i].0) {
                self.errors.insert(i, (key, msg));
                assert(pair_views(self.errors@) =~= errs.take(i as int) + map_insert(
                    rest,
                    key@,
                    msg@,
                ));
                return;
            }
            assert(rest.drop_first() =~= errs.skip(i + 1));
            assert(errs.take(i + 1) =~= errs.take(i as int) + seq![rest[0]]);
            i = i + 1;
        }
        self.errors.push((key, msg));
        assert(errs.skip(i as int) =~= Seq::<(Seq<u8>, Seq<u8>)>::empty());
        assert(errs.take(i as int) =~= errs);
        assert(pair_views(self.errors@) =~= map_insert(errs, key@, msg@));
    }

    /// Records `key` as the name of an unknown flag.
    fn add_undefined(&mut self, key: Vec<u8>)
        ensures
            final(self).view() == with_undefined(old(self).view(), key@),
            final(self).current@ == old(self).current@,
            final(self).modified@ == old(self).modified@,
    {
        let ghost old_u = views(self.undefined@);
        self.undefined.push(key);
        assert(views(self.undefined@) =~= old_u.push(key@));
        proof {
            old_u.lemma_push_to_set_commute(key@);
        }
    }

    /// `ProcessSingleOptionLocked`: sets flag `index` to `value`; `Err` is a
    /// fatal error (exit now).
    fn set(&mut self, flags: &[Flag], index: usize, value: &[u8], env: &Env, depth: usize) -> (r:
        Result<(), Vec<u8>>)
        requires
            index < flags@.len(),
            old(self).wf(flags@.len()),
            depth <= 8,
        ensures
            final(self).wf(flags@.len()),
            spec_set(flags@, env.vars@, old(self).view(), index as int, value@, depth as nat) == (
                final(self).view(),
                err_of(r),
            ),
        decreases 8 - depth, 0int, 0int,
    {
        let flag = flags[index];
        match parse_value(flag.ty, value) {
            None => {
                let mut msg = bytes_of(ERROR);
                push_str_bytes(&mut msg, "illegal value '");
                push_all(&mut msg, &vstd::slice::slice_to_vec(value));
                push_str_bytes(&mut msg, "' specified for ");
                push_str_bytes(&mut msg, flag.ty.name());
                push_str_bytes(&mut msg, " flag '");
                push_str_bytes(&mut msg, flag.name);
                push_str_bytes(&mut msg, "'\n");
                self.add_error(bytes_of(flag.name), msg);
                Ok(())
            },
            Some(v) => {
                let ghost v_view = v@;
                self.current.set(index, v);
                self.modified.set(index, true);
                proof {
                    assert(views(self.current@) =~= views(old(self).current@).update(
                        index as int,
                        v_view,
                    ));
                }
                if str_eq(flag.name, "flagfile") && value.len() > 0 {
                    let mut msg = bytes_of(ERROR);
                    push_str_bytes(
                        &mut msg,
                        "--flagfile is not supported by this implementation of the prjxray tools\n",
                    );
                    Err(msg)
                } else if (str_eq(flag.name, "fromenv") || str_eq(flag.name, "tryfromenv")) && depth
                    < 8 {
                    let fatal = str_eq(flag.name, "fromenv");
                    self.process_env(flags, value, fatal, env, depth + 1)
                } else {
                    Ok(())
                }
            },
        }
    }

    /// `ProcessFromenvLocked`.
    fn process_env(&mut self, flags: &[Flag], value: &[u8], fatal: bool, env: &Env, depth: usize) -> (r:
        Result<(), Vec<u8>>)
        requires
            old(self).wf(flags@.len()),
            depth <= 8,
        ensures
            final(self).wf(flags@.len()),
            spec_process_env(flags@, env.vars@, old(self).view(), value@, fatal, depth as nat) == (
                final(self).view(),
                err_of(r),
            ),
        decreases 8 - depth, 2int, 0int,
    {
        match parse_flag_list(value) {
            Err(m) => Err(m),
            Ok(names) => {
                assert(views(names@).skip(0) =~= views(names@));
                self.env_names(flags, &names, 0, fatal, env, depth)
            },
        }
    }

    /// [`State::process_env`] for `names[j..]`.
    fn env_names(
        &mut self,
        flags: &[Flag],
        names: &Vec<Vec<u8>>,
        j: usize,
        fatal: bool,
        env: &Env,
        depth: usize,
    ) -> (r: Result<(), Vec<u8>>)
        requires
            old(self).wf(flags@.len()),
            depth <= 8,
            j <= names@.len(),
        ensures
            final(self).wf(flags@.len()),
            spec_env_names(
                flags@,
                env.vars@,
                old(self).view(),
                views(names@).skip(j as int),
                fatal,
                depth as nat,
            ) == (final(self).view(), err_of(r)),
        decreases 8 - depth, 1int, names@.len() - j,
    {
        let ghost rest = views(names@).skip(j as int);
        if j == names.len() {
            assert(rest.len() == 0);
            return Ok(());
        }
        assert(rest[0] == names@[j as int]@);
        assert(rest.drop_first() =~= views(names@).skip(j + 1));
        let name = &names[j];
        match find(flags, name) {
            None => {
                let mut msg = bytes_of(ERROR);
                push_str_bytes(&mut msg, "unknown command line flag '");
                push_all(&mut msg, name);
                push_str_bytes(&mut msg, "' (via --fromenv or --tryfromenv)\n");
                self.add_error(copy_bytes(name), msg);
                self.add_undefined(copy_bytes(name));
                self.env_names(flags, names, j + 1, fatal, env, depth)
            },
            Some(index) => {
                let mut env_name = chars_of("FLAGS_");
                let flag_chars = chars_of(flags[index].name);
                let ghost prefix = env_name@;
                crate::text::push_all(&mut env_name, &flag_chars);
                assert(env_name@ =~= "FLAGS_"@ + flags@[index as int].name@);
                match env.get_chars(&env_name) {
                    None => {
                        if fatal {
                            let mut msg = bytes_of(ERROR);
                            push_str_bytes(&mut msg, "FLAGS_");
                            push_all(&mut msg, name);
                            push_str_bytes(&mut msg, " not found in environment\n");
                            self.add_error(copy_bytes(name), msg);
                        }
                        self.env_names(flags, names, j + 1, fatal, env, depth)
                    },
                    Some(ev) => {
                        if bytes_eq(&ev, &bytes_of("fromenv")) || bytes_eq(
                            &ev,
                            &bytes_of("tryfromenv"),
                        ) {
                            let mut msg = bytes_of(ERROR);
                            push_str_bytes(&mut msg, "infinite recursion on environment flag '");
                            push_all(&mut msg, &ev);
                            push_str_bytes(&mut msg, "'\n");
                            self.add_error(copy_bytes(name), msg);
                            return self.env_names(flags, names, j + 1, fatal, env, depth);
                        }
                        match self.set(flags, index, &ev, env, depth) {
                            Err(e) => Err(e),
                            Ok(()) => self.env_names(flags, names, j + 1, fatal, env, depth),
                        }
                    },
                }
            },
        }
    }

    /// Whether `key` is the name of an unknown flag.
    fn is_undefined(&self, key: &[u8]) -> (r: bool)
        ensures
            r == self.view().undefined.contains(key@),
    {
        let mut i: usize = 0;
        while i < self.undefined.len()
            invariant
                0 <= i <= self.undefined@.len(),
                forall|j: int| 0 <= j < i ==> views(self.undefined@)[j] != key@,
            decreases self.undefined@.len() - i,
        {
            if bytes_eq(&self.undefined[i], key) {
                assert(views(self.undefined@)[i as int] == key@);
                return true;
            }
            i = i + 1;
        }
        false
    }
}

// ---------------------------------------------------------------------
// The command line.

/// The index of the first byte `b` of `s`.
pub open spec fn index_of_byte(s: Seq<u8>, b: u8) -> Option<int>
    decreases s.len(),
{
    if s.len() == 0 {
        None
    } else if s[0] == b {
        Some(0)
    } else {
        match index_of_byte(s.drop_first(), b) {
            Some(k) => Some(k + 1),
            None => None,
        }
    }
}

/// `SplitArgumentLocked`: the flag name and the value after the first `=`.
pub open spec fn split_argument(s: Seq<u8>) -> (Seq<u8>, Option<Seq<u8>>) {
    match index_of_byte(s, 61) {
        Some(at) => (s.take(at), Some(s.skip(at + 1))),
        None => (s, None),
    }
}

/// How the loop over the command line ended.
pub enum ArgLoop {
    /// A fatal error.
    Fatal(Seq<u8>),
    /// The flags are parsed: the state, the permuted arguments and the
    /// index of the first non flag argument.
    Done(FlagState, Seq<Seq<u8>>, int),
}

/// `ParseNewCommandLineFlags` from argument `i` on: the arguments before
/// `first_nonopt` that are not flags are moved to the end, the flags are
/// set, `--` ends the flags.
pub open spec fn spec_arg_loop(
    flags: Seq<Flag>,
    env: Seq<(String, Vec<u8>)>,
    st: FlagState,
    argv: Seq<Seq<u8>>,
    first_nonopt: int,
    i: int,
) -> ArgLoop
    decreases first_nonopt - i, 1int,
{
    if !(0 <= i < first_nonopt && first_nonopt <= argv.len()) {
        ArgLoop::Done(st, argv, first_nonopt)
    } else {
        let arg = argv[i];
        if arg.len() <= 1 || arg[0] != 45 {
            spec_arg_loop(flags, env, st, argv.remove(i).push(arg), first_nonopt - 1, i)
        } else {
            let s1 = arg.skip(1);
            let s = if s1.len() > 0 && s1[0] == 45 {
                s1.skip(1)
            } else {
                s1
            };
            if s.len() == 0 {
                ArgLoop::Done(st, argv, i + 1)
            } else {
                let key = split_argument(s).0;
                let value = split_argument(s).1;
                let unknown = utf8_of(ERROR) + utf8_of("unknown command line flag '") + key
                    + utf8_of("'\n");
                match find_flag(flags, key) {
                    Some(index) => spec_flag_arg(
                        flags,
                        env,
                        st,
                        argv,
                        first_nonopt,
                        i,
                        key,
                        value,
                        index,
                    ),
                    None => if key.len() >= 2 && key[0] == 110 && key[1] == 111 {
                        match find_flag(flags, key.skip(2)) {
                            None => spec_arg_loop(
                                flags,
                                env,
                                with_error(with_undefined(st, key), key, unknown),
                                argv,
                                first_nonopt,
                                i + 1,
                            ),
                            Some(index) => if flags[index].ty != FlagType::Bool {
                                let msg = utf8_of(ERROR) + utf8_of("boolean value (") + key
                                    + utf8_of(") specified for ") + utf8_of(
                                    flag_type_name(flags[index].ty),
                                ) + utf8_of(" command line flag\n");
                                spec_arg_loop(
                                    flags,
                                    env,
                                    with_error(with_undefined(st, key), key, msg),
                                    argv,
                                    first_nonopt,
                                    i + 1,
                                )
                            } else {
                                spec_flag_arg(
                                    flags,
                                    env,
                                    st,
                                    argv,
                                    first_nonopt,
                                    i,
                                    key.skip(2),
                                    Some(utf8_of("0")),
                                    index,
                                )
                            },
                        }
                    } else {
                        spec_arg_loop(
                            flags,
                            env,
                            with_error(with_undefined(st, key), key, unknown),
                            argv,
                            first_nonopt,
                            i + 1,
                        )
                    },
                }
            }
        }
    }
}

/// The error of a flag given last without its value.
pub open spec fn missing_argument_message(arg: Seq<u8>, flag: Flag) -> Seq<u8> {
    utf8_of(ERROR) + utf8_of("flag '") + arg + utf8_of("' is missing its argument") + (if utf8_of(
        flag.help,
    ).len() > 0 && utf8_of(flag.help)[0] > 1 {
        utf8_of("; flag description: ") + utf8_of(flag.help)
    } else {
        Seq::empty()
    }) + utf8_of("\n")
}

/// The flag argument `i` names flag `index` as `key`, with the value
/// `value` if it has one: a boolean needs none, any other flag takes the
/// next argument.
pub open spec fn spec_flag_arg(
    flags: Seq<Flag>,
    env: Seq<(String, Vec<u8>)>,
    st: FlagState,
    argv: Seq<Seq<u8>>,
    first_nonopt: int,
    i: int,
    key: Seq<u8>,
    value: Option<Seq<u8>>,
    index: int,
) -> ArgLoop
    decreases first_nonopt - i, 0int,
{
    if !(0 <= i < first_nonopt && first_nonopt <= argv.len()) {
        ArgLoop::Done(st, argv, first_nonopt)
    } else {
        let value1 = if value is None && flags[index].ty == FlagType::Bool {
            Some(utf8_of("1"))
        } else {
            value
        };
        match value1 {
            Some(v) => match spec_set(flags, env, st, index, v, 0) {
                (st2, Some(e)) => ArgLoop::Fatal(e),
                (st2, None) => spec_arg_loop(flags, env, st2, argv, first_nonopt, i + 1),
            },
            None => if i + 1 >= first_nonopt {
                ArgLoop::Done(
                    with_error(st, key, missing_argument_message(argv[i], flags[index])),
                    argv,
                    first_nonopt,
                )
            } else {
                match spec_set(flags, env, st, index, argv[i + 1], 0) {
                    (st2, Some(e)) => ArgLoop::Fatal(e),
                    (st2, None) => spec_arg_loop(flags, env, st2, argv, first_nonopt, i + 2),
                }
            },
        }
    }
}

/// The position of the first `=` of `s`.
fn find_eq(s: &Vec<u8>) -> (r: Option<usize>)
    ensures
        r matches Some(k) ==> index_of_byte(s@, 61) == Some(k as int) && k < s@.len(),
        r is None ==> index_of_byte(s@, 61) is None,
{
    let mut i: usize = 0;
    assert(s@.skip(0) =~= s@);
    while i < s.len()
        invariant
            0 <= i <= s@.len(),
            index_of_byte(s@, 61) == (match index_of_byte(s@.skip(i as int), 61) {
                Some(k) => Some(k + i),
                None => None,
            }),
        decreases s@.len() - i,
    {
        assert(s@.skip(i as int).drop_first() =~= s@.skip(i + 1));
        assert(s@.skip(i as int)[0] == s@[i as int]);
        if s[i] == 61 {
            return Some(i);
        }
        i = i + 1;
    }
    assert(s@.skip(i as int) =~= Seq::<u8>::empty());
    None
}

/// `s[from..to]`.
fn sub_bytes(s: &Vec<u8>, from: usize, to: usize) -> (r: Vec<u8>)
    requires
        from <= to <= s@.len(),
    ensures
        r@ == s@.subrange(from as int, to as int),
{
    let mut out: Vec<u8> = Vec::new();
    let mut i = from;
    while i < to
        invariant
            from <= i <= to <= s@.len(),
            out@ == s@.subrange(from as int, i as int),
        decreases to - i,
    {
        out.push(s[i]);
        assert(s@.subrange(from as int, i + 1) =~= s@.subrange(from as int, i as int).push(
            s@[i as int],
        ));
        i = i + 1;
    }
    out
}

/// What the loop over the command line does next.
enum Step {
    /// Continue at this argument, the flags ending at the second.
    Continue(usize, usize),
    /// Stop; the flags end at this argument.
    Stop(usize),
    /// A fatal error.
    Fatal(Vec<u8>),
}

/// The result of the loop for a `Step` taken from `i` in state `st`.
spec fn step_result(
    flags: Seq<Flag>,
    env: Seq<(String, Vec<u8>)>,
    st: FlagState,
    argv: Seq<Seq<u8>>,
    first_nonopt: int,
    step: Step,
) -> ArgLoop {
    match step {
        Step::Continue(ni, nf) => spec_arg_loop(flags, env, st, argv, nf as int, ni as int),
        Step::Stop(nf) => ArgLoop::Done(st, argv, nf as int),
        Step::Fatal(e) => ArgLoop::Fatal(e@),
    }
}

impl State {
    /// [`spec_flag_arg`]: sets flag `index`, named `key` in argument `i`.
    fn flag_arg(
        &mut self,
        flags: &[Flag],
        env: &Env,
        argv: &Vec<Vec<u8>>,
        first_nonopt: usize,
        i: usize,
        key: Vec<u8>,
        value: Option<Vec<u8>>,
        index: usize,
    ) -> (r: Step)
        requires
            old(self).wf(flags@.len()),
            i < first_nonopt <= argv@.len(),
            index < flags@.len(),
        ensures
            final(self).wf(flags@.len()),
            r matches Step::Continue(ni, nf) ==> i < ni <= nf && nf == first_nonopt,
            r matches Step::Stop(nf) ==> nf <= first_nonopt,
            spec_flag_arg(
                flags@,
                env.vars@,
                old(self).view(),
                views(argv@),
                first_nonopt as int,
                i as int,
                key@,
                match value {
                    Some(v) => Some(v@),
                    None => None,
                },
                index as int,
            ) == step_result(flags@, env.vars@, final(self).view(), views(argv@), first_nonopt as int, r),
    {
        let value = match value {
            None => {
                if flags[index].ty == FlagType::Bool {
                    Some(bytes_of("1"))
                } else {
                    None
                }
            },
            Some(v) => Some(v),
        };
        match value {
            Some(v) => match self.set(flags, index, &v, env, 0) {
                Err(e) => Step::Fatal(e),
                Ok(()) => Step::Continue(i + 1, first_nonopt),
            },
            None => {
                if i + 1 >= first_nonopt {
                    let mut msg = bytes_of(ERROR);
                    push_str_bytes(&mut msg, "flag '");
                    push_all(&mut msg, &argv[i]);
                    push_str_bytes(&mut msg, "' is missing its argument");
                    let help = bytes_of(flags[index].help);
                    if help.len() > 0 && help[0] > 1 {
                        push_str_bytes(&mut msg, "; flag description: ");
                        push_all(&mut msg, &help);
                    }
                    push_str_bytes(&mut msg, "\n");
                    assert(msg@ =~= missing_argument_message(argv@[i as int]@, flags@[index as int]));
                    self.add_error(key, msg);
                    Step::Stop(first_nonopt)
                } else {
                    let v = copy_bytes(&argv[i + 1]);
                    match self.set(flags, index, &v, env, 0) {
                        Err(e) => Step::Fatal(e),
                        Ok(()) => Step::Continue(i + 2, first_nonopt),
                    }
                }
            },
        }
    }

    /// One turn of the loop of `ParseNewCommandLineFlags` at argument `i`.
    fn step(
        &mut self,
        flags: &[Flag],
        env: &Env,
        argv: &mut Vec<Vec<u8>>,
        first_nonopt: usize,
        i: usize,
    ) -> (r: Step)
        requires
            old(self).wf(flags@.len()),
            i < first_nonopt <= old(argv)@.len(),
        ensures
            final(self).wf(flags@.len()),
            final(argv)@.len() == old(argv)@.len(),
            r matches Step::Continue(ni, nf) ==> i <= ni <= nf <= first_nonopt && nf - ni
                < first_nonopt - i,
            r matches Step::Stop(nf) ==> nf <= first_nonopt,
            spec_arg_loop(
                flags@,
                env.vars@,
                old(self).view(),
                views(old(argv)@),
                first_nonopt as int,
                i as int,
            ) == step_result(flags@, env.vars@, final(self).view(), views(final(argv)@), first_nonopt as int, r),
    {
        let ghost av = views(argv@);
        let arg = copy_bytes(&argv[i]);
        assert(av[i as int] == arg@);
        if arg.len() <= 1 || arg[0] != 45 {
            let a = argv.remove(i);
            argv.push(a);
            assert(views(argv@) =~= av.remove(i as int).push(arg@));
            return Step::Continue(i, first_nonopt - 1);
        }
        let skip = if arg.len() > 1 && arg[1] == 45 {
            2
        } else {
            1
        };
        let body = sub_bytes(&arg, skip, arg.len());
        proof {
            let s1 = arg@.skip(1);
            if arg@.len() > 1 && arg@[1] == 45 {
                assert(s1.skip(1) =~= body@);
            } else {
                assert(s1 =~= body@);
            }
        }
        if body.len() == 0 {
            return Step::Stop(i + 1);
        }
        let (key, value) = match find_eq(&body) {
            Some(at) => (sub_bytes(&body, 0, at), Some(sub_bytes(&body, at + 1, body.len()))),
            None => (copy_bytes(&body), None),
        };
        assert(key@ == split_argument(body@).0);
        assert((match value {
            Some(v) => Some(v@),
            None => None,
        }) == split_argument(body@).1);
        match find(flags, &key) {
            Some(index) => self.flag_arg(flags, env, argv, first_nonopt, i, key, value, index),
            None => {
                let mut unknown = bytes_of(ERROR);
                push_str_bytes(&mut unknown, "unknown command line flag '");
                push_all(&mut unknown, &key);
                push_str_bytes(&mut unknown, "'\n");
                if key.len() >= 2 && key[0] == 110 && key[1] == 111 {
                    let stripped = sub_bytes(&key, 2, key.len());
                    assert(stripped@ =~= key@.skip(2));
                    match find(flags, &stripped) {
                        None => {
                            self.add_undefined(copy_bytes(&key));
                            self.add_error(key, unknown);
                            Step::Continue(i + 1, first_nonopt)
                        },
                        Some(index) => {
                            if flags[index].ty != FlagType::Bool {
                                let mut msg = bytes_of(ERROR);
                                push_str_bytes(&mut msg, "boolean value (");
                                push_all(&mut msg, &key);
                                push_str_bytes(&mut msg, ") specified for ");
                                push_str_bytes(&mut msg, flags[index].ty.name());
                                push_str_bytes(&mut msg, " command line flag\n");
                                self.add_undefined(copy_bytes(&key));
                                self.add_error(key, msg);
                                Step::Continue(i + 1, first_nonopt)
                            } else {
                                self.flag_arg(
                                    flags,
                                    env,
                                    argv,
                                    first_nonopt,
                                    i,
                                    stripped,
                                    Some(bytes_of("0")),
                                    index,
                                )
                            }
                        },
                    }
                } else {
                    self.add_undefined(copy_bytes(&key));
                    self.add_error(key, unknown);
                    Step::Continue(i + 1, first_nonopt)
                }
            },
        }
    }

    /// `ParseNewCommandLineFlags`: sets the flags of `argv` and moves the
    /// arguments that are not flags to its end; the index of the first non
    /// flag argument, or a fatal error.
    fn parse_flags(&mut self, flags: &[Flag], env: &Env, argv: &mut Vec<Vec<u8>>) -> (r: Result<
        usize,
        Vec<u8>,
    >)
        requires
            old(self).wf(flags@.len()),
        ensures
            final(self).wf(flags@.len()),
            final(argv)@.len() == old(argv)@.len(),
            r matches Ok(f) ==> f <= final(argv)@.len() && spec_arg_loop(
                flags@,
                env.vars@,
                old(self).view(),
                views(old(argv)@),
                old(argv)@.len() as int,
                0,
            ) == ArgLoop::Done(final(self).view(), views(final(argv)@), f as int),
            r matches Err(e) ==> spec_arg_loop(
                flags@,
                env.vars@,
                old(self).view(),
                views(old(argv)@),
                old(argv)@.len() as int,
                0,
            ) == ArgLoop::Fatal(e@),
    {
        let ghost goal = spec_arg_loop(
            flags@,
            env.vars@,
            self.view(),
            views(argv@),
            argv@.len() as int,
            0,
        );
        assert(goal == spec_arg_loop(
            flags@,
            env.vars@,
            old(self).view(),
            views(old(argv)@),
            old(argv)@.len() as int,
            0,
        ));
        let mut first_nonopt = argv.len();
        let mut i: usize = 0;
        loop
            invariant
                self.wf(flags@.len()),
                argv@.len() == old(argv)@.len(),
                0 <= i <= first_nonopt <= argv@.len(),
                goal == spec_arg_loop(
                    flags@,
                    env.vars@,
                    self.view(),
                    views(argv@),
                    first_nonopt as int,
                    i as int,
                ),
                goal == spec_arg_loop(
                    flags@,
                    env.vars@,
                    old(self).view(),
                    views(old(argv)@),
                    old(argv)@.len() as int,
                    0,
                ),
            decreases first_nonopt - i,
        {
            if i >= first_nonopt {
                assert(goal == ArgLoop::Done(self.view(), views(argv@), first_nonopt as int));
                return Ok(first_nonopt);
            }
            match self.step(flags, env, argv, first_nonopt, i) {
                Step::Continue(ni, nf) => {
                    i = ni;
                    first_nonopt = nf;
                },
                Step::Stop(nf) => {
                    return Ok(nf);
                },
                Step::Fatal(e) => {
                    return Err(e);
                },
            }
        }
    }
}
// ---------------------------------------------------------------------
// Help.

/// The width gflags wraps the help at.
pub const LINE_LENGTH: usize = 80;

/// `a - b`, or 0 if `b > a`.
pub open spec fn sat_sub(a: int, b: int) -> int {
    if b > a {
        0
    } else {
        a - b
    }
}

/// The last position at or before `start` (and above 0) of a white space
/// byte of `c`, or 0 (`while whitespace > 0 && !isspace(c[whitespace])`).
pub open spec fn last_space_at_or_before(c: Seq<u8>, start: int) -> int
    decreases start,
{
    if start <= 0 {
        start
    } else if start < c.len() && c_space(c[start]) {
        start
    } else {
        last_space_at_or_before(c, start - 1)
    }
}

/// The first position at or after `w` that is not a white space byte of
/// `c`.
pub open spec fn skip_spaces_at(c: Seq<u8>, w: int) -> int
    decreases c.len() - w,
{
    if 0 <= w < c.len() && c_space(c[w]) {
        skip_spaces_at(c, w + 1)
    } else {
        w
    }
}

/// The wrapping loop of `DescribeOneFlag` for the rest `c` of the text
/// with `chars` characters on the current line: the text written and the
/// characters on its last line.
pub open spec fn describe_wrap(c: Seq<u8>, chars: int) -> (Seq<u8>, int)
    decreases c.len(),
{
    let newline = index_of_byte(c, 10);
    if newline is None && chars + c.len() < LINE_LENGTH {
        (c, chars + c.len())
    } else if newline matches Some(n) && n < sat_sub(LINE_LENGTH as int, chars) {
        let n = newline->0;
        let rest = c.skip(n + 1);
        if rest.len() == 0 || n < 0 || n >= c.len() {
            (c.take(n), chars)
        } else {
            let (more, last) = describe_wrap(rest, 6);
            (c.take(n) + utf8_of("\n      ") + more, last)
        }
    } else {
        let ws = last_space_at_or_before(c, LINE_LENGTH - chars - 1);
        if ws <= 0 || ws > c.len() {
            (c, LINE_LENGTH as int)
        } else {
            let w = skip_spaces_at(c, ws);
            let rest = c.skip(w);
            if rest.len() == 0 || w < ws || w > c.len() {
                (c.take(ws), chars + ws)
            } else {
                let (more, last) = describe_wrap(rest, 6);
                (c.take(ws) + utf8_of("\n      ") + more, last)
            }
        }
    }
}

/// `AddString`: `s` appended to `out` on the current line or, if it does
/// not fit, on a new indented line.
pub open spec fn add_part(out: Seq<u8>, chars: int, s: Seq<u8>) -> (Seq<u8>, int) {
    if chars + 1 + s.len() >= LINE_LENGTH {
        (out + utf8_of("\n      ") + s, 6 + s.len() as int)
    } else {
        (out + seq![32u8] + s, chars + 1 + s.len())
    }
}

/// `<text>: <value>`, the value quoted for a string flag.
pub open spec fn spec_value_text(ty: FlagType, text: Seq<u8>, value: Seq<u8>) -> Seq<u8> {
    if ty == FlagType::String {
        text + utf8_of(": \"") + value + utf8_of("\"")
    } else {
        text + utf8_of(": ") + value
    }
}

/// `DescribeOneFlag`: the help line(s) of a flag with its current value
/// (shown if it was set or differs from the default).
#[verifier::opaque]
pub open spec fn spec_describe(flag: Flag, current: Seq<u8>, modified: bool) -> Seq<u8> {
    let main = utf8_of("    -") + utf8_of(flag.name) + utf8_of(" (") + utf8_of(flag.help) + utf8_of(
        ")",
    );
    let w = describe_wrap(main, 0);
    let t = add_part(w.0, w.1, utf8_of("type: ") + utf8_of(flag_type_name(flag.ty)));
    let d = add_part(t.0, t.1, spec_value_text(flag.ty, utf8_of("default"), utf8_of(flag.default)));
    let c = if modified || current != utf8_of(flag.default) {
        add_part(d.0, d.1, spec_value_text(flag.ty, utf8_of("currently"), current))
    } else {
        d
    };
    c.0 + seq![10u8]
}

/// The position of the first newline of `c`.
fn find_newline(c: &Vec<u8>) -> (r: Option<usize>)
    ensures
        r matches Some(k) ==> index_of_byte(c@, 10) == Some(k as int) && k < c@.len(),
        r is None ==> index_of_byte(c@, 10) is None,
{
    let mut i: usize = 0;
    assert(c@.skip(0) =~= c@);
    while i < c.len()
        invariant
            0 <= i <= c@.len(),
            index_of_byte(c@, 10) == (match index_of_byte(c@.skip(i as int), 10) {
                Some(k) => Some(k + i),
                None => None,
            }),
        decreases c@.len() - i,
    {
        assert(c@.skip(i as int).drop_first() =~= c@.skip(i + 1));
        assert(c@.skip(i as int)[0] == c@[i as int]);
        if c[i] == 10 {
            return Some(i);
        }
        i = i + 1;
    }
    assert(c@.skip(i as int) =~= Seq::<u8>::empty());
    None
}

/// `AddString` (see [`add_part`]).
fn add_part_exec(out: &mut Vec<u8>, chars: &mut u128, s: &Vec<u8>)
    requires
        *old(chars) <= 0x1_0000_0000_0000_0000 * 4,
    ensures
        (final(out)@, *final(chars) as int) == add_part(old(out)@, *old(chars) as int, s@),
        *final(chars) <= 0x1_0000_0000_0000_0000 * 4,
{
    if *chars + 1 + s.len() as u128 >= LINE_LENGTH as u128 {
        push_str_bytes(out, "\n      ");
        *chars = 6 + s.len() as u128;
    } else {
        out.push(32u8);
        *chars = *chars + 1 + s.len() as u128;
    }
    push_all(out, s);
}

/// [`spec_value_text`].
fn value_text(ty: FlagType, text: &str, value: &Vec<u8>) -> (r: Vec<u8>)
    ensures
        r@ == spec_value_text(ty, utf8_of(text), value@),
{
    let mut out = bytes_of(text);
    if ty == FlagType::String {
        push_str_bytes(&mut out, ": \"");
        push_all(&mut out, value);
        push_str_bytes(&mut out, "\"");
    } else {
        push_str_bytes(&mut out, ": ");
        push_all(&mut out, value);
    }
    out
}

/// The wrapping loop of `DescribeOneFlag` (see [`describe_wrap`]).
fn describe_wrap_exec(c: Vec<u8>, chars: usize) -> (r: (Vec<u8>, u128))
    requires
        chars < LINE_LENGTH,
    ensures
        (r.0@, r.1 as int) == describe_wrap(c@, chars as int),
        r.1 <= LINE_LENGTH,
    decreases c@.len(),
{
    let newline = find_newline(&c);
    if newline.is_none() && c.len() < LINE_LENGTH - chars {
        let n = c.len();
        return (c, (chars + n) as u128);
    }
    if let Some(n) = newline {
        if n < LINE_LENGTH - chars {
            let rest = sub_bytes(&c, n + 1, c.len());
            let head = sub_bytes(&c, 0, n);
            assert(rest@ =~= c@.skip(n + 1));
            assert(head@ =~= c@.take(n as int));
            if rest.len() == 0 {
                return (head, chars as u128);
            }
            let (more, last) = describe_wrap_exec(rest, 6);
            let mut out = head;
            push_str_bytes(&mut out, "\n      ");
            push_all(&mut out, &more);
            return (out, last);
        }
    }
    // The last white space at or before column 79.
    let mut ws: usize = LINE_LENGTH - chars - 1;
    assert(ws as int == LINE_LENGTH - chars - 1);
    while ws > 0 && !(ws < c.len() && is_space(c[ws]))
        invariant
            ws <= LINE_LENGTH - chars - 1,
            chars < LINE_LENGTH,
            last_space_at_or_before(c@, LINE_LENGTH - chars - 1) == last_space_at_or_before(
                c@,
                ws as int,
            ),
        decreases ws,
    {
        ws = ws - 1;
    }
    if ws == 0 || ws > c.len() {
        return (c, LINE_LENGTH as u128);
    }
    let mut w = ws;
    while w < c.len() && is_space(c[w])
        invariant
            ws <= w <= c@.len(),
            skip_spaces_at(c@, ws as int) == skip_spaces_at(c@, w as int),
        decreases c@.len() - w,
    {
        w = w + 1;
    }
    let head = sub_bytes(&c, 0, ws);
    let rest = sub_bytes(&c, w, c.len());
    assert(rest@ =~= c@.skip(w as int));
    assert(head@ =~= c@.take(ws as int));
    if rest.len() == 0 {
        return (head, (chars + ws) as u128);
    }
    let (more, last) = describe_wrap_exec(rest, 6);
    let mut out = head;
    push_str_bytes(&mut out, "\n      ");
    push_all(&mut out, &more);
    (out, last)
}

/// `DescribeOneFlag`.
pub fn describe(flag: &Flag, current: &Vec<u8>, modified: bool) -> (r: Vec<u8>)
    ensures
        r@ == spec_describe(*flag, current@, modified),
{
    let mut main = bytes_of("    -");
    push_str_bytes(&mut main, flag.name);
    push_str_bytes(&mut main, " (");
    push_str_bytes(&mut main, flag.help);
    push_str_bytes(&mut main, ")");
    let (mut out, mut chars) = describe_wrap_exec(main, 0);
    let mut ty = bytes_of("type: ");
    push_str_bytes(&mut ty, flag.ty.name());
    add_part_exec(&mut out, &mut chars, &ty);
    let default = bytes_of(flag.default);
    let d = value_text(flag.ty, "default", &default);
    add_part_exec(&mut out, &mut chars, &d);
    if modified || !bytes_eq(current, &default) {
        let c = value_text(flag.ty, "currently", current);
        add_part_exec(&mut out, &mut chars, &c);
    }
    out.push(10u8);
    proof {
        reveal(spec_describe);
    }
    out
}

/// `file` up to its last `/` (empty without one).
pub open spec fn spec_dirname(file: Seq<u8>) -> Seq<u8> {
    match last_index_of_byte(file, 47) {
        Some(at) => file.take(at),
        None => seq![],
    }
}

/// The index of the last byte `b` of `s`.
pub open spec fn last_index_of_byte(s: Seq<u8>, b: u8) -> Option<int>
    decreases s.len(),
{
    if s.len() == 0 {
        None
    } else if s.last() == b {
        Some(s.len() - 1)
    } else {
        last_index_of_byte(s.drop_last(), b)
    }
}

/// `file` up to its last `/`.
fn dirname(file: &Vec<u8>) -> (r: Vec<u8>)
    ensures
        r@ == spec_dirname(file@),
{
    let mut k = file.len();
    assert(file@.take(k as int) =~= file@);
    while k > 0 && file[k - 1] != 47
        invariant
            0 <= k <= file@.len(),
            last_index_of_byte(file@, 47) == last_index_of_byte(file@.take(k as int), 47),
        decreases k,
    {
        assert(file@.take(k as int).drop_last() =~= file@.take(k - 1));
        k = k - 1;
    }
    if k == 0 {
        assert(file@.take(0) =~= Seq::<u8>::empty());
        Vec::new()
    } else {
        assert(file@.take(k as int).last() == file@[k - 1]);
        assert(file@.take(k - 1) =~= file@.take(k as int).take(k - 1));
        sub_bytes(file, 0, k - 1)
    }
}

/// `target` occurs in `file` (and is not empty).
pub open spec fn contains_window(file: Seq<u8>, target: Seq<u8>) -> bool {
    target.len() > 0 && exists|i: int|
        0 <= i && i + target.len() <= file.len() && #[trigger] file.subrange(i, i + target.len())
            == target
}

/// `FileMatchesSubstring` for one substring: `target` occurs in `file`, or
/// `target` is `/` followed by a prefix of `file`.
pub open spec fn file_matches_one(file: Seq<u8>, target: Seq<u8>) -> bool {
    contains_window(file, target) || (target.len() > 0 && target[0] == 47
        && target.skip(1).is_prefix_of(file))
}

/// `FileMatchesSubstring`.
pub open spec fn spec_file_matches(file: Seq<u8>, substrings: Seq<Seq<u8>>) -> bool {
    exists|j: int| 0 <= j < substrings.len() && file_matches_one(file, #[trigger] substrings[j])
}

fn matches_at(file: &Vec<u8>, target: &Vec<u8>, i: usize) -> (r: bool)
    requires
        i + target@.len() <= file@.len(),
        file@.len() <= usize::MAX,
    ensures
        r == (file@.subrange(i as int, i + target@.len()) == target@),
{
    let mut k: usize = 0;
    while k < target.len()
        invariant
            0 <= k <= target@.len(),
            i + target@.len() <= file@.len(),
            file@.len() <= usize::MAX,
            forall|j: int| 0 <= j < k ==> file@[i + j] == target@[j],
        decreases target@.len() - k,
    {
        if file[i + k] != target[k] {
            assert(file@.subrange(i as int, i + target@.len())[k as int] != target@[k as int]);
            return false;
        }
        k = k + 1;
    }
    assert(file@.subrange(i as int, i + target@.len()) =~= target@);
    true
}

fn file_matches_one_exec(file: &Vec<u8>, target: &Vec<u8>) -> (r: bool)
    ensures
        r == file_matches_one(file@, target@),
{
    if target.len() > 0 && target.len() <= file.len() {
        let mut i: usize = 0;
        while i <= file.len() - target.len()
            invariant
                target@.len() > 0,
                target@.len() <= file@.len(),
                forall|j: int|
                    0 <= j < i ==> #[trigger] file@.subrange(j, j + target@.len()) != target@,
            decreases file@.len() - i,
        {
            if matches_at(file, target, i) {
                return true;
            }
            i = i + 1;
        }
    }
    assert(!contains_window(file@, target@));
    if target.len() > 0 && target[0] == 47 {
        let rest = sub_bytes(target, 1, target.len());
        assert(rest@ =~= target@.skip(1));
        if rest.len() <= file.len() {
            let head = sub_bytes(file, 0, rest.len());
            let r = bytes_eq(&head, &rest);
            return r;
        }
        return false;
    }
    false
}

/// `FileMatchesSubstring`.
fn file_matches(file: &Vec<u8>, substrings: &Vec<Vec<u8>>) -> (r: bool)
    ensures
        r == spec_file_matches(file@, views(substrings@)),
{
    let mut j: usize = 0;
    while j < substrings.len()
        invariant
            0 <= j <= substrings@.len(),
            forall|k: int| 0 <= k < j ==> !file_matches_one(file@, #[trigger] views(substrings@)[k]),
        decreases substrings@.len() - j,
    {
        if file_matches_one_exec(file, &substrings[j]) {
            assert(file_matches_one(file@, views(substrings@)[j as int]));
            return true;
        }
        j = j + 1;
    }
    false
}

/// The flags of `ShowUsageWithFlagsMatching` from flag `k` on: the
/// `Flags from <file>:` headings (with two blank lines between
/// directories) and the description of every flag whose file matches
/// `substrings` (every flag if there are none); and whether any matched.
pub open spec fn usage_flags(
    flags: Seq<Flag>,
    current: Seq<Seq<u8>>,
    modified: Seq<bool>,
    substrings: Seq<Seq<u8>>,
    k: nat,
    last_file: Option<Seq<u8>>,
    first_directory: bool,
    found: bool,
) -> (Seq<u8>, bool)
    decreases flags.len() - k,
{
    if k >= flags.len() {
        (seq![], found)
    } else if substrings.len() > 0 && !spec_file_matches(utf8_of(flags[k as int].file), substrings) {
        usage_flags(flags, current, modified, substrings, k + 1, last_file, first_directory, found)
    } else {
        let file = utf8_of(flags[k as int].file);
        let new_file = last_file != Some(file);
        let last_dir = match last_file {
            Some(f) => spec_dirname(f),
            None => seq![],
        };
        let new_dir = new_file && spec_dirname(file) != last_dir;
        let head = (if new_dir && !first_directory {
            utf8_of("\n\n")
        } else {
            seq![]
        }) + (if new_file {
            utf8_of("\n  Flags from ") + file + utf8_of(":\n")
        } else {
            seq![]
        });
        let rest = usage_flags(
            flags,
            current,
            modified,
            substrings,
            k + 1,
            Some(file),
            first_directory && !new_dir,
            true,
        );
        (head + spec_describe(flags[k as int], current[k as int], modified[k as int]) + rest.0, rest.1)
    }
}

/// `ShowUsageWithFlagsMatching`: the usage line and the help of the flags
/// whose file matches `substrings` (all of them if there are none).
pub open spec fn spec_usage_matching(
    flags: Seq<Flag>,
    current: Seq<Seq<u8>>,
    modified: Seq<bool>,
    short_name: Seq<u8>,
    usage: Seq<u8>,
    substrings: Seq<Seq<u8>>,
) -> Seq<u8> {
    let body = usage_flags(flags, current, modified, substrings, 0, None, true, false);
    short_name + utf8_of(": ") + usage + utf8_of("\n") + body.0 + (if !body.1 && substrings.len()
        > 0 {
        utf8_of("\n  No modules matched: use -help\n")
    } else {
        seq![]
    })
}

/// The view of an optional byte vector.
pub open spec fn opt_view(o: Option<Vec<u8>>) -> Option<Seq<u8>> {
    match o {
        Some(v) => Some(v@),
        None => None,
    }
}

/// One flag of `ShowUsageWithFlagsMatching`: `None` if its file does not
/// match, else the heading (if any) and description written for it and
/// the new value of `first_directory`.
fn usage_one(
    flag: &Flag,
    current: &Vec<u8>,
    modified: bool,
    substrings: &Vec<Vec<u8>>,
    last_file: &Option<Vec<u8>>,
    first_directory: bool,
) -> (r: Option<(Vec<u8>, bool)>)
    ensures
        ({
            let subs = views(substrings@);
            let file = utf8_of(flag.file);
            let lf = opt_view(*last_file);
            let new_file = lf != Some(file);
            let last_dir = match lf {
                Some(f) => spec_dirname(f),
                None => seq![],
            };
            let new_dir = new_file && spec_dirname(file) != last_dir;
            match r {
                None => subs.len() > 0 && !spec_file_matches(file, subs),
                Some((piece, fd)) => !(subs.len() > 0 && !spec_file_matches(file, subs)) && fd == (
                first_directory && !new_dir) && piece@ == (if new_dir && !first_directory {
                    utf8_of("\n\n")
                } else {
                    seq![]
                }) + (if new_file {
                    utf8_of("\n  Flags from ") + file + utf8_of(":\n")
                } else {
                    seq![]
                }) + spec_describe(*flag, current@, modified),
            }
        }),
{
    let file = bytes_of(flag.file);
    if substrings.len() > 0 && !file_matches(&file, substrings) {
        return None;
    }
    let new_file = match last_file {
        Some(f) => !bytes_eq(f, &file),
        None => true,
    };
    let last_dir = match last_file {
        Some(f) => dirname(f),
        None => Vec::new(),
    };
    let dir = dirname(&file);
    let new_dir = new_file && !bytes_eq(&dir, &last_dir);
    let mut out: Vec<u8> = Vec::new();
    if new_dir && !first_directory {
        push_str_bytes(&mut out, "\n\n");
    }
    let ghost a = out@;
    if new_file {
        push_str_bytes(&mut out, "\n  Flags from ");
        push_all(&mut out, &file);
        push_str_bytes(&mut out, ":\n");
    }
    let d = describe(flag, current, modified);
    push_all(&mut out, &d);
    Some((out, first_directory && !new_dir))
}

/// `ShowUsageWithFlagsMatching`.
fn usage_matching(
    flags: &[Flag],
    current: &Vec<Vec<u8>>,
    modified: &Vec<bool>,
    short_name: &Vec<u8>,
    usage: &Vec<u8>,
    substrings: &Vec<Vec<u8>>,
) -> (r: Vec<u8>)
    requires
        current@.len() == flags@.len(),
        modified@.len() == flags@.len(),
    ensures
        r@ == spec_usage_matching(
            flags@,
            views(current@),
            modified@,
            short_name@,
            usage@,
            views(substrings@),
        ),
{
    let ghost subs = views(substrings@);
    let ghost cur = views(current@);
    let mut head = copy_bytes(short_name);
    push_str_bytes(&mut head, ": ");
    push_all(&mut head, usage);
    push_str_bytes(&mut head, "\n");
    let mut out: Vec<u8> = Vec::new();
    let mut last_file: Option<Vec<u8>> = None;
    let mut first_directory = true;
    let mut found = false;
    let mut k: usize = 0;
    let ghost goal = usage_flags(flags@, cur, modified@, subs, 0, None, true, false);
    while k < flags.len()
        invariant
            0 <= k <= flags@.len(),
            current@.len() == flags@.len(),
            modified@.len() == flags@.len(),
            cur == views(current@),
            subs == views(substrings@),
            goal.1 == usage_flags(
                flags@,
                cur,
                modified@,
                subs,
                k as nat,
                opt_view(last_file),
                first_directory,
                found,
            ).1,
            goal.0 == out@ + usage_flags(
                flags@,
                cur,
                modified@,
                subs,
                k as nat,
                opt_view(last_file),
                first_directory,
                found,
            ).0,
        decreases flags@.len() - k,
    {
        match usage_one(&flags[k], &current[k], modified[k], substrings, &last_file, first_directory) {
            None => {},
            Some((piece, new_first)) => {
                push_all(&mut out, &piece);
                first_directory = new_first;
                found = true;
                last_file = Some(bytes_of(flags[k].file));
            },
        }
        proof {
            assert(cur[k as int] == current@[k as int]@);
        }
        k = k + 1;
    }
    let mut r = head;
    push_all(&mut r, &out);
    if !found && substrings.len() > 0 {
        push_str_bytes(&mut r, "\n  No modules matched: use -help\n");
    }
    r
}

/// `text` with `&` and `<` escaped for XML.
pub open spec fn xml_text(s: Seq<u8>) -> Seq<u8>
    decreases s.len(),
{
    if s.len() == 0 {
        seq![]
    } else {
        (if s[0] == 38 {
            utf8_of("&amp;")
        } else if s[0] == 60 {
            utf8_of("&lt;")
        } else {
            seq![s[0]]
        }) + xml_text(s.drop_first())
    }
}

/// `<name>text</name>` with `text` escaped.
pub open spec fn xml_tag(name: &str, text: Seq<u8>) -> Seq<u8> {
    utf8_of("<") + utf8_of(name) + utf8_of(">") + xml_text(text) + utf8_of("</") + utf8_of(name)
        + utf8_of(">")
}

/// The `<flag>` element of a flag with its current value.
pub open spec fn xml_flag(flag: Flag, current: Seq<u8>) -> Seq<u8> {
    utf8_of("<flag>") + xml_tag("file", utf8_of(flag.file)) + xml_tag("name", utf8_of(flag.name))
        + xml_tag("meaning", utf8_of(flag.help)) + xml_tag("default", utf8_of(flag.default))
        + xml_tag("current", current) + xml_tag("type", utf8_of(flag_type_name(flag.ty)))
        + utf8_of("</flag>\n")
}

/// The `<flag>` elements of the flags from `k` on.
pub open spec fn xml_flags(flags: Seq<Flag>, current: Seq<Seq<u8>>, k: nat) -> Seq<u8>
    decreases flags.len() - k,
{
    if k >= flags.len() {
        seq![]
    } else {
        xml_flag(flags[k as int], current[k as int]) + xml_flags(flags, current, k + 1)
    }
}

/// `ShowXMLOfFlags`.
pub open spec fn spec_xml(
    flags: Seq<Flag>,
    current: Seq<Seq<u8>>,
    short_name: Seq<u8>,
    usage: Seq<u8>,
) -> Seq<u8> {
    utf8_of("<?xml version=\"1.0\"?>\n<AllFlags>\n") + xml_tag("program", short_name) + utf8_of(
        "\n",
    ) + xml_tag("usage", usage) + utf8_of("\n") + xml_flags(flags, current, 0) + utf8_of(
        "</AllFlags>\n",
    )
}

/// Appends `s` escaped for XML.
fn push_xml_text(out: &mut Vec<u8>, s: &Vec<u8>)
    ensures
        final(out)@ == old(out)@ + xml_text(s@),
{
    let mut i: usize = 0;
    let ghost start = out@;
    assert(s@.skip(0) =~= s@);
    assert(start + xml_text(s@) =~= start + Seq::<u8>::empty() + xml_text(s@.skip(0)));
    while i < s.len()
        invariant
            0 <= i <= s@.len(),
            start + xml_text(s@) == out@ + xml_text(s@.skip(i as int)),
        decreases s@.len() - i,
    {
        assert(s@.skip(i as int).drop_first() =~= s@.skip(i + 1));
        assert(s@.skip(i as int)[0] == s@[i as int]);
        let ghost before = out@;
        let c = s[i];
        if c == 38 {
            push_str_bytes(out, "&amp;");
        } else if c == 60 {
            push_str_bytes(out, "&lt;");
        } else {
            out.push(c);
        }
        assert(out@ + xml_text(s@.skip(i + 1)) =~= before + xml_text(s@.skip(i as int)));
        i = i + 1;
    }
    assert(s@.skip(i as int) =~= Seq::<u8>::empty());
    assert(out@ + Seq::<u8>::empty() =~= out@);
}

fn push_xml_tag(out: &mut Vec<u8>, name: &str, text: &Vec<u8>)
    ensures
        final(out)@ == old(out)@ + xml_tag(name, text@),
{
    let ghost start = out@;
    push_str_bytes(out, "<");
    push_str_bytes(out, name);
    push_str_bytes(out, ">");
    push_xml_text(out, text);
    push_str_bytes(out, "</");
    push_str_bytes(out, name);
    push_str_bytes(out, ">");
    assert(out@ =~= start + xml_tag(name, text@));
}

/// `ShowXMLOfFlags`.
#[verifier::spinoff_prover]
fn xml(flags: &[Flag], current: &Vec<Vec<u8>>, short_name: &Vec<u8>, usage: &Vec<u8>) -> (r: Vec<
    u8,
>)
    requires
        current@.len() == flags@.len(),
    ensures
        r@ == spec_xml(flags@, views(current@), short_name@, usage@),
{
    let ghost cur = views(current@);
    let mut out = bytes_of("<?xml version=\"1.0\"?>\n<AllFlags>\n");
    push_xml_tag(&mut out, "program", short_name);
    push_str_bytes(&mut out, "\n");
    push_xml_tag(&mut out, "usage", usage);
    push_str_bytes(&mut out, "\n");
    let ghost head = out@;
    let mut k: usize = 0;
    while k < flags.len()
        invariant
            0 <= k <= flags@.len(),
            current@.len() == flags@.len(),
            cur == views(current@),
            head + xml_flags(flags@, cur, 0) == out@ + xml_flags(flags@, cur, k as nat),
        decreases flags@.len() - k,
    {
        let ghost before = out@;
        let f = flags[k];
        push_str_bytes(&mut out, "<flag>");
        push_xml_tag(&mut out, "file", &bytes_of(f.file));
        push_xml_tag(&mut out, "name", &bytes_of(f.name));
        push_xml_tag(&mut out, "meaning", &bytes_of(f.help));
        push_xml_tag(&mut out, "default", &bytes_of(f.default));
        push_xml_tag(&mut out, "current", &current[k]);
        push_xml_tag(&mut out, "type", &bytes_of(f.ty.name()));
        push_str_bytes(&mut out, "</flag>\n");
        assert(cur[k as int] == current@[k as int]@);
        assert(out@ =~= before + xml_flag(f, cur[k as int]));
        k = k + 1;
    }
    push_str_bytes(&mut out, "</AllFlags>\n");
    assert(out@ =~= spec_xml(flags@, cur, short_name@, usage@));
    out
}


// ---------------------------------------------------------------------
// `ParseCommandLineFlags`.

/// A program: its flags and usage message.
#[derive(Clone, Debug)]
pub struct Program {
    /// `argv[0]`.
    pub argv0: Vec<u8>,
    /// The usage message (`gflags::SetUsageMessage`).
    pub usage: Vec<u8>,
    /// The program's own flags (gflags' own are added).
    pub flags: Vec<Flag>,
}

/// The parsed flags and the remaining (positional) arguments.
#[derive(Clone, Debug)]
pub struct Parsed {
    flags: Vec<Flag>,
    current: Vec<Vec<u8>>,
    modified: Vec<bool>,
    /// The arguments that are not flags, in gflags' order.
    pub args: Vec<Vec<u8>>,
}

/// The result of [`parse`].
#[derive(Clone, Debug)]
pub enum Outcome {
    /// Run the program.
    Run(Parsed),
    /// Exit with this code after writing the output (help, errors).
    Exit {
        /// Exit code.
        code: u8,
        /// Text for stdout.
        stdout: Vec<u8>,
        /// Text for stderr.
        stderr: Vec<u8>,
    },
}

/// What [`parse`] decides, over plain values.
pub enum ParseView {
    /// Run with these flags, their values and `modified` bits, and these
    /// positional arguments.
    Run { flags: Seq<Flag>, current: Seq<Seq<u8>>, modified: Seq<bool>, args: Seq<Seq<u8>> },
    /// Exit with this code and output.
    Exit { code: u8, stdout: Seq<u8>, stderr: Seq<u8> },
}

/// The value of flag `name` (empty if there is none).
pub open spec fn flag_value(flags: Seq<Flag>, current: Seq<Seq<u8>>, name: Seq<u8>) -> Seq<u8> {
    match find_flag(flags, name) {
        Some(i) => current[i],
        None => seq![],
    }
}

/// Flag `name` is `true`.
pub open spec fn flag_is_true(flags: Seq<Flag>, current: Seq<Seq<u8>>, name: &str) -> bool {
    flag_value(flags, current, utf8_of(name)) == utf8_of("true")
}

/// `s.parse::<i32>()`, or 0 where that fails: an optional sign, then
/// decimal digits whose value fits.
pub open spec fn spec_parse_i32(s: Seq<u8>) -> i32 {
    let body = skip_sign(s);
    if body.len() == 0 || !all_digits(body, 10) {
        0
    } else {
        let v = if sign_negative(s) {
            -digits_value(body, 10)
        } else {
            digits_value(body, 10) as int
        };
        if i32::MIN <= v <= i32::MAX {
            v as i32
        } else {
            0
        }
    }
}

/// `s.parse::<i32>().unwrap_or_default()`.
pub fn parse_i32(s: &[u8]) -> (r: i32)
    ensures
        r == spec_parse_i32(s@),
{
    let n = s.len();
    let negative = n > 0 && s[0] == 45;
    let mut i: usize = 0;
    if n > 0 && (s[0] == 43 || s[0] == 45) {
        i = 1;
    }
    let ghost body = s@.skip(i as int);
    assert(body =~= skip_sign(s@));
    if i == n {
        return 0;
    }
    let mut v: u64 = 0;
    let mut k = i;
    while k < n
        invariant
            i <= k <= n,
            n == s@.len(),
            body == s@.skip(i as int),
            body == skip_sign(s@),
            negative == sign_negative(s@),
            v == digits_value(body.take(k - i), 10),
            v <= 2147483648,
            all_digits(body.take(k - i), 10),
        decreases n - k,
    {
        assert(body.take(k - i + 1).drop_last() =~= body.take(k - i));
        assert(body.take(k - i + 1).last() == s@[k as int]);
        let d = match to_digit(s[k], 10) {
            Some(d) => d,
            None => {
                assert(!all_digits(body, 10)) by {
                    assert(body[k - i] == s@[k as int]);
                }
                return 0;
            },
        };
        v = v * 10 + (d as u64);
        assert forall|j: int| 0 <= j < k - i + 1 implies #[trigger] digit_of(
            body.take(k - i + 1)[j],
            10,
        ) is Some by {
            if j < k - i {
                assert(body.take(k - i + 1)[j] == body.take(k - i)[j]);
            }
        }
        if v > 2147483648 {
            proof {
                lemma_digits_value_grows(body, k - i + 1, 10);
            }
            return 0;
        }
        k = k + 1;
    }
    assert(body.take(k - i) =~= body);
    if negative {
        (0 - (v as i64)) as i32
    } else if v > 2147483647 {
        0
    } else {
        v as i32
    }
}

impl Parsed {
    /// The flags, in gflags' order.
    pub closed spec fn flag_list(&self) -> Seq<Flag> {
        self.flags@
    }

    /// The value of every flag.
    pub closed spec fn current_values(&self) -> Seq<Seq<u8>> {
        views(self.current@)
    }

    /// Whether every flag was set.
    pub closed spec fn modified_bits(&self) -> Seq<bool> {
        self.modified@
    }

    /// The positional arguments.
    pub closed spec fn positional(&self) -> Seq<Seq<u8>> {
        views(self.args@)
    }

    /// One value and one bit per flag.
    pub closed spec fn wf(&self) -> bool {
        self.current@.len() == self.flags@.len() && self.modified@.len() == self.flags@.len()
    }

    fn index(&self, name: &str) -> (r: usize)
        requires
            self.wf(),
            find_flag(self.flag_list(), utf8_of(name)) is Some,
        ensures
            find_flag(self.flag_list(), utf8_of(name)) == Some(r as int),
            r < self.flags@.len(),
    {
        match find(self.flags.as_slice(), &bytes_of(name)) {
            Some(i) => i,
            None => {
                assert(false);
                0
            },
        }
    }

    /// The positional arguments.
    pub fn positional_args(&self) -> (r: &Vec<Vec<u8>>)
        ensures
            views(r@) == self.positional(),
    {
        &self.args
    }

    /// The value of flag `name` (empty for an unknown flag).
    pub fn value(&self, name: &str) -> (r: Vec<u8>)
        requires
            self.wf(),
        ensures
            r@ == flag_value(self.flag_list(), self.current_values(), utf8_of(name)),
    {
        flag_current(self.flags.as_slice(), &self.current, name)
    }

    /// The value of a string flag.
    pub fn string(&self, name: &str) -> (r: &[u8])
        requires
            self.wf(),
            find_flag(self.flag_list(), utf8_of(name)) is Some,
        ensures
            r@ == flag_value(self.flag_list(), self.current_values(), utf8_of(name)),
    {
        let i = self.index(name);
        self.current[i].as_slice()
    }

    /// The value of a bool flag.
    pub fn bool(&self, name: &str) -> (r: bool)
        requires
            self.wf(),
            find_flag(self.flag_list(), utf8_of(name)) is Some,
        ensures
            r == flag_is_true(self.flag_list(), self.current_values(), name),
    {
        let i = self.index(name);
        bytes_eq(&self.current[i], &bytes_of("true"))
    }

    /// The value of an int32 flag.
    pub fn int32(&self, name: &str) -> (r: i32)
        requires
            self.wf(),
            find_flag(self.flag_list(), utf8_of(name)) is Some,
        ensures
            r == spec_parse_i32(flag_value(self.flag_list(), self.current_values(), utf8_of(name))),
    {
        let i = self.index(name);
        parse_i32(&self.current[i])
    }

    /// `true` if the flag was set.
    pub fn is_set(&self, name: &str) -> (r: bool)
        requires
            self.wf(),
            find_flag(self.flag_list(), utf8_of(name)) is Some,
        ensures
            r == self.modified_bits()[find_flag(self.flag_list(), utf8_of(name))->0],
    {
        let i = self.index(name);
        self.modified[i]
    }
}

/// `o` is the outcome `v`.
pub open spec fn outcome_is(o: Outcome, v: ParseView) -> bool {
    match o {
        Outcome::Run(p) => p.wf() && v == (ParseView::Run {
            flags: p.flag_list(),
            current: p.current_values(),
            modified: p.modified_bits(),
            args: p.positional(),
        }),
        Outcome::Exit { code, stdout, stderr } => v == (ParseView::Exit {
            code,
            stdout: stdout@,
            stderr: stderr@,
        }),
    }
}

/// `o` is the outcome `v`, or both are `None`.
pub open spec fn opt_outcome_is(o: Option<Outcome>, v: Option<ParseView>) -> bool {
    match o {
        Some(o) => v matches Some(w) && outcome_is(o, w),
        None => v is None,
    }
}

/// gflags' flags and the program's, in gflags' order.
pub open spec fn spec_all_flags(program_flags: Seq<Flag>) -> Seq<Flag> {
    sort_flags(spec_builtin_flags() + program_flags)
}

/// Every flag at its default value, no error.
pub open spec fn initial_state(flags: Seq<Flag>) -> FlagState {
    FlagState {
        current: flags.map_values(|f: Flag| utf8_of(f.default)),
        modified: Seq::new(flags.len(), |i: int| false),
        errors: seq![],
        undefined: Set::empty(),
    }
}

/// The program name: `argv[0]` after its last `/`.
pub open spec fn spec_short_name(argv0: Seq<u8>) -> Seq<u8> {
    match last_index_of_byte(argv0, 47) {
        Some(at) => argv0.skip(at + 1),
        None => argv0,
    }
}

/// The file name patterns of the program's main module.
pub open spec fn progname_substrings(short_name: Seq<u8>) -> Seq<Seq<u8>> {
    seq![
        utf8_of("/") + short_name + utf8_of("."),
        utf8_of("/") + short_name + utf8_of("-main."),
        utf8_of("/") + short_name + utf8_of("_main."),
    ]
}

/// `--helppackage` from flag `k` on: the help of each new package of the
/// main module's files, the warnings, and the last package.
pub open spec fn package_help(
    flags: Seq<Flag>,
    current: Seq<Seq<u8>>,
    modified: Seq<bool>,
    short_name: Seq<u8>,
    usage: Seq<u8>,
    k: nat,
    last_package: Seq<u8>,
) -> (Seq<u8>, Seq<u8>, Seq<u8>)
    decreases flags.len() - k,
{
    if k >= flags.len() {
        (seq![], seq![], last_package)
    } else {
        let file = utf8_of(flags[k as int].file);
        let package = spec_dirname(file) + utf8_of("/");
        if !spec_file_matches(file, progname_substrings(short_name)) || package == last_package {
            package_help(flags, current, modified, short_name, usage, k + 1, last_package)
        } else {
            let rest = package_help(flags, current, modified, short_name, usage, k + 1, package);
            let warn = if last_package.len() > 0 {
                utf8_of("WARNING: Multiple packages contain a file=") + short_name + utf8_of("\n")
            } else {
                seq![]
            };
            (
                spec_usage_matching(flags, current, modified, short_name, usage, seq![package])
                    + rest.0,
                warn + rest.1,
                rest.2,
            )
        }
    }
}

/// `HandleCommandLineHelpFlags`: the output of the first help flag that is
/// set, if any.
#[verifier::opaque]
pub open spec fn spec_help(
    flags: Seq<Flag>,
    cur: Seq<Seq<u8>>,
    modified: Seq<bool>,
    short_name: Seq<u8>,
    usage: Seq<u8>,
) -> Option<ParseView> {
    let helpon = flag_value(flags, cur, utf8_of("helpon"));
    let helpmatch = flag_value(flags, cur, utf8_of("helpmatch"));
    let usage_of = |subs: Seq<Seq<u8>>|
        spec_usage_matching(flags, cur, modified, short_name, usage, subs);
    if flag_is_true(flags, cur, "helpshort") {
        Some(ParseView::Exit { code: 1, stdout: usage_of(progname_substrings(short_name)), stderr: seq![] })
    } else if flag_is_true(flags, cur, "help") || flag_is_true(flags, cur, "helpful") {
        Some(ParseView::Exit { code: 1, stdout: usage_of(seq![]), stderr: seq![] })
    } else if helpon.len() > 0 {
        Some(
            ParseView::Exit {
                code: 1,
                stdout: usage_of(seq![utf8_of("/") + helpon + utf8_of(".")]),
                stderr: seq![],
            },
        )
    } else if helpmatch.len() > 0 {
        Some(ParseView::Exit { code: 1, stdout: usage_of(seq![helpmatch]), stderr: seq![] })
    } else if flag_is_true(flags, cur, "helppackage") {
        let p = package_help(flags, cur, modified, short_name, usage, 0, seq![]);
        Some(
            ParseView::Exit {
                code: 1,
                stdout: p.0,
                stderr: p.1 + (if p.2.len() == 0 {
                    utf8_of("WARNING: Unable to find a package for file=") + short_name + utf8_of(
                        "\n",
                    )
                } else {
                    seq![]
                }),
            },
        )
    } else if flag_is_true(flags, cur, "helpxml") {
        Some(ParseView::Exit { code: 1, stdout: spec_xml(flags, cur, short_name, usage), stderr: seq![] })
    } else if flag_is_true(flags, cur, "version") {
        Some(ParseView::Exit { code: 0, stdout: short_name + utf8_of("\n"), stderr: seq![] })
    } else {
        None
    }
}

/// `--undefok`: the errors of the unknown flags in `names` (or of their
/// `no` form) are cleared.
pub open spec fn undefok_errors(st: FlagState, names: Seq<Seq<u8>>) -> FlagState
    decreases names.len(),
{
    if names.len() == 0 {
        st
    } else {
        let name = names[0];
        let no = utf8_of("no") + name;
        let st1 = if st.undefined.contains(name) {
            with_error(st, name, seq![])
        } else if st.undefined.contains(no) {
            with_error(st, no, seq![])
        } else {
            st
        };
        undefok_errors(st1, names.drop_first())
    }
}

/// `ReportErrors`, then run with the flags and `positional`.
pub open spec fn spec_report(flags: Seq<Flag>, st: FlagState, positional: Seq<Seq<u8>>) -> ParseView {
    match spec_parse_flag_list(flag_value(flags, st.current, utf8_of("undefok"))) {
        Err(m) => ParseView::Exit { code: 1, stdout: seq![], stderr: m },
        Ok(names) => {
            let st1 = undefok_errors(st, names);
            let errors = error_text(st1.errors);
            if errors.len() > 0 {
                ParseView::Exit { code: 1, stdout: seq![], stderr: errors }
            } else {
                ParseView::Run {
                    flags,
                    current: st1.current,
                    modified: st1.modified,
                    args: positional,
                }
            }
        },
    }
}

/// `ParseCommandLineFlags(&argc, &argv, true)` on `args` (without
/// `argv[0]`): the flags are set, the help flags handled, the errors
/// reported.
pub open spec fn spec_parse(
    program_flags: Seq<Flag>,
    argv0: Seq<u8>,
    usage: Seq<u8>,
    args: Seq<Seq<u8>>,
    env: Seq<(String, Vec<u8>)>,
) -> ParseView {
    let flags = spec_all_flags(program_flags);
    match spec_arg_loop(flags, env, initial_state(flags), args, args.len() as int, 0) {
        ArgLoop::Fatal(e) => ParseView::Exit { code: 1, stdout: seq![], stderr: e },
        ArgLoop::Done(st, argv, f) => {
            let positional = argv.skip(if f <= argv.len() { f } else { argv.len() as int });
            match spec_help(flags, st.current, st.modified, spec_short_name(argv0), usage) {
                Some(v) => v,
                None => spec_report(flags, st, positional),
            }
        },
    }
}

/// The value of flag `name`.
fn flag_current(flags: &[Flag], current: &Vec<Vec<u8>>, name: &str) -> (r: Vec<u8>)
    requires
        current@.len() == flags@.len(),
    ensures
        r@ == flag_value(flags@, views(current@), utf8_of(name)),
{
    match find(flags, &bytes_of(name)) {
        Some(i) => copy_bytes(&current[i]),
        None => Vec::new(),
    }
}

/// Flag `name` is `true`.
fn flag_true(flags: &[Flag], current: &Vec<Vec<u8>>, name: &str) -> (r: bool)
    requires
        current@.len() == flags@.len(),
    ensures
        r == flag_is_true(flags@, views(current@), name),
{
    let v = flag_current(flags, current, name);
    bytes_eq(&v, &bytes_of("true"))
}

/// `v[from..]`, copied.
fn tail(v: &[Vec<u8>], from: usize) -> (r: Vec<Vec<u8>>)
    requires
        from <= v@.len(),
    ensures
        views(r@) == views(v@).skip(from as int),
{
    let mut out: Vec<Vec<u8>> = Vec::new();
    let mut i = from;
    while i < v.len()
        invariant
            from <= i <= v@.len(),
            views(out@) == views(v@).subrange(from as int, i as int),
        decreases v@.len() - i,
    {
        let c = copy_bytes(&v[i]);
        let ghost old_out = out@;
        out.push(c);
        assert(views(out@) =~= views(old_out).push(c@));
        assert(views(v@).subrange(from as int, i + 1) =~= views(v@).subrange(from as int, i as int).push(
            views(v@)[i as int],
        ));
        i = i + 1;
    }
    assert(views(v@).subrange(from as int, i as int) =~= views(v@).skip(from as int));
    out
}

/// The program name: `argv0` after its last `/`.
fn short_name_of(argv0: &Vec<u8>) -> (r: Vec<u8>)
    ensures
        r@ == spec_short_name(argv0@),
{
    let mut k = argv0.len();
    assert(argv0@.take(k as int) =~= argv0@);
    while k > 0 && argv0[k - 1] != 47
        invariant
            0 <= k <= argv0@.len(),
            last_index_of_byte(argv0@, 47) == last_index_of_byte(argv0@.take(k as int), 47),
        decreases k,
    {
        assert(argv0@.take(k as int).drop_last() =~= argv0@.take(k - 1));
        k = k - 1;
    }
    if k == 0 {
        assert(argv0@.take(0) =~= Seq::<u8>::empty());
        copy_bytes(argv0)
    } else {
        assert(argv0@.take(k as int).last() == argv0@[k - 1]);
        let r = sub_bytes(argv0, k, argv0.len());
        assert(r@ =~= argv0@.skip(k as int));
        r
    }
}

/// [`progname_substrings`].
fn progname_list(short: &Vec<u8>) -> (r: Vec<Vec<u8>>)
    ensures
        views(r@) == progname_substrings(short@),
{
    let mut a = bytes_of("/");
    push_all(&mut a, short);
    push_str_bytes(&mut a, ".");
    let mut b = bytes_of("/");
    push_all(&mut b, short);
    push_str_bytes(&mut b, "-main.");
    let mut c = bytes_of("/");
    push_all(&mut c, short);
    push_str_bytes(&mut c, "_main.");
    let mut r: Vec<Vec<u8>> = Vec::new();
    r.push(a);
    r.push(b);
    r.push(c);
    assert(views(r@) =~= progname_substrings(short@));
    r
}

/// [`package_help`] from the first flag.
fn package_help_exec(
    flags: &Vec<Flag>,
    current: &Vec<Vec<u8>>,
    modified: &Vec<bool>,
    short: &Vec<u8>,
    usage: &Vec<u8>,
) -> (r: (Vec<u8>, Vec<u8>, Vec<u8>))
    requires
        current@.len() == flags@.len(),
        modified@.len() == flags@.len(),
    ensures
        (r.0@, r.1@, r.2@) == package_help(
            flags@,
            views(current@),
            modified@,
            short@,
            usage@,
            0,
            seq![],
        ),
{
    let ghost cur = views(current@);
    let subs = progname_list(short);
    let mut out: Vec<u8> = Vec::new();
    let mut err: Vec<u8> = Vec::new();
    let mut last: Vec<u8> = Vec::new();
    let ghost goal = package_help(flags@, cur, modified@, short@, usage@, 0, seq![]);
    assert(last@ =~= Seq::<u8>::empty());
    assert(goal.0 =~= out@ + goal.0);
    assert(goal.1 =~= err@ + goal.1);
    let mut k: usize = 0;
    while k < flags.len()
        invariant
            0 <= k <= flags@.len(),
            current@.len() == flags@.len(),
            modified@.len() == flags@.len(),
            cur == views(current@),
            views(subs@) == progname_substrings(short@),
            goal.0 == out@ + package_help(flags@, cur, modified@, short@, usage@, k as nat, last@).0,
            goal.1 == err@ + package_help(flags@, cur, modified@, short@, usage@, k as nat, last@).1,
            goal.2 == package_help(flags@, cur, modified@, short@, usage@, k as nat, last@).2,
        decreases flags@.len() - k,
    {
        let file = bytes_of(flags[k].file);
        let mut package = dirname(&file);
        push_str_bytes(&mut package, "/");
        if file_matches(&file, &subs) && !bytes_eq(&package, &last) {
            let ghost rest = package_help(
                flags@,
                cur,
                modified@,
                short@,
                usage@,
                (k + 1) as nat,
                package@,
            );
            let mut one: Vec<Vec<u8>> = Vec::new();
            one.push(copy_bytes(&package));
            assert(views(one@) =~= seq![package@]);
            let u = usage_matching(flags, current, modified, short, usage, &one);
            let ghost out0 = out@;
            let ghost err0 = err@;
            push_all(&mut out, &u);
            assert(out0 + (u@ + rest.0) =~= out@ + rest.0);
            if last.len() > 0 {
                push_str_bytes(&mut err, "WARNING: Multiple packages contain a file=");
                push_all(&mut err, short);
                push_str_bytes(&mut err, "\n");
                assert(err0 + ((utf8_of("WARNING: Multiple packages contain a file=") + short@
                    + utf8_of("\n")) + rest.1) =~= err@ + rest.1);
            } else {
                assert(err0 + (Seq::<u8>::empty() + rest.1) =~= err@ + rest.1);
            }
            last = package;
        }
        k = k + 1;
    }
    (out, err, last)
}

/// [`spec_help`].
#[verifier::spinoff_prover]
#[verifier::rlimit(60)]
fn help_outcome(flags: &Vec<Flag>, current: &Vec<Vec<u8>>, modified: &Vec<bool>, short: &Vec<u8>, usage: &Vec<u8>) -> (r: Option<Outcome>)
    requires
        current@.len() == flags@.len(),
        modified@.len() == flags@.len(),
    ensures
        opt_outcome_is(r, spec_help(flags@, views(current@), modified@, short@, usage@)),
{
    reveal(spec_help);
    if flag_true(flags, current, "helpshort") {
        let subs = progname_list(short);
        let out = usage_matching(flags, current, modified, short, usage, &subs);
        return Some(Outcome::Exit { code: 1, stdout: out, stderr: Vec::new() });
    }
    if flag_true(flags, current, "help") || flag_true(flags, current, "helpful") {
        let none: Vec<Vec<u8>> = Vec::new();
        assert(views(none@) =~= Seq::<Seq<u8>>::empty());
        let out = usage_matching(flags, current, modified, short, usage, &none);
        return Some(Outcome::Exit { code: 1, stdout: out, stderr: Vec::new() });
    }
    let helpon = flag_current(flags, current, "helpon");
    if helpon.len() > 0 {
        let mut pattern = bytes_of("/");
        push_all(&mut pattern, &helpon);
        push_str_bytes(&mut pattern, ".");
        let mut subs: Vec<Vec<u8>> = Vec::new();
        subs.push(pattern);
        assert(views(subs@) =~= seq![utf8_of("/") + helpon@ + utf8_of(".")]);
        let out = usage_matching(flags, current, modified, short, usage, &subs);
        return Some(Outcome::Exit { code: 1, stdout: out, stderr: Vec::new() });
    }
    let helpmatch = flag_current(flags, current, "helpmatch");
    if helpmatch.len() > 0 {
        let ghost hm = helpmatch@;
        let mut subs: Vec<Vec<u8>> = Vec::new();
        subs.push(helpmatch);
        assert(views(subs@) =~= seq![hm]);
        let out = usage_matching(flags, current, modified, short, usage, &subs);
        return Some(Outcome::Exit { code: 1, stdout: out, stderr: Vec::new() });
    }
    if flag_true(flags, current, "helppackage") {
        let (out, mut err, last) = package_help_exec(flags, current, modified, short, usage);
        let ghost err0 = err@;
        if last.len() == 0 {
            push_str_bytes(&mut err, "WARNING: Unable to find a package for file=");
            push_all(&mut err, short);
            push_str_bytes(&mut err, "\n");
            assert(err@ =~= err0 + (utf8_of("WARNING: Unable to find a package for file=")
                + short@ + utf8_of("\n")));
        } else {
            assert(err@ =~= err0 + Seq::<u8>::empty());
        }
        return Some(Outcome::Exit { code: 1, stdout: out, stderr: err });
    }
    if flag_true(flags, current, "helpxml") {
        let out = xml(flags, current, short, usage);
        return Some(Outcome::Exit { code: 1, stdout: out, stderr: Vec::new() });
    }
    if flag_true(flags, current, "version") {
        let mut out = copy_bytes(short);
        push_str_bytes(&mut out, "\n");
        return Some(Outcome::Exit { code: 0, stdout: out, stderr: Vec::new() });
    }
    None
}

/// The concatenated messages of `errors`.
fn error_bytes(errors: &Vec<(Vec<u8>, Vec<u8>)>) -> (r: Vec<u8>)
    ensures
        r@ == error_text(pair_views(errors@)),
{
    let ghost pv = pair_views(errors@);
    let mut out: Vec<u8> = Vec::new();
    let mut i: usize = 0;
    assert(pv.skip(0) =~= pv);
    assert(error_text(pv) =~= out@ + error_text(pv.skip(0)));
    while i < errors.len()
        invariant
            0 <= i <= errors@.len(),
            pv == pair_views(errors@),
            error_text(pv) == out@ + error_text(pv.skip(i as int)),
        decreases errors@.len() - i,
    {
        let ghost before = out@;
        assert(pv.skip(i as int)[0] == pv[i as int]);
        assert(pv.skip(i as int).drop_first() =~= pv.skip(i + 1));
        push_all(&mut out, &errors[i].1);
        assert(before + (pv[i as int].1 + error_text(pv.skip(i + 1))) =~= out@ + error_text(
            pv.skip(i + 1),
        ));
        i = i + 1;
    }
    assert(pv.skip(i as int) =~= Seq::<(Seq<u8>, Seq<u8>)>::empty());
    assert(out@ + Seq::<u8>::empty() =~= out@);
    out
}

impl State {
    /// [`undefok_errors`].
    fn apply_undefok(&mut self, names: &Vec<Vec<u8>>)
        ensures
            final(self).view() == undefok_errors(old(self).view(), views(names@)),
            final(self).current@ == old(self).current@,
            final(self).modified@ == old(self).modified@,
    {
        let ghost all = views(names@);
        let mut i: usize = 0;
        assert(all.skip(0) =~= all);
        while i < names.len()
            invariant
                0 <= i <= names@.len(),
                all == views(names@),
                undefok_errors(old(self).view(), all) == undefok_errors(
                    self.view(),
                    all.skip(i as int),
                ),
                self.current@ == old(self).current@,
                self.modified@ == old(self).modified@,
            decreases names@.len() - i,
        {
            assert(all.skip(i as int)[0] == names@[i as int]@);
            assert(all.skip(i as int).drop_first() =~= all.skip(i + 1));
            let name = &names[i];
            let mut no = bytes_of("no");
            push_all(&mut no, name);
            if self.is_undefined(name) {
                self.add_error(copy_bytes(name), Vec::new());
            } else if self.is_undefined(&no) {
                self.add_error(no, Vec::new());
            }
            i = i + 1;
        }
        assert(all.skip(i as int) =~= Seq::<Seq<u8>>::empty());
    }
}

/// [`spec_report`].
fn report(flags: Vec<Flag>, state: State, positional: Vec<Vec<u8>>) -> (r: Outcome)
    requires
        state.wf(flags@.len()),
    ensures
        outcome_is(r, spec_report(flags@, state.view(), views(positional@))),
{
    let mut state = state;
    let undefok = flag_current(&flags, &state.current, "undefok");
    match parse_flag_list(&undefok) {
        Err(m) => Outcome::Exit { code: 1, stdout: Vec::new(), stderr: m },
        Ok(names) => {
            state.apply_undefok(&names);
            let errors = error_bytes(&state.errors);
            if errors.len() > 0 {
                Outcome::Exit { code: 1, stdout: Vec::new(), stderr: errors }
            } else {
                Outcome::Run(
                    Parsed {
                        flags,
                        current: state.current,
                        modified: state.modified,
                        args: positional,
                    },
                )
            }
        },
    }
}

/// `ParseCommandLineFlags(&argc, &argv, true)`: parses `args` (without
/// `argv[0]`), handles the help flags and reports errors; `env` is the
/// environment of `--fromenv` and `--tryfromenv`.
/// gflags' flags and the program's, in order, at their defaults.
fn initial(program: &Program) -> (r: (Vec<Flag>, State))
    ensures
        r.0@ == spec_all_flags(program.flags@),
        r.1.view() == initial_state(r.0@),
        r.1.wf(r.0@.len()),
{
    let mut all = builtin_flags();
    let mut k: usize = 0;
    while k < program.flags.len()
        invariant
            0 <= k <= program.flags@.len(),
            all@ == spec_builtin_flags() + program.flags@.take(k as int),
        decreases program.flags@.len() - k,
    {
        all.push(program.flags[k]);
        assert(spec_builtin_flags() + program.flags@.take(k + 1) =~= (spec_builtin_flags()
            + program.flags@.take(k as int)).push(program.flags@[k as int]));
        k = k + 1;
    }
    assert(program.flags@.take(k as int) =~= program.flags@);
    let flags = sorted_flags(&all);
    let mut current: Vec<Vec<u8>> = Vec::new();
    let mut modified: Vec<bool> = Vec::new();
    let mut j: usize = 0;
    while j < flags.len()
        invariant
            0 <= j <= flags@.len(),
            current@.len() == j,
            modified@.len() == j,
            forall|t: int| 0 <= t < j ==> #[trigger] current@[t]@ == utf8_of(flags@[t].default),
            forall|t: int| 0 <= t < j ==> !#[trigger] modified@[t],
        decreases flags@.len() - j,
    {
        current.push(bytes_of(flags[j].default));
        modified.push(false);
        j = j + 1;
    }
    let state = State { current, modified, errors: Vec::new(), undefined: Vec::new() };
    proof {
        let st0 = initial_state(flags@);
        assert(state.view().current =~= st0.current);
        assert(state.view().modified =~= st0.modified);
        assert(state.view().errors =~= st0.errors);
        assert(views(state.undefined@) =~= Seq::<Seq<u8>>::empty());
        assert(state.view().undefined =~= st0.undefined);
    }
    (flags, state)
}

/// After the flags: the help flags, then the errors.
fn finish(flags: Vec<Flag>, state: State, positional: Vec<Vec<u8>>, argv0: &Vec<u8>, usage: &Vec<u8>) -> (r: Outcome)
    requires
        state.wf(flags@.len()),
    ensures
        outcome_is(
            r,
            match spec_help(
                flags@,
                state.view().current,
                state.view().modified,
                spec_short_name(argv0@),
                usage@,
            ) {
                Some(v) => v,
                None => spec_report(flags@, state.view(), views(positional@)),
            },
        ),
{
    let short = short_name_of(argv0);
    let h = help_outcome(&flags, &state.current, &state.modified, &short, usage);
    match h {
        Some(o) => o,
        None => report(flags, state, positional),
    }
}

/// `ParseCommandLineFlags(&argc, &argv, true)`: parses `args` (without
/// `argv[0]`), handles the help flags and reports errors; `env` is the
/// environment of `--fromenv` and `--tryfromenv`.
pub fn parse(program: &Program, args: &[Vec<u8>], env: &Env) -> (r: Outcome)
    ensures
        outcome_is(
            r,
            spec_parse(program.flags@, program.argv0@, program.usage@, views(args@), env.vars@),
        ),
{
    let (flags, mut state) = initial(program);
    let mut argv = tail(args, 0);
    assert(views(args@).skip(0) =~= views(args@));
    match state.parse_flags(flags.as_slice(), env, &mut argv) {
        Err(e) => Outcome::Exit { code: 1, stdout: Vec::new(), stderr: e },
        Ok(f) => {
            let positional = tail(argv.as_slice(), f);
            finish(flags, state, positional, &program.argv0, &program.usage)
        },
    }
}

} // verus!

verus! {

// ---------------------------------------------------------------------
// The errors are kept by flag name, in order.

/// The flag names of `errors` are strictly increasing.
pub open spec fn keys_increasing(errors: Seq<(Seq<u8>, Seq<u8>)>) -> bool {
    forall|i: int, j: int| 0 <= i < j < errors.len() ==> bytes_lt(#[trigger] errors[i].0, #[trigger] errors[j].0)
}

proof fn lemma_bytes_lt_transitive(a: Seq<u8>, b: Seq<u8>, c: Seq<u8>)
    requires
        bytes_lt(a, b),
        bytes_lt(b, c),
    ensures
        bytes_lt(a, c),
    decreases a.len(),
{
    if a.len() > 0 && b.len() > 0 && c.len() > 0 && a[0] == b[0] && b[0] == c[0] {
        lemma_bytes_lt_transitive(a.drop_first(), b.drop_first(), c.drop_first());
    }
}

proof fn lemma_bytes_lt_total(a: Seq<u8>, b: Seq<u8>)
    ensures
        a == b || bytes_lt(a, b) || bytes_lt(b, a),
    decreases a.len(),
{
    if a.len() > 0 && b.len() > 0 {
        if a[0] == b[0] {
            lemma_bytes_lt_total(a.drop_first(), b.drop_first());
            if a.drop_first() == b.drop_first() {
                assert(a =~= seq![a[0]] + a.drop_first());
                assert(b =~= seq![b[0]] + b.drop_first());
            }
        }
    } else if a.len() == 0 && b.len() == 0 {
        assert(a =~= b);
    }
}

proof fn lemma_map_insert_bound(errors: Seq<(Seq<u8>, Seq<u8>)>, key: Seq<u8>, msg: Seq<u8>, b: Seq<u8>)
    requires
        forall|j: int| 0 <= j < errors.len() ==> bytes_lt(b, #[trigger] errors[j].0),
        bytes_lt(b, key),
    ensures
        forall|j: int|
            0 <= j < map_insert(errors, key, msg).len() ==> bytes_lt(b, #[trigger] map_insert(errors, key, msg)[j].0),
    decreases errors.len(),
{
    let r = map_insert(errors, key, msg);
    if errors.len() > 0 && errors[0].0 != key && !bytes_lt(key, errors[0].0) {
        let rest = errors.drop_first();
        assert forall|j: int| 0 <= j < rest.len() implies bytes_lt(b, #[trigger] rest[j].0) by {
            assert(rest[j] == errors[j + 1]);
        }
        lemma_map_insert_bound(rest, key, msg, b);
        assert forall|j: int| 0 <= j < r.len() implies bytes_lt(b, #[trigger] r[j].0) by {
            if j > 0 {
                assert(r[j] == map_insert(rest, key, msg)[j - 1]);
            }
        }
    } else if errors.len() > 0 {
        assert forall|j: int| 0 <= j < r.len() implies bytes_lt(b, #[trigger] r[j].0) by {
            if j > 0 && errors[0].0 == key {
                assert(r[j] == errors[j]);
            } else if j > 0 {
                assert(r[j] == errors[j - 1]);
            }
        }
    }
}

/// Setting the error of a flag keeps the errors ordered by flag name, one
/// per name.
pub proof fn lemma_map_insert_increasing(errors: Seq<(Seq<u8>, Seq<u8>)>, key: Seq<u8>, msg: Seq<u8>)
    requires
        keys_increasing(errors),
    ensures
        keys_increasing(map_insert(errors, key, msg)),
    decreases errors.len(),
{
    let r = map_insert(errors, key, msg);
    if errors.len() > 0 {
        let rest = errors.drop_first();
        if errors[0].0 == key {
            assert forall|i: int, j: int| 0 <= i < j < r.len() implies bytes_lt(#[trigger] r[i].0, #[trigger] r[j].0) by {
                assert(r[j] == errors[j]);
                if i > 0 {
                    assert(r[i] == errors[i]);
                }
            }
        } else if bytes_lt(key, errors[0].0) {
            assert forall|i: int, j: int| 0 <= i < j < r.len() implies bytes_lt(#[trigger] r[i].0, #[trigger] r[j].0) by {
                assert(r[j] == errors[j - 1]);
                if i > 0 {
                    assert(r[i] == errors[i - 1]);
                } else if j > 1 {
                    lemma_bytes_lt_transitive(key, errors[0].0, errors[j - 1].0);
                }
            }
        } else {
            lemma_bytes_lt_total(key, errors[0].0);
            assert(keys_increasing(rest)) by {
                assert forall|i: int, j: int| 0 <= i < j < rest.len() implies bytes_lt(
                    #[trigger] rest[i].0,
                    #[trigger] rest[j].0,
                ) by {
                    assert(rest[i] == errors[i + 1]);
                    assert(rest[j] == errors[j + 1]);
                }
            }
            assert forall|j: int| 0 <= j < rest.len() implies bytes_lt(errors[0].0, #[trigger] rest[j].0) by {
                assert(rest[j] == errors[j + 1]);
            }
            lemma_map_insert_increasing(rest, key, msg);
            lemma_map_insert_bound(rest, key, msg, errors[0].0);
            let m = map_insert(rest, key, msg);
            assert forall|i: int, j: int| 0 <= i < j < r.len() implies bytes_lt(#[trigger] r[i].0, #[trigger] r[j].0) by {
                assert(r[j] == m[j - 1]);
                if i > 0 {
                    assert(r[i] == m[i - 1]);
                }
            }
        }
    }
}

proof fn lemma_set_increasing(
    flags: Seq<Flag>,
    env: Seq<(String, Vec<u8>)>,
    st: FlagState,
    index: int,
    value: Seq<u8>,
    depth: nat,
)
    requires
        keys_increasing(st.errors),
    ensures
        keys_increasing(spec_set(flags, env, st, index, value, depth).0.errors),
    decreases 8 - depth, 0int, 0int,
{
    let flag = flags[index];
    match spec_parse_value(flag.ty, value) {
        None => {
            lemma_map_insert_increasing(st.errors, utf8_of(flag.name), illegal_value_message(flag, value));
        },
        Some(v) => {
            let st1 = with_value(st, index, v);
            if flag.name@ == "flagfile"@ && value.len() > 0 {
            } else if (flag.name@ == "fromenv"@ || flag.name@ == "tryfromenv"@) && depth < 8 {
                lemma_process_env_increasing(flags, env, st1, value, flag.name@ == "fromenv"@, depth + 1);
            }
        },
    }
}

proof fn lemma_process_env_increasing(
    flags: Seq<Flag>,
    env: Seq<(String, Vec<u8>)>,
    st: FlagState,
    value: Seq<u8>,
    fatal: bool,
    depth: nat,
)
    requires
        keys_increasing(st.errors),
    ensures
        keys_increasing(spec_process_env(flags, env, st, value, fatal, depth).0.errors),
    decreases 8 - depth, 2int, 0int,
{
    match spec_parse_flag_list(value) {
        Err(m) => {},
        Ok(names) => {
            lemma_env_names_increasing(flags, env, st, names, fatal, depth);
        },
    }
}

proof fn lemma_env_names_increasing(
    flags: Seq<Flag>,
    env: Seq<(String, Vec<u8>)>,
    st: FlagState,
    names: Seq<Seq<u8>>,
    fatal: bool,
    depth: nat,
)
    requires
        keys_increasing(st.errors),
    ensures
        keys_increasing(spec_env_names(flags, env, st, names, fatal, depth).0.errors),
    decreases 8 - depth, 1int, names.len(),
{
    if names.len() > 0 {
        let name = names[0];
        let rest = names.drop_first();
        match find_flag(flags, name) {
            None => {
                let msg = utf8_of(ERROR) + utf8_of("unknown command line flag '") + name + utf8_of(
                    "' (via --fromenv or --tryfromenv)\n",
                );
                lemma_map_insert_increasing(st.errors, name, msg);
                lemma_env_names_increasing(
                    flags,
                    env,
                    with_undefined(with_error(st, name, msg), name),
                    rest,
                    fatal,
                    depth,
                );
            },
            Some(index) => match env_lookup(env, "FLAGS_"@ + flags[index].name@) {
                None => {
                    let msg = utf8_of(ERROR) + utf8_of("FLAGS_") + name + utf8_of(" not found in environment\n");
                    lemma_map_insert_increasing(st.errors, name, msg);
                    let st1 = if fatal {
                        with_error(st, name, msg)
                    } else {
                        st
                    };
                    lemma_env_names_increasing(flags, env, st1, rest, fatal, depth);
                },
                Some(ev) => if ev == utf8_of("fromenv") || ev == utf8_of("tryfromenv") {
                    let msg = utf8_of(ERROR) + utf8_of("infinite recursion on environment flag '") + ev
                        + utf8_of("'\n");
                    lemma_map_insert_increasing(st.errors, name, msg);
                    lemma_env_names_increasing(flags, env, with_error(st, name, msg), rest, fatal, depth);
                } else {
                    lemma_set_increasing(flags, env, st, index, ev, depth);
                    let (st1, err) = spec_set(flags, env, st, index, ev, depth);
                    if err is None {
                        lemma_env_names_increasing(flags, env, st1, rest, fatal, depth);
                    }
                },
            },
        }
    }
}

/// The errors of the flag loop from argument `i` on stay ordered.
proof fn lemma_arg_loop_increasing(
    flags: Seq<Flag>,
    env: Seq<(String, Vec<u8>)>,
    st: FlagState,
    argv: Seq<Seq<u8>>,
    first_nonopt: int,
    i: int,
)
    requires
        keys_increasing(st.errors),
    ensures
        spec_arg_loop(flags, env, st, argv, first_nonopt, i) matches ArgLoop::Done(st2, _, _) ==> keys_increasing(
            st2.errors,
        ),
    decreases first_nonopt - i, 1int,
{
    if 0 <= i < first_nonopt && first_nonopt <= argv.len() {
        let arg = argv[i];
        if arg.len() <= 1 || arg[0] != 45 {
            lemma_arg_loop_increasing(flags, env, st, argv.remove(i).push(arg), first_nonopt - 1, i);
        } else {
            let s1 = arg.skip(1);
            let s = if s1.len() > 0 && s1[0] == 45 {
                s1.skip(1)
            } else {
                s1
            };
            if s.len() > 0 {
                let key = split_argument(s).0;
                let value = split_argument(s).1;
                let unknown = utf8_of(ERROR) + utf8_of("unknown command line flag '") + key + utf8_of("'\n");
                match find_flag(flags, key) {
                    Some(index) => {
                        lemma_flag_arg_increasing(flags, env, st, argv, first_nonopt, i, key, value, index);
                    },
                    None => if key.len() >= 2 && key[0] == 110 && key[1] == 111 {
                        match find_flag(flags, key.skip(2)) {
                            None => {
                                lemma_map_insert_increasing(st.errors, key, unknown);
                                lemma_arg_loop_increasing(
                                    flags,
                                    env,
                                    with_error(with_undefined(st, key), key, unknown),
                                    argv,
                                    first_nonopt,
                                    i + 1,
                                );
                            },
                            Some(index) => if flags[index].ty != FlagType::Bool {
                                let msg = utf8_of(ERROR) + utf8_of("boolean value (") + key + utf8_of(
                                    ") specified for ",
                                ) + utf8_of(flag_type_name(flags[index].ty)) + utf8_of(" command line flag\n");
                                lemma_map_insert_increasing(st.errors, key, msg);
                                lemma_arg_loop_increasing(
                                    flags,
                                    env,
                                    with_error(with_undefined(st, key), key, msg),
                                    argv,
                                    first_nonopt,
                                    i + 1,
                                );
                            } else {
                                lemma_flag_arg_increasing(
                                    flags,
                                    env,
                                    st,
                                    argv,
                                    first_nonopt,
                                    i,
                                    key.skip(2),
                                    Some(utf8_of("0")),
                                    index,
                                );
                            },
                        }
                    } else {
                        lemma_map_insert_increasing(st.errors, key, unknown);
                        lemma_arg_loop_increasing(
                            flags,
                            env,
                            with_error(with_undefined(st, key), key, unknown),
                            argv,
                            first_nonopt,
                            i + 1,
                        );
                    },
                }
            }
        }
    }
}

proof fn lemma_flag_arg_increasing(
    flags: Seq<Flag>,
    env: Seq<(String, Vec<u8>)>,
    st: FlagState,
    argv: Seq<Seq<u8>>,
    first_nonopt: int,
    i: int,
    key: Seq<u8>,
    value: Option<Seq<u8>>,
    index: int,
)
    requires
        keys_increasing(st.errors),
    ensures
        spec_flag_arg(flags, env, st, argv, first_nonopt, i, key, value, index) matches ArgLoop::Done(st2, _, _)
            ==> keys_increasing(st2.errors),
    decreases first_nonopt - i, 0int,
{
    if 0 <= i < first_nonopt && first_nonopt <= argv.len() {
        let value1 = if value is None && flags[index].ty == FlagType::Bool {
            Some(utf8_of("1"))
        } else {
            value
        };
        match value1 {
            Some(v) => {
                lemma_set_increasing(flags, env, st, index, v, 0);
                let (st2, e) = spec_set(flags, env, st, index, v, 0);
                if e is None {
                    lemma_arg_loop_increasing(flags, env, st2, argv, first_nonopt, i + 1);
                }
            },
            None => if i + 1 >= first_nonopt {
                lemma_map_insert_increasing(st.errors, key, missing_argument_message(argv[i], flags[index]));
            } else {
                lemma_set_increasing(flags, env, st, index, argv[i + 1], 0);
                let (st2, e) = spec_set(flags, env, st, index, argv[i + 1], 0);
                if e is None {
                    lemma_arg_loop_increasing(flags, env, st2, argv, first_nonopt, i + 2);
                }
            },
        }
    }
}

proof fn lemma_undefok_increasing(st: FlagState, names: Seq<Seq<u8>>)
    requires
        keys_increasing(st.errors),
    ensures
        keys_increasing(undefok_errors(st, names).errors),
    decreases names.len(),
{
    if names.len() > 0 {
        let name = names[0];
        let no = utf8_of("no") + name;
        lemma_map_insert_increasing(st.errors, name, seq![]);
        lemma_map_insert_increasing(st.errors, no, seq![]);
        let st1 = if st.undefined.contains(name) {
            with_error(st, name, seq![])
        } else if st.undefined.contains(no) {
            with_error(st, no, seq![])
        } else {
            st
        };
        lemma_undefok_increasing(st1, names.drop_first());
    }
}

/// gflags collects the errors of a command line per flag name (the last
/// one of each name) and reports them together, sorted by flag name: the
/// errors left after the flag loop and `--undefok` have strictly
/// increasing flag names, and [`spec_report`] prints their messages in
/// that order.
pub proof fn lemma_flag_errors_sorted(
    program_flags: Seq<Flag>,
    env: Seq<(String, Vec<u8>)>,
    args: Seq<Seq<u8>>,
    undefok: Seq<Seq<u8>>,
)
    ensures
        ({
            let flags = spec_all_flags(program_flags);
            spec_arg_loop(flags, env, initial_state(flags), args, args.len() as int, 0) matches ArgLoop::Done(
                st,
                _,
                _,
            ) ==> keys_increasing(undefok_errors(st, undefok).errors)
        }),
{
    let flags = spec_all_flags(program_flags);
    assert(keys_increasing(initial_state(flags).errors));
    lemma_arg_loop_increasing(flags, env, initial_state(flags), args, args.len() as int, 0);
    if let ArgLoop::Done(st, _, _) = spec_arg_loop(flags, env, initial_state(flags), args, args.len() as int, 0) {
        lemma_undefok_increasing(st, undefok);
    }
}

} // verus!

verus! {

/// Setting a flag: its value reads back as the value set last (a
/// repeated flag: the last one wins), and every other flag keeps its
/// value.
pub proof fn lemma_set_then_read(
    flags: Seq<Flag>,
    st: FlagState,
    name: Seq<u8>,
    v: Seq<u8>,
    other: Seq<u8>,
)
    requires
        st.current.len() == flags.len(),
        find_flag(flags, name) is Some,
    ensures
        flag_value(flags, with_value(st, find_flag(flags, name)->0, v).current, name) == v,
        find_flag(flags, other) != find_flag(flags, name) ==> flag_value(
            flags,
            with_value(st, find_flag(flags, name)->0, v).current,
            other,
        ) == flag_value(flags, st.current, other),
{
    lemma_find_flag_bounds(flags, name, 0);
    lemma_find_flag_bounds(flags, other, 0);
}

} // verus!

verus! {

// ---------------------------------------------------------------------
// Arguments that are not flags.

/// `arg` is not a flag: it does not start with `-`, or it is `-`.
pub open spec fn not_a_flag(arg: Seq<u8>) -> bool {
    arg.len() <= 1 || arg[0] != 45
}

/// `argv` rotated left by `k`.
pub open spec fn rotated(argv: Seq<Seq<u8>>, k: int) -> Seq<Seq<u8>> {
    argv.skip(k) + argv.take(k)
}

proof fn lemma_non_flags_rotate(
    flags: Seq<Flag>,
    env: Seq<(String, Vec<u8>)>,
    st: FlagState,
    argv: Seq<Seq<u8>>,
    k: int,
)
    requires
        0 <= k <= argv.len(),
        forall|j: int| 0 <= j < argv.len() ==> not_a_flag(#[trigger] argv[j]),
    ensures
        spec_arg_loop(flags, env, st, rotated(argv, k), argv.len() - k, 0) == ArgLoop::Done(st, argv, 0),
    decreases argv.len() - k,
{
    let r = rotated(argv, k);
    if k == argv.len() {
        assert(r =~= argv);
    } else {
        assert(r[0] == argv[k]);
        assert(not_a_flag(argv[k]));
        assert(r.remove(0).push(r[0]) =~= rotated(argv, k + 1));
        lemma_non_flags_rotate(flags, env, st, argv, k + 1);
    }
}

/// gflags passes on the arguments that are not flags: for a command line
/// of such arguments the flag loop sets no flag and its positional
/// arguments are the command line, in order.
pub proof fn lemma_non_flag_arguments_pass(
    flags: Seq<Flag>,
    env: Seq<(String, Vec<u8>)>,
    st: FlagState,
    args: Seq<Seq<u8>>,
)
    requires
        forall|j: int| 0 <= j < args.len() ==> not_a_flag(#[trigger] args[j]),
    ensures
        spec_arg_loop(flags, env, st, args, args.len() as int, 0) == ArgLoop::Done(st, args, 0),
{
    assert(rotated(args, 0) =~= args);
    lemma_non_flags_rotate(flags, env, st, args, 0);
}

/// `--` ends the flags: after a leading `--`, the flag loop sets no flag
/// and the positional arguments are everything that follows it.
pub proof fn lemma_double_dash_ends_flags(
    flags: Seq<Flag>,
    env: Seq<(String, Vec<u8>)>,
    st: FlagState,
    args: Seq<Seq<u8>>,
)
    requires
        args.len() >= 1,
        args[0] == utf8_of("--"),
    ensures
        spec_arg_loop(flags, env, st, args, args.len() as int, 0) == ArgLoop::Done(st, args, 1),
{
    reveal_strlit("--");
    assert(vstd::utf8::is_ascii_chars("--"@));
    vstd::utf8::is_ascii_chars_encode_utf8("--"@);
    assert(utf8_of("--").len() == 2);
    assert(utf8_of("--")[0] == 45u8);
    assert(utf8_of("--")[1] == 45u8);
    assert(args[0].skip(1).skip(1).len() == 0);
}

/// A command line without flags runs the program with its arguments as
/// the positional arguments and every flag at its default, for a program
/// whose defaults ask for no help output and name no `--undefok` flags.
pub proof fn lemma_parse_non_flags(
    program_flags: Seq<Flag>,
    argv0: Seq<u8>,
    usage: Seq<u8>,
    args: Seq<Seq<u8>>,
    env: Seq<(String, Vec<u8>)>,
)
    requires
        forall|j: int| 0 <= j < args.len() ==> not_a_flag(#[trigger] args[j]),
        ({
            let flags = spec_all_flags(program_flags);
            let st = initial_state(flags);
            &&& spec_help(flags, st.current, st.modified, spec_short_name(argv0), usage) is None
            &&& flag_value(flags, st.current, utf8_of("undefok")).len() == 0
        }),
    ensures
        ({
            let flags = spec_all_flags(program_flags);
            let st = initial_state(flags);
            spec_parse(program_flags, argv0, usage, args, env) == (ParseView::Run {
                flags,
                current: st.current,
                modified: st.modified,
                args,
            })
        }),
{
    let flags = spec_all_flags(program_flags);
    let st = initial_state(flags);
    lemma_non_flag_arguments_pass(flags, env, st, args);
    assert(args.skip(0) =~= args);
    assert(undefok_errors(st, seq![]) == st);
    assert(error_text(st.errors) =~= Seq::<u8>::empty());
}

} // verus!
