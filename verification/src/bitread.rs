//! The `bitread` tool: prjxray's `tools/bitread.cc` (`.bit` to frames,
//! printed as text), and prjuray-tools' `bitread` ([`Flavor::Prjuray`]).
//!
//! ```text
//! bitread --part_file=<part.yaml> [-o out] [-x|-y|-p] [-z] [-C]
//!     [-f frame] [-F first:last] [--aux file] [bitfile]
//! ```
//!
//! This module holds its flags, the frame selection of `-z`, `-f` and
//! `-F`, and the texts it writes: a frame in each output format, the
//! `-p` netpgm image and the `--aux` file, each computed from plain
//! values (the decoded fields of a frame address, the words of the
//! bitstream).

use vstd::prelude::*;

pub mod texts;

use crate::gflags::{
    c_space, digit_of, flag_value, has_hex_prefix, is_space, parse, parse_i32, sign_negative, skip_c_spaces,
    skip_sign, spec_parse, spec_parse_i32, split, split_bytes, to_digit, Flag, FlagType, Outcome, ParseView,
    Program,
};
use crate::xc7frames2bit::{cpp_frame_address, spec_cpp_frame_address, Architecture, Env};
use crate::text::{
    ascii_bytes, decimal_text, pad_left, push_all, push_decimal_bytes, push_radix_padded, push_str_bytes,
    radix_text, utf8_of, views,
};

verus! {

/// Which `bitread` the tool behaves as.
#[derive(Clone, Copy, Debug, PartialEq, Eq, Structural)]
pub enum Flavor {
    /// prjxray's `tools/bitread.cc` (the `bitread` binary).
    Prjxray,
    /// prjuray-tools' `tools/bitread.cc` (the `uray-bitread` binary).
    Prjuray,
}

/// The source file the help lists the flags under.
pub const FILE: &'static str = "tools/bitread.cc";

/// The file the help lists the extension flags under.
pub const EXTENSION_FILE: &'static str = "rust/fasm-cli/src/bitread_extensions.rs";

/// The help of `-x`.
pub const X_HELP: &'static str = "use format 'bit_%%08x_%%03d_%%02d_t%%d_h%%d_r%%d_c%%d_m%%d'\nThe fields have the following meaning:\n  - complete 32 bit hex frame id\n  - word index with that frame (decimal)\n  - bit index with that word (decimal)\n  - decoded frame type from frame id\n  - decoded top/botttom from frame id (top=0)\n  - decoded row address from frame id\n  - decoded column address from frame id\n  - decoded minor address from frame id\n";

/// A flag of `tools/bitread.cc`.
pub open spec fn bitread_flag(name: &'static str, ty: FlagType, default: &'static str, help: &'static str) -> Flag {
    Flag { name, file: FILE, ty, default, help }
}

/// The flags of the `bitread` of `flavor`.
pub open spec fn spec_flags_of(flavor: Flavor) -> Seq<Flag> {
    let first = match flavor {
        Flavor::Prjxray => seq![
            bitread_flag("C", FlagType::Bool, "false", "do not ignore the checksum in each frame"),
        ],
        Flavor::Prjuray => seq![
            bitread_flag("C", FlagType::Bool, "false", "do not ignore the ECC bits in each frame"),
            bitread_flag("E", FlagType::Bool, "false", "Ignore failing frame ECC verification"),
        ],
    };
    first + seq![
        bitread_flag("c", FlagType::Bool, "false", "output '*' for repeating patterns"),
        bitread_flag(
            "f",
            FlagType::Int32,
            "-1",
            "only dump the specified frame (might be used more than once)",
        ),
        bitread_flag(
            "F",
            FlagType::String,
            "",
            "<first_frame_address>:<last_frame_address> only dump frame in the specified range",
        ),
        bitread_flag(
            "o",
            FlagType::String,
            "",
            "write machine-readable output file with config frames",
        ),
        bitread_flag("p", FlagType::Bool, "false", "output a binary netpgm image"),
        bitread_flag("x", FlagType::Bool, "false", X_HELP),
        bitread_flag("y", FlagType::Bool, "false", "use format 'bit_%%08x_%%03d_%%02d'"),
        bitread_flag(
            "z",
            FlagType::Bool,
            "false",
            "skip zero frames (frames with all bits cleared) in o",
        ),
        bitread_flag("part_file", FlagType::String, "", "YAML file describing a Xilinx part"),
        bitread_flag(
            "architecture",
            FlagType::String,
            "Series7",
            "Architecture of the provided bitstream",
        ),
        bitread_flag(
            "aux",
            FlagType::String,
            "",
            "write machine-readable output file with auxiliary bitstream data",
        ),
        Flag {
            name: "frm_out",
            file: EXTENSION_FILE,
            ty: FlagType::String,
            default: "",
            help: "write the frames selected by -z, -f and -F to this file in the .frm format of fasm2frames and xc7frames2bit (the ECC bits are cleared unless -C) [Rust extension]",
        },
    ]
}

/// The flags of `bitread` (and the `--frm_out` extension).
pub fn flags() -> (r: Vec<Flag>)
    ensures
        r@ == spec_flags_of(Flavor::Prjxray),
{
    flags_of(Flavor::Prjxray)
}

/// The flags of the `bitread` of `flavor` (and the `--frm_out`
/// extension): prjuray-tools' has `-E` and another `-C` help text.
pub fn flags_of(flavor: Flavor) -> (r: Vec<Flag>)
    ensures
        r@ == spec_flags_of(flavor),
{
    let mut flags: Vec<Flag> = Vec::new();
    match flavor {
        Flavor::Prjxray => {
            flags.push(
                Flag {
                    name: "C",
                    file: FILE,
                    ty: FlagType::Bool,
                    default: "false",
                    help: "do not ignore the checksum in each frame",
                },
            );
        },
        Flavor::Prjuray => {
            flags.push(
                Flag {
                    name: "C",
                    file: FILE,
                    ty: FlagType::Bool,
                    default: "false",
                    help: "do not ignore the ECC bits in each frame",
                },
            );
            flags.push(
                Flag {
                    name: "E",
                    file: FILE,
                    ty: FlagType::Bool,
                    default: "false",
                    help: "Ignore failing frame ECC verification",
                },
            );
        },
    }
    flags.push(
        Flag {
            name: "c",
            file: FILE,
            ty: FlagType::Bool,
            default: "false",
            help: "output '*' for repeating patterns",
        },
    );
    flags.push(
        Flag {
            name: "f",
            file: FILE,
            ty: FlagType::Int32,
            default: "-1",
            help: "only dump the specified frame (might be used more than once)",
        },
    );
    flags.push(
        Flag {
            name: "F",
            file: FILE,
            ty: FlagType::String,
            default: "",
            help: "<first_frame_address>:<last_frame_address> only dump frame in the specified range",
        },
    );
    flags.push(
        Flag {
            name: "o",
            file: FILE,
            ty: FlagType::String,
            default: "",
            help: "write machine-readable output file with config frames",
        },
    );
    flags.push(
        Flag {
            name: "p",
            file: FILE,
            ty: FlagType::Bool,
            default: "false",
            help: "output a binary netpgm image",
        },
    );
    flags.push(Flag { name: "x", file: FILE, ty: FlagType::Bool, default: "false", help: X_HELP });
    flags.push(
        Flag {
            name: "y",
            file: FILE,
            ty: FlagType::Bool,
            default: "false",
            help: "use format 'bit_%%08x_%%03d_%%02d'",
        },
    );
    flags.push(
        Flag {
            name: "z",
            file: FILE,
            ty: FlagType::Bool,
            default: "false",
            help: "skip zero frames (frames with all bits cleared) in o",
        },
    );
    flags.push(
        Flag {
            name: "part_file",
            file: FILE,
            ty: FlagType::String,
            default: "",
            help: "YAML file describing a Xilinx part",
        },
    );
    flags.push(
        Flag {
            name: "architecture",
            file: FILE,
            ty: FlagType::String,
            default: "Series7",
            help: "Architecture of the provided bitstream",
        },
    );
    flags.push(
        Flag {
            name: "aux",
            file: FILE,
            ty: FlagType::String,
            default: "",
            help: "write machine-readable output file with auxiliary bitstream data",
        },
    );
    flags.push(
        Flag {
            name: "frm_out",
            file: EXTENSION_FILE,
            ty: FlagType::String,
            default: "",
            help: "write the frames selected by -z, -f and -F to this file in the .frm format of fasm2frames and xc7frames2bit (the ECC bits are cleared unless -C) [Rust extension]",
        },
    );
    assert(flags@ =~= spec_flags_of(flavor));
    flags
}


// ---------------------------------------------------------------------
// `strtol(s, nullptr, 0)`.

/// The base `strtol` with base 0 reads a number text (without its sign)
/// in: 16 after `0x`, 8 after a leading `0`, else 10.
pub open spec fn strtol_base(r: Seq<u8>) -> nat {
    if has_hex_prefix(r) {
        16
    } else if r.len() > 0 && r[0] == 48 {
        8
    } else {
        10
    }
}

/// The value of the longest run of digits in `base` at the start of `s`
/// after `v`, saturating at 2^63.
pub open spec fn saturating_digits(s: Seq<u8>, base: nat, v: int) -> int
    decreases s.len(),
{
    if s.len() == 0 {
        v
    } else {
        match digit_of(s[0], base) {
            None => v,
            Some(d) => {
                let next = v * base + d;
                saturating_digits(
                    s.drop_first(),
                    base,
                    if next > 0x8000_0000_0000_0000 {
                        0x8000_0000_0000_0000
                    } else {
                        next
                    },
                )
            },
        }
    }
}

/// C `strtol(s, nullptr, 0)`: leading white space, a sign, a `0x` (hex)
/// or `0` (octal) prefix, the longest run of digits; saturates on
/// overflow; 0 without digits.
pub open spec fn spec_strtol0(s: Seq<u8>) -> i64 {
    let r0 = skip_c_spaces(s);
    let r1 = skip_sign(r0);
    let base = strtol_base(r1);
    let digits = if base == 16 {
        r1.skip(2)
    } else {
        r1
    };
    let value = saturating_digits(digits, base, 0);
    let signed = if sign_negative(r0) {
        -value
    } else {
        value
    };
    if signed > i64::MAX {
        i64::MAX
    } else if signed < i64::MIN {
        i64::MIN
    } else {
        signed as i64
    }
}

proof fn lemma_skip_spaces_prefix(s: Seq<u8>, i: int)
    requires
        0 <= i <= s.len(),
        forall|j: int| 0 <= j < i ==> c_space(s[j]),
        i < s.len() ==> !c_space(s[i]),
    ensures
        skip_c_spaces(s) == s.skip(i),
    decreases i,
{
    if i > 0 {
        assert forall|j: int| 0 <= j < i - 1 implies c_space(s.drop_first()[j]) by {
            assert(s.drop_first()[j] == s[j + 1]);
        }
        lemma_skip_spaces_prefix(s.drop_first(), i - 1);
        assert(s.drop_first().skip(i - 1) =~= s.skip(i));
    } else {
        assert(s.skip(0) =~= s);
    }
}

/// C `strtol(s, nullptr, 0)`.
pub fn strtol0(s: &[u8]) -> (r: i64)
    ensures
        r == spec_strtol0(s@),
{
    let n = s.len();
    let mut i: usize = 0;
    while i < n && is_space(s[i])
        invariant
            0 <= i <= n == s@.len(),
            forall|j: int| 0 <= j < i ==> c_space(s@[j]),
        decreases n - i,
    {
        i = i + 1;
    }
    proof {
        lemma_skip_spaces_prefix(s@, i as int);
    }
    let ghost r0 = s@.skip(i as int);
    let mut negative = false;
    if i < n && (s[i] == 43 || s[i] == 45) {
        negative = s[i] == 45;
        i = i + 1;
    }
    let ghost r1 = s@.skip(i as int);
    assert(r1 =~= skip_sign(r0));
    assert(negative == sign_negative(r0));
    let base: u32 = if n - i >= 3 && s[i] == 48 && (s[i + 1] == 120 || s[i + 1] == 88) && to_digit(
        s[i + 2],
        16,
    ).is_some() {
        i = i + 2;
        16
    } else if i < n && s[i] == 48 {
        8
    } else {
        10
    };
    assert(base == strtol_base(r1));
    let ghost digits = s@.skip(i as int);
    assert(base == 16 ==> digits =~= r1.skip(2));
    assert(base != 16 ==> digits =~= r1);
    let mut value: i128 = 0;
    let mut k = i;
    let mut stop = false;
    assert(s@.skip(k as int) =~= digits);
    while k < n && !stop
        invariant
            i <= k <= n == s@.len(),
            2 <= base <= 16,
            0 <= value <= 0x8000_0000_0000_0000,
            stop ==> k < n && digit_of(s@[k as int], base as nat) is None,
            saturating_digits(digits, base as nat, 0) == saturating_digits(
                s@.skip(k as int),
                base as nat,
                value as int,
            ),
        decreases n - k + (if stop {
            0int
        } else {
            1int
        }),
    {
        assert(s@.skip(k as int)[0] == s@[k as int]);
        assert(s@.skip(k as int).drop_first() =~= s@.skip(k + 1));
        match to_digit(s[k], base) {
            Some(d) => {
                assert(d < base);
                assert(value * (base as i128) <= 0x8000_0000_0000_0000 * 16) by (nonlinear_arith)
                    requires
                        0 <= value <= 0x8000_0000_0000_0000,
                        base <= 16,
                ;
                let next = value * (base as i128) + (d as i128);
                value = if next > 0x8000_0000_0000_0000 {
                    0x8000_0000_0000_0000
                } else {
                    next
                };
                k = k + 1;
            },
            None => {
                stop = true;
            },
        }
    }
    if k == n {
        assert(s@.skip(k as int) =~= Seq::<u8>::empty());
    }
    let signed: i128 = if negative {
        -value
    } else {
        value
    };
    if signed > i64::MAX as i128 {
        i64::MAX
    } else if signed < i64::MIN as i128 {
        i64::MIN
    } else {
        signed as i64
    }
}

// ---------------------------------------------------------------------
// Frame selection.

/// The frame selection of `-z`, `-f` and `-F`.
#[derive(Clone, Copy, Debug, PartialEq, Eq)]
pub struct Selection {
    /// `-z`: skip frames whose words are all 0.
    pub skip_zero: bool,
    /// `-f`: only this frame.
    pub frame: Option<u32>,
    /// `-F`: the range `[begin, end)` (everything if `begin == end`).
    pub range: (u32, u32),
}

/// Every word of `words` is 0.
pub open spec fn all_zero(words: Seq<u32>) -> bool {
    forall|i: int| 0 <= i < words.len() ==> words[i] == 0
}

impl Selection {
    /// Whether the frame at `address` with `words` is printed: `-z` skips
    /// a frame of `words_per_frame` zero words, `-f` keeps only its frame,
    /// `-F` only the frames in its range.
    pub fn selects(&self, address: u32, words: &[u32], words_per_frame: usize) -> (r: bool)
        ensures
            r == !((self.skip_zero && words@.len() == words_per_frame && all_zero(words@)) || (
            self.frame matches Some(f) && f != address) || (self.range.0 != self.range.1 && (
            address < self.range.0 || self.range.1 <= address))),
    {
        if self.skip_zero && words.len() == words_per_frame {
            let mut i: usize = 0;
            let mut zero = true;
            while i < words.len()
                invariant
                    0 <= i <= words@.len(),
                    zero == all_zero(words@.take(i as int)),
                decreases words@.len() - i,
            {
                assert(words@.take(i + 1) =~= words@.take(i as int).push(words@[i as int]));
                assert(all_zero(words@.take(i + 1)) == (all_zero(words@.take(i as int)) && words@[i as int]
                    == 0)) by {
                    if all_zero(words@.take(i + 1)) {
                        assert(words@.take(i + 1)[i as int] == words@[i as int]);
                        assert forall|j: int| 0 <= j < i implies words@.take(i as int)[j] == 0 by {
                            assert(words@.take(i + 1)[j] == words@[j]);
                        }
                    }
                }
                if words[i] != 0 {
                    zero = false;
                }
                i = i + 1;
            }
            assert(words@.take(i as int) =~= words@);
            if zero {
                return false;
            }
        }
        if let Some(f) = self.frame {
            if f != address {
                return false;
            }
        }
        let (begin, end) = self.range;
        !(begin != end && (address < begin || end <= address))
    }
}

// ---------------------------------------------------------------------
// Frame texts.

/// `value` as `%0<width>d`.
pub open spec fn padded_decimal(value: nat, width: nat) -> Seq<u8> {
    ascii_bytes(pad_left(radix_text(value, 10, false), width, '0'))
}

/// `value` as `%08x`.
pub open spec fn hex8(value: u32) -> Seq<u8> {
    ascii_bytes(pad_left(radix_text(value as nat, 16, false), 8, '0'))
}

/// `value` as `%d`.
pub open spec fn dec(value: u32) -> Seq<u8> {
    ascii_bytes(decimal_text(value as int))
}

fn push_chars_ascii(out: &mut Vec<u8>, chars: &Vec<char>)
    ensures
        final(out)@ == old(out)@ + ascii_bytes(chars@),
{
    let ghost start = out@;
    let mut i: usize = 0;
    while i < chars.len()
        invariant
            0 <= i <= chars@.len(),
            out@ == start + ascii_bytes(chars@.take(i as int)),
        decreases chars@.len() - i,
    {
        out.push(chars[i] as u8);
        assert(ascii_bytes(chars@.take(i + 1)) =~= ascii_bytes(chars@.take(i as int)).push(
            chars@[i as int] as u8,
        ));
        i = i + 1;
    }
    assert(chars@.take(i as int) =~= chars@);
}

/// Appends `value` as `%0<width>d`.
pub fn push_decimal(f: &mut Vec<u8>, value: usize, width: usize)
    ensures
        final(f)@ == old(f)@ + padded_decimal(value as nat, width as nat),
{
    let mut chars: Vec<char> = Vec::new();
    push_radix_padded(&mut chars, value as u64, 10, false, width, '0');
    push_chars_ascii(f, &chars);
}

/// Appends `value` as `%08x`.
fn push_hex8(f: &mut Vec<u8>, value: u32)
    ensures
        final(f)@ == old(f)@ + hex8(value),
{
    let mut chars: Vec<char> = Vec::new();
    push_radix_padded(&mut chars, value as u64, 16, false, 8, '0');
    push_chars_ascii(f, &chars);
}

/// Appends `value` as `%d`.
fn push_dec(f: &mut Vec<u8>, value: u32)
    ensures
        final(f)@ == old(f)@ + dec(value),
{
    push_decimal_bytes(f, value as i64);
}

/// The fields of a frame address, decoded for its architecture (the C++
/// `row()` includes the half bit for UltraScale(+)).
#[derive(Clone, Copy, Debug, PartialEq, Eq)]
pub struct FrameFields {
    /// The block type.
    pub block_type: u32,
    /// 1 for the bottom half, else 0.
    pub bottom: u32,
    /// The row.
    pub row: u32,
    /// The column.
    pub column: u32,
    /// The minor address.
    pub minor: u32,
}

/// How [`format_frame`] prints a frame.
#[derive(Clone, Debug, PartialEq, Eq)]
pub struct FrameFormat {
    /// The frames go to stdout (else to the `-o` file).
    pub to_stdout: bool,
    /// The ECC bits of each word that `-x`/`-y` leave out (none with
    /// `-C`): bit `b` of `ecc_masks[i]` is an ECC bit of word `i`.
    pub ecc_masks: Option<Vec<u32>>,
    /// The hex dump clears the Series7 ECC bits of word 50.
    pub hex_mask_word_50: bool,
    /// `-x`.
    pub x: bool,
    /// `-y`.
    pub y: bool,
    /// `-p`.
    pub p: bool,
}

/// The ECC mask of word `i` (0 beyond the masks).
pub open spec fn mask_of(masks: Option<Vec<u32>>, i: int) -> u32 {
    match masks {
        Some(m) => if 0 <= i < m@.len() {
            m@[i]
        } else {
            0
        },
        None => 0,
    }
}

/// The `-x`/`-y` lines of the set bits of word `i` from bit `k` on.
pub open spec fn bit_lines(bits: u32, i: nat, k: nat, prefix: Seq<u8>, suffix: Seq<u8>) -> Seq<u8>
    decreases 32 - k,
{
    if k >= 32 {
        seq![]
    } else {
        (if (bits >> (k as u32)) & 1u32 == 1u32 {
            prefix + padded_decimal(i, 3) + seq![95u8] + padded_decimal(k, 2) + suffix
        } else {
            seq![]
        }) + bit_lines(bits, i, k + 1, prefix, suffix)
    }
}

/// The `-x`/`-y` lines of words `i..` of a frame.
pub open spec fn word_lines(
    words: Seq<u32>,
    masks: Option<Vec<u32>>,
    i: nat,
    prefix: Seq<u8>,
    suffix: Seq<u8>,
) -> Seq<u8>
    decreases words.len() - i,
{
    if i >= words.len() {
        seq![]
    } else {
        bit_lines(words[i as int] & !mask_of(masks, i as int), i, 0, prefix, suffix) + word_lines(
            words,
            masks,
            i + 1,
            prefix,
            suffix,
        )
    }
}

/// The hex dump of words `i..` of a frame, six per line.
pub open spec fn hex_words(words: Seq<u32>, i: nat, mask50: bool) -> Seq<u8>
    decreases words.len() - i,
{
    if i >= words.len() {
        seq![]
    } else {
        let w = words[i as int];
        let value = if i == 50 && mask50 {
            w & 0xFFFF_E000u32
        } else {
            w
        };
        hex8(value) + (if i % 6 == 5 {
            seq![10u8]
        } else {
            seq![32u8]
        }) + hex_words(words, i + 1, mask50)
    }
}

/// The text of one frame (everything but the `-p` image).
pub open spec fn spec_format_frame(address: u32, words: Seq<u32>, fields: FrameFields, format: FrameFormat) -> Seq<
    u8,
> {
    let head = if format.to_stdout {
        frame_head(address, fields)
    } else {
        seq![]
    };
    if format.p {
        head
    } else if format.x || format.y {
        let prefix = utf8_of("bit_") + hex8(address) + utf8_of("_");
        let suffix = if format.x {
            x_suffix(fields)
        } else {
            utf8_of("\n")
        };
        head + word_lines(words, format.ecc_masks, 0, prefix, suffix) + (if format.to_stdout {
            seq![10u8]
        } else {
            seq![]
        })
    } else {
        head + (if !format.to_stdout {
            utf8_of(".frame 0x") + hex8(address) + utf8_of("\n")
        } else {
            seq![]
        }) + hex_words(words, 0, format.hex_mask_word_50) + utf8_of("\n\n")
    }
}

/// The heading line of a frame on stdout.
pub open spec fn frame_head(address: u32, fields: FrameFields) -> Seq<u8> {
    utf8_of("Frame 0x") + hex8(address) + utf8_of(" (Type=") + dec(fields.block_type) + utf8_of(" Top=")
        + dec(fields.bottom) + utf8_of(" Row=") + dec(fields.row) + utf8_of(" Column=") + dec(
        fields.column,
    ) + utf8_of(" Minor=") + dec(fields.minor) + utf8_of("):\n")
}

/// The suffix of the `-x` lines.
pub open spec fn x_suffix(fields: FrameFields) -> Seq<u8> {
    utf8_of("_t") + dec(fields.block_type) + utf8_of("_h") + dec(fields.bottom) + utf8_of("_r") + dec(
        fields.row,
    ) + utf8_of("_c") + dec(fields.column) + utf8_of("_m") + dec(fields.minor) + utf8_of("\n")
}

fn push_frame_head(f: &mut Vec<u8>, address: u32, fields: &FrameFields)
    ensures
        final(f)@ == old(f)@ + frame_head(address, *fields),
{
    let ghost start = f@;
    push_str_bytes(f, "Frame 0x");
    push_hex8(f, address);
    push_str_bytes(f, " (Type=");
    push_dec(f, fields.block_type);
    push_str_bytes(f, " Top=");
    push_dec(f, fields.bottom);
    push_str_bytes(f, " Row=");
    push_dec(f, fields.row);
    push_str_bytes(f, " Column=");
    push_dec(f, fields.column);
    push_str_bytes(f, " Minor=");
    push_dec(f, fields.minor);
    push_str_bytes(f, "):\n");
    assert(f@ =~= start + frame_head(address, *fields));
}

fn push_x_suffix(f: &mut Vec<u8>, fields: &FrameFields)
    ensures
        final(f)@ == old(f)@ + x_suffix(*fields),
{
    let ghost start = f@;
    push_str_bytes(f, "_t");
    push_dec(f, fields.block_type);
    push_str_bytes(f, "_h");
    push_dec(f, fields.bottom);
    push_str_bytes(f, "_r");
    push_dec(f, fields.row);
    push_str_bytes(f, "_c");
    push_dec(f, fields.column);
    push_str_bytes(f, "_m");
    push_dec(f, fields.minor);
    push_str_bytes(f, "\n");
    assert(f@ =~= start + x_suffix(*fields));
}

fn push_bit_lines(f: &mut Vec<u8>, bits: u32, i: usize, prefix: &Vec<u8>, suffix: &Vec<u8>)
    ensures
        final(f)@ == old(f)@ + bit_lines(bits, i as nat, 0, prefix@, suffix@),
{
    let ghost before = f@;
    let mut k: u32 = 0;
    while k < 32
        invariant
            0 <= k <= 32,
            before + bit_lines(bits, i as nat, 0, prefix@, suffix@) == f@ + bit_lines(
                bits,
                i as nat,
                k as nat,
                prefix@,
                suffix@,
            ),
        decreases 32 - k,
    {
        let ghost b = f@;
        if (bits >> k) & 1u32 == 1u32 {
            push_all(f, prefix);
            push_decimal(f, i, 3);
            f.push(95u8);
            push_decimal(f, k as usize, 2);
            push_all(f, suffix);
        }
        assert(b + bit_lines(bits, i as nat, k as nat, prefix@, suffix@) =~= f@ + bit_lines(
            bits,
            i as nat,
            (k + 1) as nat,
            prefix@,
            suffix@,
        ));
        k = k + 1;
    }
    assert(f@ + bit_lines(bits, i as nat, 32, prefix@, suffix@) =~= f@);
}

fn push_word_lines(f: &mut Vec<u8>, words: &[u32], masks: &Option<Vec<u32>>, prefix: &Vec<u8>, suffix: &Vec<u8>)
    ensures
        final(f)@ == old(f)@ + word_lines(words@, *masks, 0, prefix@, suffix@),
{
    let ghost head = f@;
    let mut i: usize = 0;
    while i < words.len()
        invariant
            0 <= i <= words@.len(),
            head + word_lines(words@, *masks, 0, prefix@, suffix@) == f@ + word_lines(
                words@,
                *masks,
                i as nat,
                prefix@,
                suffix@,
            ),
        decreases words@.len() - i,
    {
        let mask: u32 = match masks {
            Some(m) => if i < m.len() {
                m[i]
            } else {
                0
            },
            None => 0,
        };
        assert(mask == mask_of(*masks, i as int));
        let bits = words[i] & !mask;
        let ghost before = f@;
        push_bit_lines(f, bits, i, prefix, suffix);
        assert(before + (bit_lines(bits, i as nat, 0, prefix@, suffix@) + word_lines(
            words@,
            *masks,
            (i + 1) as nat,
            prefix@,
            suffix@,
        )) =~= f@ + word_lines(words@, *masks, (i + 1) as nat, prefix@, suffix@));
        i = i + 1;
    }
    assert(f@ + word_lines(words@, *masks, i as nat, prefix@, suffix@) =~= f@);
}

fn push_hex_words(f: &mut Vec<u8>, words: &[u32], mask50: bool)
    ensures
        final(f)@ == old(f)@ + hex_words(words@, 0, mask50),
{
    let ghost mid = f@;
    let mut i: usize = 0;
    while i < words.len()
        invariant
            0 <= i <= words@.len(),
            mid + hex_words(words@, 0, mask50) == f@ + hex_words(words@, i as nat, mask50),
        decreases words@.len() - i,
    {
        let w = words[i];
        let value = if i == 50 && mask50 {
            w & 0xFFFF_E000u32
        } else {
            w
        };
        let ghost b = f@;
        push_hex8(f, value);
        if i % 6 == 5 {
            f.push(10u8);
        } else {
            f.push(32u8);
        }
        assert(b + hex_words(words@, i as nat, mask50) =~= f@ + hex_words(words@, (i + 1) as nat, mask50));
        i = i + 1;
    }
    assert(f@ + hex_words(words@, i as nat, mask50) =~= f@);
}

/// Appends the text of one frame (everything but the `-p` image).
pub fn format_frame(f: &mut Vec<u8>, address: u32, words: &[u32], fields: &FrameFields, format: &FrameFormat)
    ensures
        final(f)@ == old(f)@ + spec_format_frame(address, words@, *fields, *format),
{
    let ghost start = f@;
    if format.to_stdout {
        push_frame_head(f, address, fields);
    }
    if format.p {
        assert(f@ =~= start + spec_format_frame(address, words@, *fields, *format));
        return;
    }
    if format.x || format.y {
        let mut prefix: Vec<u8> = Vec::new();
        push_str_bytes(&mut prefix, "bit_");
        push_hex8(&mut prefix, address);
        push_str_bytes(&mut prefix, "_");
        let mut suffix: Vec<u8> = Vec::new();
        if format.x {
            push_x_suffix(&mut suffix, fields);
        } else {
            push_str_bytes(&mut suffix, "\n");
        }
        assert(suffix@ =~= (if format.x {
            x_suffix(*fields)
        } else {
            utf8_of("\n")
        }));
        push_word_lines(f, words, &format.ecc_masks, &prefix, &suffix);
        if format.to_stdout {
            f.push(10u8);
        }
        assert(f@ =~= start + spec_format_frame(address, words@, *fields, *format));
    } else {
        if !format.to_stdout {
            push_str_bytes(f, ".frame 0x");
            push_hex8(f, address);
            push_str_bytes(f, "\n");
        }
        push_hex_words(f, words, format.hex_mask_word_50);
        push_str_bytes(f, "\n\n");
        assert(f@ =~= start + spec_format_frame(address, words@, *fields, *format));
    }
}


// ---------------------------------------------------------------------
// `-f` and `-F`.

/// `v + 1`, wrapping.
pub open spec fn wrapping_inc(v: i64) -> i64 {
    if v == i64::MAX {
        i64::MIN
    } else {
        (v + 1) as i64
    }
}

/// The range of `-F first:last`: `[first, last + 1)` read with `strtol`
/// base 0 and truncated to 32 bits, `(0, 0)` (everything) without `-F`.
pub open spec fn spec_frame_range(spec: Seq<u8>) -> (u32, u32) {
    if spec.len() == 0 {
        (0, 0)
    } else {
        let pieces = split_bytes(spec, 58);
        let second = if pieces.len() > 1 {
            pieces[1]
        } else {
            seq![]
        };
        (spec_strtol0(pieces[0]) as u32, wrapping_inc(spec_strtol0(second)) as u32)
    }
}

proof fn lemma_split_not_empty(s: Seq<u8>, sep: u8)
    ensures
        split_bytes(s, sep).len() >= 1,
    decreases s.len(),
{
    if s.len() > 0 {
        lemma_split_not_empty(s.drop_last(), sep);
    }
}

/// The selection of `-z`, `-f` (a negative frame selects every frame) and
/// `-F`.
pub fn selection_of(skip_zero: bool, f: i32, range_spec: &[u8]) -> (r: Selection)
    ensures
        r.skip_zero == skip_zero,
        r.frame == (if f >= 0 {
            Some(f as u32)
        } else {
            None
        }),
        r.range == spec_frame_range(range_spec@),
{
    let frame = if f >= 0 {
        Some(f as u32)
    } else {
        None
    };
    let range = if range_spec.len() == 0 {
        (0u32, 0u32)
    } else {
        let pieces = split(range_spec, 58);
        proof {
            lemma_split_not_empty(range_spec@, 58);
        }
        let first = strtol0(&pieces[0]);
        let second = if pieces.len() > 1 {
            strtol0(&pieces[1])
        } else {
            let empty: Vec<u8> = Vec::new();
            assert(empty@ =~= Seq::<u8>::empty());
            strtol0(&empty)
        };
        assert(views(pieces@)[0] == pieces@[0]@);
        assert(pieces@.len() > 1 ==> views(pieces@)[1] == pieces@[1]@);
        let last = if second == i64::MAX {
            i64::MIN
        } else {
            second + 1
        };
        (first as u32, last as u32)
    };
    Selection { skip_zero, frame, range }
}

// ---------------------------------------------------------------------
// The `-p` image.

/// Pixel `bit` of frame `frame`: 15 if the bit is set, else 0 (bit `k` of
/// word `i` is pixel `32 * i + k`).
pub open spec fn pixel(data: Seq<Seq<u32>>, frame: int, bit: int) -> u8 {
    if 0 <= frame < data.len() && bit >= 0 && bit / 32 < data[frame].len() && (data[frame][bit / 32]
        >> ((bit % 32) as u32)) & 1u32 == 1u32 {
        15
    } else {
        0
    }
}

/// The rest of a row of the image from column `x`, frame `frame` and
/// separator `si`: an 8 before each frame where a column of frames
/// starts.
pub open spec fn pgm_row(
    data: Seq<Seq<u32>>,
    sep: Seq<usize>,
    width: nat,
    bit: int,
    x: nat,
    frame: nat,
    si: nat,
) -> Seq<u8>
    decreases width + 1 - x,
{
    if x >= width {
        seq![]
    } else if si < sep.len() && frame == sep[si as int] {
        seq![8u8, pixel(data, frame as int, bit)] + pgm_row(data, sep, width, bit, x + 2, frame + 1, si + 1)
    } else {
        seq![pixel(data, frame as int, bit)] + pgm_row(data, sep, width, bit, x + 1, frame + 1, si)
    }
}

/// The rows of the image from line `y` on (`bit` is the pixel index of
/// the line), with a separator line after each word.
pub open spec fn pgm_rows(data: Seq<Seq<u32>>, sep: Seq<usize>, width: nat, height: nat, y: nat, bit: int) -> Seq<
    u8,
>
    decreases height + 1 - y,
{
    if y >= height {
        seq![]
    } else {
        let extra = bit % 32 == 0 && y != 0;
        pgm_row(data, sep, width, bit, 0, 0, 0) + (if extra {
            Seq::new(width, |i: int| 8u8)
        } else {
            seq![]
        }) + pgm_rows(
            data,
            sep,
            width,
            height,
            y + if extra {
                2nat
            } else {
                1nat
            },
            bit - 1,
        )
    }
}

/// The `-p` netpgm image of the frames `data` (`sep` holds the indices
/// where a column starts) with `wpf` words per frame.
pub open spec fn spec_pgm_image(data: Seq<Seq<u32>>, sep: Seq<usize>, wpf: nat) -> Seq<u8> {
    let width = data.len() + sep.len();
    let height = wpf * 32;
    utf8_of("P5 ") + padded_decimal(width, 0) + utf8_of(" ") + padded_decimal(height, 0) + utf8_of(
        " 15\n",
    ) + pgm_rows(data, sep, width, height, 0, height - 1)
}

/// The frames' words.
pub open spec fn word_views(v: Seq<Vec<u32>>) -> Seq<Seq<u32>> {
    v.map_values(|w: Vec<u32>| w@)
}

/// The `-p` netpgm image written row by row.
pub fn pgm_image(pgmdata: &Vec<Vec<u32>>, pgmsep: &Vec<usize>, wpf: usize) -> (r: Vec<u8>)
    requires
        pgmdata@.len() + pgmsep@.len() + 2 <= usize::MAX,
        wpf * 32 <= isize::MAX,
    ensures
        r@ == spec_pgm_image(word_views(pgmdata@), pgmsep@, wpf as nat),
{
    let ghost data = word_views(pgmdata@);
    let width = pgmdata.len() + pgmsep.len();
    let height = wpf * 32;
    let mut f: Vec<u8> = Vec::new();
    push_str_bytes(&mut f, "P5 ");
    push_decimal(&mut f, width, 0);
    push_str_bytes(&mut f, " ");
    push_decimal(&mut f, height, 0);
    push_str_bytes(&mut f, " 15\n");
    let ghost head = f@;
    let mut y: usize = 0;
    let mut bit: i64 = (height as i64) - 1;
    while y < height
        invariant
            0 <= y <= height + 1,
            height == wpf * 32,
            height <= i64::MAX,
            height <= isize::MAX,
            width == pgmdata@.len() + pgmsep@.len(),
            data == word_views(pgmdata@),
            bit + y >= height - 1,
            bit <= height - 1,
            width + 2 <= usize::MAX,
            head + pgm_rows(data, pgmsep@, width as nat, height as nat, 0, height - 1) == f@ + pgm_rows(
                data,
                pgmsep@,
                width as nat,
                height as nat,
                y as nat,
                bit as int,
            ),
        decreases height + 1 - y,
    {
        let ghost before = f@;
        let mut x: usize = 0;
        let mut frame: usize = 0;
        let mut si: usize = 0;
        while x < width
            invariant
                0 <= x <= width + 1,
                width + 2 <= usize::MAX,
                bit <= height - 1,
                height <= isize::MAX,
                frame <= x,
                si <= pgmsep@.len(),
                width == pgmdata@.len() + pgmsep@.len(),
                data == word_views(pgmdata@),
                before + pgm_row(data, pgmsep@, width as nat, bit as int, 0, 0, 0) == f@ + pgm_row(
                    data,
                    pgmsep@,
                    width as nat,
                    bit as int,
                    x as nat,
                    frame as nat,
                    si as nat,
                ),
            decreases width + 1 - x,
        {
            let ghost b = f@;
            let sep_here = si < pgmsep.len() && frame == pgmsep[si];
            if sep_here {
                f.push(8u8);
            }
            let mut px: u8 = 0;
            if frame < pgmdata.len() {
                assert(data[frame as int] == pgmdata@[frame as int]@);
            }
            if frame < pgmdata.len() && bit >= 0 {
                let b64 = bit as u64;
                let word_index = (b64 / 32) as usize;
                let k = (b64 % 32) as u32;
                if word_index < pgmdata[frame].len() {
                    let w = pgmdata[frame][word_index];
                    assert(data[frame as int] == pgmdata@[frame as int]@);
                    if (w >> k) & 1u32 == 1u32 {
                        px = 15;
                    }
                }
            }
            assert(px == pixel(data, frame as int, bit as int));
            f.push(px);
            if sep_here {
                assert(f@ =~= b + seq![8u8, pixel(data, frame as int, bit as int)]);
                x = x + 2;
                si = si + 1;
            } else {
                assert(f@ =~= b + seq![pixel(data, frame as int, bit as int)]);
                x = x + 1;
            }
            frame = frame + 1;
        }
        assert(f@ + pgm_row(data, pgmsep@, width as nat, bit as int, x as nat, frame as nat, si as nat) =~= f@);
        let extra = bit % 32 == 0 && y != 0;
        assert(extra == ((bit as int) % 32 == 0 && y != 0));
        if extra {
            let mut t: usize = 0;
            let ghost r0 = f@;
            while t < width
                invariant
                    0 <= t <= width,
                    f@ == r0 + Seq::new(t as nat, |i: int| 8u8),
                decreases width - t,
            {
                f.push(8u8);
                assert(f@ =~= r0 + Seq::new((t + 1) as nat, |i: int| 8u8));
                t = t + 1;
            }
            y = y + 1;
        }
        y = y + 1;
        bit = bit - 1;
    }
    f
}

// ---------------------------------------------------------------------
// The `--aux` file.

/// `v` as `%02X`.
pub open spec fn hex2_upper(v: u8) -> Seq<u8> {
    ascii_bytes(pad_left(radix_text(v as nat, 16, true), 2, '0'))
}

/// `v` as `%08X`.
pub open spec fn hex8_upper(v: u32) -> Seq<u8> {
    ascii_bytes(pad_left(radix_text(v as nat, 16, true), 8, '0'))
}

/// The index of the first `[AA 99 55 66]` (the sync word) in `bytes`.
pub open spec fn sync_index(bytes: Seq<u8>, i: int) -> Option<int>
    decreases bytes.len() - i,
{
    if i < 0 || i + 4 > bytes.len() {
        None
    } else if bytes[i] == 0xAA && bytes[i + 1] == 0x99 && bytes[i + 2] == 0x55 && bytes[i + 3] == 0x66 {
        Some(i)
    } else {
        sync_index(bytes, i + 1)
    }
}

/// The index of the first pair `[a, b]` in `words` from `i` on.
pub open spec fn first_pair(words: Seq<u32>, a: u32, b: u32, i: int) -> Option<int>
    decreases words.len() - i,
{
    if i < 0 || i + 2 > words.len() {
        None
    } else if words[i] == a && words[i + 1] == b {
        Some(i)
    } else {
        first_pair(words, a, b, i + 1)
    }
}

/// The index of the last pair `[a, b]` in `words` starting below `n`.
pub open spec fn last_pair(words: Seq<u32>, a: u32, b: u32, n: int) -> Option<int>
    decreases n,
{
    if n <= 0 {
        None
    } else if n + 1 <= words.len() && words[n - 1] == a && words[n] == b {
        Some(n - 1)
    } else {
        last_pair(words, a, b, n - 1)
    }
}

/// The items, each preceded by a space.
pub open spec fn items_leading(items: Seq<Seq<u8>>) -> Seq<u8>
    decreases items.len(),
{
    if items.len() == 0 {
        seq![]
    } else {
        seq![32u8] + items[0] + items_leading(items.drop_first())
    }
}

/// The items, each followed by a space.
pub open spec fn items_trailing(items: Seq<Seq<u8>>) -> Seq<u8>
    decreases items.len(),
{
    if items.len() == 0 {
        seq![]
    } else {
        items[0] + seq![32u8] + items_trailing(items.drop_first())
    }
}

/// A line of the `--aux` file.
pub open spec fn aux_line(label: Seq<u8>, items: Seq<Seq<u8>>, trailing_spaces: bool) -> Seq<u8> {
    label + (if trailing_spaces {
        seq![32u8] + items_trailing(items)
    } else {
        items_leading(items)
    }) + seq![10u8]
}

/// The frame addresses, `%08X` each, separated by spaces, with a newline
/// after the last.
pub open spec fn address_list(addresses: Seq<u32>, i: nat) -> Seq<u8>
    decreases addresses.len() - i,
{
    if i >= addresses.len() {
        seq![]
    } else {
        hex8_upper(addresses[i as int]) + (if i + 1 == addresses.len() {
            seq![10u8]
        } else {
            seq![32u8]
        }) + address_list(addresses, i + 1)
    }
}

/// The `--aux` file (`PrintHeader`, `PrintFpgaConfigurationLogicData`,
/// `PrintFrameAddresses`) of the bitstream `bytes` with the configuration
/// words `words` and the frames at `addresses`; prjuray-tools' leaves a
/// space after each item when the file cannot seek (`trailing_spaces`).
pub open spec fn spec_aux_text(bytes: Seq<u8>, words: Seq<u32>, addresses: Seq<u32>, trailing_spaces: bool) -> Seq<
    u8,
> {
    let header = match sync_index(bytes, 0) {
        Some(sync) => aux_line(
            utf8_of("Header bytes:"),
            bytes.take(sync + 4).map_values(|b: u8| hex2_upper(b)),
            trailing_spaces,
        ),
        None => seq![],
    };
    let wcfg = match first_pair(words, 0x3000_8001, 1, 0) {
        Some(i) => i,
        None => words.len() as int,
    };
    let null = match last_pair(words, 0x3000_8001, 0, words.len() as int - 1) {
        Some(i) => i,
        None => words.len() as int,
    };
    header + aux_line(
        utf8_of("FPGA configuration logic prefix:"),
        words.take(wcfg).map_values(|w: u32| hex8_upper(w)),
        trailing_spaces,
    ) + aux_line(
        utf8_of("FPGA configuration logic suffix:"),
        words.skip(null).map_values(|w: u32| hex8_upper(w)),
        trailing_spaces,
    ) + utf8_of("Frame addresses in bitstream: ") + address_list(addresses, 0)
}


fn push_hex2_upper(f: &mut Vec<u8>, v: u8)
    ensures
        final(f)@ == old(f)@ + hex2_upper(v),
{
    let mut chars: Vec<char> = Vec::new();
    push_radix_padded(&mut chars, v as u64, 16, true, 2, '0');
    push_chars_ascii(f, &chars);
}

fn push_hex8_upper(f: &mut Vec<u8>, v: u32)
    ensures
        final(f)@ == old(f)@ + hex8_upper(v),
{
    let mut chars: Vec<char> = Vec::new();
    push_radix_padded(&mut chars, v as u64, 16, true, 8, '0');
    push_chars_ascii(f, &chars);
}

/// Appends an `--aux` line of the bytes `bytes[..n]`.
fn push_byte_line(out: &mut Vec<u8>, label: &str, bytes: &[u8], n: usize, trailing_spaces: bool)
    requires
        n <= bytes@.len(),
    ensures
        final(out)@ == old(out)@ + aux_line(
            utf8_of(label),
            bytes@.take(n as int).map_values(|b: u8| hex2_upper(b)),
            trailing_spaces,
        ),
{
    let ghost items = bytes@.take(n as int).map_values(|b: u8| hex2_upper(b));
    let ghost start = out@;
    push_str_bytes(out, label);
    if trailing_spaces {
        out.push(32u8);
    }
    let ghost mid = out@;
    let mut i: usize = 0;
    assert(items.skip(0) =~= items);
    while i < n
        invariant
            0 <= i <= n <= bytes@.len(),
            items == bytes@.take(n as int).map_values(|b: u8| hex2_upper(b)),
            mid + (if trailing_spaces {
                items_trailing(items)
            } else {
                items_leading(items)
            }) == out@ + (if trailing_spaces {
                items_trailing(items.skip(i as int))
            } else {
                items_leading(items.skip(i as int))
            }),
        decreases n - i,
    {
        assert(items.skip(i as int)[0] == hex2_upper(bytes@[i as int]));
        assert(items.skip(i as int).drop_first() =~= items.skip(i + 1));
        let ghost b = out@;
        if trailing_spaces {
            push_hex2_upper(out, bytes[i]);
            out.push(32u8);
        } else {
            out.push(32u8);
            push_hex2_upper(out, bytes[i]);
        }
        proof {
            if trailing_spaces {
                assert(b + items_trailing(items.skip(i as int)) =~= out@ + items_trailing(items.skip(i + 1)));
            } else {
                assert(b + items_leading(items.skip(i as int)) =~= out@ + items_leading(items.skip(i + 1)));
            }
        }
        i = i + 1;
    }
    assert(items.skip(i as int) =~= Seq::<Seq<u8>>::empty());
    out.push(10u8);
    assert(out@ =~= start + aux_line(utf8_of(label), items, trailing_spaces));
}

/// Appends an `--aux` line of the words `words[from..to]`.
fn push_word_line(out: &mut Vec<u8>, label: &str, words: &[u32], from: usize, to: usize, trailing_spaces: bool)
    requires
        from <= to <= words@.len(),
    ensures
        final(out)@ == old(out)@ + aux_line(
            utf8_of(label),
            words@.subrange(from as int, to as int).map_values(|w: u32| hex8_upper(w)),
            trailing_spaces,
        ),
{
    let ghost items = words@.subrange(from as int, to as int).map_values(|w: u32| hex8_upper(w));
    let ghost start = out@;
    push_str_bytes(out, label);
    if trailing_spaces {
        out.push(32u8);
    }
    let ghost mid = out@;
    let mut i: usize = from;
    assert(items.skip(0) =~= items);
    while i < to
        invariant
            from <= i <= to <= words@.len(),
            items == words@.subrange(from as int, to as int).map_values(|w: u32| hex8_upper(w)),
            mid + (if trailing_spaces {
                items_trailing(items)
            } else {
                items_leading(items)
            }) == out@ + (if trailing_spaces {
                items_trailing(items.skip(i - from))
            } else {
                items_leading(items.skip(i - from))
            }),
        decreases to - i,
    {
        assert(items.skip(i - from)[0] == hex8_upper(words@[i as int]));
        assert(items.skip(i - from).drop_first() =~= items.skip(i + 1 - from));
        let ghost b = out@;
        if trailing_spaces {
            push_hex8_upper(out, words[i]);
            out.push(32u8);
        } else {
            out.push(32u8);
            push_hex8_upper(out, words[i]);
        }
        proof {
            if trailing_spaces {
                assert(b + items_trailing(items.skip(i - from)) =~= out@ + items_trailing(items.skip(i + 1 - from)));
            } else {
                assert(b + items_leading(items.skip(i - from)) =~= out@ + items_leading(items.skip(i + 1 - from)));
            }
        }
        i = i + 1;
    }
    assert(items.skip(i - from) =~= Seq::<Seq<u8>>::empty());
    out.push(10u8);
    assert(out@ =~= start + aux_line(utf8_of(label), items, trailing_spaces));
}

fn find_sync(bytes: &[u8]) -> (r: Option<usize>)
    ensures
        match r {
            Some(i) => sync_index(bytes@, 0) == Some(i as int) && i + 4 <= bytes@.len(),
            None => sync_index(bytes@, 0) is None,
        },
{
    let nb = bytes.len();
    let mut i: usize = 0;
    while i < nb && nb - i >= 4
        invariant
            nb == bytes@.len(),
            sync_index(bytes@, 0) == sync_index(bytes@, i as int),
        decreases nb - i,
    {
        if bytes[i] == 0xAA && bytes[i + 1] == 0x99 && bytes[i + 2] == 0x55 && bytes[i + 3] == 0x66 {
            return Some(i);
        }
        i = i + 1;
    }
    None
}

fn find_first_pair(words: &[u32], a: u32, b: u32) -> (r: Option<usize>)
    ensures
        match r {
            Some(i) => first_pair(words@, a, b, 0) == Some(i as int) && i <= words@.len(),
            None => first_pair(words@, a, b, 0) is None,
        },
{
    let nw = words.len();
    let mut k: usize = 0;
    while k < nw && nw - k >= 2
        invariant
            nw == words@.len(),
            first_pair(words@, a, b, 0) == first_pair(words@, a, b, k as int),
        decreases nw - k,
    {
        if words[k] == a && words[k + 1] == b {
            return Some(k);
        }
        k = k + 1;
    }
    None
}

fn find_last_pair(words: &[u32], a: u32, b: u32) -> (r: Option<usize>)
    ensures
        match r {
            Some(i) => last_pair(words@, a, b, words@.len() as int - 1) == Some(i as int) && i
                <= words@.len(),
            None => last_pair(words@, a, b, words@.len() as int - 1) is None,
        },
{
    let nw = words.len();
    if nw == 0 {
        return None;
    }
    let mut m: usize = nw - 1;
    while m > 0
        invariant
            nw == words@.len(),
            m <= nw - 1,
            last_pair(words@, a, b, nw - 1) == last_pair(words@, a, b, m as int),
        decreases m,
    {
        if words[m - 1] == a && words[m] == b {
            return Some(m - 1);
        }
        m = m - 1;
    }
    None
}

/// The `--aux` file (`PrintHeader`, `PrintFpgaConfigurationLogicData`,
/// `PrintFrameAddresses`) of the bitstream `bytes` with the configuration
/// words `words` and the frames at `addresses`.
///
/// prjuray-tools' `ExtractHeader` / `ExtractFpgaConfigurationLogicData`
/// print `"<label>: "` and `"%02X "` / `"%08X "` per item, then seek back
/// one byte so that the newline overwrites the last space: the same text
/// as prjxray's `" %02X"` per item, unless the file cannot seek (a pipe),
/// where the spaces stay (`trailing_spaces`).
pub fn aux_text(bytes: &[u8], words: &[u32], addresses: &[u32], trailing_spaces: bool) -> (r: Vec<u8>)
    ensures
        r@ == spec_aux_text(bytes@, words@, addresses@, trailing_spaces),
{
    let mut out: Vec<u8> = Vec::new();
    let _nb = bytes.len();
    match find_sync(bytes) {
        Some(s) => {
            push_byte_line(&mut out, "Header bytes:", bytes, s + 4, trailing_spaces);
        },
        None => {},
    }
    let nw = words.len();
    let wcfg = match find_first_pair(words, 0x3000_8001, 1) {
        Some(k) => k,
        None => nw,
    };
    push_word_line(&mut out, "FPGA configuration logic prefix:", words, 0, wcfg, trailing_spaces);
    let null = match find_last_pair(words, 0x3000_8001, 0) {
        Some(k) => k,
        None => nw,
    };
    push_word_line(&mut out, "FPGA configuration logic suffix:", words, null, nw, trailing_spaces);
    assert(words@.subrange(0, wcfg as int) =~= words@.take(wcfg as int));
    assert(words@.subrange(null as int, nw as int) =~= words@.skip(null as int));
    push_str_bytes(&mut out, "Frame addresses in bitstream: ");
    let ghost before = out@;
    let mut j: usize = 0;
    let n = addresses.len();
    while j < n
        invariant
            0 <= j <= n == addresses@.len(),
            before + address_list(addresses@, 0) == out@ + address_list(addresses@, j as nat),
        decreases n - j,
    {
        let ghost b = out@;
        push_hex8_upper(&mut out, addresses[j]);
        if j + 1 == n {
            out.push(10u8);
        } else {
            out.push(32u8);
        }
        assert(b + address_list(addresses@, j as nat) =~= out@ + address_list(addresses@, (j + 1) as nat));
        j = j + 1;
    }
    assert(out@ + address_list(addresses@, j as nat) =~= out@);
    out
}

} // verus!

verus! {

// ---------------------------------------------------------------------
// A run.

/// What a run of `bitread` does once its flags are read: exit (help, flag
/// errors), or read the bitstream and print its frames.
#[derive(Clone, Debug, PartialEq, Eq)]
pub enum BitreadStep {
    /// Exit with this code after writing the output.
    Exit {
        /// Exit code.
        code: u8,
        /// Text for stdout.
        stdout: Vec<u8>,
        /// Text for stderr.
        stderr: Vec<u8>,
    },
    /// Read the bitstream and print its frames.
    Read(BitreadRun),
}

/// The work of a run: what the flags ask for.
#[derive(Clone, Debug, PartialEq, Eq)]
pub struct BitreadRun {
    /// The frames `-z`, `-f` and `-F` select.
    pub selection: Selection,
    /// The bitstream file (the one positional argument), or stdin.
    pub input: Option<Vec<u8>>,
    /// `--architecture`.
    pub architecture: Vec<u8>,
    /// `--part_file`.
    pub part_file: Vec<u8>,
    /// `-o`: the output file (stdout if empty).
    pub output_file: Vec<u8>,
    /// `--aux`.
    pub aux: Vec<u8>,
    /// `--frm_out`.
    pub frm_out: Vec<u8>,
    /// `-C`: keep the checksum / ECC bits.
    pub keep_ecc: bool,
    /// `-E` (prjuray-tools): a failing ECC verification is a warning.
    pub ecc_warnings: bool,
    /// `-x`.
    pub x: bool,
    /// `-y`.
    pub y: bool,
    /// `-p`.
    pub p: bool,
}

/// The usage message of `bitread`.
pub open spec fn bitread_usage(argv0: Seq<u8>) -> Seq<u8> {
    utf8_of("Usage: ") + argv0 + utf8_of(" [options] [bitfile]")
}

/// A boolean flag's value is `true`.
pub open spec fn is_true(v: Seq<u8>) -> bool {
    v == utf8_of("true")
}

/// `r` is the run the flags `flags` with the values `current` and the
/// positional arguments `positional` ask for.
pub open spec fn bitread_run_is(
    r: BitreadRun,
    flavor: Flavor,
    flags: Seq<Flag>,
    current: Seq<Seq<u8>>,
    positional: Seq<Seq<u8>>,
) -> bool {
    let value = |name: &'static str| flag_value(flags, current, utf8_of(name));
    &&& r.selection.skip_zero == is_true(value("z"))
    &&& r.selection.frame == (if spec_parse_i32(value("f")) >= 0 {
        Some(spec_parse_i32(value("f")) as u32)
    } else {
        None
    })
    &&& r.selection.range == spec_frame_range(value("F"))
    &&& match r.input {
        Some(name) => positional.len() == 1 && name@ == positional[0],
        None => positional.len() != 1,
    }
    &&& r.architecture@ == value("architecture")
    &&& r.part_file@ == value("part_file")
    &&& r.output_file@ == value("o")
    &&& r.aux@ == value("aux")
    &&& r.frm_out@ == value("frm_out")
    &&& r.keep_ecc == is_true(value("C"))
    &&& r.ecc_warnings == (flavor == Flavor::Prjuray && is_true(value("E")))
    &&& r.x == is_true(value("x"))
    &&& r.y == is_true(value("y"))
    &&& r.p == is_true(value("p"))
}

/// `s` is what `bitread` of `flavor` does with the flags `args` (without
/// `argv[0]`) in the environment `env`.
pub open spec fn bitread_step_is(
    s: BitreadStep,
    flavor: Flavor,
    argv0: Seq<u8>,
    args: Seq<Seq<u8>>,
    env: Seq<(String, Vec<u8>)>,
) -> bool {
    match spec_parse(spec_flags_of(flavor), argv0, bitread_usage(argv0), args, env) {
        ParseView::Exit { code, stdout, stderr } => s matches BitreadStep::Exit { code: c, stdout: o, stderr: e }
            && c == code && o@ == stdout && e@ == stderr,
        ParseView::Run { flags, current, args: positional, .. } => s matches BitreadStep::Read(r)
            && bitread_run_is(r, flavor, flags, current, positional),
    }
}

fn is_true_exec(v: &Vec<u8>) -> (r: bool)
    ensures
        r == is_true(v@),
{
    crate::text::bytes_eq(v.as_slice(), crate::text::bytes_of("true").as_slice())
}

/// Reads the flags `args` (without `argv[0]`) of `bitread` of `flavor`
/// and decides what the run does.
pub fn run_tool(flavor: Flavor, argv0: &[u8], args: &[Vec<u8>], env: &Env) -> (r: BitreadStep)
    ensures
        bitread_step_is(r, flavor, argv0@, views(args@), env.vars@),
{
    let mut usage = crate::text::bytes_of("Usage: ");
    let a0 = vstd::slice::slice_to_vec(argv0);
    push_all(&mut usage, &a0);
    push_str_bytes(&mut usage, " [options] [bitfile]");
    let program = Program { argv0: a0, usage, flags: flags_of(flavor) };
    let parsed = match parse(&program, args, env) {
        Outcome::Run(parsed) => parsed,
        Outcome::Exit { code, stdout, stderr } => {
            return BitreadStep::Exit { code, stdout, stderr };
        },
    };
    let f = parse_i32(parsed.value("f").as_slice());
    let range = parsed.value("F");
    let selection = selection_of(is_true_exec(&parsed.value("z")), f, range.as_slice());
    let positional = parsed.positional_args();
    let input = if positional.len() == 1 {
        let mut name: Vec<u8> = Vec::new();
        push_all(&mut name, &positional[0]);
        assert(views(positional@)[0] == positional@[0]@);
        Some(name)
    } else {
        None
    };
    let prjuray = match flavor {
        Flavor::Prjxray => false,
        Flavor::Prjuray => true,
    };
    BitreadStep::Read(
        BitreadRun {
            selection,
            input,
            architecture: parsed.value("architecture"),
            part_file: parsed.value("part_file"),
            output_file: parsed.value("o"),
            aux: parsed.value("aux"),
            frm_out: parsed.value("frm_out"),
            keep_ecc: is_true_exec(&parsed.value("C")),
            ecc_warnings: prjuray && is_true_exec(&parsed.value("E")),
            x: is_true_exec(&parsed.value("x")),
            y: is_true_exec(&parsed.value("y")),
            p: is_true_exec(&parsed.value("p")),
        },
    )
}

/// What a run of prjxray's `bitread` does with the flags `args` (without
/// `argv[0]`): [`run_tool`] of [`Flavor::Prjxray`].
pub fn run(argv0: &[u8], args: &[Vec<u8>], env: &Env) -> (r: BitreadStep)
    ensures
        bitread_step_is(r, Flavor::Prjxray, argv0@, views(args@), env.vars@),
{
    run_tool(Flavor::Prjxray, argv0, args, env)
}

/// The message of a frame whose ECC does not verify: an error, or a
/// warning with `-E`.
pub open spec fn spec_ecc_message(arch: Architecture, address: u32, fields: FrameFields, warning: bool) -> Seq<
    char,
> {
    (if warning {
        "WARNING: "@
    } else {
        "ERROR: "@
    }) + "ECC verification of frame "@ + spec_cpp_frame_address(arch, address, fields) + " failed.\n"@
}

/// The message of a frame whose ECC does not verify.
pub fn ecc_message(arch: Architecture, address: u32, fields: &FrameFields, warning: bool) -> (r: String)
    ensures
        r@ == spec_ecc_message(arch, address, *fields, warning),
{
    let mut m: Vec<char> = Vec::new();
    if warning {
        crate::text::push_str(&mut m, "WARNING: ");
    } else {
        crate::text::push_str(&mut m, "ERROR: ");
    }
    crate::text::push_str(&mut m, "ECC verification of frame ");
    let a = cpp_frame_address(arch, address, fields);
    crate::text::push_str(&mut m, a.as_str());
    crate::text::push_str(&mut m, " failed.\n");
    crate::text::string_of(&m)
}

/// The separators of the `-p` image for the printed frames with the
/// minor addresses `minors`: a new column of frames starts at each frame
/// of minor address 0 but the first frame.
pub open spec fn spec_pgm_separators(minors: Seq<u32>) -> Seq<usize>
    decreases minors.len(),
{
    if minors.len() == 0 {
        seq![]
    } else {
        let n = minors.len() - 1;
        spec_pgm_separators(minors.drop_last()) + (if minors.last() == 0 && n > 0 {
            seq![n as usize]
        } else {
            seq![]
        })
    }
}

/// The separators of the `-p` image (see [`spec_pgm_separators`]).
pub fn pgm_separators(minors: &[u32]) -> (r: Vec<usize>)
    ensures
        r@ == spec_pgm_separators(minors@),
{
    let mut r: Vec<usize> = Vec::new();
    let mut i: usize = 0;
    while i < minors.len()
        invariant
            0 <= i <= minors@.len(),
            r@ == spec_pgm_separators(minors@.take(i as int)),
        decreases minors@.len() - i,
    {
        assert(minors@.take(i + 1).drop_last() =~= minors@.take(i as int));
        if minors[i] == 0 && i > 0 {
            r.push(i);
        }
        i = i + 1;
    }
    assert(minors@.take(minors@.len() as int) =~= minors@);
    r
}

} // verus!
