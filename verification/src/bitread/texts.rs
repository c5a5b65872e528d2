//! What `bitread`'s texts say, over their inputs: the lines of a frame,
//! the header of the `-p` image and the header line of the `--aux` file.

use vstd::prelude::*;

use crate::bitread::{
    aux_line, bit_lines, dec, frame_head, hex2_upper, hex8, items_leading, mask_of, padded_decimal,
    spec_aux_text, spec_format_frame, spec_pgm_image, sync_index, word_lines, FrameFields, FrameFormat,
};
use crate::text::{digits, radix_text, utf8_of};

verus! {

// ---------------------------------------------------------------------
// The `-x`/`-y` lines of a frame.

proof fn lemma_one_bit(k: u32, j: u32)
    requires
        k < 32,
        j < 32,
    ensures
        (((1u32 << k) >> j) & 1u32 == 1u32) == (j == k),
{
    assert((((1u32 << k) >> j) & 1u32 == 1u32) == (j == k)) by (bit_vector)
        requires
            k < 32,
            j < 32,
    ;
}

proof fn lemma_zero_bits(j: u32)
    ensures
        (0u32 >> j) & 1u32 != 1u32,
        forall|x: u32| #[trigger] (x & !0u32) == x,
{
    assert((0u32 >> j) & 1u32 != 1u32) by (bit_vector);
    assert forall|x: u32| #[trigger] (x & !0u32) == x by {
        assert(x & !0u32 == x) by (bit_vector);
    }
}

/// A word without set bits has no line.
proof fn lemma_bit_lines_zero(i: nat, k: nat, prefix: Seq<u8>, suffix: Seq<u8>)
    ensures
        bit_lines(0, i, k, prefix, suffix) == Seq::<u8>::empty(),
    decreases 32 - k,
{
    if k < 32 {
        lemma_zero_bits(k as u32);
        lemma_bit_lines_zero(i, k + 1, prefix, suffix);
    }
}

/// The bits of `1 << b` above `k`: none.
proof fn lemma_bit_lines_above(b: u32, i: nat, k: nat, prefix: Seq<u8>, suffix: Seq<u8>)
    requires
        b < 32,
        b < k,
    ensures
        bit_lines(1u32 << b, i, k, prefix, suffix) == Seq::<u8>::empty(),
    decreases 32 - k,
{
    if k < 32 {
        lemma_one_bit(b, k as u32);
        lemma_bit_lines_above(b, i, k + 1, prefix, suffix);
    }
}

/// The bits of `1 << b` from `k <= b` on: the line of bit `b`.
proof fn lemma_bit_lines_one(b: u32, i: nat, k: nat, prefix: Seq<u8>, suffix: Seq<u8>)
    requires
        b < 32,
        k <= b,
    ensures
        bit_lines(1u32 << b, i, k, prefix, suffix) == prefix + padded_decimal(i, 3) + seq![95u8]
            + padded_decimal(b as nat, 2) + suffix,
    decreases 32 - k,
{
    lemma_one_bit(b, k as u32);
    if k < b {
        lemma_bit_lines_one(b, i, k + 1, prefix, suffix);
        assert(bit_lines(1u32 << b, i, k, prefix, suffix) =~= bit_lines(1u32 << b, i, k + 1, prefix, suffix));
    } else {
        lemma_bit_lines_above(b, i, k + 1, prefix, suffix);
        assert(bit_lines(1u32 << b, i, k, prefix, suffix) =~= prefix + padded_decimal(i, 3) + seq![95u8]
            + padded_decimal(b as nat, 2) + suffix);
    }
}

proof fn lemma_masked_bit(b: u32, m: u32)
    requires
        b < 32,
    ensures
        (1u32 << b) & !m == if (m >> b) & 1u32 == 1u32 {
            0u32
        } else {
            1u32 << b
        },
        0u32 & !m == 0u32,
{
    assert((1u32 << b) & !m == if (m >> b) & 1u32 == 1u32 {
        0u32
    } else {
        1u32 << b
    }) by (bit_vector)
        requires
            b < 32,
    ;
    assert(0u32 & !m == 0u32) by (bit_vector);
}

/// Whether the ECC masks `masks` leave out bit `b` of word `i`.
pub open spec fn masked(masks: Option<Vec<u32>>, i: int, b: u32) -> bool {
    (mask_of(masks, i) >> b) & 1u32 == 1u32
}

/// The lines of the words from `j` on of a frame whose only set bit is
/// bit `b` of word `i`.
proof fn lemma_word_lines_one(
    words: Seq<u32>,
    masks: Option<Vec<u32>>,
    i: int,
    b: u32,
    j: nat,
    prefix: Seq<u8>,
    suffix: Seq<u8>,
)
    requires
        0 <= i < words.len(),
        b < 32,
        words[i] == 1u32 << b,
        forall|m: int| 0 <= m < words.len() && m != i ==> words[m] == 0,
    ensures
        word_lines(words, masks, j, prefix, suffix) == if j <= i && !masked(masks, i, b) {
            prefix + padded_decimal(i as nat, 3) + seq![95u8] + padded_decimal(b as nat, 2) + suffix
        } else {
            Seq::<u8>::empty()
        },
    decreases words.len() - j,
{
    if j < words.len() {
        lemma_word_lines_one(words, masks, i, b, j + 1, prefix, suffix);
        lemma_masked_bit(b, mask_of(masks, j as int));
        let here = bit_lines(words[j as int] & !mask_of(masks, j as int), j, 0, prefix, suffix);
        if j == i && !masked(masks, i, b) {
            lemma_bit_lines_one(b, j, 0, prefix, suffix);
        } else {
            lemma_bit_lines_zero(j, 0, prefix, suffix);
        }
        assert(word_lines(words, masks, j, prefix, suffix) == here + word_lines(
            words,
            masks,
            j + 1,
            prefix,
            suffix,
        ));
        if j == i {
            assert(here + Seq::<u8>::empty() =~= here);
        } else {
            assert(Seq::<u8>::empty() + word_lines(words, masks, j + 1, prefix, suffix) =~= word_lines(
                words,
                masks,
                j + 1,
                prefix,
                suffix,
            ));
        }
    }
}

/// With `-x` or `-y` (and not `-p`), a frame written to the `-o` file
/// whose only set bit is bit `b` of word `i` gives one line, unless the
/// ECC masks leave that bit out (then none): `bit_%08x_%03d_%02d` of its
/// address, `i` and `b`, then, with `-x`,
/// `_t<type>_h<bottom>_r<row>_c<column>_m<minor>` of its address fields,
/// and a newline.
pub proof fn lemma_bit_line(
    address: u32,
    words: Seq<u32>,
    fields: FrameFields,
    format: FrameFormat,
    i: int,
    b: u32,
)
    requires
        !format.p,
        format.x || format.y,
        !format.to_stdout,
        0 <= i < words.len(),
        b < 32,
        words[i] == 1u32 << b,
        forall|m: int| 0 <= m < words.len() && m != i ==> words[m] == 0,
    ensures
        spec_format_frame(address, words, fields, format) == if masked(format.ecc_masks, i, b) {
            Seq::<u8>::empty()
        } else {
            utf8_of("bit_") + hex8(address) + seq![95u8] + padded_decimal(i as nat, 3) + seq![95u8]
                + padded_decimal(b as nat, 2) + (if format.x {
                utf8_of("_t") + dec(fields.block_type) + utf8_of("_h") + dec(fields.bottom) + utf8_of("_r")
                    + dec(fields.row) + utf8_of("_c") + dec(fields.column) + utf8_of("_m") + dec(fields.minor)
            } else {
                Seq::<u8>::empty()
            }) + utf8_of("\n")
        },
{
    let prefix = utf8_of("bit_") + hex8(address) + utf8_of("_");
    reveal_strlit("_");
    vstd::utf8::is_ascii_chars_encode_utf8("_"@);
    assert(utf8_of("_") =~= seq![95u8]);
    let suffix = if format.x {
        crate::bitread::x_suffix(fields)
    } else {
        utf8_of("\n")
    };
    lemma_word_lines_one(words, format.ecc_masks, i, b, 0, prefix, suffix);
    let r = spec_format_frame(address, words, fields, format);
    assert(r =~= Seq::<u8>::empty() + word_lines(words, format.ecc_masks, 0, prefix, suffix) + Seq::<u8>::empty());
}

/// On stdout a frame starts with its heading
/// `Frame 0x%08x (Type=.. Top=.. Row=.. Column=.. Minor=..):` of its
/// address and address fields.
pub proof fn lemma_stdout_heading(address: u32, words: Seq<u32>, fields: FrameFields, format: FrameFormat)
    requires
        format.to_stdout,
    ensures
        ({
            let h = utf8_of("Frame 0x") + hex8(address) + utf8_of(" (Type=") + dec(fields.block_type) + utf8_of(
                " Top=",
            ) + dec(fields.bottom) + utf8_of(" Row=") + dec(fields.row) + utf8_of(" Column=") + dec(fields.column)
                + utf8_of(" Minor=") + dec(fields.minor) + utf8_of("):\n");
            spec_format_frame(address, words, fields, format).take(h.len() as int) == h
        }),
{
    let h = frame_head(address, fields);
    assert(spec_format_frame(address, words, fields, format).take(h.len() as int) =~= h);
}

/// With `-x`, `-y` does not change a frame's text (the `-x` suffix is
/// kept).
pub proof fn lemma_x_ignores_y(address: u32, words: Seq<u32>, fields: FrameFields, format: FrameFormat)
    requires
        format.x,
    ensures
        spec_format_frame(address, words, fields, FrameFormat { y: true, ..format }) == spec_format_frame(
            address,
            words,
            fields,
            FrameFormat { y: false, ..format },
        ),
{
}

// ---------------------------------------------------------------------
// The hex dump of a frame.

/// Without `-x`, `-y` and `-p`, a frame written to the `-o` file is the
/// text it has on stdout with its `Frame 0x...` heading replaced by the
/// line `.frame 0x%08x` of its address; on stdout it starts with that
/// heading.
pub proof fn lemma_hex_dump_heading(address: u32, words: Seq<u32>, fields: FrameFields, format: FrameFormat)
    requires
        !format.p,
        !format.x,
        !format.y,
    ensures
        ({
            let to_file = spec_format_frame(address, words, fields, FrameFormat { to_stdout: false, ..format });
            let to_stdout = spec_format_frame(address, words, fields, FrameFormat { to_stdout: true, ..format });
            let n = frame_head(address, fields).len() as int;
            &&& to_stdout.take(n) == frame_head(address, fields)
            &&& to_file == utf8_of(".frame 0x") + hex8(address) + utf8_of("\n") + to_stdout.skip(n)
        }),
{
    let to_file = spec_format_frame(address, words, fields, FrameFormat { to_stdout: false, ..format });
    let to_stdout = spec_format_frame(address, words, fields, FrameFormat { to_stdout: true, ..format });
    let h = frame_head(address, fields);
    let n = h.len() as int;
    let rest = crate::bitread::hex_words(words, 0, format.hex_mask_word_50) + utf8_of("\n\n");
    assert(to_stdout =~= h + Seq::<u8>::empty() + rest);
    assert(to_stdout.take(n) =~= h);
    assert(to_stdout.skip(n) =~= rest);
    assert(to_file =~= Seq::<u8>::empty() + (utf8_of(".frame 0x") + hex8(address) + utf8_of("\n")) + rest);
}

/// `n < 16^k` has at most `k` hex digits (one for 0).
proof fn lemma_hex_digits_len(n: nat, k: nat)
    requires
        n < vstd::arithmetic::power::pow(16, k),
        k >= 1,
    ensures
        digits(n, 16).len() <= k,
    decreases k,
{
    if n >= 16 {
        let p = vstd::arithmetic::power::pow(16, (k - 1) as nat);
        reveal(vstd::arithmetic::power::pow);
        assert(vstd::arithmetic::power::pow(16, k) == 16 * p);
        assert(n / 16 < p) by (nonlinear_arith)
            requires
                n < 16 * p,
                n >= 16,
        ;
        if k == 1 {
            assert(p == 1);
        } else {
            lemma_hex_digits_len(n / 16, (k - 1) as nat);
        }
    }
}

/// `%08x` has eight characters.
proof fn lemma_hex8_len(v: u32)
    ensures
        hex8(v).len() == 8,
{
    assert(vstd::arithmetic::power::pow(16, 8) == 0x1_0000_0000) by {
        reveal_with_fuel(vstd::arithmetic::power::pow, 9);
    }
    lemma_hex_digits_len(v as nat, 8);
    assert(radix_text(v as nat, 16, false).len() == digits(v as nat, 16).len());
}

/// The value the hex dump prints for word `j`.
pub open spec fn dumped(words: Seq<u32>, j: int, mask50: bool) -> u32 {
    if j == 50 && mask50 {
        words[j] & 0xFFFF_E000u32
    } else {
        words[j]
    }
}

proof fn lemma_hex_words(words: Seq<u32>, i: nat, mask50: bool)
    requires
        i <= words.len(),
    ensures
        crate::bitread::hex_words(words, i, mask50).len() == 9 * (words.len() - i),
        forall|j: int|
            i <= j < words.len() ==> {
                let h = crate::bitread::hex_words(words, i, mask50);
                &&& h.subrange(9 * (j - i), 9 * (j - i) + 8) == hex8(#[trigger] dumped(words, j, mask50))
                &&& h[9 * (j - i) + 8] == if j % 6 == 5 {
                    10u8
                } else {
                    32u8
                }
            },
    decreases words.len() - i,
{
    if i < words.len() {
        lemma_hex_words(words, i + 1, mask50);
        lemma_hex8_len(dumped(words, i as int, mask50));
        let h = crate::bitread::hex_words(words, i, mask50);
        let rest = crate::bitread::hex_words(words, i + 1, mask50);
        let sep: Seq<u8> = if i % 6 == 5 {
            seq![10u8]
        } else {
            seq![32u8]
        };
        assert(h == hex8(dumped(words, i as int, mask50)) + sep + rest);
        assert forall|j: int| i <= j < words.len() implies {
            &&& h.subrange(9 * (j - i), 9 * (j - i) + 8) == hex8(#[trigger] dumped(words, j, mask50))
            &&& h[9 * (j - i) + 8] == if j % 6 == 5 {
                10u8
            } else {
                32u8
            }
        } by {
            if j == i {
                assert(h.subrange(0, 8) =~= hex8(dumped(words, i as int, mask50)));
                assert(h[8] == sep[0]);
            } else {
                let d = dumped(words, j, mask50);
                assert(rest.subrange(9 * (j - (i + 1)), 9 * (j - (i + 1)) + 8) == hex8(d));
                assert(h.subrange(9 * (j - i), 9 * (j - i) + 8) =~= rest.subrange(
                    9 * (j - (i + 1)),
                    9 * (j - (i + 1)) + 8,
                ));
                assert(h[9 * (j - i) + 8] == rest[9 * (j - (i + 1)) + 8]);
            }
        }
    }
}

/// The hex dump of a frame in the `-o` file: after the `.frame` line
/// (18 bytes), each word as `%08x` (word 50 without its Series7 ECC bits
/// where the format says so), followed by a space, or by a newline after
/// every sixth word; then a blank line.
pub proof fn lemma_hex_dump_words(address: u32, words: Seq<u32>, fields: FrameFields, format: FrameFormat)
    requires
        !format.p,
        !format.x,
        !format.y,
        !format.to_stdout,
    ensures
        ({
            let r = spec_format_frame(address, words, fields, format);
            &&& r.len() == 18 + 9 * words.len() + 2
            &&& forall|j: int|
                0 <= j < words.len() ==> r.subrange(18 + 9 * j, 26 + 9 * j) == hex8(
                    #[trigger] dumped(words, j, format.hex_mask_word_50),
                ) && r[26 + 9 * j] == if j % 6 == 5 {
                    10u8
                } else {
                    32u8
                }
            &&& r[18 + 9 * words.len() as int] == 10u8
            &&& r[19 + 9 * words.len() as int] == 10u8
        }),
{
    reveal_strlit(".frame 0x");
    reveal_strlit("\n");
    reveal_strlit("\n\n");
    vstd::utf8::is_ascii_chars_encode_utf8(".frame 0x"@);
    vstd::utf8::is_ascii_chars_encode_utf8("\n"@);
    vstd::utf8::is_ascii_chars_encode_utf8("\n\n"@);
    lemma_hex8_len(address);
    let m = format.hex_mask_word_50;
    lemma_hex_words(words, 0, m);
    let h = crate::bitread::hex_words(words, 0, m);
    let head = utf8_of(".frame 0x") + hex8(address) + utf8_of("\n");
    assert(head.len() == 18);
    let r = spec_format_frame(address, words, fields, format);
    assert(r =~= Seq::<u8>::empty() + head + h + utf8_of("\n\n"));
    assert forall|j: int| 0 <= j < words.len() implies r.subrange(18 + 9 * j, 26 + 9 * j) == hex8(
        #[trigger] dumped(words, j, m),
    ) && r[26 + 9 * j] == if j % 6 == 5 {
        10u8
    } else {
        32u8
    } by {
        assert(r.subrange(18 + 9 * j, 26 + 9 * j) =~= h.subrange(9 * j, 9 * j + 8));
        assert(r[26 + 9 * j] == h[9 * j + 8]);
    }
}

// ---------------------------------------------------------------------
// The `-p` image.

/// The `-p` image starts with the netpgm header `P5 <W> <H> 15`: `W` is
/// the number of frames plus the number of column separators, `H` is 32
/// rows per word of a frame.
pub proof fn lemma_pgm_header(data: Seq<Seq<u32>>, sep: Seq<usize>, wpf: nat)
    ensures
        ({
            let header = utf8_of("P5 ") + padded_decimal(data.len() + sep.len(), 0) + utf8_of(" ")
                + padded_decimal(32 * wpf, 0) + utf8_of(" 15\n");
            spec_pgm_image(data, sep, wpf).take(header.len() as int) == header
        }),
{
    let header = utf8_of("P5 ") + padded_decimal(data.len() + sep.len(), 0) + utf8_of(" ") + padded_decimal(
        32 * wpf,
        0,
    ) + utf8_of(" 15\n");
    assert(wpf * 32 == 32 * wpf);
    assert(spec_pgm_image(data, sep, wpf).take(header.len() as int) =~= header);
}

proof fn lemma_pgm_row_plain(data: Seq<Seq<u32>>, width: nat, bit: int, x: nat)
    requires
        x <= width,
    ensures
        crate::bitread::pgm_row(data, Seq::<usize>::empty(), width, bit, x, x, 0).len() == width - x,
        forall|c: int|
            x <= c < width ==> crate::bitread::pgm_row(data, Seq::<usize>::empty(), width, bit, x, x, 0)[c - x]
                == #[trigger] crate::bitread::pixel(data, c, bit),
    decreases width - x,
{
    if x < width {
        lemma_pgm_row_plain(data, width, bit, x + 1);
        let row = crate::bitread::pgm_row(data, Seq::<usize>::empty(), width, bit, x, x, 0);
        let rest = crate::bitread::pgm_row(data, Seq::<usize>::empty(), width, bit, x + 1, x + 1, 0);
        assert(row == seq![crate::bitread::pixel(data, x as int, bit)] + rest);
        assert forall|c: int| x <= c < width implies row[c - x] == #[trigger] crate::bitread::pixel(data, c, bit) by {
            if c > x {
                assert(row[c - x] == rest[c - (x + 1)]);
            }
        }
    }
}

/// Without column separators, the first row of the `-p` image (after its
/// header) has one byte per frame, in frame order: 15 where bit 31 of the
/// frame's last word is set, else 0.
pub proof fn lemma_pgm_top_row(data: Seq<Seq<u32>>, wpf: nat)
    requires
        wpf >= 1,
        forall|f: int| 0 <= f < data.len() ==> #[trigger] data[f].len() == wpf,
    ensures
        ({
            let header = utf8_of("P5 ") + padded_decimal(data.len() as nat, 0) + utf8_of(" ")
                + padded_decimal(32 * wpf, 0) + utf8_of(" 15\n");
            let r = spec_pgm_image(data, Seq::<usize>::empty(), wpf);
            &&& r.len() >= header.len() + data.len()
            &&& forall|f: int|
                0 <= f < data.len() ==> r[header.len() + f] == if (#[trigger] data[f][wpf - 1] >> 31u32) & 1u32
                    == 1u32 {
                    15u8
                } else {
                    0u8
                }
        }),
{
    let w = data.len() as nat;
    let h = wpf * 32;
    let header = utf8_of("P5 ") + padded_decimal(w, 0) + utf8_of(" ") + padded_decimal(32 * wpf, 0) + utf8_of(
        " 15\n",
    );
    assert(wpf * 32 == 32 * wpf);
    assert(w + Seq::<usize>::empty().len() == w);
    let bit = h - 1;
    lemma_pgm_row_plain(data, w, bit, 0);
    let row = crate::bitread::pgm_row(data, Seq::<usize>::empty(), w, bit, 0, 0, 0);
    let rows = crate::bitread::pgm_rows(data, Seq::<usize>::empty(), w, h, 0, bit);
    assert(rows.take(w as int) =~= row) by {
        assert(rows == row + Seq::<u8>::empty() + crate::bitread::pgm_rows(
            data,
            Seq::<usize>::empty(),
            w,
            h,
            1,
            bit - 1,
        ));
    }
    let r = spec_pgm_image(data, Seq::<usize>::empty(), wpf);
    assert(r == header + rows);
    assert(bit / 32 == wpf - 1 && bit % 32 == 31) by (nonlinear_arith)
        requires
            bit == wpf * 32 - 1,
            wpf >= 1,
    ;
    assert forall|f: int| 0 <= f < data.len() implies r[header.len() + f] == if (#[trigger] data[f][wpf - 1]
        >> 31u32) & 1u32 == 1u32 {
        15u8
    } else {
        0u8
    } by {
        assert(r[header.len() + f] == row[f]);
        assert(row[f - 0] == crate::bitread::pixel(data, f, bit));
    }
}

// ---------------------------------------------------------------------
// The header line of the `--aux` file.

/// `%02X` of a byte has two characters.
proof fn lemma_hex2_len(v: u8)
    ensures
        hex2_upper(v).len() == 2,
{
    let n = v as nat;
    if n >= 16 {
        assert(n / 16 < 16);
        assert(digits(n / 16, 16) == seq![n / 16]);
        assert(digits(n, 16) == digits(n / 16, 16).push(n % 16));
    }
    assert(radix_text(n, 16, true).len() == digits(n, 16).len());
}

/// The items each preceded by a space: three bytes per item of two.
proof fn lemma_items_leading(items: Seq<Seq<u8>>)
    requires
        forall|j: int| 0 <= j < items.len() ==> #[trigger] items[j].len() == 2,
    ensures
        items_leading(items).len() == 3 * items.len(),
        forall|j: int|
            0 <= j < items.len() ==> items_leading(items).subrange(3 * j, 3 * j + 3) == seq![32u8]
                + #[trigger] items[j],
    decreases items.len(),
{
    if items.len() > 0 {
        let rest = items.drop_first();
        lemma_items_leading(rest);
        let l = items_leading(items);
        assert(l == seq![32u8] + items[0] + items_leading(rest));
        assert forall|j: int| 0 <= j < items.len() implies l.subrange(3 * j, 3 * j + 3) == seq![32u8]
            + #[trigger] items[j] by {
            if j == 0 {
                assert(l.subrange(0, 3) =~= seq![32u8] + items[0]);
            } else {
                assert(rest[j - 1] == items[j]);
                assert(items_leading(rest).subrange(3 * (j - 1), 3 * (j - 1) + 3) == seq![32u8] + rest[j - 1]);
                assert(l.subrange(3 * j, 3 * j + 3) =~= items_leading(rest).subrange(3 * (j - 1), 3 * (j - 1) + 3));
            }
        }
    }
}

/// A space, then the items each followed by a space: three bytes per
/// item of two, the space first.
proof fn lemma_items_trailing(items: Seq<Seq<u8>>)
    requires
        forall|j: int| 0 <= j < items.len() ==> #[trigger] items[j].len() == 2,
    ensures
        (seq![32u8] + crate::bitread::items_trailing(items)).len() == 3 * items.len() + 1,
        forall|j: int|
            0 <= j < items.len() ==> (seq![32u8] + crate::bitread::items_trailing(items)).subrange(3 * j, 3 * j + 3)
                == seq![32u8] + #[trigger] items[j],
        (seq![32u8] + crate::bitread::items_trailing(items))[3 * items.len() as int] == 32u8,
    decreases items.len(),
{
    if items.len() > 0 {
        let rest = items.drop_first();
        lemma_items_trailing(rest);
        let l = seq![32u8] + crate::bitread::items_trailing(items);
        let lr = seq![32u8] + crate::bitread::items_trailing(rest);
        assert(l =~= seq![32u8] + items[0] + lr);
        assert forall|j: int| 0 <= j < items.len() implies l.subrange(3 * j, 3 * j + 3) == seq![32u8]
            + #[trigger] items[j] by {
            if j == 0 {
                assert(l.subrange(0, 3) =~= seq![32u8] + items[0]);
            } else {
                assert(rest[j - 1] == items[j]);
                assert(lr.subrange(3 * (j - 1), 3 * (j - 1) + 3) == seq![32u8] + rest[j - 1]);
                assert(l.subrange(3 * j, 3 * j + 3) =~= lr.subrange(3 * (j - 1), 3 * (j - 1) + 3));
            }
        }
        assert(l[3 * items.len() as int] == lr[3 * rest.len() as int]);
    }
}

/// The first sync word from `i` on is the one at `s`.
proof fn lemma_sync_at(bytes: Seq<u8>, i: int, s: int)
    requires
        0 <= i <= s,
        s + 4 <= bytes.len(),
        bytes[s] == 0xAA && bytes[s + 1] == 0x99 && bytes[s + 2] == 0x55 && bytes[s + 3] == 0x66,
        forall|j: int|
            0 <= j < s ==> !(#[trigger] bytes[j] == 0xAA && bytes[j + 1] == 0x99 && bytes[j + 2] == 0x55 && bytes[j
                + 3] == 0x66),
    ensures
        sync_index(bytes, i) == Some(s),
    decreases s - i,
{
    if i < s {
        assert(!(bytes[i] == 0xAA && bytes[i + 1] == 0x99 && bytes[i + 2] == 0x55 && bytes[i + 3] == 0x66));
        lemma_sync_at(bytes, i + 1, s);
    }
}

/// The first line of the `--aux` file lists every byte of the file up to
/// and including its first sync word `AA 99 55 66` at `s`, as `%02X`
/// each after a space: `Header bytes: XX XX ... AA 99 55 66`, then a
/// newline (after one more space where items are followed by a space).
pub proof fn lemma_aux_header_bytes(
    bytes: Seq<u8>,
    words: Seq<u32>,
    addresses: Seq<u32>,
    trailing_spaces: bool,
    s: int,
)
    requires
        0 <= s,
        s + 4 <= bytes.len(),
        bytes[s] == 0xAA && bytes[s + 1] == 0x99 && bytes[s + 2] == 0x55 && bytes[s + 3] == 0x66,
        forall|j: int|
            0 <= j < s ==> !(#[trigger] bytes[j] == 0xAA && bytes[j + 1] == 0x99 && bytes[j + 2] == 0x55 && bytes[j
                + 3] == 0x66),
    ensures
        ({
            let r = spec_aux_text(bytes, words, addresses, trailing_spaces);
            let end = 13 + 3 * (s + 4);
            &&& r.take(13) == utf8_of("Header bytes:")
            &&& forall|j: int|
                0 <= j < s + 4 ==> r.subrange(13 + 3 * j, 16 + 3 * j) == seq![32u8] + #[trigger] hex2_upper(bytes[j])
            &&& if trailing_spaces {
                r[end] == 32u8 && r[end + 1] == 10u8
            } else {
                r[end] == 10u8
            }
        }),
{
    lemma_sync_at(bytes, 0, s);
    reveal_strlit("Header bytes:");
    vstd::utf8::is_ascii_chars_encode_utf8("Header bytes:"@);
    let label = utf8_of("Header bytes:");
    assert(label.len() == 13);
    let items = bytes.take(s + 4).map_values(|b: u8| hex2_upper(b));
    assert forall|j: int| 0 <= j < items.len() implies #[trigger] items[j].len() == 2 by {
        lemma_hex2_len(bytes[j]);
    }
    let body = if trailing_spaces {
        seq![32u8] + crate::bitread::items_trailing(items)
    } else {
        items_leading(items)
    };
    if trailing_spaces {
        lemma_items_trailing(items);
    } else {
        lemma_items_leading(items);
    }
    let header = aux_line(label, items, trailing_spaces);
    let r = spec_aux_text(bytes, words, addresses, trailing_spaces);
    assert(header == label + body + seq![10u8]);
    assert(r.take(header.len() as int) =~= header);
    assert(r.take(13) =~= label);
    assert forall|j: int| 0 <= j < s + 4 implies r.subrange(13 + 3 * j, 16 + 3 * j) == seq![32u8]
        + #[trigger] hex2_upper(bytes[j]) by {
        assert(items[j] == hex2_upper(bytes[j]));
        assert(r.subrange(13 + 3 * j, 16 + 3 * j) =~= body.subrange(3 * j, 3 * j + 3));
    }
    let end = 13 + 3 * (s + 4);
    assert(r[end] == header[end]);
    if trailing_spaces {
        assert(r[end + 1] == header[end + 1]);
    }
}

} // verus!
