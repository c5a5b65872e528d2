//! Python `str` values as the Python tools see their command line
//! arguments and environment: sequences of code points that may hold lone
//! surrogates (Python decodes `argv` with UTF-8 and the `surrogateescape`
//! error handler), and the few `str` operations whose exact behaviour
//! shows in the tools' output: `repr()`, encoding to stdout and stderr,
//! `int()`.

use vstd::prelude::*;
use vstd::utf8::*;

use crate::text::{
    char_from_u32, chars_of, code_points, code_points_of, pad_left, push_all, push_radix_padded,
    radix_text, string_of,
};
use crate::unicode::{decimal_value, is_printable, is_space, spec_decimal_value, spec_is_printable, spec_is_space};

verus! {

/// A Python `str`: a sequence of Unicode code points, lone surrogates
/// included.
#[derive(Clone, PartialEq, Eq, Debug, Default)]
pub struct PyStr(pub Vec<u32>);

impl View for PyStr {
    type V = Seq<u32>;

    open spec fn view(&self) -> Seq<u32> {
        self.0@
    }
}

// ---------------------------------------------------------------------
// Decoding and encoding.

/// The code points Python decodes from `bytes` with UTF-8 and the
/// `surrogateescape` error handler: every well formed scalar is decoded,
/// every other byte `b` becomes the lone surrogate `U+DC00 + b`.
pub open spec fn surrogateescape_decode(bytes: Seq<u8>) -> Seq<u32>
    decreases bytes.len(),
{
    if bytes.len() == 0 {
        seq![]
    } else if valid_first_scalar(bytes) {
        seq![decode_first_scalar(bytes)] + surrogateescape_decode(
            bytes.subrange(length_of_first_scalar(bytes), bytes.len() as int),
        )
    } else {
        seq![(0xDC00 + bytes[0]) as u32] + surrogateescape_decode(
            bytes.subrange(1, bytes.len() as int),
        )
    }
}

/// The bytes of one code point encoded with UTF-8 and the
/// `surrogateescape` error handler: a scalar is UTF-8 encoded, a lone
/// surrogate `U+DC80..=U+DCFF` becomes the byte `0x80..=0xFF`, any other
/// code point `?`.
pub open spec fn surrogateescape_encode_one(c: u32) -> Seq<u8> {
    if is_scalar(c) {
        encode_scalar(c)
    } else if 0xDC80 <= c <= 0xDCFF {
        seq![(c - 0xDC00) as u8]
    } else {
        seq![63u8]
    }
}

/// The bytes of `s` encoded with UTF-8 and the `surrogateescape` error
/// handler.
pub open spec fn surrogateescape_encode(s: Seq<u32>) -> Seq<u8>
    decreases s.len(),
{
    if s.len() == 0 {
        seq![]
    } else {
        surrogateescape_encode_one(s[0]) + surrogateescape_encode(s.drop_first())
    }
}

proof fn lemma_width_2(b1: u8, b2: u8)
    by (bit_vector)
    requires
        is_leading_byte_width_2(b1),
        is_continuation_byte(b2),
        not_overlong_encoding(codepoint_width_2(b1, b2), 2),
    ensures
        has_width_2_encoding(codepoint_width_2(b1, b2)),
        leading_byte_width_2(codepoint_width_2(b1, b2)) == b1,
        last_continuation_byte(codepoint_width_2(b1, b2)) == b2,
{
}

proof fn lemma_width_3(b1: u8, b2: u8, b3: u8)
    by (bit_vector)
    requires
        is_leading_byte_width_3(b1),
        is_continuation_byte(b2),
        is_continuation_byte(b3),
        not_overlong_encoding(codepoint_width_3(b1, b2, b3), 3),
        not_surrogate(codepoint_width_3(b1, b2, b3)),
    ensures
        has_width_3_encoding(codepoint_width_3(b1, b2, b3)),
        leading_byte_width_3(codepoint_width_3(b1, b2, b3)) == b1,
        second_last_continuation_byte(codepoint_width_3(b1, b2, b3)) == b2,
        last_continuation_byte(codepoint_width_3(b1, b2, b3)) == b3,
{
}

proof fn lemma_width_4(b1: u8, b2: u8, b3: u8, b4: u8)
    by (bit_vector)
    requires
        is_leading_byte_width_4(b1),
        is_continuation_byte(b2),
        is_continuation_byte(b3),
        is_continuation_byte(b4),
        not_overlong_encoding(codepoint_width_4(b1, b2, b3, b4), 4),
    ensures
        has_width_4_encoding(codepoint_width_4(b1, b2, b3, b4)),
        leading_byte_width_4(codepoint_width_4(b1, b2, b3, b4)) == b1,
        third_last_continuation_byte(codepoint_width_4(b1, b2, b3, b4)) == b2,
        second_last_continuation_byte(codepoint_width_4(b1, b2, b3, b4)) == b3,
        last_continuation_byte(codepoint_width_4(b1, b2, b3, b4)) == b4,
{
}

proof fn lemma_width_1(b1: u8)
    by (bit_vector)
    requires
        is_leading_byte_width_1(b1),
    ensures
        has_width_1_encoding(codepoint_width_1(b1)),
        leading_byte_width_1(codepoint_width_1(b1)) == b1,
        !(0xD800 <= codepoint_width_1(b1) <= 0xDFFF),
{
}

/// A well formed first scalar encodes back to the bytes it was decoded
/// from; any other first byte is not ASCII.
proof fn lemma_first_scalar(t: Seq<u8>)
    requires
        t.len() > 0,
    ensures
        valid_first_scalar(t) ==> is_scalar(decode_first_scalar(t)) && encode_scalar(
            decode_first_scalar(t),
        ) == t.subrange(0, length_of_first_scalar(t)),
        !valid_first_scalar(t) ==> t[0] >= 0x80,
{
    if is_leading_byte_width_1(t[0]) {
        lemma_width_1(t[0]);
        assert(encode_scalar(decode_first_scalar(t)) =~= t.subrange(0, 1));
    } else if valid_first_scalar(t) {
        if is_leading_byte_width_2(t[0]) {
            lemma_width_2(t[0], t[1]);
            assert(encode_scalar(decode_first_scalar(t)) =~= t.subrange(0, 2));
        } else if is_leading_byte_width_3(t[0]) {
            lemma_width_3(t[0], t[1], t[2]);
            assert(encode_scalar(decode_first_scalar(t)) =~= t.subrange(0, 3));
        } else {
            lemma_width_4(t[0], t[1], t[2], t[3]);
            assert(encode_scalar(decode_first_scalar(t)) =~= t.subrange(0, 4));
        }
    }
}

proof fn lemma_encode_concat(a: Seq<u32>, b: Seq<u32>)
    ensures
        surrogateescape_encode(a + b) == surrogateescape_encode(a) + surrogateescape_encode(b),
    decreases a.len(),
{
    if a.len() == 0 {
        assert(a + b =~= b);
    } else {
        assert((a + b).drop_first() =~= a.drop_first() + b);
        lemma_encode_concat(a.drop_first(), b);
        assert(surrogateescape_encode(a + b) =~= surrogateescape_encode(a) + surrogateescape_encode(
            b,
        ));
    }
}

/// Encoding with `surrogateescape` gives back the bytes that were decoded
/// with it, whatever they are (valid UTF-8 or not): the decoding of
/// `argv` loses nothing.
pub proof fn lemma_surrogateescape_round_trip(bytes: Seq<u8>)
    ensures
        surrogateescape_encode(surrogateescape_decode(bytes)) == bytes,
    decreases bytes.len(),
{
    if bytes.len() > 0 {
        lemma_first_scalar(bytes);
        if valid_first_scalar(bytes) {
            let n = length_of_first_scalar(bytes);
            let rest = bytes.subrange(n, bytes.len() as int);
            let c = decode_first_scalar(bytes);
            lemma_surrogateescape_round_trip(rest);
            lemma_encode_concat(seq![c], surrogateescape_decode(rest));
            assert(seq![c].drop_first() =~= Seq::<u32>::empty());
            assert(surrogateescape_encode(seq![c]) =~= encode_scalar(c)) by {
                assert(seq![c][0] == c);
                assert(surrogateescape_encode(Seq::<u32>::empty()) =~= Seq::<u8>::empty());
                assert(surrogateescape_encode_one(c) == encode_scalar(c));
            }
            assert(bytes =~= bytes.subrange(0, n) + rest);
        } else {
            let rest = bytes.subrange(1, bytes.len() as int);
            let c = (0xDC00 + bytes[0]) as u32;
            lemma_surrogateescape_round_trip(rest);
            lemma_encode_concat(seq![c], surrogateescape_decode(rest));
            assert(seq![c].drop_first() =~= Seq::<u32>::empty());
            assert(surrogateescape_encode(seq![c]) =~= seq![bytes[0]]) by {
                assert(seq![c][0] == c);
                assert(surrogateescape_encode(Seq::<u32>::empty()) =~= Seq::<u8>::empty());
                assert(!is_scalar(c));
                assert(surrogateescape_encode_one(c) =~= seq![bytes[0]]);
            }
            assert(bytes =~= seq![bytes[0]] + rest);
        }
    }
}

/// The first scalar of `bytes[i..]` and its length, if `bytes[i..]` starts
/// with a well formed UTF-8 sequence.
fn first_scalar(bytes: &[u8], i: usize) -> (r: Option<(u32, usize)>)
    requires
        i < bytes@.len(),
    ensures
        ({
            let t = bytes@.subrange(i as int, bytes@.len() as int);
            match r {
                Some((c, n)) => valid_first_scalar(t) && c == decode_first_scalar(t) && n
                    == length_of_first_scalar(t),
                None => !valid_first_scalar(t),
            }
        }),
{
    let ghost t = bytes@.subrange(i as int, bytes@.len() as int);
    let len = bytes.len();
    let b0 = bytes[i];
    if b0 <= 0x7f {
        return Some(((b0 & 0x7F) as u32, 1));
    }
    if 0xc0 <= b0 && b0 <= 0xdf {
        if len - i > 1 && 0x80 <= bytes[i + 1] && bytes[i + 1] <= 0xbf {
            let b1 = bytes[i + 1];
            let c: u32 = (((b0 & 0x1F) as u32) << 6) | ((b1 & 0x3f) as u32);
            if 0x80 <= c && !(0xD800 <= c && c <= 0xDFFF) {
                return Some((c, 2));
            }
        }
        return None;
    }
    if 0xe0 <= b0 && b0 <= 0xef {
        if len - i > 2 && 0x80 <= bytes[i + 1] && bytes[i + 1] <= 0xbf && 0x80 <= bytes[i + 2]
            && bytes[i + 2] <= 0xbf {
            let b1 = bytes[i + 1];
            let b2 = bytes[i + 2];
            let c: u32 = (((b0 & 0x0F) as u32) << 12) | (((b1 & 0x3f) as u32) << 6) | ((b2
                & 0x3f) as u32);
            if 0x800 <= c && !(0xD800 <= c && c <= 0xDFFF) {
                return Some((c, 3));
            }
        }
        return None;
    }
    if 0xf0 <= b0 && b0 <= 0xf7 {
        if len - i > 3 && 0x80 <= bytes[i + 1] && bytes[i + 1] <= 0xbf && 0x80 <= bytes[i + 2]
            && bytes[i + 2] <= 0xbf && 0x80 <= bytes[i + 3] && bytes[i + 3] <= 0xbf {
            let b1 = bytes[i + 1];
            let b2 = bytes[i + 2];
            let b3 = bytes[i + 3];
            let c: u32 = (((b0 & 0x07) as u32) << 18) | (((b1 & 0x3f) as u32) << 12) | (((b2
                & 0x3f) as u32) << 6) | ((b3 & 0x3f) as u32);
            if 0x10000 <= c && c <= 0x10ffff && !(0xD800 <= c && c <= 0xDFFF) {
                return Some((c, 4));
            }
        }
        return None;
    }
    None
}

/// Appends the bytes of the code point `c` encoded with UTF-8 and the
/// `surrogateescape` error handler.
fn push_surrogateescape(out: &mut Vec<u8>, c: u32)
    ensures
        final(out)@ == old(out)@ + surrogateescape_encode_one(c),
{
    if c <= 0x7F {
        out.push((c & 0x7F) as u8);
    } else if c <= 0x7FF {
        out.push(0xC0 | ((c >> 6) & 0x1F) as u8);
        out.push(0x80 | (c & 0x3F) as u8);
    } else if c <= 0xFFFF && !(0xD800 <= c && c <= 0xDFFF) {
        out.push(0xE0 | ((c >> 12) & 0x0F) as u8);
        out.push(0x80 | ((c >> 6) & 0x3F) as u8);
        out.push(0x80 | (c & 0x3F) as u8);
    } else if 0x10000 <= c && c <= 0x10FFFF {
        out.push(0xF0 | ((c >> 18) & 0x7) as u8);
        out.push(0x80 | ((c >> 12) & 0x3F) as u8);
        out.push(0x80 | ((c >> 6) & 0x3F) as u8);
        out.push(0x80 | (c & 0x3F) as u8);
    } else if 0xDC80 <= c && c <= 0xDCFF {
        out.push((c - 0xDC00) as u8);
    } else {
        out.push(63u8);
    }
}

impl PyStr {
    /// A copy of `self`.
    pub fn copy(&self) -> (r: PyStr)
        ensures
            r@ == self@,
    {
        let mut v: Vec<u32> = Vec::new();
        push_all(&mut v, &self.0);
        PyStr(v)
    }

    /// Decodes `bytes` like Python decodes `argv` on POSIX: UTF-8 with the
    /// `surrogateescape` error handler.
    pub fn from_bytes_surrogateescape(bytes: &[u8]) -> (r: PyStr)
        ensures
            r@ == surrogateescape_decode(bytes@),
    {
        let mut out: Vec<u32> = Vec::new();
        let mut i: usize = 0;
        assert(bytes@.subrange(0, bytes@.len() as int) =~= bytes@);
        assert(out@ + surrogateescape_decode(bytes@) =~= surrogateescape_decode(bytes@));
        while i < bytes.len()
            invariant
                0 <= i <= bytes@.len(),
                surrogateescape_decode(bytes@) == out@ + surrogateescape_decode(
                    bytes@.subrange(i as int, bytes@.len() as int),
                ),
            decreases bytes@.len() - i,
        {
            let ghost t = bytes@.subrange(i as int, bytes@.len() as int);
            match first_scalar(bytes, i) {
                Some((c, n)) => {
                    out.push(c);
                    assert(t.subrange(n as int, t.len() as int) =~= bytes@.subrange(
                        i + n,
                        bytes@.len() as int,
                    ));
                    i = i + n;
                },
                None => {
                    out.push(0xDC00u32 + bytes[i] as u32);
                    assert(t.subrange(1, t.len() as int) =~= bytes@.subrange(
                        i + 1,
                        bytes@.len() as int,
                    ));
                    i = i + 1;
                },
            }
        }
        assert(bytes@.subrange(i as int, bytes@.len() as int) =~= Seq::<u8>::empty());
        assert(out@ + Seq::<u32>::empty() =~= out@);
        PyStr(out)
    }

    /// Encodes like Python's `sys.stdout` does in the UTF-8 mode the
    /// Python tools run with: UTF-8 with the `surrogateescape` error
    /// handler (`U+DC80..=U+DCFF` become the bytes `0x80..=0xFF`); other
    /// lone surrogates are written as `?`.
    pub fn encode_surrogateescape(&self) -> (r: Vec<u8>)
        ensures
            r@ == surrogateescape_encode(self@),
    {
        let mut out: Vec<u8> = Vec::new();
        let mut i: usize = 0;
        assert(self@.skip(0) =~= self@);
        assert(out@ + surrogateescape_encode(self@) =~= surrogateescape_encode(self@));
        while i < self.0.len()
            invariant
                0 <= i <= self@.len(),
                surrogateescape_encode(self@) == out@ + surrogateescape_encode(self@.skip(i as int)),
            decreases self@.len() - i,
        {
            let ghost rest = self@.skip(i as int);
            push_surrogateescape(&mut out, self.0[i]);
            assert(rest.drop_first() =~= self@.skip(i + 1));
            i = i + 1;
        }
        assert(out@ + Seq::<u8>::empty() =~= out@);
        out
    }
}

impl PyStr {
    /// A `PyStr` of the characters of `s`.
    pub fn from_str(s: &str) -> (r: PyStr)
        ensures
            r@ == code_points(s@),
    {
        let chars = chars_of(s);
        PyStr(code_points_of(&chars))
    }

    /// The number of code points (`len()`).
    pub fn len(&self) -> (r: usize)
        ensures
            r == self@.len(),
    {
        self.0.len()
    }

    /// `not s`.
    pub fn is_empty(&self) -> (r: bool)
        ensures
            r == (self@.len() == 0),
    {
        self.0.len() == 0
    }

    /// `self == other` for a Rust string `other`.
    pub fn eq_str(&self, other: &str) -> (r: bool)
        ensures
            r == (self@ == code_points(other@)),
    {
        let o = PyStr::from_str(other);
        self.eq(&o)
    }

    /// `self == other`.
    pub fn eq(&self, other: &PyStr) -> (r: bool)
        ensures
            r == (self@ == other@),
    {
        if self.0.len() != other.0.len() {
            return false;
        }
        let mut i: usize = 0;
        while i < self.0.len()
            invariant
                self@.len() == other@.len(),
                0 <= i <= self@.len(),
                forall|j: int| 0 <= j < i ==> self@[j] == other@[j],
            decreases self@.len() - i,
        {
            if self.0[i] != other.0[i] {
                return false;
            }
            i = i + 1;
        }
        assert(self@ =~= other@);
        true
    }

    /// `other.startswith(self)` for a Rust string `other`.
    pub fn is_prefix_of(&self, other: &str) -> (r: bool)
        ensures
            r == self@.is_prefix_of(code_points(other@)),
    {
        let o = PyStr::from_str(other);
        if self.0.len() > o.0.len() {
            return false;
        }
        let mut i: usize = 0;
        while i < self.0.len()
            invariant
                o@ == code_points(other@),
                self@.len() <= o@.len(),
                0 <= i <= self@.len(),
                forall|j: int| 0 <= j < i ==> self@[j] == o@[j],
            decreases self@.len() - i,
        {
            if self.0[i] != o.0[i] {
                assert(o@.subrange(0, self@.len() as int)[i as int] == o@[i as int]);
                assert(self@[i as int] != o@.subrange(0, self@.len() as int)[i as int]);
                assert(!self@.is_prefix_of(o@));
                return false;
            }
            i = i + 1;
        }
        assert(self@ =~= o@.subrange(0, self@.len() as int));
        true
    }

    /// `self[i]`, if it exists.
    pub fn at(&self, i: usize) -> (r: Option<u32>)
        ensures
            r == (if i < self@.len() {
                Some(self@[i as int])
            } else {
                None
            }),
    {
        if i < self.0.len() {
            Some(self.0[i])
        } else {
            None
        }
    }

    /// `self[from:]`.
    pub fn slice_from(&self, from: usize) -> (r: PyStr)
        ensures
            r@ == (if from <= self@.len() {
                self@.skip(from as int)
            } else {
                Seq::empty()
            }),
    {
        let mut out: Vec<u32> = Vec::new();
        let mut i: usize = from;
        while i < self.0.len()
            invariant
                from <= i,
                i <= self@.len() || from > self@.len(),
                from <= self@.len() ==> out@ == self@.subrange(from as int, i as int),
                from > self@.len() ==> out@.len() == 0,
            decreases self@.len() - i,
        {
            out.push(self.0[i]);
            assert(self@.subrange(from as int, i + 1) =~= self@.subrange(from as int, i as int).push(
                self@[i as int],
            ));
            i = i + 1;
        }
        proof {
            if from <= self@.len() {
                assert(self@.skip(from as int) =~= self@.subrange(from as int, self@.len() as int));
            } else {
                assert(out@ =~= Seq::<u32>::empty());
            }
        }
        PyStr(out)
    }

    /// `self.partition('=')`: the text before the first `=` and the text
    /// after it, or `self` and `None` without a `=`.
    pub fn partition_eq(&self) -> (r: (PyStr, Option<PyStr>))
        ensures
            (r.0@, opt_seq(r.1)) == spec_partition_eq(self@),
    {
        let mut i: usize = 0;
        assert(self@.skip(0) =~= self@);
        while i < self.0.len()
            invariant
                0 <= i <= self@.len(),
                index_of_code(self@, 61) == (match index_of_code(self@.skip(i as int), 61) {
                    Some(k) => Some(k + i),
                    None => None,
                }),
            decreases self@.len() - i,
        {
            assert(self@.skip(i as int).drop_first() =~= self@.skip(i + 1));
            assert(self@.skip(i as int)[0] == self@[i as int]);
            if self.0[i] == 61u32 {
                let mut before: Vec<u32> = Vec::new();
                let mut k: usize = 0;
                while k < i
                    invariant
                        0 <= k <= i,
                        i < self@.len(),
                        before@ == self@.take(k as int),
                    decreases i - k,
                {
                    before.push(self.0[k]);
                    assert(self@.take(k + 1) =~= self@.take(k as int).push(self@[k as int]));
                    k = k + 1;
                }
                let after = self.slice_from(i + 1);
                return (PyStr(before), Some(after));
            }
            i = i + 1;
        }
        assert(self@.skip(i as int) =~= Seq::<u32>::empty());
        (self.copy(), None)
    }

    /// `c in self`.
    pub fn contains(&self, c: char) -> (r: bool)
        ensures
            r == self@.contains(c as u32),
    {
        let target = c as u32;
        let mut i: usize = 0;
        while i < self.0.len()
            invariant
                0 <= i <= self@.len(),
                target == c as u32,
                forall|j: int| 0 <= j < i ==> self@[j] != target,
            decreases self@.len() - i,
        {
            if self.0[i] == target {
                return true;
            }
            i = i + 1;
        }
        false
    }

    /// Encodes like Python's `sys.stderr` does: UTF-8 with the
    /// `backslashreplace` error handler (a lone surrogate becomes
    /// `\udcXX`).
    pub fn encode_backslashreplace(&self) -> (r: String)
        ensures
            r@ == backslashreplace(self@),
    {
        let mut out: Vec<char> = Vec::new();
        let mut i: usize = 0;
        assert(self@.skip(0) =~= self@);
        assert(out@ + backslashreplace(self@) =~= backslashreplace(self@));
        while i < self.0.len()
            invariant
                0 <= i <= self@.len(),
                backslashreplace(self@) == out@ + backslashreplace(self@.skip(i as int)),
            decreases self@.len() - i,
        {
            let ghost rest = self@.skip(i as int);
            let c = self.0[i];
            match char_from_u32(c) {
                Some(ch) => {
                    out.push(ch);
                    proof {
                        vstd::utf8::char_u32_cast(ch, c);
                    }
                    assert(backslashreplace_one(c) =~= seq![ch]);
                },
                None => {
                    let ghost before = out@;
                    out.push('\\');
                    out.push('u');
                    push_radix_padded(&mut out, c as u64, 16, false, 4, '0');
                    assert(out@ =~= before + backslashreplace_one(c));
                },
            }
            assert(rest.drop_first() =~= self@.skip(i + 1));
            i = i + 1;
        }
        assert(out@ + Seq::<char>::empty() =~= out@);
        string_of(&out)
    }

    /// Python's `repr()` of the `str`.
    pub fn repr(&self) -> (r: PyStr)
        ensures
            r@ == repr(self@),
    {
        let quote: u32 = if self.contains('\'') && !self.contains('"') {
            34
        } else {
            39
        };
        let mut out: Vec<u32> = Vec::new();
        out.push(quote);
        let mut i: usize = 0;
        while i < self.0.len()
            invariant
                0 <= i <= self@.len(),
                quote == repr_quote(self@),
                out@ == seq![quote] + repr_body(self@.take(i as int), quote),
            decreases self@.len() - i,
        {
            let c = self.0[i];
            let ghost before = out@;
            push_repr(&mut out, c, quote);
            proof {
                lemma_repr_body_push(self@.take(i as int), self@[i as int], quote);
                assert(self@.take(i + 1) =~= self@.take(i as int).push(self@[i as int]));
            }
            i = i + 1;
        }
        out.push(quote);
        assert(self@.take(self@.len() as int) =~= self@);
        PyStr(out)
    }
}

/// The index of the first `c` of `s`.
pub open spec fn index_of_code(s: Seq<u32>, c: u32) -> Option<int>
    decreases s.len(),
{
    if s.len() == 0 {
        None
    } else if s[0] == c {
        Some(0)
    } else {
        match index_of_code(s.drop_first(), c) {
            Some(k) => Some(k + 1),
            None => None,
        }
    }
}

/// `s.partition('=')`: the text before the first `=` and the text after
/// it, if there is one.
pub open spec fn spec_partition_eq(s: Seq<u32>) -> (Seq<u32>, Option<Seq<u32>>) {
    match index_of_code(s, 61) {
        Some(i) => (s.take(i), Some(s.skip(i + 1))),
        None => (s, None),
    }
}

/// The view of an optional `PyStr`.
pub open spec fn opt_seq(o: Option<PyStr>) -> Option<Seq<u32>> {
    match o {
        Some(p) => Some(p@),
        None => None,
    }
}

/// One code point as Python's `sys.stderr` writes it: itself if it is a
/// scalar, `\uXXXX` (lower case hex, at least four digits) otherwise.
pub open spec fn backslashreplace_one(c: u32) -> Seq<char> {
    if is_scalar(c) {
        seq![c as char]
    } else {
        seq!['\\', 'u'] + pad_left(radix_text(c as nat, 16, false), 4, '0')
    }
}

/// `s` as Python's `sys.stderr` writes it.
pub open spec fn backslashreplace(s: Seq<u32>) -> Seq<char>
    decreases s.len(),
{
    if s.len() == 0 {
        seq![]
    } else {
        backslashreplace_one(s[0]) + backslashreplace(s.drop_first())
    }
}

/// The quote `repr()` uses: `"` if the text holds `'` but no `"`, else `'`.
pub open spec fn repr_quote(s: Seq<u32>) -> u32 {
    if s.contains(39u32) && !s.contains(34u32) {
        34
    } else {
        39
    }
}

/// `\` followed by `letter` and `c` in hex with `width` digits.
pub open spec fn hex_escape(letter: char, c: u32, width: nat) -> Seq<u32> {
    seq![92u32, letter as u32] + code_points(pad_left(radix_text(c as nat, 16, false), width, '0'))
}

/// How `repr()` writes the code point `c` inside the quotes `quote`.
pub open spec fn repr_one(c: u32, quote: u32) -> Seq<u32> {
    if c == quote || c == 92 {
        seq![92u32, c]
    } else if c == 9 {
        seq![92u32, 116u32]
    } else if c == 10 {
        seq![92u32, 110u32]
    } else if c == 13 {
        seq![92u32, 114u32]
    } else if c < 0x20 || c == 0x7F {
        hex_escape('x', c, 2)
    } else if c < 0x7F || spec_is_printable(c) {
        seq![c]
    } else if c <= 0xFF {
        hex_escape('x', c, 2)
    } else if c <= 0xFFFF {
        hex_escape('u', c, 4)
    } else {
        hex_escape('U', c, 8)
    }
}

/// The code points of `s` as `repr()` writes them between the quotes.
pub open spec fn repr_body(s: Seq<u32>, quote: u32) -> Seq<u32>
    decreases s.len(),
{
    if s.len() == 0 {
        seq![]
    } else {
        repr_body(s.drop_last(), quote) + repr_one(s.last(), quote)
    }
}

/// Python's `repr()` of the `str` `s`.
pub open spec fn repr(s: Seq<u32>) -> Seq<u32> {
    seq![repr_quote(s)] + repr_body(s, repr_quote(s)) + seq![repr_quote(s)]
}

proof fn lemma_repr_body_push(s: Seq<u32>, c: u32, quote: u32)
    ensures
        repr_body(s.push(c), quote) == repr_body(s, quote) + repr_one(c, quote),
{
    assert(s.push(c).drop_last() =~= s);
}

/// Appends `\`, `letter` and `c` in hex with `width` digits.
fn push_hex_escape(out: &mut Vec<u32>, letter: char, c: u32, width: usize)
    ensures
        final(out)@ == old(out)@ + hex_escape(letter, c, width as nat),
{
    out.push(92u32);
    out.push(letter as u32);
    let mut digits: Vec<char> = Vec::new();
    push_radix_padded(&mut digits, c as u64, 16, false, width, '0');
    assert(digits@ =~= pad_left(radix_text(c as nat, 16, false), width as nat, '0'));
    let points = code_points_of(&digits);
    push_all(out, &points);
    assert(final(out)@ =~= old(out)@ + hex_escape(letter, c, width as nat));
}

/// Appends `c` as `repr()` writes it inside the quotes `quote`.
fn push_repr(out: &mut Vec<u32>, c: u32, quote: u32)
    ensures
        final(out)@ == old(out)@ + repr_one(c, quote),
{
    if c == quote || c == 92 {
        out.push(92u32);
        out.push(c);
    } else if c == 9 {
        out.push(92u32);
        out.push(116u32);
    } else if c == 10 {
        out.push(92u32);
        out.push(110u32);
    } else if c == 13 {
        out.push(92u32);
        out.push(114u32);
    } else if c < 0x20 || c == 0x7F {
        push_hex_escape(out, 'x', c, 2);
    } else if c < 0x7F || is_printable(c) {
        out.push(c);
    } else if c <= 0xFF {
        push_hex_escape(out, 'x', c, 2);
    } else if c <= 0xFFFF {
        push_hex_escape(out, 'u', c, 4);
    } else {
        push_hex_escape(out, 'U', c, 8);
    }
    assert(final(out)@ =~= old(out)@ + repr_one(c, quote));
}

// ---------------------------------------------------------------------
// `int()`.

/// Python's default limit on the number of digits `int()` converts
/// (`sys.int_max_str_digits`).
pub const INT_MAX_STR_DIGITS: usize = 4300;

/// The number of white space code points at the start of `s`.
pub open spec fn leading_spaces(s: Seq<u32>) -> nat
    decreases s.len(),
{
    if s.len() > 0 && spec_is_space(s[0]) {
        1 + leading_spaces(s.drop_first())
    } else {
        0
    }
}

/// The number of white space code points at the end of `s`.
pub open spec fn trailing_spaces(s: Seq<u32>) -> nat
    decreases s.len(),
{
    if s.len() > 0 && spec_is_space(s.last()) {
        1 + trailing_spaces(s.drop_last())
    } else {
        0
    }
}

/// The digits and underscores of an `int()` literal are well formed: not
/// empty, every code point but `_` a decimal digit, every `_` after a
/// digit, and a digit last.
pub open spec fn int_body_valid(body: Seq<u32>) -> bool {
    &&& body.len() > 0
    &&& body.last() != 95
    &&& forall|i: int| 0 <= i < body.len() && body[i] != 95 ==> spec_decimal_value(body[i]) is Some
    &&& forall|i: int|
        #![trigger body[i]]
        0 <= i < body.len() && body[i] == 95 ==> i > 0 && body[i - 1] != 95
}

/// The number of digits (not underscores) of `body`.
pub open spec fn int_digit_count(body: Seq<u32>) -> nat
    decreases body.len(),
{
    if body.len() == 0 {
        0
    } else if body.last() == 95 {
        int_digit_count(body.drop_last())
    } else {
        int_digit_count(body.drop_last()) + 1
    }
}

/// The value of the decimal digits of `body` (underscores skipped).
pub open spec fn int_value(body: Seq<u32>) -> nat
    decreases body.len(),
{
    if body.len() == 0 {
        0
    } else if body.last() == 95 {
        int_value(body.drop_last())
    } else {
        int_value(body.drop_last()) * 10 + match spec_decimal_value(body.last()) {
            Some(d) => d as nat,
            None => 0,
        }
    }
}

/// `min(v, i64::MAX)`.
pub open spec fn saturate(v: nat) -> int {
    if v > i64::MAX {
        i64::MAX as int
    } else {
        v as int
    }
}

/// `int(s)` of Python for a `str` `s`, saturated to the `i64` range, or
/// `None` where Python raises `ValueError`: white space around an
/// optionally signed run of decimal digits separated by single
/// underscores, at most [`INT_MAX_STR_DIGITS`] digits.
pub open spec fn spec_py_int(s: Seq<u32>) -> Option<i64> {
    let lead = leading_spaces(s);
    if lead == s.len() {
        None
    } else {
        let trimmed = s.subrange(lead as int, s.len() - trailing_spaces(s));
        let negative = trimmed[0] == 45;
        let body = if trimmed[0] == 45 || trimmed[0] == 43 {
            trimmed.drop_first()
        } else {
            trimmed
        };
        int_of_body(body, negative)
    }
}

/// The value of the digits `body` of an `int()` literal with the sign
/// `negative`, or `None` if they are not well formed.
pub open spec fn int_of_body(body: Seq<u32>, negative: bool) -> Option<i64> {
    if int_body_valid(body) && int_digit_count(body) <= INT_MAX_STR_DIGITS {
        Some(
            (if negative {
                -saturate(int_value(body))
            } else {
                saturate(int_value(body))
            }) as i64,
        )
    } else {
        None
    }
}

proof fn lemma_leading_spaces(s: Seq<u32>, i: int)
    requires
        0 <= i <= s.len(),
        forall|j: int| 0 <= j < i ==> spec_is_space(s[j]),
        i < s.len() ==> !spec_is_space(s[i]),
    ensures
        leading_spaces(s) == i,
    decreases i,
{
    if i > 0 {
        assert forall|j: int| 0 <= j < i - 1 implies spec_is_space(s.drop_first()[j]) by {
            assert(s.drop_first()[j] == s[j + 1]);
        }
        lemma_leading_spaces(s.drop_first(), i - 1);
    }
}

proof fn lemma_trailing_spaces(s: Seq<u32>, k: int)
    requires
        0 <= k <= s.len(),
        forall|j: int| s.len() - k <= j < s.len() ==> spec_is_space(s[j]),
        k < s.len() ==> !spec_is_space(s[s.len() - k - 1]),
    ensures
        trailing_spaces(s) == k,
    decreases k,
{
    if k > 0 {
        lemma_trailing_spaces(s.drop_last(), k - 1);
    }
}

proof fn lemma_saturate_step(v: nat, d: int, value: int)
    requires
        0 <= d < 10,
        value == saturate(v),
    ensures
        value > (i64::MAX - d) / 10 ==> saturate((v * 10 + d) as nat) == i64::MAX,
        value <= (i64::MAX - d) / 10 ==> saturate((v * 10 + d) as nat) == value * 10 + d
            && value * 10 + d <= i64::MAX,
{
    let m = i64::MAX as int;
    if value > (m - d) / 10 {
        if v > m {
            assert(v * 10 + d > m) by (nonlinear_arith)
                requires
                    v > m,
                    0 <= d,
            ;
        } else {
            assert(v * 10 + d > m) by (nonlinear_arith)
                requires
                    v > (m - d) / 10,
                    0 <= d < 10,
                    m > 10,
            ;
        }
    } else {
        assert(value * 10 + d <= m) by (nonlinear_arith)
            requires
                value <= (m - d) / 10,
                0 <= d < 10,
                m > 10,
        ;
    }
}

proof fn lemma_digit_count_grows(body: Seq<u32>, a: int, b: int)
    requires
        0 <= a <= b <= body.len(),
    ensures
        int_digit_count(body.take(a)) <= int_digit_count(body.take(b)),
    decreases b - a,
{
    if a < b {
        lemma_digit_count_grows(body, a, b - 1);
        assert(body.take(b).drop_last() =~= body.take(b - 1));
    }
}

/// Python's `int(s)` (base 10) for a `str`, saturated to the `i64` range;
/// `None` where Python raises `ValueError`.
///
/// Leading and trailing white space is skipped, an optional sign is
/// accepted, digits may be any Unicode decimal digits and may be separated
/// by single underscores. More than [`INT_MAX_STR_DIGITS`] digits (leading
/// zeros included; underscores, white space and the sign excluded) is an
/// error, like with Python's default limit.
pub fn py_int(s: &PyStr) -> (r: Option<i64>)
    ensures
        r == spec_py_int(s@),
{
    let chars = &s.0;
    let n = chars.len();
    let mut start: usize = 0;
    while start < n && is_space(chars[start])
        invariant
            0 <= start <= n,
            n == s@.len(),
            chars@ == s@,
            forall|j: int| 0 <= j < start ==> spec_is_space(s@[j]),
        decreases n - start,
    {
        start = start + 1;
    }
    proof {
        lemma_leading_spaces(s@, start as int);
    }
    if start == n {
        return None;
    }
    let mut end: usize = n;
    while end > start && is_space(chars[end - 1])
        invariant
            start < n,
            start <= end <= n,
            n == s@.len(),
            chars@ == s@,
            forall|j: int| end <= j < n ==> spec_is_space(s@[j]),
            !spec_is_space(s@[start as int]),
        decreases end,
    {
        end = end - 1;
    }
    proof {
        lemma_trailing_spaces(s@, n - end);
    }
    let ghost trimmed = s@.subrange(start as int, end as int);
    let negative = chars[start] == 45;
    let mut i = start;
    if chars[start] == 45 || chars[start] == 43 {
        i = start + 1;
    }
    let ghost body = s@.subrange(i as int, end as int);
    assert(body =~= (if trimmed[0] == 45 || trimmed[0] == 43 {
        trimmed.drop_first()
    } else {
        trimmed
    }));
    assert(spec_py_int(s@) == int_of_body(body, negative));
    if i == end {
        return None;
    }
    let mut value: i64 = 0;
    let mut previous_was_digit = false;
    let mut digits: usize = 0;
    let mut k = i;
    while k < end
        invariant
            i <= k <= end <= n,
            i < end,
            n == s@.len(),
            chars@ == s@,
            body == s@.subrange(i as int, end as int),
            spec_py_int(s@) == int_of_body(body, negative),
            0 <= value,
            value == saturate(int_value(body.take(k - i))),
            digits == int_digit_count(body.take(k - i)),
            digits <= INT_MAX_STR_DIGITS,
            previous_was_digit == (k > i && body[k - i - 1] != 95),
            forall|j: int| 0 <= j < k - i && body[j] != 95 ==> spec_decimal_value(body[j]) is Some,
            forall|j: int|
                #![trigger body[j]]
                0 <= j < k - i && body[j] == 95 ==> j > 0 && body[j - 1] != 95,
        decreases end - k,
    {
        let c = chars[k];
        let ghost prefix = body.take(k - i);
        assert(body.take(k - i + 1).drop_last() =~= prefix);
        assert(body.take(k - i + 1).last() == c);
        if c == 95 {
            if !previous_was_digit {
                assert(!int_body_valid(body));
                return None;
            }
            previous_was_digit = false;
        } else {
            let digit = match decimal_value(c) {
                Some(d) => d,
                None => {
                    assert(!int_body_valid(body));
                    return None;
                },
            };
            if digits == INT_MAX_STR_DIGITS {
                proof {
                    lemma_digit_count_grows(body, k - i + 1, end - i);
                    assert(body.take(end - i) =~= body);
                }
                return None;
            }
            digits = digits + 1;
            let ghost v = int_value(prefix);
            assert(int_value(body.take(k - i + 1)) == v * 10 + digit);
            assert(int_digit_count(body.take(k - i + 1)) == int_digit_count(prefix) + 1);
            if value > (i64::MAX - digit as i64) / 10 {
                proof {
                    lemma_saturate_step(v, digit as int, value as int);
                }
                value = i64::MAX;
            } else {
                proof {
                    lemma_saturate_step(v, digit as int, value as int);
                }
                value = value * 10 + digit as i64;
            }
            previous_was_digit = true;
        }
        k = k + 1;
    }
    assert(body.take(k - i) =~= body);
    if !previous_was_digit {
        return None;
    }
    assert(int_body_valid(body));
    assert(int_of_body(body, negative) == Some((if negative {
        -(value as int)
    } else {
        value as int
    }) as i64));
    Some(if negative { -value } else { value })
}

} // verus!

verus! {

proof fn lemma_ascii_digit_body(body: Seq<u32>, ds: Seq<nat>)
    requires
        body.len() == ds.len(),
        forall|i: int| 0 <= i < ds.len() ==> #[trigger] ds[i] < 10 && body[i] == ds[i] + 48,
    ensures
        int_digit_count(body) == body.len(),
        int_value(body) == crate::tool::canonical::base10(ds),
        forall|i: int| 0 <= i < body.len() ==> body[i] != 95 && #[trigger] spec_decimal_value(body[i]) is Some,
    decreases body.len(),
{
    if body.len() > 0 {
        let b1 = body.drop_last();
        let d1 = ds.drop_last();
        assert forall|i: int| 0 <= i < d1.len() implies #[trigger] d1[i] < 10 && b1[i] == d1[i] + 48 by {
            assert(ds[i] < 10);
        }
        lemma_ascii_digit_body(b1, d1);
        let k = body.len() - 1;
        assert(ds[k] < 10);
        crate::unicode::lemma_ascii_decimal_value(body[k]);
        assert forall|i: int| 0 <= i < body.len() implies body[i] != 95 && #[trigger] spec_decimal_value(
            body[i],
        ) is Some by {
            assert(ds[i] < 10);
            crate::unicode::lemma_ascii_decimal_value(body[i]);
        }
    }
}

/// `int()` reads back the decimal text of every `i64` but `i64::MIN`
/// (whose magnitude saturates to `i64::MAX`).
pub proof fn lemma_py_int_of_decimal_text(n: i64)
    requires
        n != i64::MIN,
    ensures
        spec_py_int(code_points(crate::text::decimal_text(n as int))) == Some(n),
{
    let m: nat = if n < 0 {
        (-n) as nat
    } else {
        n as nat
    };
    let ds = crate::text::digits(m, 10);
    crate::tool::canonical::lemma_digits_decimal(m);
    crate::tool::canonical::lemma_digits_value(m);
    assert(crate::tool::canonical::pow10(20) == 100000000000000000000) by {
        reveal_with_fuel(crate::tool::canonical::pow10, 21);
    }
    crate::tool::canonical::lemma_digits_len(m, 20);
    let text = crate::text::radix_text(m, 10, false);
    let body = code_points(text);
    assert forall|i: int| 0 <= i < ds.len() implies #[trigger] ds[i] < 10 && body[i] == ds[i] + 48 by {
        assert(ds[i] < 10);
        assert(text[i] == crate::text::digit_char(ds[i], false));
    }
    lemma_ascii_digit_body(body, ds);
    let s = code_points(crate::text::decimal_text(n as int));
    if n < 0 {
        assert(s =~= seq![45u32] + body);
    } else {
        assert(s =~= body);
    }
    // No white space around.
    crate::unicode::lemma_ascii_is_space(s[0]);
    assert(!spec_is_space(s[0]));
    assert(leading_spaces(s) == 0);
    let last = s.len() - 1;
    assert(s[last] == body[body.len() - 1]);
    crate::unicode::lemma_ascii_is_space(s[last]);
    assert(trailing_spaces(s) == 0);
    assert(s.subrange(0, s.len() as int) =~= s);
    if n < 0 {
        assert(s.drop_first() =~= body);
    }
    assert(body[0] != 43 && body[0] != 45);
    assert(int_body_valid(body));
}

} // verus!
