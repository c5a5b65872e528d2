//! Text helpers: characters of string slices, strings built from
//! characters, and the digits of numbers.

use vstd::prelude::*;
use vstd::std_specs::iter::IteratorSpec;
use vstd::string::StringSliceAdditionalSpecFns;
use vstd::utf8::encode_utf8;

verus! {

broadcast use vstd::string::group_string_axioms;

/// The characters of `s`.
pub fn chars_of(s: &str) -> (r: Vec<char>)
    ensures
        r@ == s@,
{
    let mut out: Vec<char> = Vec::new();
    let mut it = s.chars();
    loop
        invariant
            out@ + it.remaining() == s@,
            it.decrease() is Some,
        ensures
            out@ == s@,
        decreases it.decrease()->0,
    {
        match it.next() {
            Some(c) => {
                out.push(c);
            },
            None => {
                assert(out@ + Seq::<char>::empty() == out@);
                break;
            },
        }
    }
    out
}

/// `char::from_u32`: the character of `c` if `c` is a Unicode scalar
/// value (not a surrogate, at most `0x10FFFF`), else `None`.
#[verifier::external_body]
pub fn char_from_u32(c: u32) -> (r: Option<char>)
    ensures
        r is Some <==> vstd::utf8::is_scalar(c),
        r matches Some(ch) ==> ch as u32 == c,
{
    char::from_u32(c)
}

/// The code points of `s`.
pub open spec fn code_points(s: Seq<char>) -> Seq<u32> {
    s.map_values(|c: char| c as u32)
}

/// The code points of `s`.
pub fn code_points_of(s: &Vec<char>) -> (r: Vec<u32>)
    ensures
        r@ == code_points(s@),
{
    let mut out: Vec<u32> = Vec::new();
    let mut i: usize = 0;
    while i < s.len()
        invariant
            0 <= i <= s@.len(),
            out@ == code_points(s@.take(i as int)),
        decreases s@.len() - i,
    {
        out.push(s[i] as u32);
        assert(code_points(s@.take(i + 1)) =~= code_points(s@.take(i as int)).push(s@[i as int] as u32));
        i = i + 1;
    }
    assert(s@.take(s@.len() as int) =~= s@);
    out
}

/// Appends `c` to `s` (`String::push`).
#[verifier::external_body]
fn push_char(s: &mut String, c: char)
    ensures
        final(s)@ == old(s)@.push(c),
{
    s.push(c);
}

/// The string of the characters `v`.
pub fn string_of(v: &Vec<char>) -> (r: String)
    ensures
        r@ == v@,
{
    let mut s = String::new();
    let mut i: usize = 0;
    while i < v.len()
        invariant
            0 <= i <= v@.len(),
            s@ == v@.take(i as int),
        decreases v@.len() - i,
    {
        push_char(&mut s, v[i]);
        assert(v@.take(i + 1) == v@.take(i as int).push(v@[i as int]));
        i = i + 1;
    }
    assert(v@.take(v@.len() as int) == v@);
    s
}

/// The digits of `n` in `base`, most significant first (a single digit 0
/// for 0).
pub open spec fn digits(n: nat, base: nat) -> Seq<nat>
    decreases n,
{
    if base < 2 || n < base {
        seq![n]
    } else {
        proof {
            vstd::arithmetic::div_mod::lemma_div_decreases(n as int, base as int);
        }
        digits(n / base, base).push(n % base)
    }
}

/// The character of the digit `d` (`0`-`9`, then `a`-`f` or `A`-`F`).
pub open spec fn digit_char(d: nat, upper: bool) -> char {
    if d < 10 {
        (d + 48) as char
    } else if upper {
        (d + 55) as char
    } else {
        (d + 87) as char
    }
}

/// `n` written in `base` without leading zeros (`format!("{n:x}")` and
/// the like).
pub open spec fn radix_text(n: nat, base: nat, upper: bool) -> Seq<char> {
    digits(n, base).map_values(|d: nat| digit_char(d, upper))
}

/// `s` padded on the left with `fill` to at least `width` characters.
pub open spec fn pad_left(s: Seq<char>, width: nat, fill: char) -> Seq<char> {
    if s.len() >= width {
        s
    } else {
        Seq::new((width - s.len()) as nat, |i: int| fill) + s
    }
}

/// `s` padded on the right with spaces to at least `width` characters.
pub open spec fn pad_right(s: Seq<char>, width: nat) -> Seq<char> {
    if s.len() >= width {
        s
    } else {
        s + Seq::new((width - s.len()) as nat, |i: int| ' ')
    }
}

/// The decimal text of `v` (`format!("{v}")`).
pub open spec fn decimal_text(v: int) -> Seq<char> {
    if v < 0 {
        seq!['-'] + radix_text((-v) as nat, 10, false)
    } else {
        radix_text(v as nat, 10, false)
    }
}

fn digit_char_exec(d: u64, upper: bool) -> (c: char)
    requires
        d < 16,
    ensures
        c == digit_char(d as nat, upper),
{
    let b: u8 = d as u8;
    if d < 10 {
        (48u8 + b) as char
    } else if upper {
        (55u8 + b) as char
    } else {
        (87u8 + b) as char
    }
}

/// Appends `n` written in `base`.
pub fn push_radix(out: &mut Vec<char>, n: u64, base: u64, upper: bool)
    requires
        2 <= base <= 16,
    ensures
        final(out)@ == old(out)@ + radix_text(n as nat, base as nat, upper),
    decreases n,
{
    if n < base {
        out.push(digit_char_exec(n, upper));
        assert(radix_text(n as nat, base as nat, upper) =~= seq![digit_char(n as nat, upper)]);
    } else {
        proof {
            vstd::arithmetic::div_mod::lemma_div_decreases(n as int, base as int);
        }
        push_radix(out, n / base, base, upper);
        out.push(digit_char_exec(n % base, upper));
        assert(radix_text(n as nat, base as nat, upper) =~= radix_text(
            (n / base) as nat,
            base as nat,
            upper,
        ).push(digit_char((n % base) as nat, upper)));
    }
}

/// Appends `n` written in `base`, padded on the left with `fill` to at
/// least `width` characters (`format!("{n:0width$x}")` and the like).
pub fn push_radix_padded(
    out: &mut Vec<char>,
    n: u64,
    base: u64,
    upper: bool,
    width: usize,
    fill: char,
)
    requires
        2 <= base <= 16,
    ensures
        final(out)@ == old(out)@ + pad_left(radix_text(n as nat, base as nat, upper), width as nat, fill),
{
    let mut text: Vec<char> = Vec::new();
    push_radix(&mut text, n, base, upper);
    assert(text@ =~= radix_text(n as nat, base as nat, upper));
    let ghost start = out@;
    let mut k: usize = text.len();
    while k < width
        invariant
            text.len() <= k <= width || (k == text.len() && k >= width),
            out@ == start + Seq::new((k - text.len()) as nat, |i: int| fill),
        decreases width - k,
    {
        out.push(fill);
        assert(start + Seq::new((k + 1 - text.len()) as nat, |i: int| fill) =~= (start + Seq::new(
            (k - text.len()) as nat,
            |i: int| fill,
        )).push(fill));
        k = k + 1;
    }
    let ghost padded = out@;
    let mut i: usize = 0;
    while i < text.len()
        invariant
            0 <= i <= text@.len(),
            out@ == padded + text@.take(i as int),
        decreases text@.len() - i,
    {
        out.push(text[i]);
        assert(text@.take(i + 1) =~= text@.take(i as int).push(text@[i as int]));
        i = i + 1;
    }
    assert(text@.take(text@.len() as int) =~= text@);
    proof {
        if text@.len() >= width {
            assert(padded =~= start);
        } else {
            assert(k == width);
        }
    }
    assert(out@ =~= start + pad_left(radix_text(n as nat, base as nat, upper), width as nat, fill));
}

/// Appends the decimal text of `v`.
pub fn push_decimal_i64(out: &mut Vec<char>, v: i64)
    ensures
        final(out)@ == old(out)@ + decimal_text(v as int),
{
    if v < 0 {
        out.push('-');
        let magnitude: u64 = if v == i64::MIN {
            9223372036854775808u64
        } else {
            (-v) as u64
        };
        push_radix(out, magnitude, 10, false);
        assert(final(out)@ =~= old(out)@ + decimal_text(v as int)) by {
            assert(magnitude as int == -(v as int));
        }
    } else {
        push_radix(out, v as u64, 10, false);
    }
}

/// Appends the characters of `s`.
pub fn push_str(out: &mut Vec<char>, s: &str)
    ensures
        final(out)@ == old(out)@ + s@,
{
    let chars = chars_of(s);
    push_all(out, &chars);
}

/// Appends the elements of `s`.
pub fn push_all<T: Copy>(out: &mut Vec<T>, s: &Vec<T>)
    ensures
        final(out)@ == old(out)@ + s@,
{
    let ghost start = out@;
    let mut i: usize = 0;
    while i < s.len()
        invariant
            0 <= i <= s@.len(),
            out@ == start + s@.take(i as int),
        decreases s@.len() - i,
    {
        out.push(s[i]);
        assert(s@.take(i + 1) =~= s@.take(i as int).push(s@[i as int]));
        i = i + 1;
    }
    assert(s@.take(s@.len() as int) =~= s@);
}

/// The UTF-8 bytes of the string slice `s`.
pub open spec fn utf8_of(s: &str) -> Seq<u8> {
    encode_utf8(s@)
}

/// The UTF-8 bytes of `s`.
pub fn bytes_of(s: &str) -> (r: Vec<u8>)
    ensures
        r@ == utf8_of(s),
{
    vstd::slice::slice_to_vec(s.as_bytes())
}

/// Appends the UTF-8 bytes of `s`.
pub fn push_str_bytes(out: &mut Vec<u8>, s: &str)
    ensures
        final(out)@ == old(out)@ + utf8_of(s),
{
    let b = bytes_of(s);
    push_all(out, &b);
}

/// `a == b`.
pub fn bytes_eq(a: &[u8], b: &[u8]) -> (r: bool)
    ensures
        r == (a@ == b@),
{
    if a.len() != b.len() {
        return false;
    }
    let mut i: usize = 0;
    while i < a.len()
        invariant
            a@.len() == b@.len(),
            0 <= i <= a@.len(),
            forall|j: int| 0 <= j < i ==> a@[j] == b@[j],
        decreases a@.len() - i,
    {
        if a[i] != b[i] {
            return false;
        }
        i = i + 1;
    }
    assert(a@ =~= b@);
    true
}

/// `a == b` for two string slices.
pub fn str_eq(a: &str, b: &str) -> (r: bool)
    ensures
        r == (a@ == b@),
{
    let x = chars_of(a);
    let y = chars_of(b);
    if x.len() != y.len() {
        return false;
    }
    let mut i: usize = 0;
    while i < x.len()
        invariant
            x@ == a@,
            y@ == b@,
            x@.len() == y@.len(),
            0 <= i <= x@.len(),
            forall|j: int| 0 <= j < i ==> x@[j] == y@[j],
        decreases x@.len() - i,
    {
        if x[i] != y[i] {
            return false;
        }
        i = i + 1;
    }
    assert(x@ =~= y@);
    true
}

/// The views of byte vectors.
pub open spec fn views(v: Seq<Vec<u8>>) -> Seq<Seq<u8>> {
    v.map_values(|x: Vec<u8>| x@)
}

/// The bytes of ASCII characters.
pub open spec fn ascii_bytes(s: Seq<char>) -> Seq<u8> {
    s.map_values(|c: char| c as u8)
}

/// Appends the decimal text of `v` as ASCII bytes.
pub fn push_decimal_bytes(out: &mut Vec<u8>, v: i64)
    ensures
        final(out)@ == old(out)@ + ascii_bytes(decimal_text(v as int)),
{
    let mut chars: Vec<char> = Vec::new();
    push_decimal_i64(&mut chars, v);
    let ghost start = out@;
    let mut i: usize = 0;
    while i < chars.len()
        invariant
            0 <= i <= chars@.len(),
            chars@ == decimal_text(v as int),
            out@ == start + ascii_bytes(chars@.take(i as int)),
        decreases chars@.len() - i,
    {
        out.push(chars[i] as u8);
        assert(ascii_bytes(chars@.take(i + 1)) =~= ascii_bytes(chars@.take(i as int)).push(
            chars@[i as int] as u8,
        ));
        i = i + 1;
    }
    assert(chars@.take(chars@.len() as int) =~= chars@);
}

} // verus!
