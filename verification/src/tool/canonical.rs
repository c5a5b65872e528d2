//! The `--canonical` output of the `fasm` tool: `sorted(set(lines))` of
//! the canonical lines (Python orders strings by code points), and the key
//! that orders the addresses of a feature like the text of their lines.

use vstd::prelude::*;

use crate::text::{chars_of, push_all, string_of};
use crate::tool::{spec_output_text, string_views};

verus! {

// ---------------------------------------------------------------------
// The order of texts.

/// `a < b` for Python strings: code point by code point, a proper prefix
/// first.
pub open spec fn text_lt(a: Seq<char>, b: Seq<char>) -> bool
    decreases a.len(),
{
    if a.len() == 0 {
        b.len() > 0
    } else if b.len() == 0 {
        false
    } else if a[0] != b[0] {
        (a[0] as int) < (b[0] as int)
    } else {
        text_lt(a.drop_first(), b.drop_first())
    }
}

/// No text is below itself.
pub proof fn lemma_text_lt_irreflexive(a: Seq<char>)
    ensures
        !text_lt(a, a),
    decreases a.len(),
{
    if a.len() > 0 {
        lemma_text_lt_irreflexive(a.drop_first());
    }
}

/// Of two different texts, one is below the other.
pub proof fn lemma_text_lt_total(a: Seq<char>, b: Seq<char>)
    ensures
        a == b || text_lt(a, b) || text_lt(b, a),
    decreases a.len(),
{
    if a.len() > 0 && b.len() > 0 {
        if a[0] == b[0] {
            lemma_text_lt_total(a.drop_first(), b.drop_first());
            if a.drop_first() == b.drop_first() {
                assert(a =~= seq![a[0]] + a.drop_first());
                assert(b =~= seq![b[0]] + b.drop_first());
            }
        } else {
        }
    } else if a.len() == 0 && b.len() == 0 {
        assert(a =~= b);
    }
}

/// The order of texts is transitive.
pub proof fn lemma_text_lt_transitive(a: Seq<char>, b: Seq<char>, c: Seq<char>)
    requires
        text_lt(a, b),
        text_lt(b, c),
    ensures
        text_lt(a, c),
    decreases a.len(),
{
    if a.len() > 0 && b.len() > 0 && c.len() > 0 && a[0] == b[0] && b[0] == c[0] {
        lemma_text_lt_transitive(a.drop_first(), b.drop_first(), c.drop_first());
    }
}

/// A text is below another one and not the other way round.
pub proof fn lemma_text_lt_asymmetric(a: Seq<char>, b: Seq<char>)
    requires
        text_lt(a, b),
    ensures
        !text_lt(b, a),
{
    if text_lt(b, a) {
        lemma_text_lt_transitive(a, b, a);
        lemma_text_lt_irreflexive(a);
    }
}

/// The comparison of two texts: -1, 0 or 1.
fn compare_texts(a: &Vec<char>, b: &Vec<char>) -> (r: i8)
    ensures
        r == 0 <==> a@ == b@,
        r < 0 <==> text_lt(a@, b@),
        r > 0 <==> text_lt(b@, a@),
{
    proof {
        lemma_text_lt_total(a@, b@);
        lemma_text_lt_irreflexive(a@);
    }
    let mut i: usize = 0;
    assert(a@.skip(0) =~= a@);
    assert(b@.skip(0) =~= b@);
    while i < a.len() && i < b.len()
        invariant
            0 <= i <= a@.len(),
            i <= b@.len(),
            a@.take(i as int) == b@.take(i as int),
            text_lt(a@, b@) == text_lt(a@.skip(i as int), b@.skip(i as int)),
            text_lt(b@, a@) == text_lt(b@.skip(i as int), a@.skip(i as int)),
        decreases a@.len() - i,
    {
        assert(a@.skip(i as int)[0] == a@[i as int]);
        assert(b@.skip(i as int)[0] == b@[i as int]);
        if a[i] != b[i] {
            if a[i] < b[i] {
                assert(text_lt(a@.skip(i as int), b@.skip(i as int)));
                proof {
                    lemma_text_lt_asymmetric(a@, b@);
                }
                return -1;
            } else {
                assert(text_lt(b@.skip(i as int), a@.skip(i as int)));
                proof {
                    lemma_text_lt_asymmetric(b@, a@);
                }
                return 1;
            }
        }
        assert(a@.skip(i as int).drop_first() =~= a@.skip(i + 1));
        assert(b@.skip(i as int).drop_first() =~= b@.skip(i + 1));
        assert(a@.take(i + 1) =~= a@.take(i as int).push(a@[i as int]));
        assert(b@.take(i + 1) =~= b@.take(i as int).push(b@[i as int]));
        i = i + 1;
    }
    if a.len() == b.len() {
        assert(a@ =~= a@.take(i as int));
        assert(b@ =~= b@.take(i as int));
        0
    } else if i == a.len() {
        assert(a@.skip(i as int).len() == 0);
        proof {
            lemma_text_lt_asymmetric(a@, b@);
        }
        -1
    } else {
        assert(b@.skip(i as int).len() == 0);
        proof {
            lemma_text_lt_asymmetric(b@, a@);
        }
        1
    }
}

// ---------------------------------------------------------------------
// `sorted(set(lines))`.

/// `s` is `sorted(set(lines))`: strictly increasing, with the texts of
/// `lines`.
pub open spec fn is_sorted_set_of(s: Seq<Seq<char>>, lines: Seq<Seq<char>>) -> bool {
    &&& strictly_increasing(s)
    &&& forall|x: Seq<char>| s.contains(x) <==> lines.contains(x)
}

/// `s` lists its texts in strictly increasing order.
pub open spec fn strictly_increasing(s: Seq<Seq<char>>) -> bool {
    forall|i: int, j: int| 0 <= i < j < s.len() ==> text_lt(#[trigger] s[i], #[trigger] s[j])
}

proof fn lemma_increasing_same_texts(s: Seq<Seq<char>>, t: Seq<Seq<char>>)
    requires
        strictly_increasing(s),
        strictly_increasing(t),
        forall|x: Seq<char>| s.contains(x) <==> t.contains(x),
    ensures
        s == t,
    decreases s.len(),
{
    if s.len() == 0 {
        if t.len() > 0 {
            assert(t.contains(t[0]));
        }
        assert(s =~= t);
    } else {
        assert(s.contains(s[0]));
        assert(t.contains(t[0]));
        let j = choose|j: int| 0 <= j < t.len() && t[j] == s[0];
        let i = choose|i: int| 0 <= i < s.len() && s[i] == t[0];
        if j > 0 {
            assert(text_lt(t[0], t[j]));
            if i > 0 {
                assert(text_lt(s[0], s[i]));
                lemma_text_lt_transitive(t[0], s[0], t[0]);
            }
            lemma_text_lt_irreflexive(t[0]);
        }
        assert(s[0] == t[0]);
        let s1 = s.drop_first();
        let t1 = t.drop_first();
        assert forall|x: Seq<char>| s1.contains(x) <==> t1.contains(x) by {
            if s1.contains(x) {
                let k = choose|k: int| 0 <= k < s1.len() && s1[k] == x;
                assert(s[k + 1] == x);
                assert(text_lt(s[0], x));
                lemma_text_lt_irreflexive(x);
                assert(t.contains(x));
                let m = choose|m: int| 0 <= m < t.len() && t[m] == x;
                assert(m != 0);
                assert(t1[m - 1] == x);
            }
            if t1.contains(x) {
                let k = choose|k: int| 0 <= k < t1.len() && t1[k] == x;
                assert(t[k + 1] == x);
                assert(text_lt(t[0], x));
                lemma_text_lt_irreflexive(x);
                assert(s.contains(x));
                let m = choose|m: int| 0 <= m < s.len() && s[m] == x;
                assert(m != 0);
                assert(s1[m - 1] == x);
            }
        }
        lemma_increasing_same_texts(s1, t1);
        assert(s =~= seq![s[0]] + s1);
        assert(t =~= seq![t[0]] + t1);
    }
}

/// `sorted(set(lines))` is one sequence: two strictly increasing
/// sequences with the texts of `lines` are equal.
pub proof fn lemma_sorted_set_unique(s: Seq<Seq<char>>, t: Seq<Seq<char>>, lines: Seq<Seq<char>>)
    requires
        is_sorted_set_of(s, lines),
        is_sorted_set_of(t, lines),
    ensures
        s == t,
{
    lemma_increasing_same_texts(s, t);
}

/// The indices `ix` (into `lines`) list texts in strictly increasing
/// order.
pub open spec fn increasing(lines: Seq<Seq<char>>, ix: Seq<usize>) -> bool {
    forall|i: int, j: int| 0 <= i < j < ix.len() ==> text_lt(#[trigger] lines[ix[i] as int], #[trigger] lines[ix[j] as int])
}

/// Every index of `ix` is in `lo..hi`.
pub open spec fn within(ix: Seq<usize>, lo: int, hi: int) -> bool {
    forall|i: int| 0 <= i < ix.len() ==> lo <= #[trigger] ix[i] < hi
}

/// The text at index `k` of `lines` is listed by `ix`.
pub open spec fn lists(lines: Seq<Seq<char>>, ix: Seq<usize>, k: int) -> bool {
    exists|t: int| 0 <= t < ix.len() && lines[ix[t] as int] == lines[k]
}

/// Merges two increasing lists of indices into one, keeping one index of
/// each text.
fn merge(lines: &Vec<Vec<char>>, a: &Vec<usize>, b: &Vec<usize>, lo: Ghost<int>, hi: Ghost<int>) -> (r: Vec<usize>)
    requires
        0 <= lo@ <= hi@ <= lines@.len(),
        increasing(vecs_view(lines@), a@),
        increasing(vecs_view(lines@), b@),
        within(a@, lo@, hi@),
        within(b@, lo@, hi@),
    ensures
        increasing(vecs_view(lines@), r@),
        within(r@, lo@, hi@),
        forall|t: int| 0 <= t < a@.len() ==> lists(vecs_view(lines@), r@, a@[t] as int),
        forall|t: int| 0 <= t < b@.len() ==> lists(vecs_view(lines@), r@, b@[t] as int),
{
    let ghost l = vecs_view(lines@);
    let mut r: Vec<usize> = Vec::new();
    let mut i: usize = 0;
    let mut j: usize = 0;
    while i < a.len() || j < b.len()
        invariant
            l == vecs_view(lines@),
            0 <= lo@ <= hi@ <= lines@.len(),
            increasing(l, a@),
            increasing(l, b@),
            within(a@, lo@, hi@),
            within(b@, lo@, hi@),
            0 <= i <= a@.len(),
            0 <= j <= b@.len(),
            increasing(l, r@),
            within(r@, lo@, hi@),
            forall|t: int| 0 <= t < i ==> lists(l, r@, a@[t] as int),
            forall|t: int| 0 <= t < j ==> lists(l, r@, b@[t] as int),
            r@.len() > 0 && i < a@.len() ==> text_lt(l[r@.last() as int], l[a@[i as int] as int]),
            r@.len() > 0 && j < b@.len() ==> text_lt(l[r@.last() as int], l[b@[j as int] as int]),
        decreases a@.len() + b@.len() - i - j,
    {
        let ghost old_r = r@;
        // The index to take: from `a` (1), from `b` (2), or from both (3).
        let take: u8 = if i == a.len() {
            2
        } else if j == b.len() {
            1
        } else {
            let c = compare_texts(&lines[a[i]], &lines[b[j]]);
            if c < 0 {
                1
            } else if c > 0 {
                2
            } else {
                3
            }
        };
        let k = if take == 2 {
            b[j]
        } else {
            a[i]
        };
        r.push(k);
        proof {
            assert(r@.last() == k);
            assert forall|x: int, y: int| 0 <= x < y < r@.len() implies text_lt(
                #[trigger] l[r@[x] as int],
                #[trigger] l[r@[y] as int],
            ) by {
                if y == r@.len() - 1 && x < y {
                    assert(r@[x] == old_r[x]);
                    if x < old_r.len() - 1 {
                        lemma_text_lt_transitive(l[old_r[x] as int], l[old_r.last() as int], l[k as int]);
                    }
                }
            }
            assert forall|t: int| 0 <= t < i implies lists(l, r@, a@[t] as int) by {
                let w = choose|w: int| 0 <= w < old_r.len() && l[old_r[w] as int] == l[a@[t] as int];
                assert(r@[w] == old_r[w]);
            }
            assert forall|t: int| 0 <= t < j implies lists(l, r@, b@[t] as int) by {
                let w = choose|w: int| 0 <= w < old_r.len() && l[old_r[w] as int] == l[b@[t] as int];
                assert(r@[w] == old_r[w]);
            }
        }
        if take == 1 || take == 3 {
            proof {
                assert(l[r@[r@.len() - 1] as int] == l[a@[i as int] as int]);
            }
            i = i + 1;
        }
        if take == 2 || take == 3 {
            proof {
                assert(l[r@[r@.len() - 1] as int] == l[b@[j as int] as int]);
            }
            j = j + 1;
        }
        proof {
            if i < a@.len() {
                assert(text_lt(l[a@[i - 1] as int], l[a@[i as int] as int]) || take == 2);
                if take == 2 {
                    lemma_text_lt_total(l[k as int], l[a@[i as int] as int]);
                }
            }
            if j < b@.len() {
                if take != 1 {
                    assert(text_lt(l[b@[j - 1] as int], l[b@[j as int] as int]));
                } else {
                    lemma_text_lt_total(l[k as int], l[b@[j as int] as int]);
                }
            }
        }
    }
    r
}

/// The views of the lines.
pub open spec fn vecs_view(v: Seq<Vec<char>>) -> Seq<Seq<char>> {
    v.map_values(|x: Vec<char>| x@)
}

/// Sorts the indices `lo..hi` of `lines` by their texts, keeping one index
/// of each text.
fn sort_range(lines: &Vec<Vec<char>>, lo: usize, hi: usize) -> (r: Vec<usize>)
    requires
        lo <= hi <= lines@.len(),
    ensures
        increasing(vecs_view(lines@), r@),
        within(r@, lo as int, hi as int),
        forall|k: int| lo <= k < hi ==> lists(vecs_view(lines@), r@, k),
    decreases hi - lo,
{
    let ghost l = vecs_view(lines@);
    if hi - lo <= 1 {
        let mut r: Vec<usize> = Vec::new();
        if hi - lo == 1 {
            r.push(lo);
            assert(lists(l, r@, lo as int)) by {
                assert(r@[0] == lo);
            }
        }
        return r;
    }
    let mid = lo + (hi - lo) / 2;
    let a = sort_range(lines, lo, mid);
    let b = sort_range(lines, mid, hi);
    let r = merge(lines, &a, &b, Ghost(lo as int), Ghost(hi as int));
    assert forall|k: int| lo <= k < hi implies lists(l, r@, k) by {
        if k < mid {
            assert(lists(l, a@, k));
            let t = choose|t: int| 0 <= t < a@.len() && l[a@[t] as int] == l[k];
            assert(lists(l, r@, a@[t] as int));
            let w = choose|w: int| 0 <= w < r@.len() && l[r@[w] as int] == l[a@[t] as int];
            assert(l[r@[w] as int] == l[k]);
        } else {
            assert(lists(l, b@, k));
            let t = choose|t: int| 0 <= t < b@.len() && l[b@[t] as int] == l[k];
            assert(lists(l, r@, b@[t] as int));
            let w = choose|w: int| 0 <= w < r@.len() && l[r@[w] as int] == l[b@[t] as int];
            assert(l[r@[w] as int] == l[k]);
        }
    }
    r
}

/// The texts of `lines`, sorted, each once (`sorted(set(lines))`).
pub fn sorted_set(lines: &Vec<String>) -> (r: Vec<String>)
    ensures
        is_sorted_set_of(string_views(r@), string_views(lines@)),
{
    let ghost sv = string_views(lines@);
    let mut texts: Vec<Vec<char>> = Vec::new();
    let mut i: usize = 0;
    while i < lines.len()
        invariant
            0 <= i <= lines@.len(),
            sv == string_views(lines@),
            texts@.len() == i,
            forall|j: int| 0 <= j < i ==> #[trigger] texts@[j]@ == sv[j],
        decreases lines@.len() - i,
    {
        let c = chars_of(lines[i].as_str());
        assert(c@ == sv[i as int]);
        texts.push(c);
        i = i + 1;
    }
    let ghost l = vecs_view(texts@);
    assert(l =~= sv);
    assert(l == sv);
    let ix = sort_range(&texts, 0, texts.len());
    let mut r: Vec<String> = Vec::new();
    let mut t: usize = 0;
    while t < ix.len()
        invariant
            0 <= t <= ix@.len(),
            l == vecs_view(texts@),
            l == sv,
            within(ix@, 0, l.len() as int),
            r@.len() == t,
            forall|w: int| 0 <= w < t ==> #[trigger] r@[w]@ == l[ix@[w] as int],
        decreases ix@.len() - t,
    {
        let k = ix[t];
        r.push(string_of(&texts[k]));
        t = t + 1;
    }
    let ghost s = string_views(r@);
    assert(s.len() == ix@.len());
    assert(forall|w: int| 0 <= w < s.len() ==> s[w] == l[ix@[w] as int]);
    assert forall|x: Seq<char>| s.contains(x) <==> sv.contains(x) by {
        if s.contains(x) {
            let w = choose|w: int| 0 <= w < s.len() && s[w] == x;
            assert(sv[ix@[w] as int] == x);
            assert(0 <= ix@[w] < sv.len());
        }
        if sv.contains(x) {
            let k = choose|k: int| 0 <= k < sv.len() && sv[k] == x;
            assert(lists(l, ix@, k));
            let w = choose|w: int| 0 <= w < ix@.len() && l[ix@[w] as int] == l[k];
            assert(s[w] == x);
        }
    }
    r
}

/// `print(fasm_tuple_to_string(lines, canonical=True))` for the canonical
/// lines `lines`: `sorted(set(lines))`, each followed by a newline (a lone
/// newline for no lines), then the newline of `print`.
pub fn canonical_text(lines: &Vec<String>) -> (r: String)
    ensures
        exists|s: Seq<Seq<char>>|
            is_sorted_set_of(s, string_views(lines@)) && r@ == #[trigger] spec_output_text(s),
{
    let sorted = sorted_set(lines);
    crate::tool::output_text(&sorted)
}

} // verus!

verus! {

// ---------------------------------------------------------------------
// The order of addresses.

/// `11^n`.
pub open spec fn pow11(n: nat) -> nat
    decreases n,
{
    if n == 0 {
        1
    } else {
        11 * pow11((n - 1) as nat)
    }
}

/// The value of the base 11 digits `s`, most significant first.
pub open spec fn base11(s: Seq<nat>) -> nat
    decreases s.len(),
{
    if s.len() == 0 {
        0
    } else {
        base11(s.drop_last()) * 11 + s.last()
    }
}

/// The ten base 11 digits of the key of `address`: its decimal digits,
/// then tens (`]` sorts after every decimal digit; what follows it does
/// not matter).
pub open spec fn key_digits(address: nat) -> Seq<nat> {
    let ds = crate::text::digits(address, 10);
    Seq::new(10, |i: int| if i < ds.len() { ds[i] } else { 10nat })
}

/// The key that orders addresses like the text `digits]` that follows the
/// `[` of their lines.
pub open spec fn spec_text_order_key(address: u32) -> nat {
    base11(key_digits(address as nat))
}

/// The text that follows the `[` of a line with `address`.
pub open spec fn address_text(address: u32) -> Seq<char> {
    crate::text::decimal_text(address as int) + seq![']']
}

/// `a < b`, digit by digit, a proper prefix first.
pub open spec fn digits_lt(a: Seq<nat>, b: Seq<nat>) -> bool
    decreases a.len(),
{
    if a.len() == 0 {
        b.len() > 0
    } else if b.len() == 0 {
        false
    } else if a[0] != b[0] {
        a[0] < b[0]
    } else {
        digits_lt(a.drop_first(), b.drop_first())
    }
}

proof fn lemma_digits_lt_irreflexive(a: Seq<nat>)
    ensures
        !digits_lt(a, a),
    decreases a.len(),
{
    if a.len() > 0 {
        lemma_digits_lt_irreflexive(a.drop_first());
    }
}

/// Every digit of `s` is at most 10.
pub open spec fn base11_digits(s: Seq<nat>) -> bool {
    forall|i: int| 0 <= i < s.len() ==> #[trigger] s[i] <= 10
}

proof fn lemma_base11_bound(s: Seq<nat>)
    requires
        base11_digits(s),
    ensures
        base11(s) < pow11(s.len()),
    decreases s.len(),
{
    if s.len() > 0 {
        let t = s.drop_last();
        assert(base11_digits(t)) by {
            assert forall|i: int| 0 <= i < t.len() implies #[trigger] t[i] <= 10 by {
                assert(t[i] == s[i]);
            }
        }
        lemma_base11_bound(t);
        assert(s.last() == s[s.len() - 1]);
        assert(pow11(s.len()) == 11 * pow11(t.len()));
    }
}

#[verifier::spinoff_prover]
proof fn lemma_base11_front(s: Seq<nat>)
    requires
        s.len() > 0,
    ensures
        base11(s) == s[0] * pow11((s.len() - 1) as nat) + base11(s.drop_first()),
    decreases s.len(),
{
    let u = s.drop_first();
    if s.len() == 1 {
        assert(s.drop_last().len() == 0);
        assert(u.len() == 0);
        assert(base11(s.drop_last()) == 0);
        assert(base11(u) == 0);
        assert(pow11(0) == 1);
        assert(s.last() == s[0]);
        assert(base11(s) == s[0]);
        assert(s[0] * pow11(0) == s[0]);
    } else {
        let t = s.drop_last();
        lemma_base11_front(t);
        let p = pow11((t.len() - 1) as nat);
        let q = pow11((s.len() - 1) as nat);
        let b = base11(t.drop_first());
        let x = s[0];
        let last = s.last();
        assert(t[0] == x);
        assert(base11(t) == x * p + b);
        assert(base11(s) == base11(t) * 11 + last);
        assert(u.drop_last() =~= t.drop_first());
        assert(u.last() == last);
        assert(base11(u) == base11(u.drop_last()) * 11 + u.last());
        assert(base11(u) == b * 11 + last);
        assert(q == 11 * p);
        assert((x * p + b) * 11 + last == x * q + (b * 11 + last)) by (nonlinear_arith)
            requires
                q == 11 * p,
        ;
    }
}

proof fn lemma_base11_order(s: Seq<nat>, t: Seq<nat>)
    requires
        base11_digits(s),
        base11_digits(t),
        s.len() == t.len(),
    ensures
        digits_lt(s, t) <==> base11(s) < base11(t),
        s != t ==> base11(s) != base11(t),
    decreases s.len(),
{
    if s.len() > 0 {
        let s1 = s.drop_first();
        let t1 = t.drop_first();
        assert(base11_digits(s1)) by {
            assert forall|i: int| 0 <= i < s1.len() implies #[trigger] s1[i] <= 10 by {
                assert(s1[i] == s[i + 1]);
            }
        }
        assert(base11_digits(t1)) by {
            assert forall|i: int| 0 <= i < t1.len() implies #[trigger] t1[i] <= 10 by {
                assert(t1[i] == t[i + 1]);
            }
        }
        lemma_base11_front(s);
        lemma_base11_front(t);
        lemma_base11_bound(s1);
        lemma_base11_bound(t1);
        lemma_base11_order(s1, t1);
        let p = pow11((s.len() - 1) as nat);
        let x = s[0];
        let y = t[0];
        let bs = base11(s1);
        let bt = base11(t1);
        if x < y {
            assert(x * p + bs < y * p + bt) by (nonlinear_arith)
                requires
                    x < y,
                    bs < p,
                    bt >= 0,
            ;
        } else if y < x {
            assert(y * p + bt < x * p + bs) by (nonlinear_arith)
                requires
                    y < x,
                    bt < p,
                    bs >= 0,
            ;
        } else {
            if s != t {
                assert(s =~= seq![x] + s1);
                assert(t =~= seq![y] + t1);
            }
        }
    } else {
        assert(s =~= t);
    }
}

/// The digits of `s` as base 11 digits, padded with tens to `n`.
pub open spec fn padded(s: Seq<nat>, n: nat) -> Seq<nat> {
    Seq::new(n, |i: int| if i < s.len() { s[i] } else { 10nat })
}

/// Every digit of `s` is a decimal digit.
pub open spec fn decimal_digits(s: Seq<nat>) -> bool {
    forall|i: int| 0 <= i < s.len() ==> #[trigger] s[i] < 10
}

proof fn lemma_padded_order(d: Seq<nat>, e: Seq<nat>, n: nat)
    requires
        decimal_digits(d),
        decimal_digits(e),
        d.len() <= n,
        e.len() <= n,
    ensures
        digits_lt(d.push(10), e.push(10)) <==> digits_lt(padded(d, n), padded(e, n)),
        d.push(10) != e.push(10) ==> padded(d, n) != padded(e, n),
    decreases n,
{
    let x = d.push(10);
    let y = e.push(10);
    let pd = padded(d, n);
    let pe = padded(e, n);
    if d.len() == 0 && e.len() == 0 {
        assert(x =~= y);
        assert(pd =~= pe);
        lemma_digits_lt_irreflexive(x);
        lemma_digits_lt_irreflexive(pd);
    } else if d.len() == 0 {
        assert(e[0] < 10);
        assert(x[0] == 10);
        assert(y[0] == e[0]);
        assert(pd[0] == 10);
        assert(pe[0] == e[0]);
    } else if e.len() == 0 {
        assert(d[0] < 10);
        assert(x[0] == d[0]);
        assert(y[0] == 10);
        assert(pd[0] == d[0]);
        assert(pe[0] == 10);
    } else {
        assert(x[0] == d[0]);
        assert(y[0] == e[0]);
        assert(pd[0] == d[0]);
        assert(pe[0] == e[0]);
        if d[0] == e[0] {
            let d1 = d.drop_first();
            let e1 = e.drop_first();
            assert(decimal_digits(d1)) by {
                assert forall|i: int| 0 <= i < d1.len() implies #[trigger] d1[i] < 10 by {
                    assert(d1[i] == d[i + 1]);
                }
            }
            assert(decimal_digits(e1)) by {
                assert forall|i: int| 0 <= i < e1.len() implies #[trigger] e1[i] < 10 by {
                    assert(e1[i] == e[i + 1]);
                }
            }
            lemma_padded_order(d1, e1, (n - 1) as nat);
            assert(x.drop_first() =~= d1.push(10));
            assert(y.drop_first() =~= e1.push(10));
            assert(pd.drop_first() =~= padded(d1, (n - 1) as nat));
            assert(pe.drop_first() =~= padded(e1, (n - 1) as nat));
            if x != y {
                assert(x =~= seq![x[0]] + x.drop_first());
                assert(y =~= seq![y[0]] + y.drop_first());
            }
            if pd == pe {
                assert(pd.drop_first() == pe.drop_first());
            }
        }
    }
}

} // verus!

verus! {

/// A character of an address text: a decimal digit or `]`.
pub open spec fn address_char(c: char) -> bool {
    c == ']' || (48 <= (c as int) && (c as int) <= 57)
}

/// The digit value of an address character (10 for `]`).
pub open spec fn char_digit(c: char) -> nat {
    if c == ']' {
        10
    } else {
        ((c as int) - 48) as nat
    }
}

/// The digit values of the characters of `s`.
pub open spec fn char_digits(s: Seq<char>) -> Seq<nat> {
    s.map_values(|c: char| char_digit(c))
}

proof fn lemma_text_lt_digits(x: Seq<char>, y: Seq<char>)
    requires
        forall|i: int| 0 <= i < x.len() ==> address_char(#[trigger] x[i]),
        forall|i: int| 0 <= i < y.len() ==> address_char(#[trigger] y[i]),
    ensures
        text_lt(x, y) == digits_lt(char_digits(x), char_digits(y)),
    decreases x.len(),
{
    let cx = char_digits(x);
    let cy = char_digits(y);
    if x.len() > 0 && y.len() > 0 {
        assert(address_char(x[0]));
        assert(address_char(y[0]));
        assert(cx[0] == char_digit(x[0]));
        assert(cy[0] == char_digit(y[0]));
        assert((']' as int) == 93);
        if x[0] == y[0] {
            lemma_text_lt_digits(x.drop_first(), y.drop_first());
            assert(char_digits(x.drop_first()) =~= cx.drop_first());
            assert(char_digits(y.drop_first()) =~= cy.drop_first());
        } else {
            assert((x[0] as int) != (y[0] as int));
        }
    }
}

pub(crate) proof fn lemma_digits_decimal(n: nat)
    ensures
        decimal_digits(crate::text::digits(n, 10)),
        crate::text::digits(n, 10).len() >= 1,
    decreases n,
{
    if n >= 10 {
        lemma_digits_decimal(n / 10);
        let d = crate::text::digits(n / 10, 10);
        assert forall|i: int| 0 <= i < d.push(n % 10).len() implies #[trigger] d.push(n % 10)[i] < 10 by {
            if i < d.len() {
                assert(d.push(n % 10)[i] == d[i]);
            }
        }
    }
}

/// `10^k`.
pub open spec fn pow10(k: nat) -> nat
    decreases k,
{
    if k == 0 {
        1
    } else {
        10 * pow10((k - 1) as nat)
    }
}

pub(crate) proof fn lemma_digits_len(n: nat, k: nat)
    requires
        n < pow10(k),
        k >= 1,
    ensures
        crate::text::digits(n, 10).len() <= k,
    decreases k,
{
    if n >= 10 {
        assert(k >= 2) by {
            if k == 1 {
                assert(pow10(1) == 10 * pow10(0));
            }
        }
        assert(n / 10 < pow10((k - 1) as nat)) by {
            assert(pow10(k) == 10 * pow10((k - 1) as nat));
        }
        lemma_digits_len(n / 10, (k - 1) as nat);
    }
}

/// The value of the decimal digits `s`, most significant first.
pub open spec fn base10(s: Seq<nat>) -> nat
    decreases s.len(),
{
    if s.len() == 0 {
        0
    } else {
        base10(s.drop_last()) * 10 + s.last()
    }
}

pub(crate) proof fn lemma_digits_value(n: nat)
    ensures
        base10(crate::text::digits(n, 10)) == n,
    decreases n,
{
    let d = crate::text::digits(n, 10);
    if n >= 10 {
        lemma_digits_value(n / 10);
        assert(d == crate::text::digits(n / 10, 10).push(n % 10));
        assert(d.drop_last() =~= crate::text::digits(n / 10, 10));
        assert(base10(d) == base10(d.drop_last()) * 10 + d.last());
        assert(n == (n / 10) * 10 + n % 10);
    } else {
        assert(d == seq![n]);
        assert(d.drop_last() =~= Seq::<nat>::empty());
        assert(base10(d.drop_last()) == 0);
    }
}

proof fn lemma_address_text_digits(a: u32)
    ensures
        char_digits(address_text(a)) == crate::text::digits(a as nat, 10).push(10),
        forall|i: int| 0 <= i < address_text(a).len() ==> address_char(#[trigger] address_text(a)[i]),
{
    let d = crate::text::digits(a as nat, 10);
    lemma_digits_decimal(a as nat);
    let t = address_text(a);
    assert(crate::text::decimal_text(a as int) == d.map_values(|x: nat| crate::text::digit_char(x, false)));
    assert forall|i: int| 0 <= i < t.len() implies address_char(#[trigger] t[i]) && char_digit(t[i]) == d.push(10)[i] by {
        if i < d.len() {
            assert(d[i] < 10);
            assert(t[i] == crate::text::digit_char(d[i], false));
            assert((t[i] as int) == d[i] + 48);
        } else {
            assert(t[i] == ']');
        }
    }
    assert(char_digits(t) =~= d.push(10));
}

/// [`spec_text_order_key`] orders addresses like the texts `digits]` that
/// follow the `[` of their lines, and gives distinct addresses distinct
/// keys.
pub proof fn lemma_text_order_key_orders_like_the_text(a: u32, b: u32)
    ensures
        text_lt(address_text(a), address_text(b)) <==> spec_text_order_key(a) < spec_text_order_key(b),
        a != b ==> spec_text_order_key(a) != spec_text_order_key(b),
{
    let da = crate::text::digits(a as nat, 10);
    let db = crate::text::digits(b as nat, 10);
    lemma_address_text_digits(a);
    lemma_address_text_digits(b);
    lemma_text_lt_digits(address_text(a), address_text(b));
    lemma_digits_decimal(a as nat);
    lemma_digits_decimal(b as nat);
    assert(pow10(10) == 10000000000) by {
        reveal_with_fuel(pow10, 11);
    }
    lemma_digits_len(a as nat, 10);
    lemma_digits_len(b as nat, 10);
    lemma_padded_order(da, db, 10);
    assert(key_digits(a as nat) =~= padded(da, 10));
    assert(key_digits(b as nat) =~= padded(db, 10));
    assert(base11_digits(padded(da, 10))) by {
        assert forall|i: int| 0 <= i < padded(da, 10).len() implies #[trigger] padded(da, 10)[i] <= 10 by {
            if i < da.len() {
                assert(da[i] < 10);
            }
        }
    }
    assert(base11_digits(padded(db, 10))) by {
        assert forall|i: int| 0 <= i < padded(db, 10).len() implies #[trigger] padded(db, 10)[i] <= 10 by {
            if i < db.len() {
                assert(db[i] < 10);
            }
        }
    }
    lemma_base11_order(padded(da, 10), padded(db, 10));
    if a != b {
        lemma_digits_value(a as nat);
        lemma_digits_value(b as nat);
        if da.push(10) == db.push(10) {
            assert(da =~= da.push(10).drop_last());
            assert(db =~= db.push(10).drop_last());
        }
    }
}

} // verus!

verus! {

/// The bytes of `s` as numbers.
pub open spec fn byte_values(s: Seq<u8>) -> Seq<nat> {
    s.map_values(|b: u8| b as nat)
}

/// A key that orders addresses like the text `digits]` that follows the
/// `[` of their lines (see [`lemma_text_order_key_orders_like_the_text`]):
/// the decimal digits as base 11 digits, followed by the digit 10 up to
/// ten digits.
pub fn text_order_key(address: u32) -> (r: u64)
    ensures
        r == spec_text_order_key(address),
{
    let ghost all = crate::text::digits(address as nat, 10);
    let mut ds: Vec<u8> = Vec::new();
    let mut rest = address;
    assert(byte_values(ds@) =~= Seq::<nat>::empty());
    assert(all =~= crate::text::digits(rest as nat, 10) + byte_values(ds@));
    while rest >= 10
        invariant
            all == crate::text::digits(address as nat, 10),
            all == crate::text::digits(rest as nat, 10) + byte_values(ds@),
        decreases rest,
    {
        let d = (rest % 10) as u8;
        let ghost before = byte_values(ds@);
        assert(crate::text::digits(rest as nat, 10) == crate::text::digits((rest / 10) as nat, 10).push(
            (rest % 10) as nat,
        ));
        ds.insert(0, d);
        assert(byte_values(ds@) =~= seq![(rest % 10) as nat] + before);
        rest = rest / 10;
        assert(all =~= crate::text::digits(rest as nat, 10) + byte_values(ds@));
    }
    let ghost before = byte_values(ds@);
    assert(crate::text::digits(rest as nat, 10) == seq![rest as nat]);
    ds.insert(0, rest as u8);
    assert(byte_values(ds@) =~= seq![rest as nat] + before);
    assert(byte_values(ds@) =~= all);
    proof {
        assert(pow10(10) == 10000000000) by {
            reveal_with_fuel(pow10, 11);
        }
        lemma_digits_len(address as nat, 10);
        lemma_digits_decimal(address as nat);
    }
    let ghost kd = key_digits(address as nat);
    assert(pow11(10) == 25937424601) by {
        reveal_with_fuel(pow11, 11);
    }
    let n = ds.len();
    let mut key: u64 = 0;
    let mut i: usize = 0;
    assert(kd.take(0) =~= Seq::<nat>::empty());
    while i < 10
        invariant
            0 <= i <= 10,
            n == ds@.len(),
            n <= 10,
            kd == key_digits(address as nat),
            byte_values(ds@) == crate::text::digits(address as nat, 10),
            decimal_digits(crate::text::digits(address as nat, 10)),
            key == base11(kd.take(i as int)),
            key < pow11(i as nat),
            pow11(10) == 25937424601,
        decreases 10 - i,
    {
        let d: u64 = if i < n {
            assert(byte_values(ds@)[i as int] == ds@[i as int] as nat);
            assert(crate::text::digits(address as nat, 10)[i as int] < 10);
            ds[i] as u64
        } else {
            10
        };
        assert(d == kd[i as int]);
        assert(d <= 10);
        assert(pow11((i + 1) as nat) == 11 * pow11(i as nat));
        assert(pow11((i + 1) as nat) <= pow11(10)) by {
            lemma_pow11_mono((i + 1) as nat, 10);
        }
        assert(kd.take(i + 1).drop_last() =~= kd.take(i as int));
        key = key * 11 + d;
        i = i + 1;
    }
    assert(kd.take(10) =~= kd);
    key
}

proof fn lemma_pow11_mono(a: nat, b: nat)
    requires
        a <= b,
    ensures
        pow11(a) <= pow11(b),
    decreases b,
{
    if a < b {
        lemma_pow11_mono(a, (b - 1) as nat);
    }
}

} // verus!
