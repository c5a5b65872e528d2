//! The values of bool and string flags.

use vstd::prelude::*;

use crate::gflags::{ascii_lower, spec_parse_value, FlagType};
use crate::text::utf8_of;

verus! {

/// A lower case word that means false: `0`, `f`, `false`, `n` or `no`.
pub open spec fn false_word(l: Seq<u8>) -> bool {
    l == seq![48u8] || l == seq![102u8] || l == seq![102u8, 97u8, 108u8, 115u8, 101u8] || l == seq![110u8]
        || l == seq![110u8, 111u8]
}

/// A lower case word that means true: `1`, `t`, `true`, `y` or `yes`.
pub open spec fn true_word(l: Seq<u8>) -> bool {
    l == seq![49u8] || l == seq![116u8] || l == seq![116u8, 114u8, 117u8, 101u8] || l == seq![121u8] || l
        == seq![121u8, 101u8, 115u8]
}

proof fn lemma_ascii_word(s: &str, b: Seq<u8>)
    requires
        vstd::utf8::is_ascii_chars(s@),
        s@.len() == b.len(),
        forall|i: int| 0 <= i < b.len() ==> s@[i] as u8 == #[trigger] b[i],
    ensures
        utf8_of(s) == b,
{
    vstd::utf8::is_ascii_chars_encode_utf8(s@);
    assert(utf8_of(s) =~= b);
}

proof fn lemma_words()
    ensures
        utf8_of("0") == seq![48u8],
        utf8_of("f") == seq![102u8],
        utf8_of("false") == seq![102u8, 97u8, 108u8, 115u8, 101u8],
        utf8_of("n") == seq![110u8],
        utf8_of("no") == seq![110u8, 111u8],
        utf8_of("1") == seq![49u8],
        utf8_of("t") == seq![116u8],
        utf8_of("true") == seq![116u8, 114u8, 117u8, 101u8],
        utf8_of("y") == seq![121u8],
        utf8_of("yes") == seq![121u8, 101u8, 115u8],
{
    reveal_strlit("0");
    reveal_strlit("f");
    reveal_strlit("false");
    reveal_strlit("n");
    reveal_strlit("no");
    reveal_strlit("1");
    reveal_strlit("t");
    reveal_strlit("true");
    reveal_strlit("y");
    reveal_strlit("yes");
    lemma_ascii_word("0", seq![48u8]);
    lemma_ascii_word("f", seq![102u8]);
    lemma_ascii_word("false", seq![102u8, 97u8, 108u8, 115u8, 101u8]);
    lemma_ascii_word("n", seq![110u8]);
    lemma_ascii_word("no", seq![110u8, 111u8]);
    lemma_ascii_word("1", seq![49u8]);
    lemma_ascii_word("t", seq![116u8]);
    lemma_ascii_word("true", seq![116u8, 114u8, 117u8, 101u8]);
    lemma_ascii_word("y", seq![121u8]);
    lemma_ascii_word("yes", seq![121u8, 101u8, 115u8]);
}

proof fn lemma_ascii_lower_idempotent(v: Seq<u8>)
    ensures
        ascii_lower(ascii_lower(v)) == ascii_lower(v),
{
    assert(ascii_lower(ascii_lower(v)) =~= ascii_lower(v));
}

/// The value of a bool flag: case does not matter; each of `0`, `f`,
/// `false`, `n`, `no` gives `false`, each of `1`, `t`, `true`, `y`, `yes`
/// gives `true`, and nothing else is a value; the value given reads back
/// as itself.
pub proof fn lemma_bool_flag_values(v: Seq<u8>)
    ensures
        spec_parse_value(FlagType::Bool, v) == spec_parse_value(FlagType::Bool, ascii_lower(v)),
        false_word(ascii_lower(v)) ==> spec_parse_value(FlagType::Bool, v) == Some(
            seq![102u8, 97u8, 108u8, 115u8, 101u8],
        ),
        true_word(ascii_lower(v)) ==> spec_parse_value(FlagType::Bool, v) == Some(
            seq![116u8, 114u8, 117u8, 101u8],
        ),
        !false_word(ascii_lower(v)) && !true_word(ascii_lower(v)) ==> spec_parse_value(FlagType::Bool, v)
            is None,
        spec_parse_value(FlagType::Bool, v) matches Some(r) ==> spec_parse_value(FlagType::Bool, r) == Some(r),
{
    lemma_words();
    lemma_ascii_lower_idempotent(v);
    let t = seq![116u8, 114u8, 117u8, 101u8];
    let f = seq![102u8, 97u8, 108u8, 115u8, 101u8];
    assert(ascii_lower(t) =~= t);
    assert(ascii_lower(f) =~= f);
}

/// A string flag takes its value as it is.
pub proof fn lemma_string_flag_value(v: Seq<u8>)
    ensures
        spec_parse_value(FlagType::String, v) == Some(v),
{
}

} // verus!
