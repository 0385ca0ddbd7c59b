//! Parsing of non-negative decimal integers from ASCII digit bytes.

use vstd::prelude::*;

verus! {

/// Every byte of `s` is an ASCII decimal digit.
pub open spec fn all_digits(s: Seq<u8>) -> bool {
    forall|i: int| 0 <= i < s.len() ==> 48 <= #[trigger] s[i] <= 57
}

/// The value of `s` read as a decimal numeral, most significant digit first.
pub open spec fn digits_val(s: Seq<u8>) -> int
    decreases s.len(),
{
    if s.len() == 0 {
        0
    } else {
        10 * digits_val(s.drop_last()) + (s.last() - 48)
    }
}

proof fn lemma_digits_val_nonneg(s: Seq<u8>)
    requires
        all_digits(s),
    ensures
        digits_val(s) >= 0,
    decreases s.len(),
{
    if s.len() > 0 {
        assert(all_digits(s.drop_last()));
        lemma_digits_val_nonneg(s.drop_last());
    }
}

proof fn lemma_digits_val_prefix_le(s: Seq<u8>, m: int)
    requires
        all_digits(s),
        0 <= m <= s.len(),
    ensures
        digits_val(s.subrange(0, m)) <= digits_val(s),
    decreases s.len() - m,
{
    if m < s.len() {
        let t = s.subrange(0, m + 1);
        assert(t.drop_last() =~= s.subrange(0, m));
        assert(all_digits(t.drop_last()));
        lemma_digits_val_nonneg(t.drop_last());
        lemma_digits_val_prefix_le(s, m + 1);
    } else {
        assert(s.subrange(0, m) =~= s);
    }
}

/// Reads a sequence of ASCII digit bytes as a non-negative decimal integer.
pub fn parse(bytes: &[u8]) -> (val: i32)
    requires
        all_digits(bytes@),
        digits_val(bytes@) <= i32::MAX,
    ensures
        val == digits_val(bytes@),
{
    let mut val: i32 = 0;
    let mut k: usize = 0;
    while k < bytes.len()
        invariant
            all_digits(bytes@),
            digits_val(bytes@) <= i32::MAX,
            0 <= k <= bytes@.len(),
            val == digits_val(bytes@.subrange(0, k as int)),
        decreases bytes@.len() - k,
    {
        proof {
            let p = bytes@.subrange(0, k + 1);
            assert(p.drop_last() =~= bytes@.subrange(0, k as int));
            lemma_digits_val_nonneg(p.drop_last());
            lemma_digits_val_prefix_le(bytes@, k + 1);
        }
        let b = bytes[k];
        val = 10 * val + (b - 48) as i32;
        k = k + 1;
    }
    proof {
        assert(bytes@.subrange(0, bytes@.len() as int) =~= bytes@);
    }
    val
}

} // verus!
