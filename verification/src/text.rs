//! Text as bytes: comparing two strings, testing for a suffix, and writing a
//! number in decimal.
//!
//! Strings are compared through their UTF-8 bytes. Contracts speak of the
//! characters: that the two agree rests on the fact that decoding undoes
//! encoding.
use vstd::prelude::*;
use vstd::string::StringSliceAdditionalSpecFns;
use vstd::utf8::{
    decode_utf8,
    decode_utf8_split,
    encode_scalar,
    encode_utf8,
    encode_utf8_decode_utf8,
    encode_utf8_valid_utf8,
    is_char_boundary,
    is_char_boundary_iff_not_is_continuation_byte,
    is_char_boundary_start_end_of_seq,
};

verus! {

/// The ASCII code of the digit `0`.
pub const DIGIT_ZERO: u8 = 48;

/// `n` in decimal, as ASCII digits: no sign, and no leading zero but for 0 itself.
pub open spec fn decimal(n: nat) -> Seq<u8>
    decreases n,
{
    if n < 10 {
        seq![(DIGIT_ZERO + n) as u8]
    } else {
        decimal(n / 10).push((DIGIT_ZERO + n % 10) as u8)
    }
}

/// Encoding a text piece by piece gives the bytes of the whole.
pub proof fn lemma_encode_concat(front: Seq<char>, back: Seq<char>)
    ensures
        encode_utf8(front + back) == encode_utf8(front) + encode_utf8(back),
    decreases front.len(),
{
    if front.len() == 0 {
        assert(front + back =~= back);
        assert(encode_utf8(front) + encode_utf8(back) =~= encode_utf8(back));
    } else {
        lemma_encode_concat(front.drop_first(), back);
        assert((front + back).drop_first() =~= front.drop_first() + back);
        assert(encode_utf8(front + back) =~= encode_scalar(front[0] as u32) + (encode_utf8(
            front.drop_first(),
        ) + encode_utf8(back)));
        assert(encode_utf8(front) + encode_utf8(back) =~= encode_scalar(front[0] as u32) + (
        encode_utf8(front.drop_first()) + encode_utf8(back)));
    }
}

/// Two texts are the same exactly when their bytes are.
pub proof fn lemma_same_bytes_same_text(a: Seq<char>, b: Seq<char>)
    ensures
        (encode_utf8(a) == encode_utf8(b)) <==> a == b,
{
    encode_utf8_decode_utf8(a);
    encode_utf8_decode_utf8(b);
}

/// One text ends with another exactly when its bytes end with the other's.
pub proof fn lemma_suffix_of_bytes(suffix: Seq<char>, text: Seq<char>)
    ensures
        encode_utf8(suffix).is_suffix_of(encode_utf8(text)) <==> suffix.is_suffix_of(text),
{
    let tail = encode_utf8(suffix);
    let whole = encode_utf8(text);
    encode_utf8_valid_utf8(suffix);
    encode_utf8_valid_utf8(text);
    encode_utf8_decode_utf8(suffix);
    encode_utf8_decode_utf8(text);
    if suffix.is_suffix_of(text) {
        let cut = text.len() - suffix.len();
        let front = text.subrange(0, cut);
        assert(text =~= front + suffix);
        lemma_encode_concat(front, suffix);
        assert(tail =~= whole.subrange(whole.len() - tail.len(), whole.len() as int));
    }
    if tail.is_suffix_of(whole) {
        let cut = whole.len() - tail.len();
        assert(is_char_boundary(whole, cut)) by {
            if tail.len() == 0 {
                is_char_boundary_start_end_of_seq(whole);
            } else {
                is_char_boundary_iff_not_is_continuation_byte(tail, 0);
                assert(whole[cut] == tail[0]);
                is_char_boundary_iff_not_is_continuation_byte(whole, cut);
            }
        }
        decode_utf8_split(whole, cut);
        let front = decode_utf8(whole.subrange(0, cut));
        assert(whole.subrange(cut, whole.len() as int) =~= tail);
        assert(text =~= front + suffix);
        assert(suffix =~= text.subrange(text.len() - suffix.len(), text.len() as int));
    }
}

/// Whether two byte strings are equal.
pub fn same_bytes(a: &[u8], b: &[u8]) -> (same: bool)
    ensures
        same == (a@ == b@),
{
    if a.len() != b.len() {
        return false;
    }
    let mut i: usize = 0;
    while i < a.len()
        invariant
            a@.len() == b@.len(),
            i <= a@.len(),
            forall|k: int| 0 <= k < i ==> a@[k] == b@[k],
        decreases a@.len() - i,
    {
        if a[i] != b[i] {
            return false;
        }
        i += 1;
    }
    assert(a@ =~= b@);
    true
}

/// Whether two texts are equal, character for character.
pub fn same_text(a: &str, b: &str) -> (same: bool)
    ensures
        same == (a@ == b@),
{
    proof {
        lemma_same_bytes_same_text(a@, b@);
    }
    same_bytes(a.as_bytes(), b.as_bytes())
}

/// Whether `text` ends with `suffix`. Every text ends with the empty one.
pub fn ends_with(text: &str, suffix: &str) -> (ends: bool)
    ensures
        ends == suffix@.is_suffix_of(text@),
{
    let whole = text.as_bytes();
    let tail = suffix.as_bytes();
    proof {
        lemma_suffix_of_bytes(suffix@, text@);
    }
    if tail.len() > whole.len() {
        return false;
    }
    let cut: usize = whole.len() - tail.len();
    let mut i: usize = 0;
    while i < tail.len()
        invariant
            cut + tail@.len() == whole@.len() <= usize::MAX,
            tail@.is_suffix_of(whole@) <==> suffix@.is_suffix_of(text@),
            i <= tail@.len(),
            forall|k: int| 0 <= k < i ==> whole@[cut + k] == tail@[k],
        decreases tail@.len() - i,
    {
        if whole[cut + i] != tail[i] {
            assert(whole@.subrange(cut as int, whole@.len() as int)[i as int] != tail@[i as int]);
            return false;
        }
        i += 1;
    }
    assert(tail@ =~= whole@.subrange(cut as int, whole@.len() as int));
    true
}

/// Appends `bytes` to `out`.
pub fn push_bytes(out: &mut Vec<u8>, bytes: &[u8])
    ensures
        final(out)@ == old(out)@ + bytes@,
{
    let mut i: usize = 0;
    while i < bytes.len()
        invariant
            i <= bytes@.len(),
            out@ == old(out)@ + bytes@.subrange(0, i as int),
        decreases bytes@.len() - i,
    {
        out.push(bytes[i]);
        assert(bytes@.subrange(0, i + 1) =~= bytes@.subrange(0, i as int).push(bytes@[i as int]));
        i += 1;
    }
    assert(bytes@.subrange(0, i as int) =~= bytes@);
}

/// Appends the UTF-8 bytes of `text` to `out`.
pub fn push_text(out: &mut Vec<u8>, text: &str)
    ensures
        final(out)@ == old(out)@ + encode_utf8(text@),
{
    push_bytes(out, text.as_bytes());
}

/// Appends `n` in decimal to `out`.
pub fn push_decimal(out: &mut Vec<u8>, n: usize)
    ensures
        final(out)@ == old(out)@ + decimal(n as nat),
    decreases n,
{
    if n >= 10 {
        push_decimal(out, n / 10);
    }
    let digit: u8 = (n % 10) as u8;
    out.push(DIGIT_ZERO + digit);
    proof {
        if n >= 10 {
            assert(out@ =~= old(out)@ + decimal((n / 10) as nat).push(
                (DIGIT_ZERO + n % 10) as u8,
            ));
        } else {
            assert(out@ =~= old(out)@ + seq![(DIGIT_ZERO + n) as u8]);
        }
    }
}

/// The number that a string of ASCII digits stands for.
pub open spec fn decimal_value(digits: Seq<u8>) -> nat
    decreases digits.len(),
{
    if digits.len() == 0 {
        0
    } else {
        (decimal_value(digits.drop_last()) * 10 + (digits.last() - DIGIT_ZERO)) as nat
    }
}

/// Reading a number back from its decimal form gives the number: no two
/// numbers are written alike.
pub proof fn lemma_decimal_reads_back(n: nat)
    ensures
        decimal_value(decimal(n)) == n,
    decreases n,
{
    if n < 10 {
        assert(decimal(n).drop_last() =~= Seq::<u8>::empty());
        assert(decimal_value(decimal(n).drop_last()) == 0);
    } else {
        lemma_decimal_reads_back(n / 10);
        assert(decimal(n).drop_last() =~= decimal(n / 10));
    }
}

/// A number in decimal has at least one digit, every one of them a digit.
pub proof fn lemma_decimal_digits(n: nat)
    ensures
        decimal(n).len() >= 1,
        forall|i: int| 0 <= i < decimal(n).len() ==> 48 <= #[trigger] decimal(n)[i] <= 57,
        n >= 10 ==> decimal(n)[0] != 48,
    decreases n,
{
    if n >= 10 {
        lemma_decimal_digits(n / 10);
    }
}

} // verus!
