//! Small verified helpers over byte and character sequences: equality,
//! ASCII classification, decimal parsing and formatting, and conversion of
//! ASCII byte buffers into `String`s.
use vstd::prelude::*;
use vstd::string::StringSliceAdditionalSpecFns;
use vstd::utf8::{decode_utf8, valid_utf8};

verus! {

/// The characters a pure-ASCII byte buffer stands for, one per byte.
pub open spec fn ascii_chars_of(b: Seq<u8>) -> Seq<char> {
    Seq::new(b.len(), |i: int| b[i] as char)
}

pub open spec fn all_ascii(b: Seq<u8>) -> bool {
    forall|i: int| 0 <= i < b.len() ==> b[i] < 128
}

pub open spec fn is_digit(b: u8) -> bool {
    48 <= b <= 57
}

/// Numeric value of a sequence of decimal digit bytes, most significant first.
pub open spec fn dec_value(b: Seq<u8>) -> int
    decreases b.len(),
{
    if b.len() == 0 {
        0
    } else {
        dec_value(b.drop_last()) * 10 + (b.last() - 48)
    }
}

pub open spec fn all_digits(b: Seq<u8>) -> bool {
    forall|i: int| 0 <= i < b.len() ==> is_digit(b[i])
}

/// Decimal digit bytes of `n`, most significant first.
pub open spec fn dec_bytes(n: nat) -> Seq<u8>
    decreases n,
{
    if n < 10 {
        seq![(48 + n) as u8]
    } else {
        dec_bytes(n / 10).push((48 + n % 10) as u8)
    }
}

/// Compares two byte slices for equality.
pub fn bytes_eq(a: &[u8], b: &[u8]) -> (r: bool)
    ensures
        r == (a@ == b@),
{
    if a.len() != b.len() {
        assert(a@.len() != b@.len());
        return false;
    }
    let n: usize = a.len();
    let mut i: usize = 0;
    while i < n
        invariant
            0 <= i <= n,
            n == a@.len() == b@.len(),
            forall|j: int| 0 <= j < i ==> a@[j] == b@[j],
        decreases n - i,
    {
        if a[i] != b[i] {
            return false;
        }
        i += 1;
    }
    assert(a@ =~= b@);
    true
}

/// Compares two string slices for equality of their character sequences.
pub fn str_eq(a: &str, b: &str) -> (r: bool)
    ensures
        r == (a@ == b@),
{
    let r = bytes_eq(a.as_bytes(), b.as_bytes());
    proof {
        if a.spec_bytes() == b.spec_bytes() {
            vstd::utf8::encode_utf8_decode_utf8(a@);
            vstd::utf8::encode_utf8_decode_utf8(b@);
            assert(a@ == b@);
        }
    }
    r
}

/// Appends the decimal digits of `n`, most significant first.
pub fn push_dec(n: u64, out: &mut Vec<u8>)
    ensures
        final(out)@ == old(out)@ + dec_bytes(n as nat),
    decreases n,
{
    if n < 10 {
        out.push((48 + n) as u8);
    } else {
        push_dec(n / 10, out);
        out.push((48 + (n % 10)) as u8);
        assert(out@ =~= old(out)@ + dec_bytes(n as nat));
    }
}

/// The decimal digits of a number are digits, hence ASCII.
pub proof fn lemma_dec_bytes_ascii(n: nat)
    ensures
        all_digits(dec_bytes(n)),
        all_ascii(dec_bytes(n)),
    decreases n,
{
    if n >= 10 {
        lemma_dec_bytes_ascii(n / 10);
        assert(all_digits(dec_bytes(n))) by {
            assert(dec_bytes(n) == dec_bytes(n / 10).push((48 + n % 10) as u8));
        }
    }
}

/// The `String` spelling `n` in decimal.
pub fn u64_to_string(n: u64) -> (r: String)
    ensures
        r@ == ascii_chars_of(dec_bytes(n as nat)),
{
    let mut buf: Vec<u8> = Vec::new();
    push_dec(n, &mut buf);
    proof {
        lemma_dec_bytes_ascii(n as nat);
        assert(buf@ =~= dec_bytes(n as nat));
    }
    ascii_to_string(&buf)
}

/// Parses `b` as an unsigned decimal number; rejects empty input, any
/// non-digit byte, and values that overflow `u64`.
pub fn parse_u64_dec(b: &[u8]) -> (r: Option<u64>)
    ensures
        match r {
            Some(n) => all_digits(b@) && b@.len() > 0 && n == dec_value(b@) && dec_value(b@)
                <= u64::MAX,
            None => b@.len() == 0 || !all_digits(b@) || dec_value(b@) > u64::MAX,
        },
{
    if b.len() == 0 {
        return None;
    }
    let n: usize = b.len();
    let mut acc: u64 = 0;
    let mut i: usize = 0;
    while i < n
        invariant
            0 <= i <= n,
            n == b@.len(),
            all_digits(b@.subrange(0, i as int)),
            acc == dec_value(b@.subrange(0, i as int)),
        decreases n - i,
    {
        let c = b[i];
        if c < 48 || c > 57 {
            assert(!is_digit(b@[i as int]));
            return None;
        }
        let d: u64 = (c - 48) as u64;
        if acc > (u64::MAX - d) / 10 {
            proof {
                if all_digits(b@) {
                    assert(b@.subrange(0, i as int + 1).drop_last() =~= b@.subrange(0, i as int));
                    assert(dec_value(b@.subrange(0, i as int + 1)) == acc * 10 + d);
                    assert(acc * 10 + d > u64::MAX) by (nonlinear_arith)
                        requires
                            acc > (u64::MAX - d) / 10,
                            0 <= d <= 9,
                            acc <= u64::MAX,
                    ;
                    lemma_dec_value_monotonic(b@.subrange(0, i as int + 1), b@);
                }
            }
            return None;
        }
        acc = acc * 10 + d;
        i += 1;
        assert(b@.subrange(0, i as int).drop_last() =~= b@.subrange(0, i as int - 1));
    }
    proof {
        assert(b@.subrange(0, n as int) =~= b@);
    }
    Some(acc)
}

/// A digit string's value only grows as more digits follow.
pub proof fn lemma_dec_value_monotonic(p: Seq<u8>, b: Seq<u8>)
    requires
        p.len() <= b.len(),
        forall|i: int| 0 <= i < p.len() ==> p[i] == b[i],
        all_digits(b),
    ensures
        dec_value(p) <= dec_value(b),
    decreases b.len(),
{
    if p.len() == b.len() {
        assert(p =~= b);
    } else {
        lemma_dec_value_monotonic(p, b.drop_last());
        lemma_dec_value_nonneg(b.drop_last());
    }
}

pub proof fn lemma_dec_value_nonneg(b: Seq<u8>)
    requires
        all_digits(b),
    ensures
        dec_value(b) >= 0,
    decreases b.len(),
{
    if b.len() > 0 {
        lemma_dec_value_nonneg(b.drop_last());
    }
}

/// Relies on `String::from_utf8_lossy`: on valid UTF-8 input the conversion
/// is exactly the UTF-8 decoding of the bytes.
#[verifier::external_body]
pub(crate) fn bytes_to_string(v: &Vec<u8>) -> (r: String)
    ensures
        valid_utf8(v@) ==> r@ == decode_utf8(v@),
{
    String::from_utf8_lossy(v.as_slice()).into_owned()
}

/// Turns a buffer of ASCII bytes into the `String` spelling the same characters.
pub fn ascii_to_string(v: &Vec<u8>) -> (r: String)
    requires
        all_ascii(v@),
    ensures
        r@ == ascii_chars_of(v@),
{
    proof {
        lemma_ascii_decode(v@);
    }
    bytes_to_string(v)
}

/// For pure-ASCII bytes, UTF-8 decoding is the byte-for-byte cast to `char`.
pub proof fn lemma_ascii_decode(b: Seq<u8>)
    requires
        all_ascii(b),
    ensures
        valid_utf8(b),
        decode_utf8(b) == ascii_chars_of(b),
{
    let cs = ascii_chars_of(b);
    assert forall|i: int| 0 <= i < cs.len() implies '\0' <= #[trigger] cs[i] <= '\u{7f}' by {
        assert(b[i] < 128);
        assert(cs[i] == b[i] as char);
    }
    assert(vstd::utf8::is_ascii_chars(cs));
    vstd::utf8::is_ascii_chars_encode_utf8(cs);
    assert(vstd::utf8::encode_utf8(cs) =~= b);
    vstd::utf8::encode_utf8_valid_utf8(cs);
    vstd::utf8::encode_utf8_decode_utf8(cs);
}

} // verus!
