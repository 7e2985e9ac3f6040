//! Standard base64 encoding, used to build the basic-authorization value of
//! the token refresh request.
use crate::strutil::{all_ascii, ascii_chars_of, ascii_to_string};
use vstd::prelude::*;
use vstd::string::StringSliceAdditionalSpecFns;

verus! {

/// The base64 alphabet, by six-bit index: `A`–`Z`, `a`–`z`, `0`–`9`, `+`, `/`.
pub open spec fn b64_char(i: u8) -> u8 {
    if i < 26 {
        (65 + i) as u8
    } else if i < 52 {
        (71 + i) as u8
    } else if i < 62 {
        (i - 4) as u8
    } else if i == 62 {
        43
    } else {
        47
    }
}

/// Base64 of a byte string: each group of three bytes becomes four alphabet
/// characters; a final group of one or two bytes is zero-extended and the
/// missing positions written as `=`.
pub open spec fn spec_base64(b: Seq<u8>) -> Seq<u8>
    decreases b.len(),
{
    if b.len() == 0 {
        Seq::empty()
    } else if b.len() == 1 {
        let b0 = b[0];
        seq![b64_char(b0 >> 2), b64_char((b0 & 3) << 4), 61u8, 61u8]
    } else if b.len() == 2 {
        let b0 = b[0];
        let b1 = b[1];
        seq![b64_char(b0 >> 2), b64_char(((b0 & 3) << 4) | (b1 >> 4)), b64_char((b1 & 15) << 2), 61u8]
    } else {
        let b0 = b[0];
        let b1 = b[1];
        let b2 = b[2];
        seq![
            b64_char(b0 >> 2),
            b64_char(((b0 & 3) << 4) | (b1 >> 4)),
            b64_char(((b1 & 15) << 2) | (b2 >> 6)),
            b64_char(b2 & 63),
        ] + spec_base64(b.skip(3))
    }
}

fn b64_char_of(i: u8) -> (r: u8)
    ensures
        r == b64_char(i),
{
    if i < 26 {
        65 + i
    } else if i < 52 {
        71 + i
    } else if i < 62 {
        i - 4
    } else if i == 62 {
        43
    } else {
        47
    }
}

/// Every byte base64 produces is a printable ASCII character.
pub proof fn lemma_base64_ascii(b: Seq<u8>)
    ensures
        all_ascii(spec_base64(b)),
    decreases b.len(),
{
    if b.len() > 2 {
        lemma_base64_ascii(b.skip(3));
    }
}

/// Base64-encodes the bytes of `input`.
pub fn base64_encode(input: &str) -> (r: String)
    ensures
        r@ == ascii_chars_of(spec_base64(input.spec_bytes())),
{
    let v = input.as_bytes();
    let n: usize = v.len();
    let mut out: Vec<u8> = Vec::new();
    let mut i: usize = 0;
    proof {
        assert(v@.skip(0) =~= v@);
    }
    while i < n
        invariant
            0 <= i <= n,
            n == v@.len(),
            spec_base64(v@) =~= out@ + spec_base64(v@.skip(i as int)),
        decreases n - i,
    {
        let ghost rest = v@.skip(i as int);
        proof {
            assert(rest[0] == v@[i as int]);
            if rest.len() > 1 {
                assert(rest[1] == v@[i as int + 1]);
            }
            if rest.len() > 2 {
                assert(rest[2] == v@[i as int + 2]);
                assert(rest.skip(3) =~= v@.skip(i as int + 3));
            }
        }
        let b0 = v[i];
        let b1 = if n - i > 1 {
            v[i + 1]
        } else {
            0
        };
        let b2 = if n - i > 2 {
            v[i + 2]
        } else {
            0
        };
        out.push(b64_char_of(b0 >> 2));
        if n - i > 1 {
            out.push(b64_char_of(((b0 & 3) << 4) | (b1 >> 4)));
        } else {
            out.push(b64_char_of((b0 & 3) << 4));
        }
        if n - i > 1 {
            if n - i > 2 {
                out.push(b64_char_of(((b1 & 15) << 2) | (b2 >> 6)));
            } else {
                out.push(b64_char_of((b1 & 15) << 2));
            }
        } else {
            out.push(61);
        }
        if n - i > 2 {
            out.push(b64_char_of(b2 & 63));
        } else {
            out.push(61);
        }
        proof {
            if rest.len() == 1 {
                assert((b1 >> 4) == 0u8) by (bit_vector)
                    requires
                        b1 == 0u8,
                ;
            }
            if rest.len() == 2 {
                assert((b2 >> 6) == 0u8) by (bit_vector)
                    requires
                        b2 == 0u8,
                ;
            }
        }
        if n - i >= 3 {
            i += 3;
        } else {
            i = n;
            proof {
                assert(v@.skip(n as int) =~= Seq::<u8>::empty());
            }
        }
    }
    proof {
        lemma_base64_ascii(v@);
    }
    ascii_to_string(&out)
}

} // verus!
