//! Parsing of URL query strings and url-encoded form bodies: percent
//! decoding, `key=value` pair extraction, and last-one-wins lookup, exactly
//! as the handlers consume them.
use crate::identity::{find_byte, lemma_find_byte, split_on, split_bytes, copy_range};
use crate::strutil::bytes_to_string;
use vstd::prelude::*;
use vstd::string::StringSliceAdditionalSpecFns;
use vstd::utf8::{decode_utf8, valid_utf8};

verus! {

pub open spec fn is_hex_digit(b: u8) -> bool {
    (48 <= b <= 57) || (97 <= b <= 102) || (65 <= b <= 70)
}

pub open spec fn hex_digit_val(b: u8) -> u8 {
    if 48 <= b <= 57 {
        (b - 48) as u8
    } else if 97 <= b <= 102 {
        (b - 87) as u8
    } else {
        (b - 55) as u8
    }
}

/// The byte a two-character percent escape stands for: two hexadecimal
/// digits, or a leading plus sign before a single digit, which the number
/// parser underneath the decoder also accepts.
pub open spec fn hex_pair_val(b1: u8, b2: u8) -> Option<u8> {
    if is_hex_digit(b1) && is_hex_digit(b2) {
        Some((hex_digit_val(b1) * 16 + hex_digit_val(b2)) as u8)
    } else if b1 == 43 && is_hex_digit(b2) {
        Some(hex_digit_val(b2))
    } else {
        None
    }
}

/// Url-decoding of a byte string: `+` means space, a `%` followed by a
/// valid two-character escape means that byte, an invalid escape drops the
/// `%`, and everything else passes through.
pub open spec fn spec_url_decode(b: Seq<u8>) -> Seq<u8>
    decreases b.len(),
{
    if b.len() == 0 {
        Seq::empty()
    } else if b[0] == 43 {
        seq![32u8] + spec_url_decode(b.skip(1))
    } else if b[0] == 37 && b.len() > 2 {
        match hex_pair_val(b[1], b[2]) {
            Some(v) => seq![v] + spec_url_decode(b.skip(3)),
            None => spec_url_decode(b.skip(1)),
        }
    } else {
        seq![b[0]] + spec_url_decode(b.skip(1))
    }
}

fn hex_digit_of(b: u8) -> (r: Option<u8>)
    ensures
        r matches Some(v) ==> is_hex_digit(b) && v == hex_digit_val(b),
        r is None ==> !is_hex_digit(b),
{
    if 48 <= b && b <= 57 {
        Some(b - 48)
    } else if 97 <= b && b <= 102 {
        Some(b - 87)
    } else if 65 <= b && b <= 70 {
        Some(b - 55)
    } else {
        None
    }
}

fn hex_pair_of(b1: u8, b2: u8) -> (r: Option<u8>)
    ensures
        r == hex_pair_val(b1, b2),
{
    match (hex_digit_of(b1), hex_digit_of(b2)) {
        (Some(v1), Some(v2)) => Some(v1 * 16 + v2),
        (None, Some(v2)) => if b1 == 43 {
            Some(v2)
        } else {
            None
        },
        _ => None,
    }
}

/// Url-decodes a byte string.
pub fn url_decode_bytes(v: &[u8]) -> (r: Vec<u8>)
    ensures
        r@ == spec_url_decode(v@),
{
    let n: usize = v.len();
    let mut out: Vec<u8> = Vec::new();
    let mut i: usize = 0;
    proof {
        assert(v@.skip(0) =~= v@);
    }
    while i < n
        invariant
            0 <= i <= n,
            n == v@.len(),
            spec_url_decode(v@) =~= out@ + spec_url_decode(v@.skip(i as int)),
        decreases n - i,
    {
        let ghost rest = v@.skip(i as int);
        proof {
            assert(rest[0] == v@[i as int]);
            assert(rest.skip(1) =~= v@.skip(i as int + 1));
            if rest.len() > 2 {
                assert(rest[1] == v@[i as int + 1]);
                assert(rest[2] == v@[i as int + 2]);
                assert(rest.skip(3) =~= v@.skip(i as int + 3));
            }
        }
        let b = v[i];
        if b == 43 {
            out.push(32);
            i += 1;
        } else if b == 37 && n - i > 2 {
            match hex_pair_of(v[i + 1], v[i + 2]) {
                Some(val) => {
                    out.push(val);
                    i += 3;
                },
                None => {
                    i += 1;
                },
            }
        } else {
            out.push(b);
            i += 1;
        }
    }
    proof {
        assert(v@.skip(n as int) =~= Seq::<u8>::empty());
        assert(out@ =~= out@ + spec_url_decode(v@.skip(n as int)));
    }
    out
}

/// Url-decodes a string. The decoded bytes need not be valid UTF-8;
/// invalid sequences are replaced, so the character view is pinned only
/// when the decoded bytes are valid.
pub fn url_decode(s: &str) -> (r: String)
    ensures
        valid_utf8(spec_url_decode(s.spec_bytes())) ==> r@ == decode_utf8(
            spec_url_decode(s.spec_bytes()),
        ),
{
    let bytes = url_decode_bytes(s.as_bytes());
    bytes_to_string(&bytes)
}

/// One form pair: the part before the first `=`, and everything after it,
/// both url-decoded. A piece with no `=` is no pair.
pub open spec fn spec_parse_pair(p: Seq<u8>) -> Option<(Seq<u8>, Seq<u8>)> {
    let i = find_byte(p, 61);
    if i == p.len() {
        None
    } else {
        Some((spec_url_decode(p.subrange(0, i)), spec_url_decode(p.subrange(i + 1, p.len() as int))))
    }
}

/// The pairs of the given `&`-separated pieces, pieces without `=` skipped.
pub open spec fn spec_pairs_of(parts: Seq<Seq<u8>>) -> Seq<(Seq<u8>, Seq<u8>)>
    decreases parts.len(),
{
    if parts.len() == 0 {
        Seq::empty()
    } else {
        match spec_parse_pair(parts[0]) {
            Some(p) => seq![p] + spec_pairs_of(parts.drop_first()),
            None => spec_pairs_of(parts.drop_first()),
        }
    }
}

/// A url-encoded form body as decoded key/value byte pairs.
pub open spec fn spec_parse_urlencoded(b: Seq<u8>) -> Seq<(Seq<u8>, Seq<u8>)> {
    spec_pairs_of(split_on(b, 38))
}

/// Parses a url-encoded form body into decoded key/value byte pairs.
pub fn parse_urlencoded_bytes(v: &[u8]) -> (r: Vec<(Vec<u8>, Vec<u8>)>)
    ensures
        r.deep_view() == spec_parse_urlencoded(v@),
{
    let parts = split_bytes(v, 38);
    let mut out: Vec<(Vec<u8>, Vec<u8>)> = Vec::new();
    let mut i: usize = 0;
    let n: usize = parts.len();
    proof {
        assert(parts.deep_view().skip(0) =~= parts.deep_view());
        assert(out.deep_view() + spec_pairs_of(parts.deep_view()) =~= spec_pairs_of(
            parts.deep_view(),
        ));
    }
    while i < n
        invariant
            0 <= i <= n,
            n == parts@.len(),
            parts.deep_view() == split_on(v@, 38),
            spec_parse_urlencoded(v@) =~~= out.deep_view() + spec_pairs_of(
                parts.deep_view().skip(i as int),
            ),
        decreases n - i,
    {
        let ghost rest = parts.deep_view().skip(i as int);
        proof {
            assert(rest[0] == parts@[i as int]@);
            assert(rest.drop_first() =~= parts.deep_view().skip(i as int + 1));
            lemma_find_byte(parts@[i as int]@, 61);
        }
        let part = &parts[i];
        let eq = crate::identity::find_byte_from(part.as_slice(), 61, 0);
        proof {
            assert(part@.subrange(0, part@.len() as int) =~= part@);
        }
        if eq < part.len() {
            let key = copy_range(part.as_slice(), 0, eq);
            let value = copy_range(part.as_slice(), eq + 1, part.len());
            let dk = url_decode_bytes(key.as_slice());
            let dv = url_decode_bytes(value.as_slice());
            out.push((dk, dv));
            proof {
                assert(spec_parse_pair(rest[0]) == Some((dk@, dv@)));
                assert(spec_parse_urlencoded(v@) =~~= out.deep_view() + spec_pairs_of(
                    parts.deep_view().skip(i as int + 1),
                ));
            }
        } else {
            proof {
                assert(spec_parse_pair(rest[0]) is None);
            }
        }
        i += 1;
    }
    proof {
        assert(parts.deep_view().skip(n as int) =~= Seq::<Seq<u8>>::empty());
        assert(out.deep_view() =~= spec_parse_urlencoded(v@));
    }
    out
}

/// Parses a url-encoded form body into key/value strings, as the guestbook
/// post handler consumes it.
pub fn parse_urlencoded(body: &str) -> (r: Vec<(String, String)>)
    ensures
        r@.len() == spec_parse_urlencoded(body.spec_bytes()).len(),
        forall|i: int|
            0 <= i < r@.len() ==> {
                let (k, v) = #[trigger] spec_parse_urlencoded(body.spec_bytes())[i];
                &&& (valid_utf8(k) ==> r@[i].0@ == decode_utf8(k))
                &&& (valid_utf8(v) ==> r@[i].1@ == decode_utf8(v))
            },
{
    let pairs = parse_urlencoded_bytes(body.as_bytes());
    let mut out: Vec<(String, String)> = Vec::new();
    let mut i: usize = 0;
    let n: usize = pairs.len();
    while i < n
        invariant
            0 <= i <= n,
            n == pairs@.len(),
            pairs.deep_view() == spec_parse_urlencoded(body.spec_bytes()),
            out@.len() == i,
            forall|j: int|
                0 <= j < i ==> {
                    let (k, v) = #[trigger] pairs.deep_view()[j];
                    &&& (valid_utf8(k) ==> out@[j].0@ == decode_utf8(k))
                    &&& (valid_utf8(v) ==> out@[j].1@ == decode_utf8(v))
                },
        decreases n - i,
    {
        let ks = bytes_to_string(&pairs[i].0);
        let vs = bytes_to_string(&pairs[i].1);
        proof {
            assert(pairs.deep_view()[i as int] == (pairs@[i as int].0@, pairs@[i as int].1@));
        }
        out.push((ks, vs));
        i += 1;
    }
    out
}

/// The value of the last pair whose key spells `key`: the pairs fill a
/// map, so a later duplicate wins.
pub open spec fn spec_lookup(pairs: Seq<(Seq<char>, Seq<char>)>, key: Seq<char>) -> Option<
    Seq<char>,
>
    decreases pairs.len(),
{
    if pairs.len() == 0 {
        None
    } else if pairs.last().0 == key {
        Some(pairs.last().1)
    } else {
        spec_lookup(pairs.drop_last(), key)
    }
}

/// Looks `key` up among parsed pairs, last duplicate winning.
pub fn get_param<'a>(pairs: &'a Vec<(String, String)>, key: &str) -> (r: Option<&'a String>)
    ensures
        match r {
            Some(v) => spec_lookup(pairs.deep_view(), key@) == Some(v@),
            None => spec_lookup(pairs.deep_view(), key@) is None,
        },
{
    let n: usize = pairs.len();
    let mut i: usize = n;
    proof {
        assert(pairs.deep_view().take(n as int) =~= pairs.deep_view());
    }
    while i > 0
        invariant
            0 <= i <= n,
            n == pairs@.len(),
            spec_lookup(pairs.deep_view(), key@) == spec_lookup(
                pairs.deep_view().take(i as int),
                key@,
            ),
        decreases i,
    {
        i -= 1;
        if crate::strutil::str_eq(pairs[i].0.as_str(), key) {
            proof {
                assert(pairs.deep_view().take(i as int + 1).last() == (
                    pairs@[i as int].0@,
                    pairs@[i as int].1@,
                ));
            }
            return Some(&pairs[i].1);
        }
        proof {
            assert(pairs.deep_view().take(i as int + 1).drop_last() =~= pairs.deep_view().take(
                i as int,
            ));
            assert(pairs.deep_view().take(i as int + 1).last() == (
                pairs@[i as int].0@,
                pairs@[i as int].1@,
            ));
        }
    }
    proof {
        assert(pairs.deep_view().take(0) =~= Seq::<(Seq<char>, Seq<char>)>::empty());
    }
    None
}

/// The number a query parameter names: decimal digits after at most one
/// leading plus sign, in range.
pub open spec fn spec_param_u64(b: Seq<u8>) -> Option<u64> {
    let digits = if b.len() > 0 && b[0] == 43 {
        b.drop_first()
    } else {
        b
    };
    if digits.len() > 0 && crate::strutil::all_digits(digits) && crate::strutil::dec_value(digits)
        <= u64::MAX {
        Some(crate::strutil::dec_value(digits) as u64)
    } else {
        None
    }
}

/// Reads a numeric query parameter, as the paging parameters are read.
pub fn parse_u64_param(s: &str) -> (r: Option<u64>)
    ensures
        r == spec_param_u64(s.spec_bytes()),
{
    let v = s.as_bytes();
    let digits = if v.len() > 0 && v[0] == 43 {
        proof {
            assert(v@.subrange(1, v@.len() as int) =~= v@.drop_first());
        }
        crate::identity::copy_range(v, 1, v.len())
    } else {
        proof {
            assert(v@.subrange(0, v@.len() as int) =~= v@);
        }
        crate::identity::copy_range(v, 0, v.len())
    };
    crate::strutil::parse_u64_dec(digits.as_slice())
}

/// The query pairs of a request URL: everything after the first `?`, split
/// on `&`, each piece split at its first `=`; pieces without `=` are
/// skipped and nothing is url-decoded.
pub open spec fn spec_query_pair(p: Seq<u8>) -> Option<(Seq<u8>, Seq<u8>)> {
    let i = find_byte(p, 61);
    if i == p.len() {
        None
    } else {
        Some((p.subrange(0, i), p.subrange(i + 1, p.len() as int)))
    }
}

pub open spec fn spec_query_pairs_of(parts: Seq<Seq<u8>>) -> Seq<(Seq<u8>, Seq<u8>)>
    decreases parts.len(),
{
    if parts.len() == 0 {
        Seq::empty()
    } else {
        match spec_query_pair(parts[0]) {
            Some(p) => seq![p] + spec_query_pairs_of(parts.drop_first()),
            None => spec_query_pairs_of(parts.drop_first()),
        }
    }
}

pub open spec fn spec_parse_query(b: Seq<u8>) -> Seq<(Seq<u8>, Seq<u8>)> {
    let q = find_byte(b, 63);
    if q == b.len() {
        Seq::empty()
    } else {
        spec_query_pairs_of(split_on(b.subrange(q + 1, b.len() as int), 38))
    }
}

/// Parses the query pairs out of a request URL.
pub fn parse_query_bytes(v: &[u8]) -> (r: Vec<(Vec<u8>, Vec<u8>)>)
    ensures
        r.deep_view() == spec_parse_query(v@),
{
    proof {
        lemma_find_byte(v@, 63);
        assert(v@.subrange(0, v@.len() as int) =~= v@);
    }
    let q = crate::identity::find_byte_from(v, 63, 0);
    if q == v.len() {
        let out: Vec<(Vec<u8>, Vec<u8>)> = Vec::new();
        proof {
            assert(out.deep_view() =~= spec_parse_query(v@));
        }
        return out;
    }
    let tail = copy_range(v, q + 1, v.len());
    let parts = split_bytes(tail.as_slice(), 38);
    let mut out: Vec<(Vec<u8>, Vec<u8>)> = Vec::new();
    let mut i: usize = 0;
    let n: usize = parts.len();
    proof {
        assert(parts.deep_view().skip(0) =~= parts.deep_view());
        assert(out.deep_view() + spec_query_pairs_of(parts.deep_view()) =~= spec_query_pairs_of(
            parts.deep_view(),
        ));
    }
    while i < n
        invariant
            0 <= i <= n,
            n == parts@.len(),
            spec_query_pairs_of(parts.deep_view()) =~~= out.deep_view() + spec_query_pairs_of(
                parts.deep_view().skip(i as int),
            ),
        decreases n - i,
    {
        let ghost rest = parts.deep_view().skip(i as int);
        proof {
            assert(rest[0] == parts@[i as int]@);
            assert(rest.drop_first() =~= parts.deep_view().skip(i as int + 1));
            lemma_find_byte(parts@[i as int]@, 61);
        }
        let part = &parts[i];
        let eq = crate::identity::find_byte_from(part.as_slice(), 61, 0);
        proof {
            assert(part@.subrange(0, part@.len() as int) =~= part@);
        }
        if eq < part.len() {
            let key = copy_range(part.as_slice(), 0, eq);
            let value = copy_range(part.as_slice(), eq + 1, part.len());
            out.push((key, value));
            proof {
                assert(spec_query_pair(rest[0]) == Some((key@, value@)));
                assert(spec_query_pairs_of(parts.deep_view()) =~~= out.deep_view()
                    + spec_query_pairs_of(parts.deep_view().skip(i as int + 1)));
            }
        } else {
            proof {
                assert(spec_query_pair(rest[0]) is None);
            }
        }
        i += 1;
    }
    proof {
        assert(parts.deep_view().skip(n as int) =~= Seq::<Seq<u8>>::empty());
        assert(out.deep_view() =~= spec_query_pairs_of(parts.deep_view()));
    }
    out
}

/// Parses the query parameters of a request URL into key/value strings.
pub fn parse_query(url: &str) -> (r: Vec<(String, String)>)
    ensures
        r@.len() == spec_parse_query(url.spec_bytes()).len(),
        forall|i: int|
            0 <= i < r@.len() ==> {
                let (k, v) = #[trigger] spec_parse_query(url.spec_bytes())[i];
                &&& (valid_utf8(k) ==> r@[i].0@ == decode_utf8(k))
                &&& (valid_utf8(v) ==> r@[i].1@ == decode_utf8(v))
            },
{
    let pairs = parse_query_bytes(url.as_bytes());
    let mut out: Vec<(String, String)> = Vec::new();
    let mut i: usize = 0;
    let n: usize = pairs.len();
    while i < n
        invariant
            0 <= i <= n,
            n == pairs@.len(),
            pairs.deep_view() == spec_parse_query(url.spec_bytes()),
            out@.len() == i,
            forall|j: int|
                0 <= j < i ==> {
                    let (k, v) = #[trigger] pairs.deep_view()[j];
                    &&& (valid_utf8(k) ==> out@[j].0@ == decode_utf8(k))
                    &&& (valid_utf8(v) ==> out@[j].1@ == decode_utf8(v))
                },
        decreases n - i,
    {
        let ks = bytes_to_string(&pairs[i].0);
        let vs = bytes_to_string(&pairs[i].1);
        proof {
            assert(pairs.deep_view()[i as int] == (pairs@[i as int].0@, pairs@[i as int].1@));
        }
        out.push((ks, vs));
        i += 1;
    }
    out
}

} // verus!
