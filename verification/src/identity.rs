//! The rate limiter's subject: a client identity derived from the request's
//! apparent network origin. A trusted proxy header is preferred, then the
//! first entry of a forwarded-for header, then the raw peer address — the
//! first value that parses as an IP address wins.
use crate::strutil::{all_digits, dec_value};
use vstd::prelude::*;
use vstd::string::StringSliceAdditionalSpecFns;

verus! {

/// A parsed IP address, stored numerically.
#[derive(PartialEq, Eq, Structural, Clone, Copy, Debug)]
pub enum IpAddr {
    V4(u32),
    V6(u128),
}

/// Index of the first occurrence of `c` in `b`, or `b.len()` if absent.
pub open spec fn find_byte(b: Seq<u8>, c: u8) -> int
    decreases b.len(),
{
    if b.len() == 0 {
        0
    } else if b[0] == c {
        0
    } else {
        1 + find_byte(b.drop_first(), c)
    }
}

pub proof fn lemma_find_byte(b: Seq<u8>, c: u8)
    ensures
        0 <= find_byte(b, c) <= b.len(),
        find_byte(b, c) < b.len() ==> b[find_byte(b, c)] == c,
        forall|j: int| 0 <= j < find_byte(b, c) ==> b[j] != c,
    decreases b.len(),
{
    if b.len() > 0 && b[0] != c {
        lemma_find_byte(b.drop_first(), c);
        assert forall|j: int| 0 <= j < find_byte(b, c) implies b[j] != c by {
            if j > 0 {
                assert(b.drop_first()[j - 1] == b[j]);
            }
        }
        if find_byte(b, c) < b.len() {
            assert(b.drop_first()[find_byte(b.drop_first(), c)] == b[find_byte(b, c)]);
        }
    }
}

/// The pieces of `b` between occurrences of the separator `c`, in order;
/// an empty input yields one empty piece, like `str::split`.
pub open spec fn split_on(b: Seq<u8>, c: u8) -> Seq<Seq<u8>>
    decreases b.len(),
{
    let i = find_byte(b, c);
    if 0 <= i < b.len() {
        seq![b.subrange(0, i)] + split_on(b.subrange(i + 1, b.len() as int), c)
    } else {
        seq![b]
    }
}

/// Scans `v` for `c` starting at `from`; returns the first position at or
/// after `from` holding `c`, or the length.
pub fn find_byte_from(v: &[u8], c: u8, from: usize) -> (r: usize)
    requires
        from <= v@.len(),
    ensures
        r == from + find_byte(v@.subrange(from as int, v@.len() as int), c),
{
    let n: usize = v.len();
    let mut i: usize = from;
    while i < n
        invariant
            from <= i <= n,
            n == v@.len(),
            forall|j: int| from <= j < i ==> v@[j] != c,
        decreases n - i,
    {
        if v[i] == c {
            proof {
                lemma_find_byte_position(v@.subrange(from as int, n as int), c, (i - from) as int);
            }
            return i;
        }
        i += 1;
    }
    proof {
        lemma_find_byte(v@.subrange(from as int, n as int), c);
        let sub = v@.subrange(from as int, n as int);
        if find_byte(sub, c) < sub.len() {
            assert(v@[from + find_byte(sub, c)] == c);
        }
    }
    n
}

/// If position `p` holds `c` and nothing before it does, `p` is the find.
proof fn lemma_find_byte_position(b: Seq<u8>, c: u8, p: int)
    requires
        0 <= p < b.len(),
        b[p] == c,
        forall|j: int| 0 <= j < p ==> b[j] != c,
    ensures
        find_byte(b, c) == p,
    decreases p,
{
    if p > 0 {
        lemma_find_byte_position(b.drop_first(), c, p - 1);
    }
}

/// Copies `v[from..to]` into a fresh buffer.
pub fn copy_range(v: &[u8], from: usize, to: usize) -> (r: Vec<u8>)
    requires
        from <= to <= v@.len(),
    ensures
        r@ == v@.subrange(from as int, to as int),
{
    let mut out: Vec<u8> = Vec::new();
    let mut i: usize = from;
    while i < to
        invariant
            from <= i <= to <= v@.len(),
            out@ == v@.subrange(from as int, i as int),
        decreases to - i,
    {
        out.push(v[i]);
        assert(out@ =~= v@.subrange(from as int, i as int + 1));
        i += 1;
    }
    out
}

/// Splits `v` on the separator `c`, like `str::split`.
pub fn split_bytes(v: &[u8], c: u8) -> (r: Vec<Vec<u8>>)
    ensures
        r.deep_view() == split_on(v@, c),
{
    let n: usize = v.len();
    let mut out: Vec<Vec<u8>> = Vec::new();
    let mut start: usize = 0;
    proof {
        assert(v@.subrange(0, n as int) =~= v@);
        assert(out.deep_view() + split_on(v@, c) =~~= split_on(v@, c));
    }
    loop
        invariant
            start <= n,
            n == v@.len(),
            split_on(v@, c) =~~= out.deep_view() + split_on(
                v@.subrange(start as int, n as int),
                c,
            ),
        decreases n - start,
    {
        proof {
            lemma_find_byte(v@.subrange(start as int, n as int), c);
        }
        let i = find_byte_from(v, c, start);
        let piece = copy_range(v, start, i);
        if i == n {
            out.push(piece);
            proof {
                let sub = v@.subrange(start as int, n as int);
                assert(find_byte(sub, c) == sub.len());
                assert(split_on(sub, c) =~~= seq![sub]);
                assert(out.deep_view() =~~= split_on(v@, c));
            }
            return out;
        }
        out.push(piece);
        proof {
            let sub = v@.subrange(start as int, n as int);
            let k = find_byte(sub, c);
            assert(sub.subrange(0, k) =~= v@.subrange(start as int, i as int));
            assert(sub.subrange(k + 1, sub.len() as int) =~= v@.subrange(i + 1, n as int));
            assert(split_on(sub, c) == seq![sub.subrange(0, k)] + split_on(
                sub.subrange(k + 1, sub.len() as int),
                c,
            ));
            assert(split_on(v@, c) =~~= out.deep_view() + split_on(
                v@.subrange(i + 1, n as int),
                c,
            ));
        }
        start = i + 1;
    }
}

/// A dotted-decimal octet: one to three digits, no leading zero, at most 255.
pub open spec fn is_octet(b: Seq<u8>) -> bool {
    &&& 1 <= b.len() <= 3
    &&& all_digits(b)
    &&& dec_value(b) <= 255
    &&& (b.len() > 1 ==> b[0] != 48)
}

/// Dotted-decimal IPv4: exactly four octets joined by dots.
pub open spec fn spec_parse_ipv4(b: Seq<u8>) -> Option<u32> {
    let parts = split_on(b, 46);
    if parts.len() == 4 && is_octet(parts[0]) && is_octet(parts[1]) && is_octet(parts[2])
        && is_octet(parts[3]) {
        Some(
            (dec_value(parts[0]) * 0x1000000 + dec_value(parts[1]) * 0x10000 + dec_value(parts[2])
                * 0x100 + dec_value(parts[3])) as u32,
        )
    } else {
        None
    }
}

/// Checks one octet and returns its value.
fn parse_octet(b: &Vec<u8>) -> (r: Option<u8>)
    ensures
        match r {
            Some(n) => is_octet(b@) && n == dec_value(b@),
            None => !is_octet(b@),
        },
{
    if b.len() < 1 || b.len() > 3 {
        return None;
    }
    if b.len() > 1 && b[0] == 48 {
        return None;
    }
    match crate::strutil::parse_u64_dec(b.as_slice()) {
        Some(n) => if n <= 255 {
            Some(n as u8)
        } else {
            None
        },
        None => None,
    }
}

/// Parses a dotted-decimal IPv4 address.
pub fn parse_ipv4(v: &[u8]) -> (r: Option<u32>)
    ensures
        r == spec_parse_ipv4(v@),
{
    let parts = split_bytes(v, 46);
    proof {
        assert(parts.deep_view().len() == parts@.len());
    }
    if parts.len() != 4 {
        return None;
    }
    proof {
        assert(parts[0]@ == parts.deep_view()[0]);
        assert(parts[1]@ == parts.deep_view()[1]);
        assert(parts[2]@ == parts.deep_view()[2]);
        assert(parts[3]@ == parts.deep_view()[3]);
    }
    let a = parse_octet(&parts[0]);
    let b = parse_octet(&parts[1]);
    let c = parse_octet(&parts[2]);
    let d = parse_octet(&parts[3]);
    match (a, b, c, d) {
        (Some(a), Some(b), Some(c), Some(d)) => Some(
            (a as u32) * 0x1000000 + (b as u32) * 0x10000 + (c as u32) * 0x100 + (d as u32),
        ),
        _ => None,
    }
}

/// A hexadecimal group's value fits in sixteen bits.
proof fn lemma_h16_bound(p: Seq<u8>)
    requires
        is_h16(p),
    ensures
        0 <= h16_val(p) < 65536,
{
    lemma_h16_bound_rec(p);
}

proof fn lemma_h16_bound_rec(p: Seq<u8>)
    requires
        p.len() <= 4,
        forall|i: int| 0 <= i < p.len() ==> crate::form::is_hex_digit(p[i]),
    ensures
        0 <= h16_val(p),
        h16_val(p) < pow16(p.len() as int),
    decreases p.len(),
{
    if p.len() > 0 {
        lemma_h16_bound_rec(p.drop_last());
    }
}

/// Sixteen to the given small power.
pub open spec fn pow16(n: int) -> int {
    if n <= 0 {
        1
    } else if n == 1 {
        16
    } else if n == 2 {
        256
    } else if n == 3 {
        4096
    } else {
        65536
    }
}

/// Checks one hexadecimal group and returns its value.
fn parse_h16(p: &[u8]) -> (r: Option<u16>)
    ensures
        match r {
            Some(n) => is_h16(p@) && n == h16_val(p@),
            None => !is_h16(p@),
        },
{
    if p.len() < 1 || p.len() > 4 {
        return None;
    }
    let n: usize = p.len();
    let mut acc: u32 = 0;
    let mut i: usize = 0;
    while i < n
        invariant
            0 <= i <= n,
            n == p@.len() <= 4,
            forall|j: int| 0 <= j < i ==> crate::form::is_hex_digit(p@[j]),
            acc == h16_val(p@.subrange(0, i as int)),
            acc < 65536,
        decreases n - i,
    {
        let b = p[i];
        let d: u32 = if 48 <= b && b <= 57 {
            (b - 48) as u32
        } else if 97 <= b && b <= 102 {
            (b - 87) as u32
        } else if 65 <= b && b <= 70 {
            (b - 55) as u32
        } else {
            return None;
        };
        proof {
            assert(p@.subrange(0, i as int + 1).drop_last() =~= p@.subrange(0, i as int));
            lemma_h16_bound_rec(p@.subrange(0, i as int));
            if i < 3 {
                assert(pow16(i as int) <= 4096);
            }
            lemma_h16_bound_rec(p@.subrange(0, i as int + 1));
        }
        acc = acc * 16 + d;
        i += 1;
    }
    proof {
        assert(p@.subrange(0, n as int) =~= p@);
        lemma_h16_bound(p@);
    }
    Some(acc as u16)
}

/// Scans for the first `::`.
fn find_dcolon_at(v: &[u8]) -> (r: usize)
    ensures
        r == find_dcolon(v@),
{
    let n: usize = v.len();
    let mut i: usize = 0;
    proof {
        assert(v@.skip(0) =~= v@);
    }
    while n >= 2 && i < n - 1
        invariant
            0 <= i,
            n >= 2 ==> i <= n - 1,
            n < 2 ==> i == 0,
            n == v@.len(),
            find_dcolon(v@) == i + find_dcolon(v@.skip(i as int)),
            forall|j: int| 0 <= j < i ==> !(#[trigger] v@[j] == 58 && v@[j + 1] == 58),
        decreases n - i,
    {
        proof {
            let rest = v@.skip(i as int);
            assert(rest[0] == v@[i as int]);
            assert(rest[1] == v@[i as int + 1]);
            assert(rest.drop_first() =~= v@.skip(i as int + 1));
        }
        if v[i] == 58 && v[i + 1] == 58 {
            return i;
        }
        i += 1;
    }
    proof {
        lemma_find_dcolon_short(v@.skip(i as int));
        if n < 2 {
            assert(v@.skip(0) =~= v@);
        }
    }
    n
}

/// A string shorter than two bytes holds no `::`.
proof fn lemma_find_dcolon_short(b: Seq<u8>)
    requires
        b.len() < 2,
    ensures
        find_dcolon(b) == b.len(),
{
}

/// The first `::` lies within the text or at its very end.
proof fn lemma_find_dcolon_range(b: Seq<u8>)
    ensures
        0 <= find_dcolon(b) <= b.len(),
        find_dcolon(b) < b.len() ==> find_dcolon(b) + 1 < b.len(),
    decreases b.len(),
{
    if b.len() >= 2 && !(b[0] == 58 && b[1] == 58) {
        lemma_find_dcolon_range(b.drop_first());
    }
}

/// Combines eight groups into the numeric address.
fn combine_groups(gs: &Vec<u16>) -> (r: u128)
    requires
        gs@.len() == 8,
    ensures
        r == groups_to_int(gs@.map_values(|g: u16| g as int)),
{
    let r = (gs[0] as u128) * 0x10000000000000000000000000000 + (gs[1] as u128)
        * 0x1000000000000000000000000 + (gs[2] as u128) * 0x100000000000000000000 + (gs[3] as u128)
        * 0x10000000000000000 + (gs[4] as u128) * 0x1000000000000 + (gs[5] as u128) * 0x100000000
        + ((gs[6] as u128) * 0x10000) + (gs[7] as u128);
    proof {
        let m = gs@.map_values(|g: u16| g as int);
        assert(m[0] == gs@[0] as int && m[1] == gs@[1] as int && m[2] == gs@[2] as int && m[3]
            == gs@[3] as int && m[4] == gs@[4] as int && m[5] == gs@[5] as int && m[6] == gs@[6]
            as int && m[7] == gs@[7] as int);
    }
    r
}

/// Appends the groups the piece list before or after a `::` stands for;
/// `allow_v4` admits a dotted-quad as the final piece.
fn push_piece_groups(pieces: &Vec<Vec<u8>>, allow_v4: bool, gs: &mut Vec<u16>) -> (r: bool)
    ensures
        ({
            let ps = pieces.deep_view();
            if allow_v4 {
                match spec_tail_groups(ps) {
                    Some(t) => r && final(gs)@.map_values(|g: u16| g as int) == old(gs)@.map_values(
                        |g: u16| g as int,
                    ) + t,
                    None => !r && ps.len() > 0,
                }
            } else {
                if all_h16(ps) {
                    r && final(gs)@.map_values(|g: u16| g as int) == old(gs)@.map_values(
                        |g: u16| g as int,
                    ) + h16_vals(ps)
                } else {
                    !r
                }
            }
        }),
{
    let n: usize = pieces.len();
    let mut i: usize = 0;
    let ghost ps = pieces.deep_view();
    while i < n
        invariant
            0 <= i <= n,
            n == pieces@.len(),
            ps == pieces.deep_view(),
            all_h16(ps.subrange(0, i as int)),
            gs@.map_values(|g: u16| g as int) == old(gs)@.map_values(|g: u16| g as int)
                + h16_vals(ps.subrange(0, i as int)),
        decreases n - i,
    {
        proof {
            assert(ps[i as int] == pieces@[i as int]@);
        }
        match parse_h16(pieces[i].as_slice()) {
            Some(g) => {
                let ghost before = gs@;
                gs.push(g);
                proof {
                    assert(gs@ =~= before.push(g));
                    assert(gs@.map_values(|g: u16| g as int) =~= before.map_values(
                        |g: u16| g as int,
                    ).push(g as int));
                    assert(h16_vals(ps.subrange(0, i as int + 1)) =~= h16_vals(
                        ps.subrange(0, i as int),
                    ).push(h16_val(ps[i as int])));
                    assert(gs@.map_values(|g: u16| g as int) =~= old(gs)@.map_values(
                        |g: u16| g as int,
                    ) + h16_vals(ps.subrange(0, i as int + 1)));
                }
            },
            None => {
                if allow_v4 && i + 1 == n {
                    match parse_ipv4(pieces[i].as_slice()) {
                        Some(v4) => {
                            proof {
                                assert((v4 >> 16) < 65536 && (v4 & 0xFFFF) < 65536 && (v4 >> 16)
                                    == v4 / 65536 && (v4 & 0xFFFF) == v4 % 65536) by (bit_vector);
                            }
                            let ghost before = gs@;
                            let hi: u16 = (v4 >> 16) as u16;
                            let lo: u16 = (v4 & 0xFFFF) as u16;
                            gs.push(hi);
                            gs.push(lo);
                            proof {
                                assert(ps.drop_last() =~= ps.subrange(0, i as int));
                                assert(!is_h16(ps.last()));
                                assert(!all_h16(ps));
                                assert(spec_tail_groups(ps) == Some(
                                    h16_vals(ps.drop_last()) + v4_groups(v4),
                                ));
                                assert(gs@ =~= before.push(hi).push(lo));
                                assert(gs@.map_values(|g: u16| g as int) =~= before.map_values(
                                    |g: u16| g as int,
                                ).push(hi as int).push(lo as int));
                                assert(gs@.map_values(|g: u16| g as int) =~= old(gs)@.map_values(
                                    |g: u16| g as int,
                                ) + h16_vals(ps.drop_last()) + v4_groups(v4));
                            }
                            return true;
                        },
                        None => {
                            proof {
                                assert(ps.drop_last() =~= ps.subrange(0, i as int));
                                assert(!all_h16(ps));
                                assert(spec_tail_groups(ps) is None);
                            }
                            return false;
                        },
                    }
                } else {
                    proof {
                        assert(!is_h16(ps[i as int]));
                        assert(!all_h16(ps));
                        if allow_v4 {
                            if i + 1 < n {
                                assert(ps.drop_last()[i as int] == ps[i as int]);
                                assert(!all_h16(ps.drop_last()));
                                assert(spec_tail_groups(ps) is None);
                            } else {
                                assert(spec_tail_groups(ps) is None);
                            }
                        }
                    }
                    return false;
                }
            },
        }
        i += 1;
    }
    proof {
        assert(ps.subrange(0, n as int) =~= ps);
        if allow_v4 && ps.len() > 0 {
            assert(spec_tail_groups(ps) == Some(h16_vals(ps)));
        }
        if allow_v4 && ps.len() == 0 {
            assert(spec_tail_groups(ps) == Some(Seq::<int>::empty()));
            assert(h16_vals(ps) =~= Seq::<int>::empty());
        }
    }
    true
}

/// Parses a colon-grouped hexadecimal IPv6 address.
pub fn parse_ipv6(v: &[u8]) -> (r: Option<u128>)
    ensures
        r == spec_parse_ipv6(v@),
{
    proof {
        lemma_find_dcolon_range(v@);
    }
    let dc = find_dcolon_at(v);
    let mut gs: Vec<u16> = Vec::new();
    if dc == v.len() {
        let pieces = split_bytes(v, 58);
        let ghost ps = pieces.deep_view();
        if pieces.len() == 8 {
            if push_piece_groups(&pieces, false, &mut gs) {
                proof {
                    assert(spec_ipv6_groups(v@) == Some(h16_vals(ps)));
                    assert(gs@.map_values(|g: u16| g as int) =~= h16_vals(ps));
                }
                return Some(combine_groups(&gs));
            }
            return None;
        }
        if pieces.len() == 7 {
            if push_piece_groups(&pieces, true, &mut gs) {
                if gs.len() == 8 {
                    proof {
                        assert(gs@.map_values(|g: u16| g as int).len() == 8);
                        assert(h16_vals(ps).len() == 7);
                        assert(!(all_h16(ps) && spec_tail_groups(ps) == Some(h16_vals(ps))));
                        assert(spec_ipv6_groups(v@) == Some(
                            h16_vals(ps.drop_last()) + v4_groups(
                                spec_parse_ipv4(ps.last()).unwrap(),
                            ),
                        ));
                    }
                    return Some(combine_groups(&gs));
                }
                proof {
                    assert(gs@.map_values(|g: u16| g as int).len() != 8);
                    assert(all_h16(ps));
                    lemma_h16_not_ipv4(ps.last());
                    assert(spec_ipv6_groups(v@) is None);
                }
                return None;
            }
            return None;
        }
        return None;
    }
    let head = copy_range(v, 0, dc);
    let tail = copy_range(v, dc + 2, v.len());
    let head_pieces = if head.len() == 0 {
        Vec::new()
    } else {
        split_bytes(head.as_slice(), 58)
    };
    let ghost hp = head_pieces.deep_view();
    proof {
        if head@.len() == 0 {
            assert(hp =~= Seq::<Seq<u8>>::empty());
        }
    }
    if !push_piece_groups(&head_pieces, false, &mut gs) {
        return None;
    }
    let head_count = gs.len();
    let mut tgs: Vec<u16> = Vec::new();
    let tail_ok = if tail.len() == 0 {
        proof {
            assert(spec_tail_groups(Seq::<Seq<u8>>::empty()) == Some(Seq::<int>::empty()));
        }
        true
    } else {
        let tail_pieces = split_bytes(tail.as_slice(), 58);
        push_piece_groups(&tail_pieces, true, &mut tgs)
    };
    if !tail_ok {
        return None;
    }
    if head_count > 7 || tgs.len() > 7 || head_count + tgs.len() > 7 {
        return None;
    }
    let zeros = 8 - head_count - tgs.len();
    let mut k: usize = 0;
    while k < zeros
        invariant
            0 <= k <= zeros,
            zeros == 8 - head_count - tgs@.len(),
            head_count + tgs@.len() <= 7,
            gs@.len() == head_count + k,
            gs@.subrange(0, head_count as int).map_values(|g: u16| g as int) == h16_vals(hp),
            forall|j: int| head_count <= j < gs@.len() ==> gs@[j] == 0,
        decreases zeros - k,
    {
        gs.push(0);
        k += 1;
    }
    let mut t: usize = 0;
    while t < tgs.len()
        invariant
            0 <= t <= tgs@.len(),
            gs@.len() == head_count + zeros + t,
            zeros == 8 - head_count - tgs@.len(),
            gs@.subrange(0, head_count as int).map_values(|g: u16| g as int) == h16_vals(hp),
            forall|j: int| head_count <= j < head_count + zeros ==> gs@[j] == 0,
            forall|j: int|
                0 <= j < t ==> gs@[head_count + zeros + j] == tgs@[j],
        decreases tgs@.len() - t,
    {
        gs.push(tgs[t]);
        t += 1;
    }
    proof {
        let tail_bytes = v@.subrange(dc as int + 2, v@.len() as int);
        let tg = if tail_bytes.len() == 0 {
            Some(Seq::<int>::empty())
        } else {
            spec_tail_groups(split_on(tail_bytes, 58))
        };
        assert(head@ == v@.subrange(0, dc as int));
        assert(tg == Some(tgs@.map_values(|g: u16| g as int)));
        assert(spec_ipv6_groups(v@) == Some(
            h16_vals(hp) + Seq::new((zeros) as nat, |j: int| 0int) + tgs@.map_values(
                |g: u16| g as int,
            ),
        ));
        assert(gs@.map_values(|g: u16| g as int) =~= h16_vals(hp) + Seq::new(
            (zeros) as nat,
            |j: int| 0int,
        ) + tgs@.map_values(|g: u16| g as int));
        assert(gs@.len() == 8);
    }
    Some(combine_groups(&gs))
}

/// A hexadecimal group holds no dot, so it is no dotted-decimal address.
proof fn lemma_h16_not_ipv4(p: Seq<u8>)
    requires
        is_h16(p),
    ensures
        spec_parse_ipv4(p) is None,
{
    lemma_find_byte(p, 46);
    if find_byte(p, 46) < p.len() {
        assert(crate::form::is_hex_digit(p[find_byte(p, 46)]));
    }
    assert(find_byte(p, 46) == p.len());
    assert(split_on(p, 46) == seq![p]);
}

pub open spec fn is_space(b: u8) -> bool {
    b == 32 || b == 9 || b == 13 || b == 10
}

pub open spec fn trim_start_spec(b: Seq<u8>) -> Seq<u8>
    decreases b.len(),
{
    if b.len() > 0 && is_space(b[0]) {
        trim_start_spec(b.drop_first())
    } else {
        b
    }
}

pub open spec fn trim_end_spec(b: Seq<u8>) -> Seq<u8>
    decreases b.len(),
{
    if b.len() > 0 && is_space(b.last()) {
        trim_end_spec(b.drop_last())
    } else {
        b
    }
}

/// `b` without leading and trailing ASCII whitespace.
pub open spec fn trim_spec(b: Seq<u8>) -> Seq<u8> {
    trim_end_spec(trim_start_spec(b))
}

proof fn lemma_trim_start_at(b: Seq<u8>, i: int)
    requires
        0 <= i <= b.len(),
        forall|j: int| 0 <= j < i ==> is_space(b[j]),
        i < b.len() ==> !is_space(b[i]),
    ensures
        trim_start_spec(b) == b.subrange(i, b.len() as int),
    decreases i,
{
    if i == 0 {
        if b.len() > 0 {
            assert(!is_space(b[0]));
        }
        assert(b.subrange(0, b.len() as int) =~= b);
    } else {
        lemma_trim_start_at(b.drop_first(), i - 1);
        assert(b.drop_first().subrange(i - 1, b.drop_first().len() as int) =~= b.subrange(
            i,
            b.len() as int,
        ));
    }
}

proof fn lemma_trim_end_at(b: Seq<u8>, i: int)
    requires
        0 <= i <= b.len(),
        forall|j: int| i <= j < b.len() ==> is_space(b[j]),
        i > 0 ==> !is_space(b[i - 1]),
    ensures
        trim_end_spec(b) == b.subrange(0, i),
    decreases b.len() - i,
{
    if i == b.len() {
        if b.len() > 0 {
            assert(!is_space(b.last()));
        }
        assert(b.subrange(0, b.len() as int) =~= b);
    } else {
        assert(is_space(b.last()));
        lemma_trim_end_at(b.drop_last(), i);
        assert(b.drop_last().subrange(0, i) =~= b.subrange(0, i));
    }
}

fn is_space_byte(b: u8) -> (r: bool)
    ensures
        r == is_space(b),
{
    b == 32 || b == 9 || b == 13 || b == 10
}

/// Strips leading and trailing ASCII whitespace.
pub fn trim_bytes(v: &[u8]) -> (r: Vec<u8>)
    ensures
        r@ == trim_spec(v@),
{
    let n: usize = v.len();
    let mut lo: usize = 0;
    while lo < n && is_space_byte(v[lo])
        invariant
            0 <= lo <= n,
            n == v@.len(),
            forall|j: int| 0 <= j < lo ==> is_space(v@[j]),
        decreases n - lo,
    {
        lo += 1;
    }
    proof {
        lemma_trim_start_at(v@, lo as int);
    }
    let mut hi: usize = n;
    while hi > lo && is_space_byte(v[hi - 1])
        invariant
            lo <= hi <= n,
            n == v@.len(),
            forall|j: int| hi <= j < n ==> is_space(v@[j]),
        decreases hi,
    {
        hi -= 1;
    }
    proof {
        let s = trim_start_spec(v@);
        assert(s == v@.subrange(lo as int, n as int));
        lemma_trim_end_at(s, hi - lo);
        assert(s.subrange(0, hi - lo) =~= v@.subrange(lo as int, hi as int));
    }
    copy_range(v, lo, hi)
}

/// A hexadecimal group of an IPv6 address: one to four hex digits.
pub open spec fn is_h16(p: Seq<u8>) -> bool {
    1 <= p.len() <= 4 && forall|i: int| 0 <= i < p.len() ==> crate::form::is_hex_digit(p[i])
}

/// The value of a hexadecimal group, most significant digit first.
pub open spec fn h16_val(p: Seq<u8>) -> int
    decreases p.len(),
{
    if p.len() == 0 {
        0
    } else {
        h16_val(p.drop_last()) * 16 + crate::form::hex_digit_val(p.last())
    }
}

pub open spec fn h16_vals(ps: Seq<Seq<u8>>) -> Seq<int> {
    ps.map_values(|p: Seq<u8>| h16_val(p))
}

pub open spec fn all_h16(ps: Seq<Seq<u8>>) -> bool {
    forall|i: int| 0 <= i < ps.len() ==> is_h16(#[trigger] ps[i])
}

/// The two 16-bit groups an embedded dotted-quad tail stands for.
pub open spec fn v4_groups(n: u32) -> Seq<int> {
    seq![n as int / 65536, n as int % 65536]
}

/// Index of the first `::` in `b`, or `b.len()` if there is none.
pub open spec fn find_dcolon(b: Seq<u8>) -> int
    decreases b.len(),
{
    if b.len() < 2 {
        b.len() as int
    } else if b[0] == 58 && b[1] == 58 {
        0
    } else {
        1 + find_dcolon(b.drop_first())
    }
}

/// The groups the piece list after a `::` stands for: hexadecimal groups,
/// with a dotted-quad allowed as the final piece.
pub open spec fn spec_tail_groups(tp: Seq<Seq<u8>>) -> Option<Seq<int>> {
    if tp.len() == 0 {
        Some(Seq::empty())
    } else if all_h16(tp) {
        Some(h16_vals(tp))
    } else if all_h16(tp.drop_last()) && spec_parse_ipv4(tp.last()) is Some {
        Some(h16_vals(tp.drop_last()) + v4_groups(spec_parse_ipv4(tp.last()).unwrap()))
    } else {
        None
    }
}

/// The eight 16-bit groups of an IPv6 address in text: colon-separated
/// hexadecimal groups, at most one `::` eliding one or more zero groups,
/// and optionally a dotted-quad standing for the last two groups.
pub open spec fn spec_ipv6_groups(b: Seq<u8>) -> Option<Seq<int>> {
    let i = find_dcolon(b);
    if i == b.len() {
        let ps = split_on(b, 58);
        if ps.len() == 8 && all_h16(ps) {
            Some(h16_vals(ps))
        } else if ps.len() == 7 && all_h16(ps.drop_last()) && spec_parse_ipv4(ps.last()) is Some {
            Some(h16_vals(ps.drop_last()) + v4_groups(spec_parse_ipv4(ps.last()).unwrap()))
        } else {
            None
        }
    } else {
        let head = b.subrange(0, i);
        let tail = b.subrange(i + 2, b.len() as int);
        let hp = if head.len() == 0 {
            Seq::empty()
        } else {
            split_on(head, 58)
        };
        let tg = if tail.len() == 0 {
            Some(Seq::<int>::empty())
        } else {
            spec_tail_groups(split_on(tail, 58))
        };
        if all_h16(hp) && tg is Some && hp.len() + tg.unwrap().len() <= 7 {
            Some(
                h16_vals(hp) + Seq::new((8 - hp.len() - tg.unwrap().len()) as nat, |j: int| 0int)
                    + tg.unwrap(),
            )
        } else {
            None
        }
    }
}

/// The address eight groups spell, first group most significant.
pub open spec fn groups_to_int(g: Seq<int>) -> int {
    g[0] * 0x10000000000000000000000000000 + g[1] * 0x1000000000000000000000000 + g[2]
        * 0x100000000000000000000 + g[3] * 0x10000000000000000 + g[4] * 0x1000000000000 + g[5]
        * 0x100000000 + g[6] * 0x10000 + g[7]
}

/// Colon-grouped hexadecimal IPv6, as the address parser accepts it.
pub open spec fn spec_parse_ipv6(b: Seq<u8>) -> Option<u128> {
    match spec_ipv6_groups(b) {
        Some(g) => Some(groups_to_int(g) as u128),
        None => None,
    }
}

/// Parses an IP address: dotted-decimal IPv4, else colon-grouped IPv6.
pub open spec fn spec_parse_ip(b: Seq<u8>) -> Option<IpAddr> {
    match spec_parse_ipv4(b) {
        Some(n) => Some(IpAddr::V4(n)),
        None => match spec_parse_ipv6(b) {
            Some(n) => Some(IpAddr::V6(n)),
            None => None,
        },
    }
}

pub fn parse_ip(v: &[u8]) -> (r: Option<IpAddr>)
    ensures
        r == spec_parse_ip(v@),
{
    match parse_ipv4(v) {
        Some(n) => Some(IpAddr::V4(n)),
        None => match parse_ipv6(v) {
            Some(n) => Some(IpAddr::V6(n)),
            None => None,
        },
    }
}

/// The first comma-separated entry of a forwarded-for header value, with
/// surrounding whitespace removed.
pub open spec fn first_forwarded_entry(b: Seq<u8>) -> Seq<u8> {
    trim_spec(b.subrange(0, find_byte(b, 44)))
}

/// The identity the limiter keys on: a trusted proxy header wins, then the
/// first forwarded-for entry, then the raw peer address; a candidate is
/// taken only if it parses.
pub open spec fn spec_derive_from_forwarded(
    forwarded_for: Option<Seq<u8>>,
    peer: Option<IpAddr>,
) -> Option<IpAddr> {
    match forwarded_for {
        Some(f) => if spec_parse_ip(first_forwarded_entry(f)) is Some {
            spec_parse_ip(first_forwarded_entry(f))
        } else {
            peer
        },
        None => peer,
    }
}

pub open spec fn spec_derive_identity(
    proxy: Option<Seq<u8>>,
    forwarded_for: Option<Seq<u8>>,
    peer: Option<IpAddr>,
) -> Option<IpAddr> {
    match proxy {
        Some(p) => if spec_parse_ip(p) is Some {
            spec_parse_ip(p)
        } else {
            spec_derive_from_forwarded(forwarded_for, peer)
        },
        None => spec_derive_from_forwarded(forwarded_for, peer),
    }
}

pub open spec fn opt_bytes(s: Option<&str>) -> Option<Seq<u8>> {
    match s {
        Some(p) => Some(p.spec_bytes()),
        None => None,
    }
}

/// Derives the client identity from the header values and peer address the
/// request arrived with.
pub fn derive_identity(proxy: Option<&str>, forwarded_for: Option<&str>, peer: Option<IpAddr>) -> (r:
    Option<IpAddr>)
    ensures
        r == spec_derive_identity(opt_bytes(proxy), opt_bytes(forwarded_for), peer),
{
    if let Some(p) = proxy {
        if let Some(ip) = parse_ip(p.as_bytes()) {
            return Some(ip);
        }
    }
    if let Some(f) = forwarded_for {
        let fb = f.as_bytes();
        proof {
            lemma_find_byte(fb@, 44);
        }
        let comma = find_byte_from(fb, 44, 0);
        proof {
            assert(fb@.subrange(0, fb@.len() as int) =~= fb@);
        }
        let head = copy_range(fb, 0, comma);
        let entry = trim_bytes(head.as_slice());
        if let Some(ip) = parse_ip(entry.as_slice()) {
            return Some(ip);
        }
    }
    peer
}

} // verus!
