//! IPv6 addresses and their colon-hexadecimal text.
use vstd::prelude::*;

use crate::ip_address::AddrParseError;
use crate::ipv4::{
    ipv4_text, lemma_ipv4_text_roundtrip, lemma_join_len, parse_ipv4_at, push_ipv4_text,
    spec_parse_ipv4, Ipv4Addr,
};
use crate::text::{
    all_radix_digits, chars_of, digits_value, digits_value_at, join, lacks,
    lemma_join_lacks, lemma_join_push, lemma_numeral, lemma_numeral_len, lemma_split_join,
    lemma_split_len, lemma_lower_digits, lemma_lower_text_slices, lower_text, numeral, pow_nat,
    push_char, push_numeral, split, split_ranges,
};

verus! {

/// An IPv6 address, held as its eight 16-bit segments in network order.
#[derive(Clone, Copy, Debug, PartialEq, Eq, Hash)]
pub struct Ipv6Addr {
    pub segments: [u16; 8],
}

impl View for Ipv6Addr {
    type V = Seq<u16>;

    open spec fn view(&self) -> Seq<u16> {
        self.segments@
    }
}

// ---------------------------------------------------------------------------
// Reading
// ---------------------------------------------------------------------------

/// One group of colon-hexadecimal text: one to four hex digits of either case.
pub open spec fn spec_hex_group(s: Seq<char>) -> Option<u16> {
    if 1 <= s.len() <= 4 && all_radix_digits(s, 16) {
        Some(digits_value(s, 16) as u16)
    } else {
        None
    }
}

/// The values of fields that are all hex groups.
pub open spec fn hex_fields(parts: Seq<Seq<char>>) -> Option<Seq<u16>> {
    if forall|j: int| 0 <= j < parts.len() ==> (#[trigger] spec_hex_group(parts[j])) is Some {
        Some(Seq::new(parts.len(), |j: int| spec_hex_group(parts[j])->0))
    } else {
        None
    }
}

/// The two segments that an embedded IPv4 address fills.
pub open spec fn ipv4_segments(o: Seq<u8>) -> Seq<u16> {
    seq![(o[0] as int * 256 + o[1] as int) as u16, (o[2] as int * 256 + o[3] as int) as u16]
}

/// Colon-separated hex groups; the empty text has none.
pub open spec fn spec_hex_groups(s: Seq<char>) -> Option<Seq<u16>> {
    if s.len() == 0 {
        Some(Seq::<u16>::empty())
    } else {
        hex_fields(split(s, ':'))
    }
}

/// Colon-separated hex groups, the last of which may instead be an embedded
/// IPv4 address filling two segments; the empty text has none.
pub open spec fn spec_groups_tail(s: Seq<char>) -> Option<Seq<u16>> {
    if s.len() == 0 {
        Some(Seq::<u16>::empty())
    } else {
        let parts = split(s, ':');
        match hex_fields(parts.drop_last()) {
            None => None,
            Some(front) => match spec_hex_group(parts.last()) {
                Some(g) => Some(front.push(g)),
                None => match spec_parse_ipv4(parts.last()) {
                    Some(o) => Some(front + ipv4_segments(o)),
                    None => None,
                },
            },
        }
    }
}

/// The first position, at or after `i`, where `::` starts.
pub open spec fn double_colon_from(s: Seq<char>, i: int) -> Option<int>
    decreases s.len() - i,
{
    if i < 0 || i + 1 >= s.len() {
        None
    } else if s[i] == ':' && s[i + 1] == ':' {
        Some(i)
    } else {
        double_colon_from(s, i + 1)
    }
}

/// The position of the first `::` in `s`.
pub open spec fn first_double_colon(s: Seq<char>) -> Option<int> {
    double_colon_from(s, 0)
}

/// `n` zero segments.
pub open spec fn zero_segments(n: int) -> Seq<u16> {
    Seq::new(n as nat, |i: int| 0u16)
}

/// Colon-hexadecimal text, as std's `Ipv6Addr::from_str` reads it: either
/// eight groups, or groups before and after the first `::`, which stands for
/// at least one zero segment; only the last group may be an embedded IPv4
/// address, and only after the `::` if there is one.
pub open spec fn spec_parse_ipv6(s: Seq<char>) -> Option<Seq<u16>> {
    match first_double_colon(s) {
        Some(k) => match (spec_hex_groups(s.take(k)), spec_groups_tail(s.skip(k + 2))) {
            (Some(h), Some(t)) => if h.len() + t.len() <= 7 {
                Some(h + zero_segments(8 - h.len() - t.len()) + t)
            } else {
                None
            },
            _ => None,
        },
        None => match spec_groups_tail(s) {
            Some(t) => if t.len() == 8 {
                Some(t)
            } else {
                None
            },
            None => None,
        },
    }
}

// ---------------------------------------------------------------------------
// Writing
// ---------------------------------------------------------------------------

/// Lower-case hexadecimal numerals of the segments.
pub open spec fn hex_numerals(g: Seq<u16>) -> Seq<Seq<char>> {
    Seq::new(g.len(), |j: int| numeral(g[j] as nat, 16))
}

/// The segments as colon-separated hex numerals.
pub open spec fn groups_text(g: Seq<u16>) -> Seq<char> {
    join(hex_numerals(g), ':')
}

/// The address is `::ffff:a.b.c.d`.
pub open spec fn is_ipv4_mapped(g: Seq<u16>) -> bool {
    &&& g.len() == 8
    &&& g[0] == 0 && g[1] == 0 && g[2] == 0 && g[3] == 0 && g[4] == 0
    &&& g[5] == 0xffff
}

/// The octets of the last two segments.
pub open spec fn tail_octets(g: Seq<u16>) -> Seq<u8> {
    seq![(g[6] / 256) as u8, (g[6] % 256) as u8, (g[7] / 256) as u8, (g[7] % 256) as u8]
}

/// Scanning the segments left to right, the first longest run of zero
/// segments so far and the run of zeros that ends here, as
/// `(best_start, best_len, cur_start, cur_len)`.
pub open spec fn zero_run_scan(g: Seq<u16>) -> (int, int, int, int)
    decreases g.len(),
{
    if g.len() == 0 {
        (0, 0, 0, 0)
    } else {
        let (bs, bl, cs, cl) = zero_run_scan(g.drop_last());
        let i = g.len() - 1;
        if g.last() == 0 {
            let ncs = if cl == 0 {
                i
            } else {
                cs
            };
            let ncl = cl + 1;
            if ncl > bl {
                (ncs, ncl, ncs, ncl)
            } else {
                (bs, bl, ncs, ncl)
            }
        } else {
            (bs, bl, 0, 0)
        }
    }
}

/// The text `::`.
pub open spec fn double_colon() -> Seq<char> {
    seq![':', ':']
}

/// The text `::ffff:` that starts an IPv4-mapped address.
pub open spec fn mapped_prefix() -> Seq<char> {
    seq![':', ':', 'f', 'f', 'f', 'f', ':']
}

/// Colon-hexadecimal text as std's `Display` writes it: IPv4-mapped addresses
/// as `::ffff:a.b.c.d`; otherwise lower-case groups without leading zeros,
/// with the first longest run of two or more zero segments written as `::`.
pub open spec fn ipv6_text(g: Seq<u16>) -> Seq<char> {
    if is_ipv4_mapped(g) {
        mapped_prefix() + ipv4_text(tail_octets(g))
    } else {
        let (bs, bl, cs, cl) = zero_run_scan(g);
        if bl > 1 {
            groups_text(g.take(bs)) + double_colon() + groups_text(g.skip(bs + bl))
        } else {
            groups_text(g)
        }
    }
}

// ---------------------------------------------------------------------------
// Lemmas
// ---------------------------------------------------------------------------

/// `s` contains no `::`.
pub open spec fn no_double_colon(s: Seq<char>) -> bool {
    forall|i: int| 0 <= i < s.len() - 1 ==> !(#[trigger] s[i] == ':' && s[i + 1] == ':')
}

/// The scan's runs are runs of zeros within the segments.
pub proof fn lemma_zero_run_scan(g: Seq<u16>)
    ensures
        ({
            let (bs, bl, cs, cl) = zero_run_scan(g);
            &&& 0 <= bs && 0 <= bl && bs + bl <= g.len()
            &&& forall|i: int| bs <= i < bs + bl ==> g[i] == 0
            &&& 0 <= cl && 0 <= cs
            &&& cl > 0 ==> cs + cl == g.len()
            &&& forall|i: int| cs <= i < cs + cl ==> g[i] == 0
            &&& cl <= bl
        }),
    decreases g.len(),
{
    if g.len() > 0 {
        let p = g.drop_last();
        lemma_zero_run_scan(p);
        assert forall|i: int| 0 <= i < p.len() implies p[i] == g[i] by {}
    }
}

/// The first longest run: no run of zeros is longer than the chosen one, and
/// every run of the same length starts no earlier.
pub proof fn lemma_zero_run_scan_longest(g: Seq<u16>, s: int, l: int)
    requires
        0 <= s,
        1 <= l,
        s + l <= g.len(),
        forall|i: int| s <= i < s + l ==> g[i] == 0,
    ensures
        l <= zero_run_scan(g).1,
        l == zero_run_scan(g).1 ==> zero_run_scan(g).0 <= s,
    decreases g.len(),
{
    let (bs, bl, cs, cl) = zero_run_scan(g);
    let p = g.drop_last();
    let (pbs, pbl, pcs, pcl) = zero_run_scan(p);
    lemma_zero_run_scan(p);
    lemma_zero_run_scan(g);
    if s + l < g.len() {
        assert forall|i: int| s <= i < s + l implies p[i] == 0 by {
            assert(p[i] == g[i]);
        }
        lemma_zero_run_scan_longest(p, s, l);
    } else {
        // the run ends at the last segment, so it lies within the current run
        assert(g.last() == 0);
        lemma_cur_run_maximal(g, s);
        if l > 1 {
            assert forall|i: int| s <= i < s + l - 1 implies p[i] == 0 by {
                assert(p[i] == g[i]);
            }
            lemma_zero_run_scan_longest(p, s, l - 1);
        }
    }
}

/// The current run reaches back as far as the zeros do.
pub proof fn lemma_cur_run_maximal(g: Seq<u16>, s: int)
    requires
        0 <= s <= g.len(),
        forall|i: int| s <= i < g.len() ==> g[i] == 0,
    ensures
        g.len() - s <= zero_run_scan(g).3,
    decreases g.len(),
{
    lemma_zero_run_scan(g);
    if s < g.len() {
        let p = g.drop_last();
        assert forall|i: int| s <= i < p.len() implies p[i] == 0 by {
            assert(p[i] == g[i]);
        }
        lemma_cur_run_maximal(p, s);
        lemma_zero_run_scan(p);
        assert(g[g.len() - 1] == 0);
        assert(g.last() == 0);
        assert(zero_run_scan(g).3 == zero_run_scan(p).3 + 1);
    }
}

/// Segments `s .. s + l` lie within the address and are all zero.
pub open spec fn is_zero_run(g: Seq<u16>, s: int, l: int) -> bool {
    &&& 0 <= s
    &&& 1 <= l
    &&& s + l <= g.len()
    &&& forall|i: int| s <= i < s + l ==> g[i] == 0
}

/// Segments `s .. s + l` are a longest run of zero segments, and no run of
/// that length starts earlier.
pub open spec fn is_first_longest_zero_run(g: Seq<u16>, s: int, l: int) -> bool {
    &&& is_zero_run(g, s, l)
    &&& forall|s2: int, l2: int|
        #![trigger is_zero_run(g, s2, l2)]
        is_zero_run(g, s2, l2) ==> l2 <= l && (l2 == l ==> s <= s2)
}

/// How an address that is not IPv4-mapped is written: where the first
/// longest run of zero segments has two or more of them, that run is written
/// as `::` between the groups before and after it; otherwise all eight groups
/// are written out.
pub proof fn lemma_ipv6_text_compression(g: Seq<u16>)
    requires
        g.len() == 8,
        !is_ipv4_mapped(g),
    ensures
        forall|s: int, l: int|
            #![trigger is_first_longest_zero_run(g, s, l)]
            is_first_longest_zero_run(g, s, l) && l >= 2 ==> ipv6_text(g) == groups_text(g.take(s))
                + double_colon() + groups_text(g.skip(s + l)),
        (forall|s: int, l: int| #![trigger is_zero_run(g, s, l)] is_zero_run(g, s, l) ==> l <= 1)
            ==> ipv6_text(g) == groups_text(g),
        (exists|s: int, l: int| #![trigger is_zero_run(g, s, l)] is_zero_run(g, s, l) && l >= 2)
            ==> (exists|s: int, l: int|
            #![trigger is_first_longest_zero_run(g, s, l)]
            is_first_longest_zero_run(g, s, l) && l >= 2),
{
    let (bs, bl, cs, cl) = zero_run_scan(g);
    lemma_zero_run_scan(g);
    assert forall|s: int, l: int|
        #![trigger is_first_longest_zero_run(g, s, l)]
        is_first_longest_zero_run(g, s, l) && l >= 2 implies ipv6_text(g) == groups_text(g.take(s))
        + double_colon() + groups_text(g.skip(s + l)) by {
        lemma_zero_run_scan_longest(g, s, l);
        assert(is_zero_run(g, bs, bl));
        assert(bs == s && bl == l);
    }
    if forall|s: int, l: int| #![trigger is_zero_run(g, s, l)] is_zero_run(g, s, l) ==> l <= 1 {
        if bl > 1 {
            assert(is_zero_run(g, bs, bl));
        }
    }
    if exists|s: int, l: int| #![trigger is_zero_run(g, s, l)] is_zero_run(g, s, l) && l >= 2 {
        let (s, l) = choose|s: int, l: int| #![trigger is_zero_run(g, s, l)] is_zero_run(g, s, l) && l >= 2;
        lemma_zero_run_scan_longest(g, s, l);
        assert forall|s2: int, l2: int|
            #![trigger is_zero_run(g, s2, l2)]
            is_zero_run(g, s2, l2) implies l2 <= bl && (l2 == bl ==> bs <= s2) by {
            lemma_zero_run_scan_longest(g, s2, l2);
        }
        assert(is_first_longest_zero_run(g, bs, bl));
    }
}

/// A join of non-empty fields without `:` contains no `::`, and does not end
/// with `:`.
pub proof fn lemma_join_no_double_colon(parts: Seq<Seq<char>>)
    requires
        forall|j: int| 0 <= j < parts.len() ==> lacks(#[trigger] parts[j], ':'),
        forall|j: int| 0 <= j < parts.len() ==> (#[trigger] parts[j]).len() >= 1,
    ensures
        no_double_colon(join(parts, ':')),
        join(parts, ':').len() > 0 ==> join(parts, ':').last() != ':',
    decreases parts.len(),
{
    if parts.len() == 1 {
        assert(lacks(parts[0], ':'));
        assert(parts[0].len() >= 1);
    } else if parts.len() > 1 {
        let init = parts.drop_last();
        assert forall|j: int| 0 <= j < init.len() implies lacks(#[trigger] init[j], ':') && init[j].len()
            >= 1 by {
            assert(init[j] == parts[j]);
        }
        lemma_join_no_double_colon(init);
        assert(init[0] == parts[0]);
        lemma_join_len(init, ':');
        let jn = join(init, ':');
        let a = jn.push(':');
        let last = parts.last();
        assert(lacks(parts[parts.len() - 1], ':'));
        assert(parts[parts.len() - 1].len() >= 1);
        let s = join(parts, ':');
        assert(s == a + last);
        assert forall|i: int| 0 <= i < s.len() - 1 implies !(#[trigger] s[i] == ':' && s[i + 1]
            == ':') by {
            if i + 1 < jn.len() {
                assert(s[i] == jn[i] && s[i + 1] == jn[i + 1]);
            } else if i + 1 == jn.len() {
                assert(s[i] == jn.last());
            } else if i == jn.len() {
                assert(s[i + 1] == last[0]);
            } else {
                assert(s[i] == last[i - a.len()]);
            }
        }
        assert(s.last() == last.last());
    }
}

/// Searching from `i` finds the `::` that follows text without one.
pub proof fn lemma_double_colon_from(h: Seq<char>, t: Seq<char>, i: int)
    requires
        no_double_colon(h),
        h.len() == 0 || h.last() != ':',
        0 <= i <= h.len(),
    ensures
        double_colon_from(h + double_colon() + t, i) == Some(h.len() as int),
    decreases h.len() - i,
{
    let s = h + double_colon() + t;
    if i < h.len() {
        assert(s[i] == h[i]);
        if i + 1 < h.len() {
            assert(s[i + 1] == h[i + 1]);
        } else {
            assert(h[i] == h.last());
        }
        lemma_double_colon_from(h, t, i + 1);
    } else {
        assert(s[i] == ':' && s[i + 1] == ':');
    }
}

/// Text without `::` has no first `::`.
pub proof fn lemma_no_double_colon_from(s: Seq<char>, i: int)
    requires
        no_double_colon(s),
        0 <= i,
    ensures
        double_colon_from(s, i) is None,
    decreases s.len() - i,
{
    if i + 1 < s.len() {
        lemma_no_double_colon_from(s, i + 1);
    }
}

/// The numerals of segments are hex groups that read back as the segments.
pub proof fn lemma_hex_numerals(g: Seq<u16>)
    ensures
        hex_fields(hex_numerals(g)) == Some(g),
        forall|j: int|
            0 <= j < g.len() ==> {
                &&& lacks(#[trigger] hex_numerals(g)[j], ':')
                &&& lacks(hex_numerals(g)[j], '/')
                &&& hex_numerals(g)[j].len() >= 1
            },
{
    let parts = hex_numerals(g);
    assert forall|j: int| 0 <= j < parts.len() implies (#[trigger] spec_hex_group(parts[j])) == Some(
        g[j],
    ) && lacks(parts[j], ':') && lacks(parts[j], '/') && parts[j].len() >= 1 by {
        let n = g[j] as nat;
        lemma_numeral(n, 16);
        reveal_with_fuel(pow_nat, 5);
        lemma_numeral_len(n, 16, 4);
        assert(all_radix_digits(parts[j], 16));
    }
    assert(Seq::new(parts.len(), |j: int| spec_hex_group(parts[j])->0) =~= g);
}

/// The text of groups reads back as the groups, and contains no `::`.
pub proof fn lemma_groups_text(g: Seq<u16>)
    ensures
        spec_hex_groups(groups_text(g)) == Some(g),
        spec_groups_tail(groups_text(g)) == Some(g),
        no_double_colon(groups_text(g)),
        groups_text(g).len() == 0 || groups_text(g).last() != ':',
        lacks(groups_text(g), '/'),
{
    let parts = hex_numerals(g);
    lemma_hex_numerals(g);
    lemma_join_no_double_colon(parts);
    lemma_join_lacks(parts, ':', '/');
    if g.len() == 0 {
        assert(groups_text(g) =~= Seq::<char>::empty());
    } else {
        assert(parts[0].len() >= 1);
        lemma_join_len(parts, ':');
        lemma_split_join(parts, ':');
        let init = parts.drop_last();
        assert(init =~= hex_numerals(g.drop_last()));
        lemma_hex_numerals(g.drop_last());
        let n = g.last() as nat;
        lemma_numeral(n, 16);
        reveal_with_fuel(pow_nat, 5);
        lemma_numeral_len(n, 16, 4);
        assert(parts.last() == numeral(n, 16));
        assert(spec_hex_group(parts.last()) == Some(g.last()));
        assert(g.drop_last().push(g.last()) =~= g);
    }
}

/// A join of non-empty fields has at least one character per field and one
/// separator between each two of them.
pub proof fn lemma_join_len_lower(parts: Seq<Seq<char>>, sep: char)
    requires
        parts.len() >= 1,
        forall|j: int| 0 <= j < parts.len() ==> (#[trigger] parts[j]).len() >= 1,
    ensures
        join(parts, sep).len() >= 2 * parts.len() - 1,
    decreases parts.len(),
{
    if parts.len() > 1 {
        let init = parts.drop_last();
        assert forall|j: int| 0 <= j < init.len() implies (#[trigger] init[j]).len() >= 1 by {
            assert(init[j] == parts[j]);
        }
        lemma_join_len_lower(init, sep);
        assert(parts[parts.len() - 1].len() >= 1);
    }
}

/// The text of any address reads back as that address.
pub proof fn lemma_ipv6_text_roundtrip(g: Seq<u16>)
    requires
        g.len() == 8,
    ensures
        spec_parse_ipv6(ipv6_text(g)) == Some(g),
        lacks(ipv6_text(g), '/'),
{
    if is_ipv4_mapped(g) {
        lemma_mapped_text_roundtrip(g);
    } else {
        let (bs, bl, cs, cl) = zero_run_scan(g);
        lemma_zero_run_scan(g);
        if bl > 1 {
            lemma_compressed_text_roundtrip(g);
        } else {
            let s = ipv6_text(g);
            lemma_groups_text(g);
            lemma_no_double_colon_from(s, 0);
        }
    }
}

/// The `::ffff:a.b.c.d` text reads back.
proof fn lemma_mapped_text_roundtrip(g: Seq<u16>)
    requires
        is_ipv4_mapped(g),
    ensures
        spec_parse_ipv6(ipv6_text(g)) == Some(g),
        lacks(ipv6_text(g), '/'),
{
    let s = ipv6_text(g);
    let o = tail_octets(g);
    let v4 = ipv4_text(o);
    lemma_ipv4_text_roundtrip(o);
    let h = Seq::<char>::empty();
    let t = seq!['f', 'f', 'f', 'f', ':'] + v4;
    assert(s =~= h + double_colon() + t);
    lemma_double_colon_from(h, t, 0);
    assert(s.take(0) =~= h);
    assert(s.skip(2) =~= t);
    lemma_mapped_tail(g);
    assert(Seq::<u16>::empty() + zero_segments(5) + (seq![0xffffu16] + ipv4_segments(o)) =~= g);
    assert(lacks(s, '/')) by {
        assert forall|i: int| 0 <= i < s.len() implies #[trigger] s[i] != '/' by {
            if i >= 7 {
                assert(s[i] == v4[i - 7]);
            }
        }
    }
}

/// The tail `ffff:a.b.c.d` reads as three segments.
proof fn lemma_mapped_tail(g: Seq<u16>)
    requires
        is_ipv4_mapped(g),
    ensures
        spec_groups_tail(seq!['f', 'f', 'f', 'f', ':'] + ipv4_text(tail_octets(g))) == Some(
            seq![0xffffu16] + ipv4_segments(tail_octets(g)),
        ),
        ipv4_segments(tail_octets(g)) == seq![g[6], g[7]],
{
    let o = tail_octets(g);
    let v4 = ipv4_text(o);
    lemma_ipv4_text_roundtrip(o);
    lemma_ipv4_text_len(o);
    lemma_ffff_tail(v4, o);
    lemma_tail_octets_segments(g[6], g[7]);
}

proof fn lemma_tail_octets_segments(a: u16, b: u16)
    ensures
        ipv4_segments(seq![(a / 256) as u8, (a % 256) as u8, (b / 256) as u8, (b % 256) as u8])
            == seq![a, b],
{
    let o = seq![(a / 256) as u8, (a % 256) as u8, (b / 256) as u8, (b % 256) as u8];
    assert(a as int == (a / 256) * 256 + a % 256);
    assert(b as int == (b / 256) * 256 + b % 256);
    assert(ipv4_segments(o) =~= seq![a, b]);
}

proof fn lemma_ffff_tail(v4: Seq<char>, o: Seq<u8>)
    requires
        lacks(v4, ':'),
        v4.len() >= 5,
        spec_parse_ipv4(v4) == Some(o),
    ensures
        spec_groups_tail(seq!['f', 'f', 'f', 'f', ':'] + v4) == Some(
            seq![0xffffu16] + ipv4_segments(o),
        ),
{
    let t = seq!['f', 'f', 'f', 'f', ':'] + v4;
    let ffff = seq!['f', 'f', 'f', 'f'];
    let parts = seq![ffff, v4];
    assert(parts.drop_last() =~= seq![ffff]);
    assert(join(parts, ':') =~= t) by {
        assert(join(parts.drop_last(), ':') == ffff);
    }
    assert(lacks(ffff, ':'));
    assert forall|j: int| 0 <= j < parts.len() implies lacks(#[trigger] parts[j], ':') by {}
    lemma_split_join(parts, ':');
    assert(split(t, ':') == parts);
    assert(all_radix_digits(ffff, 16));
    lemma_ffff_value();
    assert(spec_hex_group(ffff) == Some(0xffffu16));
    assert(hex_fields(seq![ffff]) =~= Some(seq![0xffffu16]));
    assert(spec_hex_group(v4) is None);
    assert(parts.last() == v4);
}

proof fn lemma_ffff_value()
    ensures
        digits_value(seq!['f', 'f', 'f', 'f'], 16) == 0xffff,
{
    let ffff = seq!['f', 'f', 'f', 'f'];
    assert(ffff.drop_last() =~= seq!['f', 'f', 'f']);
    assert(ffff.drop_last().drop_last() =~= seq!['f', 'f']);
    assert(ffff.drop_last().drop_last().drop_last() =~= seq!['f']);
    assert(ffff.drop_last().drop_last().drop_last().drop_last() =~= Seq::<char>::empty());
    reveal_with_fuel(digits_value, 5);
}

/// Text with a `::` for the longest run of zeros reads back.
proof fn lemma_compressed_text_roundtrip(g: Seq<u16>)
    requires
        g.len() == 8,
        !is_ipv4_mapped(g),
        zero_run_scan(g).1 > 1,
    ensures
        spec_parse_ipv6(ipv6_text(g)) == Some(g),
        lacks(ipv6_text(g), '/'),
{
    let s = ipv6_text(g);
    let (bs, bl, cs, cl) = zero_run_scan(g);
    lemma_zero_run_scan(g);
    let hg = g.take(bs);
    let tg = g.skip(bs + bl);
    let h = groups_text(hg);
    let t = groups_text(tg);
    lemma_groups_text(hg);
    lemma_groups_text(tg);
    assert(s == h + double_colon() + t);
    lemma_double_colon_from(h, t, 0);
    assert(s.take(h.len() as int) =~= h);
    assert(s.skip(h.len() + 2int) =~= t);
    assert(hg + zero_segments(8 - hg.len() - tg.len()) + tg =~= g);
    assert(lacks(s, '/')) by {
        assert forall|i: int| 0 <= i < s.len() implies #[trigger] s[i] != '/' by {
            if i < h.len() {
                assert(s[i] == h[i]);
            } else if i >= h.len() + 2 {
                assert(s[i] == t[i - h.len() - 2]);
            }
        }
    }
}

/// Dotted-decimal text is at least seven characters long.
pub proof fn lemma_ipv4_text_len(o: Seq<u8>)
    requires
        o.len() == 4,
    ensures
        ipv4_text(o).len() >= 7,
{
    let parts = crate::ipv4::octet_numerals(o);
    assert forall|j: int| 0 <= j < parts.len() implies (#[trigger] parts[j]).len() >= 1 by {
        lemma_numeral(o[j] as nat, 10);
    }
    lemma_join_len_lower(parts, '.');
}

/// Lower-casing a group does not change how it reads.
pub proof fn lemma_lower_hex_group(p: Seq<char>)
    ensures
        spec_hex_group(lower_text(p)) == spec_hex_group(p),
{
    lemma_lower_text_slices(p);
    lemma_lower_digits(p, 16);
}

/// Lower-casing every field does not change how the fields read as groups.
pub proof fn lemma_lower_hex_fields(parts: Seq<Seq<char>>)
    ensures
        hex_fields(parts.map_values(|p: Seq<char>| lower_text(p))) == hex_fields(parts),
{
    let lp = parts.map_values(|p: Seq<char>| lower_text(p));
    assert forall|j: int| 0 <= j < parts.len() implies #[trigger] spec_hex_group(lp[j])
        == spec_hex_group(parts[j]) by {
        lemma_lower_hex_group(parts[j]);
    }
    if hex_fields(parts) is Some {
        assert forall|j: int| 0 <= j < lp.len() implies (#[trigger] spec_hex_group(lp[j])) is Some by {
            assert(spec_hex_group(parts[j]) is Some);
        }
        assert(Seq::new(lp.len(), |j: int| spec_hex_group(lp[j])->0) =~= Seq::new(
            parts.len(),
            |j: int| spec_hex_group(parts[j])->0,
        ));
    }
    if hex_fields(lp) is Some {
        assert forall|j: int| 0 <= j < parts.len() implies (#[trigger] spec_hex_group(parts[j])) is Some by {
            assert(spec_hex_group(lp[j]) is Some);
        }
    }
}

/// Lower-casing does not change how colon-separated groups read.
pub proof fn lemma_lower_groups(s: Seq<char>)
    ensures
        spec_hex_groups(lower_text(s)) == spec_hex_groups(s),
        spec_groups_tail(lower_text(s)) == spec_groups_tail(s),
{
    lemma_lower_text_slices(s);
    if s.len() > 0 {
        let parts = split(s, ':');
        lemma_split_len(s, ':');
        crate::text::lemma_lower_split(s, ':');
        let lp = split(lower_text(s), ':');
        assert(lp == parts.map_values(|p: Seq<char>| lower_text(p)));
        lemma_lower_hex_fields(parts);
        let init = parts.drop_last();
        assert(lp.drop_last() =~= init.map_values(|p: Seq<char>| lower_text(p)));
        lemma_lower_hex_fields(init);
        assert(lp.last() == lower_text(parts.last()));
        lemma_lower_hex_group(parts.last());
        crate::ipv4::lemma_ipv4_ignores_case(parts.last());
    }
}

/// Lower-casing does not move the `::`s.
pub proof fn lemma_lower_double_colon(s: Seq<char>, i: int)
    ensures
        double_colon_from(lower_text(s), i) == double_colon_from(s, i),
    decreases s.len() - i,
{
    lemma_lower_text_slices(s);
    if 0 <= i && i + 1 < s.len() {
        crate::text::lemma_to_lower(s[i]);
        crate::text::lemma_to_lower(s[i + 1]);
        lemma_lower_double_colon(s, i + 1);
    }
}

/// Reading colon-hexadecimal text does not depend on letter case: the text
/// and the text with every letter lower-cased read the same.
pub proof fn lemma_ipv6_ignores_case(s: Seq<char>)
    ensures
        spec_parse_ipv6(lower_text(s)) == spec_parse_ipv6(s),
{
    lemma_lower_text_slices(s);
    lemma_lower_double_colon(s, 0);
    lemma_lower_groups(s);
    match first_double_colon(s) {
        Some(k) => {
            assert(0 <= k && k + 2 <= s.len()) by {
                lemma_double_colon_from_bounds(s, 0);
            }
            lemma_lower_groups(s.take(k));
            lemma_lower_groups(s.skip(k + 2));
        },
        None => {},
    }
}

/// Where a `::` is found, it lies within the text.
pub proof fn lemma_double_colon_from_bounds(s: Seq<char>, i: int)
    ensures
        double_colon_from(s, i) matches Some(k) ==> i <= k && 0 <= k && k + 2 <= s.len(),
    decreases s.len() - i,
{
    if 0 <= i && i + 1 < s.len() {
        lemma_double_colon_from_bounds(s, i + 1);
    }
}

// ---------------------------------------------------------------------------
// Executable reading
// ---------------------------------------------------------------------------

/// Reads one hex group from `v[a..b]`.
pub fn parse_hex_group_at(v: &Vec<char>, a: usize, b: usize) -> (r: Option<u16>)
    requires
        a <= b <= v.len(),
    ensures
        r == spec_hex_group(v@.subrange(a as int, b as int)),
{
    if b - a < 1 || b - a > 4 {
        return None;
    }
    match digits_value_at(v, a, b, 16) {
        None => None,
        Some(x) => {
            proof {
                crate::text::lemma_digits_value_bound(v@.subrange(a as int, b as int), 16);
                crate::text::lemma_pow_monotone(16, (b - a) as nat, 4);
                crate::text::lemma_pow4(16);
            }
            Some(x as u16)
        },
    }
}

/// Reads the fields `ranges[from..to]` of `v` as hex groups.
fn hex_fields_at(
    v: &Vec<char>,
    ranges: &Vec<(usize, usize)>,
    to: usize,
    Ghost(parts): Ghost<Seq<Seq<char>>>,
) -> (r: Option<Vec<u16>>)
    requires
        to <= ranges.len() == parts.len(),
        forall|k: int|
            0 <= k < ranges.len() ==> {
                &&& (#[trigger] ranges[k]).0 <= ranges[k].1 <= v.len()
                &&& v@.subrange(ranges[k].0 as int, ranges[k].1 as int) == parts[k]
            },
    ensures
        match r {
            Some(w) => hex_fields(parts.take(to as int)) == Some(w@),
            None => hex_fields(parts.take(to as int)) is None,
        },
{
    let mut w: Vec<u16> = Vec::new();
    for j in 0..to
        invariant
            to <= ranges.len() == parts.len(),
            forall|k: int|
                0 <= k < ranges.len() ==> {
                    &&& (#[trigger] ranges[k]).0 <= ranges[k].1 <= v.len()
                    &&& v@.subrange(ranges[k].0 as int, ranges[k].1 as int) == parts[k]
                },
            w.len() == j,
            forall|k: int| 0 <= k < j ==> (#[trigger] spec_hex_group(parts[k])) == Some(w@[k]),
    {
        let (x, y) = ranges[j];
        match parse_hex_group_at(v, x, y) {
            None => {
                assert(parts.take(to as int)[j as int] == parts[j as int]);
                return None;
            },
            Some(g) => {
                w.push(g);
            },
        }
    }
    let ghost p = parts.take(to as int);
    assert forall|k: int| 0 <= k < p.len() implies (#[trigger] spec_hex_group(p[k])) is Some by {
        assert(p[k] == parts[k]);
    }
    assert(Seq::new(p.len(), |k: int| spec_hex_group(p[k])->0) =~= w@);
    Some(w)
}

/// Reads colon-separated hex groups from `v[a..b]`.
fn parse_hex_groups_at(v: &Vec<char>, a: usize, b: usize) -> (r: Option<Vec<u16>>)
    requires
        a <= b <= v.len(),
    ensures
        match r {
            Some(w) => spec_hex_groups(v@.subrange(a as int, b as int)) == Some(w@),
            None => spec_hex_groups(v@.subrange(a as int, b as int)) is None,
        },
{
    if a == b {
        return Some(Vec::new());
    }
    let ranges = split_ranges(v, a, b, ':');
    let ghost parts = split(v@.subrange(a as int, b as int), ':');
    let r = hex_fields_at(v, &ranges, ranges.len(), Ghost(parts));
    assert(parts.take(ranges.len() as int) =~= parts);
    r
}

/// Reads colon-separated groups, the last possibly an embedded IPv4 address,
/// from `v[a..b]`.
fn parse_groups_tail_at(v: &Vec<char>, a: usize, b: usize) -> (r: Option<Vec<u16>>)
    requires
        a <= b <= v.len(),
    ensures
        match r {
            Some(w) => spec_groups_tail(v@.subrange(a as int, b as int)) == Some(w@),
            None => spec_groups_tail(v@.subrange(a as int, b as int)) is None,
        },
{
    if a == b {
        return Some(Vec::new());
    }
    let ranges = split_ranges(v, a, b, ':');
    let ghost parts = split(v@.subrange(a as int, b as int), ':');
    proof {
        lemma_split_len(v@.subrange(a as int, b as int), ':');
    }
    let m = ranges.len();
    assert(parts.take(m - 1) =~= parts.drop_last());
    let front = hex_fields_at(v, &ranges, m - 1, Ghost(parts));
    match front {
        None => None,
        Some(mut w) => {
            let (x, y) = ranges[m - 1];
            assert(v@.subrange(x as int, y as int) == parts.last());
            match parse_hex_group_at(v, x, y) {
                Some(g) => {
                    w.push(g);
                    Some(w)
                },
                None => match parse_ipv4_at(v, x, y) {
                    Some(addr) => {
                        let o = addr.octets;
                        let s1 = (o[0] as u16) * 256 + (o[1] as u16);
                        let s2 = (o[2] as u16) * 256 + (o[3] as u16);
                        let ghost before = w@;
                        w.push(s1);
                        w.push(s2);
                        assert(w@ =~= before + ipv4_segments(addr@));
                        Some(w)
                    },
                    None => None,
                },
            }
        },
    }
}

/// Finds the first `::` in `v`.
fn find_double_colon(v: &Vec<char>) -> (r: Option<usize>)
    ensures
        match r {
            Some(k) => first_double_colon(v@) == Some(k as int) && k + 2 <= v.len(),
            None => first_double_colon(v@) is None,
        },
{
    let n = v.len();
    let mut i: usize = 0;
    while n > 0 && i < n - 1
        invariant
            n == v.len(),
            i <= n,
            double_colon_from(v@, 0) == double_colon_from(v@, i as int),
        decreases n - i,
    {
        if v[i] == ':' && v[i + 1] == ':' {
            return Some(i);
        }
        i = i + 1;
    }
    None
}

/// Copies eight segments into an address.
fn addr_from_vec(w: &Vec<u16>) -> (addr: Ipv6Addr)
    requires
        w.len() == 8,
    ensures
        addr@ == w@,
{
    let addr = Ipv6Addr { segments: [w[0], w[1], w[2], w[3], w[4], w[5], w[6], w[7]] };
    assert(addr@ =~= w@);
    addr
}

// ---------------------------------------------------------------------------
// Executable writing
// ---------------------------------------------------------------------------

/// Appends the segments `g[from..to]` as colon-separated hex numerals.
fn push_groups(t: &mut String, g: &[u16; 8], from: usize, to: usize)
    requires
        from <= to <= 8,
    ensures
        final(t)@ == old(t)@ + groups_text(g@.subrange(from as int, to as int)),
{
    let ghost before = t@;
    if from == to {
        assert(groups_text(g@.subrange(from as int, to as int)) =~= Seq::<char>::empty());
        assert(t@ =~= before + groups_text(g@.subrange(from as int, to as int)));
        return;
    }
    push_numeral(t, g[from] as u32, 16);
    assert(hex_numerals(g@.subrange(from as int, from + 1)) =~= seq![numeral(g[from as int] as nat, 16)]);
    let mut j = from + 1;
    while j < to
        invariant
            from < j <= to <= 8,
            t@ == before + groups_text(g@.subrange(from as int, j as int)),
        decreases to - j,
    {
        push_char(t, ':');
        push_numeral(t, g[j] as u32, 16);
        proof {
            let prev = hex_numerals(g@.subrange(from as int, j as int));
            lemma_join_push(prev, numeral(g[j as int] as nat, 16), ':');
            assert(prev.push(numeral(g[j as int] as nat, 16)) =~= hex_numerals(
                g@.subrange(from as int, j + 1),
            ));
        }
        j = j + 1;
        assert(t@ =~= before + groups_text(g@.subrange(from as int, j as int)));
    }
}

impl Ipv6Addr {
    /// Creates an address from its eight segments.
    pub fn new(a: u16, b: u16, c: u16, d: u16, e: u16, f: u16, g: u16, h: u16) -> (addr: Ipv6Addr)
        ensures
            addr@ == seq![a, b, c, d, e, f, g, h],
    {
        let addr = Ipv6Addr { segments: [a, b, c, d, e, f, g, h] };
        assert(addr@ =~= seq![a, b, c, d, e, f, g, h]);
        addr
    }

    /// The eight segments.
    pub fn segments(&self) -> (s: [u16; 8])
        ensures
            s@ == self@,
    {
        self.segments
    }

    /// Reads colon-hexadecimal text, as std's `Ipv6Addr::from_str` does.
    pub fn parse_text(s: &str) -> (r: Result<Ipv6Addr, AddrParseError>)
        ensures
            match r {
                Ok(addr) => spec_parse_ipv6(s@) == Some(addr@),
                Err(e) => spec_parse_ipv6(s@) is None && e == AddrParseError::Ipv6,
            },
    {
        let v = chars_of(s);
        let n = v.len();
        match find_double_colon(&v) {
            Some(k) => {
                assert(v@.subrange(0, k as int) =~= v@.take(k as int));
                assert(v@.subrange(k + 2, n as int) =~= v@.skip(k + 2));
                let head = parse_hex_groups_at(&v, 0, k);
                let tail = parse_groups_tail_at(&v, k + 2, n);
                match (head, tail) {
                    (Some(h), Some(t)) => {
                        if h.len() > 7 || t.len() > 7 - h.len() {
                            return Err(AddrParseError::Ipv6);
                        }
                        let zeros = 8 - h.len() - t.len();
                        let mut w = h;
                        let ghost hv = w@;
                        let mut z: usize = 0;
                        while z < zeros
                            invariant
                                z <= zeros,
                                w@ == hv + zero_segments(z as int),
                            decreases zeros - z,
                        {
                            w.push(0);
                            z = z + 1;
                            assert(w@ =~= hv + zero_segments(z as int));
                        }
                        let mut q: usize = 0;
                        let ghost wz = w@;
                        while q < t.len()
                            invariant
                                q <= t.len(),
                                w@ == wz + t@.take(q as int),
                            decreases t.len() - q,
                        {
                            w.push(t[q]);
                            q = q + 1;
                            assert(w@ =~= wz + t@.take(q as int));
                        }
                        assert(t@.take(t.len() as int) =~= t@);
                        Ok(addr_from_vec(&w))
                    },
                    _ => Err(AddrParseError::Ipv6),
                }
            },
            None => {
                assert(v@.subrange(0, n as int) =~= v@);
                match parse_groups_tail_at(&v, 0, n) {
                    Some(t) => {
                        if t.len() == 8 {
                            Ok(addr_from_vec(&t))
                        } else {
                            Err(AddrParseError::Ipv6)
                        }
                    },
                    None => Err(AddrParseError::Ipv6),
                }
            },
        }
    }

    /// The colon-hexadecimal text of the address, as std's `Display` writes it.
    pub fn to_string(&self) -> (t: String)
        ensures
            t@ == ipv6_text(self@),
    {
        let mut t = String::new();
        push_ipv6_text(&mut t, self);
        assert(t@ =~= ipv6_text(self@));
        t
    }

    /// The `Debug` text, which for std's addresses is the `Display` text.
    pub fn to_debug_string(&self) -> (t: String)
        ensures
            t@ == ipv6_text(self@),
    {
        self.to_string()
    }
}

/// The first longest run of zero segments, as `(start, len)`.
fn longest_zero_run(g: &[u16; 8]) -> (r: (usize, usize))
    ensures
        r.0 == zero_run_scan(g@).0,
        r.1 == zero_run_scan(g@).1,
        r.0 + r.1 <= 8,
{
    let mut bs: usize = 0;
    let mut bl: usize = 0;
    let mut cs: usize = 0;
    let mut cl: usize = 0;
    assert(g@.take(0) =~= Seq::<u16>::empty());
    for i in 0..8usize
        invariant
            zero_run_scan(g@.take(i as int)) == (bs as int, bl as int, cs as int, cl as int),
            cs + cl <= i,
            bs + bl <= i,
    {
        proof {
            lemma_zero_run_scan(g@.take(i as int));
            assert(g@.take(i + 1).drop_last() =~= g@.take(i as int));
        }
        if g[i] == 0 {
            if cl == 0 {
                cs = i;
            }
            cl = cl + 1;
            if cl > bl {
                bs = cs;
                bl = cl;
            }
        } else {
            cs = 0;
            cl = 0;
        }
    }
    assert(g@.take(8) =~= g@);
    (bs, bl)
}

/// Appends the colon-hexadecimal text of `addr`.
pub fn push_ipv6_text(t: &mut String, addr: &Ipv6Addr)
    ensures
        final(t)@ == old(t)@ + ipv6_text(addr@),
{
    let g = &addr.segments;
    let ghost before = t@;
    if g[0] == 0 && g[1] == 0 && g[2] == 0 && g[3] == 0 && g[4] == 0 && g[5] == 0xffff {
        push_char(t, ':');
        push_char(t, ':');
        push_char(t, 'f');
        push_char(t, 'f');
        push_char(t, 'f');
        push_char(t, 'f');
        push_char(t, ':');
        let v4 = Ipv4Addr::new(
            (g[6] / 256) as u8,
            (g[6] % 256) as u8,
            (g[7] / 256) as u8,
            (g[7] % 256) as u8,
        );
        assert(v4@ =~= tail_octets(addr@));
        push_ipv4_text(t, &v4);
        assert(t@ =~= before + ipv6_text(addr@));
    } else {
        let (bs, bl) = longest_zero_run(g);
        if bl > 1 {
            push_groups(t, g, 0, bs);
            push_char(t, ':');
            push_char(t, ':');
            push_groups(t, g, bs + bl, 8);
            assert(g@.subrange(0, bs as int) =~= addr@.take(bs as int));
            assert(g@.subrange(bs + bl, 8) =~= addr@.skip(bs + bl));
            assert(t@ =~= before + ipv6_text(addr@));
        } else {
            push_groups(t, g, 0, 8);
            assert(g@.subrange(0, 8) =~= addr@);
            assert(t@ =~= before + ipv6_text(addr@));
        }
    }
}

} // verus!
