//! IPv4 addresses and their dotted-decimal text.
use vstd::prelude::*;

use crate::ip_address::AddrParseError;
use crate::text::{
    all_radix_digits, chars_of, digits_value, digits_value_at, join, lacks, lemma_numeral,
    lemma_numeral_len, lemma_split_join, lemma_join_push, numeral, pow_nat, push_char,
    push_numeral, split, split_ranges,
};

verus! {

/// An IPv4 address, held as its four octets in network order.
#[derive(Clone, Copy, Debug, PartialEq, Eq, Hash)]
pub struct Ipv4Addr {
    pub octets: [u8; 4],
}

impl View for Ipv4Addr {
    type V = Seq<u8>;

    open spec fn view(&self) -> Seq<u8> {
        self.octets@
    }
}

/// One field of dotted-decimal text: one to three decimal digits, without a
/// leading zero, denoting at most 255.
pub open spec fn spec_octet(s: Seq<char>) -> Option<u8> {
    if 1 <= s.len() <= 3 && all_radix_digits(s, 10) && (s.len() == 1 || s[0] != '0')
        && digits_value(s, 10) <= 255 {
        Some(digits_value(s, 10) as u8)
    } else {
        None
    }
}

/// Dotted-decimal text: exactly four octet fields separated by `.`.
pub open spec fn spec_parse_ipv4(s: Seq<char>) -> Option<Seq<u8>> {
    let parts = split(s, '.');
    if parts.len() == 4 && (forall|j: int| 0 <= j < 4 ==> (#[trigger] spec_octet(parts[j])) is Some) {
        Some(Seq::new(4, |j: int| spec_octet(parts[j])->0))
    } else {
        None
    }
}

/// The decimal numerals of the octets.
pub open spec fn octet_numerals(o: Seq<u8>) -> Seq<Seq<char>> {
    Seq::new(o.len(), |j: int| numeral(o[j] as nat, 10))
}

/// The dotted-decimal text of four octets, as std writes it.
pub open spec fn ipv4_text(o: Seq<u8>) -> Seq<char> {
    join(octet_numerals(o), '.')
}

/// The text of any four octets reads back as those octets.
pub proof fn lemma_ipv4_text_roundtrip(o: Seq<u8>)
    requires
        o.len() == 4,
    ensures
        spec_parse_ipv4(ipv4_text(o)) == Some(o),
        ipv4_text(o).len() >= 1,
        lacks(ipv4_text(o), ':'),
        lacks(ipv4_text(o), '/'),
{
    let parts = octet_numerals(o);
    assert forall|j: int| 0 <= j < parts.len() implies lacks(#[trigger] parts[j], '.') && lacks(
        parts[j],
        ':',
    ) && lacks(parts[j], '/') by {
        lemma_numeral(o[j] as nat, 10);
    }
    lemma_split_join(parts, '.');
    assert forall|j: int| 0 <= j < 4 implies (#[trigger] spec_octet(parts[j])) == Some(o[j]) by {
        let n = o[j] as nat;
        lemma_numeral(n, 10);
        reveal_with_fuel(pow_nat, 4);
        lemma_numeral_len(n, 10, 3);
        if parts[j][0] == '0' {
            assert(n == 0);
            assert(parts[j] =~= seq!['0']);
        }
    }
    assert(Seq::new(4, |j: int| spec_octet(parts[j])->0) =~= o);
    crate::text::lemma_join_lacks(parts, '.', ':');
    crate::text::lemma_join_lacks(parts, '.', '/');
    lemma_join_len(parts, '.');
}

/// Dotted-decimal text has exactly one spelling per address: text that reads
/// as an address is the text of that address.
pub proof fn lemma_ipv4_text_unique(s: Seq<char>)
    requires
        spec_parse_ipv4(s) is Some,
    ensures
        ipv4_text(spec_parse_ipv4(s)->0) == s,
{
    let parts = split(s, '.');
    let o = spec_parse_ipv4(s)->0;
    assert forall|j: int| 0 <= j < 4 implies (#[trigger] octet_numerals(o)[j]) == parts[j] by {
        assert(spec_octet(parts[j]) is Some);
        crate::text::lemma_numeral_of_digits(parts[j]);
        crate::text::lemma_digits_value_bound(parts[j], 10);
    }
    assert(octet_numerals(o) =~= parts);
    crate::text::lemma_join_split(s, '.');
}

/// Lower-casing an octet field does not change how it reads.
pub proof fn lemma_lower_octet(p: Seq<char>)
    ensures
        spec_octet(crate::text::lower_text(p)) == spec_octet(p),
{
    crate::text::lemma_lower_text_slices(p);
    crate::text::lemma_lower_digits(p, 10);
}

/// Reading dotted-decimal text does not depend on letter case: lower-casing
/// the text gives the same result.
pub proof fn lemma_ipv4_ignores_case(s: Seq<char>)
    ensures
        spec_parse_ipv4(crate::text::lower_text(s)) == spec_parse_ipv4(s),
{
    let parts = split(s, '.');
    let lparts = split(crate::text::lower_text(s), '.');
    crate::text::lemma_lower_split(s, '.');
    assert(lparts.len() == parts.len());
    assert forall|j: int| 0 <= j < parts.len() implies #[trigger] spec_octet(lparts[j]) == spec_octet(
        parts[j],
    ) by {
        assert(lparts[j] == crate::text::lower_text(parts[j]));
        lemma_lower_octet(parts[j]);
    }
    if parts.len() == 4 {
        if forall|j: int| 0 <= j < 4 ==> (#[trigger] spec_octet(parts[j])) is Some {
            assert forall|j: int| 0 <= j < 4 implies (#[trigger] spec_octet(lparts[j])) is Some by {
                assert(spec_octet(parts[j]) is Some);
            }
        }
        if forall|j: int| 0 <= j < 4 ==> (#[trigger] spec_octet(lparts[j])) is Some {
            assert forall|j: int| 0 <= j < 4 implies (#[trigger] spec_octet(parts[j])) is Some by {
                assert(spec_octet(lparts[j]) is Some);
            }
        }
        assert(Seq::new(4, |j: int| spec_octet(lparts[j])->0) =~= Seq::new(
            4,
            |j: int| spec_octet(parts[j])->0,
        ));
    }
}

/// A join of non-empty fields is non-empty.
pub proof fn lemma_join_len(parts: Seq<Seq<char>>, sep: char)
    requires
        parts.len() >= 1,
        parts[0].len() >= 1,
    ensures
        join(parts, sep).len() >= 1,
    decreases parts.len(),
{
    if parts.len() > 1 {
        assert(parts.drop_last()[0] == parts[0]);
        lemma_join_len(parts.drop_last(), sep);
    }
}

/// Reads one octet field from `v[a..b]`.
pub fn parse_octet_at(v: &Vec<char>, a: usize, b: usize) -> (r: Option<u8>)
    requires
        a <= b <= v.len(),
    ensures
        r == spec_octet(v@.subrange(a as int, b as int)),
{
    let ghost s = v@.subrange(a as int, b as int);
    if b - a < 1 || b - a > 3 {
        return None;
    }
    if b - a > 1 && v[a] == '0' {
        assert(s[0] == v@[a as int]);
        return None;
    }
    proof {
        if b - a > 1 {
            assert(s[0] == v@[a as int]);
        }
    }
    match digits_value_at(v, a, b, 10) {
        None => None,
        Some(x) => {
            if x <= 255 {
                Some(x as u8)
            } else {
                None
            }
        },
    }
}

/// Reads dotted-decimal text from `v[a..b]`.
pub fn parse_ipv4_at(v: &Vec<char>, a: usize, b: usize) -> (r: Option<Ipv4Addr>)
    requires
        a <= b <= v.len(),
    ensures
        match r {
            Some(addr) => spec_parse_ipv4(v@.subrange(a as int, b as int)) == Some(addr@),
            None => spec_parse_ipv4(v@.subrange(a as int, b as int)) is None,
        },
{
    let ghost s = v@.subrange(a as int, b as int);
    let ghost parts = split(s, '.');
    let ranges = split_ranges(v, a, b, '.');
    if ranges.len() != 4 {
        return None;
    }
    let mut octets: [u8; 4] = [0u8; 4];
    for j in 0..4usize
        invariant
            a <= b <= v.len(),
            ranges.len() == 4,
            parts.len() == 4,
            parts == split(s, '.'),
            s == v@.subrange(a as int, b as int),
            forall|k: int|
                0 <= k < 4 ==> {
                    &&& a <= (#[trigger] ranges[k]).0 <= ranges[k].1 <= b
                    &&& v@.subrange(ranges[k].0 as int, ranges[k].1 as int) == parts[k]
                },
            forall|k: int| 0 <= k < j ==> (#[trigger] spec_octet(parts[k])) == Some(octets@[k]),
    {
        let (x, y) = ranges[j];
        match parse_octet_at(v, x, y) {
            None => {
                assert(spec_octet(parts[j as int]) is None);
                return None;
            },
            Some(o) => {
                octets[j] = o;
            },
        }
    }
    let addr = Ipv4Addr { octets };
    assert(Seq::new(4, |k: int| spec_octet(parts[k])->0) =~= addr@);
    Some(addr)
}

impl Ipv4Addr {
    /// Creates an address from its four octets.
    pub fn new(a: u8, b: u8, c: u8, d: u8) -> (addr: Ipv4Addr)
        ensures
            addr@ == seq![a, b, c, d],
    {
        let addr = Ipv4Addr { octets: [a, b, c, d] };
        assert(addr@ =~= seq![a, b, c, d]);
        addr
    }

    /// The four octets.
    pub fn octets(&self) -> (o: [u8; 4])
        ensures
            o@ == self@,
    {
        self.octets
    }

    /// Reads dotted-decimal text, as std's `Ipv4Addr::from_str` does.
    pub fn parse_text(s: &str) -> (r: Result<Ipv4Addr, AddrParseError>)
        ensures
            match r {
                Ok(addr) => spec_parse_ipv4(s@) == Some(addr@),
                Err(e) => spec_parse_ipv4(s@) is None && e == AddrParseError::Ipv4,
            },
    {
        let v = chars_of(s);
        assert(v@.subrange(0, v@.len() as int) =~= s@);
        match parse_ipv4_at(&v, 0, v.len()) {
            Some(addr) => Ok(addr),
            None => Err(AddrParseError::Ipv4),
        }
    }

    /// The dotted-decimal text of the address, as std's `Display` writes it.
    pub fn to_string(&self) -> (t: String)
        ensures
            t@ == ipv4_text(self@),
    {
        let mut t = String::new();
        push_ipv4_text(&mut t, self);
        assert(t@ =~= ipv4_text(self@));
        t
    }

    /// The `Debug` text, which for std's addresses is the `Display` text.
    pub fn to_debug_string(&self) -> (t: String)
        ensures
            t@ == ipv4_text(self@),
    {
        self.to_string()
    }
}

/// Appends the dotted-decimal text of `addr`.
pub fn push_ipv4_text(t: &mut String, addr: &Ipv4Addr)
    ensures
        final(t)@ == old(t)@ + ipv4_text(addr@),
{
    let ghost before = t@;
    let ghost parts = octet_numerals(addr@);
    push_numeral(t, addr.octets[0] as u32, 10);
    assert(parts.take(1).len() == 1);
    assert(join(parts.take(1), '.') == parts[0]);
    for j in 1..4usize
        invariant
            parts == octet_numerals(addr@),
            parts.len() == 4,
            t@ == before + join(parts.take(j as int), '.'),
    {
        push_char(t, '.');
        push_numeral(t, addr.octets[j] as u32, 10);
        proof {
            lemma_join_push(parts.take(j as int), parts[j as int], '.');
            assert(parts.take(j as int).push(parts[j as int]) =~= parts.take(j + 1));
        }
        assert(t@ =~= before + join(parts.take(j + 1), '.'));
    }
    assert(parts.take(4) =~= parts);
}

} // verus!
