//! Addresses with a prefix length, in CIDR notation (`address/prefix`).
use vstd::prelude::*;

use crate::ipv4::{ipv4_text, lemma_ipv4_text_roundtrip, push_ipv4_text, spec_parse_ipv4, Ipv4Addr};
use crate::ipv6::{ipv6_text, lemma_ipv6_text_roundtrip, push_ipv6_text, spec_parse_ipv6, Ipv6Addr};
use crate::text::{
    all_radix_digits, chars_of, digit_value, digits_value, is_dec_digit, lacks, lemma_numeral,
    lemma_digits_value_prefix_monotone, numeral, push_char, push_numeral,
};

verus! {

/// Address text that is not an address of the expected family.
#[derive(Clone, Copy, Debug, PartialEq, Eq, Structural)]
pub enum AddrParseError {
    /// Not dotted-decimal IPv4 text.
    Ipv4,
    /// Not colon-hexadecimal IPv6 text.
    Ipv6,
}

/// Why a prefix length is not a decimal `u8`.
#[derive(Clone, Copy, Debug, PartialEq, Eq, Structural)]
pub enum IntParseError {
    /// The text is empty.
    Empty,
    /// A character is not a decimal digit.
    InvalidDigit,
    /// The number is larger than 255.
    PosOverflow,
}

/// Why text is not an address with a prefix.
#[derive(Clone, Copy, Debug, PartialEq, Eq, Structural)]
pub enum IpAddressParseError {
    /// The part before the last `/` is not an address.
    Addr(AddrParseError),
    /// The part after the last `/` is not a prefix length.
    Prefix(IntParseError),
    /// The text has no `/`.
    Split,
}

impl From<AddrParseError> for IpAddressParseError {
    fn from(value: AddrParseError) -> (e: Self)
        ensures
            e == IpAddressParseError::Addr(value),
    {
        IpAddressParseError::Addr(value)
    }
}

impl vstd::std_specs::convert::FromSpecImpl<AddrParseError> for IpAddressParseError {
    open spec fn obeys_from_spec() -> bool {
        true
    }

    open spec fn from_spec(v: AddrParseError) -> Self {
        IpAddressParseError::Addr(v)
    }
}

impl From<IntParseError> for IpAddressParseError {
    fn from(value: IntParseError) -> (e: Self)
        ensures
            e == IpAddressParseError::Prefix(value),
    {
        IpAddressParseError::Prefix(value)
    }
}

impl vstd::std_specs::convert::FromSpecImpl<IntParseError> for IpAddressParseError {
    open spec fn obeys_from_spec() -> bool {
        true
    }

    open spec fn from_spec(v: IntParseError) -> Self {
        IpAddressParseError::Prefix(v)
    }
}

/// The message of an address syntax error, as std's `AddrParseError` writes it.
pub open spec fn addr_parse_error_text(e: AddrParseError) -> Seq<char> {
    match e {
        AddrParseError::Ipv4 => "invalid IPv4 address syntax"@,
        AddrParseError::Ipv6 => "invalid IPv6 address syntax"@,
    }
}

/// The message of a prefix length error, as std's `ParseIntError` writes it.
pub open spec fn int_parse_error_text(e: IntParseError) -> Seq<char> {
    match e {
        IntParseError::Empty => "cannot parse integer from empty string"@,
        IntParseError::InvalidDigit => "invalid digit found in string"@,
        IntParseError::PosOverflow => "number too large to fit in target type"@,
    }
}

/// The message of an error in `address/prefix` text.
pub open spec fn ip_address_parse_error_text(e: IpAddressParseError) -> Seq<char> {
    match e {
        IpAddressParseError::Addr(a) => "address parsing failed: "@ + addr_parse_error_text(a),
        IpAddressParseError::Prefix(p) => "prefix parsing failed: "@ + int_parse_error_text(p),
        IpAddressParseError::Split => "could not split into address and prefix"@,
    }
}

impl AddrParseError {
    /// The error's message.
    pub fn message(&self) -> (t: String)
        ensures
            t@ == addr_parse_error_text(*self),
    {
        match self {
            AddrParseError::Ipv4 => String::from_str("invalid IPv4 address syntax"),
            AddrParseError::Ipv6 => String::from_str("invalid IPv6 address syntax"),
        }
    }
}

impl IntParseError {
    /// The error's message.
    pub fn message(&self) -> (t: String)
        ensures
            t@ == int_parse_error_text(*self),
    {
        match self {
            IntParseError::Empty => String::from_str("cannot parse integer from empty string"),
            IntParseError::InvalidDigit => String::from_str("invalid digit found in string"),
            IntParseError::PosOverflow => String::from_str("number too large to fit in target type"),
        }
    }
}

impl IpAddressParseError {
    /// The error's message.
    pub fn message(&self) -> (t: String)
        ensures
            t@ == ip_address_parse_error_text(*self),
    {
        match self {
            IpAddressParseError::Addr(a) => {
                let mut t = String::from_str("address parsing failed: ");
                let m = a.message();
                t.append(m.as_str());
                t
            },
            IpAddressParseError::Prefix(p) => {
                let mut t = String::from_str("prefix parsing failed: ");
                let m = p.message();
                t.append(m.as_str());
                t
            },
            IpAddressParseError::Split => String::from_str("could not split into address and prefix"),
        }
    }
}

/// An IP address with its prefix.
#[derive(Clone, Copy, Debug, PartialEq, Eq)]
pub struct IpAddress<A> {
    pub address: A,
    pub prefix: u8,
}

impl<A> IpAddress<A> {
    /// Create the IP address from the address and prefix.
    pub fn new(address: A, prefix: u8) -> (ip: Self)
        ensures
            ip.address == address,
            ip.prefix == prefix,
    {
        Self { address, prefix }
    }
}

// ---------------------------------------------------------------------------
// Specification
// ---------------------------------------------------------------------------

/// The position of the last `c` in `s`.
pub open spec fn last_index_of(s: Seq<char>, c: char) -> Option<int>
    decreases s.len(),
{
    if s.len() == 0 {
        None
    } else if s.last() == c {
        Some(s.len() - 1)
    } else {
        last_index_of(s.drop_last(), c)
    }
}

/// Decimal digits read left to right into a `u8`: the first character that
/// is not a digit, or the first digit that takes the value past 255, decides
/// the error.
pub open spec fn decimal_u8(d: Seq<char>) -> Result<u8, IntParseError>
    decreases d.len(),
{
    if d.len() == 0 {
        Ok(0)
    } else {
        match decimal_u8(d.drop_last()) {
            Err(e) => Err(e),
            Ok(v) => if !is_dec_digit(d.last()) {
                Err(IntParseError::InvalidDigit)
            } else if v * 10 + digit_value(d.last()) > 255 {
                Err(IntParseError::PosOverflow)
            } else {
                Ok((v * 10 + digit_value(d.last())) as u8)
            },
        }
    }
}

/// A prefix length as std's `u8::from_str` reads it: an optional `+`, then
/// decimal digits.
pub open spec fn spec_parse_prefix(s: Seq<char>) -> Result<u8, IntParseError> {
    if s.len() == 0 {
        Err(IntParseError::Empty)
    } else if s == seq!['+'] || s == seq!['-'] {
        Err(IntParseError::InvalidDigit)
    } else if s[0] == '+' {
        decimal_u8(s.drop_first())
    } else {
        decimal_u8(s)
    }
}

/// `address/prefix` text split at the last `/`, the address read by
/// `parse_addr`; an address error comes before a prefix error.
pub open spec fn spec_parse_cidr<T>(
    s: Seq<char>,
    parse_addr: spec_fn(Seq<char>) -> Option<Seq<T>>,
    family: AddrParseError,
) -> Result<(Seq<T>, u8), IpAddressParseError> {
    match last_index_of(s, '/') {
        None => Err(IpAddressParseError::Split),
        Some(k) => match parse_addr(s.take(k)) {
            None => Err(IpAddressParseError::Addr(family)),
            Some(a) => match spec_parse_prefix(s.skip(k + 1)) {
                Err(e) => Err(IpAddressParseError::Prefix(e)),
                Ok(p) => Ok((a, p)),
            },
        },
    }
}

/// IPv4 `address/prefix` text.
pub open spec fn spec_parse_cidr_v4(s: Seq<char>) -> Result<(Seq<u8>, u8), IpAddressParseError> {
    spec_parse_cidr(s, |t: Seq<char>| spec_parse_ipv4(t), AddrParseError::Ipv4)
}

/// IPv6 `address/prefix` text.
pub open spec fn spec_parse_cidr_v6(s: Seq<char>) -> Result<(Seq<u16>, u8), IpAddressParseError> {
    spec_parse_cidr(s, |t: Seq<char>| spec_parse_ipv6(t), AddrParseError::Ipv6)
}

/// The text `address/prefix` of an address text and a prefix.
pub open spec fn cidr_text(address: Seq<char>, prefix: u8) -> Seq<char> {
    address + seq!['/'] + numeral(prefix as nat, 10)
}

// ---------------------------------------------------------------------------
// Laws
// ---------------------------------------------------------------------------

/// Digits denoting at most 255 read as that number.
pub proof fn lemma_decimal_u8_digits(d: Seq<char>)
    requires
        all_radix_digits(d, 10),
        digits_value(d, 10) <= 255,
    ensures
        decimal_u8(d) == Ok::<u8, IntParseError>(digits_value(d, 10) as u8),
    decreases d.len(),
{
    if d.len() > 0 {
        let p = d.drop_last();
        assert(all_radix_digits(p, 10)) by {
            assert forall|i: int| 0 <= i < p.len() implies crate::text::is_radix_digit(
                #[trigger] p[i],
                10,
            ) by {
                assert(p[i] == d[i]);
            }
        }
        lemma_digits_value_prefix_monotone(d, d.len() - 1, 10);
        assert(d.take(d.len() - 1) =~= p);
        lemma_decimal_u8_digits(p);
        assert(is_dec_digit(d[d.len() - 1]));
    }
}

/// The numeral of a prefix reads back as the prefix.
pub proof fn lemma_prefix_roundtrip(p: u8)
    ensures
        spec_parse_prefix(numeral(p as nat, 10)) == Ok::<u8, IntParseError>(p),
        lacks(numeral(p as nat, 10), '/'),
{
    let s = numeral(p as nat, 10);
    lemma_numeral(p as nat, 10);
    lemma_decimal_u8_digits(s);
    assert(s[0] != '+' && s[0] != '-');
    assert(s != seq!['+']);
    assert(s != seq!['-']);
}

/// Text split at the last `/`, when what follows lacks `/`.
pub proof fn lemma_last_slash(a: Seq<char>, b: Seq<char>)
    requires
        lacks(b, '/'),
    ensures
        last_index_of(a + seq!['/'] + b, '/') == Some(a.len() as int),
        (a + seq!['/'] + b).take(a.len() as int) == a,
        (a + seq!['/'] + b).skip(a.len() + 1int) == b,
    decreases b.len(),
{
    let s = a + seq!['/'] + b;
    if b.len() > 0 {
        let b0 = b.drop_last();
        assert(lacks(b0, '/')) by {
            assert forall|i: int| 0 <= i < b0.len() implies #[trigger] b0[i] != '/' by {
                assert(b0[i] == b[i]);
            }
        }
        lemma_last_slash(a, b0);
        assert(s.drop_last() =~= a + seq!['/'] + b0);
        assert(s.last() == b[b.len() - 1]);
    }
    assert(s.take(a.len() as int) =~= a);
    assert(s.skip(a.len() + 1int) =~= b);
}

/// Reading back the text of an IPv4 address with a prefix gives that
/// address and prefix.
pub proof fn lemma_cidr_v4_roundtrip(o: Seq<u8>, p: u8)
    requires
        o.len() == 4,
    ensures
        spec_parse_cidr_v4(cidr_text(ipv4_text(o), p)) == Ok::<(Seq<u8>, u8), IpAddressParseError>(
            (o, p),
        ),
{
    lemma_ipv4_text_roundtrip(o);
    lemma_prefix_roundtrip(p);
    lemma_last_slash(ipv4_text(o), numeral(p as nat, 10));
}

/// Reading back the text of an IPv6 address with a prefix gives that
/// address and prefix.
pub proof fn lemma_cidr_v6_roundtrip(g: Seq<u16>, p: u8)
    requires
        g.len() == 8,
    ensures
        spec_parse_cidr_v6(cidr_text(ipv6_text(g), p)) == Ok::<(Seq<u16>, u8), IpAddressParseError>(
            (g, p),
        ),
{
    lemma_ipv6_text_roundtrip(g);
    lemma_prefix_roundtrip(p);
    lemma_last_slash(ipv6_text(g), numeral(p as nat, 10));
}

/// Converting an address with a prefix into a bare address gives the address
/// unchanged, whatever the prefix.
pub proof fn lemma_into_address(ip4: IpAddress<Ipv4Addr>, ip6: IpAddress<Ipv6Addr>)
    ensures
        <Ipv4Addr as vstd::std_specs::convert::FromSpec<IpAddress<Ipv4Addr>>>::obeys_from_spec(),
        <Ipv4Addr as vstd::std_specs::convert::FromSpec<IpAddress<Ipv4Addr>>>::from_spec(ip4)
            == ip4.address,
        <Ipv6Addr as vstd::std_specs::convert::FromSpec<IpAddress<Ipv6Addr>>>::obeys_from_spec(),
        <Ipv6Addr as vstd::std_specs::convert::FromSpec<IpAddress<Ipv6Addr>>>::from_spec(ip6)
            == ip6.address,
{
}

/// Converting an address error or a prefix error into a parse error keeps it
/// unchanged, as the matching variant.
pub proof fn lemma_into_parse_error(a: AddrParseError, p: IntParseError)
    ensures
        <IpAddressParseError as vstd::std_specs::convert::FromSpec<AddrParseError>>::obeys_from_spec(),
        <IpAddressParseError as vstd::std_specs::convert::FromSpec<AddrParseError>>::from_spec(a)
            == IpAddressParseError::Addr(a),
        <IpAddressParseError as vstd::std_specs::convert::FromSpec<IntParseError>>::obeys_from_spec(),
        <IpAddressParseError as vstd::std_specs::convert::FromSpec<IntParseError>>::from_spec(p)
            == IpAddressParseError::Prefix(p),
{
}

/// Reading `address/prefix` agrees with reading the bare address, for every
/// spelling of the address: if the IPv4 reader reads `a` as `o`, then `a`, a
/// slash and the numeral of `p` read as `(o, p)`.
pub proof fn lemma_cidr_v4_reads_address(a: Seq<char>, p: u8)
    requires
        lacks(a, '/'),
        spec_parse_ipv4(a) is Some,
    ensures
        spec_parse_cidr_v4(cidr_text(a, p)) == Ok::<(Seq<u8>, u8), IpAddressParseError>(
            (spec_parse_ipv4(a)->0, p),
        ),
{
    lemma_prefix_roundtrip(p);
    lemma_last_slash(a, numeral(p as nat, 10));
}

/// Reading `address/prefix` agrees with reading the bare address, for every
/// spelling of the address: if the IPv6 reader reads `a` as `g`, then `a`, a
/// slash and the numeral of `p` read as `(g, p)`.
pub proof fn lemma_cidr_v6_reads_address(a: Seq<char>, p: u8)
    requires
        lacks(a, '/'),
        spec_parse_ipv6(a) is Some,
    ensures
        spec_parse_cidr_v6(cidr_text(a, p)) == Ok::<(Seq<u16>, u8), IpAddressParseError>(
            (spec_parse_ipv6(a)->0, p),
        ),
{
    lemma_prefix_roundtrip(p);
    lemma_last_slash(a, numeral(p as nat, 10));
}

// ---------------------------------------------------------------------------
// Executable reading and writing
// ---------------------------------------------------------------------------

/// The position of the last `/` in `v`.
fn find_last_slash(v: &Vec<char>) -> (r: Option<usize>)
    ensures
        match r {
            Some(k) => last_index_of(v@, '/') == Some(k as int) && k < v.len(),
            None => last_index_of(v@, '/') is None,
        },
{
    let mut i: usize = v.len();
    assert(v@.take(i as int) =~= v@);
    while i > 0
        invariant
            i <= v.len(),
            last_index_of(v@, '/') == last_index_of(v@.take(i as int), '/'),
        decreases i,
    {
        let ghost t = v@.take(i as int);
        assert(t.drop_last() =~= v@.take(i - 1));
        if v[i - 1] == '/' {
            return Some(i - 1);
        }
        i = i - 1;
    }
    None
}

/// Reads decimal digits `v[a..b]` into a `u8`.
fn parse_decimal_u8_at(v: &Vec<char>, a: usize, b: usize) -> (r: Result<u8, IntParseError>)
    requires
        a <= b <= v.len(),
    ensures
        r == decimal_u8(v@.subrange(a as int, b as int)),
{
    let ghost d = v@.subrange(a as int, b as int);
    let mut val: u32 = 0;
    let mut i: usize = a;
    assert(d.take(0) =~= Seq::<char>::empty());
    while i < b
        invariant
            a <= i <= b <= v.len(),
            d == v@.subrange(a as int, b as int),
            decimal_u8(d.take(i - a)) == Ok::<u8, IntParseError>(val as u8),
            val <= 255,
        decreases b - i,
    {
        let ghost t = d.take(i - a + 1);
        assert(t.drop_last() =~= d.take(i - a));
        assert(t.last() == v@[i as int]);
        match crate::text::radix_digit(v[i], 10) {
            None => {
                proof {
                    lemma_decimal_u8_err_extends(d, i - a + 1);
                }
                return Err(IntParseError::InvalidDigit);
            },
            Some(x) => {
                if val * 10 + x > 255 {
                    proof {
                        lemma_decimal_u8_err_extends(d, i - a + 1);
                    }
                    return Err(IntParseError::PosOverflow);
                }
                val = val * 10 + x;
            },
        }
        i = i + 1;
    }
    assert(d.take(b - a) =~= d);
    Ok(val as u8)
}

/// Once reading digits fails, reading more of them fails the same way.
proof fn lemma_decimal_u8_err_extends(d: Seq<char>, k: int)
    requires
        0 <= k <= d.len(),
        decimal_u8(d.take(k)) is Err,
    ensures
        decimal_u8(d) == decimal_u8(d.take(k)),
    decreases d.len() - k,
{
    if k < d.len() {
        let t = d.take(k + 1);
        assert(t.drop_last() =~= d.take(k));
        lemma_decimal_u8_err_extends(d, k + 1);
    } else {
        assert(d.take(k) =~= d);
    }
}

/// Reads a prefix length, as std's `u8::from_str` does.
pub fn parse_prefix(s: &str) -> (r: Result<u8, IntParseError>)
    ensures
        r == spec_parse_prefix(s@),
{
    let v = chars_of(s);
    let n = v.len();
    if n == 0 {
        return Err(IntParseError::Empty);
    }
    if n == 1 && (v[0] == '+' || v[0] == '-') {
        assert(s@ =~= seq![v@[0]]);
        return Err(IntParseError::InvalidDigit);
    }
    proof {
        if n == 1 {
            assert(s@ != seq!['+'] && s@ != seq!['-']) by {
                if s@ == seq!['+'] || s@ == seq!['-'] {
                    assert(s@[0] == v@[0]);
                }
            }
        } else {
            assert(s@.len() != 1);
            assert(s@ != seq!['+']);
            assert(s@ != seq!['-']);
        }
    }
    if v[0] == '+' {
        assert(v@.subrange(1, n as int) =~= s@.drop_first());
        parse_decimal_u8_at(&v, 1, n)
    } else {
        assert(v@.subrange(0, n as int) =~= s@);
        parse_decimal_u8_at(&v, 0, n)
    }
}

impl IpAddress<Ipv4Addr> {
    /// Reads `address/prefix` text with an IPv4 address, splitting at the
    /// last `/`.
    pub fn parse_text(s: &str) -> (r: Result<Self, IpAddressParseError>)
        ensures
            match r {
                Ok(ip) => spec_parse_cidr_v4(s@) == Ok::<(Seq<u8>, u8), IpAddressParseError>(
                    (ip.address@, ip.prefix),
                ),
                Err(e) => spec_parse_cidr_v4(s@) == Err::<(Seq<u8>, u8), IpAddressParseError>(e),
            },
    {
        let v = chars_of(s);
        match find_last_slash(&v) {
            None => Err(IpAddressParseError::Split),
            Some(k) => {
                let address = s.substring_char(0, k);
                let prefix = s.substring_char(k + 1, v.len());
                assert(address@ =~= s@.take(k as int));
                assert(prefix@ =~= s@.skip(k + 1));
                let address = match Ipv4Addr::parse_text(address) {
                    Ok(a) => a,
                    Err(e) => {
                        return Err(IpAddressParseError::from(e));
                    },
                };
                let prefix = match parse_prefix(prefix) {
                    Ok(p) => p,
                    Err(e) => {
                        return Err(IpAddressParseError::from(e));
                    },
                };
                Ok(Self { address, prefix })
            },
        }
    }

    /// The text `address/prefix`, as the `Display` of the address with a
    /// slash and the prefix in decimal.
    pub fn to_string(&self) -> (t: String)
        ensures
            t@ == cidr_text(ipv4_text(self.address@), self.prefix),
    {
        let mut t = String::new();
        push_ipv4_text(&mut t, &self.address);
        push_char(&mut t, '/');
        push_numeral(&mut t, self.prefix as u32, 10);
        assert(t@ =~= cidr_text(ipv4_text(self.address@), self.prefix));
        t
    }

    /// The `Debug` text, `address/prefix`: std's `Debug` of an address writes
    /// the same text as its `Display`.
    pub fn to_debug_string(&self) -> (t: String)
        ensures
            t@ == cidr_text(ipv4_text(self.address@), self.prefix),
    {
        self.to_string()
    }
}

impl IpAddress<Ipv6Addr> {
    /// Reads `address/prefix` text with an IPv6 address, splitting at the
    /// last `/`.
    pub fn parse_text(s: &str) -> (r: Result<Self, IpAddressParseError>)
        ensures
            match r {
                Ok(ip) => spec_parse_cidr_v6(s@) == Ok::<(Seq<u16>, u8), IpAddressParseError>(
                    (ip.address@, ip.prefix),
                ),
                Err(e) => spec_parse_cidr_v6(s@) == Err::<(Seq<u16>, u8), IpAddressParseError>(e),
            },
    {
        let v = chars_of(s);
        match find_last_slash(&v) {
            None => Err(IpAddressParseError::Split),
            Some(k) => {
                let address = s.substring_char(0, k);
                let prefix = s.substring_char(k + 1, v.len());
                assert(address@ =~= s@.take(k as int));
                assert(prefix@ =~= s@.skip(k + 1));
                let address = match Ipv6Addr::parse_text(address) {
                    Ok(a) => a,
                    Err(e) => {
                        return Err(IpAddressParseError::from(e));
                    },
                };
                let prefix = match parse_prefix(prefix) {
                    Ok(p) => p,
                    Err(e) => {
                        return Err(IpAddressParseError::from(e));
                    },
                };
                Ok(Self { address, prefix })
            },
        }
    }

    /// The text `address/prefix`, as the `Display` of the address with a
    /// slash and the prefix in decimal.
    pub fn to_string(&self) -> (t: String)
        ensures
            t@ == cidr_text(ipv6_text(self.address@), self.prefix),
    {
        let mut t = String::new();
        push_ipv6_text(&mut t, &self.address);
        push_char(&mut t, '/');
        push_numeral(&mut t, self.prefix as u32, 10);
        assert(t@ =~= cidr_text(ipv6_text(self.address@), self.prefix));
        t
    }

    /// The `Debug` text, `address/prefix`: std's `Debug` of an address writes
    /// the same text as its `Display`.
    pub fn to_debug_string(&self) -> (t: String)
        ensures
            t@ == cidr_text(ipv6_text(self.address@), self.prefix),
    {
        self.to_string()
    }
}

impl From<IpAddress<Ipv4Addr>> for Ipv4Addr {
    fn from(value: IpAddress<Ipv4Addr>) -> (a: Self)
        ensures
            a == value.address,
    {
        value.address
    }
}

impl vstd::std_specs::convert::FromSpecImpl<IpAddress<Ipv4Addr>> for Ipv4Addr {
    open spec fn obeys_from_spec() -> bool {
        true
    }

    open spec fn from_spec(v: IpAddress<Ipv4Addr>) -> Self {
        v.address
    }
}

impl From<IpAddress<Ipv6Addr>> for Ipv6Addr {
    fn from(value: IpAddress<Ipv6Addr>) -> (a: Self)
        ensures
            a == value.address,
    {
        value.address
    }
}

impl vstd::std_specs::convert::FromSpecImpl<IpAddress<Ipv6Addr>> for Ipv6Addr {
    open spec fn obeys_from_spec() -> bool {
        true
    }

    open spec fn from_spec(v: IpAddress<Ipv6Addr>) -> Self {
        v.address
    }
}

} // verus!

verus! {

impl std::str::FromStr for Ipv4Addr {
    type Err = AddrParseError;

    fn from_str(s: &str) -> (r: Result<Self, Self::Err>)
        ensures
            match r {
                Ok(addr) => spec_parse_ipv4(s@) == Some(addr@),
                Err(e) => spec_parse_ipv4(s@) is None && e == AddrParseError::Ipv4,
            },
    {
        Ipv4Addr::parse_text(s)
    }
}

impl std::str::FromStr for Ipv6Addr {
    type Err = AddrParseError;

    fn from_str(s: &str) -> (r: Result<Self, Self::Err>)
        ensures
            match r {
                Ok(addr) => spec_parse_ipv6(s@) == Some(addr@),
                Err(e) => spec_parse_ipv6(s@) is None && e == AddrParseError::Ipv6,
            },
    {
        Ipv6Addr::parse_text(s)
    }
}

impl std::str::FromStr for IpAddress<Ipv4Addr> {
    type Err = IpAddressParseError;

    fn from_str(s: &str) -> (r: Result<Self, Self::Err>)
        ensures
            match r {
                Ok(ip) => spec_parse_cidr_v4(s@) == Ok::<(Seq<u8>, u8), IpAddressParseError>(
                    (ip.address@, ip.prefix),
                ),
                Err(e) => spec_parse_cidr_v4(s@) == Err::<(Seq<u8>, u8), IpAddressParseError>(e),
            },
    {
        Self::parse_text(s)
    }
}

impl std::str::FromStr for IpAddress<Ipv6Addr> {
    type Err = IpAddressParseError;

    fn from_str(s: &str) -> (r: Result<Self, Self::Err>)
        ensures
            match r {
                Ok(ip) => spec_parse_cidr_v6(s@) == Ok::<(Seq<u16>, u8), IpAddressParseError>(
                    (ip.address@, ip.prefix),
                ),
                Err(e) => spec_parse_cidr_v6(s@) == Err::<(Seq<u16>, u8), IpAddressParseError>(e),
            },
    {
        Self::parse_text(s)
    }
}

} // verus!
