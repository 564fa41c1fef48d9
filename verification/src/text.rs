//! Character-level building blocks shared by the address parsers and
//! formatters: digits, numerals, and splitting/joining on a separator.
use vstd::prelude::*;

verus! {

// ---------------------------------------------------------------------------
// Digits
// ---------------------------------------------------------------------------

/// `c` is one of `0`-`9`.
pub open spec fn is_dec_digit(c: char) -> bool {
    '0' <= c && c <= '9'
}

/// `c` is one of `0`-`9`, `a`-`f`, `A`-`F`.
pub open spec fn is_hex_digit(c: char) -> bool {
    is_dec_digit(c) || ('a' <= c && c <= 'f') || ('A' <= c && c <= 'F')
}

/// `c` is a digit in base `radix` (10 or 16).
pub open spec fn is_radix_digit(c: char, radix: nat) -> bool {
    if radix == 10 {
        is_dec_digit(c)
    } else {
        is_hex_digit(c)
    }
}

/// The value of a digit character (either case for the letters).
pub open spec fn digit_value(c: char) -> nat {
    if is_dec_digit(c) {
        (c as int - '0' as int) as nat
    } else if 'a' <= c && c <= 'f' {
        (c as int - 'a' as int + 10) as nat
    } else if 'A' <= c && c <= 'F' {
        (c as int - 'A' as int + 10) as nat
    } else {
        0
    }
}

/// The character for a digit value below 16 (lower-case letters).
pub open spec fn digit_char(d: nat) -> char {
    if d == 0 {
        '0'
    } else if d == 1 {
        '1'
    } else if d == 2 {
        '2'
    } else if d == 3 {
        '3'
    } else if d == 4 {
        '4'
    } else if d == 5 {
        '5'
    } else if d == 6 {
        '6'
    } else if d == 7 {
        '7'
    } else if d == 8 {
        '8'
    } else if d == 9 {
        '9'
    } else if d == 10 {
        'a'
    } else if d == 11 {
        'b'
    } else if d == 12 {
        'c'
    } else if d == 13 {
        'd'
    } else if d == 14 {
        'e'
    } else {
        'f'
    }
}

/// Every character of `s` is a digit in base `radix`.
pub open spec fn all_radix_digits(s: Seq<char>, radix: nat) -> bool {
    forall|i: int| 0 <= i < s.len() ==> is_radix_digit(#[trigger] s[i], radix)
}

/// The number that the digits `s` denote in base `radix`, most significant first.
pub open spec fn digits_value(s: Seq<char>, radix: nat) -> nat
    decreases s.len(),
{
    if s.len() == 0 {
        0
    } else {
        digits_value(s.drop_last(), radix) * radix + digit_value(s.last())
    }
}

/// `radix` to the power `k`.
pub open spec fn pow_nat(radix: nat, k: nat) -> nat
    decreases k,
{
    if k == 0 {
        1
    } else {
        radix * pow_nat(radix, (k - 1) as nat)
    }
}

/// The canonical numeral of `n` in base `radix`: no leading zeros, lower-case
/// letters, and `0` for zero.
pub open spec fn numeral(n: nat, radix: nat) -> Seq<char>
    decreases n,
{
    if radix < 2 {
        seq![]
    } else if n < radix {
        seq![digit_char(n)]
    } else {
        proof {
            lemma_div_smaller(n, radix);
        }
        numeral(n / radix, radix).push(digit_char(n % radix))
    }
}

pub proof fn lemma_div_smaller(n: nat, radix: nat)
    requires
        radix >= 2,
        n >= radix,
    ensures
        n / radix < n,
        n / radix >= 1,
{
    assert(n / radix < n && n / radix >= 1) by (nonlinear_arith)
        requires
            radix >= 2,
            n >= radix,
    ;
}

pub proof fn lemma_digit_char(d: nat)
    requires
        d < 16,
    ensures
        is_hex_digit(digit_char(d)),
        digit_value(digit_char(d)) == d,
        d < 10 <==> is_dec_digit(digit_char(d)),
        ('0' <= digit_char(d) <= '9') || ('a' <= digit_char(d) <= 'f'),
        digit_char(d) != ':' && digit_char(d) != '.' && digit_char(d) != '/',
        digit_char(d) != '+',
        (digit_char(d) == '0') == (d == 0),
{
}

/// The numeral of `n` is a non-empty string of digits denoting `n`, without a
/// leading zero unless `n` is zero.
pub proof fn lemma_numeral(n: nat, radix: nat)
    requires
        radix == 10 || radix == 16,
    ensures
        numeral(n, radix).len() >= 1,
        all_radix_digits(numeral(n, radix), radix),
        digits_value(numeral(n, radix), radix) == n,
        numeral(n, radix)[0] == '0' ==> n == 0,
        forall|i: int|
            0 <= i < numeral(n, radix).len() ==> {
                let c = #[trigger] numeral(n, radix)[i];
                c != ':' && c != '.' && c != '/' && c != '+' && is_hex_digit(c)
            },
        forall|i: int|
            0 <= i < numeral(n, radix).len() ==> {
                let c = #[trigger] numeral(n, radix)[i];
                ('0' <= c && c <= '9') || ('a' <= c && c <= 'f')
            },
    decreases n,
{
    let s = numeral(n, radix);
    if n < radix {
        lemma_digit_char(n);
        assert(s.drop_last() =~= Seq::<char>::empty());
        assert(digits_value(s.drop_last(), radix) == 0);
        assert(digits_value(s, radix) == 0 * radix + digit_value(s.last()));
    } else {
        lemma_div_smaller(n, radix);
        lemma_numeral(n / radix, radix);
        let q = n / radix;
        let r = n % radix;
        assert(r < radix) by (nonlinear_arith)
            requires
                radix >= 2,
                r == n % radix,
        ;
        assert(q * radix + r == n) by (nonlinear_arith)
            requires
                radix >= 2,
                q == n / radix,
                r == n % radix,
        ;
        lemma_digit_char(r);
        assert(s.drop_last() =~= numeral(q, radix));
        assert(s.last() == digit_char(r));
        assert(digits_value(s, radix) == digits_value(s.drop_last(), radix) * radix + digit_value(s.last()));
        assert(s[0] == numeral(q, radix)[0]);
        if s[0] == '0' {
            assert(q == 0);
            assert(false);
        }
    }
}

/// Numerals of small numbers are short.
pub proof fn lemma_numeral_len(n: nat, radix: nat, k: nat)
    requires
        radix == 10 || radix == 16,
        n < pow_nat(radix, k),
        k >= 1,
    ensures
        numeral(n, radix).len() <= k,
    decreases k,
{
    if n >= radix {
        lemma_div_smaller(n, radix);
        if k == 1 {
            assert(pow_nat(radix, 0) == 1);
            assert(false);
        }
        let km = (k - 1) as nat;
        assert(pow_nat(radix, k) == radix * pow_nat(radix, km));
        let p = pow_nat(radix, km);
        assert(n / radix < p) by (nonlinear_arith)
            requires
                n < radix * p,
                radix >= 2,
        ;
        lemma_numeral_len(n / radix, radix, km);
    }
}

/// The value of `k` digits is below `radix` to the power `k`.
pub proof fn lemma_digits_value_bound(s: Seq<char>, radix: nat)
    requires
        radix == 10 || radix == 16,
        all_radix_digits(s, radix),
    ensures
        digits_value(s, radix) < pow_nat(radix, s.len()),
    decreases s.len(),
{
    if s.len() > 0 {
        let p = s.drop_last();
        assert(all_radix_digits(p, radix)) by {
            assert forall|i: int| 0 <= i < p.len() implies is_radix_digit(#[trigger] p[i], radix) by {
                assert(p[i] == s[i]);
            }
        }
        lemma_digits_value_bound(p, radix);
        assert(is_radix_digit(s[s.len() - 1], radix));
        let d = digit_value(s.last());
        assert(d < radix);
        let v = digits_value(p, radix);
        let q = pow_nat(radix, p.len());
        assert(pow_nat(radix, s.len()) == radix * q);
        assert(v * radix + d < radix * q) by (nonlinear_arith)
            requires
                v < q,
                d < radix,
        ;
    }
}

/// A prefix of digits denotes no more than the whole.
pub proof fn lemma_digits_value_prefix_monotone(s: Seq<char>, k: int, radix: nat)
    requires
        radix == 10 || radix == 16,
        0 <= k <= s.len(),
        all_radix_digits(s, radix),
    ensures
        digits_value(s.take(k), radix) <= digits_value(s, radix),
    decreases s.len() - k,
{
    if k < s.len() {
        lemma_digits_value_prefix_monotone(s, k + 1, radix);
        let t = s.take(k + 1);
        assert(t.drop_last() =~= s.take(k));
        let a = digits_value(s.take(k), radix);
        let d = digit_value(t.last());
        assert(a <= a * radix + d) by (nonlinear_arith)
            requires
                radix >= 2,
        ;
    } else {
        assert(s.take(k) =~= s);
    }
}

// ---------------------------------------------------------------------------
// Splitting and joining on a separator
// ---------------------------------------------------------------------------

/// The fields of `s` between occurrences of `sep`; always at least one field.
pub open spec fn split(s: Seq<char>, sep: char) -> Seq<Seq<char>>
    decreases s.len(),
{
    if s.len() == 0 {
        seq![Seq::<char>::empty()]
    } else {
        let p = split(s.drop_last(), sep);
        if s.last() == sep {
            p.push(Seq::<char>::empty())
        } else {
            p.update(p.len() - 1, p.last().push(s.last()))
        }
    }
}

/// The fields `parts` with `sep` between each two of them.
pub open spec fn join(parts: Seq<Seq<char>>, sep: char) -> Seq<char>
    decreases parts.len(),
{
    if parts.len() == 0 {
        Seq::<char>::empty()
    } else if parts.len() == 1 {
        parts[0]
    } else {
        join(parts.drop_last(), sep).push(sep) + parts.last()
    }
}

/// `s` does not contain the character `c`.
pub open spec fn lacks(s: Seq<char>, c: char) -> bool {
    forall|i: int| 0 <= i < s.len() ==> #[trigger] s[i] != c
}

pub proof fn lemma_split_len(s: Seq<char>, sep: char)
    ensures
        split(s, sep).len() >= 1,
    decreases s.len(),
{
    if s.len() > 0 {
        lemma_split_len(s.drop_last(), sep);
    }
}

/// Appending text without a separator extends the last field.
pub proof fn lemma_split_append(s: Seq<char>, t: Seq<char>, sep: char)
    requires
        lacks(t, sep),
    ensures
        split(s + t, sep) == split(s, sep).update(
            split(s, sep).len() - 1,
            split(s, sep).last() + t,
        ),
    decreases t.len(),
{
    lemma_split_len(s, sep);
    if t.len() == 0 {
        assert(s + t =~= s);
        assert(split(s, sep).last() + t =~= split(s, sep).last());
        assert(split(s, sep).update(split(s, sep).len() - 1, split(s, sep).last() + t) =~= split(
            s,
            sep,
        ));
    } else {
        let t0 = t.drop_last();
        assert(lacks(t0, sep)) by {
            assert forall|i: int| 0 <= i < t0.len() implies #[trigger] t0[i] != sep by {
                assert(t0[i] == t[i]);
            }
        }
        lemma_split_append(s, t0, sep);
        assert((s + t).drop_last() =~= s + t0);
        assert((s + t).last() == t.last());
        assert(t[t.len() - 1] != sep);
        let p = split(s, sep);
        assert(p.last() + t =~= (p.last() + t0).push(t.last()));
        assert(split(s + t, sep) =~= p.update(p.len() - 1, p.last() + t));
    }
}

/// Splitting a join gives back the fields.
pub proof fn lemma_split_join(parts: Seq<Seq<char>>, sep: char)
    requires
        parts.len() >= 1,
        forall|j: int| 0 <= j < parts.len() ==> lacks(#[trigger] parts[j], sep),
    ensures
        split(join(parts, sep), sep) == parts,
    decreases parts.len(),
{
    if parts.len() == 1 {
        lemma_split_append(Seq::<char>::empty(), parts[0], sep);
        assert(Seq::<char>::empty() + parts[0] =~= parts[0]);
        assert(split(parts[0], sep) =~= parts);
    } else {
        let init = parts.drop_last();
        assert forall|j: int| 0 <= j < init.len() implies lacks(#[trigger] init[j], sep) by {
            assert(init[j] == parts[j]);
        }
        lemma_split_join(init, sep);
        let head = join(init, sep).push(sep);
        assert(head.drop_last() =~= join(init, sep));
        assert(split(head, sep) =~= init.push(Seq::<char>::empty()));
        assert(lacks(parts[parts.len() - 1], sep));
        lemma_split_append(head, parts.last(), sep);
        assert(Seq::<char>::empty() + parts.last() =~= parts.last());
        assert(split(join(parts, sep), sep) =~= parts);
    }
}

/// A join of fields that lack a character lacks it too, if the separator differs.
pub proof fn lemma_join_lacks(parts: Seq<Seq<char>>, sep: char, c: char)
    requires
        c != sep,
        forall|j: int| 0 <= j < parts.len() ==> lacks(#[trigger] parts[j], c),
    ensures
        lacks(join(parts, sep), c),
    decreases parts.len(),
{
    if parts.len() == 1 {
        assert(lacks(parts[0], c));
    } else if parts.len() > 1 {
        let init = parts.drop_last();
        assert forall|j: int| 0 <= j < init.len() implies lacks(#[trigger] init[j], c) by {
            assert(init[j] == parts[j]);
        }
        lemma_join_lacks(init, sep, c);
        let s = join(parts, sep);
        let a = join(init, sep).push(sep);
        assert(lacks(parts[parts.len() - 1], c));
        assert forall|i: int| 0 <= i < s.len() implies #[trigger] s[i] != c by {
            if i < a.len() {
                assert(s[i] == a[i]);
                if i < a.len() - 1 {
                    assert(a[i] == join(init, sep)[i]);
                }
            } else {
                assert(s[i] == parts.last()[i - a.len()]);
            }
        }
    }
}

/// Joining one more field.
pub proof fn lemma_join_push(parts: Seq<Seq<char>>, p: Seq<char>, sep: char)
    requires
        parts.len() >= 1,
    ensures
        join(parts.push(p), sep) == join(parts, sep).push(sep) + p,
{
    assert(parts.push(p).drop_last() =~= parts);
}

/// Joining the fields of a split gives back the text.
pub proof fn lemma_join_split(s: Seq<char>, sep: char)
    ensures
        join(split(s, sep), sep) == s,
    decreases s.len(),
{
    if s.len() == 0 {
        assert(join(split(s, sep), sep) =~= s);
    } else {
        let t = s.drop_last();
        let p = split(t, sep);
        lemma_join_split(t, sep);
        lemma_split_len(t, sep);
        if s.last() == sep {
            lemma_join_push(p, Seq::<char>::empty(), sep);
            assert(join(p, sep).push(sep) + Seq::<char>::empty() =~= s);
        } else {
            let q = p.update(p.len() - 1, p.last().push(s.last()));
            if p.len() == 1 {
                assert(join(q, sep) == q[0]);
                assert(q[0] =~= s);
            } else {
                assert(q.drop_last() =~= p.drop_last());
                assert(join(q, sep) == join(p.drop_last(), sep).push(sep) + q.last());
                assert(join(p, sep) == join(p.drop_last(), sep).push(sep) + p.last());
                assert(join(q, sep) =~= join(p, sep).push(s.last()));
            }
        }
    }
}

pub proof fn lemma_dec_digit_char(c: char)
    requires
        is_dec_digit(c),
    ensures
        digit_char(digit_value(c)) == c,
        digit_value(c) < 10,
{
}

/// Decimal digits without a leading zero denote a number of at least one,
/// unless they are the single digit `0`.
pub proof fn lemma_digits_value_positive(s: Seq<char>)
    requires
        s.len() >= 1,
        all_radix_digits(s, 10),
        s[0] != '0',
    ensures
        digits_value(s, 10) >= 1,
    decreases s.len(),
{
    let t = s.drop_last();
    if s.len() > 1 {
        assert(all_radix_digits(t, 10)) by {
            assert forall|i: int| 0 <= i < t.len() implies is_radix_digit(#[trigger] t[i], 10) by {
                assert(t[i] == s[i]);
            }
        }
        assert(t[0] == s[0]);
        lemma_digits_value_positive(t);
    } else {
        assert(is_dec_digit(s[0]));
    }
}

/// Decimal digits without a leading zero are the numeral of their value.
pub proof fn lemma_numeral_of_digits(s: Seq<char>)
    requires
        s.len() >= 1,
        all_radix_digits(s, 10),
        s.len() == 1 || s[0] != '0',
    ensures
        numeral(digits_value(s, 10), 10) == s,
    decreases s.len(),
{
    let t = s.drop_last();
    let c = s.last();
    assert(is_dec_digit(s[s.len() - 1]));
    lemma_dec_digit_char(c);
    let d = digit_value(c);
    if s.len() == 1 {
        assert(t =~= Seq::<char>::empty());
        assert(digits_value(t, 10) == 0);
        assert(digits_value(s, 10) == d);
        assert(numeral(d, 10) =~= s);
    } else {
        assert(all_radix_digits(t, 10)) by {
            assert forall|i: int| 0 <= i < t.len() implies is_radix_digit(#[trigger] t[i], 10) by {
                assert(t[i] == s[i]);
            }
        }
        assert(t[0] == s[0]);
        lemma_numeral_of_digits(t);
        lemma_digits_value_positive(t);
        let q = digits_value(t, 10);
        let n = digits_value(s, 10);
        assert(n == q * 10 + d);
        assert(n / 10 == q && n % 10 == d && n >= 10) by (nonlinear_arith)
            requires
                n == q * 10 + d,
                d < 10,
                q >= 1,
        ;
        assert(numeral(n, 10) == numeral(q, 10).push(digit_char(d)));
        assert(numeral(n, 10) =~= s);
    }
}

/// Hex digits are `0`-`9`, `a`-`f` and `A`-`F`, of either case, with their
/// usual values; no other character is one.
pub proof fn lemma_hex_digits(c: char)
    ensures
        '0' <= c <= '9' ==> is_hex_digit(c) && digit_value(c) == c as int - '0' as int,
        'a' <= c <= 'f' ==> is_hex_digit(c) && digit_value(c) == c as int - 'a' as int + 10,
        'A' <= c <= 'F' ==> is_hex_digit(c) && digit_value(c) == c as int - 'A' as int + 10,
        !('0' <= c <= '9' || 'a' <= c <= 'f' || 'A' <= c <= 'F') ==> !is_hex_digit(c),
        is_dec_digit(c) <==> '0' <= c <= '9',
{
}

/// `c` with an upper-case ASCII letter turned into its lower-case one.
pub open spec fn to_lower(c: char) -> char {
    if 'A' <= c && c <= 'Z' {
        (c as int + 32) as char
    } else {
        c
    }
}

/// `s` with every upper-case ASCII letter lower-cased.
pub open spec fn lower_text(s: Seq<char>) -> Seq<char> {
    s.map_values(|c: char| to_lower(c))
}

/// Lower-casing keeps digits, their values, and the punctuation of address
/// text.
pub proof fn lemma_to_lower(c: char)
    ensures
        is_dec_digit(to_lower(c)) == is_dec_digit(c),
        is_dec_digit(c) ==> to_lower(c) == c,
        is_hex_digit(to_lower(c)) == is_hex_digit(c),
        is_hex_digit(c) ==> digit_value(to_lower(c)) == digit_value(c),
        (to_lower(c) == ':') == (c == ':'),
        (to_lower(c) == '.') == (c == '.'),
        (to_lower(c) == '/') == (c == '/'),
{
}

/// Lower-casing commutes with taking a prefix, dropping the last character,
/// and taking a suffix.
pub proof fn lemma_lower_text_slices(s: Seq<char>)
    ensures
        lower_text(s).len() == s.len(),
        forall|i: int| 0 <= i < s.len() ==> #[trigger] lower_text(s)[i] == to_lower(s[i]),
        s.len() > 0 ==> lower_text(s).drop_last() == lower_text(s.drop_last()),
        s.len() > 0 ==> lower_text(s).last() == to_lower(s.last()),
        forall|k: int| 0 <= k <= s.len() ==> #[trigger] lower_text(s).take(k) == lower_text(s.take(k)),
        forall|k: int| 0 <= k <= s.len() ==> #[trigger] lower_text(s).skip(k) == lower_text(s.skip(k)),
{
    if s.len() > 0 {
        assert(lower_text(s).drop_last() =~= lower_text(s.drop_last()));
    }
    assert forall|k: int| 0 <= k <= s.len() implies #[trigger] lower_text(s).take(k) == lower_text(
        s.take(k),
    ) by {
        assert(lower_text(s).take(k) =~= lower_text(s.take(k)));
    }
    assert forall|k: int| 0 <= k <= s.len() implies #[trigger] lower_text(s).skip(k) == lower_text(
        s.skip(k),
    ) by {
        assert(lower_text(s).skip(k) =~= lower_text(s.skip(k)));
    }
}

/// The fields of lower-cased text are the lower-cased fields, for a
/// separator that is not a letter.
pub proof fn lemma_lower_split(s: Seq<char>, sep: char)
    requires
        sep == ':' || sep == '.',
    ensures
        split(lower_text(s), sep) == split(s, sep).map_values(|p: Seq<char>| lower_text(p)),
    decreases s.len(),
{
    lemma_lower_text_slices(s);
    if s.len() == 0 {
        assert(lower_text(s) =~= s);
        assert(lower_text(Seq::<char>::empty()) =~= Seq::<char>::empty());
        assert(split(s, sep).map_values(|p: Seq<char>| lower_text(p)) =~= seq![
            Seq::<char>::empty(),
        ]);
    } else {
        let t = s.drop_last();
        lemma_lower_split(t, sep);
        lemma_split_len(t, sep);
        lemma_to_lower(s.last());
        let p = split(t, sep);
        let lp = p.map_values(|q: Seq<char>| lower_text(q));
        let ls = lower_text(s);
        assert(ls.drop_last() == lower_text(t));
        assert(ls.last() == to_lower(s.last()));
        if s.last() == sep {
            assert(split(ls, sep) == lp.push(Seq::<char>::empty()));
            assert(lower_text(Seq::<char>::empty()) =~= Seq::<char>::empty());
            assert(lp.push(Seq::<char>::empty()) =~= p.push(Seq::<char>::empty()).map_values(
                |q: Seq<char>| lower_text(q),
            ));
        } else {
            let np = p.update(p.len() - 1, p.last().push(s.last()));
            assert(split(ls, sep) == lp.update(lp.len() - 1, lp.last().push(to_lower(s.last()))));
            assert(lower_text(p.last().push(s.last())) =~= lower_text(p.last()).push(
                to_lower(s.last()),
            ));
            assert(lp.update(lp.len() - 1, lp.last().push(to_lower(s.last()))) =~= np.map_values(
                |q: Seq<char>| lower_text(q),
            ));
        }
    }
}

/// Lower-casing keeps which texts are digits, and the value they denote.
pub proof fn lemma_lower_digits(s: Seq<char>, radix: nat)
    requires
        radix == 10 || radix == 16,
    ensures
        all_radix_digits(lower_text(s), radix) == all_radix_digits(s, radix),
        all_radix_digits(s, radix) ==> digits_value(lower_text(s), radix) == digits_value(s, radix),
        radix == 10 && all_radix_digits(s, radix) ==> lower_text(s) == s,
    decreases s.len(),
{
    lemma_lower_text_slices(s);
    let ls = lower_text(s);
    assert forall|i: int| 0 <= i < s.len() implies is_radix_digit(#[trigger] ls[i], radix)
        == is_radix_digit(s[i], radix) by {
        lemma_to_lower(s[i]);
    }
    if all_radix_digits(s, radix) {
        assert forall|i: int| 0 <= i < ls.len() implies is_radix_digit(#[trigger] ls[i], radix) by {
            assert(is_radix_digit(s[i], radix));
        }
    }
    if all_radix_digits(ls, radix) {
        assert forall|i: int| 0 <= i < s.len() implies is_radix_digit(#[trigger] s[i], radix) by {
            assert(is_radix_digit(ls[i], radix));
        }
    }
    if s.len() > 0 && all_radix_digits(s, radix) {
        let t = s.drop_last();
        assert(all_radix_digits(t, radix)) by {
            assert forall|i: int| 0 <= i < t.len() implies is_radix_digit(#[trigger] t[i], radix) by {
                assert(t[i] == s[i]);
            }
        }
        lemma_lower_digits(t, radix);
        assert(is_radix_digit(s[s.len() - 1], radix));
        lemma_to_lower(s.last());
    }
    if radix == 10 && all_radix_digits(s, radix) {
        assert forall|i: int| 0 <= i < s.len() implies #[trigger] ls[i] == s[i] by {
            assert(is_radix_digit(s[i], radix));
            lemma_to_lower(s[i]);
        }
        assert(ls =~= s);
    }
}

// ---------------------------------------------------------------------------
// Executable helpers
// ---------------------------------------------------------------------------

/// The characters of `s`, one by one.
pub fn chars_of(s: &str) -> (v: Vec<char>)
    ensures
        v@ == s@,
{
    let n = s.unicode_len();
    let mut v: Vec<char> = Vec::new();
    for i in 0..n
        invariant
            n == s@.len(),
            v@ == s@.take(i as int),
    {
        v.push(s.get_char(i));
        assert(s@.take(i + 1) =~= s@.take(i as int).push(s@[i as int]));
    }
    assert(s@.take(n as int) =~= s@);
    v
}

/// Whether two strings hold the same characters.
pub fn str_eq(a: &str, b: &str) -> (r: bool)
    ensures
        r == (a@ == b@),
{
    let x = chars_of(a);
    let y = chars_of(b);
    if x.len() != y.len() {
        return false;
    }
    for i in 0..x.len()
        invariant
            x.len() == y.len(),
            x@ == a@,
            y@ == b@,
            forall|j: int| 0 <= j < i ==> x@[j] == y@[j],
    {
        if x[i] != y[i] {
            return false;
        }
    }
    assert(x@ =~= y@);
    true
}

/// Calls std's `String::push`; the contract claims what its documentation
/// says: the string afterwards is the old one with `c` appended.
#[verifier::external_body]
pub(crate) fn push_char(s: &mut String, c: char)
    ensures
        final(s)@ == old(s)@.push(c),
{
    s.push(c);
}

/// Appends the canonical numeral of `n` in base `radix`.
pub fn push_numeral(s: &mut String, n: u32, radix: u32)
    requires
        radix == 10 || radix == 16,
    ensures
        final(s)@ == old(s)@ + numeral(n as nat, radix as nat),
    decreases n,
{
    if n < radix {
        push_char(s, digit_char_exec(n));
        assert(old(s)@.push(digit_char(n as nat)) =~= old(s)@ + seq![digit_char(n as nat)]);
    } else {
        proof {
            lemma_div_smaller(n as nat, radix as nat);
        }
        let ghost before = s@;
        push_numeral(s, n / radix, radix);
        push_char(s, digit_char_exec(n % radix));
        assert(s@ =~= before + numeral(n as nat, radix as nat));
    }
}

/// The character for a digit value below 16 (lower-case letters).
pub fn digit_char_exec(d: u32) -> (c: char)
    requires
        d < 16,
    ensures
        c == digit_char(d as nat),
{
    if d == 0 {
        '0'
    } else if d == 1 {
        '1'
    } else if d == 2 {
        '2'
    } else if d == 3 {
        '3'
    } else if d == 4 {
        '4'
    } else if d == 5 {
        '5'
    } else if d == 6 {
        '6'
    } else if d == 7 {
        '7'
    } else if d == 8 {
        '8'
    } else if d == 9 {
        '9'
    } else if d == 10 {
        'a'
    } else if d == 11 {
        'b'
    } else if d == 12 {
        'c'
    } else if d == 13 {
        'd'
    } else if d == 14 {
        'e'
    } else {
        'f'
    }
}

/// Whether `c` is a digit in base `radix`, and if so its value.
pub fn radix_digit(c: char, radix: u32) -> (r: Option<u32>)
    requires
        radix == 10 || radix == 16,
    ensures
        r.is_some() == is_radix_digit(c, radix as nat),
        r matches Some(d) ==> d == digit_value(c) && d < radix,
{
    if '0' <= c && c <= '9' {
        Some((c as u32) - ('0' as u32))
    } else if radix == 16 && 'a' <= c && c <= 'f' {
        Some((c as u32) - ('a' as u32) + 10)
    } else if radix == 16 && 'A' <= c && c <= 'F' {
        Some((c as u32) - ('A' as u32) + 10)
    } else {
        None
    }
}

/// The value of the digits `v[a..b]` in base `radix`, if they are all digits;
/// at most four of them.
pub fn digits_value_at(v: &Vec<char>, a: usize, b: usize, radix: u32) -> (r: Option<u32>)
    requires
        a <= b <= v.len(),
        b - a <= 4,
        radix == 10 || radix == 16,
    ensures
        r.is_some() == all_radix_digits(v@.subrange(a as int, b as int), radix as nat),
        r matches Some(x) ==> x == digits_value(v@.subrange(a as int, b as int), radix as nat),
{
    let ghost s = v@.subrange(a as int, b as int);
    let mut val: u32 = 0;
    let mut i: usize = a;
    while i < b
        invariant
            a <= i <= b <= v.len(),
            b - a <= 4,
            radix == 10 || radix == 16,
            s == v@.subrange(a as int, b as int),
            all_radix_digits(s.take(i - a), radix as nat),
            val == digits_value(s.take(i - a), radix as nat),
            val < pow_nat(radix as nat, (i - a) as nat),
        decreases b - i,
    {
        let ghost k = (i - a) as int;
        match radix_digit(v[i], radix) {
            None => {
                assert(s[k] == v@[i as int]);
                return None;
            },
            Some(d) => {
                let ghost t = s.take(k + 1);
                assert(t.drop_last() =~= s.take(k));
                assert(t.last() == v@[i as int]);
                assert(pow_nat(radix as nat, (k + 1) as nat) == radix * pow_nat(radix as nat, k as nat));
                let ghost p = pow_nat(radix as nat, k as nat);
                proof {
                    lemma_pow_monotone(radix as nat, (k + 1) as nat, 4);
                    lemma_pow4(radix as nat);
                }
                assert(val * radix + d < radix * p) by (nonlinear_arith)
                    requires
                        val < p,
                        d < radix,
                ;
                assert(radix * p <= 65536);
                val = val * radix + d;
                i = i + 1;
                assert(all_radix_digits(s.take(i - a), radix as nat)) by {
                    assert forall|j: int| 0 <= j < t.len() implies is_radix_digit(#[trigger] t[j], radix as nat) by {
                        if j < k {
                            assert(t[j] == s.take(k)[j]);
                        }
                    }
                }
            },
        }
    }
    assert(s.take(b - a) =~= s);
    Some(val)
}

pub proof fn lemma_pow4(radix: nat)
    requires
        radix == 10 || radix == 16,
    ensures
        pow_nat(radix, 4) <= 65536,
        pow_nat(radix, 1) == radix,
{
    reveal_with_fuel(pow_nat, 5);
}

pub proof fn lemma_pow_monotone(radix: nat, k: nat, m: nat)
    requires
        radix >= 1,
        k <= m,
    ensures
        pow_nat(radix, k) <= pow_nat(radix, m),
    decreases m - k,
{
    if k < m {
        lemma_pow_monotone(radix, k, (m - 1) as nat);
        let p = pow_nat(radix, (m - 1) as nat);
        assert(p <= radix * p) by (nonlinear_arith)
            requires
                radix >= 1,
        ;
    }
}

/// The fields of `v[lo..hi]` between occurrences of `sep`, as index ranges.
pub fn split_ranges(v: &Vec<char>, lo: usize, hi: usize, sep: char) -> (parts: Vec<(usize, usize)>)
    requires
        lo <= hi <= v.len(),
    ensures
        parts.len() == split(v@.subrange(lo as int, hi as int), sep).len(),
        forall|j: int|
            0 <= j < parts.len() ==> {
                &&& lo <= (#[trigger] parts[j]).0 <= parts[j].1 <= hi
                &&& v@.subrange(parts[j].0 as int, parts[j].1 as int) == split(
                    v@.subrange(lo as int, hi as int),
                    sep,
                )[j]
            },
{
    let mut parts: Vec<(usize, usize)> = Vec::new();
    let mut start: usize = lo;
    let mut i: usize = lo;
    assert(v@.subrange(lo as int, lo as int) =~= Seq::<char>::empty());
    while i < hi
        invariant
            lo <= start <= i <= hi <= v.len(),
            split(v@.subrange(lo as int, i as int), sep).len() == parts.len() + 1,
            split(v@.subrange(lo as int, i as int), sep).last() == v@.subrange(
                start as int,
                i as int,
            ),
            forall|j: int|
                0 <= j < parts.len() ==> {
                    &&& lo <= (#[trigger] parts[j]).0 <= parts[j].1 <= start
                    &&& v@.subrange(parts[j].0 as int, parts[j].1 as int) == split(
                        v@.subrange(lo as int, i as int),
                        sep,
                    )[j]
                },
        decreases hi - i,
    {
        let ghost prev = split(v@.subrange(lo as int, i as int), sep);
        let ghost next_s = v@.subrange(lo as int, i + 1);
        assert(next_s.drop_last() =~= v@.subrange(lo as int, i as int));
        assert(next_s.last() == v@[i as int]);
        if v[i] == sep {
            parts.push((start, i));
            start = i + 1;
            i = i + 1;
            assert(v@.subrange(start as int, i as int) =~= Seq::<char>::empty());
            assert(split(next_s, sep) == prev.push(Seq::<char>::empty()));
        } else {
            assert(v@.subrange(start as int, i + 1) =~= v@.subrange(start as int, i as int).push(
                v@[i as int],
            ));
            i = i + 1;
            assert(split(next_s, sep) == prev.update(
                prev.len() - 1,
                prev.last().push(next_s.last()),
            ));
        }
    }
    parts.push((start, hi));
    parts
}

} // verus!
