//! Decimal rendering and parsing of the numbers that cross the RPC surface.
//!
//! Block counts and satoshi amounts travel as decimal text; on-chain amounts
//! travel as fixed-point bitcoin values with eight decimal places. One
//! bitcoin is `SATS_PER_BTC` satoshi.

use vstd::prelude::*;

use crate::ids::push_char;

verus! {

/// Satoshi per bitcoin: the fixed scale of on-chain amounts.
pub const SATS_PER_BTC: u64 = 100000000;

/// The character for one decimal digit.
pub open spec fn dec_char(d: int) -> char {
    if d == 0 {
        '0'
    } else if d == 1 {
        '1'
    } else if d == 2 {
        '2'
    } else if d == 3 {
        '3'
    } else if d == 4 {
        '4'
    } else if d == 5 {
        '5'
    } else if d == 6 {
        '6'
    } else if d == 7 {
        '7'
    } else if d == 8 {
        '8'
    } else {
        '9'
    }
}

fn dec_char_of(d: u64) -> (c: char)
    requires
        d < 10,
    ensures
        c == dec_char(d as int),
{
    match d {
        0 => '0',
        1 => '1',
        2 => '2',
        3 => '3',
        4 => '4',
        5 => '5',
        6 => '6',
        7 => '7',
        8 => '8',
        _ => '9',
    }
}

/// The decimal digits of a non-negative value, without leading zeroes.
pub open spec fn spec_dec_digits(v: int) -> Seq<char>
    decreases v,
{
    if v < 10 {
        seq![dec_char(v)]
    } else {
        spec_dec_digits(v / 10).push(dec_char(v % 10))
    }
}

/// Renders a value in decimal.
pub fn u64_to_dec(v: u64) -> (r: String)
    ensures
        r@ == spec_dec_digits(v as int),
    decreases v,
{
    if v < 10 {
        let mut s = String::new();
        push_char(&mut s, dec_char_of(v));
        proof {
            assert(s@ =~= spec_dec_digits(v as int));
        }
        s
    } else {
        let mut s = u64_to_dec(v / 10);
        push_char(&mut s, dec_char_of(v % 10));
        s
    }
}

/// The lowest `k` decimal digits of `v`, zero-padded, most significant first.
pub open spec fn spec_dec_fixed(v: int, k: nat) -> Seq<char>
    decreases k,
{
    if k == 0 {
        Seq::empty()
    } else {
        spec_dec_fixed(v / 10, (k - 1) as nat).push(dec_char(v % 10))
    }
}

/// Renders the lowest `k` decimal digits of `v`, zero-padded.
pub fn u64_to_dec_fixed(v: u64, k: usize) -> (r: String)
    ensures
        r@ == spec_dec_fixed(v as int, k as nat),
    decreases k,
{
    if k == 0 {
        String::new()
    } else {
        let mut s = u64_to_dec_fixed(v / 10, k - 1);
        push_char(&mut s, dec_char_of(v % 10));
        s
    }
}

/// Whether a character is a decimal digit.
pub open spec fn is_dec_digit(c: char) -> bool {
    '0' <= c <= '9'
}

/// The numeric value of a digit character.
pub open spec fn dec_val(c: char) -> int {
    c as int - '0' as int
}

/// The value of a digit sequence read in base ten.
pub open spec fn spec_dec_value(s: Seq<char>) -> int
    decreases s.len(),
{
    if s.len() == 0 {
        0
    } else {
        spec_dec_value(s.drop_last()) * 10 + dec_val(s.last())
    }
}

/// Whether every character of the sequence is a decimal digit.
pub open spec fn all_dec_digits(s: Seq<char>) -> bool {
    forall|i: int| 0 <= i < s.len() ==> is_dec_digit(#[trigger] s[i])
}

/// Parses an unsigned decimal number: the whole sequence must be one or more
/// digits and the value must fit.
pub open spec fn spec_parse_u64(s: Seq<char>) -> Option<u64> {
    if s.len() > 0 && all_dec_digits(s) && spec_dec_value(s) <= u64::MAX {
        Some(spec_dec_value(s) as u64)
    } else {
        None
    }
}

fn dec_digit_value(c: char) -> (r: Option<u64>)
    ensures
        match r {
            Some(d) => is_dec_digit(c) && d == dec_val(c) && d < 10,
            None => !is_dec_digit(c),
        },
{
    if c >= '0' && c <= '9' {
        Some((c as u32 as u64) - ('0' as u32 as u64))
    } else {
        None
    }
}

/// Parses an unsigned decimal number from a string slice.
pub fn parse_u64(s: &str) -> (r: Option<u64>)
    ensures
        r == spec_parse_u64(s@),
{
    let n = s.unicode_len();
    if n == 0 {
        return None;
    }
    let mut acc: u64 = 0;
    let mut i: usize = 0;
    while i < n
        invariant
            n == s@.len(),
            0 < n,
            i <= n,
            all_dec_digits(s@.take(i as int)),
            acc == spec_dec_value(s@.take(i as int)),
        decreases n - i,
    {
        let c = s.get_char(i);
        match dec_digit_value(c) {
            Some(d) => {
                if acc > (u64::MAX - d) / 10 {
                    // the value exceeds the word size; the whole remainder is
                    // digits or not, either way the spec result is None
                    proof {
                        let m = (u64::MAX - d) as int;
                        vstd::arithmetic::div_mod::lemma_fundamental_div_mod(m, 10);
                        assert(acc as int * 10 + d as int > u64::MAX as int) by (nonlinear_arith)
                            requires
                                acc as int >= m / 10 + 1,
                                m == 10 * (m / 10) + m % 10,
                                m % 10 < 10,
                                m == u64::MAX - d,
                        ;
                        lemma_dec_value_overflow(s@, i as int);
                    }
                    return None;
                }
                acc = acc * 10 + d;
                proof {
                    assert(s@.take(i as int + 1).drop_last() =~= s@.take(i as int));
                    assert(s@.take(i as int + 1).last() == s@[i as int]);
                }
            },
            None => {
                return None;
            },
        }
        i += 1;
    }
    proof {
        assert(s@.take(n as int) =~= s@);
    }
    Some(acc)
}

/// If a digit prefix already exceeds the word size, so does the whole string.
proof fn lemma_dec_value_monotone(s: Seq<char>, i: int)
    requires
        0 <= i <= s.len(),
        all_dec_digits(s),
    ensures
        spec_dec_value(s) >= spec_dec_value(s.take(i)),
    decreases s.len() - i,
{
    if i == s.len() {
        assert(s.take(i) =~= s);
    } else {
        lemma_dec_value_monotone(s, i + 1);
        assert(s.take(i + 1).drop_last() =~= s.take(i));
        assert(s.take(i + 1).last() == s[i]);
        assert(spec_dec_value(s.take(i + 1)) == spec_dec_value(s.take(i)) * 10 + dec_val(s[i]));
        assert(all_dec_digits(s.take(i))) by {
            assert(forall|m: int| 0 <= m < i ==> #[trigger] s.take(i)[m] == s[m]);
        }
        assert(spec_dec_value(s.take(i)) >= 0) by {
            lemma_dec_value_nonneg(s.take(i));
        }
        assert(is_dec_digit(s[i]));
        assert(dec_val(s[i]) >= 0);
        assert(spec_dec_value(s.take(i + 1)) >= spec_dec_value(s.take(i))) by (nonlinear_arith)
            requires
                spec_dec_value(s.take(i + 1)) == spec_dec_value(s.take(i)) * 10 + dec_val(s[i]),
                spec_dec_value(s.take(i)) >= 0,
                dec_val(s[i]) >= 0,
        ;
    }
}

proof fn lemma_dec_value_nonneg(s: Seq<char>)
    requires
        all_dec_digits(s),
    ensures
        spec_dec_value(s) >= 0,
    decreases s.len(),
{
    if s.len() > 0 {
        assert(all_dec_digits(s.drop_last())) by {
            assert(forall|i: int|
                0 <= i < s.drop_last().len() ==> #[trigger] s.drop_last()[i] == s[i]);
        }
        lemma_dec_value_nonneg(s.drop_last());
        assert(spec_dec_value(s) == spec_dec_value(s.drop_last()) * 10 + dec_val(s.last()));
        assert(spec_dec_value(s.drop_last()) * 10 >= 0) by (nonlinear_arith)
            requires
                spec_dec_value(s.drop_last()) >= 0,
        ;
    }
}

proof fn lemma_dec_value_overflow(s: Seq<char>, i: int)
    requires
        0 <= i < s.len(),
        all_dec_digits(s.take(i)),
        is_dec_digit(s[i]),
        spec_dec_value(s.take(i)) * 10 + dec_val(s[i]) > u64::MAX,
    ensures
        all_dec_digits(s) ==> spec_dec_value(s) > u64::MAX,
{
    if all_dec_digits(s) {
        lemma_dec_value_monotone(s, i + 1);
        assert(s.take(i + 1).drop_last() =~= s.take(i));
        assert(s.take(i + 1).last() == s[i]);
    }
}

/// Parses a signed decimal number: an optional leading minus sign followed
/// by one or more digits.
pub open spec fn spec_parse_i64(s: Seq<char>) -> Option<i64> {
    if s.len() > 0 && s[0] == '-' {
        match spec_parse_u64(s.skip(1)) {
            Some(v) => if v <= i64::MAX as u64 + 1 {
                Some((-(v as int)) as i64)
            } else {
                None
            },
            None => None,
        }
    } else {
        match spec_parse_u64(s) {
            Some(v) => if v <= i64::MAX as u64 {
                Some(v as i64)
            } else {
                None
            },
            None => None,
        }
    }
}

/// Parses a signed decimal number from a string slice.
pub fn parse_i64(s: &str) -> (r: Option<i64>)
    ensures
        r == spec_parse_i64(s@),
{
    let n = s.unicode_len();
    if n > 0 && s.get_char(0) == '-' {
        let rest = s.substring_char(1, n);
        match parse_u64(rest) {
            Some(v) => {
                proof {
                    assert(rest@ =~= s@.skip(1));
                }
                if v <= (i64::MAX as u64) + 1 {
                    Some((-(v as i128)) as i64)
                } else {
                    None
                }
            },
            None => {
                proof {
                    assert(rest@ =~= s@.skip(1));
                }
                None
            },
        }
    } else {
        match parse_u64(s) {
            Some(v) => if v <= i64::MAX as u64 {
                Some(v as i64)
            } else {
                None
            },
            None => None,
        }
    }
}

/// Characters treated as surrounding whitespace in command output.
pub open spec fn is_space(c: char) -> bool {
    c == ' ' || c == '\n' || c == '\r' || c == '\t'
}

fn is_space_char(c: char) -> (r: bool)
    ensures
        r == is_space(c),
{
    c == ' ' || c == '\n' || c == '\r' || c == '\t'
}

/// The sequence with surrounding whitespace removed: the subrange from the
/// first non-space character through the last one.
pub open spec fn spec_trim(s: Seq<char>) -> Seq<char>
    decreases s.len(),
{
    if s.len() == 0 {
        s
    } else if is_space(s[0]) {
        spec_trim(s.skip(1))
    } else if is_space(s.last()) {
        spec_trim(s.drop_last())
    } else {
        s
    }
}

/// Removes surrounding whitespace from a string slice.
pub fn trim_str(s: &str) -> (r: String)
    ensures
        r@ == spec_trim(s@),
{
    let n = s.unicode_len();
    let mut lo: usize = 0;
    proof {
        assert(s@.skip(0) =~= s@);
    }
    while lo < n && is_space_char(s.get_char(lo))
        invariant
            n == s@.len(),
            lo <= n,
            spec_trim(s@) == spec_trim(s@.skip(lo as int)),
            forall|i: int| 0 <= i < lo ==> is_space(#[trigger] s@[i]),
        decreases n - lo,
    {
        proof {
            assert(s@.skip(lo as int).len() > 0);
            assert(s@.skip(lo as int)[0] == s@[lo as int]);
            assert(s@.skip(lo as int).skip(1) =~= s@.skip(lo as int + 1));
        }
        lo += 1;
    }
    let mut hi: usize = n;
    proof {
        assert(s@.skip(lo as int).take(n - lo as int) =~= s@.skip(lo as int));
    }
    while hi > lo && is_space_char(s.get_char(hi - 1))
        invariant
            n == s@.len(),
            lo <= hi <= n,
            lo < n ==> !is_space(s@[lo as int]),
            lo == n ==> hi == n,
            spec_trim(s@) == spec_trim(s@.skip(lo as int).take(hi - lo as int)),
        decreases hi,
    {
        proof {
            let cur = s@.skip(lo as int).take(hi - lo as int);
            assert(cur.len() > 0);
            assert(cur[0] == s@[lo as int]);
            assert(cur.last() == s@[hi - 1]);
            assert(cur.drop_last() =~= s@.skip(lo as int).take(hi - 1 - lo as int));
        }
        hi -= 1;
    }
    let r = s.substring_char(lo, hi);
    proof {
        let cur = s@.skip(lo as int).take(hi - lo as int);
        assert(r@ =~= cur);
        if cur.len() > 0 {
            assert(cur[0] == s@[lo as int]);
            assert(cur.last() == s@[hi - 1]);
        }
    }
    String::from_str(r)
}

/// The index of the first decimal point, if any.
pub open spec fn first_dot_at(s: Seq<char>, i: int) -> bool {
    0 <= i < s.len() && s[i] == '.' && forall|j: int| 0 <= j < i ==> s[j] != '.'
}

/// A fixed-point bitcoin amount in satoshi, as printed by the full node: the
/// integer bitcoin part, optionally followed by a point and one to eight
/// fractional digits.
pub open spec fn spec_parse_btc_sats(s: Seq<char>) -> Option<u64> {
    if exists|i: int| first_dot_at(s, i) {
        let i = choose|i: int| first_dot_at(s, i);
        let int_part = s.take(i);
        let frac_part = s.skip(i + 1);
        if 1 <= frac_part.len() <= 8 {
            match (spec_parse_u64(int_part), spec_parse_u64(
                frac_part + spec_zeroes((8 - frac_part.len()) as nat),
            )) {
                (Some(b), Some(f)) => if b * SATS_PER_BTC + f <= u64::MAX {
                    Some((b * SATS_PER_BTC + f) as u64)
                } else {
                    None
                },
                _ => None,
            }
        } else {
            None
        }
    } else {
        match spec_parse_u64(s) {
            Some(b) => if b * SATS_PER_BTC <= u64::MAX {
                Some((b * SATS_PER_BTC) as u64)
            } else {
                None
            },
            None => None,
        }
    }
}

/// A run of `k` zero characters.
pub open spec fn spec_zeroes(k: nat) -> Seq<char>
    decreases k,
{
    if k == 0 {
        Seq::empty()
    } else {
        spec_zeroes((k - 1) as nat).push('0')
    }
}

fn zeroes(k: usize) -> (r: String)
    ensures
        r@ == spec_zeroes(k as nat),
    decreases k,
{
    if k == 0 {
        String::new()
    } else {
        let mut s = zeroes(k - 1);
        push_char(&mut s, '0');
        s
    }
}

/// Parses a fixed-point bitcoin amount into satoshi.
pub fn parse_btc_sats(s: &str) -> (r: Option<u64>)
    ensures
        r == spec_parse_btc_sats(s@),
{
    let n = s.unicode_len();
    let mut dot: usize = n;
    let mut i: usize = 0;
    while i < n
        invariant
            n == s@.len(),
            i <= n,
            dot <= n,
            dot == n ==> forall|j: int| 0 <= j < i ==> s@[j] != '.',
            dot < n ==> s@[dot as int] == '.' && dot < i && forall|j: int|
                0 <= j < dot ==> s@[j] != '.',
        decreases n - i,
    {
        if s.get_char(i) == '.' && dot == n {
            dot = i;
        }
        i += 1;
    }
    if dot == n {
        // no decimal point anywhere, so no first one either
        proof {
            assert(forall|k: int| 0 <= k < s@.len() ==> s@[k] != '.');
        }
        match parse_u64(s) {
            Some(b) => {
                if b <= u64::MAX / SATS_PER_BTC {
                    proof {
                        lemma_sats_scale_fits(b as int, 0);
                    }
                    Some(b * SATS_PER_BTC)
                } else {
                    proof {
                        lemma_sats_scale_overflows(b as int, 0);
                    }
                    None
                }
            },
            None => None,
        }
    } else {
        // our index is the first decimal point, hence the one the spec names
        proof {
            assert(first_dot_at(s@, dot as int)) by {
                assert(s@[dot as int] == '.');
                assert(forall|j: int| 0 <= j < dot as int ==> s@[j] != '.');
            }
            let k = choose|k: int| first_dot_at(s@, k);
            assert(first_dot_at(s@, k));
            assert(k == dot as int) by {
                if k < dot as int {
                    assert(s@[k] != '.');
                } else if k > dot as int {
                    assert(s@[dot as int] != '.');
                }
            }
        }
        let int_str = s.substring_char(0, dot);
        let frac_str = s.substring_char(dot + 1, n);
        let frac_len = n - dot - 1;
        proof {
            assert(int_str@ =~= s@.take(dot as int));
            assert(frac_str@ =~= s@.skip(dot as int + 1));
        }
        if frac_len < 1 || frac_len > 8 {
            return None;
        }
        let mut padded = String::from_str(frac_str);
        let z = zeroes(8 - frac_len);
        padded.append(z.as_str());
        match (parse_u64(int_str), parse_u64(padded.as_str())) {
            (Some(b), Some(f)) => {
                if b <= (u64::MAX - f) / SATS_PER_BTC {
                    proof {
                        lemma_sats_scale_fits(b as int, f as int);
                    }
                    Some(b * SATS_PER_BTC + f)
                } else {
                    proof {
                        lemma_sats_scale_overflows(b as int, f as int);
                    }
                    None
                }
            },
            _ => None,
        }
    }
}

/// If the bitcoin part is at most the scaled headroom, the total fits.
proof fn lemma_sats_scale_fits(b: int, f: int)
    requires
        0 <= f <= u64::MAX,
        0 <= b <= (u64::MAX - f) / SATS_PER_BTC as int,
    ensures
        b * SATS_PER_BTC + f <= u64::MAX,
{
    let m = u64::MAX - f;
    vstd::arithmetic::div_mod::lemma_fundamental_div_mod(m, SATS_PER_BTC as int);
    assert(b * SATS_PER_BTC <= m) by (nonlinear_arith)
        requires
            b <= m / SATS_PER_BTC as int,
            m == SATS_PER_BTC as int * (m / SATS_PER_BTC as int) + m % SATS_PER_BTC as int,
            m % SATS_PER_BTC as int >= 0,
            SATS_PER_BTC as int > 0,
    ;
}

/// If the bitcoin part exceeds the scaled headroom, the total overflows.
proof fn lemma_sats_scale_overflows(b: int, f: int)
    requires
        0 <= f <= u64::MAX,
        b > (u64::MAX - f) / SATS_PER_BTC as int,
    ensures
        b * SATS_PER_BTC + f > u64::MAX,
{
    let m = u64::MAX - f;
    vstd::arithmetic::div_mod::lemma_fundamental_div_mod(m, SATS_PER_BTC as int);
    assert(b * SATS_PER_BTC > m) by (nonlinear_arith)
        requires
            b >= m / SATS_PER_BTC as int + 1,
            m == SATS_PER_BTC as int * (m / SATS_PER_BTC as int) + m % (SATS_PER_BTC as int),
            (m % (SATS_PER_BTC as int)) < (SATS_PER_BTC as int),
            SATS_PER_BTC as int > 0,
    ;
}

/// Renders a satoshi amount as a fixed-point bitcoin value with eight
/// decimal places.
pub open spec fn spec_btc_string(sats: u64) -> Seq<char> {
    spec_dec_digits(sats as int / SATS_PER_BTC as int) + seq!['.'] + spec_dec_fixed(
        sats as int % SATS_PER_BTC as int,
        8,
    )
}

/// Renders a satoshi amount in bitcoin, eight decimal places.
pub fn sats_to_btc_string(sats: u64) -> (r: String)
    ensures
        r@ == spec_btc_string(sats),
{
    let mut s = u64_to_dec(sats / SATS_PER_BTC);
    push_char(&mut s, '.');
    let frac = u64_to_dec_fixed(sats % SATS_PER_BTC, 8);
    s.append(frac.as_str());
    proof {
        assert(s@ =~= spec_btc_string(sats));
    }
    s
}

} // verus!

verus! {

/// Whether `p` occurs in `s` as a contiguous run.
pub open spec fn spec_str_contains(s: Seq<char>, p: Seq<char>) -> bool {
    exists|i: int| 0 <= i <= s.len() - p.len() && #[trigger] s.subrange(i, i + p.len()) == p
}

/// Whether `p` occurs at position `i` of `s`.
fn match_at(s: &str, p: &str, i: usize) -> (r: bool)
    requires
        i + p@.len() <= s@.len(),
    ensures
        r == (s@.subrange(i as int, i as int + p@.len() as int) == p@),
{
    let n = s.unicode_len();
    let m = p.unicode_len();
    let mut j: usize = 0;
    while j < m
        invariant
            n == s@.len(),
            m == p@.len(),
            i + m <= n,
            j <= m,
            forall|jj: int| 0 <= jj < j ==> s@[i + jj] == p@[jj],
        decreases m - j,
    {
        if s.get_char(i + j) != p.get_char(j) {
            proof {
                assert(s@.subrange(i as int, i as int + m as int)[j as int] == s@[i + j]);
            }
            return false;
        }
        j += 1;
    }
    proof {
        assert(s@.subrange(i as int, i as int + m as int) =~= p@);
    }
    true
}

/// Searches for an occurrence of `p` anywhere in `s`.
pub fn str_contains(s: &str, p: &str) -> (r: bool)
    ensures
        r == spec_str_contains(s@, p@),
{
    let n = s.unicode_len();
    let m = p.unicode_len();
    if m == 0 {
        proof {
            assert(s@.subrange(0, 0 + p@.len() as int) =~= p@);
            assert(0 <= 0 <= s@.len() - p@.len() && s@.subrange(0, 0 + p@.len() as int) == p@);
        }
        return true;
    }
    if m > n {
        proof {
            assert(!spec_str_contains(s@, p@)) by {
                if spec_str_contains(s@, p@) {
                    let i = choose|i: int|
                        0 <= i <= s@.len() - p@.len() && #[trigger] s@.subrange(i, i + p@.len())
                            == p@;
                    assert(false);
                }
            }
        }
        return false;
    }
    let mut i: usize = 0;
    while i <= n - m
        invariant
            n == s@.len(),
            m == p@.len(),
            1 <= m <= n,
            i <= n - m + 1,
            forall|ii: int| 0 <= ii < i ==> #[trigger] s@.subrange(ii, ii + m) != p@,
        decreases n - m - i + 1,
    {
        if match_at(s, p, i) {
            proof {
                assert(0 <= i as int <= s@.len() - p@.len() && s@.subrange(
                    i as int,
                    i as int + p@.len(),
                ) == p@);
            }
            return true;
        }
        i += 1;
    }
    proof {
        assert(!spec_str_contains(s@, p@)) by {
            if spec_str_contains(s@, p@) {
                let w = choose|w: int|
                    0 <= w <= s@.len() - p@.len() && #[trigger] s@.subrange(w, w + p@.len()) == p@;
                assert(w < i);
            }
        }
    }
    false
}

} // verus!
