//! Node and network identifiers.
//!
//! Identifiers are 128-bit values drawn at random when an entity is created.
//! Their canonical text form (the hyphenated 8-4-4-4-12 hexadecimal layout)
//! names container resources and persisted records.

use vstd::prelude::*;

verus! {

/// Relies on uuid::Uuid::new_v4 and Uuid::as_u128: a freshly drawn random
/// 128-bit identifier. Nothing is promised of a random value.
#[verifier::external_body]
pub(crate) fn fresh_id() -> u128 {
    uuid::Uuid::new_v4().as_u128()
}

/// Relies on str's PartialEq: two string slices are equal exactly when
/// their character sequences are.
#[verifier::external_body]
pub(crate) fn str_eq(a: &str, b: &str) -> (r: bool)
    ensures
        r == (a@ == b@),
{
    a == b
}

/// Relies on String::push: appends exactly the given character.
#[verifier::external_body]
pub(crate) fn push_char(s: &mut String, c: char)
    ensures
        final(s)@ == old(s)@.push(c),
{
    s.push(c);
}

/// The character for one hexadecimal digit, lower case.
pub open spec fn hex_char(d: int) -> char {
    if d == 0 {
        '0'
    } else if d == 1 {
        '1'
    } else if d == 2 {
        '2'
    } else if d == 3 {
        '3'
    } else if d == 4 {
        '4'
    } else if d == 5 {
        '5'
    } else if d == 6 {
        '6'
    } else if d == 7 {
        '7'
    } else if d == 8 {
        '8'
    } else if d == 9 {
        '9'
    } else if d == 10 {
        'a'
    } else if d == 11 {
        'b'
    } else if d == 12 {
        'c'
    } else if d == 13 {
        'd'
    } else if d == 14 {
        'e'
    } else {
        'f'
    }
}

fn hex_char_of(d: u8) -> (c: char)
    requires
        d < 16,
    ensures
        c == hex_char(d as int),
{
    match d {
        0 => '0',
        1 => '1',
        2 => '2',
        3 => '3',
        4 => '4',
        5 => '5',
        6 => '6',
        7 => '7',
        8 => '8',
        9 => '9',
        10 => 'a',
        11 => 'b',
        12 => 'c',
        13 => 'd',
        14 => 'e',
        _ => 'f',
    }
}

/// The lowest `k` hexadecimal digits of `v`, most significant first.
pub open spec fn spec_hex_digits(v: int, k: nat) -> Seq<char>
    decreases k,
{
    if k == 0 {
        Seq::empty()
    } else {
        spec_hex_digits(v / 16, (k - 1) as nat).push(hex_char(v % 16))
    }
}

/// Renders the lowest `k` hexadecimal digits of `v`, most significant first.
pub fn hex_fixed(v: u128, k: usize) -> (r: String)
    ensures
        r@ == spec_hex_digits(v as int, k as nat),
        r@.len() == k,
    decreases k,
{
    proof {
        lemma_spec_hex_digits_len(v as int, k as nat);
    }
    if k == 0 {
        String::new()
    } else {
        let mut s = hex_fixed(v / 16, k - 1);
        push_char(&mut s, hex_char_of((v % 16) as u8));
        s
    }
}

proof fn lemma_spec_hex_digits_len(v: int, k: nat)
    ensures
        spec_hex_digits(v, k).len() == k,
    decreases k,
{
    if k > 0 {
        lemma_spec_hex_digits_len(v / 16, (k - 1) as nat);
    }
}

/// The canonical text of an identifier: thirty-two lower-case hexadecimal
/// digits in the 8-4-4-4-12 grouping.
pub open spec fn spec_id_str(id: u128) -> Seq<char> {
    let h = spec_hex_digits(id as int, 32);
    h.subrange(0, 8) + seq!['-'] + h.subrange(8, 12) + seq!['-'] + h.subrange(12, 16)
        + seq!['-'] + h.subrange(16, 20) + seq!['-'] + h.subrange(20, 32)
}

/// Renders an identifier in its canonical hyphenated form.
pub fn id_to_string(id: u128) -> (r: String)
    ensures
        r@ == spec_id_str(id),
{
    let h = hex_fixed(id, 32);
    let hs = h.as_str();
    let mut out = String::new();
    out.append(hs.substring_char(0, 8));
    out.append("-");
    out.append(hs.substring_char(8, 12));
    out.append("-");
    out.append(hs.substring_char(12, 16));
    out.append("-");
    out.append(hs.substring_char(16, 20));
    out.append("-");
    out.append(hs.substring_char(20, 32));
    proof {
        reveal_strlit("-");
        assert(out@ =~= spec_id_str(id));
    }
    out
}

} // verus!
