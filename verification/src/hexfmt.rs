//! Lower-case hexadecimal formatting for hash values.
//!
//! Aggregate hashes are shown as 16 hex digits, subscription keys as 32.

use vstd::prelude::*;

verus! {

/// The lower-case hex digit for a value below 16.
pub open spec fn hex_digit(d: nat) -> char {
    if d == 0 {
        '0'
    } else if d == 1 {
        '1'
    } else if d == 2 {
        '2'
    } else if d == 3 {
        '3'
    } else if d == 4 {
        '4'
    } else if d == 5 {
        '5'
    } else if d == 6 {
        '6'
    } else if d == 7 {
        '7'
    } else if d == 8 {
        '8'
    } else if d == 9 {
        '9'
    } else if d == 10 {
        'a'
    } else if d == 11 {
        'b'
    } else if d == 12 {
        'c'
    } else if d == 13 {
        'd'
    } else if d == 14 {
        'e'
    } else {
        'f'
    }
}

/// The low `n` hex digits of `v`, most significant first (leading zeros kept).
pub open spec fn spec_hex(v: nat, n: nat) -> Seq<char>
    decreases n,
{
    if n == 0 {
        Seq::empty()
    } else {
        spec_hex(v / 16, (n - 1) as nat).push(hex_digit(v % 16))
    }
}

/// Relies on std's String::push: appends exactly the given character.
#[verifier::external_body]
pub fn string_push(s: &mut String, c: char)
    ensures
        final(s)@ == old(s)@.push(c),
{
    s.push(c);
}

fn hex_digit_char(d: u8) -> (c: char)
    requires
        d < 16,
    ensures
        c == hex_digit(d as nat),
{
    if d == 0 {
        '0'
    } else if d == 1 {
        '1'
    } else if d == 2 {
        '2'
    } else if d == 3 {
        '3'
    } else if d == 4 {
        '4'
    } else if d == 5 {
        '5'
    } else if d == 6 {
        '6'
    } else if d == 7 {
        '7'
    } else if d == 8 {
        '8'
    } else if d == 9 {
        '9'
    } else if d == 10 {
        'a'
    } else if d == 11 {
        'b'
    } else if d == 12 {
        'c'
    } else if d == 13 {
        'd'
    } else if d == 14 {
        'e'
    } else {
        'f'
    }
}

proof fn lemma_reverse_push<A>(s: Seq<A>, x: A)
    ensures
        s.push(x).reverse() =~= seq![x] + s.reverse(),
{
}

/// `width` hex digits of `v`, most significant first.
fn hex_chars(v: u128, width: usize) -> (r: String)
    ensures
        r@ == spec_hex(v as nat, width as nat),
        r@.len() == width,
{
    let mut digits: Vec<char> = Vec::new();
    let mut cur: u128 = v;
    let mut i: usize = 0;
    while i < width
        invariant
            i <= width,
            digits@.len() == i,
            spec_hex(v as nat, width as nat) =~= spec_hex(
                cur as nat,
                (width - i) as nat,
            ) + digits@.reverse(),
        decreases width - i,
    {
        let d: u8 = (cur % 16) as u8;
        proof {
            lemma_reverse_push(digits@, hex_digit(d as nat));
            assert(spec_hex(cur as nat, (width - i) as nat) == spec_hex(
                (cur as nat) / 16,
                (width - i - 1) as nat,
            ).push(hex_digit((cur as nat) % 16)));
        }
        digits.push(hex_digit_char(d));
        cur = cur / 16;
        i = i + 1;
    }
    proof {
        assert(spec_hex(v as nat, width as nat) =~= digits@.reverse());
        assert(digits@.reverse().len() == width);
    }
    let mut out = String::new();
    let mut j: usize = 0;
    while j < width
        invariant
            j <= width,
            width == digits@.len(),
            spec_hex(v as nat, width as nat) =~= digits@.reverse(),
            out@ =~= spec_hex(v as nat, width as nat).take(j as int),
        decreases width - j,
    {
        let c = digits[width - 1 - j];
        string_push(&mut out, c);
        proof {
            assert(digits@.reverse()[j as int] == digits@[width - 1 - j]);
            assert(out@ =~= spec_hex(v as nat, width as nat).take(j + 1 as int));
        }
        j = j + 1;
    }
    proof {
        assert(out@ =~= spec_hex(v as nat, width as nat));
    }
    out
}

/// An aggregate hash, printed as 16 lower-case hex digits.
pub fn to_hex16(v: u64) -> (r: String)
    ensures
        r@ == spec_hex(v as nat, 16),
        r@.len() == 16,
{
    hex_chars(v as u128, 16)
}

/// A subscription key, printed as 32 lower-case hex digits.
pub fn to_hex32(v: u128) -> (r: String)
    ensures
        r@ == spec_hex(v as nat, 32),
        r@.len() == 32,
{
    hex_chars(v, 32)
}

} // verus!
