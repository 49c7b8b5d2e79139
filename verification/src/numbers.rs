//! Decimal and hexadecimal rendering of the few numbers the bridge
//! shows: the online player count and a role colour.

use vstd::prelude::*;
use crate::text::string_of;

verus! {

/// The character for decimal digit `d`.
pub open spec fn dec_digit_char(d: nat) -> char
    recommends
        d < 10,
{
    ((48 + d) as u8) as char
}

/// The decimal rendering of `n`, most significant digit first.
pub open spec fn dec_str_spec(n: nat) -> Seq<char>
    decreases n,
{
    if n < 10 {
        seq![dec_digit_char(n)]
    } else {
        dec_str_spec(n / 10) + seq![dec_digit_char(n % 10)]
    }
}

/// The character for hexadecimal digit `d`, lower case.
pub open spec fn hex_digit_char(d: nat) -> char
    recommends
        d < 16,
{
    if d < 10 {
        ((48 + d) as u8) as char
    } else {
        ((87 + d) as u8) as char
    }
}

/// The hexadecimal rendering of `n`, lower case, most significant digit
/// first.
pub open spec fn hex_str_spec(n: nat) -> Seq<char>
    decreases n,
{
    if n < 16 {
        seq![hex_digit_char(n)]
    } else {
        hex_str_spec(n / 16) + seq![hex_digit_char(n % 16)]
    }
}

/// `k` zero characters.
pub open spec fn zeros(k: int) -> Seq<char> {
    Seq::new(k as nat, |i: int| '0')
}

/// The hexadecimal rendering of `n` padded with leading zeros to at
/// least six digits, as a colour is shown.
pub open spec fn color_hex_spec(n: nat) -> Seq<char> {
    if hex_str_spec(n).len() >= 6 {
        hex_str_spec(n)
    } else {
        zeros(6 - hex_str_spec(n).len()) + hex_str_spec(n)
    }
}

/// The character for decimal digit `d`.
fn dec_digit(d: usize) -> (c: char)
    requires
        d < 10,
    ensures
        c == dec_digit_char(d as nat),
{
    (48 + d as u8) as char
}

/// The character for hexadecimal digit `d`, lower case.
fn hex_digit(d: u32) -> (c: char)
    requires
        d < 16,
    ensures
        c == hex_digit_char(d as nat),
{
    if d < 10 {
        (48 + d as u8) as char
    } else {
        (87 + d as u8) as char
    }
}

/// The reversal of `v`.
fn reverse_chars(v: &Vec<char>) -> (r: Vec<char>)
    ensures
        r@ == v@.reverse(),
{
    let n = v.len();
    let mut r: Vec<char> = Vec::new();
    let mut i: usize = 0;
    while i < n
        invariant
            i <= n,
            n == v@.len(),
            r@.len() == i,
            forall|k: int| 0 <= k < i ==> r@[k] == v@[n - 1 - k],
        decreases n - i,
    {
        r.push(v[n - 1 - i]);
        i = i + 1;
    }
    proof {
        assert(r@ =~= v@.reverse());
    }
    r
}

/// The decimal digits of `n`, least significant first.
fn dec_digits_rev(n: usize) -> (digits: Vec<char>)
    ensures
        digits@.reverse() == dec_str_spec(n as nat),
        digits@.len() > 0,
{
    let ghost total = n as nat;
    let mut digits: Vec<char> = Vec::new();
    if n == 0 {
        let c = dec_digit(0);
        digits.push(c);
        proof {
            assert(digits@.reverse() =~= seq![c]);
        }
        return digits;
    }
    let mut m = n;
    proof {
        assert(digits@.reverse() =~= Seq::<char>::empty());
        assert(dec_str_spec(total) + Seq::<char>::empty() =~= dec_str_spec(total));
    }
    while m > 0
        invariant
            m > 0 ==> dec_str_spec(total) == dec_str_spec(m as nat) + digits@.reverse(),
            m == 0 ==> dec_str_spec(total) == digits@.reverse() && digits@.len() > 0,
        decreases m,
    {
        let d = dec_digit(m % 10);
        let ghost digits0 = digits@;
        let ghost m0 = m as nat;
        digits.push(d);
        proof {
            assert(digits@.reverse() =~= seq![d] + digits0.reverse());
        }
        m = m / 10;
        proof {
            if m0 >= 10 {
                assert(dec_str_spec(m0) == dec_str_spec(m0 / 10) + seq![dec_digit_char(m0 % 10)]);
                assert(dec_str_spec(m0 / 10) + seq![dec_digit_char(m0 % 10)] + digits0.reverse()
                    =~= dec_str_spec(m0 / 10) + (seq![d] + digits0.reverse()));
            } else {
                assert(dec_str_spec(m0) == seq![dec_digit_char(m0)]);
                assert(seq![dec_digit_char(m0)] + digits0.reverse() =~= seq![d]
                    + digits0.reverse());
            }
        }
    }
    digits
}

/// Render `n` in decimal.
pub fn usize_to_string(n: usize) -> (r: String)
    ensures
        r@ == dec_str_spec(n as nat),
{
    let digits = dec_digits_rev(n);
    let rev = reverse_chars(&digits);
    proof {
        assert(rev@ =~= digits@.reverse());
    }
    string_of(&rev)
}

/// Render a colour value as at least six lower-case hex digits, zero
/// padded, as `{:06x}` formatting does.
pub fn color_hex(n: u32) -> (r: String)
    ensures
        r@ == color_hex_spec(n as nat),
{
    let ghost total = n as nat;
    let mut digits: Vec<char> = Vec::new();
    if n == 0 {
        let c = hex_digit(0);
        digits.push(c);
        proof {
            assert(digits@.reverse() =~= seq![c]);
        }
    } else {
        let mut m = n;
        proof {
            assert(digits@.reverse() =~= Seq::<char>::empty());
            assert(hex_str_spec(total) + Seq::<char>::empty() =~= hex_str_spec(total));
        }
        while m > 0
            invariant
                m > 0 ==> hex_str_spec(total) == hex_str_spec(m as nat) + digits@.reverse(),
                m == 0 ==> hex_str_spec(total) == digits@.reverse() && digits@.len() > 0,
            decreases m,
        {
            let d = hex_digit(m % 16);
            let ghost digits0 = digits@;
            let ghost m0 = m as nat;
            digits.push(d);
            proof {
                assert(digits@.reverse() =~= seq![d] + digits0.reverse());
            }
            m = m / 16;
            proof {
                if m0 >= 16 {
                    assert(hex_str_spec(m0) == hex_str_spec(m0 / 16) + seq![
                        hex_digit_char(m0 % 16),
                    ]);
                    assert(hex_str_spec(m0 / 16) + seq![hex_digit_char(m0 % 16)]
                        + digits0.reverse() =~= hex_str_spec(m0 / 16) + (seq![d]
                        + digits0.reverse()));
                } else {
                    assert(hex_str_spec(m0) == seq![hex_digit_char(m0)]);
                    assert(seq![hex_digit_char(m0)] + digits0.reverse() =~= seq![d]
                        + digits0.reverse());
                }
            }
        }
    }
    let ghost hex = hex_str_spec(total);
    proof {
        assert(zeros(0) + hex =~= hex);
        assert(digits@.reverse() =~= zeros(digits@.len() - hex.len()) + hex);
    }
    while digits.len() < 6
        invariant
            hex == hex_str_spec(total),
            digits@.len() >= hex.len(),
            digits@.len() <= 6 || digits@.len() == hex.len(),
            digits@.reverse() == zeros(digits@.len() - hex.len()) + hex,
        decreases 6 - digits@.len(),
    {
        let ghost digits0 = digits@;
        digits.push('0');
        proof {
            assert(digits@.reverse() =~= seq!['0'] + digits0.reverse());
            assert(seq!['0'] + (zeros(digits0.len() - hex.len()) + hex) =~= zeros(
                digits@.len() - hex.len(),
            ) + hex);
        }
    }
    proof {
        assert(zeros(0) + hex =~= hex);
        assert(digits@.reverse() == color_hex_spec(total));
    }
    let rev = reverse_chars(&digits);
    proof {
        assert(rev@ =~= digits@.reverse());
    }
    string_of(&rev)
}

} // verus!
