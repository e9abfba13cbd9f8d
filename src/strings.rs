//! Building strings from characters.
use vstd::prelude::*;

verus! {

/// Relies on `String: FromIterator<char>`: the string holds exactly the
/// given characters, in order.
#[verifier::external_body]
pub(crate) fn string_from_chars(chars: &Vec<char>) -> (s: String)
    ensures
        s@ == chars@,
{
    chars.iter().collect()
}

/// The decimal digit of `d < 10`.
pub open spec fn digit_char(d: nat) -> char {
    ((d + 48) as u8) as char
}

/// The decimal representation of `n`, without sign or leading zeros.
pub open spec fn decimal(n: nat) -> Seq<char>
    decreases n,
{
    if n < 10 {
        seq![digit_char(n)]
    } else {
        decimal(n / 10).push(digit_char(n % 10))
    }
}

/// Appends the decimal representation of `n`.
pub fn push_decimal(out: &mut Vec<char>, n: u64)
    ensures
        final(out)@ == old(out)@ + decimal(n as nat),
    decreases n,
{
    if n >= 10 {
        push_decimal(out, n / 10);
    }
    let d = (n % 10) as u8;
    let c = (d + 48) as char;
    out.push(c);
    proof {
        if n < 10 {
            assert(decimal(n as nat) =~= seq![digit_char(n as nat)]);
        }
    }
    assert(final(out)@ =~= old(out)@ + decimal(n as nat));
}

/// The decimal representation of `n`.
pub fn decimal_string(n: u64) -> (s: String)
    ensures
        s@ == decimal(n as nat),
{
    let mut out: Vec<char> = Vec::new();
    push_decimal(&mut out, n);
    assert(out@ =~= decimal(n as nat));
    string_from_chars(&out)
}

/// The uppercase hexadecimal digit of `d < 16`.
pub open spec fn hex_digit(d: nat) -> char {
    if d < 10 {
        ((d + 48) as u8) as char
    } else {
        ((d + 55) as u8) as char
    }
}

/// Two uppercase hexadecimal digits of a byte.
pub open spec fn hex_byte(b: u8) -> Seq<char> {
    seq![hex_digit((b / 16) as nat), hex_digit((b % 16) as nat)]
}

/// Appends the two hexadecimal digits of `b`.
fn push_hex_byte(out: &mut Vec<char>, b: u8)
    ensures
        final(out)@ == old(out)@ + hex_byte(b),
{
    let hi = b / 16;
    let lo = b % 16;
    out.push(if hi < 10 {
        (hi + 48) as char
    } else {
        (hi + 55) as char
    });
    out.push(if lo < 10 {
        (lo + 48) as char
    } else {
        (lo + 55) as char
    });
    assert(final(out)@ =~= old(out)@ + hex_byte(b));
}

/// A colour as `#RRGGBB` with uppercase digits.
pub fn color_to_hex(red: u8, green: u8, blue: u8) -> (s: String)
    ensures
        s@ == seq!['#'] + hex_byte(red) + hex_byte(green) + hex_byte(blue),
{
    let mut out: Vec<char> = Vec::new();
    out.push('#');
    push_hex_byte(&mut out, red);
    push_hex_byte(&mut out, green);
    push_hex_byte(&mut out, blue);
    assert(out@ =~= seq!['#'] + hex_byte(red) + hex_byte(green) + hex_byte(blue));
    string_from_chars(&out)
}

} // verus!
