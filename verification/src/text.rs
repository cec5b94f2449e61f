//! Numbers and names as text.

use vstd::prelude::*;
use vstd::utf8::{decode_utf8, valid_utf8};

verus! {

/// The character of a digit.
pub open spec fn digit(d: int) -> char {
    seq!['0', '1', '2', '3', '4', '5', '6', '7', '8', '9', 'a', 'b', 'c', 'd', 'e', 'f'][d]
}

/// A number in a base, without leading zeros.
pub open spec fn digits(n: nat, base: nat) -> Seq<char>
    decreases n,
{
    if n < base || base < 2 {
        seq![digit(n as int)]
    } else {
        proof {
            assert(n / base < n) by (nonlinear_arith)
                requires
                    2 <= base <= n,
            ;
        }
        digits(n / base, base).push(digit((n % base) as int))
    }
}

/// A number in hexadecimal digits, marked as such.
pub open spec fn hex(n: int) -> Seq<char> {
    "0x"@ + digits(n as nat, 16)
}

/// A number in decimal digits.
pub open spec fn decimal(n: int) -> Seq<char> {
    if n < 0 {
        "-"@ + digits((-n) as nat, 10)
    } else {
        digits(n as nat, 10)
    }
}

/// Writes a digit.
fn digit_text(d: u64) -> (r: &'static str)
    requires
        d < 16,
    ensures
        r@ == seq![digit(d as int)],
{
    proof {
        reveal_strlit("0");
        reveal_strlit("1");
        reveal_strlit("2");
        reveal_strlit("3");
        reveal_strlit("4");
        reveal_strlit("5");
        reveal_strlit("6");
        reveal_strlit("7");
        reveal_strlit("8");
        reveal_strlit("9");
        reveal_strlit("a");
        reveal_strlit("b");
        reveal_strlit("c");
        reveal_strlit("d");
        reveal_strlit("e");
        reveal_strlit("f");
    }
    let r = match d {
        0 => "0",
        1 => "1",
        2 => "2",
        3 => "3",
        4 => "4",
        5 => "5",
        6 => "6",
        7 => "7",
        8 => "8",
        9 => "9",
        10 => "a",
        11 => "b",
        12 => "c",
        13 => "d",
        14 => "e",
        _ => "f",
    };
    assert(r@ =~= seq![digit(d as int)]);
    r
}

/// Writes a number in a base.
fn append_digits(text: &mut String, n: u64, base: u64)
    requires
        2 <= base <= 16,
    ensures
        final(text)@ == old(text)@ + digits(n as nat, base as nat),
    decreases n,
{
    if n < base {
        text.append(digit_text(n));
    } else {
        assert(n / base < n) by (nonlinear_arith)
            requires
                2 <= base <= n,
        ;
        append_digits(text, n / base, base);
        text.append(digit_text(n % base));
        proof {
            let head = digits((n / base) as nat, base as nat);
            let last = digit((n % base) as int);
            assert(old(text)@ + head + seq![last] =~= old(text)@ + head.push(last));
        }
    }
}

/// Appends a number in hexadecimal digits.
pub fn append_hex(text: &mut String, n: u64)
    ensures
        final(text)@ == old(text)@ + hex(n as int),
{
    text.append("0x");
    append_digits(text, n, 16);
    assert(text@ =~= old(text)@ + hex(n as int));
}

/// Appends a number in decimal digits.
pub fn append_decimal(text: &mut String, n: u64)
    ensures
        final(text)@ == old(text)@ + decimal(n as int),
{
    append_digits(text, n, 10);
}

/// Appends a number that may be negative in decimal digits.
pub fn append_signed(text: &mut String, n: i32)
    ensures
        final(text)@ == old(text)@ + decimal(n as int),
{
    if n < 0 {
        text.append("-");
        append_digits(text, (-(n as i64)) as u64, 10);
        assert(text@ =~= old(text)@ + decimal(n as int));
    } else {
        append_digits(text, n as u64, 10);
    }
}

/// What `String::from_utf8_lossy` makes of bytes that need not be text.
pub uninterp spec fn lossy_text(bytes: Seq<u8>) -> Seq<char>;

/// Calls `String::from_utf8_lossy`: bytes that are valid UTF-8 are decoded, and in other bytes
/// what is invalid is replaced, by a rule that is left to the function.
#[verifier::external_body]
pub(crate) fn from_utf8_lossy(bytes: &Vec<u8>) -> (r: String)
    ensures
        r@ == lossy_text(bytes@),
        valid_utf8(bytes@) ==> r@ == decode_utf8(bytes@),
{
    String::from_utf8_lossy(bytes).into_owned()
}

} // verus!
