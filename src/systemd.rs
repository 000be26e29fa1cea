//! Escaping of systemd unit names.

use vstd::prelude::*;
use vstd::string::*;
use crate::text::string_from_chars;

verus! {

/// The lower-case hexadecimal digit of `n`, which is below 16.
pub open spec fn hex_digit(n: u8) -> char {
    if n < 10 {
        ((n + 48) as u8) as char
    } else {
        ((n + 87) as u8) as char
    }
}

/// A byte that stands for itself in a unit name: `:`, `_` or an ASCII
/// letter or digit.
pub open spec fn is_plain(b: u8) -> bool {
    b == 58 || b == 95 || (48 <= b <= 57) || (97 <= b <= 122) || (65 <= b <= 90)
}

/// The escape of one byte; `first` where it is the first byte of the name.
///
/// A slash becomes `-`, a plain byte stays, a dot stays but at the start,
/// and any other byte becomes `\xNN` with two lower-case hex digits.
pub open spec fn escape_byte(b: u8, first: bool) -> Seq<char> {
    if b == 47 {
        seq!['-']
    } else if is_plain(b) || (b == 46 && !first) {
        seq![b as char]
    } else {
        seq!['\\', 'x', hex_digit(b / 16), hex_digit(b % 16)]
    }
}

/// The escapes of the first `n` bytes, in order.
pub open spec fn escaped_upto(bs: Seq<u8>, n: int) -> Seq<char>
    decreases n,
{
    if n <= 0 {
        Seq::empty()
    } else {
        escaped_upto(bs, n - 1) + escape_byte(bs[n - 1], n - 1 == 0)
    }
}

/// The escape of a unit name given as bytes.
pub open spec fn escaped(bs: Seq<u8>) -> Seq<char> {
    escaped_upto(bs, bs.len() as int)
}

fn hex_digit_exec(n: u8) -> (r: char)
    requires
        n < 16,
    ensures
        r == hex_digit(n),
{
    if n < 10 {
        (n + 48) as char
    } else {
        (n + 87) as char
    }
}

/// Escape a systemd unit name.
///
/// Follows "STRING ESCAPING FOR INCLUSION IN UNIT NAMES" in `systemd.unit(5)`,
/// byte by byte.
pub fn escape_name(name: &str) -> (r: String)
    ensures
        r@ == escaped(name.spec_bytes()),
{
    let bytes = name.as_bytes_vec();
    let mut out: Vec<char> = Vec::new();
    let mut n: usize = 0;
    while n < bytes.len()
        invariant
            bytes@ == name.spec_bytes(),
            n <= bytes@.len(),
            out@ == escaped_upto(bytes@, n as int),
        decreases bytes@.len() - n,
    {
        let b = bytes[n];
        if b == 47 {
            out.push('-');
        } else if b == 58 || b == 95 || (48 <= b && b <= 57) || (97 <= b && b <= 122) || (65 <= b
            && b <= 90) || (b == 46 && n > 0) {
            out.push(b as char);
        } else {
            out.push('\\');
            out.push('x');
            out.push(hex_digit_exec(b / 16));
            out.push(hex_digit_exec(b % 16));
        }
        assert(out@ =~= escaped_upto(bytes@, n + 1));
        n = n + 1;
    }
    string_from_chars(out)
}

} // verus!
