//! Numbers written out as text: words in binary, hexadecimal and decimal, as the register,
//! memory and timer views show them, and plain decimal numbers for messages; and numbers
//! read back from text, in any radix up to sixteen.

use vstd::prelude::*;
use vstd::string::*;

verus! {

/// The digit characters, by value.
pub open spec fn digit_table() -> Seq<char> {
    "0123456789abcdef"@
}

/// The character of the digit `d` (below sixteen), lower case past nine.
pub open spec fn digit_char(d: nat) -> char {
    digit_table()[d as int]
}

/// The last `n` digits of `v` in base `base`, most significant first, with leading zeros.
pub open spec fn padded_digits(v: nat, base: nat, n: nat) -> Seq<char>
    decreases n,
{
    if n == 0 {
        Seq::empty()
    } else {
        padded_digits(v / base, base, (n - 1) as nat).push(digit_char(v % base))
    }
}

/// The digits of `v` in base ten, most significant first, without leading zeros.
pub open spec fn decimal(v: nat) -> Seq<char>
    decreases v,
{
    if v < 10 {
        seq![digit_char(v)]
    } else {
        decimal(v / 10).push(digit_char(v % 10))
    }
}

/// A word in binary with its prefix: `0b` and sixteen digits.
pub open spec fn bin_text(w: u16) -> Seq<char> {
    "0b"@ + padded_digits(w as nat, 2, 16)
}

/// A word in hexadecimal with its prefix: `0x` and four lower case digits.
pub open spec fn hex_text(w: u16) -> Seq<char> {
    "0x"@ + padded_digits(w as nat, 16, 4)
}

/// A word in decimal, padded with zeros to five digits.
pub open spec fn dec_text(w: u16) -> Seq<char> {
    padded_digits(w as nat, 10, 5)
}

/// A line that shows a word three ways: binary, hexadecimal and decimal, separated by spaces.
pub open spec fn word_line(w: u16) -> Seq<char> {
    bin_text(w) + " "@ + hex_text(w) + " "@ + dec_text(w) + "\n"@
}

proof fn lemma_padded_len(v: nat, base: nat, n: nat)
    requires
        base > 0,
    ensures
        padded_digits(v, base, n).len() == n,
    decreases n,
{
    if n > 0 {
        lemma_padded_len(v / base, base, (n - 1) as nat);
    }
}

/// Words are written in fixed widths, so that the columns of the views line up: eighteen
/// characters in binary, six in hexadecimal, five in decimal, and thirty-two for a whole line.
pub proof fn law_fixed_widths(w: u16)
    ensures
        bin_text(w).len() == 18,
        hex_text(w).len() == 6,
        dec_text(w).len() == 5,
        word_line(w).len() == 32,
{
    reveal_strlit("0b");
    reveal_strlit("0x");
    reveal_strlit(" ");
    reveal_strlit("\n");
    lemma_padded_len(w as nat, 2, 16);
    lemma_padded_len(w as nat, 16, 4);
    lemma_padded_len(w as nat, 10, 5);
}

/// The one-character string of the digit `d`.
fn digit_str(d: u64) -> (s: &'static str)
    requires
        d < 16,
    ensures
        s@ == seq![digit_char(d as nat)],
{
    let table = "0123456789abcdef";
    proof {
        reveal_strlit("0123456789abcdef");
    }
    let s = table.substring_char(d as usize, (d + 1) as usize);
    assert(s@ =~= seq![digit_char(d as nat)]);
    s
}

/// Appends the last `n` digits of `v` in base `base` to `s`.
pub fn push_padded_digits(s: &mut String, v: u64, base: u64, n: u32)
    requires
        2 <= base <= 16,
    ensures
        final(s)@ == old(s)@ + padded_digits(v as nat, base as nat, n as nat),
    decreases n,
{
    if n > 0 {
        push_padded_digits(s, v / base, base, n - 1);
        let d = digit_str(v % base);
        s.append(d);
        assert(final(s)@ =~= old(s)@ + padded_digits(v as nat, base as nat, n as nat));
    }
}

/// Appends the decimal digits of `v` to `s`.
pub fn push_decimal(s: &mut String, v: u64)
    ensures
        final(s)@ == old(s)@ + decimal(v as nat),
    decreases v,
{
    if v >= 10 {
        push_decimal(s, v / 10);
    }
    let d = digit_str(v % 10);
    s.append(d);
    assert(final(s)@ =~= old(s)@ + decimal(v as nat));
}

/// The decimal digits of `v`.
pub fn decimal_string(v: u64) -> (s: String)
    ensures
        s@ == decimal(v as nat),
{
    let mut s = String::new();
    push_decimal(&mut s, v);
    assert(s@ =~= decimal(v as nat));
    s
}

/// Appends `word_line(w)` to `s`.
pub fn push_word_line(s: &mut String, w: u16)
    ensures
        final(s)@ == old(s)@ + word_line(w),
{
    proof {
        reveal_strlit("0b");
        reveal_strlit("0x");
        reveal_strlit(" ");
        reveal_strlit("\n");
    }
    s.append("0b");
    push_padded_digits(s, w as u64, 2, 16);
    s.append(" ");
    s.append("0x");
    push_padded_digits(s, w as u64, 16, 4);
    s.append(" ");
    push_padded_digits(s, w as u64, 10, 5);
    s.append("\n");
    assert(final(s)@ =~= old(s)@ + word_line(w));
}

/// A word in binary, as `0b` and sixteen digits.
pub fn bin_string(w: u16) -> (s: String)
    ensures
        s@ == bin_text(w),
{
    let mut s = String::new();
    s.append("0b");
    push_padded_digits(&mut s, w as u64, 2, 16);
    assert(s@ =~= bin_text(w));
    s
}

/// A word in hexadecimal, as `0x` and four digits.
pub fn hex_string(w: u16) -> (s: String)
    ensures
        s@ == hex_text(w),
{
    let mut s = String::new();
    s.append("0x");
    push_padded_digits(&mut s, w as u64, 16, 4);
    assert(s@ =~= hex_text(w));
    s
}

/// A word in decimal, as five digits.
pub fn dec_string(w: u16) -> (s: String)
    ensures
        s@ == dec_text(w),
{
    let mut s = String::new();
    push_padded_digits(&mut s, w as u64, 10, 5);
    assert(s@ =~= dec_text(w));
    s
}

/// Why a number could not be read.
#[derive(Debug, Clone, Copy, PartialEq, Eq, Structural)]
pub enum ParseIntError {
    /// There was nothing to read.
    Empty,
    /// A character is not a digit.
    InvalidDigit,
    /// The number is too large.
    PosOverflow,
}

/// The value of a digit character in a radix: `0` to `9`, then letters of either case.
pub open spec fn digit_value(c: char, radix: nat) -> Option<nat> {
    let v = c as u32;
    let d: nat = if 48 <= v <= 57 {
        (v - 48) as nat
    } else if 97 <= v <= 122 {
        (v - 87) as nat
    } else if 65 <= v <= 90 {
        (v - 55) as nat
    } else {
        36
    };
    if d < radix {
        Some(d)
    } else {
        None
    }
}

/// Reading the digits of `d` from `i` on, `acc` being the value of those before: the value,
/// or the first error met from left to right.
pub open spec fn scan_digits(d: Seq<char>, i: nat, acc: nat, max: nat, radix: nat) -> Result<
    nat,
    ParseIntError,
>
    decreases d.len() - i,
{
    if i >= d.len() {
        Ok(acc)
    } else {
        match digit_value(d[i as int], radix) {
            None => Err(ParseIntError::InvalidDigit),
            Some(v) => {
                let next = acc * radix + v;
                if next > max {
                    Err(ParseIntError::PosOverflow)
                } else {
                    scan_digits(d, i + 1, next, max, radix)
                }
            },
        }
    }
}

/// Reading an unsigned number no larger than `max` in a radix as the standard library does: an
/// optional `+`, then at least one digit.
pub open spec fn parse_radix_spec(s: Seq<char>, radix: nat, max: nat) -> Result<nat, ParseIntError> {
    if s.len() == 0 {
        Err(ParseIntError::Empty)
    } else if (s[0] == '+' || s[0] == '-') && s.len() == 1 {
        Err(ParseIntError::InvalidDigit)
    } else if s[0] == '+' {
        scan_digits(s, 1, 0, max, radix)
    } else {
        scan_digits(s, 0, 0, max, radix)
    }
}

pub proof fn lemma_scan_bound(d: Seq<char>, i: nat, acc: nat, max: nat, radix: nat)
    requires
        acc <= max,
    ensures
        scan_digits(d, i, acc, max, radix) matches Ok(v) ==> v <= max,
    decreases d.len() - i,
{
    if i < d.len() {
        if let Some(v) = digit_value(d[i as int], radix) {
            let next = acc * radix + v;
            if next <= max {
                lemma_scan_bound(d, i + 1, next, max, radix);
            }
        }
    }
}

/// The value of a digit character in a radix.
fn digit_of(c: char, radix: u32) -> (r: Option<u32>)
    requires
        2 <= radix <= 16,
    ensures
        match digit_value(c, radix as nat) {
            Some(v) => r == Some(v as u32),
            None => r is None,
        },
{
    let v = c as u32;
    let d: u32 = if 48 <= v && v <= 57 {
        v - 48
    } else if 97 <= v && v <= 122 {
        v - 87
    } else if 65 <= v && v <= 90 {
        v - 55
    } else {
        36
    };
    if d < radix {
        Some(d)
    } else {
        None
    }
}

/// Reads an unsigned number no larger than `max` in a radix up to sixteen.
pub fn parse_radix(c: &Vec<char>, radix: u32, max: u64) -> (r: Result<u64, ParseIntError>)
    requires
        2 <= radix <= 16,
    ensures
        match parse_radix_spec(c@, radix as nat, max as nat) {
            Ok(v) => r == Ok::<u64, ParseIntError>(v as u64),
            Err(e) => r == Err::<u64, ParseIntError>(e),
        },
{
    if c.len() == 0 {
        return Err(ParseIntError::Empty);
    }
    if (c[0] == '+' || c[0] == '-') && c.len() == 1 {
        return Err(ParseIntError::InvalidDigit);
    }
    let mut i: usize = if c[0] == '+' {
        1
    } else {
        0
    };
    let ghost start = i as nat;
    let ghost rx = radix as nat;
    assert(parse_radix_spec(c@, rx, max as nat) == scan_digits(c@, start, 0, max as nat, rx));
    let mut acc: u64 = 0;
    while i < c.len()
        invariant
            i <= c.len(),
            acc <= max,
            2 <= radix <= 16,
            rx == radix as nat,
            scan_digits(c@, start, 0, max as nat, rx) == scan_digits(
                c@,
                i as nat,
                acc as nat,
                max as nat,
                rx,
            ),
            parse_radix_spec(c@, rx, max as nat) == scan_digits(c@, start, 0, max as nat, rx),
        decreases c.len() - i,
    {
        match digit_of(c[i], radix) {
            None => {
                return Err(ParseIntError::InvalidDigit);
            },
            Some(d) => {
                assert(acc as u128 * radix as u128 <= 16 * 0xffff_ffff_ffff_ffffu128) by (
                nonlinear_arith)
                    requires
                        acc <= 0xffff_ffff_ffff_ffffu64,
                        radix <= 16,
                ;
                let next: u128 = acc as u128 * radix as u128 + d as u128;
                if next > max as u128 {
                    return Err(ParseIntError::PosOverflow);
                }
                acc = next as u64;
            },
        }
        i = i + 1;
    }
    proof {
        lemma_scan_bound(c@, start, 0, max as nat, rx);
    }
    Ok(acc)
}

proof fn lemma_digit_char_value(d: nat)
    requires
        d < 10,
    ensures
        digit_value(digit_char(d), 10) == Some(d),
{
    reveal_strlit("0123456789abcdef");
    if d == 0 {
    } else if d == 1 {
    } else if d == 2 {
    } else if d == 3 {
    } else if d == 4 {
    } else if d == 5 {
    } else if d == 6 {
    } else if d == 7 {
    } else if d == 8 {
    } else {
        assert(d == 9);
    }
}

proof fn lemma_scan_push(s: Seq<char>, x: char, i: nat, acc: nat, max: nat, radix: nat)
    requires
        i <= s.len(),
    ensures
        scan_digits(s.push(x), i, acc, max, radix) == match scan_digits(s, i, acc, max, radix) {
            Ok(a) => scan_digits(s.push(x), s.len(), a, max, radix),
            Err(e) => Err(e),
        },
    decreases s.len() - i,
{
    if i < s.len() {
        assert(s.push(x)[i as int] == s[i as int]);
        if let Some(v) = digit_value(s[i as int], radix) {
            if acc * radix + v <= max {
                lemma_scan_push(s, x, i + 1, acc * radix + v, max, radix);
            }
        }
    }
}

/// The decimal text of a number is not empty and is made of decimal digits.
pub proof fn lemma_decimal_digits(v: nat)
    ensures
        decimal(v).len() >= 1,
        forall|k: int| 0 <= k < decimal(v).len() ==> #[trigger] digit_value(decimal(v)[k], 10) is Some,
    decreases v,
{
    if v < 10 {
        lemma_digit_char_value(v);
    } else {
        lemma_decimal_digits(v / 10);
        lemma_digit_char_value(v % 10);
        let p = decimal(v / 10);
        assert forall|k: int| 0 <= k < decimal(v).len() implies #[trigger] digit_value(
            decimal(v)[k],
            10,
        ) is Some by {
            if k < p.len() {
                assert(decimal(v)[k] == p[k]);
            }
        }
    }
}

proof fn lemma_scan_decimal(v: nat, max: nat)
    requires
        v <= max,
    ensures
        scan_digits(decimal(v), 0, 0, max, 10) == Ok::<nat, ParseIntError>(v),
    decreases v,
{
    if v < 10 {
        lemma_digit_char_value(v);
        let s = decimal(v);
        assert(scan_digits(s, 1, v, max, 10) == Ok::<nat, ParseIntError>(v));
    } else {
        let p = decimal(v / 10);
        let c = digit_char(v % 10);
        lemma_scan_decimal(v / 10, max);
        lemma_scan_push(p, c, 0, 0, max, 10);
        lemma_digit_char_value(v % 10);
        let s = p.push(c);
        assert(s[p.len() as int] == c);
        assert((v / 10) * 10 + v % 10 == v);
        assert(scan_digits(s, p.len() + 1, v, max, 10) == Ok::<nat, ParseIntError>(v));
    }
}

/// Reading back a number written in decimal gives the number, when it fits.
pub proof fn law_decimal_reads_back(v: nat, max: nat)
    requires
        v <= max,
    ensures
        parse_radix_spec(decimal(v), 10, max) == Ok::<nat, ParseIntError>(v),
{
    lemma_decimal_digits(v);
    lemma_scan_decimal(v, max);
    let s = decimal(v);
    assert(digit_value(s[0], 10) is Some);
}

/// `t` is `s` with some of its upper case letters written in lower case.
pub open spec fn same_but_case(s: Seq<char>, t: Seq<char>) -> bool {
    &&& s.len() == t.len()
    &&& forall|i: int|
        0 <= i < s.len() ==> #[trigger] t[i] == s[i] || (65 <= (s[i] as u32) <= 90 && (t[i] as u32)
            == (s[i] as u32) + 32)
}

proof fn lemma_scan_case(s: Seq<char>, t: Seq<char>, i: nat, acc: nat, max: nat, radix: nat)
    requires
        same_but_case(s, t),
        radix <= 36,
    ensures
        scan_digits(s, i, acc, max, radix) == scan_digits(t, i, acc, max, radix),
    decreases s.len() - i,
{
    if i < s.len() {
        assert(t[i as int] == s[i as int] || (65 <= (s[i as int] as u32) <= 90 && (t[i as int] as u32)
            == (s[i as int] as u32) + 32));
        assert(digit_value(s[i as int], radix) == digit_value(t[i as int], radix));
        if let Some(v) = digit_value(s[i as int], radix) {
            lemma_scan_case(s, t, i + 1, acc * radix + v, max, radix);
        }
    }
}

/// Hexadecimal digits read the same in either case: `A` to `F` and `a` to `f` are ten to
/// fifteen, `0` to `9` are themselves, and a text reads as the same text with any of its
/// letters in lower case.
pub proof fn law_hex_either_case(s: Seq<char>, t: Seq<char>, radix: nat, max: nat)
    requires
        same_but_case(s, t),
        2 <= radix <= 16,
    ensures
        digit_value('0', 16) == Some(0nat),
        digit_value('9', 16) == Some(9nat),
        digit_value('A', 16) == Some(10nat),
        digit_value('B', 16) == Some(11nat),
        digit_value('C', 16) == Some(12nat),
        digit_value('D', 16) == Some(13nat),
        digit_value('E', 16) == Some(14nat),
        digit_value('F', 16) == Some(15nat),
        digit_value('a', 16) == Some(10nat),
        digit_value('b', 16) == Some(11nat),
        digit_value('c', 16) == Some(12nat),
        digit_value('d', 16) == Some(13nat),
        digit_value('e', 16) == Some(14nat),
        digit_value('f', 16) == Some(15nat),
        digit_value('G', 16) is None,
        digit_value('g', 16) is None,
        forall|c: char|
            65 <= (c as u32) <= 70 ==> #[trigger] digit_value(c, 16) == Some(((c as u32) - 55) as nat),
        forall|c: char|
            97 <= (c as u32) <= 102 ==> #[trigger] digit_value(c, 16) == Some(((c as u32) - 87) as nat),
        parse_radix_spec(s, radix, max) == parse_radix_spec(t, radix, max),
{
    if s.len() > 0 {
        assert(t[0] == s[0] || (65 <= (s[0] as u32) <= 90 && (t[0] as u32) == (s[0] as u32) + 32));
    }
    lemma_scan_case(s, t, 0, 0, max, radix);
    lemma_scan_case(s, t, 1, 0, max, radix);
}

} // verus!
