//! Strings carrying ANSI escape sequences, turned into styled text lines.

use vstd::prelude::*;
use vstd::utf8::*;
use vstd::string::*;

verus! {

/// A terminal colour.
#[derive(Debug, Clone, Copy, PartialEq, Eq, Structural)]
pub enum Colour {
    Reset,
    Black,
    Red,
    Green,
    Yellow,
    Blue,
    Magenta,
    Cyan,
    Gray,
    DarkGray,
    LightRed,
    LightGreen,
    LightYellow,
    LightBlue,
    LightMagenta,
    LightCyan,
    White,
    Rgb(u8, u8, u8),
    Indexed(u8),
}

/// Display attributes of a run of text: colours and modifier bits.
#[derive(Debug, Clone, Copy, PartialEq, Eq, Structural)]
pub struct Style {
    pub fg: Colour,
    pub bg: Colour,
    pub modifier: u16,
}

impl Style {
    /// The default style: both colours reset and no modifiers.
    pub open spec fn plain() -> Style {
        Style { fg: Colour::Reset, bg: Colour::Reset, modifier: 0 }
    }

    pub fn new() -> (s: Style)
        ensures
            s == Style::plain(),
    {
        Style { fg: Colour::Reset, bg: Colour::Reset, modifier: 0 }
    }

    /// Resets both colours and clears every modifier.
    pub fn reset(&mut self)
        ensures
            *final(self) == Style::plain(),
    {
        self.fg = Colour::Reset;
        self.bg = Colour::Reset;
        self.modifier = 0;
    }
}

/// Number of bytes in the UTF-8 encoding of a character.
pub open spec fn char_width(c: char) -> nat {
    encode_scalar(c as u32).len()
}

/// Byte offset of the `k`-th character of `s` in its UTF-8 encoding.
pub open spec fn byte_offset(s: Seq<char>, k: int) -> nat {
    encode_utf8(s.take(k)).len()
}

pub proof fn lemma_encode_concat(a: Seq<char>, b: Seq<char>)
    ensures
        encode_utf8(a + b) == encode_utf8(a) + encode_utf8(b),
    decreases a.len(),
{
    if a.len() == 0 {
        assert(a + b =~= b);
        assert(encode_utf8(a) =~= Seq::<u8>::empty());
        assert(encode_utf8(a) + encode_utf8(b) =~= encode_utf8(b));
    } else {
        assert((a + b).drop_first() =~= a.drop_first() + b);
        assert((a + b)[0] == a[0]);
        lemma_encode_concat(a.drop_first(), b);
        assert(encode_utf8(a + b) =~= encode_scalar(a[0] as u32) + encode_utf8(a.drop_first() + b));
        assert(encode_utf8(a) + encode_utf8(b) =~= encode_scalar(a[0] as u32) + (encode_utf8(
            a.drop_first(),
        ) + encode_utf8(b)));
    }
}

pub proof fn lemma_byte_offset_step(s: Seq<char>, k: int)
    requires
        0 <= k < s.len(),
    ensures
        byte_offset(s, k + 1) == byte_offset(s, k) + char_width(s[k]),
        char_width(s[k]) >= 1,
{
    assert(s.take(k + 1) =~= s.take(k) + seq![s[k]]);
    lemma_encode_concat(s.take(k), seq![s[k]]);
    assert(seq![s[k]].drop_first() =~= Seq::<char>::empty());
    assert(encode_utf8(seq![s[k]]) =~= encode_scalar(s[k] as u32) + encode_utf8(
        Seq::<char>::empty(),
    ));
    char_is_scalar(s[k]);
}

/// UTF-8 width of a character.
pub(crate) fn utf8_width(c: char) -> (w: usize)
    ensures
        w == char_width(c),
        1 <= w <= 4,
{
    proof {
        char_is_scalar(c);
    }
    let v = c as u32;
    if v <= 0x7F {
        1
    } else if v <= 0x7FF {
        2
    } else if v <= 0xFFFF {
        3
    } else {
        4
    }
}

/// The characters of a string, one by one.
pub(crate) fn chars_of(s: &str) -> (v: Vec<char>)
    ensures
        v@ == s@,
{
    let mut v: Vec<char> = Vec::new();
    for ch in it: s.chars()
        invariant
            v@ == it.seq().take(it.index()),
            it.seq() == s@,
    {
        v.push(ch);
    }
    v
}


/// Byte offsets of every character boundary of `c`.
pub(crate) fn byte_offsets(c: &Vec<char>) -> (offs: Vec<u128>)
    ensures
        offs.len() == c.len() + 1,
        forall|k: int| 0 <= k <= c.len() ==> offs[k] == byte_offset(c@, k),
        forall|k: int| 0 <= k <= c.len() ==> offs[k] <= 4 * k,
{
    let mut offs: Vec<u128> = Vec::new();
    let mut acc: u128 = 0;
    offs.push(0);
    assert(c@.take(0) =~= Seq::<char>::empty());
    let mut k: usize = 0;
    while k < c.len()
        invariant
            k <= c.len(),
            offs.len() == k + 1,
            acc == byte_offset(c@, k as int),
            acc <= 4 * k,
            forall|j: int| 0 <= j <= k ==> offs[j] == byte_offset(c@, j),
            forall|j: int| 0 <= j <= k ==> offs[j] <= 4 * j,
        decreases c.len() - k,
    {
        let w = utf8_width(c[k]);
        proof {
            lemma_byte_offset_step(c@, k as int);
        }
        acc = acc + w as u128;
        k = k + 1;
        offs.push(acc);
    }
    offs
}


/// The eight basic colours of display attributes `30` to `37` (foreground) and `40` to `47`
/// (background), by their last digit.
pub open spec fn basic_colour(d: u16) -> Colour {
    if d == 0 { Colour::Black }
    else if d == 1 { Colour::Red }
    else if d == 2 { Colour::Green }
    else if d == 3 { Colour::Yellow }
    else if d == 4 { Colour::Blue }
    else if d == 5 { Colour::Magenta }
    else if d == 6 { Colour::Cyan }
    else { Colour::Gray }
}

/// The eight bright colours of display attributes `90` to `97` (foreground) and `100` to
/// `107` (background), by their last digit.
pub open spec fn bright_colour(d: u16) -> Colour {
    if d == 0 { Colour::DarkGray }
    else if d == 1 { Colour::LightRed }
    else if d == 2 { Colour::LightGreen }
    else if d == 3 { Colour::LightYellow }
    else if d == 4 { Colour::LightBlue }
    else if d == 5 { Colour::LightMagenta }
    else if d == 6 { Colour::LightCyan }
    else { Colour::White }
}

/// The modifier bit that display attributes `1` to `9` turn on: bold, dim, italic,
/// underlined, slow blink, rapid blink, reversed, hidden, crossed out.
pub open spec fn modifier_bit(code: u16) -> u16 {
    if code == 1 { 1 }
    else if code == 2 { 2 }
    else if code == 3 { 4 }
    else if code == 4 { 8 }
    else if code == 5 { 16 }
    else if code == 6 { 32 }
    else if code == 7 { 64 }
    else if code == 8 { 128 }
    else { 256 }
}

/// The modifier bits that display attributes `22` to `29` turn off.
pub open spec fn cleared_bits(code: u16) -> u16 {
    if code == 22 { 3 }
    else if code == 23 { 4 }
    else if code == 24 { 8 }
    else if code == 25 { 48 }
    else if code == 27 { 64 }
    else if code == 28 { 128 }
    else if code == 29 { 256 }
    else { 0 }
}

/// What one display attribute does to the style: `0` resets it, `1` to `9` turn a modifier
/// on and `22` to `29` turn modifiers off, `30` to `37` and `90` to `97` set the foreground
/// colour and `39` resets it, `40` to `47` and `100` to `107` set the background colour and
/// `49` resets it; other codes change nothing.
pub open spec fn sgr_one(style: Style, code: u16) -> Style {
    if code == 0 {
        Style::plain()
    } else if 1 <= code <= 9 {
        Style { modifier: style.modifier | modifier_bit(code), ..style }
    } else if 22 <= code <= 29 && code != 26 {
        Style { modifier: style.modifier & !cleared_bits(code), ..style }
    } else if 30 <= code <= 37 {
        Style { fg: basic_colour((code - 30) as u16), ..style }
    } else if code == 39 {
        Style { fg: Colour::Reset, ..style }
    } else if 40 <= code <= 47 {
        Style { bg: basic_colour((code - 40) as u16), ..style }
    } else if code == 49 {
        Style { bg: Colour::Reset, ..style }
    } else if 90 <= code <= 97 {
        Style { fg: bright_colour((code - 90) as u16), ..style }
    } else if 100 <= code <= 107 {
        Style { bg: bright_colour((code - 100) as u16), ..style }
    } else {
        style
    }
}

/// The style with its foreground (`fg`) or background colour set.
pub open spec fn with_colour(style: Style, fg: bool, colour: Colour) -> Style {
    if fg {
        Style { fg: colour, ..style }
    } else {
        Style { bg: colour, ..style }
    }
}

/// Applying the display attributes `codes` from index `i` on, in order. `38` and `48` followed
/// by `5;n` set the foreground or background to indexed colour `n`, and followed by `2;r;g;b`
/// to that colour; each other code acts as `sgr_one` says.
pub open spec fn sgr_from(style: Style, codes: Seq<u16>, i: nat) -> Style
    decreases codes.len() - i,
{
    if i >= codes.len() {
        style
    } else {
        let k = i as int;
        let c = codes[k];
        if (c == 38 || c == 48) && i + 2 < codes.len() && codes[k + 1] == 5 && codes[k + 2] <= 255 {
            sgr_from(with_colour(style, c == 38, Colour::Indexed(codes[k + 2] as u8)), codes, i + 3)
        } else if (c == 38 || c == 48) && i + 4 < codes.len() && codes[k + 1] == 2 && codes[k + 2]
            <= 255 && codes[k + 3] <= 255 && codes[k + 4] <= 255 {
            sgr_from(
                with_colour(
                    style,
                    c == 38,
                    Colour::Rgb(codes[k + 2] as u8, codes[k + 3] as u8, codes[k + 4] as u8),
                ),
                codes,
                i + 5,
            )
        } else {
            sgr_from(sgr_one(style, c), codes, i + 1)
        }
    }
}

/// The style after an escape sequence: reset, or with its display attributes applied.
pub open spec fn after_escape(style: Style, reset: bool, codes: Seq<u16>) -> Style {
    if reset {
        Style::plain()
    } else {
        sgr_from(style, codes, 0)
    }
}

/// The colour of a basic (`bright` false) or bright colour code's last digit.
fn colour_of(d: u16, bright: bool) -> (c: Colour)
    requires
        d < 8,
    ensures
        c == if bright { bright_colour(d) } else { basic_colour(d) },
{
    if bright {
        if d == 0 { Colour::DarkGray }
        else if d == 1 { Colour::LightRed }
        else if d == 2 { Colour::LightGreen }
        else if d == 3 { Colour::LightYellow }
        else if d == 4 { Colour::LightBlue }
        else if d == 5 { Colour::LightMagenta }
        else if d == 6 { Colour::LightCyan }
        else { Colour::White }
    } else {
        if d == 0 { Colour::Black }
        else if d == 1 { Colour::Red }
        else if d == 2 { Colour::Green }
        else if d == 3 { Colour::Yellow }
        else if d == 4 { Colour::Blue }
        else if d == 5 { Colour::Magenta }
        else if d == 6 { Colour::Cyan }
        else { Colour::Gray }
    }
}

/// Applies one display attribute to the style.
fn apply_one(style: &mut Style, code: u16)
    ensures
        *final(style) == sgr_one(*old(style), code),
{
    if code == 0 {
        *style = Style::new();
    } else if 1 <= code && code <= 9 {
        let bit: u16 = if code == 1 { 1 }
            else if code == 2 { 2 }
            else if code == 3 { 4 }
            else if code == 4 { 8 }
            else if code == 5 { 16 }
            else if code == 6 { 32 }
            else if code == 7 { 64 }
            else if code == 8 { 128 }
            else { 256 };
        style.modifier = style.modifier | bit;
    } else if 22 <= code && code <= 29 && code != 26 {
        let bits: u16 = if code == 22 { 3 }
            else if code == 23 { 4 }
            else if code == 24 { 8 }
            else if code == 25 { 48 }
            else if code == 27 { 64 }
            else if code == 28 { 128 }
            else if code == 29 { 256 }
            else { 0 };
        style.modifier = style.modifier & !bits;
    } else if 30 <= code && code <= 37 {
        style.fg = colour_of(code - 30, false);
    } else if code == 39 {
        style.fg = Colour::Reset;
    } else if 40 <= code && code <= 47 {
        style.bg = colour_of(code - 40, false);
    } else if code == 49 {
        style.bg = Colour::Reset;
    } else if 90 <= code && code <= 97 {
        style.fg = colour_of(code - 90, true);
    } else if 100 <= code && code <= 107 {
        style.bg = colour_of(code - 100, true);
    }
}

/// Applies display attributes to the style, in order.
pub fn apply_sgr(style: &mut Style, codes: &Vec<u16>)
    ensures
        *final(style) == sgr_from(*old(style), codes@, 0),
{
    let mut i: usize = 0;
    while i < codes.len()
        invariant
            i <= codes.len(),
            sgr_from(*style, codes@, i as nat) == sgr_from(*old(style), codes@, 0),
        decreases codes.len() - i,
    {
        let c = codes[i];
        if (c == 38 || c == 48) && codes.len() - i > 2 && codes[i + 1] == 5 && codes[i + 2] <= 255 {
            let colour = Colour::Indexed(codes[i + 2] as u8);
            if c == 38 {
                style.fg = colour;
            } else {
                style.bg = colour;
            }
            i = i + 3;
        } else if (c == 38 || c == 48) && codes.len() - i > 4 && codes[i + 1] == 2 && codes[i + 2]
            <= 255 && codes[i + 3] <= 255 && codes[i + 4] <= 255 {
            let colour = Colour::Rgb(codes[i + 2] as u8, codes[i + 3] as u8, codes[i + 4] as u8);
            if c == 38 {
                style.fg = colour;
            } else {
                style.bg = colour;
            }
            i = i + 5;
        } else {
            apply_one(style, c);
            i = i + 1;
        }
    }
}

/// The escape character that starts every ANSI sequence.
pub open spec fn esc() -> char {
    '\x1b'
}

pub open spec fn is_digit(c: char) -> bool {
    48 <= (c as u32) <= 57
}

pub open spec fn all_digits(s: Seq<char>) -> bool {
    forall|i: int| 0 <= i < s.len() ==> is_digit(#[trigger] s[i])
}

/// Decimal value of a string of digits.
pub open spec fn digits_value(s: Seq<char>) -> nat
    decreases s.len(),
{
    if s.len() == 0 {
        0
    } else {
        digits_value(s.drop_last()) * 10 + ((s.last() as u32) - 48) as nat
    }
}

/// Whether a string of digits reads as a `u16`.
pub open spec fn parses_u16(s: Seq<char>) -> bool {
    s.len() > 0 && all_digits(s) && digits_value(s) <= 65535
}

/// The two-character sequences `ESC [ a b` that are complete as they stand.
pub open spec fn fixed_pair(a: char, b: char) -> bool {
    ||| a == '5' && b == 'n'
    ||| a == '0' && b == 'n'
    ||| a == '3' && b == 'n'
    ||| a == '6' && b == 'n'
    ||| a == '7' && b == 'h'
    ||| a == '7' && b == 'l'
    ||| a == '3' && b == 'g'
    ||| a == '1' && b == 'K'
    ||| a == '2' && b == 'K'
    ||| a == '1' && b == 'J'
    ||| a == '2' && b == 'J'
    ||| a == '1' && b == 'i'
    ||| a == '4' && b == 'i'
    ||| a == '5' && b == 'i'
}

/// Single characters after `ESC` that make a complete (consumed, unused) sequence.
pub open spec fn short_escape(ch: char) -> bool {
    ch == '(' || ch == ')' || ch == '7' || ch == '8' || ch == 'D' || ch == 'M' || ch == 'H'
}

/// Single characters after `ESC [` that make a complete (consumed, unused) sequence.
pub open spec fn bracket_escape(ch: char) -> bool {
    ch == 'c' || ch == 's' || ch == 'u' || ch == 'r' || ch == 'g' || ch == 'K' || ch == 'J'
        || ch == 'i'
}

/// What reading one escape sequence gives.
pub enum EscapeScan {
    /// The input ends inside the sequence.
    Incomplete,
    /// The sequence was read. `consumed` is the count that places the start of the next
    /// text segment `consumed` bytes after the escape character (just after what the sequence
    /// took), `next` is the index of the first character not read, `reset` tells whether
    /// the style was reset, and `codes` are the display attributes it sets (none for other
    /// sequences).
    Read { consumed: nat, next: nat, reset: bool, codes: Seq<u16> },
}

/// Reading a variable-length `ESC [ n ; n ... x` sequence: `p` is the index of the first
/// unread character, `nums` the numbers completed, `s` the digits of the current number and
/// `last` the character just read.
pub open spec fn var_scan(
    c: Seq<char>,
    p: nat,
    nums: Seq<u16>,
    s: Seq<char>,
    last: char,
    consumed: nat,
) -> EscapeScan
    decreases c.len() - p, 1nat,
{
    if is_digit(last) {
        if p >= c.len() {
            EscapeScan::Incomplete
        } else {
            var_scan(c, p + 1, nums, s.push(last), c[p as int], consumed + 1)
        }
    } else if last == ';' {
        if parses_u16(s) {
            if p >= c.len() {
                EscapeScan::Incomplete
            } else {
                var_scan(c, p + 1, nums.push(digits_value(s) as u16), Seq::empty(), c[p as int], consumed + 1)
            }
        } else {
            EscapeScan::Read { consumed: 1, next: p, reset: false, codes: Seq::empty() }
        }
    } else if (last == 'A' || last == 'B' || last == 'C' || last == 'D') && parses_u16(s) && nums.len()
        == 0 {
        EscapeScan::Read { consumed, next: p, reset: false, codes: Seq::empty() }
    } else if last == 'c' && s.len() >= 3 && s.last() == '0' {
        if parses_u16(s.drop_last()) {
            EscapeScan::Read { consumed, next: p, reset: false, codes: Seq::empty() }
        } else {
            EscapeScan::Read { consumed: 1, next: p, reset: false, codes: Seq::empty() }
        }
    } else if (last == 'R' || last == 'H' || last == 'f' || last == 'r') && parses_u16(s) && nums.len()
        == 1 {
        EscapeScan::Read { consumed, next: p, reset: false, codes: Seq::empty() }
    } else if last == '"' && nums.len() == 1 {
        key_scan(c, p, nums, s, consumed)
    } else if last == 'm' && parses_u16(s) {
        EscapeScan::Read {
            consumed,
            next: p,
            reset: false,
            codes: nums.push(digits_value(s) as u16),
        }
    } else {
        EscapeScan::Read { consumed: 1, next: p, reset: false, codes: Seq::empty() }
    }
}

/// Reading the quoted string of a key definition `ESC [ n ; " ... " p`, from index `p`.
/// Reading then goes on with the variable-length sequence.
pub open spec fn key_scan(c: Seq<char>, p: nat, nums: Seq<u16>, s: Seq<char>, consumed: nat) -> EscapeScan
    decreases c.len() - p, 0nat,
{
    if p >= c.len() {
        EscapeScan::Incomplete
    } else if c[p as int] != '"' {
        key_scan(c, p + 1, nums, s, consumed + 1)
    } else if p + 1 >= c.len() {
        EscapeScan::Incomplete
    } else {
        let after_p: nat = if c[p + 1 as int] == 'p' {
            consumed + 2
        } else {
            1
        };
        if p + 2 >= c.len() {
            EscapeScan::Incomplete
        } else {
            var_scan(c, p + 3, nums, s, c[p + 2 as int], after_p + 1)
        }
    }
}

/// Reading the escape sequence whose `ESC` is at index `i`.
pub open spec fn escape_scan(c: Seq<char>, i: nat) -> EscapeScan {
    let j = i + 1;
    if j >= c.len() {
        EscapeScan::Incomplete
    } else {
        let ch = c[j as int];
        if ch == 'c' {
            EscapeScan::Read { consumed: 2, next: j + 1, reset: true, codes: Seq::empty() }
        } else if short_escape(ch) {
            EscapeScan::Read { consumed: 2, next: j + 1, reset: false, codes: Seq::empty() }
        } else if ch != '[' {
            EscapeScan::Read { consumed: 1, next: j + 1, reset: false, codes: Seq::empty() }
        } else if j + 1 >= c.len() {
            EscapeScan::Incomplete
        } else {
            let ch2 = c[j + 1 as int];
            if bracket_escape(ch2) {
                EscapeScan::Read { consumed: 3, next: j + 2, reset: false, codes: Seq::empty() }
            } else if !is_digit(ch2) {
                EscapeScan::Read { consumed: 1, next: j + 2, reset: false, codes: Seq::empty() }
            } else if j + 2 >= c.len() {
                EscapeScan::Incomplete
            } else {
                let b = c[j + 2 as int];
                if fixed_pair(ch2, b) {
                    EscapeScan::Read { consumed: 4, next: j + 3, reset: false, codes: Seq::empty() }
                } else {
                    var_scan(c, j + 3, Seq::empty(), seq![ch2], b, 4)
                }
            }
        }
    }
}


fn digit(c: char) -> (b: bool)
    ensures
        b == is_digit(c),
{
    let v = c as u32;
    48 <= v && v <= 57
}

/// Whether a string of characters reads as a `u16` written in decimal digits.
fn parses_u16_exec(s: &Vec<char>) -> (b: bool)
    ensures
        b == parses_u16(s@),
{
    if s.len() == 0 {
        return false;
    }
    let mut value: u32 = 0;
    let mut k: usize = 0;
    assert(s@.take(0) =~= Seq::<char>::empty());
    while k < s.len()
        invariant
            k <= s.len(),
            all_digits(s@.take(k as int)),
            value == if digits_value(s@.take(k as int)) < 65536 {
                digits_value(s@.take(k as int))
            } else {
                65536
            },
        decreases s.len() - k,
    {
        let ch = s[k];
        if !digit(ch) {
            assert(!all_digits(s@)) by {
                assert(!is_digit(s@[k as int]));
            }
            return false;
        }
        let d = ch as u32 - 48;
        let ghost prev = digits_value(s@.take(k as int));
        assert(s@.take(k + 1).drop_last() =~= s@.take(k as int));
        assert(s@.take(k + 1).last() == ch);
        assert(digits_value(s@.take(k + 1)) == prev * 10 + d);
        if value < 65536 {
            let next = value * 10 + d;
            value = if next < 65536 {
                next
            } else {
                65536
            };
        } else {
            assert(prev * 10 + d >= 65536) by (nonlinear_arith)
                requires
                    prev >= 65536,
            ;
        }
        assert(all_digits(s@.take(k + 1))) by {
            assert forall|i: int| 0 <= i < k + 1 implies is_digit(#[trigger] s@.take(k + 1)[i]) by {
                if i < k {
                    assert(s@.take(k + 1)[i] == s@.take(k as int)[i]);
                }
            }
        }
        k = k + 1;
    }
    assert(s@.take(s.len() as int) =~= s@);
    value <= 65535
}

/// The value of a string of digits that reads as a `u16`.
fn u16_value(s: &Vec<char>) -> (v: u16)
    requires
        parses_u16(s@),
    ensures
        v == digits_value(s@),
{
    let mut value: u32 = 0;
    let mut k: usize = 0;
    assert(s@.take(0) =~= Seq::<char>::empty());
    while k < s.len()
        invariant
            k <= s.len(),
            parses_u16(s@),
            value == digits_value(s@.take(k as int)),
            digits_value(s@.take(k as int)) <= digits_value(s@),
        decreases s.len() - k,
    {
        let ch = s[k];
        assert(is_digit(s@[k as int]));
        let d = ch as u32 - 48;
        assert(s@.take(k + 1).drop_last() =~= s@.take(k as int));
        assert(s@.take(k + 1).last() == ch);
        proof {
            lemma_digits_prefix(s@, (k + 1) as nat);
        }
        value = value * 10 + d;
        k = k + 1;
    }
    assert(s@.take(s.len() as int) =~= s@);
    value as u16
}

/// The value of the first `k` digits is no more than that of them all.
proof fn lemma_digits_prefix(s: Seq<char>, k: nat)
    requires
        k <= s.len(),
        all_digits(s),
    ensures
        digits_value(s.take(k as int)) <= digits_value(s),
    decreases s.len() - k,
{
    if k < s.len() {
        lemma_digits_prefix(s, k + 1);
        assert(s.take(k as int + 1).drop_last() =~= s.take(k as int));
        assert(is_digit(s[k as int]));
    } else {
        assert(s.take(k as int) =~= s);
    }
}

/// Exec form of an escape-sequence reading.
pub enum ScanResult {
    Incomplete,
    Read(usize, usize, bool, Vec<u16>),
}

impl ScanResult {
    pub open spec fn spec(self) -> EscapeScan {
        match self {
            ScanResult::Incomplete => EscapeScan::Incomplete,
            ScanResult::Read(consumed, next, reset, codes) => EscapeScan::Read {
                consumed: consumed as nat,
                next: next as nat,
                reset,
                codes: codes@,
            },
        }
    }
}

/// Reads the escape sequence whose `ESC` is at index `i` of `c`.
fn scan_escape(c: &Vec<char>, i: usize) -> (r: ScanResult)
    requires
        i < c.len(),
    ensures
        r.spec() == escape_scan(c@, i as nat),
        r matches ScanResult::Read(consumed, next, _, _) ==> 1 <= consumed <= next - i && i < next
            <= c.len(),
{
    let n = c.len();
    let j = i + 1;
    if j >= n {
        return ScanResult::Incomplete;
    }
    let ch = c[j];
    if ch == 'c' {
        return ScanResult::Read(2, j + 1, true, Vec::new());
    }
    if ch == '(' || ch == ')' || ch == '7' || ch == '8' || ch == 'D' || ch == 'M' || ch == 'H' {
        return ScanResult::Read(2, j + 1, false, Vec::new());
    }
    if ch != '[' {
        return ScanResult::Read(1, j + 1, false, Vec::new());
    }
    if j + 1 >= n {
        return ScanResult::Incomplete;
    }
    let ch2 = c[j + 1];
    if ch2 == 'c' || ch2 == 's' || ch2 == 'u' || ch2 == 'r' || ch2 == 'g' || ch2 == 'K' || ch2
        == 'J' || ch2 == 'i' {
        return ScanResult::Read(3, j + 2, false, Vec::new());
    }
    if !digit(ch2) {
        return ScanResult::Read(1, j + 2, false, Vec::new());
    }
    if j + 2 >= n {
        return ScanResult::Incomplete;
    }
    let b = c[j + 2];
    if (ch2 == '5' && b == 'n') || (ch2 == '0' && b == 'n') || (ch2 == '3' && b == 'n') || (ch2
        == '6' && b == 'n') || (ch2 == '7' && b == 'h') || (ch2 == '7' && b == 'l') || (ch2 == '3'
        && b == 'g') || (ch2 == '1' && b == 'K') || (ch2 == '2' && b == 'K') || (ch2 == '1' && b
        == 'J') || (ch2 == '2' && b == 'J') || (ch2 == '1' && b == 'i') || (ch2 == '4' && b == 'i')
        || (ch2 == '5' && b == 'i') {
        return ScanResult::Read(4, j + 3, false, Vec::new());
    }
    let ghost target = escape_scan(c@, i as nat);
    let mut nums: Vec<u16> = Vec::new();
    let mut s: Vec<char> = Vec::new();
    s.push(ch2);
    assert(s@ =~= seq![ch2]);
    let mut last = b;
    let mut consumed: usize = 4;
    let mut p: usize = j + 3;
    loop
        invariant
            i < p <= n,
            n == c.len(),
            1 <= consumed <= p - i,
            nums.len() + 4 <= p - i,
            var_scan(c@, p as nat, nums@, s@, last, consumed as nat) == target,
            target == escape_scan(c@, i as nat),
        decreases n - p,
    {
        if digit(last) {
            s.push(last);
        } else if last == ';' {
            if parses_u16_exec(&s) {
                let v = u16_value(&s);
                nums.push(v);
                s = Vec::new();
            } else {
                return ScanResult::Read(1, p, false, Vec::new());
            }
        } else if (last == 'A' || last == 'B' || last == 'C' || last == 'D') && parses_u16_exec(&s)
            && nums.len() == 0 {
            return ScanResult::Read(consumed, p, false, Vec::new());
        } else if last == 'c' && s.len() >= 3 && s[s.len() - 1] == '0' {
            let ghost before = s@;
            s.pop();
            assert(s@ =~= before.drop_last());
            if parses_u16_exec(&s) {
                return ScanResult::Read(consumed, p, false, Vec::new());
            } else {
                return ScanResult::Read(1, p, false, Vec::new());
            }
        } else if (last == 'R' || last == 'H' || last == 'f' || last == 'r') && parses_u16_exec(&s)
            && nums.len() == 1 {
            return ScanResult::Read(consumed, p, false, Vec::new());
        } else if last == '"' && nums.len() == 1 {
            let ghost p0 = p;
            while p < n && c[p] != '"'
                invariant
                    i < p0 <= p <= n,
                    n == c.len(),
                    1 <= consumed <= p - i,
                    nums.len() + 4 <= p - i,
                    key_scan(c@, p as nat, nums@, s@, consumed as nat) == target,
                decreases n - p,
            {
                p = p + 1;
                consumed = consumed + 1;
            }
            if p >= n {
                return ScanResult::Incomplete;
            }
            if p + 1 >= n {
                return ScanResult::Incomplete;
            }
            consumed = if c[p + 1] == 'p' {
                consumed + 2
            } else {
                1
            };
            if p + 2 >= n {
                return ScanResult::Incomplete;
            }
            last = c[p + 2];
            consumed = consumed + 1;
            p = p + 3;
            continue ;
        } else if last == 'm' && parses_u16_exec(&s) {
            let v = u16_value(&s);
            nums.push(v);
            return ScanResult::Read(consumed, p, false, nums);
        } else {
            return ScanResult::Read(1, p, false, Vec::new());
        }
        if p >= n {
            return ScanResult::Incomplete;
        }
        last = c[p];
        p = p + 1;
        consumed = consumed + 1;
    }
}


pub proof fn lemma_var_scan_next(c: Seq<char>, p: nat, nums: Seq<u16>, s: Seq<char>, last: char, consumed: nat)
    requires
        p <= c.len(),
    ensures
        var_scan(c, p, nums, s, last, consumed) matches EscapeScan::Read { next, .. } ==> p <= next
            <= c.len(),
    decreases c.len() - p, 1nat,
{
    if is_digit(last) {
        if p < c.len() {
            lemma_var_scan_next(c, p + 1, nums, s.push(last), c[p as int], consumed + 1);
        }
    } else if last == ';' {
        if parses_u16(s) && p < c.len() {
            lemma_var_scan_next(c, p + 1, nums.push(digits_value(s) as u16), Seq::empty(), c[p as int], consumed + 1);
        }
    } else if last == '"' && nums.len() == 1 && !((last == 'A' || last == 'B' || last == 'C' || last
        == 'D') && parses_u16(s) && nums.len() == 0) && !(last == 'c' && s.len() >= 3 && s.last()
        == '0') && !((last == 'R' || last == 'H' || last == 'f' || last == 'r') && parses_u16(s)
        && nums.len() == 1) {
        lemma_key_scan_next(c, p, nums, s, consumed);
    }
}

pub proof fn lemma_key_scan_next(c: Seq<char>, p: nat, nums: Seq<u16>, s: Seq<char>, consumed: nat)
    requires
        p <= c.len(),
    ensures
        key_scan(c, p, nums, s, consumed) matches EscapeScan::Read { next, .. } ==> p <= next
            <= c.len(),
    decreases c.len() - p, 0nat,
{
    if p < c.len() {
        if c[p as int] != '"' {
            lemma_key_scan_next(c, p + 1, nums, s, consumed + 1);
        } else if p + 2 < c.len() {
            let after_p: nat = if c[p + 1 as int] == 'p' {
                consumed + 2
            } else {
                1
            };
            lemma_var_scan_next(c, p + 3, nums, s, c[p + 2 as int], after_p + 1);
        }
    }
}

pub proof fn lemma_escape_scan_next(c: Seq<char>, i: nat)
    ensures
        escape_scan(c, i) matches EscapeScan::Read { next, .. } ==> i < next <= c.len(),
{
    let j = i + 1;
    if j + 2 < c.len() {
        lemma_var_scan_next(c, j + 3, Seq::empty(), seq![c[j + 1 as int]], c[j + 2 as int], 4);
    }
}

/// Where the next text segment starts, as a character index.
pub enum SegStart {
    /// At the character with this index.
    At(nat),
    /// Inside a character or past the end of the input: splitting there fails.
    Broken,
}

/// The character index `k >= from` whose byte offset is `b`, if `b` is a character boundary.
pub open spec fn find_boundary(c: Seq<char>, from: nat, b: nat) -> SegStart
    decreases c.len() + 1 - from,
{
    if from > c.len() {
        SegStart::Broken
    } else if byte_offset(c, from as int) == b {
        SegStart::At(from)
    } else if byte_offset(c, from as int) > b {
        SegStart::Broken
    } else {
        find_boundary(c, from + 1, b)
    }
}

/// A text item seen as its content and, for styled text, its style.
pub type TextView = (Seq<char>, Option<Style>);

/// A run of text, plain or with a style.
pub enum Text {
    Raw(String),
    Styled(String, Style),
}

impl View for Text {
    type V = TextView;

    open spec fn view(&self) -> TextView {
        match self {
            Text::Raw(s) => (s@, None),
            Text::Styled(s, st) => (s@, Some(*st)),
        }
    }
}

impl Text {
    pub fn raw(s: String) -> (t: Text)
        ensures
            t@ == (s@, None::<Style>),
    {
        Text::Raw(s)
    }

    pub fn styled(s: String, style: Style) -> (t: Text)
        ensures
            t@ == (s@, Some(style)),
    {
        Text::Styled(s, style)
    }

    /// The characters of the text, without its style.
    pub fn content(&self) -> (s: &String)
        ensures
            s@ == self@.0,
    {
        match self {
            Text::Raw(s) => s,
            Text::Styled(s, _) => s,
        }
    }

    /// A copy of the text.
    pub fn duplicate(&self) -> (t: Text)
        ensures
            t@ == self@,
    {
        match self {
            Text::Raw(s) => Text::Raw(s.clone()),
            Text::Styled(s, st) => Text::Styled(s.clone(), *st),
        }
    }
}

/// Lines of text items, seen through their views.
pub open spec fn lines_view(out: Seq<Vec<Text>>) -> Seq<Seq<TextView>> {
    out.map_values(|l: Vec<Text>| l@.map_values(|t: Text| t@))
}

/// Appends a text item to the last line.
pub open spec fn push_segment(lines: Seq<Seq<TextView>>, t: TextView) -> Seq<Seq<TextView>> {
    lines.update(lines.len() - 1, lines.last().push(t))
}

/// What processing a string of text and escape sequences gives.
pub enum AnsiResult {
    /// Processing fails: a segment cannot be split off (it would start inside a character).
    Fails,
    /// All the input was processed.
    Complete { style: Style, lines: Seq<Seq<TextView>> },
    /// The input ends inside the escape sequence that starts at character index `at`.
    Pending { at: nat, style: Style, lines: Seq<Seq<TextView>> },
}

/// Processing `c` from character index `i`, with the current segment starting at `seg`.
pub open spec fn ansi_run(
    c: Seq<char>,
    i: nat,
    seg: SegStart,
    style: Style,
    lines: Seq<Seq<TextView>>,
) -> AnsiResult
    decreases c.len() - i,
{
    proof {
        lemma_escape_scan_next(c, i);
    }
    if i >= c.len() {
        match seg {
            SegStart::At(k) => if k <= c.len() {
                AnsiResult::Complete {
                    style,
                    lines: push_segment(lines, (c.subrange(k as int, c.len() as int), Some(style))),
                }
            } else {
                AnsiResult::Fails
            },
            SegStart::Broken => AnsiResult::Fails,
        }
    } else if c[i as int] == '\n' {
        match seg {
            SegStart::At(k) => if k <= i + 1 {
                ansi_run(
                    c,
                    i + 1,
                    SegStart::At(i + 1),
                    style,
                    push_segment(lines, (c.subrange(k as int, i + 1 as int), Some(style))).push(
                        Seq::empty(),
                    ),
                )
            } else {
                AnsiResult::Fails
            },
            SegStart::Broken => AnsiResult::Fails,
        }
    } else if c[i as int] == esc() {
        let before: Option<Seq<Seq<TextView>>> = match seg {
            SegStart::At(k) => if k == i {
                Some(lines)
            } else if k < i {
                Some(push_segment(lines, (c.subrange(k as int, i as int), Some(style))))
            } else {
                None
            },
            SegStart::Broken => None,
        };
        match before {
            None => AnsiResult::Fails,
            Some(lines1) => match escape_scan(c, i) {
                EscapeScan::Incomplete => AnsiResult::Pending { at: i, style, lines: lines1 },
                EscapeScan::Read { consumed, next, reset, codes } => {
                    ansi_run(
                        c,
                        next,
                        find_boundary(c, i + 1, (byte_offset(c, i as int) + consumed) as nat),
                        after_escape(style, reset, codes),
                        lines1,
                    )
                },
            },
        }
    } else {
        ansi_run(c, i + 1, seg, style, lines)
    }
}

/// Whether processing `c` from character index `i`, the current segment starting at `seg`,
/// fails: whether some segment would have to be split off inside a character. This does not
/// depend on the style or on the text already held.
pub open spec fn fails_from(c: Seq<char>, i: nat, seg: SegStart) -> bool
    decreases c.len() - i,
{
    proof {
        lemma_escape_scan_next(c, i);
    }
    if i >= c.len() {
        match seg {
            SegStart::At(k) => k > c.len(),
            SegStart::Broken => true,
        }
    } else if c[i as int] == '\n' {
        match seg {
            SegStart::At(k) => if k <= i + 1 {
                fails_from(c, i + 1, SegStart::At(i + 1))
            } else {
                true
            },
            SegStart::Broken => true,
        }
    } else if c[i as int] == esc() {
        let ok = match seg {
            SegStart::At(k) => k <= i,
            SegStart::Broken => false,
        };
        if !ok {
            true
        } else {
            match escape_scan(c, i) {
                EscapeScan::Incomplete => false,
                EscapeScan::Read { consumed, next, .. } => fails_from(
                    c,
                    next,
                    find_boundary(c, i + 1, (byte_offset(c, i as int) + consumed) as nat),
                ),
            }
        }
    } else {
        fails_from(c, i + 1, seg)
    }
}

/// Processing fails exactly where `fails_from` says, whatever the style and the text held.
pub proof fn lemma_fails_from(c: Seq<char>, i: nat, seg: SegStart, style: Style, lines: Seq<Seq<TextView>>)
    ensures
        (ansi_run(c, i, seg, style, lines) is Fails) == fails_from(c, i, seg),
    decreases c.len() - i,
{
    lemma_escape_scan_next(c, i);
    if i >= c.len() {
    } else if c[i as int] == '\n' {
        match seg {
            SegStart::At(k) => if k <= i + 1 {
                lemma_fails_from(
                    c,
                    i + 1,
                    SegStart::At(i + 1),
                    style,
                    push_segment(lines, (c.subrange(k as int, i + 1 as int), Some(style))).push(
                        Seq::empty(),
                    ),
                );
            },
            SegStart::Broken => {},
        }
    } else if c[i as int] == esc() {
        let before: Option<Seq<Seq<TextView>>> = match seg {
            SegStart::At(k) => if k == i {
                Some(lines)
            } else if k < i {
                Some(push_segment(lines, (c.subrange(k as int, i as int), Some(style))))
            } else {
                None
            },
            SegStart::Broken => None,
        };
        match before {
            None => {},
            Some(lines1) => match escape_scan(c, i) {
                EscapeScan::Incomplete => {},
                EscapeScan::Read { consumed, next, reset, codes } => {
                    lemma_fails_from(
                        c,
                        next,
                        find_boundary(c, i + 1, (byte_offset(c, i as int) + consumed) as nat),
                        after_escape(style, reset, codes),
                        lines1,
                    );
                },
            },
        }
    } else {
        lemma_fails_from(c, i + 1, seg, style, lines);
    }
}

/// The lines as the processing starts: one empty line if there were none.
pub open spec fn normalized(lines: Seq<Seq<TextView>>) -> Seq<Seq<TextView>> {
    if lines.len() == 0 {
        seq![Seq::empty()]
    } else {
        lines
    }
}

/// Processing a whole input string.
pub open spec fn ansi_spec(c: Seq<char>, style: Style, lines: Seq<Seq<TextView>>) -> AnsiResult {
    ansi_run(c, 0, SegStart::At(0), style, normalized(lines))
}


pub open spec fn seg_view(ok: bool, k: usize) -> SegStart {
    if ok {
        SegStart::At(k as nat)
    } else {
        SegStart::Broken
    }
}

/// Appends a text item to the last line of `out`.
fn push_to_last_line(out: &mut Vec<Vec<Text>>, t: Text)
    requires
        old(out).len() > 0,
    ensures
        final(out).len() == old(out).len(),
        lines_view(final(out)@) == push_segment(lines_view(old(out)@), t@),
{
    let ghost tv = t@;
    let mut line = out.pop().unwrap();
    line.push(t);
    out.push(line);
    assert(lines_view(out@) =~= push_segment(lines_view(old(out)@), tv)) by {
        assert forall|k: int| 0 <= k < out@.len() - 1 implies lines_view(out@)[k]
            == lines_view(old(out)@)[k] by {
            assert(out@[k] == old(out)@[k]);
        }
        assert(lines_view(out@)[out@.len() - 1] =~= lines_view(old(out)@).last().push(tv));
    }
}

/// Starts a new, empty line.
fn push_line(out: &mut Vec<Vec<Text>>)
    ensures
        lines_view(final(out)@) == lines_view(old(out)@).push(Seq::empty()),
{
    out.push(Vec::new());
    assert(lines_view(out@) =~= lines_view(old(out)@).push(Seq::empty())) by {
        assert(lines_view(out@)[out@.len() - 1] =~= Seq::<TextView>::empty());
    }
}

/// Locates the character that starts `consumed` bytes after the escape character at `i`.
fn boundary_after(c: &Vec<char>, offs: &Vec<u128>, i: usize, consumed: usize) -> (r: (bool, usize))
    requires
        i < c.len(),
        offs.len() == c.len() + 1,
        forall|k: int| 0 <= k <= c.len() ==> offs[k] == byte_offset(c@, k),
        forall|k: int| 0 <= k <= c.len() ==> offs[k] <= 4 * k,
    ensures
        seg_view(r.0, r.1) == find_boundary(
            c@,
            i as nat + 1,
            (byte_offset(c@, i as int) + consumed) as nat,
        ),
        r.0 ==> r.1 <= c.len(),
{
    let ghost b: nat = (byte_offset(c@, i as int) + consumed) as nat;
    let target: u128 = offs[i] + consumed as u128;
    let mut k: usize = i + 1;
    while k <= c.len() && offs[k] < target
        invariant
            i < k <= c.len() + 1,
            target == b,
            offs.len() == c.len() + 1,
            forall|j: int| 0 <= j <= c.len() ==> offs[j] == byte_offset(c@, j),
            find_boundary(c@, k as nat, b) == find_boundary(c@, i as nat + 1, b),
        decreases c.len() + 1 - k,
    {
        k = k + 1;
    }
    if k <= c.len() && offs[k] == target {
        (true, k)
    } else {
        (false, 0)
    }
}

/// Takes a string with ANSI escape sequences and appends its text to `out`, a sequence of
/// lines of styled text items, using `current_style` for the text and updating it as the
/// sequences say. A newline ends the current line.
///
/// Returns an `Err` with the unprocessed rest of the input when it ends in the middle of an
/// escape sequence; callers should pass those characters again at the start of the next
/// input.
pub fn ansi_string_to_tui_text<'s>(
    inp: &'s str,
    current_style: &mut Style,
    out: &mut Vec<Vec<Text>>,
) -> (r: Result<(), &'s str>)
    requires
        !(ansi_spec(inp@, *old(current_style), lines_view(old(out)@)) is Fails),
    ensures
        match ansi_spec(inp@, *old(current_style), lines_view(old(out)@)) {
            AnsiResult::Complete { style, lines } => {
                &&& r is Ok
                &&& *final(current_style) == style
                &&& lines_view(final(out)@) == lines
            },
            AnsiResult::Pending { at, style, lines } => {
                &&& r matches Err(rest) && rest@ == inp@.subrange(at as int, inp@.len() as int)
                &&& *final(current_style) == style
                &&& lines_view(final(out)@) == lines
            },
            AnsiResult::Fails => false,
        },
{
    let ghost target = ansi_spec(inp@, *old(current_style), lines_view(old(out)@));
    if out.len() == 0 {
        push_line(out);
        assert(lines_view(out@) =~= seq![Seq::<TextView>::empty()]);
    }
    assert(lines_view(out@) == normalized(lines_view(old(out)@)));
    let c = chars_of(inp);
    let offs = byte_offsets(&c);
    let n = c.len();
    let mut i: usize = 0;
    let mut seg_ok = true;
    let mut seg: usize = 0;
    while i < n
        invariant
            i <= n,
            n == c.len(),
            c@ == inp@,
            out.len() > 0,
            offs.len() == c.len() + 1,
            forall|k: int| 0 <= k <= c.len() ==> offs[k] == byte_offset(c@, k),
            forall|k: int| 0 <= k <= c.len() ==> offs[k] <= 4 * k,
            seg_ok ==> seg <= n,
            ansi_run(c@, i as nat, seg_view(seg_ok, seg), *current_style, lines_view(out@))
                == target,
            !(target is Fails),
            target == ansi_spec(inp@, *old(current_style), lines_view(old(out)@)),
        decreases n - i,
    {
        let ch = c[i];
        if ch == '\n' {
            let text = inp.substring_char(seg, i + 1).to_owned();
            push_to_last_line(out, Text::styled(text, *current_style));
            push_line(out);
            seg_ok = true;
            seg = i + 1;
            i = i + 1;
        } else if ch == '\x1b' {
            if !(seg_ok && seg == i) {
                let text = inp.substring_char(seg, i).to_owned();
                push_to_last_line(out, Text::styled(text, *current_style));
            }
            match scan_escape(&c, i) {
                ScanResult::Incomplete => {
                    return Err(inp.substring_char(i, n));
                },
                ScanResult::Read(consumed, next, reset, codes) => {
                    if reset {
                        current_style.reset();
                    } else {
                        apply_sgr(current_style, &codes);
                    }
                    let (ok, k) = boundary_after(&c, &offs, i, consumed);
                    seg_ok = ok;
                    seg = k;
                    i = next;
                },
            }
        } else {
            i = i + 1;
        }
    }
    let text = inp.substring_char(seg, n).to_owned();
    push_to_last_line(out, Text::styled(text, *current_style));
    Ok(())
}


/// All the characters of a line of text items, in order.
pub open spec fn line_text(line: Seq<TextView>) -> Seq<char>
    decreases line.len(),
{
    if line.len() == 0 {
        Seq::empty()
    } else {
        line_text(line.drop_last()) + line.last().0
    }
}

/// All the characters of all lines, in order.
pub open spec fn all_text(lines: Seq<Seq<TextView>>) -> Seq<char>
    decreases lines.len(),
{
    if lines.len() == 0 {
        Seq::empty()
    } else {
        all_text(lines.drop_last()) + line_text(lines.last())
    }
}

/// The text items of the lines `lo..hi`, in order.
pub open spec fn items_in(lines: Seq<Seq<TextView>>, lo: int, hi: int) -> Seq<TextView>
    decreases hi - lo,
{
    if hi <= lo {
        Seq::empty()
    } else {
        items_in(lines, lo, hi - 1) + lines[hi - 1]
    }
}

/// A bound of a range of line numbers.
#[derive(Debug, Clone, Copy, PartialEq, Eq, Structural)]
pub enum LineBound {
    Included(usize),
    Excluded(usize),
    Unbounded,
}

/// First line of a range (inclusive).
pub open spec fn range_start(b: LineBound) -> int {
    match b {
        LineBound::Included(i) => i as int,
        LineBound::Excluded(e) => e + 1,
        LineBound::Unbounded => 0,
    }
}

/// End of a range (exclusive), for `len` lines.
pub open spec fn range_end(b: LineBound, len: int) -> int {
    match b {
        LineBound::Included(i) => i + 1,
        LineBound::Excluded(e) => e as int,
        LineBound::Unbounded => len,
    }
}

/// Whether the bound of a range can be turned into a line number.
pub open spec fn bound_fits(b: LineBound) -> bool {
    match b {
        LineBound::Included(i) => i < usize::MAX,
        LineBound::Excluded(e) => e < usize::MAX,
        LineBound::Unbounded => true,
    }
}

pub open spec fn min_int(a: int, b: int) -> int {
    if a <= b {
        a
    } else {
        b
    }
}

/// Holds the lines of text read from a stream of characters with ANSI escape sequences,
/// together with the characters of an escape sequence that has not arrived whole yet and the
/// current style.
pub struct AnsiTextContainer {
    lines: Vec<Vec<Text>>,
    pending: String,
    style: Style,
}

impl AnsiTextContainer {
    /// The lines held.
    pub closed spec fn lines(&self) -> Seq<Seq<TextView>> {
        lines_view(self.lines@)
    }

    /// Characters waiting for the rest of their escape sequence.
    pub closed spec fn pending(&self) -> Seq<char> {
        self.pending@
    }

    /// The style for the text that comes next.
    pub closed spec fn style(&self) -> Style {
        self.style
    }

    pub fn new() -> (c: Self)
        ensures
            c.lines() == seq![Seq::<TextView>::empty()],
            c.pending() == Seq::<char>::empty(),
            c.style() == Style::plain(),
    {
        let mut lines: Vec<Vec<Text>> = Vec::with_capacity(1024);
        lines.push(Vec::new());
        let c = AnsiTextContainer { lines, pending: String::new(), style: Style::new() };
        assert(c.lines()[0] =~= Seq::<TextView>::empty());
        assert(c.lines() =~= seq![Seq::<TextView>::empty()]);
        c
    }

    /// Appends a string to the stream: the characters pending from before, then `new`, are
    /// processed. What ends inside an escape sequence stays pending.
    pub fn push_string(&mut self, new: String)
        requires
            !(ansi_spec(old(self).pending() + new@, old(self).style(), old(self).lines()) is Fails),
        ensures
            match ansi_spec(old(self).pending() + new@, old(self).style(), old(self).lines()) {
                AnsiResult::Complete { style, lines } => {
                    &&& final(self).lines() == lines
                    &&& final(self).style() == style
                    &&& final(self).pending() == Seq::<char>::empty()
                },
                AnsiResult::Pending { at, style, lines } => {
                    &&& final(self).lines() == lines
                    &&& final(self).style() == style
                    &&& final(self).pending() == (old(self).pending() + new@).subrange(
                        at as int,
                        (old(self).pending() + new@).len() as int,
                    )
                },
                AnsiResult::Fails => false,
            },
            (final(self).pending(), final(self).style(), final(self).lines()) == pushed(
                old(self).pending(),
                old(self).style(),
                old(self).lines(),
                new@,
            ),
    {
        if self.pending.as_str().is_empty() {
            assert(old(self).pending() + new@ =~= new@);
            self.pending = new;
        } else {
            self.pending.append(new.as_str());
        }
        let r = ansi_string_to_tui_text(self.pending.as_str(), &mut self.style, &mut self.lines);
        match r {
            Ok(()) => {
                self.pending = String::new();
            },
            Err(rest) => {
                let kept = rest.to_owned();
                self.pending = kept;
            },
        }
    }

    /// Whether `push_string` can take `new`: whether processing the pending characters and
    /// `new` never has to split a segment off inside a character.
    pub fn accepts(&self, new: &String) -> (b: bool)
        ensures
            b == !(ansi_spec(self.pending() + new@, self.style(), self.lines()) is Fails),
    {
        let mut all = String::new();
        all.append(self.pending.as_str());
        all.append(new.as_str());
        assert(all@ =~= self.pending() + new@);
        proof {
            lemma_fails_from(all@, 0, SegStart::At(0), self.style(), normalized(self.lines()));
        }
        let c = chars_of(all.as_str());
        let offs = byte_offsets(&c);
        let n = c.len();
        let mut i: usize = 0;
        let mut seg_ok = true;
        let mut seg: usize = 0;
        while i < n
            invariant
                i <= n,
                n == c.len(),
                c@ == all@,
                offs.len() == c.len() + 1,
                forall|k: int| 0 <= k <= c.len() ==> offs[k] == byte_offset(c@, k),
                forall|k: int| 0 <= k <= c.len() ==> offs[k] <= 4 * k,
                seg_ok ==> seg <= n,
                fails_from(c@, i as nat, seg_view(seg_ok, seg)) == fails_from(c@, 0, SegStart::At(0)),
                fails_from(c@, 0, SegStart::At(0)) == (ansi_spec(self.pending() + new@, self.style(), self.lines()) is Fails),
            decreases n - i,
        {
            let ch = c[i];
            if ch == '\n' {
                if !(seg_ok && seg <= i + 1) {
                    return false;
                }
                seg_ok = true;
                seg = i + 1;
                i = i + 1;
            } else if ch == '\x1b' {
                if !(seg_ok && seg <= i) {
                    return false;
                }
                match scan_escape(&c, i) {
                    ScanResult::Incomplete => {
                        return true;
                    },
                    ScanResult::Read(consumed, next, _, _) => {
                        let (ok, k) = boundary_after(&c, &offs, i, consumed);
                        seg_ok = ok;
                        seg = k;
                        i = next;
                    },
                }
            } else {
                i = i + 1;
            }
        }
        seg_ok && seg <= n
    }

    /// Removes every line.
    pub fn clear(&mut self)
        ensures
            final(self).lines() == Seq::<Seq<TextView>>::empty(),
            final(self).pending() == old(self).pending(),
            final(self).style() == old(self).style(),
    {
        self.lines.clear();
        assert(self.lines() =~= Seq::<Seq<TextView>>::empty());
    }

    /// The text items of the lines in the given range (the part of it that exists), in order.
    pub fn get_lines(&self, start: LineBound, end: LineBound) -> (items: Vec<Text>)
        requires
            bound_fits(start),
            bound_fits(end),
        ensures
            ({
                let len = self.lines().len() as int;
                let lo = min_int(range_start(start), len);
                let hi = min_int(range_end(end, len), len);
                items@.map_values(|t: Text| t@) == items_in(self.lines(), lo, hi)
            }),
    {
        let len = self.lines.len();
        let lower: usize = match start {
            LineBound::Included(i) => i,
            LineBound::Excluded(e) => e + 1,
            LineBound::Unbounded => 0,
        };
        let upper: usize = match end {
            LineBound::Included(i) => i + 1,
            LineBound::Excluded(e) => e,
            LineBound::Unbounded => len,
        };
        let lo = if lower < len {
            lower
        } else {
            len
        };
        let hi = if upper < len {
            upper
        } else {
            len
        };
        let mut items: Vec<Text> = Vec::new();
        let mut k = lo;
        assert(items@.map_values(|t: Text| t@) =~= items_in(self.lines(), lo as int, lo as int));
        while k < hi
            invariant
                lo <= k <= len,
                k <= hi || k == lo,
                hi <= len,
                len == self.lines@.len(),
                items@.map_values(|t: Text| t@) == items_in(self.lines(), lo as int, k as int),
            decreases hi - k,
        {
            let line = &self.lines[k];
            let mut j: usize = 0;
            let ghost before = items@.map_values(|t: Text| t@);
            while j < line.len()
                invariant
                    j <= line.len(),
                    line@ == self.lines@[k as int]@,
                    items@.map_values(|t: Text| t@) == before + line@.map_values(|t: Text| t@).take(
                        j as int,
                    ),
                decreases line.len() - j,
            {
                let t = line[j].duplicate();
                let ghost prev = items@;
                items.push(t);
                assert(items@ == prev.push(t));
                assert(items@.map_values(|t: Text| t@) =~= prev.map_values(|t: Text| t@).push(
                    line@[j as int]@,
                ));
                assert(line@.map_values(|t: Text| t@).take(j + 1) =~= line@.map_values(
                    |t: Text| t@,
                ).take(j as int).push(line@[j as int]@));
                j = j + 1;
                assert(items@.map_values(|t: Text| t@) =~= before + line@.map_values(
                    |t: Text| t@,
                ).take(j as int));
            }
            assert(line@.map_values(|t: Text| t@).take(j as int) =~= line@.map_values(
                |t: Text| t@,
            ));
            assert(self.lines()[k as int] == line@.map_values(|t: Text| t@));
            k = k + 1;
        }
        if hi < lo {
            assert(items_in(self.lines(), lo as int, hi as int) =~= Seq::<TextView>::empty());
        }
        items
    }

    /// All the text held, without escape sequences or styles.
    pub fn as_string(&self) -> (s: String)
        ensures
            s@ == all_text(self.lines()),
    {
        let mut s = String::new();
        let mut k: usize = 0;
        assert(self.lines().take(0) =~= Seq::<Seq<TextView>>::empty());
        while k < self.lines.len()
            invariant
                k <= self.lines.len(),
                s@ == all_text(self.lines().take(k as int)),
            decreases self.lines.len() - k,
        {
            let line = &self.lines[k];
            let mut j: usize = 0;
            let ghost lv = self.lines()[k as int];
            let ghost before = s@;
            assert(lv.take(0) =~= Seq::<TextView>::empty());
            while j < line.len()
                invariant
                    j <= line.len(),
                    lv == line@.map_values(|t: Text| t@),
                    s@ == before + line_text(lv.take(j as int)),
                decreases line.len() - j,
            {
                s.append(line[j].content().as_str());
                assert(lv.take(j + 1).drop_last() =~= lv.take(j as int));
                j = j + 1;
            }
            assert(lv.take(j as int) =~= lv);
            assert(self.lines().take(k + 1).drop_last() =~= self.lines().take(k as int));
            k = k + 1;
        }
        assert(self.lines().take(k as int) =~= self.lines());
        s
    }
}


/// No escape character occurs in `c`.
pub open spec fn has_no_escape(c: Seq<char>) -> bool {
    forall|i: int| 0 <= i < c.len() ==> c[i] != esc()
}

proof fn lemma_all_text_push_segment(lines: Seq<Seq<TextView>>, t: TextView)
    requires
        lines.len() > 0,
    ensures
        all_text(push_segment(lines, t)) == all_text(lines) + t.0,
{
    let out = push_segment(lines, t);
    assert(out.drop_last() =~= lines.drop_last());
    assert(out.last() == lines.last().push(t));
    assert(lines.last().push(t).drop_last() =~= lines.last());
    assert(all_text(out) == all_text(lines.drop_last()) + (line_text(lines.last()) + t.0));
    assert(all_text(lines) == all_text(lines.drop_last()) + line_text(lines.last()));
    assert(all_text(lines.drop_last()) + (line_text(lines.last()) + t.0) =~= all_text(
        lines.drop_last(),
    ) + line_text(lines.last()) + t.0);
}

proof fn lemma_all_text_new_line(lines: Seq<Seq<TextView>>)
    ensures
        all_text(lines.push(Seq::empty())) == all_text(lines),
{
    let out = lines.push(Seq::<TextView>::empty());
    assert(out.drop_last() =~= lines);
    assert(line_text(Seq::<TextView>::empty()) =~= Seq::<char>::empty());
    assert(all_text(out) =~= all_text(lines));
}

proof fn lemma_run_plain(c: Seq<char>, i: nat, k: nat, style: Style, lines: Seq<Seq<TextView>>)
    requires
        has_no_escape(c),
        k <= i <= c.len(),
        lines.len() > 0,
    ensures
        ansi_run(c, i, SegStart::At(k), style, lines) matches AnsiResult::Complete {
            style: st,
            lines: out,
        } && st == style && all_text(out) == all_text(lines) + c.subrange(k as int, c.len() as int),
    decreases c.len() - i,
{
    if i >= c.len() {
        lemma_all_text_push_segment(lines, (c.subrange(k as int, c.len() as int), Some(style)));
    } else if c[i as int] == '\n' {
        let t = (c.subrange(k as int, i + 1 as int), Some(style));
        let lines2 = push_segment(lines, t).push(Seq::empty());
        lemma_all_text_push_segment(lines, t);
        lemma_all_text_new_line(push_segment(lines, t));
        lemma_run_plain(c, i + 1, i + 1, style, lines2);
        assert(all_text(lines) + c.subrange(k as int, i + 1 as int) + c.subrange(
            i + 1 as int,
            c.len() as int,
        ) =~= all_text(lines) + c.subrange(k as int, c.len() as int));
    } else {
        assert(c[i as int] != esc());
        lemma_run_plain(c, i + 1, k, style, lines);
    }
}

/// Text without escape characters passes through as it is: processing it completes, keeps
/// the style, and appends exactly its characters to the text held.
pub proof fn law_plain_text_passes_through(c: Seq<char>, style: Style, lines: Seq<Seq<TextView>>)
    requires
        has_no_escape(c),
    ensures
        ansi_spec(c, style, lines) matches AnsiResult::Complete { style: st, lines: out } && st
            == style && all_text(out) == all_text(normalized(lines)) + c,
{
    lemma_run_plain(c, 0, 0, style, normalized(lines));
    assert(c.subrange(0, c.len() as int) =~= c);
}

/// Whether every character is ASCII, one byte in UTF-8.
pub open spec fn all_ascii(c: Seq<char>) -> bool {
    forall|i: int| 0 <= i < c.len() ==> (#[trigger] c[i] as u32) < 128
}

proof fn lemma_var_scan_consumed(
    c: Seq<char>,
    base: nat,
    p: nat,
    nums: Seq<u16>,
    s: Seq<char>,
    last: char,
    consumed: nat,
)
    requires
        p <= c.len(),
        1 <= consumed,
        base + consumed <= p,
    ensures
        var_scan(c, p, nums, s, last, consumed) matches EscapeScan::Read { consumed: k, next, .. }
            ==> 1 <= k && base + k <= next,
    decreases c.len() - p, 1nat,
{
    if is_digit(last) {
        if p < c.len() {
            lemma_var_scan_consumed(c, base, p + 1, nums, s.push(last), c[p as int], consumed + 1);
        }
    } else if last == ';' {
        if parses_u16(s) && p < c.len() {
            lemma_var_scan_consumed(c, base, p + 1, nums.push(digits_value(s) as u16), Seq::empty(), c[p as int], consumed + 1);
        }
    } else if last == '"' && nums.len() == 1 && !((last == 'A' || last == 'B' || last == 'C' || last
        == 'D') && parses_u16(s) && nums.len() == 0) && !(last == 'c' && s.len() >= 3 && s.last()
        == '0') && !((last == 'R' || last == 'H' || last == 'f' || last == 'r') && parses_u16(s)
        && nums.len() == 1) {
        lemma_key_scan_consumed(c, base, p, nums, s, consumed);
    }
}

proof fn lemma_key_scan_consumed(c: Seq<char>, base: nat, p: nat, nums: Seq<u16>, s: Seq<char>, consumed: nat)
    requires
        p <= c.len(),
        1 <= consumed,
        base + consumed <= p,
    ensures
        key_scan(c, p, nums, s, consumed) matches EscapeScan::Read { consumed: k, next, .. } ==> 1
            <= k && base + k <= next,
    decreases c.len() - p, 0nat,
{
    if p < c.len() {
        if c[p as int] != '"' {
            lemma_key_scan_consumed(c, base, p + 1, nums, s, consumed + 1);
        } else if p + 2 < c.len() {
            let after_p: nat = if c[p + 1 as int] == 'p' {
                consumed + 2
            } else {
                1
            };
            lemma_var_scan_consumed(c, base, p + 3, nums, s, c[p + 2 as int], after_p + 1);
        }
    }
}

/// A sequence that was read takes at least its escape character, and no more than what was
/// read.
proof fn lemma_escape_scan_consumed(c: Seq<char>, i: nat)
    ensures
        escape_scan(c, i) matches EscapeScan::Read { consumed, next, .. } ==> 1 <= consumed && i
            + consumed <= next,
{
    let j = i + 1;
    if j + 2 < c.len() {
        lemma_var_scan_consumed(c, i, j + 3, Seq::empty(), seq![c[j + 1 as int]], c[j + 2 as int], 4);
    }
}

/// The characters that show when `c` is read from index `i` on: the escape sequences are
/// left out, and reading stops at a sequence that is cut off.
pub open spec fn visible(c: Seq<char>, i: nat) -> Seq<char>
    decreases c.len() - i,
{
    proof {
        lemma_escape_scan_next(c, i);
    }
    if i >= c.len() {
        Seq::empty()
    } else if c[i as int] == esc() {
        match escape_scan(c, i) {
            EscapeScan::Read { consumed, next, .. } => c.subrange((i + consumed) as int, next as int)
                + visible(c, next),
            _ => Seq::empty(),
        }
    } else {
        seq![c[i as int]] + visible(c, i + 1)
    }
}

proof fn lemma_ascii_offset(c: Seq<char>, k: nat)
    requires
        all_ascii(c),
        k <= c.len(),
    ensures
        byte_offset(c, k as int) == k,
    decreases k,
{
    if k == 0 {
        assert(c.take(0) =~= Seq::<char>::empty());
    } else {
        lemma_ascii_offset(c, (k - 1) as nat);
        lemma_byte_offset_step(c, k - 1);
        assert((c[k - 1] as u32) < 128);
        assert(encode_scalar(c[k - 1] as u32).len() == 1);
    }
}

proof fn lemma_ascii_boundary(c: Seq<char>, from: nat, b: nat)
    requires
        all_ascii(c),
        from <= b <= c.len(),
    ensures
        find_boundary(c, from, b) == SegStart::At(b),
    decreases b - from,
{
    lemma_ascii_offset(c, from);
    if from < b {
        lemma_ascii_boundary(c, from + 1, b);
    }
}

proof fn lemma_run_visible(c: Seq<char>, i: nat, k: nat, style: Style, lines: Seq<Seq<TextView>>)
    requires
        all_ascii(c),
        k <= i <= c.len(),
        lines.len() > 0,
    ensures
        ansi_run(c, i, SegStart::At(k), style, lines) matches AnsiResult::Complete { lines: out, .. }
            ==> all_text(out) == all_text(lines) + c.subrange(k as int, i as int) + visible(c, i),
    decreases c.len() - i,
{
    lemma_escape_scan_next(c, i);
    lemma_escape_scan_consumed(c, i);
    if i >= c.len() {
        lemma_all_text_push_segment(lines, (c.subrange(k as int, c.len() as int), Some(style)));
        assert(all_text(lines) + c.subrange(k as int, i as int) + visible(c, i) =~= all_text(lines)
            + c.subrange(k as int, c.len() as int));
    } else if c[i as int] == '\n' {
        let t = (c.subrange(k as int, i + 1 as int), Some(style));
        let lines2 = push_segment(lines, t).push(Seq::empty());
        lemma_all_text_push_segment(lines, t);
        lemma_all_text_new_line(push_segment(lines, t));
        lemma_run_visible(c, i + 1, i + 1, style, lines2);
        assert(all_text(lines) + c.subrange(k as int, i + 1 as int) + c.subrange(
            i + 1 as int,
            i + 1 as int,
        ) + visible(c, i + 1) =~= all_text(lines) + c.subrange(k as int, i as int) + visible(c, i));
    } else if c[i as int] == esc() {
        let lines1 = if k == i {
            lines
        } else {
            push_segment(lines, (c.subrange(k as int, i as int), Some(style)))
        };
        if k < i {
            lemma_all_text_push_segment(lines, (c.subrange(k as int, i as int), Some(style)));
        } else {
            assert(c.subrange(k as int, i as int) =~= Seq::<char>::empty());
            assert(all_text(lines) + c.subrange(k as int, i as int) =~= all_text(lines));
        }
        assert(all_text(lines1) == all_text(lines) + c.subrange(k as int, i as int));
        match escape_scan(c, i) {
            EscapeScan::Read { consumed, next, reset, codes } => {
                lemma_ascii_offset(c, i);
                lemma_ascii_boundary(c, i + 1, i + consumed);
                let st2 = after_escape(style, reset, codes);
                lemma_run_visible(c, next, i + consumed, st2, lines1);
                assert(all_text(lines1) + c.subrange((i + consumed) as int, next as int) + visible(c, next)
                    =~= all_text(lines) + c.subrange(k as int, i as int) + visible(c, i));
            },
            _ => {},
        }
    } else {
        lemma_run_visible(c, i + 1, k, style, lines);
        assert(c.subrange(k as int, i + 1 as int) + visible(c, i + 1) =~= c.subrange(k as int, i as int)
            + visible(c, i));
        assert(all_text(lines) + c.subrange(k as int, i + 1 as int) + visible(c, i + 1)
            =~= all_text(lines) + c.subrange(k as int, i as int) + visible(c, i));
    }
}

/// Processing drops the escape sequences and keeps every other character: when processing
/// ASCII text completes, the text held grows by exactly its visible characters.
pub proof fn law_escapes_are_elided(c: Seq<char>, style: Style, lines: Seq<Seq<TextView>>)
    requires
        all_ascii(c),
    ensures
        ansi_spec(c, style, lines) matches AnsiResult::Complete { lines: out, .. } ==> all_text(out)
            == all_text(normalized(lines)) + visible(c, 0),
{
    lemma_run_visible(c, 0, 0, style, normalized(lines));
    assert(c.subrange(0, 0) =~= Seq::<char>::empty());
    assert(all_text(normalized(lines)) + c.subrange(0, 0) =~= all_text(normalized(lines)));
}

/// Whether `out` extends `lines`: every line but the last is unchanged, the last line's items
/// are kept as a prefix, and lines may follow.
pub open spec fn extends(out: Seq<Seq<TextView>>, lines: Seq<Seq<TextView>>) -> bool {
    &&& lines.len() > 0
    &&& out.len() >= lines.len()
    &&& forall|j: int| 0 <= j < lines.len() - 1 ==> out[j] == lines[j]
    &&& out[lines.len() - 1].len() >= lines.last().len()
    &&& out[lines.len() - 1].take(lines.last().len() as int) == lines.last()
}

proof fn lemma_extends_trans(a: Seq<Seq<TextView>>, b: Seq<Seq<TextView>>, c: Seq<Seq<TextView>>)
    requires
        extends(b, a),
        extends(c, b),
    ensures
        extends(c, a),
{
    let la = a.len() - 1;
    if b.len() - 1 == la {
        assert(c[la].take(a.last().len() as int) =~= c[la].take(b.last().len() as int).take(
            a.last().len() as int,
        ));
    } else {
        assert(c[la] == b[la]);
    }
}

proof fn lemma_extends_push_segment(lines: Seq<Seq<TextView>>, t: TextView)
    requires
        lines.len() > 0,
    ensures
        extends(push_segment(lines, t), lines),
        extends(push_segment(lines, t).push(Seq::empty()), lines),
{
    let out = push_segment(lines, t);
    assert(out[lines.len() - 1].take(lines.last().len() as int) =~= lines.last());
    let out2 = out.push(Seq::<TextView>::empty());
    assert(out2[lines.len() - 1] == out[lines.len() - 1]);
}

proof fn lemma_extends_refl(lines: Seq<Seq<TextView>>)
    requires
        lines.len() > 0,
    ensures
        extends(lines, lines),
{
    assert(lines[lines.len() - 1].take(lines.last().len() as int) =~= lines.last());
}

proof fn lemma_run_extends(c: Seq<char>, i: nat, seg: SegStart, style: Style, lines: Seq<Seq<TextView>>)
    requires
        lines.len() > 0,
    ensures
        ansi_run(c, i, seg, style, lines) matches AnsiResult::Complete { lines: out, .. } ==> extends(
            out,
            lines,
        ),
        ansi_run(c, i, seg, style, lines) matches AnsiResult::Pending { lines: out, at, .. } ==> extends(
            out,
            lines,
        ) && at < c.len() && c[at as int] == esc(),
    decreases c.len() - i,
{
    lemma_extends_refl(lines);
    lemma_escape_scan_next(c, i);
    if i >= c.len() {
        match seg {
            SegStart::At(k) => {
                if k <= c.len() {
                    lemma_extends_push_segment(lines, (c.subrange(k as int, c.len() as int), Some(style)));
                }
            },
            SegStart::Broken => {},
        }
    } else if c[i as int] == '\n' {
        match seg {
            SegStart::At(k) => {
                if k <= i + 1 {
                    let t = (c.subrange(k as int, i + 1 as int), Some(style));
                    let lines2 = push_segment(lines, t).push(Seq::empty());
                    lemma_extends_push_segment(lines, t);
                    lemma_run_extends(c, i + 1, SegStart::At(i + 1), style, lines2);
                    if ansi_run(c, i + 1, SegStart::At(i + 1), style, lines2) is Complete {
                        lemma_extends_trans(lines, lines2, ansi_run(c, i + 1, SegStart::At(i + 1), style, lines2)->Complete_lines);
                    }
                    if ansi_run(c, i + 1, SegStart::At(i + 1), style, lines2) is Pending {
                        lemma_extends_trans(lines, lines2, ansi_run(c, i + 1, SegStart::At(i + 1), style, lines2)->Pending_lines);
                    }
                }
            },
            SegStart::Broken => {},
        }
    } else if c[i as int] == esc() {
        let before: Option<Seq<Seq<TextView>>> = match seg {
            SegStart::At(k) => if k == i {
                Some(lines)
            } else if k < i {
                Some(push_segment(lines, (c.subrange(k as int, i as int), Some(style))))
            } else {
                None
            },
            SegStart::Broken => None,
        };
        match seg {
            SegStart::At(k) => if k < i {
                lemma_extends_push_segment(lines, (c.subrange(k as int, i as int), Some(style)));
            },
            SegStart::Broken => {},
        }
        match before {
            None => {},
            Some(lines1) => match escape_scan(c, i) {
                EscapeScan::Read { consumed, next, reset, codes } => {
                    let seg2 = find_boundary(c, i + 1, (byte_offset(c, i as int) + consumed) as nat);
                    let st2 = after_escape(style, reset, codes);
                    lemma_run_extends(c, next, seg2, st2, lines1);
                    let r = ansi_run(c, next, seg2, st2, lines1);
                    if r is Complete {
                        lemma_extends_trans(lines, lines1, r->Complete_lines);
                    }
                    if r is Pending {
                        lemma_extends_trans(lines, lines1, r->Pending_lines);
                    }
                },
                _ => {},
            },
        }
    } else {
        lemma_run_extends(c, i + 1, seg, style, lines);
    }
}

/// Processing only appends: the lines already held stay as they are (the last one may only
/// grow at its end), and when the input ends inside an escape sequence, the part kept for
/// later starts with the escape character.
pub proof fn law_processing_appends(c: Seq<char>, style: Style, lines: Seq<Seq<TextView>>)
    ensures
        ansi_spec(c, style, lines) matches AnsiResult::Complete { lines: out, .. } ==> extends(
            out,
            normalized(lines),
        ),
        ansi_spec(c, style, lines) matches AnsiResult::Pending { lines: out, at, .. } ==> extends(
            out,
            normalized(lines),
        ) && at < c.len() && c[at as int] == esc(),
{
    lemma_run_extends(c, 0, SegStart::At(0), style, normalized(lines));
}

/// A reading moved `at` characters back: what it gives on the text without its first `at`
/// characters.
pub open spec fn shift_scan(r: EscapeScan, at: nat) -> EscapeScan {
    match r {
        EscapeScan::Incomplete => EscapeScan::Incomplete,
        EscapeScan::Read { consumed, next, reset, codes } => EscapeScan::Read {
            consumed,
            next: (next - at) as nat,
            reset,
            codes,
        },
    }
}

proof fn lemma_var_scan_shift(c: Seq<char>, at: nat, p: nat, nums: Seq<u16>, s: Seq<char>, last: char, consumed: nat)
    requires
        at <= p <= c.len(),
    ensures
        var_scan(c.skip(at as int), (p - at) as nat, nums, s, last, consumed) == shift_scan(
            var_scan(c, p, nums, s, last, consumed),
            at,
        ),
    decreases c.len() - p, 1nat,
{
    let d = c.skip(at as int);
    if is_digit(last) {
        if p < c.len() {
            assert(d[p - at] == c[p as int]);
            lemma_var_scan_shift(c, at, p + 1, nums, s.push(last), c[p as int], consumed + 1);
        }
    } else if last == ';' {
        if parses_u16(s) && p < c.len() {
            assert(d[p - at] == c[p as int]);
            lemma_var_scan_shift(c, at, p + 1, nums.push(digits_value(s) as u16), Seq::empty(), c[p as int], consumed + 1);
        }
    } else if last == '"' && nums.len() == 1 && !((last == 'A' || last == 'B' || last == 'C' || last
        == 'D') && parses_u16(s) && nums.len() == 0) && !(last == 'c' && s.len() >= 3 && s.last()
        == '0') && !((last == 'R' || last == 'H' || last == 'f' || last == 'r') && parses_u16(s)
        && nums.len() == 1) {
        lemma_key_scan_shift(c, at, p, nums, s, consumed);
    }
}

proof fn lemma_key_scan_shift(c: Seq<char>, at: nat, p: nat, nums: Seq<u16>, s: Seq<char>, consumed: nat)
    requires
        at <= p <= c.len(),
    ensures
        key_scan(c.skip(at as int), (p - at) as nat, nums, s, consumed) == shift_scan(
            key_scan(c, p, nums, s, consumed),
            at,
        ),
    decreases c.len() - p, 0nat,
{
    let d = c.skip(at as int);
    if p < c.len() {
        assert(d[p - at] == c[p as int]);
        if c[p as int] != '"' {
            lemma_key_scan_shift(c, at, p + 1, nums, s, consumed + 1);
        } else if p + 2 < c.len() {
            assert(d[p + 1 - at] == c[p + 1 as int]);
            assert(d[p + 2 - at] == c[p + 2 as int]);
            let after_p: nat = if c[p + 1 as int] == 'p' {
                consumed + 2
            } else {
                1
            };
            lemma_var_scan_shift(c, at, p + 3, nums, s, c[p + 2 as int], after_p + 1);
        } else if p + 1 < c.len() {
            assert(d[p + 1 - at] == c[p + 1 as int]);
        }
    }
}

proof fn lemma_escape_scan_shift(c: Seq<char>, at: nat, i: nat)
    requires
        at <= i < c.len(),
    ensures
        escape_scan(c.skip(at as int), (i - at) as nat) == shift_scan(escape_scan(c, i), at),
{
    let d = c.skip(at as int);
    let j = i + 1;
    if j < c.len() {
        assert(d[j - at] == c[j as int]);
    }
    if j + 1 < c.len() {
        assert(d[j + 1 - at] == c[j + 1 as int]);
    }
    if j + 2 < c.len() {
        assert(d[j + 2 - at] == c[j + 2 as int]);
        lemma_var_scan_shift(c, at, j + 3, Seq::empty(), seq![c[j + 1 as int]], c[j + 2 as int], 4);
    }
}

proof fn lemma_var_scan_prefix(c: Seq<char>, n: nat, p: nat, nums: Seq<u16>, s: Seq<char>, last: char, consumed: nat)
    requires
        p <= n <= c.len(),
        var_scan(c.take(n as int), p, nums, s, last, consumed) is Read,
    ensures
        var_scan(c, p, nums, s, last, consumed) == var_scan(c.take(n as int), p, nums, s, last, consumed),
    decreases n - p, 1nat,
{
    let c1 = c.take(n as int);
    if is_digit(last) {
        if p < n {
            assert(c1[p as int] == c[p as int]);
            lemma_var_scan_prefix(c, n, p + 1, nums, s.push(last), c[p as int], consumed + 1);
        }
    } else if last == ';' {
        if parses_u16(s) && p < n {
            assert(c1[p as int] == c[p as int]);
            lemma_var_scan_prefix(c, n, p + 1, nums.push(digits_value(s) as u16), Seq::empty(), c[p as int], consumed + 1);
        }
    } else if last == '"' && nums.len() == 1 && !((last == 'A' || last == 'B' || last == 'C' || last
        == 'D') && parses_u16(s) && nums.len() == 0) && !(last == 'c' && s.len() >= 3 && s.last()
        == '0') && !((last == 'R' || last == 'H' || last == 'f' || last == 'r') && parses_u16(s)
        && nums.len() == 1) {
        lemma_key_scan_prefix(c, n, p, nums, s, consumed);
    }
}

proof fn lemma_key_scan_prefix(c: Seq<char>, n: nat, p: nat, nums: Seq<u16>, s: Seq<char>, consumed: nat)
    requires
        p <= n <= c.len(),
        key_scan(c.take(n as int), p, nums, s, consumed) is Read,
    ensures
        key_scan(c, p, nums, s, consumed) == key_scan(c.take(n as int), p, nums, s, consumed),
    decreases n - p, 0nat,
{
    let c1 = c.take(n as int);
    if p < n {
        assert(c1[p as int] == c[p as int]);
        if c[p as int] != '"' {
            lemma_key_scan_prefix(c, n, p + 1, nums, s, consumed + 1);
        } else if p + 2 < n {
            assert(c1[p + 1 as int] == c[p + 1 as int]);
            assert(c1[p + 2 as int] == c[p + 2 as int]);
            let after_p: nat = if c[p + 1 as int] == 'p' {
                consumed + 2
            } else {
                1
            };
            lemma_var_scan_prefix(c, n, p + 3, nums, s, c[p + 2 as int], after_p + 1);
        }
    }
}

proof fn lemma_escape_scan_prefix(c: Seq<char>, n: nat, i: nat)
    requires
        i < n <= c.len(),
        escape_scan(c.take(n as int), i) is Read,
    ensures
        escape_scan(c, i) == escape_scan(c.take(n as int), i),
{
    let c1 = c.take(n as int);
    let j = i + 1;
    if j < n {
        assert(c1[j as int] == c[j as int]);
    }
    if j + 1 < n {
        assert(c1[j + 1 as int] == c[j + 1 as int]);
    }
    if j + 2 < n {
        assert(c1[j + 2 as int] == c[j + 2 as int]);
        if c[j as int] == '[' && !bracket_escape(c[j + 1 as int]) && is_digit(c[j + 1 as int])
            && !fixed_pair(c[j + 1 as int], c[j + 2 as int]) {
            lemma_var_scan_prefix(c, n, j + 3, Seq::empty(), seq![c[j + 1 as int]], c[j + 2 as int], 4);
        }
    }
}

proof fn lemma_offset_prefix(c: Seq<char>, n: nat, k: int)
    requires
        0 <= k <= n <= c.len(),
    ensures
        byte_offset(c.take(n as int), k) == byte_offset(c, k),
{
    assert(c.take(n as int).take(k) =~= c.take(k));
}

proof fn lemma_offset_shift(c: Seq<char>, at: nat, k: int)
    requires
        0 <= k,
        at + k <= c.len(),
    ensures
        byte_offset(c.skip(at as int), k) + byte_offset(c, at as int) == byte_offset(c, at + k),
{
    assert(c.take(at + k) =~= c.take(at as int) + c.skip(at as int).take(k));
    lemma_encode_concat(c.take(at as int), c.skip(at as int).take(k));
}

/// A segment start moved `at` characters back.
pub open spec fn shift_seg(seg: SegStart, at: nat) -> SegStart {
    match seg {
        SegStart::At(k) => SegStart::At((k - at) as nat),
        SegStart::Broken => SegStart::Broken,
    }
}

proof fn lemma_boundary_shift(c: Seq<char>, at: nat, from: nat, b: nat)
    requires
        at <= from,
        at <= c.len(),
        b >= byte_offset(c, at as int),
    ensures
        find_boundary(c.skip(at as int), (from - at) as nat, (b - byte_offset(c, at as int)) as nat)
            == shift_seg(find_boundary(c, from, b), at),
        find_boundary(c, from, b) matches SegStart::At(k) ==> from <= k <= c.len(),
    decreases c.len() + 1 - from,
{
    if from <= c.len() {
        lemma_offset_shift(c, at, from - at);
        if byte_offset(c, from as int) < b {
            lemma_boundary_shift(c, at, from + 1, b);
        }
    }
}

proof fn lemma_boundary_prefix(c: Seq<char>, n: nat, from: nat, b: nat)
    requires
        n <= c.len(),
        find_boundary(c.take(n as int), from, b) is At,
    ensures
        find_boundary(c, from, b) == find_boundary(c.take(n as int), from, b),
    decreases n + 1 - from,
{
    if from <= n {
        lemma_offset_prefix(c, n, from as int);
        if byte_offset(c, from as int) < b {
            lemma_boundary_prefix(c, n, from + 1, b);
        }
    }
}

/// A processing result moved `at` characters back.
pub open spec fn shift_result(r: AnsiResult, at: nat) -> AnsiResult {
    match r {
        AnsiResult::Pending { at: p, style, lines } => AnsiResult::Pending {
            at: (p - at) as nat,
            style,
            lines,
        },
        _ => r,
    }
}

/// Processing from the escape character at index `i`, the text before it already added.
pub open spec fn esc_step(c: Seq<char>, i: nat, style: Style, lines: Seq<Seq<TextView>>) -> AnsiResult {
    match escape_scan(c, i) {
        EscapeScan::Incomplete => AnsiResult::Pending { at: i, style, lines },
        EscapeScan::Read { consumed, next, reset, codes } => ansi_run(
            c,
            next,
            find_boundary(c, i + 1, (byte_offset(c, i as int) + consumed) as nat),
            after_escape(style, reset, codes),
            lines,
        ),
    }
}

proof fn lemma_broken_fails(c: Seq<char>, i: nat, style: Style, lines: Seq<Seq<TextView>>)
    ensures
        ansi_run(c, i, SegStart::Broken, style, lines) is Fails,
    decreases c.len() - i,
{
    if i < c.len() && c[i as int] != '\n' && c[i as int] != esc() {
        lemma_broken_fails(c, i + 1, style, lines);
    }
}

proof fn lemma_run_shift(c: Seq<char>, at: nat, i: nat, seg: SegStart, style: Style, lines: Seq<Seq<TextView>>)
    requires
        at <= i <= c.len(),
        seg matches SegStart::At(k) ==> at <= k,
    ensures
        ansi_run(c.skip(at as int), (i - at) as nat, shift_seg(seg, at), style, lines) == shift_result(
            ansi_run(c, i, seg, style, lines),
            at,
        ),
    decreases c.len() - i,
{
    let d = c.skip(at as int);
    let id = (i - at) as nat;
    lemma_escape_scan_next(c, i);
    if i >= c.len() {
        if let SegStart::At(k) = seg {
            if k <= c.len() {
                assert(d.subrange(k - at, d.len() as int) =~= c.subrange(k as int, c.len() as int));
            }
        }
    } else if c[i as int] == '\n' {
        assert(d[id as int] == c[i as int]);
        if let SegStart::At(k) = seg {
            if k <= i + 1 {
                assert(d.subrange(k - at, id + 1 as int) =~= c.subrange(k as int, i + 1 as int));
                lemma_run_shift(
                    c,
                    at,
                    i + 1,
                    SegStart::At(i + 1),
                    style,
                    push_segment(lines, (c.subrange(k as int, i + 1 as int), Some(style))).push(
                        Seq::empty(),
                    ),
                );
            }
        }
    } else if c[i as int] == esc() {
        assert(d[id as int] == c[i as int]);
        lemma_escape_scan_shift(c, at, i);
        if let SegStart::At(k) = seg {
            if k <= i {
                assert(d.subrange(k - at, id as int) =~= c.subrange(k as int, i as int));
                let lines1 = if k == i {
                    lines
                } else {
                    push_segment(lines, (c.subrange(k as int, i as int), Some(style)))
                };
                if let EscapeScan::Read { consumed, next, reset, codes } = escape_scan(c, i) {
                    lemma_offset_shift(c, at, i - at);
                    let b = (byte_offset(c, i as int) + consumed) as nat;
                    lemma_boundary_shift(c, at, i + 1, b);
                    assert((byte_offset(d, id as int) + consumed) as nat == (b - byte_offset(c, at as int)) as nat);
                    assert((id + 1) as nat == ((i + 1) - at) as nat);
                    lemma_run_shift(
                        c,
                        at,
                        next,
                        find_boundary(c, i + 1, b),
                        after_escape(style, reset, codes),
                        lines1,
                    );
                }
            }
        }
    } else {
        assert(d[id as int] == c[i as int]);
        lemma_run_shift(c, at, i + 1, seg, style, lines);
    }
}

proof fn lemma_run_prefix(c: Seq<char>, n: nat, i: nat, seg: SegStart, style: Style, lines: Seq<Seq<TextView>>)
    requires
        i <= n <= c.len(),
        ansi_run(c.take(n as int), i, seg, style, lines) is Pending,
    ensures
        ({
            let r = ansi_run(c.take(n as int), i, seg, style, lines);
            ansi_run(c, i, seg, style, lines) == esc_step(c, r->Pending_at, r->Pending_style, r->Pending_lines)
        }),
    decreases n - i,
{
    let c1 = c.take(n as int);
    lemma_escape_scan_next(c1, i);
    if i < n {
        assert(c1[i as int] == c[i as int]);
        if c[i as int] == '\n' {
            if let SegStart::At(k) = seg {
                if k <= i + 1 {
                    assert(c1.subrange(k as int, i + 1 as int) =~= c.subrange(k as int, i + 1 as int));
                    lemma_run_prefix(
                        c,
                        n,
                        i + 1,
                        SegStart::At(i + 1),
                        style,
                        push_segment(lines, (c.subrange(k as int, i + 1 as int), Some(style))).push(
                            Seq::empty(),
                        ),
                    );
                }
            }
        } else if c[i as int] == esc() {
            if let SegStart::At(k) = seg {
                if k <= i {
                    assert(c1.subrange(k as int, i as int) =~= c.subrange(k as int, i as int));
                    let lines1 = if k == i {
                        lines
                    } else {
                        push_segment(lines, (c.subrange(k as int, i as int), Some(style)))
                    };
                    if let EscapeScan::Read { consumed, next, reset, codes } = escape_scan(c1, i) {
                        lemma_escape_scan_prefix(c, n, i);
                        lemma_offset_prefix(c, n, i as int);
                        let b = (byte_offset(c, i as int) + consumed) as nat;
                        let st2 = after_escape(style, reset, codes);
                        match find_boundary(c1, i + 1, b) {
                            SegStart::At(_) => {
                                lemma_boundary_prefix(c, n, i + 1, b);
                                lemma_run_prefix(c, n, next, find_boundary(c, i + 1, b), st2, lines1);
                            },
                            SegStart::Broken => {
                                lemma_broken_fails(c1, next, st2, lines1);
                            },
                        }
                    }
                }
            }
        } else {
            lemma_run_prefix(c, n, i + 1, seg, style, lines);
        }
    }
}

/// Input that ends inside an escape sequence can be finished later: handing back the
/// unprocessed rest together with more input, with the style and lines the first processing
/// gave, gives what processing everything at once gives (its pending part counted from where
/// the rest starts).
pub proof fn law_pending_resumes(a: Seq<char>, b: Seq<char>, style: Style, lines: Seq<Seq<TextView>>)
    requires
        ansi_spec(a, style, lines) is Pending,
    ensures
        ({
            let r = ansi_spec(a, style, lines);
            let at = r->Pending_at;
            &&& ansi_spec(a.skip(at as int) + b, r->Pending_style, r->Pending_lines) == shift_result(
                ansi_spec(a + b, style, lines),
                at,
            )
            &&& ansi_spec(a + b, style, lines) matches AnsiResult::Pending { at: aw, .. } ==> at <= aw
        }),
{
    let r = ansi_spec(a, style, lines);
    let at = r->Pending_at;
    let s1 = r->Pending_style;
    let l1 = r->Pending_lines;
    let c = a + b;
    let n = a.len();
    law_processing_appends(a, style, lines);
    assert(c.take(n as int) =~= a);
    lemma_run_prefix(c, n, 0, SegStart::At(0), style, normalized(lines));
    let d = a.skip(at as int) + b;
    assert(d =~= c.skip(at as int));
    assert(normalized(l1) == l1);
    assert(d[0] == c[at as int]);
    lemma_escape_scan_shift(c, at, at);
    lemma_escape_scan_next(c, at);
    if let EscapeScan::Read { consumed, next, reset, codes } = escape_scan(c, at) {
        let bb = (byte_offset(c, at as int) + consumed) as nat;
        lemma_boundary_shift(c, at, at + 1, bb);
        assert(byte_offset(d, 0) == 0) by {
            assert(d.take(0) =~= Seq::<char>::empty());
        }
        lemma_run_shift(c, at, next, find_boundary(c, at + 1, bb), after_escape(s1, reset, codes), l1);
        lemma_pending_after(c, next, find_boundary(c, at + 1, bb), after_escape(s1, reset, codes), l1);
    }
}

/// The lines `m` hold the text of the lines `l`, line by line, but for `pre`, which the last
/// line of `m` holds in addition at its end.
pub open spec fn text_rel(l: Seq<Seq<TextView>>, m: Seq<Seq<TextView>>, pre: Seq<char>) -> bool {
    &&& l.len() > 0
    &&& m.len() == l.len()
    &&& forall|j: int| 0 <= j < l.len() - 1 ==> line_text(#[trigger] l[j]) == line_text(m[j])
    &&& line_text(m.last()) == line_text(l.last()) + pre
}

/// Two processing results agree but for how the text of a line is cut into items: the same
/// kind, the same style, the same text on each line, and the same pending position.
pub open spec fn same_outcome(r: AnsiResult, q: AnsiResult) -> bool {
    match (r, q) {
        (AnsiResult::Complete { style: s1, lines: l1 }, AnsiResult::Complete { style: s2, lines: l2 }) =>
            s1 == s2 && text_rel(l2, l1, Seq::empty()),
        (AnsiResult::Pending { at: a1, style: s1, lines: l1 }, AnsiResult::Pending { at: a2, style: s2, lines: l2 }) =>
            a1 == a2 && s1 == s2 && text_rel(l2, l1, Seq::empty()),
        (AnsiResult::Fails, AnsiResult::Fails) => true,
        _ => false,
    }
}

proof fn lemma_text_rel_push(
    l: Seq<Seq<TextView>>,
    m: Seq<Seq<TextView>>,
    pre: Seq<char>,
    x: TextView,
    y: TextView,
)
    requires
        text_rel(l, m, pre),
        x.0 == pre + y.0,
    ensures
        text_rel(push_segment(l, x), push_segment(m, y), Seq::empty()),
{
    let l2 = push_segment(l, x);
    let m2 = push_segment(m, y);
    assert(l2.last().drop_last() == l.last());
    assert(m2.last().drop_last() == m.last());
    assert(line_text(m2.last()) =~= line_text(l2.last()) + Seq::<char>::empty());
    assert forall|j: int| 0 <= j < l2.len() - 1 implies line_text(#[trigger] l2[j]) == line_text(m2[j]) by {
        assert(l2[j] == l[j]);
        assert(m2[j] == m[j]);
    }
}

proof fn lemma_text_rel_push_left(l: Seq<Seq<TextView>>, m: Seq<Seq<TextView>>, pre: Seq<char>, x: TextView)
    requires
        text_rel(l, m, pre),
        x.0 == pre,
    ensures
        text_rel(push_segment(l, x), m, Seq::empty()),
{
    let l2 = push_segment(l, x);
    assert(l2.last().drop_last() == l.last());
    assert(line_text(m.last()) =~= line_text(l2.last()) + Seq::<char>::empty());
    assert forall|j: int| 0 <= j < l2.len() - 1 implies line_text(#[trigger] l2[j]) == line_text(m[j]) by {
        assert(l2[j] == l[j]);
    }
}

proof fn lemma_text_rel_line(l: Seq<Seq<TextView>>, m: Seq<Seq<TextView>>)
    requires
        text_rel(l, m, Seq::empty()),
    ensures
        text_rel(l.push(Seq::empty()), m.push(Seq::empty()), Seq::empty()),
{
    let l2 = l.push(Seq::<TextView>::empty());
    let m2 = m.push(Seq::<TextView>::empty());
    assert(line_text(m.last()) =~= line_text(l.last()));
    assert(line_text(m2.last()) =~= line_text(l2.last()) + Seq::<char>::empty());
    assert forall|j: int| 0 <= j < l2.len() - 1 implies line_text(#[trigger] l2[j]) == line_text(m2[j]) by {
        if j < l.len() - 1 {
            assert(l2[j] == l[j]);
            assert(m2[j] == m[j]);
        } else {
            assert(l2[j] == l.last());
            assert(m2[j] == m.last());
        }
    }
}

/// How a run over a whole text, at an index past `n`, stands to a run over the text from `n`
/// on: the segment starts agree, and the lines agree but for the part of the whole run's
/// segment that lies before `n`, which the other run already holds.
pub open spec fn joined(c: Seq<char>, n: nat, seg_c: SegStart, lines_c: Seq<Seq<TextView>>, seg_s: SegStart, lines_s: Seq<Seq<TextView>>) -> bool {
    match (seg_c, seg_s) {
        (SegStart::Broken, SegStart::Broken) => true,
        (SegStart::At(kc), SegStart::At(ks)) => if kc < n {
            ks == 0 && text_rel(lines_c, lines_s, c.subrange(kc as int, n as int))
        } else {
            ks == kc - n && text_rel(lines_c, lines_s, Seq::empty())
        },
        _ => false,
    }
}

proof fn lemma_run_join(
    c: Seq<char>,
    n: nat,
    i: nat,
    seg_c: SegStart,
    lines_c: Seq<Seq<TextView>>,
    seg_s: SegStart,
    lines_s: Seq<Seq<TextView>>,
    style: Style,
)
    requires
        n <= i <= c.len(),
        joined(c, n, seg_c, lines_c, seg_s, lines_s),
    ensures
        same_outcome(
            ansi_run(c.skip(n as int), (i - n) as nat, seg_s, style, lines_s),
            shift_result(ansi_run(c, i, seg_c, style, lines_c), n),
        ),
    decreases c.len() - i,
{
    let d = c.skip(n as int);
    let id = (i - n) as nat;
    lemma_escape_scan_next(c, i);
    if seg_c is Broken {
        lemma_broken_fails(c, i, style, lines_c);
        lemma_broken_fails(d, id, style, lines_s);
        return;
    }
    let kc = seg_c->At_0;
    let ks = seg_s->At_0;
    if i >= c.len() {
        if kc <= c.len() {
            let x = (c.subrange(kc as int, c.len() as int), Some(style));
            let y = (d.subrange(ks as int, d.len() as int), Some(style));
            if kc < n {
                assert(x.0 =~= c.subrange(kc as int, n as int) + y.0);
                lemma_text_rel_push(lines_c, lines_s, c.subrange(kc as int, n as int), x, y);
            } else {
                assert(x.0 =~= Seq::<char>::empty() + y.0);
                lemma_text_rel_push(lines_c, lines_s, Seq::empty(), x, y);
            }
        }
    } else if c[i as int] == '\n' {
        assert(d[id as int] == c[i as int]);
        if kc <= i + 1 {
            let x = (c.subrange(kc as int, i + 1 as int), Some(style));
            let y = (d.subrange(ks as int, id + 1 as int), Some(style));
            if kc < n {
                assert(x.0 =~= c.subrange(kc as int, n as int) + y.0);
                lemma_text_rel_push(lines_c, lines_s, c.subrange(kc as int, n as int), x, y);
            } else {
                assert(x.0 =~= Seq::<char>::empty() + y.0);
                lemma_text_rel_push(lines_c, lines_s, Seq::empty(), x, y);
            }
            let lc2 = push_segment(lines_c, x).push(Seq::empty());
            let ls2 = push_segment(lines_s, y).push(Seq::empty());
            lemma_text_rel_line(push_segment(lines_c, x), push_segment(lines_s, y));
            lemma_run_join(c, n, i + 1, SegStart::At(i + 1), lc2, SegStart::At(id + 1), ls2, style);
        }
    } else if c[i as int] == esc() {
        assert(d[id as int] == c[i as int]);
        if kc <= i {
            let lc1 = if kc == i {
                lines_c
            } else {
                push_segment(lines_c, (c.subrange(kc as int, i as int), Some(style)))
            };
            let ls1 = if ks == id {
                lines_s
            } else {
                push_segment(lines_s, (d.subrange(ks as int, id as int), Some(style)))
            };
            if kc < n {
                if ks == id {
                    assert(c.subrange(kc as int, i as int) =~= c.subrange(kc as int, n as int));
                    lemma_text_rel_push_left(lines_c, lines_s, c.subrange(kc as int, n as int), (c.subrange(kc as int, i as int), Some(style)));
                } else {
                    assert(c.subrange(kc as int, i as int) =~= c.subrange(kc as int, n as int) + d.subrange(ks as int, id as int));
                    lemma_text_rel_push(lines_c, lines_s, c.subrange(kc as int, n as int), (c.subrange(kc as int, i as int), Some(style)), (d.subrange(ks as int, id as int), Some(style)));
                }
            } else if kc < i {
                assert(c.subrange(kc as int, i as int) =~= Seq::<char>::empty() + d.subrange(ks as int, id as int));
                lemma_text_rel_push(lines_c, lines_s, Seq::empty(), (c.subrange(kc as int, i as int), Some(style)), (d.subrange(ks as int, id as int), Some(style)));
            }
            assert(text_rel(lc1, ls1, Seq::empty()));
            lemma_escape_scan_shift(c, n, i);
            if let EscapeScan::Read { consumed, next, reset, codes } = escape_scan(c, i) {
                lemma_offset_shift(c, n, i - n);
                let b = (byte_offset(c, i as int) + consumed) as nat;
                lemma_boundary_shift(c, n, i + 1, b);
                assert((byte_offset(d, id as int) + consumed) as nat == (b - byte_offset(c, n as int)) as nat);
                let sc = find_boundary(c, i + 1, b);
                lemma_run_join(c, n, next, sc, lc1, shift_seg(sc, n), ls1, after_escape(style, reset, codes));
            }
        }
    } else {
        assert(d[id as int] == c[i as int]);
        lemma_run_join(c, n, i + 1, seg_c, lines_c, seg_s, lines_s, style);
    }
}

proof fn lemma_run_prefix_complete(c: Seq<char>, n: nat, i: nat, seg: SegStart, style: Style, lines: Seq<Seq<TextView>>)
    requires
        i <= n <= c.len(),
        lines.len() > 0,
        ansi_run(c.take(n as int), i, seg, style, lines) is Complete,
    ensures
        ({
            let r = ansi_run(c.take(n as int), i, seg, style, lines);
            &&& same_outcome(
                ansi_run(c.skip(n as int), 0, SegStart::At(0), r->Complete_style, r->Complete_lines),
                shift_result(ansi_run(c, i, seg, style, lines), n),
            )
            &&& ansi_run(c, i, seg, style, lines) matches AnsiResult::Pending { at, .. } ==> n <= at
        }),
    decreases n - i,
{
    let c1 = c.take(n as int);
    lemma_escape_scan_next(c1, i);
    if i >= n {
        let k = seg->At_0;
        let x = (c1.subrange(k as int, n as int), Some(style));
        let l1 = push_segment(lines, x);
        assert(c1.subrange(k as int, n as int) =~= c.subrange(k as int, n as int));
        assert(l1.last().drop_last() == lines.last());
        assert forall|j: int| 0 <= j < lines.len() - 1 implies line_text(#[trigger] lines[j]) == line_text(l1[j]) by {
            assert(l1[j] == lines[j]);
        }
        if k < n {
            assert(text_rel(lines, l1, c.subrange(k as int, n as int)));
        } else {
            assert(x.0 =~= Seq::<char>::empty());
            assert(line_text(l1.last()) =~= line_text(lines.last()) + Seq::<char>::empty());
            assert(text_rel(lines, l1, Seq::empty()));
        }
        lemma_run_join(c, n, n, seg, lines, SegStart::At(0), l1, style);
        lemma_pending_after(c, n, seg, style, lines);
    } else {
        assert(c1[i as int] == c[i as int]);
        if c[i as int] == '\n' {
            if let SegStart::At(k) = seg {
                if k <= i + 1 {
                    assert(c1.subrange(k as int, i + 1 as int) =~= c.subrange(k as int, i + 1 as int));
                    lemma_run_prefix_complete(
                        c,
                        n,
                        i + 1,
                        SegStart::At(i + 1),
                        style,
                        push_segment(lines, (c.subrange(k as int, i + 1 as int), Some(style))).push(
                            Seq::empty(),
                        ),
                    );
                }
            }
        } else if c[i as int] == esc() {
            if let SegStart::At(k) = seg {
                if k <= i {
                    assert(c1.subrange(k as int, i as int) =~= c.subrange(k as int, i as int));
                    let lines1 = if k == i {
                        lines
                    } else {
                        push_segment(lines, (c.subrange(k as int, i as int), Some(style)))
                    };
                    if let EscapeScan::Read { consumed, next, reset, codes } = escape_scan(c1, i) {
                        lemma_escape_scan_prefix(c, n, i);
                        lemma_offset_prefix(c, n, i as int);
                        let b = (byte_offset(c, i as int) + consumed) as nat;
                        let st2 = after_escape(style, reset, codes);
                        match find_boundary(c1, i + 1, b) {
                            SegStart::At(_) => {
                                lemma_boundary_prefix(c, n, i + 1, b);
                                lemma_run_prefix_complete(c, n, next, find_boundary(c, i + 1, b), st2, lines1);
                            },
                            SegStart::Broken => {
                                lemma_broken_fails(c1, next, st2, lines1);
                            },
                        }
                    }
                }
            }
        } else {
            lemma_run_prefix_complete(c, n, i + 1, seg, style, lines);
        }
    }
}

/// Input handed over in two parts, the first ending outside any escape sequence, gives what
/// handing it over at once gives, but for how the text of a line is cut into items: the same
/// outcome, the same style, the same text on every line, and the same rest left pending
/// (counted from where the second part starts).
pub proof fn law_complete_joins(a: Seq<char>, b: Seq<char>, style: Style, lines: Seq<Seq<TextView>>)
    requires
        ansi_spec(a, style, lines) is Complete,
    ensures
        ({
            let r = ansi_spec(a, style, lines);
            &&& same_outcome(
                ansi_spec(b, r->Complete_style, r->Complete_lines),
                shift_result(ansi_spec(a + b, style, lines), a.len()),
            )
            &&& ansi_spec(a + b, style, lines) matches AnsiResult::Pending { at, .. } ==> a.len() <= at
        }),
{
    let r = ansi_spec(a, style, lines);
    let c = a + b;
    let n = a.len();
    law_processing_appends(a, style, lines);
    assert(c.take(n as int) =~= a);
    assert(c.skip(n as int) =~= b);
    assert(normalized(r->Complete_lines) == r->Complete_lines);
    lemma_run_prefix_complete(c, n, 0, SegStart::At(0), style, normalized(lines));
}

/// What a container holds after taking `new`: its pending characters, its style and its
/// lines, as `push_string` leaves them.
pub open spec fn pushed(
    pending: Seq<char>,
    style: Style,
    lines: Seq<Seq<TextView>>,
    new: Seq<char>,
) -> (Seq<char>, Style, Seq<Seq<TextView>>) {
    let all = pending + new;
    match ansi_spec(all, style, lines) {
        AnsiResult::Complete { style: s, lines: l } => (Seq::empty(), s, l),
        AnsiResult::Pending { at, style: s, lines: l } => (all.subrange(at as int, all.len() as int), s, l),
        AnsiResult::Fails => (pending, style, lines),
    }
}

proof fn lemma_pending_after(c: Seq<char>, i: nat, seg: SegStart, style: Style, lines: Seq<Seq<TextView>>)
    ensures
        ansi_run(c, i, seg, style, lines) matches AnsiResult::Pending { at, .. } ==> i <= at,
    decreases c.len() - i,
{
    lemma_escape_scan_next(c, i);
    if i < c.len() {
        if c[i as int] == '\n' {
            if let SegStart::At(k) = seg {
                if k <= i + 1 {
                    lemma_pending_after(
                        c,
                        i + 1,
                        SegStart::At(i + 1),
                        style,
                        push_segment(lines, (c.subrange(k as int, i + 1 as int), Some(style))).push(
                            Seq::empty(),
                        ),
                    );
                }
            }
        } else if c[i as int] == esc() {
            if let SegStart::At(k) = seg {
                if k <= i {
                    let lines1 = if k == i {
                        lines
                    } else {
                        push_segment(lines, (c.subrange(k as int, i as int), Some(style)))
                    };
                    if let EscapeScan::Read { consumed, next, reset, codes } = escape_scan(c, i) {
                        lemma_pending_after(
                            c,
                            next,
                            find_boundary(c, i + 1, (byte_offset(c, i as int) + consumed) as nat),
                            after_escape(style, reset, codes),
                            lines1,
                        );
                    }
                }
            }
        } else {
            lemma_pending_after(c, i + 1, seg, style, lines);
        }
    }
}

/// Handing a container its input in two parts gives what handing it over at once gives, but
/// for how the text of a line is cut into items: the same pending characters, the same
/// style, and the same text on every line.
pub proof fn law_push_in_parts(
    pending: Seq<char>,
    style: Style,
    lines: Seq<Seq<TextView>>,
    a: Seq<char>,
    b: Seq<char>,
)
    requires
        !(ansi_spec(pending + a, style, lines) is Fails),
        ({
            let (p1, s1, l1) = pushed(pending, style, lines, a);
            !(ansi_spec(p1 + b, s1, l1) is Fails)
        }),
    ensures
        ({
            let (p1, s1, l1) = pushed(pending, style, lines, a);
            let (p2, s2, l2) = pushed(p1, s1, l1, b);
            let (q, t, m) = pushed(pending, style, lines, a + b);
            &&& p2 == q
            &&& s2 == t
            &&& text_rel(m, l2, Seq::empty())
        }),
{
    let c1 = pending + a;
    let whole = pending + (a + b);
    assert(c1 + b =~= whole);
    law_processing_appends(whole, style, lines);
    law_processing_appends(c1, style, lines);
    let r = ansi_spec(c1, style, lines);
    match r {
        AnsiResult::Complete { style: s1, lines: l1 } => {
            law_complete_joins(c1, b, style, lines);
            assert(Seq::<char>::empty() + b =~= b);
            let rb = ansi_spec(b, s1, l1);
            let rw = ansi_spec(whole, style, lines);
            lemma_pending_after(b, 0, SegStart::At(0), s1, normalized(l1));
            if let AnsiResult::Pending { at, .. } = rw {
                assert(ansi_spec(c1 + b, style, lines) == rw);
                assert(c1.len() <= at);
                assert(whole.subrange(at as int, whole.len() as int) =~= b.subrange(
                    at - c1.len(),
                    b.len() as int,
                ));
            }
        },
        AnsiResult::Pending { at, style: s1, lines: l1 } => {
            law_pending_resumes(c1, b, style, lines);
            let p1 = c1.subrange(at as int, c1.len() as int);
            assert(p1 =~= c1.skip(at as int));
            let d = p1 + b;
            assert(d =~= whole.skip(at as int));
            let rw = ansi_spec(whole, style, lines);
            assert(ansi_spec(c1 + b, style, lines) == rw);
            match rw {
                AnsiResult::Pending { at: aw, style: sw, lines: lw } => {
                    assert(at <= aw);
                    assert(whole.subrange(aw as int, whole.len() as int) =~= d.subrange(
                        aw - at,
                        d.len() as int,
                    ));
                    assert(line_text(lw.last()) =~= line_text(lw.last()) + Seq::<char>::empty());
                    assert(text_rel(lw, lw, Seq::empty()));
                },
                AnsiResult::Complete { style: sw, lines: lw } => {
                    assert(line_text(lw.last()) =~= line_text(lw.last()) + Seq::<char>::empty());
                },
                AnsiResult::Fails => {},
            }
        },
        AnsiResult::Fails => {},
    }
}

} // verus!
