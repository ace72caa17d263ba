//! The keyboard controls of the stand-alone terminal simulator: it steps, runs and pauses the
//! program, feeds typed characters to the input peripheral, and in its other input modes
//! selects a pin, timer, register or address and reads the value typed for it, in decimal or,
//! with a `0x` or `0b` prefix, in hexadecimal or binary.

use vstd::prelude::*;
use vstd::string::*;
use vstd::utf8::encode_utf8;
use crate::ansi::{byte_offsets, char_width, chars_of, utf8_width};
use crate::modes::{AdcPin, GpioPin, PwmPin, Reg, TimerId, TuiState};
use crate::numbers::{
    decimal, digit_value, law_decimal_reads_back, lemma_decimal_digits, lemma_scan_bound,
    parse_radix, parse_radix_spec,
};

verus! {

/// A key as the stand-alone simulator reads it.
#[derive(Debug, Clone, Copy, PartialEq, Eq, Structural)]
pub enum PanelKey {
    Insert,
    Up,
    Down,
    ShiftUp,
    ShiftDown,
    CtrlUp,
    CtrlDown,
    Char(char),
    Ctrl(char),
    Alt(char),
    Other,
}

/// What the simulator is to do after a key.
#[derive(Debug, Clone, Copy, PartialEq, Eq, Structural)]
pub enum PanelAction {
    Nothing,
    /// Run one instruction.
    Step,
    /// Feed a character to the input peripheral.
    PushInput(char),
    SetGpio(GpioPin, bool),
    SetAdc(AdcPin, u8),
    /// Set the duty cycle of a pulse width modulation pin (never zero).
    SetPwm(PwmPin, u8),
    SetRegister(Reg, u16),
    /// Write a word at an address.
    WriteWord(u16, u16),
    SetPc(u16),
    /// Reset the simulator.
    Reset,
}

/// The state of the controls.
pub struct ControlPanel {
    pub mode: TuiState,
    /// Whether the pin, timer, register or address of the mode is chosen, so that what is
    /// typed is its value.
    pub selected: bool,
    pub gpio_pin: GpioPin,
    pub adc_pin: AdcPin,
    pub pwm_pin: PwmPin,
    pub timer_id: TimerId,
    pub reg_id: Reg,
    pub mem_addr: u16,
    /// What was typed to the input peripheral on the current line.
    pub input_out: String,
    /// The value being typed.
    pub set_val_out: String,
    /// The row of the memory view at which the program counter is shown.
    pub offset: u16,
    pub running: bool,
    /// Whether the simulator keeps going; it stops on `q`.
    pub active: bool,
}

/// The state of the controls, with its strings seen as characters.
pub struct PanelView {
    pub mode: TuiState,
    pub selected: bool,
    pub gpio_pin: GpioPin,
    pub adc_pin: AdcPin,
    pub pwm_pin: PwmPin,
    pub timer_id: TimerId,
    pub reg_id: Reg,
    pub mem_addr: u16,
    pub input_out: Seq<char>,
    pub set_val_out: Seq<char>,
    pub offset: u16,
    pub running: bool,
    pub active: bool,
}

impl View for ControlPanel {
    type V = PanelView;

    open spec fn view(&self) -> PanelView {
        PanelView {
            mode: self.mode,
            selected: self.selected,
            gpio_pin: self.gpio_pin,
            adc_pin: self.adc_pin,
            pwm_pin: self.pwm_pin,
            timer_id: self.timer_id,
            reg_id: self.reg_id,
            mem_addr: self.mem_addr,
            input_out: self.input_out@,
            set_val_out: self.set_val_out@,
            offset: self.offset,
            running: self.running,
            active: self.active,
        }
    }
}

/// The number the text reads as in decimal, if it is one no larger than `max`.
pub open spec fn decimal_value(s: Seq<char>, max: nat) -> Option<nat> {
    match parse_radix_spec(s, 10, max) {
        Ok(v) => Some(v),
        Err(_) => None,
    }
}

/// The character index at which the text's UTF-8 encoding has its second byte boundary, if
/// its first two bytes end at a character.
pub open spec fn split_point(s: Seq<char>) -> Option<nat> {
    if s.len() >= 1 && char_width(s[0]) == 2 {
        Some(1)
    } else if s.len() >= 2 && char_width(s[0]) == 1 && char_width(s[1]) == 1 {
        Some(2)
    } else {
        None
    }
}

/// The number a text with a `0x` or `0b` prefix reads as in hexadecimal or binary, if it is
/// one no larger than `max`.
pub open spec fn prefixed_value(s: Seq<char>, max: nat) -> Option<nat> {
    match split_point(s) {
        Some(k) => {
            let r = if s.take(k as int) == "0x"@ {
                parse_radix_spec(s.skip(k as int), 16, max)
            } else if s.take(k as int) == "0b"@ {
                parse_radix_spec(s.skip(k as int), 2, max)
            } else {
                Err(crate::numbers::ParseIntError::Empty)
            };
            match r {
                Ok(v) => Some(v),
                Err(_) => None,
            }
        },
        None => None,
    }
}

/// The number of bytes of the text in UTF-8.
pub open spec fn byte_len(s: Seq<char>) -> nat {
    encode_utf8(s).len()
}

/// The value typed when enter is pressed: in decimal, or else, for a text of more than two
/// bytes (or for any text, when `always_split`), with a `0x` or `0b` prefix.
pub open spec fn typed_value(s: Seq<char>, max: nat, always_split: bool) -> Option<nat> {
    match decimal_value(s, max) {
        Some(v) => Some(v),
        None => if always_split || byte_len(s) > 2 {
            prefixed_value(s, max)
        } else {
            None
        },
    }
}

/// A boolean typed: `true` or `false`.
pub open spec fn bool_value(s: Seq<char>) -> Option<bool> {
    if s == "true"@ {
        Some(true)
    } else if s == "false"@ {
        Some(false)
    } else {
        None
    }
}

/// The GPIO pin a digit selects.
pub open spec fn gpio_of(c: char) -> Option<GpioPin> {
    if c == '0' { Some(GpioPin::G0) }
    else if c == '1' { Some(GpioPin::G1) }
    else if c == '2' { Some(GpioPin::G2) }
    else if c == '3' { Some(GpioPin::G3) }
    else if c == '4' { Some(GpioPin::G4) }
    else if c == '5' { Some(GpioPin::G5) }
    else if c == '6' { Some(GpioPin::G6) }
    else if c == '7' { Some(GpioPin::G7) }
    else { None }
}

/// The ADC pin a digit selects.
pub open spec fn adc_of(c: char) -> Option<AdcPin> {
    if c == '0' { Some(AdcPin::A0) }
    else if c == '1' { Some(AdcPin::A1) }
    else if c == '2' { Some(AdcPin::A2) }
    else if c == '3' { Some(AdcPin::A3) }
    else { None }
}

/// The PWM pin a digit selects.
pub open spec fn pwm_of(c: char) -> Option<PwmPin> {
    if c == '0' { Some(PwmPin::P0) } else if c == '1' { Some(PwmPin::P1) } else { None }
}

/// The timer a digit selects.
pub open spec fn timer_of(c: char) -> Option<TimerId> {
    if c == '0' { Some(TimerId::T0) } else if c == '1' { Some(TimerId::T1) } else { None }
}

/// The register a digit selects.
pub open spec fn reg_of(c: char) -> Option<Reg> {
    if c == '0' { Some(Reg::R0) }
    else if c == '1' { Some(Reg::R1) }
    else if c == '2' { Some(Reg::R2) }
    else if c == '3' { Some(Reg::R3) }
    else if c == '4' { Some(Reg::R4) }
    else if c == '5' { Some(Reg::R5) }
    else if c == '6' { Some(Reg::R6) }
    else if c == '7' { Some(Reg::R7) }
    else { None }
}

/// The value, when it is above zero.
pub open spec fn positive(o: Option<nat>) -> Option<nat> {
    match o {
        Some(v) => if v > 0 { Some(v) } else { None },
        None => None,
    }
}

/// The duty cycle typed: a value above zero, in decimal, or else, for a text of more than two
/// bytes, with a `0x` or `0b` prefix.
pub open spec fn duty_value(s: Seq<char>) -> Option<nat> {
    match positive(decimal_value(s, 255)) {
        Some(v) => Some(v),
        None => if byte_len(s) > 2 {
            positive(prefixed_value(s, 255))
        } else {
            None
        },
    }
}

/// The panel with the value being typed cleared.
pub open spec fn cleared(p: PanelView) -> PanelView {
    PanelView { set_val_out: Seq::empty(), ..p }
}

/// The panel with a character added to the value being typed.
pub open spec fn typed(p: PanelView, c: char) -> PanelView {
    PanelView { set_val_out: p.set_val_out.push(c), ..p }
}

/// Switches to a mode, or back to control when already in it; `selected` says whether the
/// new mode has its target chosen from the start.
pub open spec fn toggled_mode(p: PanelView, m: TuiState, selected: bool) -> PanelView {
    if p.mode == m {
        PanelView { mode: TuiState::CONT, ..p }
    } else {
        PanelView { mode: m, selected, ..p }
    }
}

/// What a character typed does, by the mode.
pub open spec fn char_key(p: PanelView, c: char) -> (PanelView, PanelAction) {
    let s = p.set_val_out;
    match p.mode {
        TuiState::CONT => if c == 's' {
            if !p.running {
                (PanelView { offset: 2, ..p }, PanelAction::Step)
            } else {
                (p, PanelAction::Nothing)
            }
        } else if c == 'p' {
            (PanelView { running: false, ..p }, PanelAction::Nothing)
        } else if c == 'r' {
            (PanelView { running: true, ..p }, PanelAction::Nothing)
        } else if c == 'q' {
            (PanelView { active: false, ..p }, PanelAction::Nothing)
        } else {
            (p, PanelAction::Nothing)
        },
        TuiState::IN => if c == '\n' {
            (PanelView { input_out: Seq::empty(), ..p }, PanelAction::Nothing)
        } else {
            (PanelView { input_out: p.input_out.push(c), ..p }, PanelAction::PushInput(c))
        },
        TuiState::GPIO => if !p.selected {
            match gpio_of(c) {
                Some(g) => (PanelView { selected: true, gpio_pin: g, ..p }, PanelAction::Nothing),
                None => (p, PanelAction::Nothing),
            }
        } else if c == '\n' {
            (
                cleared(p),
                match bool_value(s) {
                    Some(b) => PanelAction::SetGpio(p.gpio_pin, b),
                    None => PanelAction::Nothing,
                },
            )
        } else {
            (typed(p, c), PanelAction::Nothing)
        },
        TuiState::ADC => if !p.selected {
            match adc_of(c) {
                Some(a) => (PanelView { selected: true, adc_pin: a, ..p }, PanelAction::Nothing),
                None => (p, PanelAction::Nothing),
            }
        } else if c == '\n' {
            (
                cleared(p),
                match typed_value(s, 255, false) {
                    Some(v) => PanelAction::SetAdc(p.adc_pin, v as u8),
                    None => PanelAction::Nothing,
                },
            )
        } else {
            (typed(p, c), PanelAction::Nothing)
        },
        TuiState::PWM => if !p.selected {
            match pwm_of(c) {
                Some(a) => (PanelView { selected: true, pwm_pin: a, ..p }, PanelAction::Nothing),
                None => (p, PanelAction::Nothing),
            }
        } else if c == '\n' {
            (
                cleared(p),
                match duty_value(s) {
                    Some(v) => PanelAction::SetPwm(p.pwm_pin, v as u8),
                    None => PanelAction::Nothing,
                },
            )
        } else {
            (typed(p, c), PanelAction::Nothing)
        },
        TuiState::TMR => if !p.selected {
            match timer_of(c) {
                Some(t) => (PanelView { selected: true, timer_id: t, ..p }, PanelAction::Nothing),
                None => (p, PanelAction::Nothing),
            }
        } else if c == '\n' {
            (cleared(p), PanelAction::Nothing)
        } else {
            (typed(p, c), PanelAction::Nothing)
        },
        TuiState::REG => if !p.selected {
            match reg_of(c) {
                Some(r) => (PanelView { selected: true, reg_id: r, ..p }, PanelAction::Nothing),
                None => (p, PanelAction::Nothing),
            }
        } else if c == '\n' {
            (
                cleared(p),
                match typed_value(s, 65535, false) {
                    Some(v) => PanelAction::SetRegister(p.reg_id, v as u16),
                    None => PanelAction::Nothing,
                },
            )
        } else {
            (typed(p, c), PanelAction::Nothing)
        },
        TuiState::MEM => if c != '\n' {
            (typed(p, c), PanelAction::Nothing)
        } else if !p.selected {
            match typed_value(s, 65535, false) {
                Some(a) => (
                    PanelView { selected: true, mem_addr: a as u16, ..cleared(p) },
                    PanelAction::Nothing,
                ),
                None => (cleared(p), PanelAction::Nothing),
            }
        } else {
            match typed_value(s, 65535, true) {
                Some(w) => (
                    PanelView { selected: false, ..cleared(p) },
                    PanelAction::WriteWord(p.mem_addr, w as u16),
                ),
                None => (cleared(p), PanelAction::Nothing),
            }
        },
        TuiState::CLK => if c == '\n' {
            (cleared(p), PanelAction::Nothing)
        } else {
            (typed(p, c), PanelAction::Nothing)
        },
        TuiState::PC => if c == '\n' {
            (
                cleared(p),
                match typed_value(s, 65535, true) {
                    Some(a) => PanelAction::SetPc(a as u16),
                    None => PanelAction::Nothing,
                },
            )
        } else {
            (typed(p, c), PanelAction::Nothing)
        },
    }
}

/// What a key does to the controls, and what the simulator is to do.
pub open spec fn panel_key(p: PanelView, key: PanelKey) -> (PanelView, PanelAction) {
    match key {
        PanelKey::Insert => (
            PanelView {
                mode: if p.mode == TuiState::IN {
                    TuiState::CONT
                } else {
                    TuiState::IN
                },
                ..cleared(p)
            },
            PanelAction::Nothing,
        ),
        PanelKey::Up => (PanelView { offset: p.offset.wrapping_add(1), ..p }, PanelAction::Nothing),
        PanelKey::Down => (PanelView { offset: p.offset.wrapping_sub(1), ..p }, PanelAction::Nothing),
        PanelKey::ShiftUp => (
            PanelView { offset: p.offset.wrapping_add(10), ..p },
            PanelAction::Nothing,
        ),
        PanelKey::ShiftDown => (
            PanelView { offset: p.offset.wrapping_sub(10), ..p },
            PanelAction::Nothing,
        ),
        PanelKey::CtrlUp => (
            PanelView { offset: p.offset.wrapping_add(100), ..p },
            PanelAction::Nothing,
        ),
        PanelKey::CtrlDown => (
            PanelView { offset: p.offset.wrapping_sub(100), ..p },
            PanelAction::Nothing,
        ),
        PanelKey::Char(c) => char_key(p, c),
        PanelKey::Ctrl(c) => {
            let q = cleared(p);
            (
                if c == 'g' {
                    toggled_mode(q, TuiState::GPIO, false)
                } else if c == 'a' {
                    toggled_mode(q, TuiState::ADC, false)
                } else if c == 'p' {
                    toggled_mode(q, TuiState::PWM, false)
                } else if c == 't' {
                    toggled_mode(q, TuiState::TMR, false)
                } else if c == 'c' {
                    toggled_mode(q, TuiState::CLK, true)
                } else if c == 'r' {
                    toggled_mode(q, TuiState::REG, false)
                } else if c == 'h' {
                    PanelView { offset: 2, ..q }
                } else {
                    q
                },
                PanelAction::Nothing,
            )
        },
        PanelKey::Alt(c) => if c == 'r' {
            (
                PanelView {
                    selected: false,
                    mode: TuiState::CONT,
                    input_out: Seq::empty(),
                    ..cleared(p)
                },
                PanelAction::Reset,
            )
        } else if c == 'm' {
            (toggled_mode(p, TuiState::MEM, false), PanelAction::Nothing)
        } else if c == 'p' {
            (toggled_mode(p, TuiState::PC, true), PanelAction::Nothing)
        } else {
            (p, PanelAction::Nothing)
        },
        PanelKey::Other => (p, PanelAction::Nothing),
    }
}

/// Whether a key can be handled without the value's text being split inside a character:
/// enter splits the value after its second byte when it has more than two (always, when
/// writing memory or setting the program counter).
pub open spec fn panel_key_ok(p: PanelView, key: PanelKey) -> bool {
    &&& key == PanelKey::Char('\n') && p.selected ==> match p.mode {
        TuiState::ADC | TuiState::PWM | TuiState::REG => byte_len(p.set_val_out) > 2
            ==> split_point(p.set_val_out) is Some,
        TuiState::MEM => split_point(p.set_val_out) is Some,
        _ => true,
    }
    &&& key == PanelKey::Char('\n') && !p.selected && p.mode == TuiState::MEM ==> (byte_len(
        p.set_val_out,
    ) > 2 ==> split_point(p.set_val_out) is Some)
    &&& key == PanelKey::Char('\n') && p.mode == TuiState::PC ==> split_point(p.set_val_out) is Some
}

/// Calls `String::push`, which, as its documentation says, appends the character.
#[verifier::external_body]
fn push_char(s: &mut String, c: char)
    ensures
        final(s)@ == old(s)@.push(c),
{
    s.push(c)
}

/// The characters of `c` from index `k` on.
fn tail(c: &Vec<char>, k: usize) -> (r: Vec<char>)
    requires
        k <= c.len(),
    ensures
        r@ == c@.skip(k as int),
{
    let mut r: Vec<char> = Vec::new();
    let mut i = k;
    while i < c.len()
        invariant
            k <= i <= c.len(),
            r@ == c@.subrange(k as int, i as int),
        decreases c.len() - i,
    {
        r.push(c[i]);
        i = i + 1;
        assert(r@ =~= c@.subrange(k as int, i as int));
    }
    assert(r@ =~= c@.skip(k as int));
    r
}

/// The number the characters read as in decimal.
fn decimal_of(c: &Vec<char>, max: u64) -> (r: Option<u64>)
    ensures
        match decimal_value(c@, max as nat) {
            Some(v) => r == Some(v as u64),
            None => r is None,
        },
        decimal_value(c@, max as nat) matches Some(v) ==> v <= max,
{
    proof {
        lemma_scan_bound(c@, 0, 0, max as nat, 10);
        lemma_scan_bound(c@, 1, 0, max as nat, 10);
    }
    match parse_radix(c, 10, max) {
        Ok(v) => Some(v),
        Err(_) => None,
    }
}

/// The number the characters read as after a `0x` or `0b` prefix.
fn prefixed_of(c: &Vec<char>, max: u64) -> (r: Option<u64>)
    ensures
        match prefixed_value(c@, max as nat) {
            Some(v) => r == Some(v as u64),
            None => r is None,
        },
        prefixed_value(c@, max as nat) matches Some(v) ==> v <= max,
{
    proof {
        reveal_strlit("0x");
        reveal_strlit("0b");
    }
    let k: usize = if c.len() >= 1 && utf8_width(c[0]) == 2 {
        1
    } else if c.len() >= 2 && utf8_width(c[0]) == 1 && utf8_width(c[1]) == 1 {
        2
    } else {
        return None;
    };
    assert(split_point(c@) == Some(k as nat));
    let hex = k == 2 && c[0] == '0' && c[1] == 'x';
    let bin = k == 2 && c[0] == '0' && c[1] == 'b';
    proof {
        if hex {
            assert(c@.take(2) =~= "0x"@);
        } else if c@.take(k as int) == "0x"@ {
            assert(c@.take(k as int).len() == 2);
            assert(c@.take(k as int)[0] == c@[0] && c@.take(k as int)[1] == c@[1]);
        }
        if bin {
            assert(c@.take(2) =~= "0b"@);
        } else if c@.take(k as int) == "0b"@ {
            assert(c@.take(k as int).len() == 2);
            assert(c@.take(k as int)[0] == c@[0] && c@.take(k as int)[1] == c@[1]);
        }
    }
    let rest = tail(c, k);
    proof {
        lemma_scan_bound(rest@, 0, 0, max as nat, 16);
        lemma_scan_bound(rest@, 1, 0, max as nat, 16);
        lemma_scan_bound(rest@, 0, 0, max as nat, 2);
        lemma_scan_bound(rest@, 1, 0, max as nat, 2);
    }
    let r = if hex {
        parse_radix(&rest, 16, max)
    } else if bin {
        parse_radix(&rest, 2, max)
    } else {
        return None;
    };
    match r {
        Ok(v) => Some(v),
        Err(_) => None,
    }
}

/// Whether the characters take more than two bytes in UTF-8.
fn over_two_bytes(c: &Vec<char>) -> (r: bool)
    ensures
        r == (byte_len(c@) > 2),
{
    let offs = byte_offsets(c);
    assert(c@.take(c.len() as int) =~= c@);
    offs[c.len()] > 2
}

/// Whether the text can be split after its second byte.
fn splits(c: &Vec<char>) -> (r: bool)
    ensures
        r == split_point(c@) is Some,
{
    (c.len() >= 1 && utf8_width(c[0]) == 2) || (c.len() >= 2 && utf8_width(c[0]) == 1
        && utf8_width(c[1]) == 1)
}

/// The value typed in `s`.
fn typed_of(s: &String, max: u64, always_split: bool) -> (r: Option<u64>)
    ensures
        match typed_value(s@, max as nat, always_split) {
            Some(v) => r == Some(v as u64),
            None => r is None,
        },
        typed_value(s@, max as nat, always_split) matches Some(v) ==> v <= max,
{
    let c = chars_of(s.as_str());
    match decimal_of(&c, max) {
        Some(v) => Some(v),
        None => {
            if always_split || over_two_bytes(&c) {
                prefixed_of(&c, max)
            } else {
                None
            }
        },
    }
}

/// The duty cycle typed in `s`.
fn duty_of(s: &String) -> (r: Option<u64>)
    ensures
        match duty_value(s@) {
            Some(v) => r == Some(v as u64),
            None => r is None,
        },
        duty_value(s@) matches Some(v) ==> 0 < v <= 255,
{
    let c = chars_of(s.as_str());
    match decimal_of(&c, 255) {
        Some(v) => {
            if v > 0 {
                return Some(v);
            }
        },
        None => {},
    }
    if over_two_bytes(&c) {
        match prefixed_of(&c, 255) {
            Some(v) => {
                if v > 0 {
                    Some(v)
                } else {
                    None
                }
            },
            None => None,
        }
    } else {
        None
    }
}

/// The boolean typed in `s`.
fn bool_of(s: &String) -> (r: Option<bool>)
    ensures
        r == bool_value(s@),
{
    proof {
        reveal_strlit("true");
        reveal_strlit("false");
    }
    let c = chars_of(s.as_str());
    let t = c.len() == 4 && c[0] == 't' && c[1] == 'r' && c[2] == 'u' && c[3] == 'e';
    let f = c.len() == 5 && c[0] == 'f' && c[1] == 'a' && c[2] == 'l' && c[3] == 's' && c[4] == 'e';
    proof {
        if t {
            assert(c@ =~= "true"@);
        } else if c@ == "true"@ {
            assert(c@[0] == 't' && c@[1] == 'r' && c@[2] == 'u' && c@[3] == 'e');
        }
        if f {
            assert(c@ =~= "false"@);
        } else if c@ == "false"@ {
            assert(c@[0] == 'f' && c@[1] == 'a' && c@[2] == 'l' && c@[3] == 's' && c@[4] == 'e');
        }
    }
    if t {
        Some(true)
    } else if f {
        Some(false)
    } else {
        None
    }
}

impl ControlPanel {
    /// The controls at start: control mode, the first pin, timer and register chosen, address
    /// 1, nothing typed, the program counter shown on the third row, paused.
    pub fn new() -> (p: ControlPanel)
        ensures
            p@ == (PanelView {
                mode: TuiState::CONT,
                selected: false,
                gpio_pin: GpioPin::G0,
                adc_pin: AdcPin::A0,
                pwm_pin: PwmPin::P0,
                timer_id: TimerId::T0,
                reg_id: Reg::R0,
                mem_addr: 1,
                input_out: Seq::empty(),
                set_val_out: Seq::empty(),
                offset: 2,
                running: false,
                active: true,
            }),
    {
        ControlPanel {
            mode: TuiState::CONT,
            selected: false,
            gpio_pin: GpioPin::G0,
            adc_pin: AdcPin::A0,
            pwm_pin: PwmPin::P0,
            timer_id: TimerId::T0,
            reg_id: Reg::R0,
            mem_addr: 1,
            input_out: String::new(),
            set_val_out: String::new(),
            offset: 2,
            running: false,
            active: true,
        }
    }

    /// Before each key is read: while running, the program counter is shown on the third row
    /// again and one instruction is to be run (the result says so).
    pub fn begin_iteration(&mut self) -> (step: bool)
        ensures
            step == old(self).running,
            final(self)@ == (if old(self).running {
                PanelView { offset: 2, ..old(self)@ }
            } else {
                old(self)@
            }),
    {
        if self.running {
            self.offset = 2;
        }
        self.running
    }

    /// The program halted: running stops.
    pub fn halted(&mut self)
        ensures
            final(self)@ == (PanelView { running: false, ..old(self)@ }),
    {
        self.running = false;
    }

    fn clear_value(&mut self)
        ensures
            final(self)@ == cleared(old(self)@),
    {
        self.set_val_out = String::new();
    }

    fn type_char(&mut self, c: char)
        ensures
            final(self)@ == typed(old(self)@, c),
    {
        push_char(&mut self.set_val_out, c);
    }

    fn toggle_mode(&mut self, m: TuiState, selected: bool)
        ensures
            final(self)@ == toggled_mode(old(self)@, m, selected),
    {
        if self.mode == m {
            self.mode = TuiState::CONT;
        } else {
            self.mode = m;
            self.selected = selected;
        }
    }

    /// Whether the key can be handled: enter, where it splits the value typed after its
    /// second byte, needs that byte to end a character.
    pub fn accepts(&self, key: PanelKey) -> (r: bool)
        ensures
            r == panel_key_ok(self@, key),
    {
        match key {
            PanelKey::Char(c) => {
                if c != '\n' {
                    return true;
                }
                let v = chars_of(self.set_val_out.as_str());
                match self.mode {
                    TuiState::ADC | TuiState::PWM | TuiState::REG => !self.selected
                        || !over_two_bytes(&v) || splits(&v),
                    TuiState::MEM => if self.selected {
                        splits(&v)
                    } else {
                        !over_two_bytes(&v) || splits(&v)
                    },
                    TuiState::PC => splits(&v),
                    _ => true,
                }
            },
            _ => true,
        }
    }

    /// Handles a key: changes the controls as `panel_key` says and returns what the simulator
    /// is to do.
    pub fn key(&mut self, key: PanelKey) -> (a: PanelAction)
        requires
            panel_key_ok(old(self)@, key),
        ensures
            (final(self)@, a) == panel_key(old(self)@, key),
    {
        match key {
            PanelKey::Insert => {
                self.clear_value();
                self.mode = if self.mode == TuiState::IN {
                    TuiState::CONT
                } else {
                    TuiState::IN
                };
                PanelAction::Nothing
            },
            PanelKey::Up => {
                self.offset = self.offset.wrapping_add(1);
                PanelAction::Nothing
            },
            PanelKey::Down => {
                self.offset = self.offset.wrapping_sub(1);
                PanelAction::Nothing
            },
            PanelKey::ShiftUp => {
                self.offset = self.offset.wrapping_add(10);
                PanelAction::Nothing
            },
            PanelKey::ShiftDown => {
                self.offset = self.offset.wrapping_sub(10);
                PanelAction::Nothing
            },
            PanelKey::CtrlUp => {
                self.offset = self.offset.wrapping_add(100);
                PanelAction::Nothing
            },
            PanelKey::CtrlDown => {
                self.offset = self.offset.wrapping_sub(100);
                PanelAction::Nothing
            },
            PanelKey::Char(c) => self.char_input(c),
            PanelKey::Ctrl(c) => {
                self.clear_value();
                if c == 'g' {
                    self.toggle_mode(TuiState::GPIO, false);
                } else if c == 'a' {
                    self.toggle_mode(TuiState::ADC, false);
                } else if c == 'p' {
                    self.toggle_mode(TuiState::PWM, false);
                } else if c == 't' {
                    self.toggle_mode(TuiState::TMR, false);
                } else if c == 'c' {
                    self.toggle_mode(TuiState::CLK, true);
                } else if c == 'r' {
                    self.toggle_mode(TuiState::REG, false);
                } else if c == 'h' {
                    self.offset = 2;
                }
                PanelAction::Nothing
            },
            PanelKey::Alt(c) => {
                if c == 'r' {
                    self.selected = false;
                    self.mode = TuiState::CONT;
                    self.clear_value();
                    self.input_out = String::new();
                    PanelAction::Reset
                } else if c == 'm' {
                    self.toggle_mode(TuiState::MEM, false);
                    PanelAction::Nothing
                } else if c == 'p' {
                    self.toggle_mode(TuiState::PC, true);
                    PanelAction::Nothing
                } else {
                    PanelAction::Nothing
                }
            },
            PanelKey::Other => PanelAction::Nothing,
        }
    }

    fn char_input(&mut self, c: char) -> (a: PanelAction)
        requires
            panel_key_ok(old(self)@, PanelKey::Char(c)),
        ensures
            (final(self)@, a) == char_key(old(self)@, c),
    {
        match self.mode {
            TuiState::CONT => {
                if c == 's' {
                    if !self.running {
                        self.offset = 2;
                        PanelAction::Step
                    } else {
                        PanelAction::Nothing
                    }
                } else if c == 'p' {
                    self.running = false;
                    PanelAction::Nothing
                } else if c == 'r' {
                    self.running = true;
                    PanelAction::Nothing
                } else if c == 'q' {
                    self.active = false;
                    PanelAction::Nothing
                } else {
                    PanelAction::Nothing
                }
            },
            TuiState::IN => {
                if c == '\n' {
                    self.input_out = String::new();
                    PanelAction::Nothing
                } else {
                    push_char(&mut self.input_out, c);
                    PanelAction::PushInput(c)
                }
            },
            TuiState::GPIO => {
                if !self.selected {
                    let g = if c == '0' { Some(GpioPin::G0) }
                        else if c == '1' { Some(GpioPin::G1) }
                        else if c == '2' { Some(GpioPin::G2) }
                        else if c == '3' { Some(GpioPin::G3) }
                        else if c == '4' { Some(GpioPin::G4) }
                        else if c == '5' { Some(GpioPin::G5) }
                        else if c == '6' { Some(GpioPin::G6) }
                        else if c == '7' { Some(GpioPin::G7) }
                        else { None };
                    if let Some(g) = g {
                        self.selected = true;
                        self.gpio_pin = g;
                    }
                    PanelAction::Nothing
                } else if c == '\n' {
                    let b = bool_of(&self.set_val_out);
                    self.clear_value();
                    match b {
                        Some(b) => PanelAction::SetGpio(self.gpio_pin, b),
                        None => PanelAction::Nothing,
                    }
                } else {
                    self.type_char(c);
                    PanelAction::Nothing
                }
            },
            TuiState::ADC => {
                if !self.selected {
                    let a = if c == '0' { Some(AdcPin::A0) }
                        else if c == '1' { Some(AdcPin::A1) }
                        else if c == '2' { Some(AdcPin::A2) }
                        else if c == '3' { Some(AdcPin::A3) }
                        else { None };
                    if let Some(a) = a {
                        self.selected = true;
                        self.adc_pin = a;
                    }
                    PanelAction::Nothing
                } else if c == '\n' {
                    let v = typed_of(&self.set_val_out, 255, false);
                    self.clear_value();
                    match v {
                        Some(v) => PanelAction::SetAdc(self.adc_pin, v as u8),
                        None => PanelAction::Nothing,
                    }
                } else {
                    self.type_char(c);
                    PanelAction::Nothing
                }
            },
            TuiState::PWM => {
                if !self.selected {
                    let a = if c == '0' { Some(PwmPin::P0) }
                        else if c == '1' { Some(PwmPin::P1) }
                        else { None };
                    if let Some(a) = a {
                        self.selected = true;
                        self.pwm_pin = a;
                    }
                    PanelAction::Nothing
                } else if c == '\n' {
                    let v = duty_of(&self.set_val_out);
                    self.clear_value();
                    match v {
                        Some(v) => PanelAction::SetPwm(self.pwm_pin, v as u8),
                        None => PanelAction::Nothing,
                    }
                } else {
                    self.type_char(c);
                    PanelAction::Nothing
                }
            },
            TuiState::TMR => {
                if !self.selected {
                    let t = if c == '0' { Some(TimerId::T0) }
                        else if c == '1' { Some(TimerId::T1) }
                        else { None };
                    if let Some(t) = t {
                        self.selected = true;
                        self.timer_id = t;
                    }
                    PanelAction::Nothing
                } else if c == '\n' {
                    self.clear_value();
                    PanelAction::Nothing
                } else {
                    self.type_char(c);
                    PanelAction::Nothing
                }
            },
            TuiState::REG => {
                if !self.selected {
                    let r = if c == '0' { Some(Reg::R0) }
                        else if c == '1' { Some(Reg::R1) }
                        else if c == '2' { Some(Reg::R2) }
                        else if c == '3' { Some(Reg::R3) }
                        else if c == '4' { Some(Reg::R4) }
                        else if c == '5' { Some(Reg::R5) }
                        else if c == '6' { Some(Reg::R6) }
                        else if c == '7' { Some(Reg::R7) }
                        else { None };
                    if let Some(r) = r {
                        self.selected = true;
                        self.reg_id = r;
                    }
                    PanelAction::Nothing
                } else if c == '\n' {
                    let v = typed_of(&self.set_val_out, 65535, false);
                    self.clear_value();
                    match v {
                        Some(v) => PanelAction::SetRegister(self.reg_id, v as u16),
                        None => PanelAction::Nothing,
                    }
                } else {
                    self.type_char(c);
                    PanelAction::Nothing
                }
            },
            TuiState::MEM => {
                if c != '\n' {
                    self.type_char(c);
                    PanelAction::Nothing
                } else if !self.selected {
                    let v = typed_of(&self.set_val_out, 65535, false);
                    self.clear_value();
                    if let Some(a) = v {
                        self.selected = true;
                        self.mem_addr = a as u16;
                    }
                    PanelAction::Nothing
                } else {
                    let v = typed_of(&self.set_val_out, 65535, true);
                    self.clear_value();
                    match v {
                        Some(w) => {
                            self.selected = false;
                            PanelAction::WriteWord(self.mem_addr, w as u16)
                        },
                        None => PanelAction::Nothing,
                    }
                }
            },
            TuiState::CLK => {
                if c == '\n' {
                    self.clear_value();
                } else {
                    self.type_char(c);
                }
                PanelAction::Nothing
            },
            TuiState::PC => {
                if c == '\n' {
                    let v = typed_of(&self.set_val_out, 65535, true);
                    self.clear_value();
                    match v {
                        Some(a) => PanelAction::SetPc(a as u16),
                        None => PanelAction::Nothing,
                    }
                } else {
                    self.type_char(c);
                    PanelAction::Nothing
                }
            },
        }
    }
}

/// A decimal digit takes one byte in UTF-8.
proof fn lemma_digit_width(c: char)
    requires
        digit_value(c, 10) is Some,
    ensures
        char_width(c) == 1,
{
}

/// The decimal text of a number can be split after its second byte when it has more than
/// two, and has no more bytes than characters up to the second.
proof fn lemma_decimal_splits(v: nat)
    ensures
        byte_len(decimal(v)) > 2 ==> split_point(decimal(v)) is Some,
        decimal(v).len() >= 2 ==> split_point(decimal(v)) is Some,
        decimal(v).len() >= 1,
{
    let s = decimal(v);
    lemma_decimal_digits(v);
    lemma_digit_width(s[0]);
    if s.len() >= 2 {
        lemma_digit_width(s[1]);
    } else {
        assert(s.drop_first().len() == 0);
        assert(encode_utf8(s.drop_first()) == Seq::<u8>::empty());
    }
}

/// Enter in register mode, with a register chosen, sets it to the number typed in decimal
/// and clears what was typed.
pub proof fn law_register_takes_typed_decimal(p: PanelView, v: u16)
    requires
        p.mode == TuiState::REG,
        p.selected,
        p.set_val_out == decimal(v as nat),
    ensures
        panel_key_ok(p, PanelKey::Char('\n')),
        panel_key(p, PanelKey::Char('\n')) == (cleared(p), PanelAction::SetRegister(p.reg_id, v)),
{
    law_decimal_reads_back(v as nat, 65535);
    lemma_decimal_splits(v as nat);
}

/// Enter in ADC mode, with a pin chosen, sets it to the number typed in decimal and clears
/// what was typed.
pub proof fn law_adc_takes_typed_decimal(p: PanelView, v: u8)
    requires
        p.mode == TuiState::ADC,
        p.selected,
        p.set_val_out == decimal(v as nat),
    ensures
        panel_key_ok(p, PanelKey::Char('\n')),
        panel_key(p, PanelKey::Char('\n')) == (cleared(p), PanelAction::SetAdc(p.adc_pin, v)),
{
    law_decimal_reads_back(v as nat, 255);
    lemma_decimal_splits(v as nat);
}

/// Enter in GPIO mode, with a pin chosen, sets it to the boolean typed and clears what was
/// typed.
pub proof fn law_gpio_takes_typed_bool(p: PanelView, b: bool)
    requires
        p.mode == TuiState::GPIO,
        p.selected,
        p.set_val_out == (if b { "true"@ } else { "false"@ }),
    ensures
        panel_key_ok(p, PanelKey::Char('\n')),
        panel_key(p, PanelKey::Char('\n')) == (cleared(p), PanelAction::SetGpio(p.gpio_pin, b)),
{
    reveal_strlit("true");
    reveal_strlit("false");
}

/// Insert twice, from control or input mode, leaves the controls as they were but for what
/// was typed as a value, which is cleared.
pub proof fn law_insert_twice(p: PanelView)
    requires
        p.mode == TuiState::CONT || p.mode == TuiState::IN,
    ensures
        panel_key(panel_key(p, PanelKey::Insert).0, PanelKey::Insert) == (
            cleared(p),
            PanelAction::Nothing,
        ),
{
}

/// Scrolling the memory view up and then down by the same step leaves the controls as they
/// were.
pub proof fn law_scroll_round_trip(p: PanelView)
    ensures
        panel_key(panel_key(p, PanelKey::Up).0, PanelKey::Down) == (p, PanelAction::Nothing),
        panel_key(panel_key(p, PanelKey::ShiftUp).0, PanelKey::ShiftDown) == (
            p,
            PanelAction::Nothing,
        ),
        panel_key(panel_key(p, PanelKey::CtrlUp).0, PanelKey::CtrlDown) == (
            p,
            PanelAction::Nothing,
        ),
{
}

/// A mode key pressed twice from control mode comes back to control mode, with what was
/// typed cleared and, but for the clock, no target chosen.
pub proof fn law_mode_key_twice(p: PanelView, c: char)
    requires
        p.mode == TuiState::CONT,
        c == 'g' || c == 'a' || c == 'p' || c == 't' || c == 'r' || c == 'c',
    ensures
        panel_key(panel_key(p, PanelKey::Ctrl(c)).0, PanelKey::Ctrl(c)) == (
            PanelView { selected: c == 'c', ..cleared(p) },
            PanelAction::Nothing,
        ),
{
}

/// With no target chosen yet, typing digit `d` chooses the GPIO pin, ADC pin, PWM pin, timer
/// or register numbered `d`, as the mode says, and changes nothing else; a character that
/// numbers none of them changes nothing at all.
pub proof fn law_digits_choose_targets(p: PanelView, c: char)
    ensures
        p.mode == TuiState::GPIO && !p.selected ==> panel_key(p, PanelKey::Char('0')) == (
            PanelView { selected: true, gpio_pin: GpioPin::G0, ..p },
            PanelAction::Nothing,
        ),
        p.mode == TuiState::GPIO && !p.selected ==> panel_key(p, PanelKey::Char('1')) == (
            PanelView { selected: true, gpio_pin: GpioPin::G1, ..p },
            PanelAction::Nothing,
        ),
        p.mode == TuiState::GPIO && !p.selected ==> panel_key(p, PanelKey::Char('2')) == (
            PanelView { selected: true, gpio_pin: GpioPin::G2, ..p },
            PanelAction::Nothing,
        ),
        p.mode == TuiState::GPIO && !p.selected ==> panel_key(p, PanelKey::Char('3')) == (
            PanelView { selected: true, gpio_pin: GpioPin::G3, ..p },
            PanelAction::Nothing,
        ),
        p.mode == TuiState::GPIO && !p.selected ==> panel_key(p, PanelKey::Char('4')) == (
            PanelView { selected: true, gpio_pin: GpioPin::G4, ..p },
            PanelAction::Nothing,
        ),
        p.mode == TuiState::GPIO && !p.selected ==> panel_key(p, PanelKey::Char('5')) == (
            PanelView { selected: true, gpio_pin: GpioPin::G5, ..p },
            PanelAction::Nothing,
        ),
        p.mode == TuiState::GPIO && !p.selected ==> panel_key(p, PanelKey::Char('6')) == (
            PanelView { selected: true, gpio_pin: GpioPin::G6, ..p },
            PanelAction::Nothing,
        ),
        p.mode == TuiState::GPIO && !p.selected ==> panel_key(p, PanelKey::Char('7')) == (
            PanelView { selected: true, gpio_pin: GpioPin::G7, ..p },
            PanelAction::Nothing,
        ),
        p.mode == TuiState::ADC && !p.selected ==> panel_key(p, PanelKey::Char('0')) == (
            PanelView { selected: true, adc_pin: AdcPin::A0, ..p },
            PanelAction::Nothing,
        ),
        p.mode == TuiState::ADC && !p.selected ==> panel_key(p, PanelKey::Char('1')) == (
            PanelView { selected: true, adc_pin: AdcPin::A1, ..p },
            PanelAction::Nothing,
        ),
        p.mode == TuiState::ADC && !p.selected ==> panel_key(p, PanelKey::Char('2')) == (
            PanelView { selected: true, adc_pin: AdcPin::A2, ..p },
            PanelAction::Nothing,
        ),
        p.mode == TuiState::ADC && !p.selected ==> panel_key(p, PanelKey::Char('3')) == (
            PanelView { selected: true, adc_pin: AdcPin::A3, ..p },
            PanelAction::Nothing,
        ),
        p.mode == TuiState::PWM && !p.selected ==> panel_key(p, PanelKey::Char('0')) == (
            PanelView { selected: true, pwm_pin: PwmPin::P0, ..p },
            PanelAction::Nothing,
        ),
        p.mode == TuiState::PWM && !p.selected ==> panel_key(p, PanelKey::Char('1')) == (
            PanelView { selected: true, pwm_pin: PwmPin::P1, ..p },
            PanelAction::Nothing,
        ),
        p.mode == TuiState::TMR && !p.selected ==> panel_key(p, PanelKey::Char('0')) == (
            PanelView { selected: true, timer_id: TimerId::T0, ..p },
            PanelAction::Nothing,
        ),
        p.mode == TuiState::TMR && !p.selected ==> panel_key(p, PanelKey::Char('1')) == (
            PanelView { selected: true, timer_id: TimerId::T1, ..p },
            PanelAction::Nothing,
        ),
        p.mode == TuiState::REG && !p.selected ==> panel_key(p, PanelKey::Char('0')) == (
            PanelView { selected: true, reg_id: Reg::R0, ..p },
            PanelAction::Nothing,
        ),
        p.mode == TuiState::REG && !p.selected ==> panel_key(p, PanelKey::Char('1')) == (
            PanelView { selected: true, reg_id: Reg::R1, ..p },
            PanelAction::Nothing,
        ),
        p.mode == TuiState::REG && !p.selected ==> panel_key(p, PanelKey::Char('2')) == (
            PanelView { selected: true, reg_id: Reg::R2, ..p },
            PanelAction::Nothing,
        ),
        p.mode == TuiState::REG && !p.selected ==> panel_key(p, PanelKey::Char('3')) == (
            PanelView { selected: true, reg_id: Reg::R3, ..p },
            PanelAction::Nothing,
        ),
        p.mode == TuiState::REG && !p.selected ==> panel_key(p, PanelKey::Char('4')) == (
            PanelView { selected: true, reg_id: Reg::R4, ..p },
            PanelAction::Nothing,
        ),
        p.mode == TuiState::REG && !p.selected ==> panel_key(p, PanelKey::Char('5')) == (
            PanelView { selected: true, reg_id: Reg::R5, ..p },
            PanelAction::Nothing,
        ),
        p.mode == TuiState::REG && !p.selected ==> panel_key(p, PanelKey::Char('6')) == (
            PanelView { selected: true, reg_id: Reg::R6, ..p },
            PanelAction::Nothing,
        ),
        p.mode == TuiState::REG && !p.selected ==> panel_key(p, PanelKey::Char('7')) == (
            PanelView { selected: true, reg_id: Reg::R7, ..p },
            PanelAction::Nothing,
        ),
        !p.selected && (p.mode == TuiState::GPIO || p.mode == TuiState::REG) && !('0' <= c <= '7')
            ==> panel_key(p, PanelKey::Char(c)) == (p, PanelAction::Nothing),
        !p.selected && p.mode == TuiState::ADC && !('0' <= c <= '3') ==> panel_key(p, PanelKey::Char(c))
            == (p, PanelAction::Nothing),
        !p.selected && (p.mode == TuiState::PWM || p.mode == TuiState::TMR) && !('0' <= c <= '1')
            ==> panel_key(p, PanelKey::Char(c)) == (p, PanelAction::Nothing),
{
}

} // verus!
