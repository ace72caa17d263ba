//! The texts of the stand-alone simulator's screen: the registers, the memory around the
//! program counter with the instructions its words encode, the peripherals' states and the
//! line that says which input mode the controls are in.

use vstd::prelude::*;
use vstd::string::*;
use crate::ansi::{Colour, Style, Text, TextView};
use crate::mem::{decodable, instruction_text, lc3_instruction_text, row_addr};
use crate::modes::{mode_name, pin_name, TimerId, TuiState};
use crate::numbers::{
    bin_text, decimal, decimal_string, dec_text, hex_text, push_padded_digits, word_line,
};
use crate::panel::{ControlPanel, PanelView};
use crate::widgets::TimerState;

verus! {

/// The modifier bit that makes text bold.
pub const BOLD: u16 = 1;

/// The style of a prompt that asks for a choice: bold red.
pub open spec fn alert_style() -> Style {
    Style { fg: Colour::Red, bg: Colour::Reset, modifier: BOLD }
}

/// A word three ways, separated by spaces: binary, hexadecimal and decimal.
pub open spec fn fields(w: u16) -> Seq<char> {
    bin_text(w) + " "@ + hex_text(w) + " "@ + dec_text(w)
}

/// Appends `fields(w)` to `s`.
fn push_fields(s: &mut String, w: u16)
    ensures
        final(s)@ == old(s)@ + fields(w),
{
    proof {
        reveal_strlit("0b");
        reveal_strlit("0x");
        reveal_strlit(" ");
    }
    s.append("0b");
    push_padded_digits(s, w as u64, 2, 16);
    s.append(" ");
    s.append("0x");
    push_padded_digits(s, w as u64, 16, 4);
    s.append(" ");
    push_padded_digits(s, w as u64, 10, 5);
    assert(final(s)@ =~= old(s)@ + fields(w));
}

/// The label of register line `k`: `R0` to `R7`, then the processor status register and the
/// program counter.
pub open spec fn reg_label(k: nat) -> Seq<char> {
    if k < 8 {
        "R"@ + decimal(k) + ":  "@
    } else if k == 8 {
        "PSR: "@
    } else {
        "PC:  "@
    }
}

/// The value shown on register line `k`.
pub open spec fn reg_value(regs: Seq<u16>, psr: u16, pc: u16, k: nat) -> u16 {
    if k < 8 {
        regs[k as int]
    } else if k == 8 {
        psr
    } else {
        pc
    }
}

/// The ten register lines: the eight registers, the processor status register and the
/// program counter, each with its value three ways.
pub fn register_lines(regs: &Vec<u16>, psr: u16, pc: u16) -> (lines: Vec<String>)
    requires
        regs.len() == 8,
    ensures
        lines.len() == 10,
        forall|k: int|
            0 <= k < 10 ==> #[trigger] lines[k]@ == reg_label(k as nat) + fields(
                reg_value(regs@, psr, pc, k as nat),
            ) + "\n"@,
{
    proof {
        reveal_strlit("R");
        reveal_strlit(":  ");
        reveal_strlit("PSR: ");
        reveal_strlit("PC:  ");
        reveal_strlit("\n");
    }
    let mut lines: Vec<String> = Vec::new();
    let mut k: usize = 0;
    while k < 10
        invariant
            k <= 10,
            regs.len() == 8,
            lines.len() == k,
            forall|j: int|
                0 <= j < k ==> #[trigger] lines[j]@ == reg_label(j as nat) + fields(
                    reg_value(regs@, psr, pc, j as nat),
                ) + "\n"@,
        decreases 10 - k,
    {
        let mut s = String::new();
        let v: u16 = if k < 8 {
            s.append("R");
            let d = decimal_string(k as u64);
            s.append(d.as_str());
            s.append(":  ");
            regs[k]
        } else if k == 8 {
            s.append("PSR: ");
            psr
        } else {
            s.append("PC:  ");
            pc
        };
        assert(s@ =~= reg_label(k as nat));
        push_fields(&mut s, v);
        s.append("\n");
        assert(s@ =~= reg_label(k as nat) + fields(reg_value(regs@, psr, pc, k as nat)) + "\n"@);
        lines.push(s);
        k = k + 1;
    }
    lines
}

/// The line of a GPIO pin: disabled, or the level read, or a dash where it could not be read.
pub open spec fn gpio_text(pin: u8, disabled: bool, reading: Option<bool>) -> Seq<char> {
    "GPIO "@ + decimal(pin as nat) + ":  "@ + (if disabled {
        "Disabled"@
    } else {
        match reading {
            Some(true) => "true"@,
            Some(false) => "false"@,
            None => "-"@,
        }
    }) + "\n"@
}

/// The line of a GPIO pin.
pub fn gpio_line(pin: u8, disabled: bool, reading: Option<bool>) -> (s: String)
    ensures
        s@ == gpio_text(pin, disabled, reading),
{
    proof {
        reveal_strlit("GPIO ");
        reveal_strlit(":  ");
        reveal_strlit("Disabled");
        reveal_strlit("true");
        reveal_strlit("false");
        reveal_strlit("-");
        reveal_strlit("\n");
    }
    let mut s = String::from_str("GPIO ");
    let d = decimal_string(pin as u64);
    s.append(d.as_str());
    s.append(":  ");
    let state = if disabled {
        "Disabled"
    } else {
        match reading {
            Some(true) => "true",
            Some(false) => "false",
            None => "-",
        }
    };
    s.append(state);
    s.append("\n");
    assert(s@ =~= gpio_text(pin, disabled, reading));
    s
}

/// The line of an ADC pin: disabled, or the value read three ways, or dashes where it could
/// not be read.
pub open spec fn adc_text(pin: u8, disabled: bool, reading: Option<u8>) -> Seq<char> {
    "ADC "@ + decimal(pin as nat) + ":   "@ + (if disabled {
        "Disabled"@
    } else {
        match reading {
            Some(n) => fields(n as u16),
            None => "-                  -      -"@,
        }
    }) + "\n"@
}

/// The line of an ADC pin.
pub fn adc_line(pin: u8, disabled: bool, reading: Option<u8>) -> (s: String)
    ensures
        s@ == adc_text(pin, disabled, reading),
{
    proof {
        reveal_strlit("ADC ");
        reveal_strlit(":   ");
        reveal_strlit("Disabled");
        reveal_strlit("-                  -      -");
        reveal_strlit("\n");
    }
    let mut s = String::from_str("ADC ");
    let d = decimal_string(pin as u64);
    s.append(d.as_str());
    s.append(":   ");
    if disabled {
        s.append("Disabled");
    } else {
        match reading {
            Some(n) => push_fields(&mut s, n as u16),
            None => s.append("-                  -      -"),
        }
    }
    s.append("\n");
    assert(s@ =~= adc_text(pin, disabled, reading));
    s
}

/// The line of a PWM pin: disabled (with no line break), or its duty cycle three ways.
pub open spec fn pwm_text(pin: u8, enabled: bool, duty: u8) -> Seq<char> {
    "PWM "@ + decimal(pin as nat) + ":   "@ + (if enabled {
        fields(duty as u16) + "\n"@
    } else {
        "Disabled"@
    })
}

/// The line of a PWM pin.
pub fn pwm_line(pin: u8, enabled: bool, duty: u8) -> (s: String)
    ensures
        s@ == pwm_text(pin, enabled, duty),
{
    proof {
        reveal_strlit("PWM ");
        reveal_strlit(":   ");
        reveal_strlit("Disabled");
        reveal_strlit("\n");
    }
    let mut s = String::from_str("PWM ");
    let d = decimal_string(pin as u64);
    s.append(d.as_str());
    s.append(":   ");
    if enabled {
        push_fields(&mut s, duty as u16);
        s.append("\n");
    } else {
        s.append("Disabled");
    }
    assert(s@ =~= pwm_text(pin, enabled, duty));
    s
}

/// The line of a timer: disabled (the first timer is called 1, the second 2), or how it
/// repeats and its period three ways.
pub open spec fn timer_text(timer: TimerId, state: TimerState, period: u16) -> Seq<char> {
    match state {
        TimerState::Disabled => match timer {
            TimerId::T0 => "Timer 1: Disabled\n"@,
            TimerId::T1 => "Timer 2: Disabled\n"@,
        },
        TimerState::Repeated => "Repeat:  "@ + fields(period) + "\n"@,
        TimerState::SingleShot => "Single:  "@ + fields(period) + "\n"@,
    }
}

/// The line of a timer.
pub fn timer_line(timer: TimerId, state: TimerState, period: u16) -> (s: String)
    ensures
        s@ == timer_text(timer, state, period),
{
    proof {
        reveal_strlit("Timer 1: Disabled\n");
        reveal_strlit("Timer 2: Disabled\n");
        reveal_strlit("Repeat:  ");
        reveal_strlit("Single:  ");
        reveal_strlit("\n");
    }
    match state {
        TimerState::Disabled => match timer {
            TimerId::T0 => String::from_str("Timer 1: Disabled\n"),
            TimerId::T1 => String::from_str("Timer 2: Disabled\n"),
        },
        TimerState::Repeated => {
            let mut s = String::from_str("Repeat:  ");
            push_fields(&mut s, period);
            s.append("\n");
            assert(s@ =~= timer_text(timer, state, period));
            s
        },
        TimerState::SingleShot => {
            let mut s = String::from_str("Single:  ");
            push_fields(&mut s, period);
            s.append("\n");
            assert(s@ =~= timer_text(timer, state, period));
            s
        },
    }
}

/// The line of the clock: its value three ways.
pub fn clock_line(clock: u16) -> (s: String)
    ensures
        s@ == word_line(clock),
{
    proof {
        reveal_strlit("\n");
    }
    let mut s = String::new();
    push_fields(&mut s, clock);
    s.append("\n");
    assert(s@ =~= word_line(clock));
    s
}

/// The text under the mode line: in memory mode, a prompt for the address or the address
/// chosen; in the modes that set a pin, timer, register, the clock or the program counter, a
/// prompt to choose one or the one chosen; else an empty line.
pub open spec fn target_text(p: PanelView) -> TextView {
    if p.mode == TuiState::MEM {
        if !p.selected {
            ("INPUT ADDRESS\n"@, Some(alert_style()))
        } else {
            ("Current Addr: "@ + decimal(p.mem_addr as nat) + "\n"@, Some(Style::plain()))
        }
    } else if p.mode != TuiState::CONT && p.mode != TuiState::IN {
        if !p.selected {
            ("SELECT SHIM\n"@, Some(alert_style()))
        } else {
            (
                "Current Shim: "@ + pin_name(p.mode, p.gpio_pin, p.adc_pin, p.pwm_pin, p.timer_id, p.reg_id)
                    + "\n"@,
                Some(Style::plain()),
            )
        }
    } else {
        ("\n"@, Some(Style::plain()))
    }
}

/// The three texts that say where the controls are: the input mode, the target, and the
/// value being typed.
pub open spec fn mode_texts_of(p: PanelView) -> Seq<TextView> {
    seq![
        ("Input Mode: "@ + mode_name(p.mode) + "\n"@, None),
        target_text(p),
        (p.set_val_out, None),
    ]
}

/// The three texts that say where the controls are.
pub fn mode_texts(p: &ControlPanel) -> (texts: Vec<Text>)
    ensures
        texts@.map_values(|t: Text| t@) == mode_texts_of(p@),
{
    proof {
        reveal_strlit("Input Mode: ");
        reveal_strlit("\n");
        reveal_strlit("INPUT ADDRESS\n");
        reveal_strlit("Current Addr: ");
        reveal_strlit("SELECT SHIM\n");
        reveal_strlit("Current Shim: ");
    }
    let alert = Style { fg: Colour::Red, bg: Colour::Reset, modifier: BOLD };
    let plain = Style::new();
    let mut mode = String::from_str("Input Mode: ");
    let name = crate::modes::input_mode_string(p.mode);
    mode.append(name.as_str());
    mode.append("\n");
    let target = if p.mode == TuiState::MEM {
        if !p.selected {
            Text::styled(String::from_str("INPUT ADDRESS\n"), alert)
        } else {
            let mut s = String::from_str("Current Addr: ");
            let d = decimal_string(p.mem_addr as u64);
            s.append(d.as_str());
            s.append("\n");
            Text::styled(s, plain)
        }
    } else if p.mode != TuiState::CONT && p.mode != TuiState::IN {
        if !p.selected {
            Text::styled(String::from_str("SELECT SHIM\n"), alert)
        } else {
            let mut s = String::from_str("Current Shim: ");
            let pin = crate::modes::get_pin_string(
                p.mode,
                p.gpio_pin,
                p.adc_pin,
                p.pwm_pin,
                p.timer_id,
                p.reg_id,
            );
            s.append(pin.as_str());
            s.append("\n");
            Text::styled(s, plain)
        }
    } else {
        Text::styled(String::from_str("\n"), plain)
    };
    assert(target@ == target_text(p@));
    let value = Text::raw(p.set_val_out.clone());
    let mut texts: Vec<Text> = Vec::new();
    texts.push(Text::raw(mode));
    texts.push(target);
    texts.push(value);
    assert(texts@.map_values(|t: Text| t@) =~= mode_texts_of(p@));
    texts
}

/// The text of an instruction as the memory listing shows it: that of the word's
/// instruction, or, for a word that encodes none, that of `ADD R0, R0, R0`, the instruction
/// of word `0x1000`.
pub open spec fn shown_instruction(w: u16) -> Seq<char> {
    if decodable(w) {
        lc3_instruction_text(w)
    } else {
        lc3_instruction_text(0x1000)
    }
}

/// Row `x` of the memory listing, given its word and the text of its instruction: an arrow
/// at the program counter's row, the address, the word three ways, and the instruction.
pub open spec fn listing_line(pc: u16, offset: u16, x: nat, w: u16, inst: Seq<char>) -> Seq<char> {
    (if x == offset {
        "|--> "@
    } else {
        "|    "@
    }) + hex_text(row_addr(pc, offset, x)) + " "@ + fields(w) + "    "@ + inst + "\n"@
}

/// The first `n` rows of the memory listing.
pub open spec fn listing(pc: u16, offset: u16, words: Seq<u16>, n: nat) -> Seq<char>
    decreases n,
{
    if n == 0 {
        Seq::empty()
    } else {
        listing(pc, offset, words, (n - 1) as nat) + listing_line(
            pc,
            offset,
            (n - 1) as nat,
            words[n - 1],
            shown_instruction(words[n - 1]),
        )
    }
}

/// Appends row `x` of the memory listing, given its word and the text of its instruction.
pub fn push_listing_line(s: &mut String, pc: u16, offset: u16, x: u16, w: u16, inst: &str)
    ensures
        final(s)@ == old(s)@ + listing_line(pc, offset, x as nat, w, inst@),
{
    proof {
        reveal_strlit("|--> ");
        reveal_strlit("|    ");
        reveal_strlit(" ");
        reveal_strlit("    ");
        reveal_strlit("\n");
        reveal_strlit("0x");
    }
    if x == offset {
        s.append("|--> ");
    } else {
        s.append("|    ");
    }
    let addr = pc.wrapping_sub(offset).wrapping_add(x);
    s.append("0x");
    push_padded_digits(s, addr as u64, 16, 4);
    s.append(" ");
    push_fields(s, w);
    s.append("    ");
    s.append(inst);
    s.append("\n");
    assert(final(s)@ =~= old(s)@ + listing_line(pc, offset, x as nat, w, inst@));
}

/// The memory listing: one row for each of the words read from the program counter less
/// `offset` on.
pub fn memory_listing(pc: u16, offset: u16, words: &Vec<u16>) -> (s: String)
    requires
        words.len() < 65536,
    ensures
        s@ == listing(pc, offset, words@, words.len() as nat),
{
    let mut s = String::new();
    let mut x: usize = 0;
    while x < words.len()
        invariant
            x <= words.len() < 65536,
            s@ == listing(pc, offset, words@, x as nat),
        decreases words.len() - x,
    {
        let w = words[x];
        let inst = match instruction_text(w) {
            Some(t) => t,
            None => match instruction_text(0x1000) {
                Some(t) => t,
                None => {
                    assert(decodable(0x1000));
                    String::new()
                },
            },
        };
        push_listing_line(&mut s, pc, offset, x as u16, w, inst.as_str());
        x = x + 1;
    }
    s
}

} // verus!
