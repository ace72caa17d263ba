//! The input modes of the stand-alone terminal simulator, and how it names them and the pin,
//! timer or register each mode works on.

use vstd::prelude::*;
use vstd::string::*;

verus! {

/// What the keys typed act on.
#[derive(Debug, Clone, Copy, PartialEq, Eq, Structural)]
pub enum TuiState {
    CONT,
    IN,
    GPIO,
    ADC,
    PWM,
    TMR,
    CLK,
    REG,
    PC,
    MEM,
}

/// A general purpose I/O pin.
#[derive(Debug, Clone, Copy, PartialEq, Eq, Structural)]
pub enum GpioPin {
    G0,
    G1,
    G2,
    G3,
    G4,
    G5,
    G6,
    G7,
}

/// An analog to digital converter pin.
#[derive(Debug, Clone, Copy, PartialEq, Eq, Structural)]
pub enum AdcPin {
    A0,
    A1,
    A2,
    A3,
}

/// A pulse width modulation pin.
#[derive(Debug, Clone, Copy, PartialEq, Eq, Structural)]
pub enum PwmPin {
    P0,
    P1,
}

/// A timer.
#[derive(Debug, Clone, Copy, PartialEq, Eq, Structural)]
pub enum TimerId {
    T0,
    T1,
}

/// A general purpose register.
#[derive(Debug, Clone, Copy, PartialEq, Eq, Structural)]
pub enum Reg {
    R0,
    R1,
    R2,
    R3,
    R4,
    R5,
    R6,
    R7,
}

/// The name of an input mode.
pub open spec fn mode_name(s: TuiState) -> Seq<char> {
    match s {
        TuiState::CONT => "Control"@,
        TuiState::IN => "Input"@,
        TuiState::GPIO => "GPIO"@,
        TuiState::ADC => "ADC"@,
        TuiState::PWM => "PWM"@,
        TuiState::TMR => "Timer"@,
        TuiState::CLK => "Clock"@,
        TuiState::REG => "Registers"@,
        TuiState::PC => "Program Counter (PC)"@,
        TuiState::MEM => "Memory"@,
    }
}

/// The name of an input mode.
pub fn input_mode_string(s: TuiState) -> (r: String)
    ensures
        r@ == mode_name(s),
{
    match s {
        TuiState::CONT => String::from_str("Control"),
        TuiState::IN => String::from_str("Input"),
        TuiState::GPIO => String::from_str("GPIO"),
        TuiState::ADC => String::from_str("ADC"),
        TuiState::PWM => String::from_str("PWM"),
        TuiState::TMR => String::from_str("Timer"),
        TuiState::CLK => String::from_str("Clock"),
        TuiState::REG => String::from_str("Registers"),
        TuiState::PC => String::from_str("Program Counter (PC)"),
        TuiState::MEM => String::from_str("Memory"),
    }
}

/// The name of what a mode works on: the selected pin, timer or register, the clock or the
/// program counter; nothing for the other modes.
pub open spec fn pin_name(s: TuiState, g: GpioPin, a: AdcPin, p: PwmPin, t: TimerId, r: Reg) -> Seq<char> {
    match s {
        TuiState::GPIO => match g {
            GpioPin::G0 => "G0"@,
            GpioPin::G1 => "G1"@,
            GpioPin::G2 => "G2"@,
            GpioPin::G3 => "G3"@,
            GpioPin::G4 => "G4"@,
            GpioPin::G5 => "G5"@,
            GpioPin::G6 => "G6"@,
            GpioPin::G7 => "G7"@,
        },
        TuiState::ADC => match a {
            AdcPin::A0 => "A0"@,
            AdcPin::A1 => "A1"@,
            AdcPin::A2 => "A2"@,
            AdcPin::A3 => "A3"@,
        },
        TuiState::PWM => match p {
            PwmPin::P0 => "P0"@,
            PwmPin::P1 => "P1"@,
        },
        TuiState::TMR => match t {
            TimerId::T0 => "T0"@,
            TimerId::T1 => "T1"@,
        },
        TuiState::REG => match r {
            Reg::R0 => "R0"@,
            Reg::R1 => "R1"@,
            Reg::R2 => "R2"@,
            Reg::R3 => "R3"@,
            Reg::R4 => "R4"@,
            Reg::R5 => "R5"@,
            Reg::R6 => "R6"@,
            Reg::R7 => "R7"@,
        },
        TuiState::CLK => "CLK"@,
        TuiState::PC => "PC"@,
        _ => ""@,
    }
}

/// The name of what a mode works on, given the pin, timer and register selected.
pub fn get_pin_string(s: TuiState, g: GpioPin, a: AdcPin, p: PwmPin, t: TimerId, r: Reg) -> (res: String)
    ensures
        res@ == pin_name(s, g, a, p, t, r),
{
    match s {
        TuiState::GPIO => match g {
            GpioPin::G0 => String::from_str("G0"),
            GpioPin::G1 => String::from_str("G1"),
            GpioPin::G2 => String::from_str("G2"),
            GpioPin::G3 => String::from_str("G3"),
            GpioPin::G4 => String::from_str("G4"),
            GpioPin::G5 => String::from_str("G5"),
            GpioPin::G6 => String::from_str("G6"),
            GpioPin::G7 => String::from_str("G7"),
        },
        TuiState::ADC => match a {
            AdcPin::A0 => String::from_str("A0"),
            AdcPin::A1 => String::from_str("A1"),
            AdcPin::A2 => String::from_str("A2"),
            AdcPin::A3 => String::from_str("A3"),
        },
        TuiState::PWM => match p {
            PwmPin::P0 => String::from_str("P0"),
            PwmPin::P1 => String::from_str("P1"),
        },
        TuiState::TMR => match t {
            TimerId::T0 => String::from_str("T0"),
            TimerId::T1 => String::from_str("T1"),
        },
        TuiState::REG => match r {
            Reg::R0 => String::from_str("R0"),
            Reg::R1 => String::from_str("R1"),
            Reg::R2 => String::from_str("R2"),
            Reg::R3 => String::from_str("R3"),
            Reg::R4 => String::from_str("R4"),
            Reg::R5 => String::from_str("R5"),
            Reg::R6 => String::from_str("R6"),
            Reg::R7 => String::from_str("R7"),
        },
        TuiState::CLK => String::from_str("CLK"),
        TuiState::PC => String::from_str("PC"),
        _ => {
            proof {
                reveal_strlit("");
            }
            String::new()
        },
    }
}

/// Modes that select nothing (control, input and memory) name nothing.
pub proof fn law_modes_without_selection(g: GpioPin, a: AdcPin, p: PwmPin, t: TimerId, r: Reg)
    ensures
        pin_name(TuiState::CONT, g, a, p, t, r) == Seq::<char>::empty(),
        pin_name(TuiState::IN, g, a, p, t, r) == Seq::<char>::empty(),
        pin_name(TuiState::MEM, g, a, p, t, r) == Seq::<char>::empty(),
{
    reveal_strlit("");
}

} // verus!
