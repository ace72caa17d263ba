use lc3_tui::modes::{AdcPin, GpioPin, PwmPin, Reg, TimerId, TuiState};
use lc3_tui::panel::{ControlPanel, PanelAction, PanelKey};

fn type_text(p: &mut ControlPanel, text: &str) {
    for c in text.chars() {
        assert_eq!(p.key(PanelKey::Char(c)), PanelAction::Nothing);
    }
}

fn enter(p: &mut ControlPanel) -> PanelAction {
    assert!(p.accepts(PanelKey::Char('\n')));
    p.key(PanelKey::Char('\n'))
}

#[test]
fn starts_paused_in_control_mode() {
    let p = ControlPanel::new();
    assert_eq!(p.mode, TuiState::CONT);
    assert!(!p.selected);
    assert_eq!(p.gpio_pin, GpioPin::G0);
    assert_eq!(p.adc_pin, AdcPin::A0);
    assert_eq!(p.pwm_pin, PwmPin::P0);
    assert_eq!(p.timer_id, TimerId::T0);
    assert_eq!(p.reg_id, Reg::R0);
    assert_eq!(p.mem_addr, 1);
    assert_eq!(p.offset, 2);
    assert!(!p.running);
    assert!(p.active);
    assert!(p.input_out.is_empty());
    assert!(p.set_val_out.is_empty());
}

#[test]
fn control_keys_step_run_pause_and_quit() {
    let mut p = ControlPanel::new();
    p.offset = 7;
    assert_eq!(p.key(PanelKey::Char('s')), PanelAction::Step);
    assert_eq!(p.offset, 2);
    assert_eq!(p.key(PanelKey::Char('r')), PanelAction::Nothing);
    assert!(p.running);
    p.offset = 9;
    assert_eq!(p.key(PanelKey::Char('s')), PanelAction::Nothing);
    assert_eq!(p.offset, 9);
    assert!(p.begin_iteration());
    assert_eq!(p.offset, 2);
    p.halted();
    assert!(!p.running);
    assert!(!p.begin_iteration());
    assert_eq!(p.key(PanelKey::Char('r')), PanelAction::Nothing);
    assert_eq!(p.key(PanelKey::Char('p')), PanelAction::Nothing);
    assert!(!p.running);
    assert_eq!(p.key(PanelKey::Char('q')), PanelAction::Nothing);
    assert!(!p.active);
}

#[test]
fn input_mode_feeds_characters() {
    let mut p = ControlPanel::new();
    assert_eq!(p.key(PanelKey::Insert), PanelAction::Nothing);
    assert_eq!(p.mode, TuiState::IN);
    assert_eq!(p.key(PanelKey::Char('h')), PanelAction::PushInput('h'));
    assert_eq!(p.key(PanelKey::Char('é')), PanelAction::PushInput('é'));
    assert_eq!(p.input_out, "hé");
    assert_eq!(enter(&mut p), PanelAction::Nothing);
    assert_eq!(p.input_out, "");
    assert_eq!(p.key(PanelKey::Insert), PanelAction::Nothing);
    assert_eq!(p.mode, TuiState::CONT);
}

#[test]
fn scrolling_wraps_and_comes_back() {
    let mut p = ControlPanel::new();
    p.key(PanelKey::Down);
    p.key(PanelKey::Down);
    p.key(PanelKey::Down);
    assert_eq!(p.offset, 65535);
    p.key(PanelKey::Up);
    assert_eq!(p.offset, 0);
    p.key(PanelKey::CtrlUp);
    assert_eq!(p.offset, 100);
    p.key(PanelKey::ShiftDown);
    assert_eq!(p.offset, 90);
    p.key(PanelKey::ShiftUp);
    p.key(PanelKey::CtrlDown);
    assert_eq!(p.offset, 0);
    p.key(PanelKey::Ctrl('h'));
    assert_eq!(p.offset, 2);
}

#[test]
fn gpio_pin_takes_a_typed_boolean() {
    let mut p = ControlPanel::new();
    p.key(PanelKey::Ctrl('g'));
    assert_eq!(p.mode, TuiState::GPIO);
    assert!(!p.selected);
    p.key(PanelKey::Char('9'));
    assert!(!p.selected);
    p.key(PanelKey::Char('5'));
    assert!(p.selected);
    assert_eq!(p.gpio_pin, GpioPin::G5);
    type_text(&mut p, "true");
    assert_eq!(enter(&mut p), PanelAction::SetGpio(GpioPin::G5, true));
    assert!(p.set_val_out.is_empty());
    type_text(&mut p, "false");
    assert_eq!(enter(&mut p), PanelAction::SetGpio(GpioPin::G5, false));
    type_text(&mut p, "yes");
    assert_eq!(enter(&mut p), PanelAction::Nothing);
    p.key(PanelKey::Ctrl('g'));
    assert_eq!(p.mode, TuiState::CONT);
}

#[test]
fn adc_pin_reads_decimal_hex_and_binary() {
    let mut p = ControlPanel::new();
    p.key(PanelKey::Ctrl('a'));
    p.key(PanelKey::Char('3'));
    assert_eq!(p.adc_pin, AdcPin::A3);
    type_text(&mut p, "200");
    assert_eq!(enter(&mut p), PanelAction::SetAdc(AdcPin::A3, 200));
    type_text(&mut p, "0xff");
    assert_eq!(enter(&mut p), PanelAction::SetAdc(AdcPin::A3, 255));
    type_text(&mut p, "0b101");
    assert_eq!(enter(&mut p), PanelAction::SetAdc(AdcPin::A3, 5));
    type_text(&mut p, "256");
    assert_eq!(enter(&mut p), PanelAction::Nothing);
    type_text(&mut p, "0x");
    assert_eq!(enter(&mut p), PanelAction::Nothing);
    type_text(&mut p, "+7");
    assert_eq!(enter(&mut p), PanelAction::SetAdc(AdcPin::A3, 7));
}

#[test]
fn pwm_duty_is_never_zero() {
    let mut p = ControlPanel::new();
    p.key(PanelKey::Ctrl('p'));
    p.key(PanelKey::Char('1'));
    assert_eq!(p.pwm_pin, PwmPin::P1);
    type_text(&mut p, "0");
    assert_eq!(enter(&mut p), PanelAction::Nothing);
    type_text(&mut p, "0x00");
    assert_eq!(enter(&mut p), PanelAction::Nothing);
    type_text(&mut p, "0x80");
    assert_eq!(enter(&mut p), PanelAction::SetPwm(PwmPin::P1, 128));
    type_text(&mut p, "17");
    assert_eq!(enter(&mut p), PanelAction::SetPwm(PwmPin::P1, 17));
}

#[test]
fn timer_and_clock_only_clear_what_is_typed() {
    let mut p = ControlPanel::new();
    p.key(PanelKey::Ctrl('t'));
    p.key(PanelKey::Char('1'));
    assert_eq!(p.timer_id, TimerId::T1);
    type_text(&mut p, "12");
    assert_eq!(enter(&mut p), PanelAction::Nothing);
    assert!(p.set_val_out.is_empty());
    p.key(PanelKey::Ctrl('c'));
    assert_eq!(p.mode, TuiState::CLK);
    assert!(p.selected);
    type_text(&mut p, "5");
    assert_eq!(p.set_val_out, "5");
    assert_eq!(enter(&mut p), PanelAction::Nothing);
    assert!(p.set_val_out.is_empty());
}

#[test]
fn register_takes_a_word() {
    let mut p = ControlPanel::new();
    p.key(PanelKey::Ctrl('r'));
    p.key(PanelKey::Char('7'));
    assert_eq!(p.reg_id, Reg::R7);
    type_text(&mut p, "65535");
    assert_eq!(enter(&mut p), PanelAction::SetRegister(Reg::R7, 65535));
    type_text(&mut p, "0x3000");
    assert_eq!(enter(&mut p), PanelAction::SetRegister(Reg::R7, 0x3000));
    type_text(&mut p, "65536");
    assert_eq!(enter(&mut p), PanelAction::Nothing);
}

#[test]
fn memory_mode_takes_an_address_then_a_word() {
    let mut p = ControlPanel::new();
    p.key(PanelKey::Alt('m'));
    assert_eq!(p.mode, TuiState::MEM);
    assert!(!p.selected);
    type_text(&mut p, "0x3000");
    assert_eq!(enter(&mut p), PanelAction::Nothing);
    assert!(p.selected);
    assert_eq!(p.mem_addr, 0x3000);
    type_text(&mut p, "42");
    assert_eq!(enter(&mut p), PanelAction::WriteWord(0x3000, 42));
    assert!(!p.selected);
    type_text(&mut p, "12");
    assert_eq!(enter(&mut p), PanelAction::Nothing);
    assert_eq!(p.mem_addr, 12);
    // A one-character word cannot be split after its second byte.
    type_text(&mut p, "4");
    assert!(!p.accepts(PanelKey::Char('\n')));
    p.key(PanelKey::Alt('m'));
    assert_eq!(p.mode, TuiState::CONT);
}

#[test]
fn program_counter_mode_sets_the_pc() {
    let mut p = ControlPanel::new();
    p.key(PanelKey::Alt('p'));
    assert_eq!(p.mode, TuiState::PC);
    type_text(&mut p, "0b11");
    assert_eq!(enter(&mut p), PanelAction::SetPc(3));
    type_text(&mut p, "512");
    assert_eq!(enter(&mut p), PanelAction::SetPc(512));
    type_text(&mut p, "x");
    assert!(!p.accepts(PanelKey::Char('\n')));
}

#[test]
fn reset_returns_to_control_mode() {
    let mut p = ControlPanel::new();
    p.key(PanelKey::Insert);
    p.key(PanelKey::Char('a'));
    p.key(PanelKey::Ctrl('r'));
    p.key(PanelKey::Char('2'));
    type_text(&mut p, "9");
    assert_eq!(p.key(PanelKey::Alt('r')), PanelAction::Reset);
    assert_eq!(p.mode, TuiState::CONT);
    assert!(!p.selected);
    assert!(p.input_out.is_empty());
    assert!(p.set_val_out.is_empty());
    assert_eq!(p.reg_id, Reg::R2);
}

#[test]
fn insert_twice_clears_the_value_only() {
    let mut p = ControlPanel::new();
    p.set_val_out = String::from("12");
    p.key(PanelKey::Insert);
    p.key(PanelKey::Insert);
    assert_eq!(p.mode, TuiState::CONT);
    assert!(p.set_val_out.is_empty());
    assert_eq!(p.offset, 2);
}

#[test]
fn other_keys_do_nothing() {
    let mut p = ControlPanel::new();
    assert_eq!(p.key(PanelKey::Other), PanelAction::Nothing);
    assert_eq!(p.key(PanelKey::Alt('z')), PanelAction::Nothing);
    assert_eq!(p.key(PanelKey::Char('z')), PanelAction::Nothing);
    assert_eq!(p.mode, TuiState::CONT);
    assert_eq!(p.offset, 2);
}
