use lc3_tui::ansi::{Colour, Style, Text};
use lc3_tui::modes::TimerId;
use lc3_tui::panel::{ControlPanel, PanelKey};
use lc3_tui::screen::{
    adc_line, clock_line, gpio_line, memory_listing, mode_texts, push_listing_line, pwm_line,
    register_lines, timer_line, BOLD,
};
use lc3_tui::widgets::TimerState;

fn parts(t: &Text) -> (&str, Option<Style>) {
    match t {
        Text::Raw(s) => (s.as_str(), None),
        Text::Styled(s, st) => (s.as_str(), Some(*st)),
    }
}

fn alert() -> Option<Style> {
    Some(Style { fg: Colour::Red, bg: Colour::Reset, modifier: BOLD })
}

fn plain() -> Option<Style> {
    Some(Style { fg: Colour::Reset, bg: Colour::Reset, modifier: 0 })
}

#[test]
fn register_lines_show_each_value_three_ways() {
    let regs: Vec<u16> = vec![1, 2, 3, 4, 5, 6, 7, 0xffff];
    let lines = register_lines(&regs, 0x8002, 0x3000);
    assert_eq!(lines.len(), 10);
    assert_eq!(lines[0], "R0:  0b0000000000000001 0x0001 00001\n");
    assert_eq!(lines[7], "R7:  0b1111111111111111 0xffff 65535\n");
    assert_eq!(lines[8], "PSR: 0b1000000000000010 0x8002 32770\n");
    assert_eq!(lines[9], "PC:  0b0011000000000000 0x3000 12288\n");
}

#[test]
fn gpio_lines() {
    assert_eq!(gpio_line(3, false, Some(true)), "GPIO 3:  true\n");
    assert_eq!(gpio_line(0, false, Some(false)), "GPIO 0:  false\n");
    assert_eq!(gpio_line(7, false, None), "GPIO 7:  -\n");
    assert_eq!(gpio_line(7, true, Some(true)), "GPIO 7:  Disabled\n");
}

#[test]
fn adc_lines() {
    assert_eq!(adc_line(0, false, Some(200)), "ADC 0:   0b0000000011001000 0x00c8 00200\n");
    assert_eq!(adc_line(2, false, None), "ADC 2:   -                  -      -\n");
    assert_eq!(adc_line(3, true, None), "ADC 3:   Disabled\n");
}

#[test]
fn pwm_lines() {
    assert_eq!(pwm_line(1, true, 128), "PWM 1:   0b0000000010000000 0x0080 00128\n");
    assert_eq!(pwm_line(0, false, 128), "PWM 0:   Disabled");
}

#[test]
fn timer_and_clock_lines() {
    assert_eq!(timer_line(TimerId::T0, TimerState::Disabled, 9), "Timer 1: Disabled\n");
    assert_eq!(timer_line(TimerId::T1, TimerState::Disabled, 9), "Timer 2: Disabled\n");
    assert_eq!(
        timer_line(TimerId::T1, TimerState::Repeated, 100),
        "Repeat:  0b0000000001100100 0x0064 00100\n"
    );
    assert_eq!(
        timer_line(TimerId::T0, TimerState::SingleShot, 1),
        "Single:  0b0000000000000001 0x0001 00001\n"
    );
    assert_eq!(clock_line(0xffff), "0b1111111111111111 0xffff 65535\n");
}

#[test]
fn mode_texts_follow_the_controls() {
    let mut p = ControlPanel::new();
    let t = mode_texts(&p);
    assert_eq!(t.len(), 3);
    assert_eq!(parts(&t[0]), ("Input Mode: Control\n", None));
    assert_eq!(parts(&t[1]), ("\n", plain()));
    assert_eq!(parts(&t[2]), ("", None));

    p.key(PanelKey::Ctrl('g'));
    let t = mode_texts(&p);
    assert_eq!(parts(&t[0]), ("Input Mode: GPIO\n", None));
    assert_eq!(parts(&t[1]), ("SELECT SHIM\n", alert()));
    p.key(PanelKey::Char('5'));
    p.key(PanelKey::Char('t'));
    let t = mode_texts(&p);
    assert_eq!(parts(&t[1]), ("Current Shim: G5\n", plain()));
    assert_eq!(parts(&t[2]), ("t", None));
    p.key(PanelKey::Char('\n'));

    p.key(PanelKey::Alt('m'));
    let t = mode_texts(&p);
    assert_eq!(parts(&t[0]), ("Input Mode: Memory\n", None));
    assert_eq!(parts(&t[1]), ("INPUT ADDRESS\n", alert()));
    for c in "0x3000\n".chars() {
        p.key(PanelKey::Char(c));
    }
    let t = mode_texts(&p);
    assert_eq!(parts(&t[1]), ("Current Addr: 12288\n", plain()));

    p.key(PanelKey::Insert);
    let t = mode_texts(&p);
    assert_eq!(parts(&t[0]), ("Input Mode: Input\n", None));
    assert_eq!(parts(&t[1]), ("\n", plain()));
}

#[test]
fn listing_line_marks_the_program_counter() {
    let mut s = String::new();
    push_listing_line(&mut s, 0x3000, 2, 2, 0x1021, "ADD   R0, R0, #1");
    assert_eq!(s, "|--> 0x3000 0b0001000000100001 0x1021 04129    ADD   R0, R0, #1\n");
    push_listing_line(&mut s, 0x3000, 2, 0, 7, "x");
    assert!(s.ends_with("|    0x2ffe 0b0000000000000111 0x0007 00007    x\n"));
}

#[test]
fn memory_listing_shows_reserved_words_as_add() {
    let words: Vec<u16> = vec![0x1021, 0xd000, 0xf025];
    let s = memory_listing(0x0001, 2, &words);
    let lines: Vec<&str> = s.lines().collect();
    assert_eq!(lines.len(), 3);
    assert_eq!(lines[0], "|    0xffff 0b0001000000100001 0x1021 04129    ADD   R0, R0, #1");
    assert_eq!(lines[1], "|    0x0000 0b1101000000000000 0xd000 53248    ADD   R0, R0, R0");
    assert_eq!(lines[2], "|--> 0x0001 0b1111000000100101 0xf025 61477    TRAP  x25");
}
