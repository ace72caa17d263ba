use lc3_tui::ansi::{ansi_string_to_tui_text, AnsiTextContainer, Colour, LineBound, Style, Text};
use lc3_tui::debug::run_if_debugging;
use lc3_tui::device::{BoardConfig, DeviceType, TimeInMs, DEFAULT_BAUD_RATE};
use lc3_tui::numbers::ParseIntError;
use lc3_tui::events::{handles_focus_and_clicks, FocusEvent, MouseButton, MouseEvent, WidgetEvent};
use lc3_tui::io::take_output;
use lc3_tui::modes::{get_pin_string, input_mode_string, AdcPin, GpioPin, PwmPin, Reg, TimerId, TuiState};
use lc3_tui::program_source::{
    file_display_name, file_requires_assembly, fit_to, memory_dump_from_bytes,
    missing_file_message, LoadPlan, ProgramSource,
};
use lc3_tui::strings::{get_string, supports_unicode, DotDotDot, PeripheralsTab};
use lc3_tui::util::{increment, is_even, is_odd, trim_to_rect, trim_to_width, Axis, Rect};

fn content(t: &Text) -> &str {
    match t {
        Text::Raw(s) => s.as_str(),
        Text::Styled(s, _) => s.as_str(),
    }
}

#[test]
fn lines_keep_their_newlines() {
    let mut style = Style::new();
    let mut out: Vec<Vec<Text>> = Vec::new();
    let r = ansi_string_to_tui_text("hi\nyo", &mut style, &mut out);
    assert_eq!(r, Ok(()));
    assert_eq!(out.len(), 2);
    assert_eq!(content(&out[0][0]), "hi\n");
    assert_eq!(content(&out[1][0]), "yo");
}

#[test]
fn unsupported_sequences_are_dropped() {
    let mut style = Style::new();
    let mut out: Vec<Vec<Text>> = vec![vec![]];
    let r = ansi_string_to_tui_text("ab\x1b[2Jcd", &mut style, &mut out);
    assert_eq!(r, Ok(()));
    let all: String = out.iter().flatten().map(|t| content(t)).collect();
    assert_eq!(all, "abcd");
}

#[test]
fn an_unfinished_sequence_is_handed_back() {
    let mut style = Style::new();
    let mut out: Vec<Vec<Text>> = vec![vec![]];
    let r = ansi_string_to_tui_text("ok\x1b[", &mut style, &mut out);
    assert_eq!(r, Err("\x1b["));
    assert_eq!(content(&out[0][0]), "ok");
}

#[test]
fn container_joins_pieces_across_pushes() {
    let mut c = AnsiTextContainer::new();
    c.push_string(String::from("one\x1b"));
    c.push_string(String::from("[Ktwo\nthree"));
    assert_eq!(c.as_string(), "onetwo\nthree");
    let last = c.get_lines(LineBound::Included(1), LineBound::Unbounded);
    assert_eq!(last.len(), 1);
    assert_eq!(content(&last[0]), "three");
    c.clear();
    assert_eq!(c.as_string(), "");
}

#[test]
fn pushing_in_parts_gives_the_same_text() {
    let parts = ["ab\x1b[", "1mc", "d\nef\x1b", "[31mg"];
    let mut split = AnsiTextContainer::new();
    for p in parts.iter() {
        split.push_string(String::from(*p));
    }
    let mut whole = AnsiTextContainer::new();
    whole.push_string(parts.concat());
    assert_eq!(split.as_string(), whole.as_string());
    assert_eq!(split.as_string(), "abcd\nefg");
    let a = split.get_lines(LineBound::Unbounded, LineBound::Unbounded);
    let b = whole.get_lines(LineBound::Unbounded, LineBound::Unbounded);
    let last_a = a.last().unwrap();
    let last_b = b.last().unwrap();
    assert!(matches!(last_a, Text::Styled(_, s) if s.fg == Colour::Red && s.modifier == 1));
    assert!(matches!(last_b, Text::Styled(_, s) if s.fg == Colour::Red && s.modifier == 1));
}

#[test]
fn display_attributes_set_the_style() {
    let mut style = Style::new();
    let mut out: Vec<Vec<Text>> = Vec::new();
    let r = ansi_string_to_tui_text("\x1b[1mab", &mut style, &mut out);
    assert_eq!(r, Ok(()));
    let bold = Style { fg: Colour::Reset, bg: Colour::Reset, modifier: 1 };
    assert_eq!(style, bold);
    assert_eq!(out.len(), 1);
    assert_eq!(out[0].len(), 1);
    assert_eq!(content(&out[0][0]), "ab");
    assert!(matches!(out[0][0], Text::Styled(_, s) if s == bold));

    let mut style = Style::new();
    let mut out: Vec<Vec<Text>> = Vec::new();
    let r = ansi_string_to_tui_text("\x1b[31;44;3mx\x1b[38;5;200;48;2;1;2;3my\x1b[0;93mz\x1b[23;39m", &mut style, &mut out);
    assert_eq!(r, Ok(()));
    assert!(matches!(out[0][0], Text::Styled(_, s) if s == Style { fg: Colour::Red, bg: Colour::Blue, modifier: 4 }));
    assert!(matches!(out[0][1], Text::Styled(_, s) if s == Style { fg: Colour::Indexed(200), bg: Colour::Rgb(1, 2, 3), modifier: 4 }));
    assert!(matches!(out[0][2], Text::Styled(_, s) if s == Style { fg: Colour::LightYellow, bg: Colour::Reset, modifier: 0 }));
    assert_eq!(style, Style { fg: Colour::Reset, bg: Colour::Reset, modifier: 0 });
}

#[test]
fn reset_sequence_restores_the_plain_style() {
    let mut style = Style { fg: Colour::Red, bg: Colour::Blue, modifier: 1 };
    let mut out: Vec<Vec<Text>> = vec![vec![]];
    let r = ansi_string_to_tui_text("\x1bcx", &mut style, &mut out);
    assert_eq!(r, Ok(()));
    assert_eq!(style, Style::new());
}

#[test]
fn strings_in_both_forms() {
    assert_eq!(get_string(PeripheralsTab, false), "FOO");
    assert_eq!(get_string(DotDotDot, false), "..");
    assert_eq!(get_string(DotDotDot, true), "\u{2026}");
    assert!(supports_unicode(false, false, false));
    assert!(!supports_unicode(true, false, false));
    assert!(supports_unicode(true, true, false));
    assert!(!supports_unicode(false, true, true));
}

#[test]
fn trimming_keeps_both_ends() {
    assert_eq!(trim_to_width("hello world", 7, false), "hel..ld");
    assert_eq!(trim_to_width("hello world", 7, true), "hel\u{2026}ld");
    assert_eq!(trim_to_width("hello world", 8, false), "hel..rld");
    assert_eq!(trim_to_width("short", 10, false), "short");
    let r = Rect { x: 0, y: 0, width: 6, height: 1 };
    assert_eq!(trim_to_rect("abcdefghij", r, false), "ab..ij");
}

#[test]
fn increment_moves_the_start_and_keeps_the_far_edge() {
    let a = Rect { x: 2, y: 3, width: 10, height: 4 };
    assert_eq!(increment(5, Axis::X, a), Rect { x: 7, y: 3, width: 5, height: 4 });
    assert_eq!(increment(50, Axis::X, a), Rect { x: 12, y: 3, width: 0, height: 4 });
    assert_eq!(increment(1, Axis::Y, a), Rect { x: 2, y: 4, width: 10, height: 3 });
    assert!(a.contains(12, 7));
    assert!(!a.contains(13, 7));
    assert!(is_odd(7) && !is_odd(8) && is_even(8));
}

#[test]
fn debugging_runs_the_function_only_when_on() {
    assert_eq!(run_if_debugging(true, || 5), Some(5));
    assert_eq!(run_if_debugging(false, || 5), None);
}

#[test]
fn passive_widgets_take_focus_and_clicks() {
    assert!(handles_focus_and_clicks(WidgetEvent::Focus(FocusEvent::LostFocus)));
    assert!(handles_focus_and_clicks(WidgetEvent::Mouse(MouseEvent::Up(MouseButton::Right, 0, 0, 0))));
    assert!(!handles_focus_and_clicks(WidgetEvent::Resize(1, 1)));
    assert!(!handles_focus_and_clicks(WidgetEvent::Update));
}

#[test]
fn program_sources_are_read_and_shown() {
    assert!(ProgramSource::from_str("").is_err());
    assert_eq!(ProgramSource::from_str("mem:").err(), Some("Missing URL!"));
    let s = ProgramSource::from_str("mem:http://x/y.mem").unwrap();
    assert_eq!(s.to_display_string(), "mem:http://x/y.mem");
    assert!(!s.requires_assembly());
    let s = ProgramSource::from_str("asm:http://x/y.asm").unwrap();
    assert!(s.requires_assembly());
    let s = ProgramSource::from_str("imm:ADD R0, R0, #1").unwrap();
    assert_eq!(s.to_display_string(), "<immediate>");
    let s = ProgramSource::from_str("dir/prog.asm").unwrap();
    assert_eq!(s.to_display_string(), "prog.asm");
    assert!(s.requires_assembly());
}

#[test]
fn paths_are_named_by_their_last_component() {
    assert_eq!(file_display_name("a/b/c.mem"), "c.mem");
    assert_eq!(file_display_name("/"), "<unprintable>");
    assert!(file_requires_assembly("x/y.asm"));
    assert!(!file_requires_assembly("x/y.mem"));
    assert!(!file_requires_assembly("x/asm"));
}

#[test]
fn load_plans_follow_the_source() {
    match ProgramSource::from_str("prog.asm").unwrap().load_plan() {
        LoadPlan::ReadFile { path, assemble } => {
            assert_eq!(path, "prog.asm");
            assert!(assemble);
        }
        _ => panic!("expected a file"),
    }
    match ProgramSource::from_str("prog.mem").unwrap().load_plan() {
        LoadPlan::ReadFile { assemble, .. } => assert!(!assemble),
        _ => panic!("expected a file"),
    }
    assert!(matches!(ProgramSource::from_str("mem:u").unwrap().load_plan(), LoadPlan::FetchDump(u) if u == "u"));
    assert!(matches!(ProgramSource::from_str("asm:u").unwrap().load_plan(), LoadPlan::FetchAssembly(u) if u == "u"));
    assert!(matches!(ProgramSource::from_str("imm:x").unwrap().load_plan(), LoadPlan::Assemble(s) if s == "x"));
}

#[test]
fn identifiers_are_fitted_to_their_length() {
    assert_eq!(fit_to("abc", 5), "abc  ");
    assert_eq!(fit_to("abcdef", 4), "abcd");
    let (d, t) = ProgramSource::from_str("mem:url").unwrap().long_ident_parts(8);
    assert_eq!(d, "<mem://>");
    assert_eq!(t.as_deref(), Some("m:url   "));
    let (d, t) = ProgramSource::from_str("imm:x").unwrap().long_ident_parts(8);
    assert_eq!(d, "<string>");
    assert_eq!(t, None);
    let (d, t) = ProgramSource::from_str("dir/hello.asm").unwrap().long_ident_parts(8);
    assert_eq!(d, "<<file>>");
    assert_eq!(t.as_deref(), Some("hello.as"));
}

#[test]
fn memory_dumps_must_cover_the_address_space() {
    let r = memory_dump_from_bytes(&vec![0u8; 10], "http://u");
    assert_eq!(
        r,
        Err(String::from("MemoryDump from `http://u` is the wrong size: expected 131072 bytes but got 10 bytes"))
    );
    let mut bytes = vec![0u8; 131072];
    bytes[0] = 0x21;
    bytes[1] = 0x10;
    bytes[131071] = 0xFF;
    let words = memory_dump_from_bytes(&bytes, "u").unwrap();
    assert_eq!(words.len(), 65536);
    assert_eq!(words[0], 0x1021);
    assert_eq!(words[65535], 0xFF00);
    assert_eq!(missing_file_message("a.mem"), "`a.mem` does not exist!");
}

fn default_board() -> BoardConfig {
    BoardConfig { path: String::from("/dev/default"), baud_rate: 9600 }
}

#[test]
fn device_words() {
    let b = default_board();
    assert!(matches!(DeviceType::from_str("sim", &b), Ok(DeviceType::Sim)));
    assert!(matches!(DeviceType::from_str("sim-rpc", &b), Ok(DeviceType::SimWithRpc)));
    match DeviceType::from_str("board", &b) {
        Ok(DeviceType::Board(c)) => assert_eq!((c.path.as_str(), c.baud_rate), ("/dev/default", 9600)),
        _ => panic!("expected a board"),
    }
    match DeviceType::from_str("board=/dev/ttyUSB0:115200", &b) {
        Ok(DeviceType::Board(c)) => assert_eq!((c.path.as_str(), c.baud_rate), ("/dev/ttyUSB0", 115200)),
        _ => panic!("expected a board"),
    }
    match DeviceType::from_str("board=/dev/ttyUSB1", &b) {
        Ok(DeviceType::Board(c)) => assert_eq!((c.path.as_str(), c.baud_rate), ("/dev/ttyUSB1", DEFAULT_BAUD_RATE)),
        _ => panic!("expected a board"),
    }
    match DeviceType::from_str("board=COM3:9600:x=y", &b) {
        Ok(DeviceType::Board(c)) => assert_eq!((c.path.as_str(), c.baud_rate), ("COM3", 9600)),
        _ => panic!("expected a board"),
    }
    assert_eq!(DeviceType::from_str("simulator", &b).err(), Some("Could not parse device type!"));
}

#[test]
fn devices_are_named_two_ways() {
    let b = default_board();
    let sim = DeviceType::from_str("sim", &b).unwrap();
    assert_eq!(sim.describe(false), "Simulator");
    assert_eq!(sim.describe(true), "locally");
    assert_eq!(sim.session_name(), "UTP LC-3 Simulator (running locally)");
    let rpc = DeviceType::from_str("sim-rpc", &b).unwrap();
    assert_eq!(rpc.describe(false), "Simulator With RPC");
    assert_eq!(rpc.describe(true), "locally via rpc");
    let board = DeviceType::from_str("board=/dev/x", &b).unwrap();
    assert_eq!(board.describe(false), "Board");
    assert_eq!(board.describe(true), "on a board: /dev/x");
}

#[test]
fn update_periods_are_read_as_milliseconds() {
    assert_eq!(TimeInMs::from_str("50"), Ok(TimeInMs(50)));
    assert_eq!(TimeInMs::from_str("+7"), Ok(TimeInMs(7)));
    assert_eq!(TimeInMs::from_str("50").unwrap().millis(), 50);
    assert_eq!(TimeInMs::from_str(""), Err(ParseIntError::Empty));
    assert_eq!(TimeInMs::from_str("+"), Err(ParseIntError::InvalidDigit));
    assert_eq!(TimeInMs::from_str("-1"), Err(ParseIntError::InvalidDigit));
    assert_eq!(TimeInMs::from_str("5x"), Err(ParseIntError::InvalidDigit));
    assert_eq!(TimeInMs::from_str("18446744073709551616"), Err(ParseIntError::PosOverflow));
    assert_eq!(TimeInMs::from_str("18446744073709551615"), Ok(TimeInMs(u64::MAX)));
    assert_eq!(TimeInMs::from_str("99999999999999999999x"), Err(ParseIntError::PosOverflow));
}

#[test]
fn modes_are_named() {
    assert_eq!(input_mode_string(TuiState::CONT), "Control");
    assert_eq!(input_mode_string(TuiState::PC), "Program Counter (PC)");
    assert_eq!(input_mode_string(TuiState::TMR), "Timer");
    let pin = |s| get_pin_string(s, GpioPin::G5, AdcPin::A2, PwmPin::P1, TimerId::T0, Reg::R7);
    assert_eq!(pin(TuiState::GPIO), "G5");
    assert_eq!(pin(TuiState::ADC), "A2");
    assert_eq!(pin(TuiState::PWM), "P1");
    assert_eq!(pin(TuiState::TMR), "T0");
    assert_eq!(pin(TuiState::REG), "R7");
    assert_eq!(pin(TuiState::CLK), "CLK");
    assert_eq!(pin(TuiState::PC), "PC");
    assert_eq!(pin(TuiState::MEM), "");
    assert_eq!(pin(TuiState::IN), "");
}

#[test]
fn output_is_taken_whole() {
    let mut buf = b"hi!".to_vec();
    assert_eq!(take_output(&mut buf), Some(String::from("hi!")));
    assert!(buf.is_empty());
    assert_eq!(take_output(&mut buf), None);
    let mut bad = vec![0xFFu8, 0x41];
    assert_eq!(take_output(&mut bad), None);
    assert!(bad.is_empty());
}
