use lc3_tui::ansi::{Colour, Style, Text as StyledText};
use lc3_tui::events::{
    FocusEvent, KeyCode, KeyEvent, MouseButton, MouseEvent, WidgetEvent, ALT, CONTROL,
    NO_MODIFIERS, SHIFT,
};
use lc3_tui::layout::{split, Constraint, Direction, Layout};
use lc3_tui::util::Rect;
use lc3_tui::widgets::{
    Attempt, Button, Console, Empty, Footer, LoadButton, LoadFace, Regs, Text, TimerState,
    Timers_toggle, ATTEMPT_SHOWN_FOR,
};

fn key(code: KeyCode, modifiers: u8) -> WidgetEvent {
    WidgetEvent::Key(KeyEvent { code, modifiers })
}

fn content(t: &StyledText) -> &str {
    match t {
        StyledText::Raw(s) => s.as_str(),
        StyledText::Styled(s, _) => s.as_str(),
    }
}

fn colour(t: &StyledText) -> Option<Colour> {
    match t {
        StyledText::Raw(_) => None,
        StyledText::Styled(_, Style { fg, .. }) => Some(*fg),
    }
}

fn down() -> WidgetEvent {
    WidgetEvent::Mouse(MouseEvent::Down(MouseButton::Left, 1, 1, 0))
}

#[test]
fn footer_takes_focus_and_clicks_only() {
    let mut f = Footer::default();
    assert!(f.update(WidgetEvent::Focus(FocusEvent::GotFocus)));
    assert!(f.update(WidgetEvent::Focus(FocusEvent::LostFocus)));
    assert!(f.update(down()));
    assert!(!f.update(key(KeyCode::Enter, NO_MODIFIERS)));
    assert!(!f.update(WidgetEvent::Mouse(MouseEvent::ScrollUp(0, 0, 0))));
}

#[test]
fn footer_text_lists_the_keys() {
    let t = Footer::default().text();
    assert_eq!(t.len(), 29);
    assert_eq!(content(&t[0]), "To control the TUI, you can use ");
    assert_eq!(colour(&t[0]), Some(Colour::LightGreen));
    assert_eq!(content(&t[28]), "Ctrl + h returns to PC\n");
    assert_eq!(colour(&t[28]), Some(Colour::Rgb(0xFF, 0x97, 0x40)));
}

#[test]
fn empty_ignores_events() {
    let mut e = Empty {};
    e.update(down());
    assert_eq!(e, Empty {});
}

#[test]
fn registers_are_shown_in_two_halves() {
    let regs = [1u16, 2, 3, 4, 5, 6, 7, 8];
    let ps = Regs::default().columns(&regs, 0x8002, 0x3000, Rect { x: 0, y: 0, width: 100, height: 10 });
    assert_eq!(ps.len(), 4);
    assert_eq!(content(&ps[0].texts[0]), "R0:\nR1:\nR2:\nR3:\n");
    assert_eq!(content(&ps[0].texts[1]), "PSR:\n");
    let left = content(&ps[1].texts[0]);
    assert!(left.starts_with("0b0000000000000001 0x0001 00001\n"));
    assert!(left.ends_with("0b1000000000000010 0x8002 32770\n"));
    assert_eq!(left.lines().count(), 5);
    assert_eq!(content(&ps[2].texts[1]), "PC:\n");
    assert!(content(&ps[3].texts[0]).ends_with("0b0011000000000000 0x3000 12288\n"));
    assert_eq!(ps[1].area, Rect { x: 5, y: 0, width: 95, height: 10 });
    assert_eq!(ps[2].area, Rect { x: 45, y: 0, width: 55, height: 10 });
    assert_eq!(ps[3].area, Rect { x: 50, y: 0, width: 50, height: 10 });
}

#[test]
fn console_takes_plain_characters() {
    let mut c = Console::default();
    assert!(c.focusable);
    assert!(c.update(down()));
    assert!(c.update(key(KeyCode::Char('a'), NO_MODIFIERS)));
    assert!(!c.update(key(KeyCode::Char('a'), CONTROL)));
    assert!(!c.update(key(KeyCode::Enter, NO_MODIFIERS)));
    assert!(!c.update(WidgetEvent::Focus(FocusEvent::LostFocus)));
    let mut c = Console { focusable: false };
    assert!(!c.update(WidgetEvent::Focus(FocusEvent::GotFocus)));
}

#[test]
fn console_prompt_sits_on_the_last_rows() {
    let p = Console::default().prompt(Rect { x: 2, y: 1, width: 20, height: 10 });
    assert_eq!(p.area, Rect { x: 2, y: 8, width: 20, height: 3 });
    assert_eq!(content(&p.texts[0]), ">");
}

#[test]
fn timers_need_shims() {
    let mut t = Timers_toggle::default();
    assert!(!t.focusable);
    assert!(!t.update(down(), true));
    let mut t = t.focusable(true);
    assert!(t.update(down(), true));
    assert!(!t.update(down(), false));
    assert!(t.update(key(KeyCode::Char('\n'), ALT), true));
    assert!(!t.update(key(KeyCode::Char('x'), NO_MODIFIERS), true));
    assert!(!t.update(key(KeyCode::Enter, NO_MODIFIERS), true));
}

#[test]
fn timers_show_mode_and_period() {
    let t = Timers_toggle::default();
    let ps = t.columns(
        &[TimerState::Disabled, TimerState::Repeated],
        &[0, 10],
        Rect { x: 0, y: 0, width: 120, height: 4 },
    );
    assert_eq!(content(&ps[0].texts[0]), "Timer 0: \n");
    assert_eq!(content(&ps[1].texts[0]), "Disabled\n");
    assert_eq!(content(&ps[3].texts[0]), "Repeat:  0b0000000000001010 0x000a 00010\n");
    assert_eq!(ps[1].area.x, 10);
    assert_eq!(ps[2].area.x, 50);
    assert_eq!(ps[3].area.x, 60);
    let ps = t.columns(&[TimerState::SingleShot, TimerState::Disabled], &[1, 0], Rect { x: 0, y: 0, width: 120, height: 4 });
    assert_eq!(content(&ps[1].texts[0]), "Single:  0b0000000000000001 0x0001 00001\n");
}

#[test]
fn buttons_show_their_title() {
    let b = Button::new(String::from("Run"), Colour::Green, ());
    let p = b.paragraph(Rect { x: 0, y: 0, width: 5, height: 1 });
    assert_eq!(content(&p.texts[0]), "Run");
    assert_eq!(colour(&p.texts[0]), Some(Colour::Green));
    let b = Button::new_from_func(());
    let p = b.paragraph(Rect { x: 0, y: 0, width: 5, height: 1 });
    assert_eq!(content(&p.texts[0]), "");
    assert_eq!(colour(&p.texts[0]), Some(Colour::Red));
    let mut b = Button::new_sans_title(Colour::Blue, ());
    assert!(b.update(down()));
    assert!(!b.update(key(KeyCode::Tab, NO_MODIFIERS)));
}

#[test]
fn attempts_expire_after_their_time() {
    assert_eq!(Attempt::failed(5), Some(Attempt::Failure(5)));
    assert_eq!(Attempt::succeeded(7), Some(Attempt::Success(7)));
    let a = Attempt::Success(10);
    assert!(!a.expired(10 + ATTEMPT_SHOWN_FOR - 1, ATTEMPT_SHOWN_FOR));
    assert!(a.expired(10 + ATTEMPT_SHOWN_FOR, ATTEMPT_SHOWN_FOR));
    assert!(!a.expired(3, 1));
    assert_eq!(content(&Attempt::Failure(0).message()), "Failed to Load!");
    assert_eq!(colour(&Attempt::Failure(0).message()), Some(Colour::Red));
    assert_eq!(content(&Attempt::Success(0).message()), "Successfully Loaded!");
}

#[test]
fn load_button_events() {
    let mut b = LoadButton::new();
    assert_eq!(b.update(WidgetEvent::Focus(FocusEvent::GotFocus), false), (false, false));
    assert_eq!(b.update(WidgetEvent::Focus(FocusEvent::GotFocus), true), (true, false));
    assert_eq!(b.update(WidgetEvent::Focus(FocusEvent::LostFocus), true), (false, false));
    assert_eq!(b.update(down(), true), (true, true));
    assert_eq!(b.update(down(), false), (false, false));
    let up = WidgetEvent::Mouse(MouseEvent::Up(MouseButton::Left, 1, 1, 0));
    assert_eq!(b.update(up, false), (true, false));
    assert_eq!(b.update(key(KeyCode::Enter, NO_MODIFIERS), true), (false, false));
}

#[test]
fn load_button_shows_the_outcome_for_a_while() {
    let mut b = LoadButton::new();
    let area = Rect { x: 0, y: 0, width: 30, height: 20 };
    let line = b.record_load(&Ok(String::from("Successful Load (`a.mem`)!")), 100);
    assert_eq!(content(&line), "[Load] Successful Load (`a.mem`)!\n");
    assert_eq!(colour(&line), Some(Colour::Green));
    b.begin_draw(area, 100 + ATTEMPT_SHOWN_FOR - 1);
    match b.face(Some("progs/hello.asm"), area) {
        LoadFace::Program { title, upper, lower, outcome } => {
            assert_eq!(content(&title[0]), "Load Program\n");
            assert_eq!(content(&title[1]), "(from: `hello.asm`)");
            assert_eq!(content(outcome.as_ref().unwrap()), "Successfully Loaded!");
            assert_eq!(upper.y, 0);
            assert_eq!(lower.y, upper.height);
            assert_eq!(upper.height + lower.height, 20);
        }
        LoadFace::NoProgram(_) => panic!("expected a program face"),
    }
    b.begin_draw(area, 100 + ATTEMPT_SHOWN_FOR);
    match b.face(Some("hello.mem"), area) {
        LoadFace::Program { outcome, .. } => assert!(outcome.is_none()),
        LoadFace::NoProgram(_) => panic!("expected a program face"),
    }
    let line = b.record_load(&Err(String::from("`x` does not exist!")), 5);
    assert_eq!(content(&line), "[Load] `x` does not exist!\n");
    assert_eq!(colour(&line), Some(Colour::Red));
    match b.face(None, area) {
        LoadFace::NoProgram(t) => assert_eq!(content(&t), "No Program File!\n"),
        LoadFace::Program { .. } => panic!("expected no program"),
    }
}

#[test]
fn text_view_scrolls_and_follows() {
    let mut t = Text::new(());
    assert!(t.update(key(KeyCode::End, NO_MODIFIERS), 120));
    assert_eq!(t.begin_draw(120, 11), 110);
    assert!(t.update(key(KeyCode::Up, NO_MODIFIERS), 120));
    assert_eq!(t.begin_draw(130, 11), 109);
    assert!(t.update(key(KeyCode::Home, NO_MODIFIERS), 120));
    assert_eq!(t.begin_draw(120, 11), 0);
    assert!(t.update(WidgetEvent::Mouse(MouseEvent::ScrollUp(0, 0, 0)), 120));
    assert_eq!(t.begin_draw(120, 11), 0);
    assert!(t.update(key(KeyCode::PageDown, NO_MODIFIERS), 120));
    assert_eq!(t.begin_draw(120, 11), 50);
    assert!(!t.update(key(KeyCode::Up, SHIFT), 120));
    assert!(t.update(WidgetEvent::Focus(FocusEvent::GotFocus), 120));
}

#[test]
fn following_shows_the_last_line_on_the_last_row() {
    let mut t = Text::new(());
    t.update(key(KeyCode::End, NO_MODIFIERS), 0);
    let offset = t.begin_draw(30, 11);
    assert_eq!(offset + 10, 30);
    assert_eq!(t.begin_draw(5, 11), 0);
}

#[test]
fn split_follows_the_terminal_library() {
    let parts = split(
        Layout::new(Direction::Vertical),
        &vec![Constraint::Length(5), Constraint::Min(0)],
        Rect { x: 2, y: 2, width: 10, height: 10 },
    );
    assert_eq!(parts, vec![Rect { x: 2, y: 2, width: 10, height: 5 }, Rect { x: 2, y: 7, width: 10, height: 5 }]);
    let parts = split(
        Layout::new(Direction::Horizontal),
        &vec![Constraint::Ratio(1, 3), Constraint::Ratio(2, 3)],
        Rect { x: 0, y: 0, width: 9, height: 2 },
    );
    assert_eq!(parts, vec![Rect { x: 0, y: 0, width: 3, height: 2 }, Rect { x: 3, y: 0, width: 6, height: 2 }]);
}

#[test]
fn split_keeps_the_margins_free() {
    let layout = Layout { direction: Direction::Vertical, horizontal_margin: 1, vertical_margin: 1 };
    let parts = split(layout, &vec![Constraint::Percentage(100)], Rect { x: 0, y: 0, width: 10, height: 10 });
    assert_eq!(parts, vec![Rect { x: 1, y: 1, width: 8, height: 8 }]);
}

#[test]
fn widgets_hand_back_their_functions() {
    let mut b = Button::new(String::from("Go"), Colour::Green, 7u32);
    assert_eq!(*b.func(), 7);
    b.update(WidgetEvent::Focus(FocusEvent::GotFocus));
    assert_eq!(*b.func(), 7);
    let mut t = Text::new(String::from("lines"));
    t.update(key(KeyCode::Down, NO_MODIFIERS), 10);
    t.begin_draw(10, 3);
    assert_eq!(t.func(), "lines");
}
