use lc3_tui::ansi::{Colour, Style, Text};
use lc3_tui::events::{
    FocusEvent, KeyCode, KeyEvent, MouseButton, MouseEvent, WidgetEvent, CONTROL, NO_MODIFIERS,
    SHIFT,
};
use lc3_tui::mem::{Mem, MemRequest};
use lc3_tui::points::{PointTable, ToggleStep};
use lc3_tui::util::Rect;

fn key(code: KeyCode, modifiers: u8) -> WidgetEvent {
    WidgetEvent::Key(KeyEvent { code, modifiers })
}

fn text_of(t: &Text) -> &str {
    match t {
        Text::Raw(s) => s.as_str(),
        Text::Styled(s, _) => s.as_str(),
    }
}

fn style_of(t: &Text) -> Option<Style> {
    match t {
        Text::Raw(_) => None,
        Text::Styled(_, st) => Some(*st),
    }
}

fn fg(c: Colour) -> Option<Style> {
    Some(Style { fg: c, bg: Colour::Reset, modifier: 0 })
}

#[test]
fn starts_with_the_pc_on_the_third_row() {
    assert_eq!(Mem::default().offset(), 2);
}

#[test]
fn arrow_keys_scroll_one_row_and_wrap() {
    let mut m = Mem::default();
    let mut bp = PointTable::new();
    let mut wp = PointTable::new();
    assert_eq!(m.update(key(KeyCode::Up, NO_MODIFIERS), 0x3000, &mut bp, &mut wp), (true, None));
    assert_eq!(m.offset(), 1);
    m.update(key(KeyCode::Up, NO_MODIFIERS), 0x3000, &mut bp, &mut wp);
    m.update(key(KeyCode::Up, NO_MODIFIERS), 0x3000, &mut bp, &mut wp);
    assert_eq!(m.offset(), 65535);
    m.update(key(KeyCode::Down, NO_MODIFIERS), 0x3000, &mut bp, &mut wp);
    assert_eq!(m.offset(), 0);
}

#[test]
fn shift_and_page_keys_jump() {
    let mut m = Mem::default();
    let mut bp = PointTable::new();
    let mut wp = PointTable::new();
    m.update(key(KeyCode::Up, SHIFT), 0, &mut bp, &mut wp);
    assert_eq!(m.offset(), 65528);
    m.update(key(KeyCode::Down, SHIFT), 0, &mut bp, &mut wp);
    assert_eq!(m.offset(), 2);
    m.update(key(KeyCode::PageDown, NO_MODIFIERS), 0, &mut bp, &mut wp);
    assert_eq!(m.offset(), 52);
    m.update(key(KeyCode::PageUp, NO_MODIFIERS), 0, &mut bp, &mut wp);
    assert_eq!(m.offset(), 2);
}

#[test]
fn home_recentres_and_wheel_scrolls() {
    let mut m = Mem::default();
    let mut bp = PointTable::new();
    let mut wp = PointTable::new();
    m.update(WidgetEvent::Mouse(MouseEvent::ScrollUp(1, 1, 0)), 0, &mut bp, &mut wp);
    assert_eq!(m.offset(), 3);
    m.update(WidgetEvent::Mouse(MouseEvent::ScrollDown(1, 1, 0)), 0, &mut bp, &mut wp);
    m.update(WidgetEvent::Mouse(MouseEvent::ScrollDown(1, 1, 0)), 0, &mut bp, &mut wp);
    assert_eq!(m.offset(), 1);
    m.update(key(KeyCode::Home, NO_MODIFIERS), 0, &mut bp, &mut wp);
    assert_eq!(m.offset(), 2);
}

#[test]
fn other_events_are_not_handled() {
    let mut m = Mem::default();
    let mut bp = PointTable::new();
    let mut wp = PointTable::new();
    let drag = WidgetEvent::Mouse(MouseEvent::Drag(MouseButton::Left, 0, 0, 0));
    assert_eq!(m.update(drag, 0, &mut bp, &mut wp), (false, None));
    assert_eq!(m.update(key(KeyCode::Up, CONTROL), 0, &mut bp, &mut wp), (false, None));
    assert_eq!(m.update(key(KeyCode::Char('x'), NO_MODIFIERS), 0, &mut bp, &mut wp), (false, None));
    assert_eq!(m.update(WidgetEvent::Resize(10, 10), 0, &mut bp, &mut wp), (false, None));
    assert_eq!(m.offset(), 2);
    let focus = WidgetEvent::Focus(FocusEvent::GotFocus);
    assert_eq!(m.update(focus, 0, &mut bp, &mut wp), (true, None));
}

#[test]
fn w_toggles_the_watchpoint_at_the_cursor() {
    let mut m = Mem::default();
    let mut bp = PointTable::new();
    let mut wp = PointTable::new();
    let w = key(KeyCode::Char('w'), NO_MODIFIERS);
    let r = m.update(w, 0x3000, &mut bp, &mut wp);
    assert_eq!(r, (true, Some(MemRequest::Watchpoint(ToggleStep::Place(0x3000)))));
    wp.record_set(0x3000, Some(1));
    let r = m.update(w, 0x3000, &mut bp, &mut wp);
    assert_eq!(r, (true, Some(MemRequest::Watchpoint(ToggleStep::Unset(1)))));
    assert!(!wp.contains(0x3000));
    assert!(!bp.contains(0x3000));
}

#[test]
fn b_toggles_the_breakpoint_and_keeps_the_view() {
    let mut m = Mem::default();
    let mut bp = PointTable::new();
    let mut wp = PointTable::new();
    m.update(key(KeyCode::Up, SHIFT), 0x3000, &mut bp, &mut wp);
    m.update(key(KeyCode::Down, SHIFT), 0x3000, &mut bp, &mut wp);
    m.update(key(KeyCode::Down, NO_MODIFIERS), 0x3000, &mut bp, &mut wp);
    m.update(key(KeyCode::Down, NO_MODIFIERS), 0x3000, &mut bp, &mut wp);
    m.update(key(KeyCode::Down, NO_MODIFIERS), 0x3000, &mut bp, &mut wp);
    assert_eq!(m.offset(), 5);
    let b = key(KeyCode::Char('b'), NO_MODIFIERS);
    let r = m.update(b, 0x3000, &mut bp, &mut wp);
    assert_eq!(r, (true, Some(MemRequest::Breakpoint(ToggleStep::Place(0x2ffd)))));
    assert_eq!(m.offset(), 5);
}

#[test]
fn columns_show_fifty_rows_three_ways() {
    let m = Mem::default();
    let mut bp = PointTable::new();
    let wp = PointTable::new();
    bp.record_set(0x3000, Some(0));
    let words = vec![0x1021u16; 50];
    let area = Rect { x: 0, y: 0, width: 200, height: 50 };
    let cols = m.columns(0x3000, &words, &bp, &wp, area);
    assert_eq!(cols.len(), 9);
    assert_eq!(text_of(&cols[0].texts[0]), "\n\n-->");
    assert_eq!(style_of(&cols[0].texts[0]), fg(Colour::Rgb(0x73, 0xB7, 0xE8)));
    let arrow = format!("\n\n-->\n{}", "\n".repeat(47));
    assert_eq!(text_of(&cols[1].texts[0]), arrow);
    let bps = text_of(&cols[2].texts[0]);
    assert!(bps.starts_with("\n\n<b>\n\n"));
    assert_eq!(bps.len(), 53);
    assert!(text_of(&cols[4].texts[0]).starts_with("0x2ffe\n0x2fff\n0x3000\n"));
    assert_eq!(text_of(&cols[5].texts[0]), "0b0001000000100001\n".repeat(50));
    assert_eq!(text_of(&cols[6].texts[0]), "0x1021\n".repeat(50));
    assert_eq!(text_of(&cols[7].texts[0]), "04129\n".repeat(50));
    assert_eq!(text_of(&cols[8].texts[0]), "ADD   R0, R0, #1\n".repeat(50));
    assert_eq!(style_of(&cols[8].texts[0]), fg(Colour::LightCyan));
    assert_eq!(cols[2].area, Rect { x: 5, y: 0, width: 195, height: 50 });
    assert_eq!(cols[8].area, Rect { x: 59, y: 0, width: 141, height: 50 });
    assert!(cols[4].wrap);
    assert!(!cols[5].wrap);
}

#[test]
fn narrow_view_stops_at_the_first_column_without_room() {
    let m = Mem::default();
    let bp = PointTable::new();
    let wp = PointTable::new();
    let words = vec![0xF025u16; 50];
    let cols = m.columns(0x200, &words, &bp, &wp, Rect { x: 0, y: 0, width: 10, height: 5 });
    assert_eq!(cols.len(), 3);
    let cols = m.columns(0x200, &words, &bp, &wp, Rect { x: 0, y: 0, width: 50, height: 5 });
    assert_eq!(cols.len(), 6);
    let cols = m.columns(0x200, &words, &bp, &wp, Rect { x: 0, y: 0, width: 60, height: 5 });
    assert_eq!(cols.len(), 8);
}

#[test]
fn instructions_are_decoded() {
    let m = Mem::default();
    let bp = PointTable::new();
    let wp = PointTable::new();
    let mut words = vec![0u16; 50];
    words[0] = 0xF025;
    words[1] = 0x5260;
    let cols = m.columns(0x200, &words, &bp, &wp, Rect { x: 0, y: 0, width: 250, height: 60 });
    let insts = text_of(&cols[8].texts[0]);
    assert!(insts.starts_with("TRAP  x25\nAND   R1, R1, #0\n"));
}
