use lc3_tui::events::{
    FocusEvent, KeyCode, KeyEvent, MouseButton, MouseEvent, WidgetEvent, CONTROL, NO_MODIFIERS,
};
use lc3_tui::group::{with_control, Widget, Widgets};
use lc3_tui::layout::{Constraint, Direction, Layout};
use lc3_tui::util::Rect;

type Log = Vec<(usize, WidgetEvent)>;

struct Probe {
    id: usize,
    takes_focus: bool,
    handles_keys: bool,
}

impl Widget<Log> for Probe {
    fn update(&mut self, event: WidgetEvent, data: &mut Log) -> bool {
        data.push((self.id, event));
        match event {
            WidgetEvent::Focus(FocusEvent::GotFocus) => self.takes_focus,
            WidgetEvent::Key(_) => self.handles_keys,
            _ => true,
        }
    }
}

const GOT: WidgetEvent = WidgetEvent::Focus(FocusEvent::GotFocus);
const LOST: WidgetEvent = WidgetEvent::Focus(FocusEvent::LostFocus);

fn group() -> Widgets<Probe> {
    let mut g = Widgets::new(Layout::new(Direction::Vertical));
    g.add_widget(Constraint::Percentage(33), Probe { id: 0, takes_focus: true, handles_keys: false });
    g.add_widget(Constraint::Percentage(33), Probe { id: 1, takes_focus: false, handles_keys: false });
    g.add_widget(Constraint::Percentage(34), Probe { id: 2, takes_focus: true, handles_keys: false });
    g
}

fn ctrl(code: KeyCode) -> WidgetEvent {
    WidgetEvent::Key(with_control(code))
}

#[test]
fn control_keys_are_built_with_control() {
    assert_eq!(with_control(KeyCode::Up), KeyEvent { code: KeyCode::Up, modifiers: CONTROL });
}

#[test]
fn gaining_focus_focuses_the_first_widget() {
    let mut g = group();
    let mut log = Log::new();
    assert_eq!(g.focused_index(), None);
    assert!(g.update(GOT, &mut log));
    assert_eq!(g.focused_index(), Some(0));
    assert_eq!(log, vec![(0, GOT)]);
    let mut empty: Widgets<Probe> = Widgets::new(Layout::new(Direction::Horizontal));
    assert!(!empty.update(GOT, &mut log));
    assert_eq!(empty.focused_index(), None);
}

#[test]
fn focus_key_skips_widgets_that_refuse_focus() {
    let mut g = group();
    let mut log = Log::new();
    g.update(GOT, &mut log);
    log.clear();
    let handled = g.update(ctrl(KeyCode::Down), &mut log);
    assert!(!handled);
    assert_eq!(g.focused_index(), Some(2));
    let key = ctrl(KeyCode::Down);
    assert_eq!(log, vec![(0, key), (1, GOT), (1, LOST), (2, GOT), (0, LOST), (2, key)]);
}

#[test]
fn focus_key_stops_at_the_end() {
    let mut g = group();
    let mut log = Log::new();
    g.update(GOT, &mut log);
    g.update(ctrl(KeyCode::Down), &mut log);
    log.clear();
    assert!(!g.update(ctrl(KeyCode::Down), &mut log));
    assert_eq!(g.focused_index(), Some(2));
    assert_eq!(log, vec![(2, ctrl(KeyCode::Down))]);
    assert!(!g.update(ctrl(KeyCode::Up), &mut log));
    assert_eq!(g.focused_index(), Some(0));
}

#[test]
fn focus_key_across_the_group_goes_to_the_focused_widget() {
    let mut g = group();
    let mut log = Log::new();
    g.update(GOT, &mut log);
    log.clear();
    assert!(!g.update(ctrl(KeyCode::Right), &mut log));
    assert_eq!(g.focused_index(), Some(0));
    assert_eq!(log, vec![(0, ctrl(KeyCode::Right))]);
}

#[test]
fn focus_comes_back_to_the_widget_that_had_it() {
    let mut g = group();
    let mut log = Log::new();
    g.update(GOT, &mut log);
    g.update(ctrl(KeyCode::Down), &mut log);
    assert!(g.update(LOST, &mut log));
    assert_eq!(g.focused_index(), None);
    g.update(GOT, &mut log);
    assert_eq!(g.focused_index(), Some(2));
}

#[test]
fn clicks_move_the_focus_to_the_widget_under_them() {
    let mut g = group();
    let mut log = Log::new();
    let plan = g.draw_plan(Rect { x: 0, y: 0, width: 10, height: 30 });
    assert_eq!(plan.len(), 3);
    assert!(g.check_areas_fit());
    g.update(GOT, &mut log);
    g.update(ctrl(KeyCode::Down), &mut log);
    log.clear();
    let click = WidgetEvent::Mouse(MouseEvent::Down(MouseButton::Left, 5, 2, 0));
    assert!(g.update(click, &mut log));
    assert_eq!(g.focused_index(), Some(0));
    assert_eq!(log, vec![(2, LOST), (0, GOT), (0, click)]);
    let plan = g.draw_plan(Rect { x: 0, y: 0, width: 10, height: 30 });
    assert!(plan[0].1 && !plan[1].1 && !plan[2].1);
    assert_eq!(plan[0].0.y, 0);
}

#[test]
fn clicks_outside_every_widget_are_dropped() {
    let mut g = group();
    let mut log = Log::new();
    g.draw_plan(Rect { x: 0, y: 0, width: 10, height: 30 });
    g.update(GOT, &mut log);
    log.clear();
    let click = WidgetEvent::Mouse(MouseEvent::Up(MouseButton::Left, 50, 50, 0));
    assert!(!g.update(click, &mut log));
    assert_eq!(g.focused_index(), Some(0));
    assert!(log.is_empty());
    let drag = WidgetEvent::Mouse(MouseEvent::Drag(MouseButton::Left, 5, 2, 0));
    assert!(!g.update(drag, &mut log));
    assert!(log.is_empty());
}

#[test]
fn resizes_reach_every_widget() {
    let mut g = group();
    let mut log = Log::new();
    assert!(g.update(WidgetEvent::Resize(80, 24), &mut log));
    assert_eq!(log.len(), 3);
    assert!(g.update(WidgetEvent::Update, &mut log));
    assert_eq!(log.len(), 6);
}

#[test]
fn other_keys_go_to_the_focused_widget_only() {
    let mut g = group();
    let mut log = Log::new();
    let a = WidgetEvent::Key(KeyEvent { code: KeyCode::Char('a'), modifiers: NO_MODIFIERS });
    assert!(!g.update(a, &mut log));
    assert!(log.is_empty());
    g.update(GOT, &mut log);
    log.clear();
    g.update(a, &mut log);
    assert_eq!(log, vec![(0, a)]);
}

#[test]
fn focus_key_with_no_focused_widget_is_not_taken() {
    let mut g = group();
    let mut log = Log::new();
    assert!(!g.update(ctrl(KeyCode::Down), &mut log));
    assert_eq!(g.focused_index(), None);
    assert!(log.is_empty());
}
