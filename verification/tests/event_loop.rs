use lc3_tui::ansi::{Colour, Text};
use lc3_tui::events::{KeyCode, KeyEvent, WidgetEvent, ALT, CONTROL, NO_MODIFIERS};
use lc3_tui::state::{
    draw_passes, is_force_quit, Event, EventAction, EventLogLine, Flush, Step, TermEvent, Tui, TuiData,
};
use lc3_tui::util::Rect;

fn key(code: KeyCode, modifiers: u8) -> TermEvent {
    TermEvent::Key(KeyEvent { code, modifiers })
}

fn content(t: &Text) -> &str {
    match t {
        Text::Raw(s) => s.as_str(),
        Text::Styled(s, _) => s.as_str(),
    }
}

#[test]
fn fresh_state() {
    let d = TuiData::new(false);
    assert!(d.program_source.is_none());
    assert!(d.use_os);
    assert_eq!(d.jump, (0, 0x200));
    assert!(d.debug_log.is_none());
    assert!(d.log.is_empty());
    assert!(d.flush_all_events.is_none());
    assert_eq!(d.get_current_event(), None);
    let d = TuiData::new(true);
    assert_eq!(d.debug_log.map(|l| l.len()), Some(0));
}

#[test]
fn log_lines_keep_their_colour() {
    let mut d = TuiData::new(false);
    d.log(String::from("hello"), Colour::Cyan);
    d.log_raw(String::from("plain"));
    assert_eq!(d.log.len(), 2);
    assert_eq!(content(&d.log[0]), "hello");
    assert!(matches!(d.log[1], Text::Raw(_)));
    d.debug_log_line(String::from("ignored"), Colour::Red);
    assert!(d.debug_log.is_none());
}

#[test]
fn debug_log_calls_only_when_debugging() {
    let mut d = TuiData::new(true);
    d.debug_log(|_| (String::from("event"), Colour::Yellow));
    assert_eq!(d.debug_log.as_ref().map(|l| l.len()), Some(1));
    let mut d = TuiData::new(false);
    d.debug_log(|_| panic!("must not be called"));
    assert!(d.debug_log.is_none());
}

#[test]
fn flush_sends_a_barrier_then_drops_events_until_it_returns() {
    let mut d = TuiData::new(false);
    let mut size = None;
    d.flush_events();
    assert_eq!(d.flush_all_events, Some(Flush::Requested(0)));
    let s = d.handle_event(Event::Tick, &mut size);
    assert_eq!(s, Step { keep_running: true, action: EventAction::SendBarrier(0), log: None });
    assert_eq!(d.flush_all_events, Some(Flush::Acknowledged(0)));
    let s = d.handle_event(Event::ActualEvent(key(KeyCode::Char('a'), NO_MODIFIERS)), &mut size);
    assert_eq!(s, Step { keep_running: true, action: EventAction::Nothing, log: None });
    let s = d.handle_event(Event::ActualEvent(TermEvent::Resize(10, 10)), &mut size);
    assert_eq!(s.action, EventAction::Nothing);
    assert_eq!(size, None);
    let s = d.handle_event(Event::FlushEventsBarrier(0), &mut size);
    assert_eq!(s, Step { keep_running: true, action: EventAction::SendResize, log: None });
    assert_eq!(d.flush_all_events, None);
    let s = d.handle_event(Event::Tick, &mut size);
    assert_eq!(s.action, EventAction::UpdateAndDraw);
}

#[test]
fn nested_flush_requests_count_up() {
    let mut d = TuiData::new(true);
    let mut size = None;
    d.flush_events();
    d.flush_events();
    assert_eq!(d.flush_all_events, Some(Flush::Requested(1)));
    d.handle_event(Event::Tick, &mut size);
    assert_eq!(d.flush_all_events, Some(Flush::Acknowledged(1)));
    d.flush_events();
    assert_eq!(d.flush_all_events, Some(Flush::Requested(2)));
    let s = d.handle_event(Event::Error, &mut size);
    assert_eq!(s, Step { keep_running: true, action: EventAction::SendBarrier(2), log: None });
    let s = d.handle_event(Event::FlushEventsBarrier(1), &mut size);
    assert_eq!(s, Step { keep_running: true, action: EventAction::Nothing, log: None });
    let s = d.handle_event(Event::Error, &mut size);
    assert_eq!(s.log, Some(EventLogLine::Discarded));
    assert_eq!(d.flush_all_events, Some(Flush::Acknowledged(2)));
    let s = d.handle_event(Event::FlushEventsBarrier(2), &mut size);
    assert_eq!(s.action, EventAction::SendResize);
    assert_eq!(d.flush_all_events, None);
}

#[test]
fn force_quit_is_alt_q() {
    assert!(is_force_quit(key(KeyCode::Char('q'), ALT)));
    assert!(!is_force_quit(key(KeyCode::Char('q'), CONTROL)));
    assert!(!is_force_quit(key(KeyCode::Char('q'), NO_MODIFIERS)));
}

#[test]
fn quit_keys_stop_the_loop() {
    let mut d = TuiData::new(false);
    let mut size = None;
    let s = d.handle_event(Event::ActualEvent(key(KeyCode::Char('w'), CONTROL)), &mut size);
    assert!(!s.keep_running);
    let s = d.handle_event(Event::ActualEvent(key(KeyCode::F(4), ALT)), &mut size);
    assert!(!s.keep_running);
    let s = d.handle_event(Event::ActualEvent(key(KeyCode::F(4), NO_MODIFIERS)), &mut size);
    assert!(s.keep_running);
    assert_eq!(
        s.action,
        EventAction::Forward(WidgetEvent::Key(KeyEvent { code: KeyCode::F(4), modifiers: NO_MODIFIERS }))
    );
}

#[test]
fn events_reach_the_widgets_and_resizes_are_remembered() {
    let mut d = TuiData::new(true);
    let mut size = None;
    let s = d.handle_event(Event::ActualEvent(TermEvent::Resize(80, 24)), &mut size);
    assert_eq!(s.action, EventAction::Forward(WidgetEvent::Resize(80, 24)));
    assert_eq!(s.log, Some(EventLogLine::Received));
    assert_eq!(size, Some((80, 24)));
    let s = d.handle_event(Event::Error, &mut size);
    assert_eq!(s.action, EventAction::LogError);
    assert!(s.keep_running);
}

#[test]
fn ticks_draw_twice_on_a_known_size() {
    let area = Rect { x: 0, y: 0, width: 80, height: 24 };
    assert_eq!(draw_passes(None, area), 2);
    assert_eq!(draw_passes(Some((80, 24)), area), 2);
    assert_eq!(draw_passes(Some((81, 24)), area), 1);
    assert_eq!(draw_passes(None, Rect { x: 0, y: 0, width: 0, height: 24 }), 1);
}

#[test]
fn front_end_settings() {
    let mut t = Tui::new(false);
    assert_eq!(t.update_period(), 250);
    t.set_update_period(50);
    assert_eq!(t.update_period_ms, 50);
    t.set_use_os(false);
    assert!(!t.data.use_os);
    t.init(&vec![None, Some(0x3000)], &vec![Some(0x200), Some(0x210)], false);
    assert_eq!(t.data.log.len(), 2);
    assert_eq!(content(&t.data.log[0]), "Hello!\n");
    assert_eq!(content(&t.data.log[1]), "Starting up the LC-3 simulator.\n");
    assert_eq!(t.data.wp.index_of(0x3000), Some(0));
    assert_eq!(t.data.bp.index_of(0x210), Some(1));
}

#[test]
fn terminal_events_become_widget_events() {
    assert_eq!(TermEvent::Resize(1, 2).to_widget_event(), WidgetEvent::Resize(1, 2));
}
