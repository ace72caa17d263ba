//! The front end's state that widgets share, and the decisions the event loop makes for each
//! event: flushing queued events, quitting, and handing events to the widgets.

use vstd::prelude::*;
use crate::ansi::{AnsiTextContainer, Colour, Text, TextView};
use crate::draw::{fg, fg_style};
use crate::events::{KeyCode, KeyEvent, MouseEvent, WidgetEvent, ALT, CONTROL, NO_MODIFIERS};
use crate::points::{PointTable, numbered, present_addresses};
use crate::program_source::{ProgramSource, SourceView};
use crate::util::Rect;
use crate::strings::{get_string, string_table, HelloMsg, StartupMsg};

verus! {

/// A request to drop every queued event: counted so that nested requests can be told apart.
#[derive(Debug, Clone, Copy, PartialEq, Eq, Structural)]
pub enum Flush {
    /// Requested; the barrier with this count is yet to be sent.
    Requested(u8),
    /// The barrier with this count was sent; events are dropped until it comes back.
    Acknowledged(u8),
}

/// An event as the terminal reports it.
#[derive(Debug, Clone, Copy, PartialEq, Eq, Structural)]
pub enum TermEvent {
    Key(KeyEvent),
    Mouse(MouseEvent),
    Resize(u16, u16),
}

/// The widget event a terminal event becomes.
pub open spec fn widget_event_of(e: TermEvent) -> WidgetEvent {
    match e {
        TermEvent::Key(k) => WidgetEvent::Key(k),
        TermEvent::Mouse(m) => WidgetEvent::Mouse(m),
        TermEvent::Resize(x, y) => WidgetEvent::Resize(x, y),
    }
}

impl TermEvent {
    /// The widget event this terminal event becomes.
    pub fn to_widget_event(self) -> (w: WidgetEvent)
        ensures
            w == widget_event_of(self),
    {
        match self {
            TermEvent::Key(k) => WidgetEvent::Key(k),
            TermEvent::Mouse(m) => WidgetEvent::Mouse(m),
            TermEvent::Resize(x, y) => WidgetEvent::Resize(x, y),
        }
    }
}

/// The events of the event loop.
#[derive(Debug, Clone, Copy, PartialEq, Eq, Structural)]
pub enum Event {
    /// The terminal library reported an error.
    Error,
    /// Time to refresh.
    Tick,
    /// Something happened at the terminal.
    ActualEvent(TermEvent),
    /// A barrier sent through the queue by a flush, with its count.
    FlushEventsBarrier(u8),
}

/// What the event loop does after an event.
#[derive(Debug, Clone, Copy, PartialEq, Eq, Structural)]
pub enum EventAction {
    /// Nothing.
    Nothing,
    /// Sends a barrier with this count through the event queue.
    SendBarrier(u8),
    /// The flush is over: sends a resize event with the terminal's current size.
    SendResize,
    /// Logs the terminal library's error.
    LogError,
    /// Gives the root widget the update event and draws.
    UpdateAndDraw,
    /// Gives the root widget this event.
    Forward(WidgetEvent),
}

/// Which line the debug log gets for an event.
#[derive(Debug, Clone, Copy, PartialEq, Eq, Structural)]
pub enum EventLogLine {
    /// The event was dropped by a flush.
    Discarded,
    /// The event was received.
    Received,
}

/// What the event loop does after an event: whether to keep running, what to do, and which
/// debug log line to write, if any.
#[derive(Debug, Clone, Copy, PartialEq, Eq, Structural)]
pub struct Step {
    pub keep_running: bool,
    pub action: EventAction,
    pub log: Option<EventLogLine>,
}

/// The keys that quit: control and `w`, or alt and F4.
pub open spec fn is_quit_key(e: TermEvent) -> bool {
    e == TermEvent::Key(KeyEvent { code: KeyCode::Char('w'), modifiers: CONTROL }) || e
        == TermEvent::Key(KeyEvent { code: KeyCode::F(4), modifiers: ALT })
}

/// The key that quits at once, from the thread that reads the terminal: alt and `q` (the
/// terminal does not pass on control, shift and `q` reliably).
pub open spec fn is_force_quit_key(e: TermEvent) -> bool {
    e == TermEvent::Key(KeyEvent { code: KeyCode::Char('q'), modifiers: ALT })
}

/// Whether a terminal event asks to quit at once.
pub fn is_force_quit(e: TermEvent) -> (b: bool)
    ensures
        b == is_force_quit_key(e),
{
    match e {
        TermEvent::Key(k) => match k.code {
            KeyCode::Char(c) => c == 'q' && k.modifiers == ALT,
            _ => false,
        },
        _ => false,
    }
}

/// The step the event loop takes: the new flush state and the step, given the flush state,
/// whether debug logging is on, and the event.
pub open spec fn event_step(flush: Option<Flush>, debugging: bool, event: Event) -> (Option<Flush>, Step) {
    match flush {
        Some(Flush::Requested(i)) => (
            Some(Flush::Acknowledged(i)),
            Step { keep_running: true, action: EventAction::SendBarrier(i), log: None },
        ),
        Some(Flush::Acknowledged(c)) => match event {
            Event::FlushEventsBarrier(i) => if c == i {
                (None, Step { keep_running: true, action: EventAction::SendResize, log: None })
            } else {
                (flush, Step { keep_running: true, action: EventAction::Nothing, log: None })
            },
            _ => (
                flush,
                Step {
                    keep_running: true,
                    action: EventAction::Nothing,
                    log: if debugging {
                        Some(EventLogLine::Discarded)
                    } else {
                        None
                    },
                },
            ),
        },
        None => {
            let log = if debugging {
                Some(EventLogLine::Received)
            } else {
                None
            };
            match event {
                Event::Error => (None, Step { keep_running: true, action: EventAction::LogError, log }),
                Event::Tick => (
                    None,
                    Step { keep_running: true, action: EventAction::UpdateAndDraw, log },
                ),
                Event::ActualEvent(e) => if is_quit_key(e) {
                    (None, Step { keep_running: false, action: EventAction::Nothing, log })
                } else {
                    (
                        None,
                        Step {
                            keep_running: true,
                            action: EventAction::Forward(widget_event_of(e)),
                            log,
                        },
                    )
                },
                Event::FlushEventsBarrier(_) => (
                    None,
                    Step { keep_running: true, action: EventAction::Nothing, log },
                ),
            }
        },
    }
}

/// The window size the event loop remembers after an event.
pub open spec fn window_size_after(
    last: Option<(u16, u16)>,
    flush: Option<Flush>,
    event: Event,
) -> Option<(u16, u16)> {
    if flush is None {
        match event {
            Event::ActualEvent(TermEvent::Resize(x, y)) => Some((x, y)),
            _ => last,
        }
    } else {
        last
    }
}

/// The state widgets share.
pub struct TuiData {
    pub program_source: Option<ProgramSource>,
    /// Whether programs are assembled with the operating system, and loads and resets skip it.
    pub use_os: bool,
    pub reset_flag: u8,
    pub load_flag: u8,
    pub jump: (u8, u16),
    pub mem_reg_inter: (u8, u16),
    pub console_input_string: String,
    pub console_hist: AnsiTextContainer,
    /// Lines about events, kept only when debugging.
    pub debug_log: Option<Vec<Text>>,
    pub log: Vec<Text>,
    pub bp: PointTable,
    pub wp: PointTable,
    pub flush_all_events: Option<Flush>,
    /// The event being handled; nothing sets it, so it stays empty.
    pub current_event: Option<TermEvent>,
}

/// The next flush state when a flush is requested.
pub open spec fn flush_requested(f: Option<Flush>) -> Option<Flush> {
    match f {
        Some(Flush::Requested(i)) => Some(Flush::Requested((i + 1) as u8)),
        Some(Flush::Acknowledged(i)) => Some(Flush::Requested((i + 1) as u8)),
        None => Some(Flush::Requested(0)),
    }
}

/// Whether another flush can be requested: the count has not reached its limit.
pub open spec fn can_request_flush(f: Option<Flush>) -> bool {
    match f {
        Some(Flush::Requested(i)) => i < u8::MAX,
        Some(Flush::Acknowledged(i)) => i < u8::MAX,
        None => true,
    }
}

impl TuiData {
    /// The state the front end starts with: no program, the operating system used, the jump
    /// target at `0x200`, every log and table empty, and a debug log only when debugging.
    pub open spec fn is_fresh(self, debugging: bool) -> bool {
        &&& self.program_source is None
        &&& self.use_os
        &&& self.reset_flag == 0
        &&& self.load_flag == 0
        &&& self.jump == (0u8, 0x200u16)
        &&& self.mem_reg_inter == (0u8, 0u16)
        &&& self.console_input_string@ == Seq::<char>::empty()
        &&& self.console_hist.lines() == seq![Seq::<TextView>::empty()]
        &&& self.console_hist.pending() == Seq::<char>::empty()
        &&& (self.debug_log is Some <==> debugging)
        &&& (self.debug_log matches Some(l) ==> l@ == Seq::<Text>::empty())
        &&& self.log@ == Seq::<Text>::empty()
        &&& self.bp@ == Map::<u16, usize>::empty()
        &&& self.wp@ == Map::<u16, usize>::empty()
        &&& self.flush_all_events is None
        &&& self.current_event is None
    }

    /// The state the front end starts with: no program, the operating system used, the jump
    /// target at `0x200`, every log and table empty, and a debug log only when debugging.
    pub fn new(debugging: bool) -> (d: TuiData)
        ensures
            d.is_fresh(debugging),
    {
        TuiData {
            program_source: None,
            use_os: true,
            reset_flag: 0,
            load_flag: 0,
            jump: (0, 0x200),
            mem_reg_inter: (0, 0),
            console_input_string: String::new(),
            console_hist: AnsiTextContainer::new(),
            debug_log: if debugging {
                Some(Vec::new())
            } else {
                None
            },
            log: Vec::new(),
            bp: PointTable::new(),
            wp: PointTable::new(),
            flush_all_events: None,
            current_event: None,
        }
    }

    /// The event being handled, if any.
    pub fn get_current_event(&self) -> (e: Option<TermEvent>)
        ensures
            e == self.current_event,
    {
        self.current_event
    }

    /// Adds a line to the log, in a colour.
    pub fn log(&mut self, line: String, colour: Colour)
        ensures
            final(self).log@.map_values(|t: Text| t@) == old(self).log@.map_values(|t: Text| t@).push(
                (line@, Some(fg_style(colour))),
            ),
            final(self).wp == old(self).wp,
            final(self).bp == old(self).bp,
            final(self).debug_log == old(self).debug_log,
            final(self).flush_all_events == old(self).flush_all_events,
    {
        let t = Text::styled(line, fg(colour));
        self.log.push(t);
        assert(final(self).log@.map_values(|t: Text| t@) =~= old(self).log@.map_values(
            |t: Text| t@,
        ).push((line@, Some(fg_style(colour)))));
    }

    /// Adds a line with no style to the log.
    pub fn log_raw(&mut self, line: String)
        ensures
            final(self).log@.map_values(|t: Text| t@) == old(self).log@.map_values(|t: Text| t@).push(
                (line@, None),
            ),
    {
        let t = Text::raw(line);
        self.log.push(t);
        assert(final(self).log@.map_values(|t: Text| t@) =~= old(self).log@.map_values(
            |t: Text| t@,
        ).push((line@, None)));
    }

    /// Adds a line in a colour to the debug log, when there is one.
    pub fn debug_log_line(&mut self, line: String, colour: Colour)
        ensures
            match (old(self).debug_log, final(self).debug_log) {
                (Some(a), Some(b)) => b@.map_values(|t: Text| t@) == a@.map_values(|t: Text| t@).push(
                    (line@, Some(fg_style(colour))),
                ),
                (None, None) => true,
                _ => false,
            },
            final(self).log == old(self).log,
            final(self).flush_all_events == old(self).flush_all_events,
    {
        match &mut self.debug_log {
            Some(v) => {
                let ghost before = *v;
                v.push(Text::styled(line, fg(colour)));
                assert(v@.map_values(|t: Text| t@) =~= before@.map_values(|t: Text| t@).push(
                    (line@, Some(fg_style(colour))),
                ));
            },
            None => {},
        }
    }

    /// Adds a line to the debug log, when there is one: `func` makes the line and its colour
    /// from the state, and is called only then.
    pub fn debug_log<F: FnOnce(&TuiData) -> (String, Colour)>(&mut self, func: F)
        requires
            old(self).debug_log is Some ==> func.requires((&*old(self),)),
        ensures
            old(self).debug_log is None ==> *final(self) == *old(self),
            old(self).debug_log matches Some(a) ==> exists|line: String, colour: Colour|
                {
                    &&& #[trigger] func.ensures((&*old(self),), (line, colour))
                    &&& final(self).debug_log matches Some(b)
                    &&& b@.map_values(|t: Text| t@) == a@.map_values(|t: Text| t@).push(
                        (line@, Some(fg_style(colour))),
                    )
                },
            final(self).log == old(self).log,
            final(self).flush_all_events == old(self).flush_all_events,
    {
        if self.debug_log.is_some() {
            let (line, colour) = func(&*self);
            let ghost made = (line, colour);
            self.debug_log_line(line, colour);
            assert(func.ensures((&*old(self),), (made.0, made.1)));
        }
    }

    /// Asks for every queued event to be dropped; a request made while one is under way
    /// counts up, and one made after its barrier went out asks for a new barrier with the
    /// new count, so that the events queued since are dropped too.
    pub fn flush_events(&mut self)
        requires
            can_request_flush(old(self).flush_all_events),
        ensures
            final(self).flush_all_events == flush_requested(old(self).flush_all_events),
    {
        self.flush_all_events = Some(
            match self.flush_all_events {
                Some(Flush::Requested(i)) => Flush::Requested(i + 1),
                Some(Flush::Acknowledged(i)) => Flush::Requested(i + 1),
                None => Flush::Requested(0),
            },
        );
    }

    /// The step the event loop takes for an event: it updates the flush state and the window
    /// size remembered, and says whether to keep running, what to do, and what to log. A
    /// barrier arrives only while a flush is under way.
    pub fn handle_event(&mut self, event: Event, last_window_size: &mut Option<(u16, u16)>) -> (s: Step)
        requires
            old(self).flush_all_events is None ==> !(event is FlushEventsBarrier),
        ensures
            ({
                let (f, step) = event_step(
                    old(self).flush_all_events,
                    old(self).debug_log is Some,
                    event,
                );
                &&& final(self).flush_all_events == f
                &&& s == step
            }),
            *final(last_window_size) == window_size_after(
                *old(last_window_size),
                old(self).flush_all_events,
                event,
            ),
            final(self).debug_log == old(self).debug_log,
            final(self).log == old(self).log,
    {
        let debugging = self.debug_log.is_some();
        match self.flush_all_events {
            Some(Flush::Requested(i)) => {
                self.flush_all_events = Some(Flush::Acknowledged(i));
                return Step { keep_running: true, action: EventAction::SendBarrier(i), log: None };
            },
            Some(Flush::Acknowledged(c)) => {
                match event {
                    Event::FlushEventsBarrier(i) => {
                        if c == i {
                            self.flush_all_events = None;
                            return Step {
                                keep_running: true,
                                action: EventAction::SendResize,
                                log: None,
                            };
                        }
                        return Step { keep_running: true, action: EventAction::Nothing, log: None };
                    },
                    _ => {
                        let log = if debugging {
                            Some(EventLogLine::Discarded)
                        } else {
                            None
                        };
                        return Step { keep_running: true, action: EventAction::Nothing, log };
                    },
                }
            },
            None => {},
        }
        let log = if debugging {
            Some(EventLogLine::Received)
        } else {
            None
        };
        match event {
            Event::ActualEvent(TermEvent::Resize(x, y)) => {
                *last_window_size = Some((x, y));
            },
            _ => {},
        }
        match event {
            Event::Error => Step { keep_running: true, action: EventAction::LogError, log },
            Event::Tick => Step { keep_running: true, action: EventAction::UpdateAndDraw, log },
            Event::ActualEvent(e) => {
                let quit = match e {
                    TermEvent::Key(k) => match k.code {
                        KeyCode::Char(c) => c == 'w' && k.modifiers == CONTROL,
                        KeyCode::F(n) => n == 4 && k.modifiers == ALT,
                        _ => false,
                    },
                    _ => false,
                };
                if quit {
                    Step { keep_running: false, action: EventAction::Nothing, log }
                } else {
                    Step {
                        keep_running: true,
                        action: EventAction::Forward(e.to_widget_event()),
                        log,
                    }
                }
            },
            Event::FlushEventsBarrier(_) => Step {
                keep_running: true,
                action: EventAction::Nothing,
                log,
            },
        }
    }
}

/// The front end: the state widgets share, and how often it refreshes.
pub struct Tui {
    pub data: TuiData,
    /// Milliseconds between refreshes.
    pub update_period_ms: u64,
}

impl Tui {
    /// A front end in its starting state, refreshing four times a second.
    pub fn new(debugging: bool) -> (t: Tui)
        ensures
            t.data.is_fresh(debugging),
            t.update_period_ms == 250,
    {
        Tui { data: TuiData::new(debugging), update_period_ms: 250 }
    }

    /// Sets where the program comes from.
    pub fn set_program_source(&mut self, src: ProgramSource)
        ensures
            final(self).data.program_source == Some(src),
            final(self).data.use_os == old(self).data.use_os,
            final(self).update_period_ms == old(self).update_period_ms,
    {
        self.data.program_source = Some(src);
    }

    /// Sets whether the operating system is used.
    pub fn set_use_os(&mut self, use_os: bool)
        ensures
            final(self).data.use_os == use_os,
            final(self).data.program_source == old(self).data.program_source,
            final(self).update_period_ms == old(self).update_period_ms,
    {
        self.data.use_os = use_os;
    }

    /// Sets the milliseconds between refreshes.
    pub fn set_update_period(&mut self, period_ms: u64)
        ensures
            final(self).update_period_ms == period_ms,
            final(self).data == old(self).data,
    {
        self.update_period_ms = period_ms;
    }

    /// Milliseconds between refreshes.
    pub fn update_period(&self) -> (p: u64)
        ensures
            p == self.update_period_ms,
    {
        self.update_period_ms
    }

    /// Starts the front end: logs a greeting (in cyan) and a startup line (in magenta), and
    /// takes over the watchpoints and breakpoints the simulator already holds, each address
    /// numbered by its rank among the filled slots. Taking over a point at an address that is
    /// already in the table (or twice) is an error that stops the front end, so no address may
    /// be given twice nor be in the table already.
    pub fn init(&mut self, watch_slots: &Vec<Option<u16>>, break_slots: &Vec<Option<u16>>, unicode: bool)
        requires
            watch_slots.len() < usize::MAX,
            break_slots.len() < usize::MAX,
            present_addresses(watch_slots@).no_duplicates(),
            present_addresses(break_slots@).no_duplicates(),
            forall|a: u16|
                present_addresses(watch_slots@).contains(a) ==> !old(self).data.wp@.contains_key(a),
            forall|a: u16|
                present_addresses(break_slots@).contains(a) ==> !old(self).data.bp@.contains_key(a),
        ensures
            final(self).data.wp@ == old(self).data.wp@.union_prefer_right(
                numbered(present_addresses(watch_slots@)),
            ),
            final(self).data.bp@ == old(self).data.bp@.union_prefer_right(
                numbered(present_addresses(break_slots@)),
            ),
            final(self).update_period_ms == old(self).update_period_ms,
            final(self).data.log@.map_values(|t: Text| t@) == old(self).data.log@.map_values(
                |t: Text| t@,
            ).push((string_table(HelloMsg, unicode), Some(fg_style(Colour::Cyan)))).push(
                (string_table(StartupMsg, unicode), Some(fg_style(Colour::Magenta))),
            ),
    {
        let hello = get_string(HelloMsg, unicode);
        self.data.log(String::from_str(hello), Colour::Cyan);
        let startup = get_string(StartupMsg, unicode);
        self.data.log(String::from_str(startup), Colour::Magenta);
        self.data.wp.add_slots(watch_slots);
        self.data.bp.add_slots(break_slots);
    }
}

/// How many times a tick draws the root widget on an area: twice when the area is not empty
/// and has the size the last resize reported (or no resize was reported), once otherwise.
pub fn draw_passes(last_window_size: Option<(u16, u16)>, area: Rect) -> (n: u8)
    ensures
        n == (if (last_window_size == Some((area.width, area.height)) || last_window_size is None)
            && area.width * area.height > 0 {
            2u8
        } else {
            1u8
        }),
{
    let same = match last_window_size {
        Some((w, h)) => w == area.width && h == area.height,
        None => true,
    };
    if same && area.width > 0 && area.height > 0 {
        proof {
            assert(area.width * area.height > 0) by (nonlinear_arith)
                requires
                    area.width > 0,
                    area.height > 0,
            ;
        }
        2
    } else {
        proof {
            if area.width == 0 || area.height == 0 {
                assert(area.width * area.height == 0) by (nonlinear_arith)
                    requires
                        area.width == 0 || area.height == 0,
                ;
            }
        }
        1
    }
}

/// A requested flush ends after two steps: the first event sends the barrier, and the
/// barrier coming back ends the flush and asks for the terminal's size to be sent again.
pub proof fn law_flush_completes(i: u8, debugging: bool, first: Event)
    ensures
        ({
            let (f1, s1) = event_step(Some(Flush::Requested(i)), debugging, first);
            let (f2, s2) = event_step(f1, debugging, Event::FlushEventsBarrier(i));
            &&& s1.action == EventAction::SendBarrier(i)
            &&& s1.keep_running
            &&& f2 is None
            &&& s2.action == EventAction::SendResize
        }),
{
}

/// While a flush is under way no event reaches the widgets, nothing is drawn and the loop
/// keeps running.
pub proof fn law_flush_drops_events(f: Flush, debugging: bool, event: Event)
    ensures
        ({
            let (_, s) = event_step(Some(f), debugging, event);
            &&& s.keep_running
            &&& !(s.action is Forward)
            &&& !(s.action is UpdateAndDraw)
        }),
{
}

/// Out of a flush, only the quit keys stop the loop, and every other terminal event reaches
/// the widgets as the same event.
pub proof fn law_events_pass_through(debugging: bool, e: TermEvent)
    ensures
        ({
            let (f, s) = event_step(None, debugging, Event::ActualEvent(e));
            &&& f is None
            &&& s.keep_running <==> !is_quit_key(e)
            &&& !is_quit_key(e) ==> s.action == EventAction::Forward(widget_event_of(e))
        }),
{
}

/// Out of a flush, a key stops the loop exactly when it is control and `w` or alt and F4;
/// every other key (any key pressed with no modifier among them) reaches the widgets as it
/// is and the loop goes on. Mouse events and resizes always reach the widgets as they are.
pub proof fn law_only_quit_keys_stop(debugging: bool, k: KeyEvent, m: MouseEvent, w: u16, h: u16)
    ensures
        ({
            let (f, s) = event_step(None, debugging, Event::ActualEvent(TermEvent::Key(k)));
            let quits = (k.code == KeyCode::Char('w') && k.modifiers == CONTROL) || (k.code
                == KeyCode::F(4) && k.modifiers == ALT);
            &&& f is None
            &&& s.keep_running == !quits
            &&& quits ==> s.action == EventAction::Nothing
            &&& !quits ==> s.action == EventAction::Forward(WidgetEvent::Key(k))
            &&& k.modifiers == NO_MODIFIERS ==> s.keep_running && s.action == EventAction::Forward(
                WidgetEvent::Key(k),
            )
        }),
        ({
            let (f, s) = event_step(None, debugging, Event::ActualEvent(TermEvent::Mouse(m)));
            &&& f is None
            &&& s.keep_running
            &&& s.action == EventAction::Forward(WidgetEvent::Mouse(m))
        }),
        ({
            let (f, s) = event_step(None, debugging, Event::ActualEvent(TermEvent::Resize(w, h)));
            &&& f is None
            &&& s.keep_running
            &&& s.action == EventAction::Forward(WidgetEvent::Resize(w, h))
        }),
{
}

/// A flush requested while an earlier one waits for its barrier completes too: the next
/// event sends a barrier with the raised count, the earlier barrier is passed over, and the
/// new one ends the flush.
pub proof fn law_nested_flush_completes(c: u8, debugging: bool, first: Event)
    requires
        c < u8::MAX,
    ensures
        ({
            let f0 = flush_requested(Some(Flush::Acknowledged(c)));
            let (f1, s1) = event_step(f0, debugging, first);
            let (f2, s2) = event_step(f1, debugging, Event::FlushEventsBarrier(c));
            let (f3, s3) = event_step(f2, debugging, Event::FlushEventsBarrier((c + 1) as u8));
            &&& s1.action == EventAction::SendBarrier((c + 1) as u8)
            &&& f2 == f1
            &&& s2.action == EventAction::Nothing
            &&& f3 is None
            &&& s3.action == EventAction::SendResize
        }),
{
}

} // verus!
