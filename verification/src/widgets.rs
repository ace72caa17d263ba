//! The widgets of the terminal front end other than the memory view: what each does with an
//! event, and what each draws.

use vstd::prelude::*;
use vstd::string::*;
use crate::ansi::{Colour, TextView};
use crate::draw::{Paragraph, fg, fg_style};
use crate::events::{
    FocusEvent, KeyCode, MouseEvent, WidgetEvent, NO_MODIFIERS, accepts_focus_and_clicks,
    handles_focus_and_clicks,
};
use crate::numbers::{push_word_line, word_line};
use crate::util::{Axis, Rect, increment, incremented};
use crate::layout::{Constraint, Direction, Layout, is_split, splittable, split};
use crate::program_source::{file_display, file_display_name};

verus! {

/// The key help shown at the bottom of the screen.
#[derive(Debug, Clone, Copy, PartialEq, Eq, Structural)]
pub struct Footer {}

impl Default for Footer {
    fn default() -> (f: Footer)
        ensures
            f == (Footer {}),
    {
        Footer {}
    }
}

impl Footer {
    /// Takes focus changes and mouse presses and releases, nothing else.
    pub fn update(&mut self, event: WidgetEvent) -> (b: bool)
        ensures
            b == accepts_focus_and_clicks(event),
            *final(self) == *old(self),
    {
        handles_focus_and_clicks(event)
    }
}

/// The key help the footer shows, as styled pieces of text.
pub open spec fn footer_items() -> Seq<TextView> {
    seq![
        ("To control the TUI, you can use "@, Some(fg_style(Colour::LightGreen))),
        ("S to Step "@, Some(fg_style(Colour::LightCyan))),
        ("through instructions, "@, Some(fg_style(Colour::LightGreen))),
        ("P to Pause, "@, Some(fg_style(Colour::LightRed))),
        ("R to Run, "@, Some(fg_style(Colour::LightYellow))),
        ("and "@, Some(fg_style(Colour::LightGreen))),
        ("Q to Quit\n"@, Some(fg_style(Colour::Gray))),
        ("To set the peripherals use "@, Some(fg_style(Colour::LightGreen))),
        ("Ctrl + "@, Some(fg_style(Colour::White))),
        ("g for GPIO, "@, Some(fg_style(Colour::Rgb(0xee, 0xee, 0xee)))),
        ("a for ADC, "@, Some(fg_style(Colour::Rgb(0xdd, 0xdd, 0xdd)))),
        ("p for PWM, "@, Some(fg_style(Colour::Rgb(0xcc, 0xcc, 0xcc)))),
        ("t for Timers, "@, Some(fg_style(Colour::Rgb(0xbb, 0xbb, 0xbb)))),
        ("and "@, Some(fg_style(Colour::LightGreen))),
        ("c for CLK\n"@, Some(fg_style(Colour::Rgb(0xaa, 0xaa, 0xaa)))),
        ("To affect the simulator, use "@, Some(fg_style(Colour::LightGreen))),
        ("Alt + "@, Some(fg_style(Colour::White))),
        ("p for PC, "@, Some(fg_style(Colour::Rgb(0xFF, 0x97, 0x40)))),
        ("m for Memory, "@, Some(fg_style(Colour::LightCyan))),
        ("and "@, Some(fg_style(Colour::LightGreen))),
        ("r to reset\n"@, Some(fg_style(Colour::Gray))),
        ("To control memory, use "@, Some(fg_style(Colour::LightGreen))),
        ("UP and DOWN "@, Some(fg_style(Colour::Gray))),
        ("arrow keys. "@, Some(fg_style(Colour::LightGreen))),
        ("Shift + arrow "@, Some(fg_style(Colour::Gray))),
        ("jumps 10, "@, Some(fg_style(Colour::LightGreen))),
        ("Control + arrow "@, Some(fg_style(Colour::Gray))),
        ("jumps 100. "@, Some(fg_style(Colour::LightGreen))),
        ("Ctrl + h returns to PC\n"@, Some(fg_style(Colour::Rgb(0xFF, 0x97, 0x40)))),
    ]
}

impl Footer {
    /// The key help, in pieces of text, each in its colour.
    pub fn text(&self) -> (v: Vec<crate::ansi::Text>)
        ensures
            v@.map_values(|t: crate::ansi::Text| t@) == footer_items(),
    {
        let mut v: Vec<crate::ansi::Text> = Vec::new();
        v.push(crate::ansi::Text::styled(String::from_str("To control the TUI, you can use "), fg(Colour::LightGreen)));
        v.push(crate::ansi::Text::styled(String::from_str("S to Step "), fg(Colour::LightCyan)));
        v.push(crate::ansi::Text::styled(String::from_str("through instructions, "), fg(Colour::LightGreen)));
        v.push(crate::ansi::Text::styled(String::from_str("P to Pause, "), fg(Colour::LightRed)));
        v.push(crate::ansi::Text::styled(String::from_str("R to Run, "), fg(Colour::LightYellow)));
        v.push(crate::ansi::Text::styled(String::from_str("and "), fg(Colour::LightGreen)));
        v.push(crate::ansi::Text::styled(String::from_str("Q to Quit\n"), fg(Colour::Gray)));
        v.push(crate::ansi::Text::styled(String::from_str("To set the peripherals use "), fg(Colour::LightGreen)));
        v.push(crate::ansi::Text::styled(String::from_str("Ctrl + "), fg(Colour::White)));
        v.push(crate::ansi::Text::styled(String::from_str("g for GPIO, "), fg(Colour::Rgb(0xee, 0xee, 0xee))));
        v.push(crate::ansi::Text::styled(String::from_str("a for ADC, "), fg(Colour::Rgb(0xdd, 0xdd, 0xdd))));
        v.push(crate::ansi::Text::styled(String::from_str("p for PWM, "), fg(Colour::Rgb(0xcc, 0xcc, 0xcc))));
        v.push(crate::ansi::Text::styled(String::from_str("t for Timers, "), fg(Colour::Rgb(0xbb, 0xbb, 0xbb))));
        v.push(crate::ansi::Text::styled(String::from_str("and "), fg(Colour::LightGreen)));
        v.push(crate::ansi::Text::styled(String::from_str("c for CLK\n"), fg(Colour::Rgb(0xaa, 0xaa, 0xaa))));
        v.push(crate::ansi::Text::styled(String::from_str("To affect the simulator, use "), fg(Colour::LightGreen)));
        v.push(crate::ansi::Text::styled(String::from_str("Alt + "), fg(Colour::White)));
        v.push(crate::ansi::Text::styled(String::from_str("p for PC, "), fg(Colour::Rgb(0xFF, 0x97, 0x40))));
        v.push(crate::ansi::Text::styled(String::from_str("m for Memory, "), fg(Colour::LightCyan)));
        v.push(crate::ansi::Text::styled(String::from_str("and "), fg(Colour::LightGreen)));
        v.push(crate::ansi::Text::styled(String::from_str("r to reset\n"), fg(Colour::Gray)));
        v.push(crate::ansi::Text::styled(String::from_str("To control memory, use "), fg(Colour::LightGreen)));
        v.push(crate::ansi::Text::styled(String::from_str("UP and DOWN "), fg(Colour::Gray)));
        v.push(crate::ansi::Text::styled(String::from_str("arrow keys. "), fg(Colour::LightGreen)));
        v.push(crate::ansi::Text::styled(String::from_str("Shift + arrow "), fg(Colour::Gray)));
        v.push(crate::ansi::Text::styled(String::from_str("jumps 10, "), fg(Colour::LightGreen)));
        v.push(crate::ansi::Text::styled(String::from_str("Control + arrow "), fg(Colour::Gray)));
        v.push(crate::ansi::Text::styled(String::from_str("jumps 100. "), fg(Colour::LightGreen)));
        v.push(crate::ansi::Text::styled(String::from_str("Ctrl + h returns to PC\n"), fg(Colour::Rgb(0xFF, 0x97, 0x40))));
        assert(v@.map_values(|t: crate::ansi::Text| t@) =~= footer_items());
        v
    }
}

/// A widget that shows nothing and takes nothing.
#[derive(Debug, Clone, Copy, PartialEq, Eq, Structural)]
pub struct Empty {}

impl Empty {
    /// Does nothing with the event.
    pub fn update(&mut self, event: WidgetEvent)
        ensures
            *final(self) == *old(self),
    {
    }
}

/// The register view: the eight registers, the processor status register and the program
/// counter, each in binary, hexadecimal and decimal.
#[derive(Debug, Clone, Copy, PartialEq, Eq, Structural)]
pub struct Regs {}

impl Default for Regs {
    fn default() -> (r: Regs)
        ensures
            r == (Regs {}),
    {
        Regs {}
    }
}

/// The lines of four registers from `first` on, and then of one more word.
pub open spec fn reg_lines(regs: Seq<u16>, first: int, last: u16) -> Seq<char> {
    word_line(regs[first]) + word_line(regs[first + 1]) + word_line(regs[first + 2]) + word_line(
        regs[first + 3],
    ) + word_line(last)
}

/// The four paragraphs of the register view: labels and values of the first four registers
/// and the processor status register, then labels and values of the last four and the program
/// counter.
pub open spec fn regs_paragraphs(regs: Seq<u16>, psr: u16, pc: u16, area: Rect) -> Seq<
    (Seq<TextView>, Rect, bool),
> {
    let a1 = incremented(5, Axis::X, area);
    let a2 = incremented(40, Axis::X, a1);
    let a3 = incremented(5, Axis::X, a2);
    seq![
        (
            seq![
                ("R0:\nR1:\nR2:\nR3:\n"@, Some(fg_style(Colour::Gray))),
                ("PSR:\n"@, Some(fg_style(Colour::Rgb(0xFF, 0x97, 0x40)))),
            ],
            area,
            true,
        ),
        (seq![(reg_lines(regs, 0, psr), Some(fg_style(Colour::LightGreen)))], a1, true),
        (
            seq![
                ("R4:\nR5:\nR6:\nR7:\n"@, Some(fg_style(Colour::Gray))),
                ("PC:\n"@, Some(fg_style(Colour::Rgb(0xFF, 0x97, 0x40)))),
            ],
            a2,
            true,
        ),
        (seq![(reg_lines(regs, 4, pc), Some(fg_style(Colour::LightGreen)))], a3, true),
    ]
}

/// A paragraph of one text.
fn single(text: crate::ansi::Text, area: Rect, wrap: bool) -> (p: Paragraph)
    ensures
        p@ == (seq![text@], area, wrap),
{
    let mut texts: Vec<crate::ansi::Text> = Vec::new();
    texts.push(text);
    let p = Paragraph { texts, area, wrap };
    assert(p@.0 =~= seq![text@]);
    p
}

/// A paragraph of two texts.
fn pair(a: crate::ansi::Text, b: crate::ansi::Text, area: Rect, wrap: bool) -> (p: Paragraph)
    ensures
        p@ == (seq![a@, b@], area, wrap),
{
    let mut texts: Vec<crate::ansi::Text> = Vec::new();
    texts.push(a);
    texts.push(b);
    let p = Paragraph { texts, area, wrap };
    assert(p@.0 =~= seq![a@, b@]);
    p
}

impl Regs {
    /// Takes focus changes and mouse presses and releases, nothing else.
    pub fn update(&mut self, event: WidgetEvent) -> (b: bool)
        ensures
            b == accepts_focus_and_clicks(event),
            *final(self) == *old(self),
    {
        handles_focus_and_clicks(event)
    }

    /// What the view draws given the registers, the processor status register, the program
    /// counter and its area.
    pub fn columns(&self, regs: &[u16; 8], psr: u16, pc: u16, area: Rect) -> (ps: Vec<Paragraph>)
        requires
            area.x + area.width <= u16::MAX,
        ensures
            ps@.map_values(|p: Paragraph| p@) == regs_paragraphs(regs@, psr, pc, area),
    {
        let a1 = increment(5, Axis::X, area);
        let a2 = increment(40, Axis::X, a1);
        let a3 = increment(5, Axis::X, a2);
        let mut left = String::new();
        let mut i: usize = 0;
        while i < 4
            invariant
                i <= 4,
                left@ == (if i == 0 {
                    Seq::empty()
                } else if i == 1 {
                    word_line(regs@[0])
                } else if i == 2 {
                    word_line(regs@[0]) + word_line(regs@[1])
                } else if i == 3 {
                    word_line(regs@[0]) + word_line(regs@[1]) + word_line(regs@[2])
                } else {
                    word_line(regs@[0]) + word_line(regs@[1]) + word_line(regs@[2]) + word_line(
                        regs@[3],
                    )
                }),
            decreases 4 - i,
        {
            push_word_line(&mut left, regs[i]);
            i = i + 1;
        }
        push_word_line(&mut left, psr);
        let mut right = String::new();
        while i < 8
            invariant
                4 <= i <= 8,
                right@ == (if i == 4 {
                    Seq::empty()
                } else if i == 5 {
                    word_line(regs@[4])
                } else if i == 6 {
                    word_line(regs@[4]) + word_line(regs@[5])
                } else if i == 7 {
                    word_line(regs@[4]) + word_line(regs@[5]) + word_line(regs@[6])
                } else {
                    word_line(regs@[4]) + word_line(regs@[5]) + word_line(regs@[6]) + word_line(
                        regs@[7],
                    )
                }),
            decreases 8 - i,
        {
            push_word_line(&mut right, regs[i]);
            i = i + 1;
        }
        push_word_line(&mut right, pc);
        let mut ps: Vec<Paragraph> = Vec::new();
        ps.push(
            pair(
                crate::ansi::Text::styled(String::from_str("R0:\nR1:\nR2:\nR3:\n"), fg(Colour::Gray)),
                crate::ansi::Text::styled(
                    String::from_str("PSR:\n"),
                    fg(Colour::Rgb(0xFF, 0x97, 0x40)),
                ),
                area,
                true,
            ),
        );
        ps.push(single(crate::ansi::Text::styled(left, fg(Colour::LightGreen)), a1, true));
        ps.push(
            pair(
                crate::ansi::Text::styled(String::from_str("R4:\nR5:\nR6:\nR7:\n"), fg(Colour::Gray)),
                crate::ansi::Text::styled(
                    String::from_str("PC:\n"),
                    fg(Colour::Rgb(0xFF, 0x97, 0x40)),
                ),
                a2,
                true,
            ),
        );
        ps.push(single(crate::ansi::Text::styled(right, fg(Colour::LightGreen)), a3, true));
        assert(ps@.map_values(|p: Paragraph| p@) =~= regs_paragraphs(regs@, psr, pc, area));
        ps
    }
}

/// The console: a prompt at the bottom of its area; it takes plain characters typed.
#[derive(Debug, Clone, Copy, PartialEq, Eq, Structural)]
pub struct Console {
    pub focusable: bool,
}

impl Default for Console {
    fn default() -> (c: Console)
        ensures
            c.focusable,
    {
        Console { focusable: true }
    }
}

/// Whether the console handles an event: mouse events and gaining focus when it is focusable,
/// and characters typed with no modifier.
pub open spec fn console_takes(focusable: bool, event: WidgetEvent) -> bool {
    match event {
        WidgetEvent::Mouse(_) => focusable,
        WidgetEvent::Focus(FocusEvent::GotFocus) => focusable,
        WidgetEvent::Key(k) => k.code is Char && k.modifiers == NO_MODIFIERS,
        _ => false,
    }
}

impl Console {
    /// Whether the console handles the event; it keeps no state of its own.
    pub fn update(&mut self, event: WidgetEvent) -> (b: bool)
        ensures
            b == console_takes(old(self).focusable, event),
            *final(self) == *old(self),
    {
        match event {
            WidgetEvent::Mouse(_) => self.focusable,
            WidgetEvent::Focus(FocusEvent::GotFocus) => self.focusable,
            WidgetEvent::Key(k) => match k.code {
                KeyCode::Char(_) => k.modifiers == NO_MODIFIERS,
                _ => false,
            },
            _ => false,
        }
    }

    /// The prompt, drawn on the last three rows of the area.
    pub fn prompt(&self, area: Rect) -> (p: Paragraph)
        requires
            area.y + area.height <= u16::MAX,
            area.y + area.height >= 3,
        ensures
            p@.0 == seq![(">"@, Some(fg_style(Colour::Rgb(0xFF, 0x97, 0x40))))],
            p@.1.x == area.x,
            p@.1.y == area.y + area.height - 3,
            area.width * 3 <= 65535 ==> p@.1.width == area.width && p@.1.height == 3,
            p@.2,
    {
        let r = Rect::new(area.x, area.y + area.height - 3, area.width, 3);
        single(
            crate::ansi::Text::styled(String::from_str(">"), fg(Colour::Rgb(0xFF, 0x97, 0x40))),
            r,
            true,
        )
    }

    /// What the simulator wrote to the console, every line of it, drawn above the prompt.
    pub fn output(&self, hist: &crate::ansi::AnsiTextContainer, area: Rect) -> (p: Paragraph)
        requires
            area.y + area.height <= u16::MAX,
            area.height >= 3,
        ensures
            p@.0 == crate::ansi::items_in(hist.lines(), 0, hist.lines().len() as int),
            p@.1 == (Rect { x: area.x, y: area.y, width: area.width, height: (area.height - 3) as u16 }),
            p@.2,
    {
        let texts = hist.get_lines(crate::ansi::LineBound::Unbounded, crate::ansi::LineBound::Unbounded);
        Paragraph {
            texts,
            area: Rect { x: area.x, y: area.y, width: area.width, height: area.height - 3 },
            wrap: true,
        }
    }
}

/// The state of a hardware timer.
#[derive(Debug, Clone, Copy, PartialEq, Eq, Structural)]
pub enum TimerState {
    Disabled,
    Repeated,
    SingleShot,
}

/// The timers view: the state and period of each of the two timers.
#[allow(non_camel_case_types)]
#[derive(Debug, Clone, Copy, PartialEq, Eq, Structural)]
pub struct Timers_toggle {
    pub focusable: bool,
}

impl Default for Timers_toggle {
    fn default() -> (t: Timers_toggle)
        ensures
            !t.focusable,
    {
        Timers_toggle { focusable: false }
    }
}

/// The line that shows a timer: its mode and period, or that it is off.
pub open spec fn timer_line(state: TimerState, period: u16) -> Seq<char> {
    match state {
        TimerState::Disabled => "Disabled\n"@,
        TimerState::Repeated => "Repeat:  "@ + word_line(period),
        TimerState::SingleShot => "Single:  "@ + word_line(period),
    }
}

/// The four paragraphs of the timers view: label and line of the first timer, then of the
/// second.
pub open spec fn timer_paragraphs(states: Seq<TimerState>, periods: Seq<u16>, area: Rect) -> Seq<
    (Seq<TextView>, Rect, bool),
> {
    let a1 = incremented(10, Axis::X, area);
    let a2 = incremented(40, Axis::X, a1);
    let a3 = incremented(10, Axis::X, a2);
    seq![
        (seq![("Timer 0: \n"@, Some(fg_style(Colour::Gray)))], area, true),
        (seq![(timer_line(states[0], periods[0]), Some(fg_style(Colour::LightGreen)))], a1, true),
        (seq![("Timer 1: \n"@, Some(fg_style(Colour::Gray)))], a2, true),
        (seq![(timer_line(states[1], periods[1]), Some(fg_style(Colour::LightGreen)))], a3, true),
    ]
}

/// Whether the timers view handles an event, given whether shim peripherals are attached:
/// with them, mouse events and gaining focus when it is focusable, and the enter character
/// typed; without them, nothing.
pub open spec fn timers_take(focusable: bool, has_shims: bool, event: WidgetEvent) -> bool {
    has_shims && match event {
        WidgetEvent::Mouse(_) => focusable,
        WidgetEvent::Focus(FocusEvent::GotFocus) => focusable,
        WidgetEvent::Key(k) => k.code == KeyCode::Char('\n'),
        _ => false,
    }
}

/// The line of one timer.
fn timer_text(state: TimerState, period: u16) -> (s: String)
    ensures
        s@ == timer_line(state, period),
{
    match state {
        TimerState::Disabled => String::from_str("Disabled\n"),
        TimerState::Repeated => {
            let mut s = String::from_str("Repeat:  ");
            push_word_line(&mut s, period);
            s
        },
        TimerState::SingleShot => {
            let mut s = String::from_str("Single:  ");
            push_word_line(&mut s, period);
            s
        },
    }
}

impl Timers_toggle {
    /// The same view, focusable or not.
    pub fn focusable(self, focusable: bool) -> (t: Timers_toggle)
        ensures
            t.focusable == focusable,
    {
        let mut t = self;
        t.focusable = focusable;
        t
    }

    /// Whether the view handles the event; it keeps no state of its own.
    pub fn update(&mut self, event: WidgetEvent, has_shims: bool) -> (b: bool)
        ensures
            b == timers_take(old(self).focusable, has_shims, event),
            *final(self) == *old(self),
    {
        if !has_shims {
            return false;
        }
        match event {
            WidgetEvent::Mouse(_) => self.focusable,
            WidgetEvent::Focus(FocusEvent::GotFocus) => self.focusable,
            WidgetEvent::Key(k) => match k.code {
                KeyCode::Char(c) => c == '\n',
                _ => false,
            },
            _ => false,
        }
    }

    /// What the view draws given the timers' states and periods and its area.
    pub fn columns(&self, states: &[TimerState; 2], periods: &[u16; 2], area: Rect) -> (ps: Vec<
        Paragraph,
    >)
        requires
            area.x + area.width <= u16::MAX,
        ensures
            ps@.map_values(|p: Paragraph| p@) == timer_paragraphs(states@, periods@, area),
    {
        let a1 = increment(10, Axis::X, area);
        let a2 = increment(40, Axis::X, a1);
        let a3 = increment(10, Axis::X, a2);
        let mut ps: Vec<Paragraph> = Vec::new();
        ps.push(
            single(
                crate::ansi::Text::styled(String::from_str("Timer 0: \n"), fg(Colour::Gray)),
                area,
                true,
            ),
        );
        ps.push(
            single(
                crate::ansi::Text::styled(timer_text(states[0], periods[0]), fg(Colour::LightGreen)),
                a1,
                true,
            ),
        );
        ps.push(
            single(
                crate::ansi::Text::styled(String::from_str("Timer 1: \n"), fg(Colour::Gray)),
                a2,
                true,
            ),
        );
        ps.push(
            single(
                crate::ansi::Text::styled(timer_text(states[1], periods[1]), fg(Colour::LightGreen)),
                a3,
                true,
            ),
        );
        assert(ps@.map_values(|p: Paragraph| p@) =~= timer_paragraphs(states@, periods@, area));
        ps
    }
}

/// A button: a title in a colour, and the action it stands for.
pub struct Button<F> {
    title: String,
    func: F,
    colour: Colour,
}

impl<F> Button<F> {
    /// The title shown.
    pub closed spec fn title_view(&self) -> Seq<char> {
        self.title@
    }

    /// The colour of the title.
    pub closed spec fn colour_view(&self) -> Colour {
        self.colour
    }

    /// The action the button stands for.
    pub closed spec fn func_view(&self) -> F {
        self.func
    }

    /// A red button with no title.
    pub fn new_from_func(func: F) -> (b: Button<F>)
        ensures
            b.title_view() == Seq::<char>::empty(),
            b.colour_view() == Colour::Red,
            b.func_view() == func,
    {
        Button { title: String::new(), func, colour: Colour::Red }
    }

    /// A red button with a title.
    pub fn new_sans_colour(title: String, func: F) -> (b: Button<F>)
        ensures
            b.title_view() == title@,
            b.colour_view() == Colour::Red,
            b.func_view() == func,
    {
        Button { title, func, colour: Colour::Red }
    }

    /// A button of a colour with no title.
    pub fn new_sans_title(colour: Colour, func: F) -> (b: Button<F>)
        ensures
            b.title_view() == Seq::<char>::empty(),
            b.colour_view() == colour,
            b.func_view() == func,
    {
        Button { title: String::new(), func, colour }
    }

    /// A button with a title in a colour.
    pub fn new(title: String, colour: Colour, func: F) -> (b: Button<F>)
        ensures
            b.title_view() == title@,
            b.colour_view() == colour,
            b.func_view() == func,
    {
        Button { title, func, colour }
    }

    /// The action the button stands for.
    pub fn func(&self) -> (f: &F)
        ensures
            *f == self.func_view(),
    {
        &self.func
    }

    /// Takes focus changes and mouse presses and releases, nothing else.
    pub fn update(&mut self, event: WidgetEvent) -> (b: bool)
        ensures
            b == accepts_focus_and_clicks(event),
            final(self).title_view() == old(self).title_view(),
            final(self).colour_view() == old(self).colour_view(),
            final(self).func_view() == old(self).func_view(),
    {
        handles_focus_and_clicks(event)
    }

    /// The title in its colour, over the area.
    pub fn paragraph(&self, area: Rect) -> (p: Paragraph)
        ensures
            p@ == (seq![(self.title_view(), Some(fg_style(self.colour_view())))], area, true),
    {
        single(crate::ansi::Text::styled(self.title.clone(), fg(self.colour)), area, true)
    }
}

/// How long the outcome of a load stays shown, in nanoseconds: three seconds.
pub const ATTEMPT_SHOWN_FOR: u64 = 3_000_000_000;

/// The outcome of a load, and when it happened, in nanoseconds on the caller's clock.
#[derive(Debug, Clone, Copy, PartialEq, Eq, Structural)]
pub enum Attempt {
    Success(u64),
    Failure(u64),
}

impl Attempt {
    /// When the load happened.
    pub open spec fn at(self) -> u64 {
        match self {
            Attempt::Success(t) => t,
            Attempt::Failure(t) => t,
        }
    }

    /// A load that failed now.
    pub fn failed(now: u64) -> (a: Option<Attempt>)
        ensures
            a == Some(Attempt::Failure(now)),
    {
        Some(Attempt::Failure(now))
    }

    /// A load that succeeded now.
    pub fn succeeded(now: u64) -> (a: Option<Attempt>)
        ensures
            a == Some(Attempt::Success(now)),
    {
        Some(Attempt::Success(now))
    }

    /// Whether at least `dur` has passed since the load; a clock that went back counts as no
    /// time passed.
    pub fn expired(&self, now: u64, dur: u64) -> (b: bool)
        ensures
            b == (now.saturating_sub(self.at()) >= dur),
    {
        let at = match self {
            Attempt::Success(t) => *t,
            Attempt::Failure(t) => *t,
        };
        now.saturating_sub(at) >= dur
    }

    /// The message that tells the outcome.
    pub fn message(&self) -> (t: crate::ansi::Text)
        ensures
            t@ == match *self {
                Attempt::Failure(_) => ("Failed to Load!"@, Some(fg_style(Colour::Red))),
                Attempt::Success(_) => ("Successfully Loaded!"@, Some(fg_style(Colour::Green))),
            },
    {
        match self {
            Attempt::Failure(_) => crate::ansi::Text::styled(
                String::from_str("Failed to Load!"),
                fg(Colour::Red),
            ),
            Attempt::Success(_) => crate::ansi::Text::styled(
                String::from_str("Successfully Loaded!"),
                fg(Colour::Green),
            ),
        }
    }
}

/// What the load button shows.
pub enum LoadFace {
    /// There is no program to load: a notice over the whole area.
    NoProgram(crate::ansi::Text),
    /// The title and the program's file name over the upper part of the area, and over the
    /// lower part the outcome of the last load, or an empty gauge when none is shown.
    Program {
        title: Vec<crate::ansi::Text>,
        upper: Rect,
        lower: Rect,
        outcome: Option<crate::ansi::Text>,
    },
}

/// The button that loads the program file into the simulator.
pub struct LoadButton {
    area: Option<Rect>,
    attempt: Option<Attempt>,
}

/// The constraints that split the load button's area: two thirds, one third.
pub open spec fn load_split() -> Seq<Constraint> {
    seq![Constraint::Percentage(66), Constraint::Percentage(34)]
}

/// What an event does to the load button, given whether there is a program to load: whether
/// it is handled, and whether a load is to be made.
pub open spec fn load_event(has_program: bool, event: WidgetEvent) -> (bool, bool) {
    match event {
        WidgetEvent::Focus(FocusEvent::GotFocus) => (has_program, false),
        WidgetEvent::Focus(FocusEvent::LostFocus) => (false, false),
        WidgetEvent::Mouse(MouseEvent::Up(_, _, _, _)) => (true, false),
        WidgetEvent::Mouse(MouseEvent::Down(_, _, _, _)) => (has_program, has_program),
        _ => (false, false),
    }
}

impl LoadButton {
    /// Where the button was last drawn.
    pub closed spec fn area_view(&self) -> Option<Rect> {
        self.area
    }

    /// The outcome shown.
    pub closed spec fn attempt_view(&self) -> Option<Attempt> {
        self.attempt
    }

    /// A button never drawn, showing no outcome.
    pub fn new() -> (b: LoadButton)
        ensures
            b.area_view() is None,
            b.attempt_view() is None,
    {
        LoadButton { area: None, attempt: None }
    }

    /// Readies the button to be drawn over `area` at time `now`: it remembers the area, and
    /// stops showing an outcome older than three seconds.
    pub fn begin_draw(&mut self, area: Rect, now: u64)
        ensures
            final(self).area_view() == Some(area),
            final(self).attempt_view() == match old(self).attempt_view() {
                Some(a) => if now.saturating_sub(a.at()) >= ATTEMPT_SHOWN_FOR {
                    None
                } else {
                    Some(a)
                },
                None => None,
            },
    {
        self.area = Some(area);
        let expired = match &self.attempt {
            Some(a) => a.expired(now, ATTEMPT_SHOWN_FOR),
            None => false,
        };
        if expired {
            self.attempt = None;
        }
    }

    /// What the button shows over `area`, given the path of the program file, if there is one.
    pub fn face(&self, program: Option<&str>, area: Rect) -> (f: LoadFace)
        requires
            splittable(Layout::new_spec(Direction::Vertical), load_split(), area),
        ensures
            match program {
                None => f matches LoadFace::NoProgram(t) && t@ == (
                    "No Program File!\n"@,
                    Some(fg_style(Colour::Red)),
                ),
                Some(p) => f matches LoadFace::Program { title, upper, lower, outcome } && {
                    &&& title@.map_values(|t: crate::ansi::Text| t@) == seq![
                        ("Load Program\n"@, Some(fg_style(Colour::Cyan))),
                        ("(from: `"@ + file_display(p@) + "`)"@, Some(fg_style(Colour::Gray))),
                    ]
                    &&& is_split(
                        Layout::new_spec(Direction::Vertical),
                        load_split(),
                        area,
                        seq![upper, lower],
                    )
                    &&& match self.attempt_view() {
                        Some(a) => outcome matches Some(o) && o@ == match a {
                            Attempt::Failure(_) => ("Failed to Load!"@, Some(fg_style(Colour::Red))),
                            Attempt::Success(_) => (
                                "Successfully Loaded!"@,
                                Some(fg_style(Colour::Green)),
                            ),
                        },
                        None => outcome is None,
                    }
                },
            },
    {
        match program {
            None => LoadFace::NoProgram(
                crate::ansi::Text::styled(String::from_str("No Program File!\n"), fg(Colour::Red)),
            ),
            Some(p) => {
                let mut from = String::from_str("(from: `");
                let name = file_display_name(p);
                from.append(name.as_str());
                from.append("`)");
                let mut title: Vec<crate::ansi::Text> = Vec::new();
                title.push(
                    crate::ansi::Text::styled(String::from_str("Load Program\n"), fg(Colour::Cyan)),
                );
                title.push(crate::ansi::Text::styled(from, fg(Colour::Gray)));
                let mut cs: Vec<Constraint> = Vec::new();
                cs.push(Constraint::Percentage(66));
                cs.push(Constraint::Percentage(34));
                assert(cs@ =~= load_split());
                let parts = split(Layout::new(Direction::Vertical), &cs, area);
                let outcome = match &self.attempt {
                    Some(a) => Some(a.message()),
                    None => None,
                };
                assert(title@.map_values(|t: crate::ansi::Text| t@) =~= seq![
                    ("Load Program\n"@, Some(fg_style(Colour::Cyan))),
                    ("(from: `"@ + file_display(p@) + "`)"@, Some(fg_style(Colour::Gray))),
                ]);
                assert(seq![parts[0], parts[1]] =~= parts@);
                LoadFace::Program { title, upper: parts[0], lower: parts[1], outcome }
            },
        }
    }

    /// Handles an event given whether there is a program to load: says whether the event is
    /// handled and whether a load is to be made now.
    pub fn update(&mut self, event: WidgetEvent, has_program: bool) -> (r: (bool, bool))
        ensures
            r == load_event(has_program, event),
            final(self).area_view() == old(self).area_view(),
            final(self).attempt_view() == old(self).attempt_view(),
    {
        match event {
            WidgetEvent::Focus(FocusEvent::GotFocus) => (has_program, false),
            WidgetEvent::Focus(FocusEvent::LostFocus) => (false, false),
            WidgetEvent::Mouse(MouseEvent::Up(_, _, _, _)) => (true, false),
            WidgetEvent::Mouse(MouseEvent::Down(_, _, _, _)) => (has_program, has_program),
            _ => (false, false),
        }
    }

    /// Records the outcome of a load made at time `now`, and gives the line to log: the
    /// message after `[Load] `, green for a success and red for a failure.
    pub fn record_load(&mut self, result: &Result<String, String>, now: u64) -> (line: crate::ansi::Text)
        ensures
            final(self).area_view() == old(self).area_view(),
            final(self).attempt_view() == match result {
                Ok(_) => Some(Attempt::Success(now)),
                Err(_) => Some(Attempt::Failure(now)),
            },
            line@ == match result {
                Ok(m) => ("[Load] "@ + m@ + "\n"@, Some(fg_style(Colour::Green))),
                Err(m) => ("[Load] "@ + m@ + "\n"@, Some(fg_style(Colour::Red))),
            },
    {
        let mut s = String::from_str("[Load] ");
        match result {
            Ok(m) => {
                self.attempt = Attempt::succeeded(now);
                s.append(m.as_str());
                s.append("\n");
                crate::ansi::Text::styled(s, fg(Colour::Green))
            },
            Err(m) => {
                self.attempt = Attempt::failed(now);
                s.append(m.as_str());
                s.append("\n");
                crate::ansi::Text::styled(s, fg(Colour::Red))
            },
        }
    }
}

/// What an event does to a scrolling text view holding `len` lines: whether it is handled, the
/// new offset, and whether the view follows the end.
pub open spec fn text_event(offset: u16, follow: bool, len: usize, event: WidgetEvent) -> (bool, u16, bool) {
    let up = (true, offset.saturating_sub(1), false);
    let down = (true, offset.saturating_add(1), false);
    match event {
        WidgetEvent::Focus(_) => (true, offset, follow),
        WidgetEvent::Mouse(m) => match m {
            MouseEvent::Up(_, _, _, _) => (true, offset, follow),
            MouseEvent::Down(_, _, _, _) => (true, offset, follow),
            MouseEvent::ScrollUp(_, _, _) => up,
            MouseEvent::ScrollDown(_, _, _) => down,
            MouseEvent::Drag(_, _, _, _) => (false, offset, follow),
        },
        WidgetEvent::Key(k) => if k.modifiers != NO_MODIFIERS {
            (false, offset, follow)
        } else {
            match k.code {
                KeyCode::Up => up,
                KeyCode::Down => down,
                KeyCode::PageUp => (true, offset.saturating_sub(50), false),
                KeyCode::PageDown => (true, offset.saturating_add(50), false),
                KeyCode::Home => (true, 0, false),
                KeyCode::End => (true, len as u16, true),
                _ => (false, offset, follow),
            }
        },
        _ => (false, offset, follow),
    }
}

/// The offset a text view draws with: when it follows the end, the one that puts the last
/// line on the last row of a `height` rows high area.
pub open spec fn draw_offset(offset: u16, follow: bool, len: usize, height: u16) -> u16 {
    if follow {
        (len as u16).saturating_sub((height - 1) as u16)
    } else {
        offset
    }
}

/// A view of lines of text, got from `func`, that scrolls and can follow the end.
pub struct Text<F> {
    func: F,
    offset: u16,
    follow: bool,
}

impl<F> Text<F> {
    /// The first line shown.
    pub closed spec fn offset_view(&self) -> u16 {
        self.offset
    }

    /// Whether the view follows the end of the text.
    pub closed spec fn follow_view(&self) -> bool {
        self.follow
    }

    /// Where the lines come from.
    pub closed spec fn func_view(&self) -> F {
        self.func
    }

    /// A view at the first line, not following the end.
    pub fn new(func: F) -> (t: Text<F>)
        ensures
            t.offset_view() == 0,
            !t.follow_view(),
            t.func_view() == func,
    {
        Text { func, offset: 0, follow: false }
    }

    /// Where the lines come from.
    pub fn func(&self) -> (f: &F)
        ensures
            *f == self.func_view(),
    {
        &self.func
    }

    /// Handles an event, the text holding `len` lines: scrolls by one line or fifty, goes to
    /// the first line, or to the end and follows it.
    pub fn update(&mut self, event: WidgetEvent, len: usize) -> (b: bool)
        ensures
            (b, final(self).offset_view(), final(self).follow_view()) == text_event(
                old(self).offset_view(),
                old(self).follow_view(),
                len,
                event,
            ),
            final(self).func_view() == old(self).func_view(),
    {
        let handled = match event {
            WidgetEvent::Focus(_) => true,
            WidgetEvent::Mouse(m) => match m {
                MouseEvent::Up(_, _, _, _) => true,
                MouseEvent::Down(_, _, _, _) => true,
                MouseEvent::ScrollUp(_, _, _) => {
                    self.follow = false;
                    self.offset = self.offset.saturating_sub(1);
                    true
                },
                MouseEvent::ScrollDown(_, _, _) => {
                    self.follow = false;
                    self.offset = self.offset.saturating_add(1);
                    true
                },
                MouseEvent::Drag(_, _, _, _) => false,
            },
            WidgetEvent::Key(k) => {
                if k.modifiers != NO_MODIFIERS {
                    false
                } else {
                    match k.code {
                        KeyCode::Up => {
                            self.follow = false;
                            self.offset = self.offset.saturating_sub(1);
                            true
                        },
                        KeyCode::Down => {
                            self.follow = false;
                            self.offset = self.offset.saturating_add(1);
                            true
                        },
                        KeyCode::PageUp => {
                            self.follow = false;
                            self.offset = self.offset.saturating_sub(50);
                            true
                        },
                        KeyCode::PageDown => {
                            self.follow = false;
                            self.offset = self.offset.saturating_add(50);
                            true
                        },
                        KeyCode::Home => {
                            self.follow = false;
                            self.offset = 0;
                            true
                        },
                        KeyCode::End => {
                            self.follow = true;
                            self.offset = len as u16;
                            true
                        },
                        _ => false,
                    }
                }
            },
            _ => false,
        };
        handled
    }

    /// Readies the view to be drawn over an area `height` rows high, the text holding `len`
    /// lines, and gives the first line to show.
    pub fn begin_draw(&mut self, len: usize, height: u16) -> (o: u16)
        requires
            old(self).follow_view() ==> height >= 1,
        ensures
            o == draw_offset(old(self).offset_view(), old(self).follow_view(), len, height),
            final(self).offset_view() == o,
            final(self).follow_view() == old(self).follow_view(),
            final(self).func_view() == old(self).func_view(),
    {
        if self.follow {
            self.offset = len as u16;
            self.offset = self.offset.saturating_sub(height - 1);
        }
        self.offset
    }
}

/// A view that follows the end of its text shows the last line on the last row: the first
/// line shown and the rows below it reach exactly the end, when the text fills the area.
pub proof fn law_follow_shows_end(len: usize, height: u16)
    requires
        height >= 1,
        len < 65536,
        len + 1 >= height,
    ensures
        draw_offset(0, true, len, height) + (height - 1) == len,
{
}

} // verus!
