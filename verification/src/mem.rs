//! The memory view: fifty words around the program counter, with their addresses, the
//! breakpoints and watchpoints set on them, their values three ways and the instructions they
//! encode. The view scrolls, and toggles breakpoints and watchpoints at its cursor row.

use vstd::prelude::*;
use vstd::string::*;
use crate::ansi::{Colour, Style, Text, TextView};
use crate::events::{KeyCode, KeyEvent, MouseEvent, WidgetEvent, NO_MODIFIERS, SHIFT};
use crate::numbers::{
    bin_text, hex_text, dec_text, push_padded_digits,
};
use crate::points::{PointTable, ToggleStep};
use crate::util::{Axis, Rect, increment, incremented};
use crate::draw::{Paragraph, fg, fg_style};

verus! {

/// Number of rows the memory view shows.
pub const MEM_ROWS: u16 = 50;

/// The name given to the text that `lc3_isa`'s `Display` writes for the instruction that
/// `Instruction::try_from` decodes from a word.
pub uninterp spec fn lc3_instruction_text(word: u16) -> Seq<char>;

/// Whether a word decodes to an instruction: every word does but those whose opcode, the top
/// four bits, is `0b1101`, which is reserved.
pub open spec fn decodable(word: u16) -> bool {
    word / 4096 != 13
}

/// Whether a word decodes to an instruction.
pub fn decodable_word(word: u16) -> (b: bool)
    ensures
        b == decodable(word),
{
    word / 4096 != 13
}

/// Decodes a word with `lc3_isa`'s `Instruction::try_from` and writes the instruction with its
/// `Display`. `lc3_isa` fails to decode exactly the words with the reserved opcode; the text of
/// a decoded instruction is only named.
#[verifier::external_body]
pub(crate) fn instruction_text(word: u16) -> (r: Option<String>)
    ensures
        r is Some <==> decodable(word),
        r matches Some(s) ==> s@ == lc3_instruction_text(word),
{
    match lc3_isa::Instruction::try_from(word) {
        Ok(i) => Some(format!("{}", i)),
        Err(_) => None,
    }
}

/// The kinds of points the memory view toggles.
#[derive(Debug, Clone, Copy, PartialEq, Eq, Structural)]
pub enum PointKind {
    Breakpoint,
    Watchpoint,
}

/// What the simulator must do after the memory view handled an event.
#[derive(Debug, Clone, Copy, PartialEq, Eq, Structural)]
pub enum MemRequest {
    Breakpoint(ToggleStep),
    Watchpoint(ToggleStep),
}

/// The scrolling memory view. Its offset is the row at which the program counter is shown:
/// the first row shows the word that many addresses before it.
pub struct Mem {
    offset: u16,
}

impl View for Mem {
    type V = u16;

    /// The row of the view at which the program counter is shown.
    closed spec fn view(&self) -> u16 {
        self.offset
    }
}

impl Default for Mem {
    fn default() -> (m: Mem)
        ensures
            m@ == 2,
    {
        Mem { offset: 2 }
    }
}

/// The address shown in row `x` of the view.
pub open spec fn row_addr(pc: u16, offset: u16, x: nat) -> u16 {
    pc.wrapping_sub(offset).wrapping_add(x as u16)
}

/// The addresses of the rows of the view, in order: the words to read for `columns`.
pub fn row_addresses(pc: u16, offset: u16) -> (a: Vec<u16>)
    ensures
        a.len() == MEM_ROWS,
        forall|i: int| 0 <= i < MEM_ROWS ==> #[trigger] a[i] == row_addr(pc, offset, i as nat),
{
    let mut a: Vec<u16> = Vec::new();
    let mut x: u16 = 0;
    while x < MEM_ROWS
        invariant
            x <= MEM_ROWS,
            a.len() == x,
            forall|i: int| 0 <= i < x ==> #[trigger] a[i] == row_addr(pc, offset, i as nat),
        decreases MEM_ROWS - x,
    {
        a.push(pc.wrapping_sub(offset).wrapping_add(x));
        x = x + 1;
    }
    a
}

/// The address of the cursor row: the third row of the view.
pub open spec fn cursor_addr(pc: u16, offset: u16) -> u16 {
    pc.wrapping_sub(offset).wrapping_add(2)
}

/// The step that toggles the point at `addr` in a table.
pub open spec fn toggle_step(m: Map<u16, usize>, addr: u16) -> ToggleStep {
    if m.contains_key(addr) {
        ToggleStep::Unset(m[addr])
    } else {
        ToggleStep::Place(addr)
    }
}

/// What an event does to the memory view: whether it is handled, the new offset, and the
/// point toggled at the cursor, if any.
pub open spec fn mem_event(offset: u16, pc: u16, event: WidgetEvent) -> (bool, u16, Option<(PointKind, u16)>) {
    let cur = cursor_addr(pc, offset);
    match event {
        WidgetEvent::Focus(_) => (true, offset, None),
        WidgetEvent::Mouse(m) => match m {
            MouseEvent::Up(_, _, _, _) => (true, offset, None),
            MouseEvent::Down(_, _, _, _) => (true, offset, None),
            MouseEvent::ScrollUp(_, _, _) => (true, offset.wrapping_add(1), None),
            MouseEvent::ScrollDown(_, _, _) => (true, offset.wrapping_sub(1), None),
            MouseEvent::Drag(_, _, _, _) => (false, offset, None),
        },
        WidgetEvent::Key(k) => if k.modifiers == NO_MODIFIERS {
            match k.code {
                KeyCode::Up => (true, offset.wrapping_sub(1), None),
                KeyCode::Down => (true, offset.wrapping_add(1), None),
                KeyCode::PageUp => (true, offset.wrapping_sub(50), None),
                KeyCode::PageDown => (true, offset.wrapping_add(50), None),
                KeyCode::Home => (true, 2, None),
                KeyCode::Char(c) => if c == 'w' {
                    (true, offset, Some((PointKind::Watchpoint, cur)))
                } else if c == 'b' {
                    (true, pc.wrapping_sub((cur - 2) as u16), Some((PointKind::Breakpoint, cur)))
                } else {
                    (false, offset, None)
                },
                _ => (false, offset, None),
            }
        } else if k.modifiers == SHIFT {
            match k.code {
                KeyCode::Up => (true, offset.wrapping_sub(10), None),
                KeyCode::Down => (true, offset.wrapping_add(10), None),
                _ => (false, offset, None),
            }
        } else {
            (false, offset, None)
        },
        _ => (false, offset, None),
    }
}

/// The breakpoint key: `b` with no modifier.
pub open spec fn is_breakpoint_key(event: WidgetEvent) -> bool {
    event == WidgetEvent::Key(KeyEvent { code: KeyCode::Char('b'), modifiers: NO_MODIFIERS })
}

/// The columns of the memory view, left to right.
#[derive(Debug, Clone, Copy, PartialEq, Eq, Structural)]
pub enum MemColumn {
    Arrow,
    Breakpoints,
    Watchpoints,
    Addresses,
    Binary,
    Hex,
    Decimal,
    Instructions,
}

/// The line a column shows for row `x`.
pub open spec fn row_text(
    kind: MemColumn,
    pc: u16,
    offset: u16,
    words: Seq<u16>,
    bp: Map<u16, usize>,
    wp: Map<u16, usize>,
    x: nat,
) -> Seq<char> {
    let addr = row_addr(pc, offset, x);
    match kind {
        MemColumn::Arrow => if x == offset {
            "-->\n"@
        } else {
            "\n"@
        },
        MemColumn::Breakpoints => if bp.contains_key(addr) {
            "<b>\n"@
        } else {
            "\n"@
        },
        MemColumn::Watchpoints => if wp.contains_key(addr) {
            "<w>\n"@
        } else {
            "\n"@
        },
        MemColumn::Addresses => hex_text(addr) + "\n"@,
        MemColumn::Binary => bin_text(words[x as int]) + "\n"@,
        MemColumn::Hex => hex_text(words[x as int]) + "\n"@,
        MemColumn::Decimal => dec_text(words[x as int]) + "\n"@,
        MemColumn::Instructions => lc3_instruction_text(words[x as int]) + "\n"@,
    }
}

/// The text of a column over its first `n` rows.
pub open spec fn column_rows(
    kind: MemColumn,
    pc: u16,
    offset: u16,
    words: Seq<u16>,
    bp: Map<u16, usize>,
    wp: Map<u16, usize>,
    n: nat,
) -> Seq<char>
    decreases n,
{
    if n == 0 {
        Seq::empty()
    } else {
        column_rows(kind, pc, offset, words, bp, wp, (n - 1) as nat) + row_text(
            kind,
            pc,
            offset,
            words,
            bp,
            wp,
            (n - 1) as nat,
        )
    }
}

/// The nine texts the memory view draws, in order.
pub open spec fn mem_texts(
    pc: u16,
    offset: u16,
    words: Seq<u16>,
    bp: Map<u16, usize>,
    wp: Map<u16, usize>,
) -> Seq<TextView> {
    let col = |k: MemColumn| column_rows(k, pc, offset, words, bp, wp, MEM_ROWS as nat);
    seq![
        ("\n\n-->"@, Some(fg_style(Colour::Rgb(0x73, 0xB7, 0xE8)))),
        (col(MemColumn::Arrow), Some(fg_style(Colour::Rgb(0xFF, 0x97, 0x40)))),
        (col(MemColumn::Breakpoints), Some(fg_style(Colour::Rgb(0xCC, 0x02, 0x02)))),
        (col(MemColumn::Watchpoints), Some(fg_style(Colour::Rgb(0x30, 0x49, 0xDE)))),
        (col(MemColumn::Addresses), Some(fg_style(Colour::Gray))),
        (col(MemColumn::Binary), Some(fg_style(Colour::LightGreen))),
        (col(MemColumn::Hex), Some(fg_style(Colour::LightGreen))),
        (col(MemColumn::Decimal), Some(fg_style(Colour::LightGreen))),
        (col(MemColumn::Instructions), Some(fg_style(Colour::LightCyan))),
    ]
}

/// Where the nine texts go: the first two on the whole area, each next one further right.
pub open spec fn mem_areas(area: Rect) -> Seq<Rect> {
    let a2 = incremented(5, Axis::X, area);
    let a3 = incremented(5, Axis::X, a2);
    let a4 = incremented(5, Axis::X, a3);
    let a5 = incremented(10, Axis::X, a4);
    let a6 = incremented(19, Axis::X, a5);
    let a7 = incremented(7, Axis::X, a6);
    let a8 = incremented(8, Axis::X, a7);
    seq![area, area, a2, a3, a4, a5, a6, a7, a8]
}

/// The least width each text needs to be drawn.
pub open spec fn mem_min_widths() -> Seq<u16> {
    seq![0u16, 0, 4, 4, 8, 19, 7, 5, 20]
}

/// Whether each text wraps its lines.
pub open spec fn mem_wraps() -> Seq<bool> {
    seq![true, true, true, true, true, false, false, false, true]
}

/// How many of the texts are drawn from text `i` on: drawing stops at the first one whose
/// area is too narrow.
pub open spec fn shown_from(areas: Seq<Rect>, mins: Seq<u16>, i: nat) -> nat
    decreases 9 - i,
{
    if i >= 9 {
        9
    } else if areas[i as int].width < mins[i as int] {
        i
    } else {
        shown_from(areas, mins, i + 1)
    }
}

proof fn lemma_shown_from_at_least(areas: Seq<Rect>, mins: Seq<u16>, i: nat)
    requires
        i <= 9,
    ensures
        i <= shown_from(areas, mins, i) <= 9,
    decreases 9 - i,
{
    if i < 9 && areas[i as int].width >= mins[i as int] {
        lemma_shown_from_at_least(areas, mins, i + 1);
    }
}

impl Mem {
    /// The row of the program counter.
    pub fn offset(&self) -> (o: u16)
        ensures
            o == self@,
    {
        self.offset
    }

    /// Handles an event given the program counter: scrolls (one row, ten with shift, fifty a
    /// page; home puts the program counter back on the cursor row), and toggles the watchpoint
    /// (`w`) or the breakpoint (`b`) at the cursor row, saying what the simulator must do.
    pub fn update(
        &mut self,
        event: WidgetEvent,
        pc: u16,
        bp: &mut PointTable,
        wp: &mut PointTable,
    ) -> (r: (bool, Option<MemRequest>))
        requires
            is_breakpoint_key(event) ==> cursor_addr(pc, old(self)@) >= 2,
        ensures
            ({
                let (handled, offset, toggle) = mem_event(old(self)@, pc, event);
                &&& r.0 == handled
                &&& final(self)@ == offset
                &&& match toggle {
                    None => r.1 is None && final(bp)@ == old(bp)@ && final(wp)@ == old(wp)@,
                    Some((PointKind::Watchpoint, a)) => r.1 == Some(
                        MemRequest::Watchpoint(toggle_step(old(wp)@, a)),
                    ) && final(wp)@ == old(wp)@.remove(a) && final(bp)@ == old(bp)@,
                    Some((PointKind::Breakpoint, a)) => r.1 == Some(
                        MemRequest::Breakpoint(toggle_step(old(bp)@, a)),
                    ) && final(bp)@ == old(bp)@.remove(a) && final(wp)@ == old(wp)@,
                }
            }),
    {
        match event {
            WidgetEvent::Focus(_) => (true, None),
            WidgetEvent::Mouse(m) => match m {
                MouseEvent::Up(_, _, _, _) => (true, None),
                MouseEvent::Down(_, _, _, _) => (true, None),
                MouseEvent::ScrollUp(_, _, _) => {
                    self.offset = self.offset.wrapping_add(1);
                    (true, None)
                },
                MouseEvent::ScrollDown(_, _, _) => {
                    self.offset = self.offset.wrapping_sub(1);
                    (true, None)
                },
                MouseEvent::Drag(_, _, _, _) => (false, None),
            },
            WidgetEvent::Key(k) => {
                if k.modifiers == NO_MODIFIERS {
                    match k.code {
                        KeyCode::Up => {
                            self.offset = self.offset.wrapping_sub(1);
                            (true, None)
                        },
                        KeyCode::Down => {
                            self.offset = self.offset.wrapping_add(1);
                            (true, None)
                        },
                        KeyCode::PageUp => {
                            self.offset = self.offset.wrapping_sub(50);
                            (true, None)
                        },
                        KeyCode::PageDown => {
                            self.offset = self.offset.wrapping_add(50);
                            (true, None)
                        },
                        KeyCode::Home => {
                            self.offset = 2;
                            (true, None)
                        },
                        KeyCode::Char(c) => {
                            if c == 'w' {
                                let cur = pc.wrapping_sub(self.offset).wrapping_add(2);
                                let step = wp.begin_toggle(cur);
                                (true, Some(MemRequest::Watchpoint(step)))
                            } else if c == 'b' {
                                let cur = pc.wrapping_sub(self.offset).wrapping_add(2);
                                let step = bp.begin_toggle(cur);
                                self.offset = pc.wrapping_sub(cur - 2);
                                (true, Some(MemRequest::Breakpoint(step)))
                            } else {
                                (false, None)
                            }
                        },
                        _ => (false, None),
                    }
                } else if k.modifiers == SHIFT {
                    match k.code {
                        KeyCode::Up => {
                            self.offset = self.offset.wrapping_sub(10);
                            (true, None)
                        },
                        KeyCode::Down => {
                            self.offset = self.offset.wrapping_add(10);
                            (true, None)
                        },
                        _ => (false, None),
                    }
                } else {
                    (false, None)
                }
            },
            _ => (false, None),
        }
    }

    /// What the view draws, given the program counter, the fifty words from the first row's
    /// address on, the points set, and its area: the texts it draws and where, left to right,
    /// up to the first that has no room.
    pub fn columns(
        &self,
        pc: u16,
        words: &Vec<u16>,
        bp: &PointTable,
        wp: &PointTable,
        area: Rect,
    ) -> (cols: Vec<Paragraph>)
        requires
            words.len() == MEM_ROWS,
            forall|i: int| 0 <= i < words.len() ==> decodable(#[trigger] words[i]),
            area.x + area.width <= u16::MAX,
        ensures
            cols.len() == shown_from(mem_areas(area), mem_min_widths(), 2),
            forall|i: int|
                0 <= i < cols.len() ==> #[trigger] cols[i]@ == (
                    seq![mem_texts(pc, self@, words@, bp@, wp@)[i]],
                    mem_areas(area)[i],
                    mem_wraps()[i],
                ),
    {
        let texts = self.texts(pc, words, bp, wp);
        let areas = areas_of(area);
        let mins: [u16; 9] = [0, 0, 4, 4, 8, 19, 7, 5, 20];
        let wraps: [bool; 9] = [true, true, true, true, true, false, false, false, true];
        assert(mins@ =~= mem_min_widths());
        assert(wraps@ =~= mem_wraps());
        let mut cols: Vec<Paragraph> = Vec::new();
        let mut texts = texts;
        let mut i: usize = 0;
        while i < 9
            invariant
                i <= 9,
                areas@ == mem_areas(area),
                mins@ == mem_min_widths(),
                wraps@ == mem_wraps(),
                texts.len() == 9,
                forall|j: int| 0 <= j < 9 ==> #[trigger] texts[j]@ == mem_texts(pc, self@, words@, bp@, wp@)[j],
                cols.len() == i,
                shown_from(mem_areas(area), mem_min_widths(), 2) >= i,
                i < 2 || shown_from(mem_areas(area), mem_min_widths(), 2) == shown_from(
                    mem_areas(area),
                    mem_min_widths(),
                    i as nat,
                ),
                forall|j: int|
                    0 <= j < cols.len() ==> #[trigger] cols[j]@ == (
                        seq![mem_texts(pc, self@, words@, bp@, wp@)[j]],
                        mem_areas(area)[j],
                        mem_wraps()[j],
                    ),
            ensures
                cols.len() == shown_from(mem_areas(area), mem_min_widths(), 2),
                forall|j: int|
                    0 <= j < cols.len() ==> #[trigger] cols[j]@ == (
                        seq![mem_texts(pc, self@, words@, bp@, wp@)[j]],
                        mem_areas(area)[j],
                        mem_wraps()[j],
                    ),
            decreases 9 - i,
        {
            if i >= 2 && areas[i].width < mins[i] {
                break;
            }
            proof {
                lemma_shown_from_at_least(mem_areas(area), mem_min_widths(), 2);
                lemma_shown_from_at_least(mem_areas(area), mem_min_widths(), (i + 1) as nat);
            }
            let text = texts[i].duplicate();
            let mut items: Vec<Text> = Vec::new();
            items.push(text);
            let para = Paragraph { texts: items, area: areas[i], wrap: wraps[i] };
            assert(para@.0 =~= seq![mem_texts(pc, self@, words@, bp@, wp@)[i as int]]);
            cols.push(para);
            i = i + 1;
        }
        cols
    }

    /// The nine texts of the view.
    fn texts(&self, pc: u16, words: &Vec<u16>, bp: &PointTable, wp: &PointTable) -> (texts: Vec<Text>)
        requires
            words.len() == MEM_ROWS,
            forall|i: int| 0 <= i < words.len() ==> decodable(#[trigger] words[i]),
        ensures
            texts.len() == 9,
            forall|j: int| 0 <= j < 9 ==> #[trigger] texts[j]@ == mem_texts(pc, self@, words@, bp@, wp@)[j],
    {
        let offset = self.offset;
        let ghost w = words@;
        let ghost b = bp@;
        let ghost v = wp@;
        let mut arrow = String::new();
        let mut bps = String::new();
        let mut wps = String::new();
        let mut addrs = String::new();
        let mut bins = String::new();
        let mut hexes = String::new();
        let mut decs = String::new();
        let mut insts = String::new();
        proof {
            reveal_strlit("-->\n");
            reveal_strlit("<b>\n");
            reveal_strlit("<w>\n");
            reveal_strlit("\n");
            reveal_strlit("0x");
            reveal_strlit("0b");
        }
        let mut x: u16 = 0;
        while x < MEM_ROWS
            invariant
                x <= MEM_ROWS,
                offset == self@,
                w == words@,
                b == bp@,
                v == wp@,
                words.len() == MEM_ROWS,
                forall|i: int| 0 <= i < words.len() ==> decodable(#[trigger] words[i]),
                arrow@ == column_rows(MemColumn::Arrow, pc, offset, w, b, v, x as nat),
                bps@ == column_rows(MemColumn::Breakpoints, pc, offset, w, b, v, x as nat),
                wps@ == column_rows(MemColumn::Watchpoints, pc, offset, w, b, v, x as nat),
                addrs@ == column_rows(MemColumn::Addresses, pc, offset, w, b, v, x as nat),
                bins@ == column_rows(MemColumn::Binary, pc, offset, w, b, v, x as nat),
                hexes@ == column_rows(MemColumn::Hex, pc, offset, w, b, v, x as nat),
                decs@ == column_rows(MemColumn::Decimal, pc, offset, w, b, v, x as nat),
                insts@ == column_rows(MemColumn::Instructions, pc, offset, w, b, v, x as nat),
            decreases MEM_ROWS - x,
        {
            let addr = pc.wrapping_sub(offset).wrapping_add(x);
            assert(addr == row_addr(pc, offset, x as nat));
            let word = words[x as usize];
            if x == offset {
                arrow.append("-->\n");
            } else {
                arrow.append("\n");
            }
            if bp.contains(addr) {
                bps.append("<b>\n");
            } else {
                bps.append("\n");
            }
            if wp.contains(addr) {
                wps.append("<w>\n");
            } else {
                wps.append("\n");
            }
            addrs.append("0x");
            push_padded_digits(&mut addrs, addr as u64, 16, 4);
            addrs.append("\n");
            bins.append("0b");
            push_padded_digits(&mut bins, word as u64, 2, 16);
            bins.append("\n");
            hexes.append("0x");
            push_padded_digits(&mut hexes, word as u64, 16, 4);
            hexes.append("\n");
            push_padded_digits(&mut decs, word as u64, 10, 5);
            decs.append("\n");
            let inst = instruction_text(word);
            match inst {
                Some(s) => {
                    insts.append(s.as_str());
                },
                None => {},
            }
            insts.append("\n");
            proof {
                let xn = x as nat;
                assert(arrow@ =~= column_rows(MemColumn::Arrow, pc, offset, w, b, v, xn + 1));
                assert(bps@ =~= column_rows(MemColumn::Breakpoints, pc, offset, w, b, v, xn + 1));
                assert(wps@ =~= column_rows(MemColumn::Watchpoints, pc, offset, w, b, v, xn + 1));
                assert(addrs@ =~= column_rows(MemColumn::Addresses, pc, offset, w, b, v, xn + 1));
                assert(bins@ =~= column_rows(MemColumn::Binary, pc, offset, w, b, v, xn + 1));
                assert(hexes@ =~= column_rows(MemColumn::Hex, pc, offset, w, b, v, xn + 1));
                assert(decs@ =~= column_rows(MemColumn::Decimal, pc, offset, w, b, v, xn + 1));
                assert(insts@ =~= column_rows(MemColumn::Instructions, pc, offset, w, b, v, xn + 1));
            }
            x = x + 1;
        }
        let mut texts: Vec<Text> = Vec::new();
        texts.push(Text::styled(String::from_str("\n\n-->"), fg(Colour::Rgb(0x73, 0xB7, 0xE8))));
        texts.push(Text::styled(arrow, fg(Colour::Rgb(0xFF, 0x97, 0x40))));
        texts.push(Text::styled(bps, fg(Colour::Rgb(0xCC, 0x02, 0x02))));
        texts.push(Text::styled(wps, fg(Colour::Rgb(0x30, 0x49, 0xDE))));
        texts.push(Text::styled(addrs, fg(Colour::Gray)));
        texts.push(Text::styled(bins, fg(Colour::LightGreen)));
        texts.push(Text::styled(hexes, fg(Colour::LightGreen)));
        texts.push(Text::styled(decs, fg(Colour::LightGreen)));
        texts.push(Text::styled(insts, fg(Colour::LightCyan)));
        texts
    }
}

/// The nine areas of the view.
fn areas_of(area: Rect) -> (areas: [Rect; 9])
    requires
        area.x + area.width <= u16::MAX,
    ensures
        areas@ == mem_areas(area),
{
    let a2 = increment(5, Axis::X, area);
    let a3 = increment(5, Axis::X, a2);
    let a4 = increment(5, Axis::X, a3);
    let a5 = increment(10, Axis::X, a4);
    let a6 = increment(19, Axis::X, a5);
    let a7 = increment(7, Axis::X, a6);
    let a8 = increment(8, Axis::X, a7);
    let areas = [area, area, a2, a3, a4, a5, a6, a7, a8];
    assert(areas@ =~= mem_areas(area));
    areas
}

/// Scrolling one row up and then one row down, with the keys or with the mouse wheel, puts the
/// view back where it was; so does the opposite order.
pub proof fn law_scroll_round_trip(offset: u16, pc: u16, up: WidgetEvent, down: WidgetEvent)
    requires
        up == WidgetEvent::Key(KeyEvent { code: KeyCode::Up, modifiers: NO_MODIFIERS }),
        down == WidgetEvent::Key(KeyEvent { code: KeyCode::Down, modifiers: NO_MODIFIERS }),
    ensures
        mem_event(mem_event(offset, pc, up).1, pc, down).1 == offset,
        mem_event(mem_event(offset, pc, down).1, pc, up).1 == offset,
{
}

/// Toggling a breakpoint keeps the view where it is: the program counter stays on its row.
pub proof fn law_breakpoint_keeps_offset(offset: u16, pc: u16, event: WidgetEvent)
    requires
        is_breakpoint_key(event),
        cursor_addr(pc, offset) >= 2,
    ensures
        mem_event(offset, pc, event).1 == offset,
{
}

/// The home key puts the program counter back on the cursor row, wherever the view was.
pub proof fn law_home_recentres(offset: u16, pc: u16)
    ensures
        mem_event(
            offset,
            pc,
            WidgetEvent::Key(KeyEvent { code: KeyCode::Home, modifiers: NO_MODIFIERS }),
        ).1 == 2,
        cursor_addr(pc, 2) == pc,
{
}

/// Over its first `n` rows, a column that shows `mark` on the rows whose address the table
/// holds and an empty line on the others.
pub open spec fn marked_lines(m: Map<u16, usize>, pc: u16, offset: u16, n: nat, mark: Seq<char>) -> Seq<
    char,
>
    decreases n,
{
    if n == 0 {
        Seq::empty()
    } else {
        marked_lines(m, pc, offset, (n - 1) as nat, mark) + if m.contains_key(
            row_addr(pc, offset, (n - 1) as nat),
        ) {
            mark
        } else {
            "\n"@
        }
    }
}

/// Over its first `n` rows, the arrow column: `-->` on row `offset`, where the program counter
/// stands, and an empty line on the others.
pub open spec fn arrow_lines(offset: u16, n: nat) -> Seq<char>
    decreases n,
{
    if n == 0 {
        Seq::empty()
    } else {
        arrow_lines(offset, (n - 1) as nat) + if n - 1 == offset {
            "-->\n"@
        } else {
            "\n"@
        }
    }
}

proof fn lemma_point_columns(
    pc: u16,
    offset: u16,
    words: Seq<u16>,
    bp: Map<u16, usize>,
    wp: Map<u16, usize>,
    n: nat,
)
    ensures
        column_rows(MemColumn::Watchpoints, pc, offset, words, bp, wp, n) == marked_lines(
            wp,
            pc,
            offset,
            n,
            "<w>\n"@,
        ),
        column_rows(MemColumn::Breakpoints, pc, offset, words, bp, wp, n) == marked_lines(
            bp,
            pc,
            offset,
            n,
            "<b>\n"@,
        ),
        column_rows(MemColumn::Arrow, pc, offset, words, bp, wp, n) == arrow_lines(offset, n),
    decreases n,
{
    if n > 0 {
        lemma_point_columns(pc, offset, words, bp, wp, (n - 1) as nat);
    }
}

/// Row by row, the watchpoint column shows `<w>` exactly where the watchpoint table holds the
/// row's address, whatever the breakpoint table holds; the breakpoint column shows `<b>`
/// exactly where the breakpoint table holds it, whatever the watchpoint table holds; and the
/// arrow column shows `-->` on the program counter's row alone.
pub proof fn law_point_columns(
    pc: u16,
    offset: u16,
    words: Seq<u16>,
    bp: Map<u16, usize>,
    wp: Map<u16, usize>,
)
    ensures
        mem_texts(pc, offset, words, bp, wp)[1].0 == arrow_lines(offset, MEM_ROWS as nat),
        mem_texts(pc, offset, words, bp, wp)[2].0 == marked_lines(
            bp,
            pc,
            offset,
            MEM_ROWS as nat,
            "<b>\n"@,
        ),
        mem_texts(pc, offset, words, bp, wp)[3].0 == marked_lines(
            wp,
            pc,
            offset,
            MEM_ROWS as nat,
            "<w>\n"@,
        ),
{
    lemma_point_columns(pc, offset, words, bp, wp, MEM_ROWS as nat);
}

} // verus!
