//! What widgets hand over to be drawn: paragraphs of styled text at given areas.

use vstd::prelude::*;
use crate::ansi::{Colour, Style, Text, TextView};
use crate::util::Rect;

verus! {

/// Styled texts drawn as one paragraph: where, and whether its lines wrap.
pub struct Paragraph {
    pub texts: Vec<Text>,
    pub area: Rect,
    pub wrap: bool,
}

/// A paragraph seen as its texts, its area and its wrapping.
pub type ParagraphView = (Seq<TextView>, Rect, bool);

impl View for Paragraph {
    type V = ParagraphView;

    open spec fn view(&self) -> ParagraphView {
        (self.texts@.map_values(|t: Text| t@), self.area, self.wrap)
    }
}

/// The style that only sets the foreground colour.
pub open spec fn fg_style(c: Colour) -> Style {
    Style { fg: c, bg: Colour::Reset, modifier: 0 }
}

/// The style that only sets the foreground colour.
pub fn fg(c: Colour) -> (s: Style)
    ensures
        s == fg_style(c),
{
    Style { fg: c, bg: Colour::Reset, modifier: 0 }
}

/// The colour of a widget's frame: red when the widget has the focus, its own otherwise.
pub fn border_colour(focused: bool, own: Colour) -> (c: Colour)
    ensures
        c == (if focused { Colour::Red } else { own }),
{
    if focused {
        Colour::Red
    } else {
        own
    }
}

/// The smallest rectangle that holds both, as the terminal library's `Rect::union` finds it.
pub open spec fn union_of(a: Rect, b: Rect) -> Rect {
    let x1 = if a.x < b.x { a.x } else { b.x };
    let y1 = if a.y < b.y { a.y } else { b.y };
    let x2 = if a.x + a.width > b.x + b.width { a.x + a.width } else { b.x + b.width };
    let y2 = if a.y + a.height > b.y + b.height { a.y + a.height } else { b.y + b.height };
    Rect { x: x1, y: y1, width: (x2 - x1) as u16, height: (y2 - y1) as u16 }
}

/// Whether a widget's area can be drawn on a buffer: whether joining it to the buffer's area
/// leaves that area as it is.
pub fn drawable(buffer: Rect, area: Rect) -> (b: bool)
    requires
        buffer.x + buffer.width <= u16::MAX,
        buffer.y + buffer.height <= u16::MAX,
        area.x + area.width <= u16::MAX,
        area.y + area.height <= u16::MAX,
    ensures
        b == (union_of(buffer, area) == buffer),
{
    let x1 = if buffer.x < area.x { buffer.x } else { area.x };
    let y1 = if buffer.y < area.y { buffer.y } else { area.y };
    let x2 = if buffer.x + buffer.width > area.x + area.width {
        buffer.x + buffer.width
    } else {
        area.x + area.width
    };
    let y2 = if buffer.y + buffer.height > area.y + area.height {
        buffer.y + buffer.height
    } else {
        area.y + area.height
    };
    let u = Rect { x: x1, y: y1, width: x2 - x1, height: y2 - y1 };
    u == buffer
}

} // verus!
