//! Helpers for laying out and trimming what widgets draw.

use vstd::prelude::*;
use vstd::string::*;
use crate::strings::{get_string, string_table, DotDotDot};

verus! {

/// A direction in which an area is shifted.
#[derive(Debug, Clone, Copy, PartialEq, Eq, Structural)]
pub enum Axis {
    X,
    Y,
}

/// A rectangle on the terminal: its top left corner and its size.
#[derive(Debug, Clone, Copy, PartialEq, Eq, Structural)]
pub struct Rect {
    pub x: u16,
    pub y: u16,
    pub width: u16,
    pub height: u16,
}

/// The size the terminal library's `Rect::new` clips a size to when its area exceeds
/// `u16::MAX` cells (computed in floating point, keeping the aspect ratio).
pub uninterp spec fn clipped_size(width: u16, height: u16) -> (u16, u16);

/// What the terminal library's `Rect::new` makes of the given corner and size: the corner,
/// and the size as it is when its area is at most `u16::MAX` cells, clipped otherwise.
pub open spec fn layout_rect_new(x: u16, y: u16, width: u16, height: u16) -> (u16, u16, u16, u16) {
    if width * height <= 65535 {
        (x, y, width, height)
    } else {
        (x, y, clipped_size(width, height).0, clipped_size(width, height).1)
    }
}

/// Calls `tui::layout::Rect::new`, which keeps the corner and, when `width * height` exceeds
/// `u16::MAX`, shrinks the size (computing in floating point) to keep the aspect ratio. The
/// contract states that the corner is kept, that the size is kept when it is small enough and
/// never grows otherwise; what the shrinking gives is only named (`clipped_size`).
#[verifier::external_body]
fn rect_new(x: u16, y: u16, width: u16, height: u16) -> (r: Rect)
    ensures
        (r.x, r.y, r.width, r.height) == layout_rect_new(x, y, width, height),
        r.x == x,
        r.y == y,
        r.width <= width,
        r.height <= height,
        width * height <= 65535 ==> r.width == width && r.height == height,
        width * height > 65535 ==> (r.width, r.height) == clipped_size(width, height),
{
    let r = tui::layout::Rect::new(x, y, width, height);
    Rect { x: r.x, y: r.y, width: r.width, height: r.height }
}

impl Rect {
    /// A rectangle made by the terminal library from its corner and size.
    pub fn new(x: u16, y: u16, width: u16, height: u16) -> (r: Rect)
        ensures
            (r.x, r.y, r.width, r.height) == layout_rect_new(x, y, width, height),
            r.x == x,
            r.y == y,
            r.width <= width,
            r.height <= height,
            width * height <= 65535 ==> r.width == width && r.height == height,
    {
        rect_new(x, y, width, height)
    }

    /// Whether the cell at column `col` and row `row` lies in the rectangle, its right and
    /// bottom edges included.
    pub fn contains(&self, col: u16, row: u16) -> (b: bool)
        requires
            self.x + self.width <= u16::MAX,
            self.y + self.height <= u16::MAX,
        ensures
            b == (self.x <= col <= self.x + self.width && self.y <= row <= self.y + self.height),
    {
        let right = self.x + self.width;
        let bottom = self.y + self.height;
        self.x <= col && col <= right && self.y <= row && row <= bottom
    }
}

/// The shift actually applied: `offset`, but no more than the extent along the axis.
pub open spec fn clamped_offset(offset: u16, axis: Axis, area: Rect) -> u16 {
    match axis {
        Axis::X => if offset > area.width {
            area.width
        } else {
            offset
        },
        Axis::Y => if offset > area.height {
            area.height
        } else {
            offset
        },
    }
}

/// The rectangle `increment` gives: the one the terminal library makes from the shifted corner
/// and the shrunk size.
pub open spec fn incremented(offset: u16, axis: Axis, area: Rect) -> Rect {
    let o = clamped_offset(offset, axis, area);
    let t = match axis {
        Axis::X => layout_rect_new(
            (area.x + o) as u16,
            area.y,
            (area.width - o) as u16,
            area.height,
        ),
        Axis::Y => layout_rect_new(
            area.x,
            (area.y + o) as u16,
            area.width,
            (area.height - o) as u16,
        ),
    };
    Rect { x: t.0, y: t.1, width: t.2, height: t.3 }
}

proof fn lemma_smaller_area(a: u16, b: u16, o: u16)
    requires
        o <= a,
        a * b <= 65535,
    ensures
        ((a - o) as u16) * b <= 65535,
{
    assert(((a - o) as u16) * b <= a * b) by (nonlinear_arith)
        requires
            o <= a,
    ;
}

/// Moves the start of `area` by `offset` cells along `axis`, shrinking it by as much, so
/// that its far edge stays in place. The shift is at most the extent of the area.
pub fn increment(offset: u16, axis: Axis, area: Rect) -> (r: Rect)
    requires
        axis == Axis::X ==> area.x + clamped_offset(offset, axis, area) <= u16::MAX,
        axis == Axis::Y ==> area.y + clamped_offset(offset, axis, area) <= u16::MAX,
    ensures
        r == incremented(offset, axis, area),
        axis == Axis::X ==> r.x == area.x + clamped_offset(offset, axis, area) && r.y == area.y
            && r.width <= area.width - clamped_offset(offset, axis, area) && r.height
            <= area.height,
        axis == Axis::Y ==> r.y == area.y + clamped_offset(offset, axis, area) && r.x == area.x
            && r.height <= area.height - clamped_offset(offset, axis, area) && r.width
            <= area.width,
        ({
            let o = clamped_offset(offset, axis, area);
            match axis {
                Axis::X => (r.x, r.y, r.width, r.height) == layout_rect_new(
                    (area.x + o) as u16,
                    area.y,
                    (area.width - o) as u16,
                    area.height,
                ),
                Axis::Y => (r.x, r.y, r.width, r.height) == layout_rect_new(
                    area.x,
                    (area.y + o) as u16,
                    area.width,
                    (area.height - o) as u16,
                ),
            }
        }),
        area.width * area.height <= 65535 ==> ({
            let o = clamped_offset(offset, axis, area);
            match axis {
                Axis::X => r == Rect {
                    x: (area.x + o) as u16,
                    y: area.y,
                    width: (area.width - o) as u16,
                    height: area.height,
                },
                Axis::Y => r == Rect {
                    x: area.x,
                    y: (area.y + o) as u16,
                    width: area.width,
                    height: (area.height - o) as u16,
                },
            }
        }),
{
    let mut offset = offset;
    if axis == Axis::X {
        if offset > area.width {
            offset = area.width;
        }
        proof {
            if area.width * area.height <= 65535 {
                lemma_smaller_area(area.width, area.height, offset);
            }
        }
        Rect::new(area.x + offset, area.y, area.width - offset, area.height)
    } else {
        if offset > area.height {
            offset = area.height;
        }
        proof {
            if area.width * area.height <= 65535 {
                lemma_smaller_area(area.height, area.width, offset);
                assert(area.width * ((area.height - offset) as u16) <= 65535) by (nonlinear_arith)
                    requires
                        ((area.height - offset) as u16) * area.width <= 65535,
                ;
            }
        }
        Rect::new(area.x, area.y + offset, area.width, area.height - offset)
    }
}

/// Whether a number is odd.
pub fn is_odd(n: usize) -> (b: bool)
    ensures
        b == (n % 2 == 1),
{
    n % 2 == 1
}

/// Whether a number is even.
pub fn is_even(n: usize) -> (b: bool)
    ensures
        b == (n % 2 == 0),
{
    !is_odd(n)
}

/// What trimming gives: the string itself when it fits in `width` characters; otherwise its
/// first `ceil((width - 2) / 2)` characters, the ellipsis, and its last `floor((width - 2) / 2)`
/// characters.
pub open spec fn trimmed(s: Seq<char>, width: nat, unicode: bool) -> Seq<char> {
    if s.len() <= width {
        s
    } else {
        let half = (width - 2) / 2;
        let front = if width % 2 == 1 {
            half + 1
        } else {
            half
        };
        s.take(front) + string_table(DotDotDot, unicode) + s.skip(s.len() - half)
    }
}

/// Shortens `inp` to fit `width` characters by replacing its middle with an ellipsis.
pub fn trim_to_width(inp: &str, width: u16, unicode: bool) -> (s: String)
    requires
        inp@.len() > width ==> width >= 2,
    ensures
        s@ == trimmed(inp@, width as nat, unicode),
{
    let width = width as usize;
    let num_chars = inp.unicode_len();
    if num_chars <= width {
        inp.to_owned()
    } else {
        let half = (width - 2) / 2;
        let front = half + if is_odd(width) {
            1
        } else {
            0
        };
        let prefix = inp.substring_char(0, front).to_owned();
        let suffix = inp.substring_char(num_chars - half, num_chars);
        let dots = get_string(DotDotDot, unicode);
        let s = prefix.concat(dots).concat(suffix);
        assert(inp@.subrange(0, front as int) =~= inp@.take(front as int));
        assert(inp@.subrange((num_chars - half) as int, num_chars as int) =~= inp@.skip(
            (num_chars - half) as int,
        ));
        s
    }
}

/// Shortens `inp` to fit the width of `area`.
pub fn trim_to_rect(inp: &str, area: Rect, unicode: bool) -> (s: String)
    requires
        inp@.len() > area.width ==> area.width >= 2,
    ensures
        s@ == trimmed(inp@, area.width as nat, unicode),
{
    trim_to_width(inp, area.width, unicode)
}

/// Trimming never makes a string longer than it was, and a trimmed string fits its width:
/// with the plain two-dot ellipsis it takes exactly `width` characters.
pub proof fn law_trimmed_fits(s: Seq<char>, width: nat)
    requires
        s.len() > width ==> width >= 2,
    ensures
        trimmed(s, width, false).len() == if s.len() <= width {
            s.len()
        } else {
            width
        },
        trimmed(s, width, true).len() <= width || s.len() <= width,
{
    reveal_strlit("..");
    reveal_strlit("\u{2026}");
}

/// Two shifts along the same axis make one shift by their sum, for an area whose size the
/// terminal library keeps as it is (at most `u16::MAX` cells).
pub proof fn law_increments_compose(a: u16, b: u16, axis: Axis, r: Rect)
    requires
        a + b <= u16::MAX,
        r.width * r.height <= u16::MAX,
        axis == Axis::X ==> r.x + r.width <= u16::MAX,
        axis == Axis::Y ==> r.y + r.height <= u16::MAX,
    ensures
        incremented(a, axis, incremented(b, axis, r)) == incremented((a + b) as u16, axis, r),
{
    let r1 = incremented(b, axis, r);
    let ob = clamped_offset(b, axis, r);
    let oab = clamped_offset((a + b) as u16, axis, r);
    match axis {
        Axis::X => {
            lemma_smaller_area(r.width, r.height, ob);
            lemma_smaller_area(r.width, r.height, oab);
            let oa = clamped_offset(a, axis, r1);
            lemma_smaller_area(r1.width, r1.height, oa);
        },
        Axis::Y => {
            assert(r.height * r.width <= u16::MAX) by (nonlinear_arith)
                requires
                    r.width * r.height <= u16::MAX,
            ;
            lemma_smaller_area(r.height, r.width, ob);
            lemma_smaller_area(r.height, r.width, oab);
            let oa = clamped_offset(a, axis, r1);
            lemma_smaller_area(r1.height, r1.width, oa);
        },
    }
}

} // verus!
