//! Splitting an area into parts along one direction, as the terminal library does it.

use vstd::prelude::*;
use crate::util::Rect;
use tui::layout::{Constraint as TuiC, Direction as TuiDir, Layout as TuiLayout, Rect as TuiRect};

verus! {

/// The direction along which an area is split.
#[derive(Debug, Clone, Copy, PartialEq, Eq, Structural)]
pub enum Direction {
    Horizontal,
    Vertical,
}

/// How much of the area one part asks for.
#[derive(Debug, Clone, Copy, PartialEq, Eq, Structural)]
pub enum Constraint {
    Percentage(u16),
    Ratio(u32, u32),
    Length(u16),
    Max(u16),
    Min(u16),
}

/// How an area is split: the direction, and the margins kept free on each side.
#[derive(Debug, Clone, Copy, PartialEq, Eq, Structural)]
pub struct Layout {
    pub direction: Direction,
    pub horizontal_margin: u16,
    pub vertical_margin: u16,
}

impl Layout {
    /// A split along a direction, with no margins.
    pub open spec fn new_spec(direction: Direction) -> Layout {
        Layout { direction, horizontal_margin: 0, vertical_margin: 0 }
    }

    /// A split along a direction, with no margins.
    pub fn new(direction: Direction) -> (l: Layout)
        ensures
            l == Layout::new_spec(direction),
    {
        Layout { direction, horizontal_margin: 0, vertical_margin: 0 }
    }
}

/// The extent of the area along the direction of the split.
pub open spec fn extent(direction: Direction, area: Rect) -> u16 {
    match direction {
        Direction::Horizontal => area.width,
        Direction::Vertical => area.height,
    }
}

/// The area left inside the margins: nothing when they do not fit.
pub open spec fn inner(area: Rect, horizontal: u16, vertical: u16) -> Rect {
    if area.width < 2 * horizontal || area.height < 2 * vertical {
        Rect { x: 0, y: 0, width: 0, height: 0 }
    } else {
        Rect {
            x: (area.x + horizontal) as u16,
            y: (area.y + vertical) as u16,
            width: (area.width - 2 * horizontal) as u16,
            height: (area.height - 2 * vertical) as u16,
        }
    }
}

/// The area `split` divides: the one inside the margins.
pub open spec fn dest_area(layout: Layout, area: Rect) -> Rect {
    inner(area, layout.horizontal_margin, layout.vertical_margin)
}

/// What the terminal library needs to split an area without overflow: the area and its
/// margins fit in the coordinate range, every percentage of the extent can be computed, and
/// no ratio divides by zero.
pub open spec fn splittable(layout: Layout, constraints: Seq<Constraint>, area: Rect) -> bool {
    &&& area.x + area.width <= u16::MAX
    &&& area.y + area.height <= u16::MAX
    &&& 2 * layout.horizontal_margin <= u16::MAX
    &&& 2 * layout.vertical_margin <= u16::MAX
    &&& forall|i: int|
        0 <= i < constraints.len() ==> (#[trigger] constraints[i] matches Constraint::Percentage(p)
            ==> p * extent(layout.direction, area) <= u16::MAX)
    &&& forall|i: int|
        0 <= i < constraints.len() ==> !(#[trigger] constraints[i] matches Constraint::Ratio(_, 0))
}

/// Whether a part reaches the far edge of `d` along the direction of the split, when it does
/// not start past it.
pub open spec fn reaches_far_edge(direction: Direction, d: Rect, p: Rect) -> bool {
    match direction {
        Direction::Vertical => p.y <= d.y + d.height ==> p.y + p.height == d.y + d.height,
        Direction::Horizontal => p.x <= d.x + d.width ==> p.x + p.width == d.x + d.width,
    }
}

/// Whether a part spans `d` across the direction of the split: same position and extent.
pub open spec fn spans_across(direction: Direction, d: Rect, p: Rect) -> bool {
    match direction {
        Direction::Vertical => p.x == d.x && p.width == d.width,
        Direction::Horizontal => p.y == d.y && p.height == d.height,
    }
}

/// Whether a part starts at the near edge of `d` along the direction of the split.
pub open spec fn starts_at_near_edge(direction: Direction, d: Rect, p: Rect) -> bool {
    match direction {
        Direction::Vertical => p.y == d.y,
        Direction::Horizontal => p.x == d.x,
    }
}

/// What every split the terminal library makes meets: one part for each constraint, each
/// spanning the area inside the margins across the split, the first starting at its near
/// edge and the last reaching its far edge.
pub open spec fn is_split(layout: Layout, constraints: Seq<Constraint>, area: Rect, parts: Seq<Rect>) -> bool {
    let d = dest_area(layout, area);
    &&& parts.len() == constraints.len()
    &&& forall|i: int| 0 <= i < parts.len() ==> #[trigger] spans_across(layout.direction, d, parts[i])
    &&& parts.len() > 0 ==> starts_at_near_edge(layout.direction, d, parts[0])
    &&& parts.len() > 0 ==> reaches_far_edge(layout.direction, d, parts.last())
}

/// Calls `tui::layout::Layout::split` with no margins. The terminal library's code makes one
/// part for each constraint. It requires of its constraint solver that every part keep the
/// area's position and extent across the split and that the first part start at the near
/// edge; these are whole numbers, which the solver meets exactly. It then stretches the last
/// part to the far edge of the area (by a subtraction in 16 bits, so only when the part does
/// not start past that edge). Where the parts between lie is left unsaid: the solver finds
/// them in floating point, and where several layouts meet the constraints equally well, which
/// one it picks may differ from one run to the next. The library builds each percentage by
/// multiplying it with the extent in 16 bits, the right and bottom edges of the area by adding
/// in 16 bits, and each ratio by dividing by its denominator: the contract leaves out the
/// inputs on which these overflow or divide by zero.
#[verifier::external_body]
fn split_raw(
    vertical: bool,
    constraints: &Vec<Constraint>,
    x: u16,
    y: u16,
    width: u16,
    height: u16,
) -> (parts: Vec<(u16, u16, u16, u16)>)
    requires
        x + width <= u16::MAX,
        y + height <= u16::MAX,
        forall|i: int|
            0 <= i < constraints.len() ==> (#[trigger] constraints[i] matches Constraint::Percentage(p)
                ==> p * (if vertical {
                height
            } else {
                width
            }) <= u16::MAX),
        forall|i: int|
            0 <= i < constraints.len() ==> !(#[trigger] constraints[i] matches Constraint::Ratio(_, 0)),
    ensures
        parts.len() == constraints.len(),
        forall|i: int|
            #![trigger parts@[i]]
            0 <= i < parts.len() ==> (if vertical {
                parts@[i].0 == x && parts@[i].2 == width
            } else {
                parts@[i].1 == y && parts@[i].3 == height
            }),
        constraints.len() > 0 ==> (if vertical {
            parts@[0].1 == y
        } else {
            parts@[0].0 == x
        }),
        constraints.len() > 0 && vertical ==> ({
            let l = parts@.last();
            l.1 <= y + height ==> l.1 + l.3 == y + height
        }),
        constraints.len() > 0 && !vertical ==> ({
            let l = parts@.last();
            l.0 <= x + width ==> l.0 + l.2 == x + width
        }),
{
    let d = if vertical { TuiDir::Vertical } else { TuiDir::Horizontal };
    let cs: Vec<TuiC> = constraints.iter().map(|c| match *c {
        Constraint::Percentage(p) => TuiC::Percentage(p),
        Constraint::Ratio(n, m) => TuiC::Ratio(n, m),
        Constraint::Length(l) => TuiC::Length(l),
        Constraint::Max(m) => TuiC::Max(m),
        Constraint::Min(m) => TuiC::Min(m),
    }).collect();
    let parts = TuiLayout::default().direction(d).constraints(cs).split(TuiRect { x, y, width, height });
    parts.iter().map(|p| (p.x, p.y, p.width, p.height)).collect()
}

/// Splits `area` as `layout` says, with one part for each constraint, the last reaching the
/// far edge of the area inside the margins.
pub fn split(layout: Layout, constraints: &Vec<Constraint>, area: Rect) -> (parts: Vec<Rect>)
    requires
        splittable(layout, constraints@, area),
    ensures
        is_split(layout, constraints@, area, parts@),
{
    let h = layout.horizontal_margin;
    let v = layout.vertical_margin;
    let d = if area.width < 2 * h || area.height < 2 * v {
        Rect { x: 0, y: 0, width: 0, height: 0 }
    } else {
        Rect { x: area.x + h, y: area.y + v, width: area.width - 2 * h, height: area.height - 2 * v }
    };
    assert(d == dest_area(layout, area));
    let vertical = match layout.direction {
        Direction::Vertical => true,
        Direction::Horizontal => false,
    };
    assert forall|i: int|
        0 <= i < constraints.len() implies (#[trigger] constraints@[i] matches Constraint::Percentage(p)
            ==> p * (if vertical {
            d.height
        } else {
            d.width
        }) <= u16::MAX) by {
        if let Constraint::Percentage(p) = constraints@[i] {
            assert(p * extent(layout.direction, area) <= u16::MAX);
            if vertical {
                assert(p * d.height <= p * area.height) by (nonlinear_arith)
                    requires
                        d.height <= area.height,
                ;
            } else {
                assert(p * d.width <= p * area.width) by (nonlinear_arith)
                    requires
                        d.width <= area.width,
                ;
            }
        }
    }
    let raw = split_raw(vertical, constraints, d.x, d.y, d.width, d.height);
    let mut parts: Vec<Rect> = Vec::new();
    let mut i: usize = 0;
    while i < raw.len()
        invariant
            i <= raw.len(),
            parts.len() == i,
            forall|j: int|
                0 <= j < i ==> #[trigger] parts@[j] == (Rect {
                    x: raw@[j].0,
                    y: raw@[j].1,
                    width: raw@[j].2,
                    height: raw@[j].3,
                }),
        decreases raw.len() - i,
    {
        let p = raw[i];
        parts.push(Rect { x: p.0, y: p.1, width: p.2, height: p.3 });
        i = i + 1;
    }
    parts
}

} // verus!
