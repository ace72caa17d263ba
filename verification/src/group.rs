//! A group of widgets side by side along one direction: it splits its area among them, keeps
//! track of which one has the focus, moves the focus on clicks and on control and an arrow
//! key, and hands events to the focused widget.

use vstd::prelude::*;
use crate::events::{FocusEvent, KeyCode, KeyEvent, MouseEvent, WidgetEvent, CONTROL};
use crate::layout::{Constraint, Direction, Layout, is_split, split, splittable};
use crate::util::Rect;

verus! {

/// A widget as a group sees it: it takes an event, with the data widgets share, and says
/// whether it handled it.
pub trait Widget<D> {
    fn update(&mut self, event: WidgetEvent, data: &mut D) -> bool;
}

/// A widget in a group, with the share of the area it asks for and the area it last got.
pub struct Child<W> {
    pub widget: W,
    pub constraint: Constraint,
    pub area: Rect,
}

/// Widgets side by side along one direction.
pub struct Widgets<W> {
    children: Vec<Child<W>>,
    layout: Layout,
    areas_valid: bool,
    focused: Option<usize>,
    previously_focused: Option<usize>,
    /// Every event the group has handed to one of its widgets, in order.
    hand_offs: Ghost<Seq<HandOff>>,
}

/// An event the group handed to one of its widgets, and the widget's answer.
pub struct HandOff {
    pub child: usize,
    pub event: WidgetEvent,
    pub answer: bool,
}

/// Whether `h` handed event `e` to widget `k`.
pub open spec fn handed(h: HandOff, k: usize, e: WidgetEvent) -> bool {
    h.child == k && h.event == e
}

/// Whether `after` is `before` with more hand-offs at its end.
pub open spec fn extends(before: Seq<HandOff>, after: Seq<HandOff>) -> bool {
    before.len() <= after.len() && after.take(before.len() as int) == before
}

/// The hand-offs `after` holds past those of `before`.
pub open spec fn added(before: Seq<HandOff>, after: Seq<HandOff>) -> Seq<HandOff> {
    after.skip(before.len() as int)
}

/// Whether any hand-off of `log` was taken.
pub open spec fn any_answer(log: Seq<HandOff>) -> bool
    decreases log.len(),
{
    if log.len() == 0 {
        false
    } else {
        any_answer(log.drop_last()) || log.last().answer
    }
}

/// `log` hands event `e` to each of the first `n` widgets in order, and `b` says whether any
/// of them took it.
pub open spec fn broadcast(log: Seq<HandOff>, e: WidgetEvent, n: nat, b: bool) -> bool {
    &&& log.len() == n
    &&& forall|i: int| 0 <= i < n ==> #[trigger] handed(log[i], i as usize, e)
    &&& b == any_answer(log)
}

/// `log` hands event `e` to the focused widget, if there is one, and nothing else; `answer`
/// is that widget's answer, or false when no widget is focused.
pub open spec fn forwarded(log: Seq<HandOff>, focused: Option<usize>, e: WidgetEvent, answer: bool) -> bool {
    match focused {
        Some(k) => log.len() == 1 && handed(log[0], k, e) && answer == log[0].answer,
        None => log.len() == 0 && !answer,
    }
}

/// The search for the next widget to take the focus, from widget `from`, offering it first
/// to widget `n` and going on one step at a time (down when `back`) while widgets refuse it:
/// each widget offered the focus gets `GotFocus`, and one that refuses then gets `LostFocus`.
/// When one takes it, `from` gets `LostFocus`, the focus goes to the new widget and the key is
/// handed to it, whose answer is `b`. When the widgets run out, nothing more is handed, the
/// focus stays on `from` and `b` is false.
pub open spec fn seek_ok(
    log: Seq<HandOff>,
    n: int,
    back: bool,
    len: nat,
    from: usize,
    key: KeyEvent,
    focused: Option<usize>,
    b: bool,
) -> bool
    decreases (if back {
        n + 1
    } else {
        len - n
    }),
{
    if n < 0 || n >= len {
        log.len() == 0 && focused == Some(from) && !b
    } else if log.len() >= 1 && log[0].answer {
        &&& log.len() == 3
        &&& handed(log[0], n as usize, WidgetEvent::Focus(FocusEvent::GotFocus))
        &&& handed(log[1], from, WidgetEvent::Focus(FocusEvent::LostFocus))
        &&& handed(log[2], n as usize, WidgetEvent::Key(key))
        &&& b == log[2].answer
        &&& focused == Some(n as usize)
    } else {
        &&& log.len() >= 2
        &&& handed(log[0], n as usize, WidgetEvent::Focus(FocusEvent::GotFocus))
        &&& handed(log[1], n as usize, WidgetEvent::Focus(FocusEvent::LostFocus))
        &&& seek_ok(log.skip(2), if back { n - 1 } else { n + 1 }, back, len, from, key, focused, b)
    }
}

/// A focus key along the group: the focused widget gets it first; if it does not take it,
/// the focus is offered to the widgets that way in turn, as `seek_ok` says. With no widget
/// focused nothing is handed and the key is not taken.
pub open spec fn focus_key_ok(
    log: Seq<HandOff>,
    focused: Option<usize>,
    back: bool,
    len: nat,
    key: KeyEvent,
    new_focused: Option<usize>,
    b: bool,
) -> bool {
    match focused {
        None => log.len() == 0 && !b && new_focused is None,
        Some(f) => {
            &&& log.len() >= 1
            &&& handed(log[0], f, WidgetEvent::Key(key))
            &&& if log[0].answer {
                log.len() == 1 && b && new_focused == Some(f)
            } else {
                seek_ok(
                    log.skip(1),
                    if back { f - 1 } else { f + 1 },
                    back,
                    len,
                    f,
                    key,
                    new_focused,
                    b,
                )
            }
        },
    }
}

/// `log` hands event `e` to the focused widget, if there is one, and nothing else.
pub open spec fn given(log: Seq<HandOff>, focused: Option<usize>, e: WidgetEvent) -> bool {
    match focused {
        Some(k) => log.len() == 1 && handed(log[0], k, e),
        None => log.len() == 0,
    }
}

/// Hand-offs that extend others, extended in turn, extend them: the hand-offs added are
/// those added first, then those added next.
proof fn lemma_extends_trans(a: Seq<HandOff>, b: Seq<HandOff>, c: Seq<HandOff>)
    requires
        extends(a, b),
        extends(b, c),
    ensures
        extends(a, c),
        added(a, c) == added(a, b) + added(b, c),
{
    assert(c.take(a.len() as int) =~= b.take(a.len() as int));
    assert(added(a, c) =~= added(a, b) + added(b, c));
}

/// A click or release on widget `n`, which did not have the focus: the focused widget, if
/// any, gets `LostFocus`, then `n` gets `GotFocus` and the event, whose answer is `b`.
pub open spec fn clicked(log: Seq<HandOff>, focused: Option<usize>, n: usize, e: WidgetEvent, b: bool) -> bool {
    match focused {
        Some(f) => {
            &&& log.len() == 3
            &&& handed(log[0], f, WidgetEvent::Focus(FocusEvent::LostFocus))
            &&& handed(log[1], n, WidgetEvent::Focus(FocusEvent::GotFocus))
            &&& handed(log[2], n, e)
            &&& b == log[2].answer
        },
        None => {
            &&& log.len() == 2
            &&& handed(log[0], n, WidgetEvent::Focus(FocusEvent::GotFocus))
            &&& handed(log[1], n, e)
            &&& b == log[1].answer
        },
    }
}

/// The four focus keys: control and an arrow.
pub open spec fn is_focus_key(k: KeyEvent) -> bool {
    k.modifiers == CONTROL && (k.code == KeyCode::Up || k.code == KeyCode::Down || k.code
        == KeyCode::Left || k.code == KeyCode::Right)
}

/// A key pressed with control.
pub fn with_control(code: KeyCode) -> (k: KeyEvent)
    ensures
        k == (KeyEvent { code, modifiers: CONTROL }),
{
    KeyEvent { code, modifiers: CONTROL }
}

/// Whether a focus key moves along the direction of the group.
pub open spec fn along(direction: Direction, k: KeyEvent) -> bool {
    match direction {
        Direction::Vertical => k.code == KeyCode::Up || k.code == KeyCode::Down,
        Direction::Horizontal => k.code == KeyCode::Left || k.code == KeyCode::Right,
    }
}

/// Whether a focus key moves back (up or left) rather than forward.
pub open spec fn backwards(k: KeyEvent) -> bool {
    k.code == KeyCode::Up || k.code == KeyCode::Left
}

/// Whether a cell lies in a rectangle, its right and bottom edges included.
pub open spec fn in_rect(r: Rect, col: u16, row: u16) -> bool {
    r.x <= col <= r.x + r.width && r.y <= row <= r.y + r.height
}

/// The first of the areas from `i` on that holds the cell.
pub open spec fn first_hit(areas: Seq<Rect>, col: u16, row: u16, i: nat) -> Option<usize>
    decreases areas.len() - i,
{
    if i >= areas.len() {
        None
    } else if in_rect(areas[i as int], col, row) {
        Some(i as usize)
    } else {
        first_hit(areas, col, row, i + 1)
    }
}

/// Whether every area has its right and bottom edges in the coordinate range.
pub open spec fn areas_fit(areas: Seq<Rect>) -> bool {
    forall|i: int|
        0 <= i < areas.len() ==> #[trigger] areas[i].x + areas[i].width <= u16::MAX && areas[i].y
            + areas[i].height <= u16::MAX
}

/// The focus a group takes when it gets the focus: the widget focused before, or the first.
pub open spec fn focus_on_entry(len: nat, previously_focused: Option<usize>) -> Option<usize> {
    if len == 0 {
        None
    } else {
        match previously_focused {
            Some(i) => Some(i),
            None => Some(0usize),
        }
    }
}

/// The focus a group remembers when it loses the focus: the widget that had it, if any, or
/// the one remembered before.
pub open spec fn remembered(focused: Option<usize>, previously_focused: Option<usize>) -> Option<usize> {
    if focused is Some {
        focused
    } else {
        previously_focused
    }
}

/// Where a focus key may move the focus from `from`: nowhere, or to a widget of the group
/// further back (up or left) or further forward (down or right), as the key says.
pub open spec fn moved_along(from: Option<usize>, to: Option<usize>, back: bool, len: nat) -> bool {
    to == from || match (from, to) {
        (Some(f), Some(t)) => t < len && (if back {
            t < f
        } else {
            t > f
        }),
        _ => false,
    }
}

/// A click or release at a cell.
pub open spec fn click_at(e: WidgetEvent) -> Option<(u16, u16)> {
    match e {
        WidgetEvent::Mouse(MouseEvent::Down(_, col, row, _)) => Some((col, row)),
        WidgetEvent::Mouse(MouseEvent::Up(_, col, row, _)) => Some((col, row)),
        _ => None,
    }
}

proof fn lemma_first_hit_bound(areas: Seq<Rect>, col: u16, row: u16, i: nat)
    requires
        areas.len() <= usize::MAX,
    ensures
        first_hit(areas, col, row, i) matches Some(k) ==> i <= k < areas.len() && in_rect(
            areas[k as int],
            col,
            row,
        ),
    decreases areas.len() - i,
{
    if i < areas.len() && !in_rect(areas[i as int], col, row) {
        lemma_first_hit_bound(areas, col, row, i + 1);
    }
}

impl<W> Widgets<W> {
    /// The number of widgets.
    pub closed spec fn len(&self) -> nat {
        self.children@.len()
    }

    /// The widgets, in order.
    pub closed spec fn members(&self) -> Seq<W> {
        self.children@.map_values(|c: Child<W>| c.widget)
    }

    /// The areas the widgets last got.
    pub closed spec fn areas(&self) -> Seq<Rect> {
        self.children@.map_values(|c: Child<W>| c.area)
    }

    /// The shares the widgets ask for.
    pub closed spec fn constraints(&self) -> Seq<Constraint> {
        self.children@.map_values(|c: Child<W>| c.constraint)
    }

    /// How the group splits its area.
    pub closed spec fn layout_view(&self) -> Layout {
        self.layout
    }

    /// Whether the areas are those of the last split.
    pub closed spec fn areas_valid(&self) -> bool {
        self.areas_valid
    }

    /// The widget that has the focus.
    pub closed spec fn focused(&self) -> Option<usize> {
        self.focused
    }

    /// The widget that had the focus when the group last lost it.
    pub closed spec fn previously_focused(&self) -> Option<usize> {
        self.previously_focused
    }

    /// Every event the group has handed to one of its widgets, in order, with the answers.
    pub closed spec fn hand_offs(&self) -> Seq<HandOff> {
        self.hand_offs@
    }

    /// The focus marks name widgets of the group.
    pub open spec fn wf(&self) -> bool {
        &&& (self.focused() matches Some(i) ==> i < self.len())
        &&& (self.previously_focused() matches Some(i) ==> i < self.len())
    }

    /// An empty group that splits its area as `layout` says.
    pub fn new(layout: Layout) -> (g: Widgets<W>)
        ensures
            g.wf(),
            g.len() == 0,
            g.members() == Seq::<W>::empty(),
            g.layout_view() == layout,
            !g.areas_valid(),
            g.focused() is None,
            g.previously_focused() is None,
            g.hand_offs() == Seq::<HandOff>::empty(),
    {
        Widgets {
            children: Vec::new(),
            layout,
            areas_valid: false,
            focused: None,
            previously_focused: None,
            hand_offs: Ghost(Seq::empty()),
        }
    }

    /// Adds a widget at the end, asking for a share of the area; the areas are to be split
    /// again.
    pub fn add_widget(&mut self, constraint: Constraint, widget: W)
        requires
            old(self).wf(),
        ensures
            final(self).wf(),
            final(self).len() == old(self).len() + 1,
            final(self).members() == old(self).members().push(widget),
            final(self).constraints() == old(self).constraints().push(constraint),
            final(self).areas() == old(self).areas().push(Rect { x: 0, y: 0, width: 0, height: 0 }),
            !final(self).areas_valid(),
            final(self).layout_view() == old(self).layout_view(),
            final(self).focused() == old(self).focused(),
            final(self).previously_focused() == old(self).previously_focused(),
            final(self).hand_offs() == old(self).hand_offs(),
    {
        self.children.push(
            Child { widget, constraint, area: Rect { x: 0, y: 0, width: 0, height: 0 } },
        );
        self.areas_valid = false;
        assert(self.constraints() =~= old(self).constraints().push(constraint));
        assert(self.members() =~= old(self).members().push(widget));
        assert(self.areas() =~= old(self).areas().push(Rect { x: 0, y: 0, width: 0, height: 0 }));
    }

    /// The widget that has the focus.
    pub fn focused_index(&self) -> (r: Option<usize>)
        ensures
            r == self.focused(),
    {
        self.focused
    }

    /// The number of widgets.
    pub fn widget_count(&self) -> (n: usize)
        ensures
            n == self.len(),
    {
        self.children.len()
    }

    /// The widget at `idx`.
    pub fn widget(&self, idx: usize) -> (w: &W)
        requires
            idx < self.len(),
        ensures
            *w == self.members()[idx as int],
    {
        &self.children[idx].widget
    }

    /// The widget at `idx`, to change; the group's areas and focus stay as they are.
    pub fn widget_mut(&mut self, idx: usize) -> (w: &mut W)
        requires
            idx < old(self).len(),
        ensures
            *w == old(self).members()[idx as int],
            final(self).members() == old(self).members().update(idx as int, *final(w)),
            final(self).len() == old(self).len(),
            final(self).areas() == old(self).areas(),
            final(self).constraints() == old(self).constraints(),
            final(self).layout_view() == old(self).layout_view(),
            final(self).areas_valid() == old(self).areas_valid(),
            final(self).focused() == old(self).focused(),
            final(self).previously_focused() == old(self).previously_focused(),
            final(self).hand_offs() == old(self).hand_offs(),
    {
        &mut self.children[idx].widget
    }

    /// Whether the areas the widgets last got have their edges in the coordinate range.
    pub fn check_areas_fit(&self) -> (b: bool)
        ensures
            b == areas_fit(self.areas()),
    {
        let mut i: usize = 0;
        while i < self.children.len()
            invariant
                i <= self.children.len(),
                forall|j: int| 0 <= j < i ==> #[trigger] self.areas()[j].x + self.areas()[j].width
                    <= u16::MAX && self.areas()[j].y + self.areas()[j].height <= u16::MAX,
            decreases self.children.len() - i,
        {
            let a = self.children[i].area;
            if a.x as u32 + a.width as u32 > 65535 || a.y as u32 + a.height as u32 > 65535 {
                assert(self.areas()[i as int] == a);
                return false;
            }
            i = i + 1;
        }
        true
    }

    /// Splits `area` among the widgets, unless the areas are still those of the last split.
    pub fn update_areas(&mut self, area: Rect)
        requires
            old(self).wf(),
            !old(self).areas_valid() ==> splittable(old(self).layout_view(), old(self).constraints(), area),
        ensures
            final(self).wf(),
            final(self).areas_valid(),
            final(self).len() == old(self).len(),
            final(self).members() == old(self).members(),
            final(self).hand_offs() == old(self).hand_offs(),
            final(self).constraints() == old(self).constraints(),
            final(self).layout_view() == old(self).layout_view(),
            final(self).focused() == old(self).focused(),
            final(self).previously_focused() == old(self).previously_focused(),
            old(self).areas_valid() ==> final(self).areas() == old(self).areas(),
            !old(self).areas_valid() ==> is_split(
                old(self).layout_view(),
                old(self).constraints(),
                area,
                final(self).areas(),
            ),
    {
        if !self.areas_valid {
            let mut constraints: Vec<Constraint> = Vec::new();
            let mut i: usize = 0;
            while i < self.children.len()
                invariant
                    i <= self.children.len(),
                    constraints@ == self.constraints().take(i as int),
                decreases self.children.len() - i,
            {
                constraints.push(self.children[i].constraint);
                assert(constraints@ =~= self.constraints().take(i + 1));
                i = i + 1;
            }
            assert(constraints@ =~= self.constraints());
            let rects = split(self.layout, &constraints, area);
            let ghost before = self.children@;
            let mut j: usize = 0;
            while j < rects.len()
                invariant
                    j <= rects.len(),
                    rects.len() == self.children.len(),
                    self.children.len() == before.len(),
                    self.wf(),
                    self.focused == old(self).focused,
                    self.previously_focused == old(self).previously_focused,
                    self.layout == old(self).layout,
                    self.hand_offs == old(self).hand_offs,
                    forall|k: int| 0 <= k < before.len() ==> #[trigger] self.children@[k].constraint == before[k].constraint,
                    forall|k: int| 0 <= k < before.len() ==> #[trigger] self.children@[k].widget == before[k].widget,
                    forall|k: int| 0 <= k < j ==> #[trigger] self.children@[k].area == rects@[k],
                decreases rects.len() - j,
            {
                self.children[j].area = rects[j];
                j = j + 1;
            }
            self.areas_valid = true;
            assert(self.constraints() =~= old(self).constraints());
            assert(self.members() =~= old(self).members());
            assert(self.areas() =~= rects@);
        }
    }

    /// Hands an event to every widget, in order; says whether any handled it.
    fn propagate_to_all<D>(&mut self, event: WidgetEvent, data: &mut D) -> (b: bool) where W: Widget<D>
        requires
            old(self).wf(),
        ensures
            final(self).wf(),
            final(self).len() == old(self).len(),
            final(self).areas() == old(self).areas(),
            final(self).constraints() == old(self).constraints(),
            final(self).layout_view() == old(self).layout_view(),
            final(self).areas_valid() == old(self).areas_valid(),
            final(self).focused() == old(self).focused(),
            final(self).previously_focused() == old(self).previously_focused(),
            extends(old(self).hand_offs(), final(self).hand_offs()),
            broadcast(added(old(self).hand_offs(), final(self).hand_offs()), event, old(self).len(), b),
            old(self).len() == 0 ==> !b,
    {
        let mut handled = false;
        let mut i: usize = 0;
        assert(self.hand_offs().take(old(self).hand_offs().len() as int) =~= old(self).hand_offs());
        assert(added(old(self).hand_offs(), self.hand_offs()) =~= Seq::<HandOff>::empty());
        while i < self.children.len()
            invariant
                i <= self.children.len(),
                self.wf(),
                self.len() == old(self).len(),
                self.areas() == old(self).areas(),
                self.constraints() == old(self).constraints(),
                self.layout == old(self).layout,
                self.areas_valid == old(self).areas_valid,
                self.focused == old(self).focused,
                self.previously_focused == old(self).previously_focused,
                extends(old(self).hand_offs(), self.hand_offs()),
                broadcast(added(old(self).hand_offs(), self.hand_offs()), event, i as nat, handled),
            decreases self.children.len() - i,
        {
            let ghost before = self.hand_offs();
            let r = self.update_child(i, event, data);
            proof {
                let a0 = added(old(self).hand_offs(), before);
                let a1 = added(old(self).hand_offs(), self.hand_offs());
                assert(a1 =~= a0.push(HandOff { child: i, event, answer: r }));
                assert(a1.drop_last() =~= a0);
                assert(self.hand_offs().take(old(self).hand_offs().len() as int) =~= old(self).hand_offs());
                assert forall|k: int| 0 <= k < i + 1 implies #[trigger] handed(a1[k], k as usize, event) by {
                    if k < i {
                        assert(handed(a0[k], k as usize, event));
                    }
                }
            }
            handled = handled || r;
            i = i + 1;
        }
        handled
    }

    /// Hands an event to the focused widget and says whether it handled it; with no widget
    /// focused, nothing handles it.
    fn propagate_to_focused<D>(&mut self, event: WidgetEvent, data: &mut D) -> (b: bool) where W: Widget<D>
        requires
            old(self).wf(),
        ensures
            final(self).wf(),
            final(self).len() == old(self).len(),
            final(self).areas() == old(self).areas(),
            final(self).constraints() == old(self).constraints(),
            final(self).layout_view() == old(self).layout_view(),
            final(self).areas_valid() == old(self).areas_valid(),
            final(self).focused() == old(self).focused(),
            final(self).previously_focused() == old(self).previously_focused(),
            extends(old(self).hand_offs(), final(self).hand_offs()),
            forwarded(added(old(self).hand_offs(), final(self).hand_offs()), old(self).focused(), event, b),
            old(self).focused() is None ==> !b,
    {
        match self.focused {
            Some(idx) => self.update_child(idx, event, data),
            None => {
                assert(added(old(self).hand_offs(), self.hand_offs()) =~= Seq::<HandOff>::empty());
                assert(self.hand_offs().take(old(self).hand_offs().len() as int) =~= old(self).hand_offs());
                false
            },
        }
    }

    /// Hands an event to one widget, and gives its answer; the hand-off is recorded.
    fn update_child<D>(&mut self, idx: usize, event: WidgetEvent, data: &mut D) -> (b: bool) where W: Widget<D>
        requires
            old(self).wf(),
            idx < old(self).len(),
        ensures
            final(self).wf(),
            final(self).len() == old(self).len(),
            final(self).areas() == old(self).areas(),
            final(self).constraints() == old(self).constraints(),
            final(self).layout_view() == old(self).layout_view(),
            final(self).areas_valid() == old(self).areas_valid(),
            final(self).focused() == old(self).focused(),
            final(self).previously_focused() == old(self).previously_focused(),
            final(self).hand_offs() == old(self).hand_offs().push(HandOff { child: idx, event, answer: b }),
            extends(old(self).hand_offs(), final(self).hand_offs()),
            added(old(self).hand_offs(), final(self).hand_offs()) == seq![HandOff { child: idx, event, answer: b }],
    {
        let r = self.children[idx].widget.update(event, data);
        proof {
            self.hand_offs@ = self.hand_offs@.push(HandOff { child: idx, event, answer: r });
        }
        assert(self.areas() =~= old(self).areas());
        assert(self.constraints() =~= old(self).constraints());
        assert(self.hand_offs().take(old(self).hand_offs().len() as int) =~= old(self).hand_offs());
        assert(added(old(self).hand_offs(), self.hand_offs()) =~= seq![HandOff { child: idx, event, answer: r }]);
        r
    }

    /// Offers the focus to widget `cand` (none when it is past either end) and on, one step at
    /// a time, as `seek_ok` says; the focus moves from widget `from` to the first that takes
    /// it, which gets the key.
    fn seek_focus<D>(
        &mut self,
        cand: Option<usize>,
        back: bool,
        from: usize,
        key: KeyEvent,
        len: usize,
        data: &mut D,
    ) -> (b: bool) where W: Widget<D>
        requires
            old(self).wf(),
            len == old(self).len(),
            from < len,
            old(self).focused() == Some(from),
            cand matches Some(c) ==> (if back { c < from } else { c > from }),
        ensures
            final(self).wf(),
            final(self).len() == old(self).len(),
            final(self).areas() == old(self).areas(),
            final(self).constraints() == old(self).constraints(),
            final(self).layout_view() == old(self).layout_view(),
            final(self).areas_valid() == old(self).areas_valid(),
            final(self).previously_focused() == old(self).previously_focused(),
            extends(old(self).hand_offs(), final(self).hand_offs()),
            seek_ok(
                added(old(self).hand_offs(), final(self).hand_offs()),
                match cand {
                    Some(c) => c as int,
                    None => -1,
                },
                back,
                len as nat,
                from,
                key,
                final(self).focused(),
                b,
            ),
            moved_along(old(self).focused(), final(self).focused(), back, old(self).len()),
        decreases (match cand {
            Some(c) => if back {
                c + 1
            } else {
                len - c
            },
            None => 0,
        }),
    {
        let n = match cand {
            Some(n) => n,
            None => {
                assert(added(old(self).hand_offs(), self.hand_offs()) =~= Seq::<HandOff>::empty());
                assert(self.hand_offs().take(old(self).hand_offs().len() as int) =~= old(self).hand_offs());
                return false;
            },
        };
        if n >= len {
            assert(added(old(self).hand_offs(), self.hand_offs()) =~= Seq::<HandOff>::empty());
            assert(self.hand_offs().take(old(self).hand_offs().len() as int) =~= old(self).hand_offs());
            return false;
        }
        let ghost h0 = self.hand_offs();
        let accepted = self.update_child(n, WidgetEvent::Focus(FocusEvent::GotFocus), data);
        if accepted {
            self.update_child(from, WidgetEvent::Focus(FocusEvent::LostFocus), data);
            self.focused = Some(n);
            let r = self.update_child(n, WidgetEvent::Key(key), data);
            proof {
                let a = added(old(self).hand_offs(), self.hand_offs());
                assert(a =~= seq![
                    HandOff { child: n, event: WidgetEvent::Focus(FocusEvent::GotFocus), answer: true },
                    a[1],
                    HandOff { child: n, event: WidgetEvent::Key(key), answer: r },
                ]);
                assert(self.hand_offs().take(old(self).hand_offs().len() as int) =~= old(self).hand_offs());
            }
            r
        } else {
            self.update_child(n, WidgetEvent::Focus(FocusEvent::LostFocus), data);
            let ghost h1 = self.hand_offs();
            let next = if back {
                n.checked_sub(1)
            } else {
                n.checked_add(1)
            };
            let r = self.seek_focus(next, back, from, key, len, data);
            proof {
                let a = added(old(self).hand_offs(), self.hand_offs());
                let rest = added(h1, self.hand_offs());
                assert(self.hand_offs().take(h1.len() as int) =~= h1);
                assert(h1.len() == old(self).hand_offs().len() + 2);
                assert(a.skip(2) =~= rest);
                assert(a[0] == h1[old(self).hand_offs().len() as int]);
                assert(a[1] == h1[old(self).hand_offs().len() as int + 1]);
                assert(handed(a[1], n, WidgetEvent::Focus(FocusEvent::LostFocus)));
                assert(!a[0].answer);
                assert(self.hand_offs().take(old(self).hand_offs().len() as int) =~= old(self).hand_offs());
                let nxt: int = match next {
                    Some(c) => c as int,
                    None => -1,
                };
                assert(nxt == if back { n - 1 } else { n + 1 });
            }
            r
        }
    }

    /// Moves the focus on control and an arrow key. A key along the group first goes to the
    /// focused widget; if that does not handle it, the focus moves to the nearest widget that
    /// way that accepts it (the others are told they lost it), and the key goes to that widget.
    /// A key across the group goes to the focused widget only. With no widget focused nothing
    /// handles the key.
    fn handle_focus_key_event<D>(&mut self, event: KeyEvent, data: &mut D) -> (b: bool) where W: Widget<D>
        requires
            old(self).wf(),
            is_focus_key(event),
        ensures
            final(self).wf(),
            final(self).len() == old(self).len(),
            final(self).areas() == old(self).areas(),
            final(self).constraints() == old(self).constraints(),
            final(self).layout_view() == old(self).layout_view(),
            final(self).areas_valid() == old(self).areas_valid(),
            final(self).previously_focused() == old(self).previously_focused(),
            extends(old(self).hand_offs(), final(self).hand_offs()),
            along(old(self).layout_view().direction, event) ==> moved_along(
                old(self).focused(),
                final(self).focused(),
                backwards(event),
                old(self).len(),
            ),
            along(old(self).layout_view().direction, event) ==> focus_key_ok(
                added(old(self).hand_offs(), final(self).hand_offs()),
                old(self).focused(),
                backwards(event),
                old(self).len(),
                event,
                final(self).focused(),
                b,
            ),
            !along(old(self).layout_view().direction, event) ==> final(self).focused() == old(
                self,
            ).focused(),
            !along(old(self).layout_view().direction, event) ==> forwarded(
                added(old(self).hand_offs(), final(self).hand_offs()),
                old(self).focused(),
                WidgetEvent::Key(event),
                b,
            ),
            old(self).focused() is None ==> !b,
    {
        let is_along = match self.layout.direction {
            Direction::Vertical => event.code == KeyCode::Up || event.code == KeyCode::Down,
            Direction::Horizontal => event.code == KeyCode::Left || event.code == KeyCode::Right,
        };
        if !is_along {
            return self.propagate_to_focused(WidgetEvent::Key(event), data);
        }
        match self.focused {
            Some(f) => {
                let ghost h0 = self.hand_offs();
                let first = self.update_child(f, WidgetEvent::Key(event), data);
                if first {
                    assert(self.hand_offs().take(old(self).hand_offs().len() as int) =~= old(self).hand_offs());
                    return true;
                }
                let ghost h1 = self.hand_offs();
                let back = event.code == KeyCode::Up || event.code == KeyCode::Left;
                let len = self.children.len();
                let next = if back {
                    f.checked_sub(1)
                } else {
                    f.checked_add(1)
                };
                let r = self.seek_focus(next, back, f, event, len, data);
                proof {
                    let a = added(old(self).hand_offs(), self.hand_offs());
                    assert(self.hand_offs().take(h1.len() as int) =~= h1);
                    assert(a.skip(1) =~= added(h1, self.hand_offs()));
                    assert(a[0] == h1[old(self).hand_offs().len() as int]);
                    assert(self.hand_offs().take(old(self).hand_offs().len() as int) =~= old(self).hand_offs());
                    let nxt: int = match next {
                        Some(c) => c as int,
                        None => -1,
                    };
                    assert(nxt == if back { f - 1 } else { f + 1 });
                }
                r
            },
            None => {
                assert(added(old(self).hand_offs(), self.hand_offs()) =~= Seq::<HandOff>::empty());
                assert(self.hand_offs().take(old(self).hand_offs().len() as int) =~= old(self).hand_offs());
                false
            },
        }
    }

    /// The first widget whose area holds the cell.
    fn hit(&self, col: u16, row: u16) -> (r: Option<usize>)
        requires
            areas_fit(self.areas()),
        ensures
            r == first_hit(self.areas(), col, row, 0),
    {
        let mut i: usize = 0;
        while i < self.children.len()
            invariant
                i <= self.children.len(),
                areas_fit(self.areas()),
                first_hit(self.areas(), col, row, 0) == first_hit(self.areas(), col, row, i as nat),
            decreases self.children.len() - i,
        {
            let a = self.children[i].area;
            assert(self.areas()[i as int] == a);
            if a.contains(col, row) {
                return Some(i);
            }
            i = i + 1;
        }
        None
    }

    /// Handles an event: a resize makes the areas be split again and goes to every widget, as
    /// does a refresh; gaining the focus focuses the widget focused before (or the first);
    /// losing it remembers which one had it; a click or release focuses the widget under it
    /// (telling the old one it lost the focus and the new one it got it) and goes to it, or is
    /// dropped when no widget is under it; a drag is dropped; control and an arrow move the
    /// focus; everything else goes to the focused widget. Says whether the event was handled.
    pub fn update<D>(&mut self, event: WidgetEvent, data: &mut D) -> (b: bool) where W: Widget<D>
        requires
            old(self).wf(),
            click_at(event) is Some ==> areas_fit(old(self).areas()),
        ensures
            final(self).wf(),
            final(self).len() == old(self).len(),
            final(self).areas() == old(self).areas(),
            final(self).constraints() == old(self).constraints(),
            final(self).layout_view() == old(self).layout_view(),
            final(self).areas_valid() == (old(self).areas_valid() && !(event is Resize)),
            extends(old(self).hand_offs(), final(self).hand_offs()),
            ({
                let h = added(old(self).hand_offs(), final(self).hand_offs());
                match event {
                    WidgetEvent::Resize(_, _) | WidgetEvent::Update => broadcast(h, event, old(self).len(), b),
                    WidgetEvent::Focus(FocusEvent::GotFocus) => forwarded(
                        h,
                        focus_on_entry(old(self).len(), old(self).previously_focused()),
                        event,
                        b,
                    ),
                    WidgetEvent::Focus(FocusEvent::LostFocus) => given(h, old(self).focused(), event),
                    WidgetEvent::Mouse(MouseEvent::Drag(_, _, _, _)) => h.len() == 0,
                    WidgetEvent::Mouse(MouseEvent::Down(_, col, row, _)) | WidgetEvent::Mouse(
                        MouseEvent::Up(_, col, row, _),
                    ) => {
                        let n = first_hit(old(self).areas(), col, row, 0);
                        if n == old(self).focused() {
                            forwarded(h, old(self).focused(), event, b)
                        } else {
                            match n {
                                Some(k) => clicked(h, old(self).focused(), k, event, b),
                                None => h.len() == 0,
                            }
                        }
                    },
                    WidgetEvent::Key(k) => if is_focus_key(k) && along(old(self).layout_view().direction, k) {
                        focus_key_ok(
                            h,
                            old(self).focused(),
                            backwards(k),
                            old(self).len(),
                            k,
                            final(self).focused(),
                            b,
                        )
                    } else {
                        forwarded(h, old(self).focused(), event, b)
                    },
                    WidgetEvent::Mouse(_) => forwarded(h, old(self).focused(), event, b),
                }
            }),
            match event {
                WidgetEvent::Focus(FocusEvent::GotFocus) => {
                    &&& final(self).focused() == focus_on_entry(
                        old(self).len(),
                        old(self).previously_focused(),
                    )
                    &&& final(self).previously_focused() == old(self).previously_focused()
                    &&& old(self).len() == 0 ==> !b
                },
                WidgetEvent::Focus(FocusEvent::LostFocus) => {
                    &&& b
                    &&& final(self).focused() is None
                    &&& final(self).previously_focused() == remembered(
                        old(self).focused(),
                        old(self).previously_focused(),
                    )
                },
                WidgetEvent::Mouse(MouseEvent::Drag(_, _, _, _)) => {
                    &&& !b
                    &&& final(self).focused() == old(self).focused()
                    &&& final(self).previously_focused() == old(self).previously_focused()
                },
                WidgetEvent::Key(k) => {
                    &&& final(self).previously_focused() == old(self).previously_focused()
                    &&& old(self).focused() is None ==> !b
                    &&& if is_focus_key(k) && along(old(self).layout_view().direction, k) {
                        moved_along(old(self).focused(), final(self).focused(), backwards(k), old(self).len())
                    } else {
                        final(self).focused() == old(self).focused()
                    }
                },
                WidgetEvent::Mouse(MouseEvent::Down(_, col, row, _)) | WidgetEvent::Mouse(
                    MouseEvent::Up(_, col, row, _),
                ) => {
                    let h = first_hit(old(self).areas(), col, row, 0);
                    &&& final(self).previously_focused() == old(self).previously_focused()
                    &&& final(self).focused() == if h is Some {
                        h
                    } else {
                        old(self).focused()
                    }
                    &&& h is None ==> !b
                },
                WidgetEvent::Mouse(_) => {
                    &&& final(self).focused() == old(self).focused()
                    &&& final(self).previously_focused() == old(self).previously_focused()
                    &&& old(self).focused() is None ==> !b
                },
                _ => {
                    &&& final(self).focused() == old(self).focused()
                    &&& final(self).previously_focused() == old(self).previously_focused()
                },
            },
    {
        match event {
            WidgetEvent::Resize(_, _) => {
                self.areas_valid = false;
                self.propagate_to_all(event, data)
            },
            WidgetEvent::Update => self.propagate_to_all(event, data),
            WidgetEvent::Focus(FocusEvent::GotFocus) => {
                self.focused = if self.children.len() > 0 {
                    match self.previously_focused {
                        Some(i) => Some(i),
                        None => Some(0),
                    }
                } else {
                    None
                };
                self.propagate_to_focused(event, data)
            },
            WidgetEvent::Focus(FocusEvent::LostFocus) => {
                let _ = self.propagate_to_focused(event, data);
                match self.focused {
                    Some(idx) => {
                        self.focused = None;
                        self.previously_focused = Some(idx);
                    },
                    None => {},
                }
                true
            },
            WidgetEvent::Mouse(m) => match m {
                MouseEvent::Down(_, col, row, _) | MouseEvent::Up(_, col, row, _) => {
                    let new_focused = self.hit(col, row);
                    proof {
                        assert(self.areas().len() == self.children.len());
                        lemma_first_hit_bound(self.areas(), col, row, 0);
                    }
                    if self.focused == new_focused {
                        self.propagate_to_focused(event, data)
                    } else if new_focused.is_some() {
                        let ghost h0 = self.hand_offs();
                        let _ = self.propagate_to_focused(
                            WidgetEvent::Focus(FocusEvent::LostFocus),
                            data,
                        );
                        let ghost h1 = self.hand_offs();
                        self.focused = new_focused;
                        let _ = self.propagate_to_focused(
                            WidgetEvent::Focus(FocusEvent::GotFocus),
                            data,
                        );
                        let ghost h2 = self.hand_offs();
                        let r = self.propagate_to_focused(event, data);
                        proof {
                            lemma_extends_trans(h0, h1, h2);
                            lemma_extends_trans(h0, h2, self.hand_offs());
                            let a = added(h0, self.hand_offs());
                            assert(a =~= added(h0, h1) + added(h1, h2) + added(h2, self.hand_offs()));
                        }
                        r
                    } else {
                        assert(self.hand_offs().take(old(self).hand_offs().len() as int) =~= old(self).hand_offs());
                        assert(added(old(self).hand_offs(), self.hand_offs()) =~= Seq::<HandOff>::empty());
                        false
                    }
                },
                MouseEvent::Drag(_, _, _, _) => {
                    assert(self.hand_offs().take(old(self).hand_offs().len() as int) =~= old(self).hand_offs());
                    assert(added(old(self).hand_offs(), self.hand_offs()) =~= Seq::<HandOff>::empty());
                    false
                },
                MouseEvent::ScrollDown(_, _, _) | MouseEvent::ScrollUp(_, _, _) => {
                    self.propagate_to_focused(event, data)
                },
            },
            WidgetEvent::Key(k) => {
                let focus_key = k.modifiers == CONTROL && (k.code == KeyCode::Up || k.code
                    == KeyCode::Down || k.code == KeyCode::Left || k.code == KeyCode::Right);
                if focus_key {
                    self.handle_focus_key_event(k, data)
                } else {
                    self.propagate_to_focused(event, data)
                }
            },
        }
    }

    /// Splits `area` among the widgets if needed, and gives each widget's area and whether it
    /// has the focus, in order, for drawing.
    pub fn draw_plan(&mut self, area: Rect) -> (plan: Vec<(Rect, bool)>)
        requires
            old(self).wf(),
            !old(self).areas_valid() ==> splittable(old(self).layout_view(), old(self).constraints(), area),
        ensures
            final(self).wf(),
            final(self).areas_valid(),
            final(self).len() == old(self).len(),
            final(self).members() == old(self).members(),
            final(self).hand_offs() == old(self).hand_offs(),
            final(self).constraints() == old(self).constraints(),
            final(self).focused() == old(self).focused(),
            final(self).previously_focused() == old(self).previously_focused(),
            old(self).areas_valid() ==> final(self).areas() == old(self).areas(),
            !old(self).areas_valid() ==> is_split(
                old(self).layout_view(),
                old(self).constraints(),
                area,
                final(self).areas(),
            ),
            plan.len() == final(self).len(),
            forall|i: int|
                0 <= i < plan.len() ==> #[trigger] plan@[i] == (
                    final(self).areas()[i],
                    final(self).focused() == Some(i as usize),
                ),
    {
        self.update_areas(area);
        let mut plan: Vec<(Rect, bool)> = Vec::new();
        let mut i: usize = 0;
        while i < self.children.len()
            invariant
                i <= self.children.len(),
                plan.len() == i,
                forall|j: int|
                    0 <= j < i ==> #[trigger] plan@[j] == (
                        self.areas()[j],
                        self.focused() == Some(j as usize),
                    ),
            decreases self.children.len() - i,
        {
            let focused = match self.focused {
                Some(f) => f == i,
                None => false,
            };
            plan.push((self.children[i].area, focused));
            i = i + 1;
        }
        plan
    }
}

/// A group that loses the focus and gains it again gives it back to the widget that had it.
pub proof fn law_focus_returns(len: nat, focused: usize, previously_focused: Option<usize>)
    requires
        focused < len,
    ensures
        focus_on_entry(len, remembered(Some(focused), previously_focused)) == Some(focused),
{
}

} // verus!
