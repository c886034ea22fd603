//! A widget's children: which of them is active, which are selected, how
//! they are drawn one below the other and which of them gets the input.

use vstd::prelude::*;

use crate::cues::Cues;
use crate::frame::{
    lemma_write_within_then, lemma_write_within_wider, write_within, CommandView, Frame,
};
use crate::helpers::action::Event;
use crate::helpers::{
    bounding, lemma_combined_of_stacked, lemma_ordered_is_disjoint, lemma_spanning_stacked,
    lemma_stacked_span, ordered,
    rows_disjoint, stacked, total_height, LayoutError, Rect, SelectionState,
};
use crate::traits::{
    keep_below, lemma_keep_below_both, lemma_keep_below_higher, Draw, Drawn, Handled, Input,
};

verus! {

/// A widget that can be the child of another.
pub trait Child: Draw + Input {

}

/// The state of a [`Children`]: the children's own states in order, the
/// index of the active child and the indices of the selected ones.
#[verifier::ext_equal]
pub ghost struct ChildrenView<V> {
    pub active: int,
    pub selected: Set<int>,
    pub children: Seq<V>,
}

/// What drawing all children yields: the rectangle each child consumed, in
/// order, and the commands of all of them.
#[verifier::ext_equal]
pub ghost struct DrawnAll {
    pub rects: Seq<Rect>,
    pub commands: Seq<CommandView>,
}

/// The emphasis of child `i` when its parent is drawn with `parent`.
///
/// Only an active parent shows which child is active and which are
/// selected; under any other parent every child is drawn without emphasis.
pub open spec fn child_state(
    active: int,
    selected: Set<int>,
    i: int,
    parent: SelectionState,
) -> SelectionState {
    if parent == SelectionState::Active {
        if i == active {
            SelectionState::Active
        } else if selected.contains(i) {
            SelectionState::Selected
        } else {
            SelectionState::Normal
        }
    } else {
        SelectionState::Normal
    }
}

/// The place at which child `i` is drawn when the children before it
/// consumed `rects` and the first child is drawn at `rect`.
pub open spec fn cursor_at(rects: Seq<Rect>, rect: Rect, i: int) -> Result<Rect, LayoutError> {
    if i == 0 {
        Ok(rect)
    } else {
        rects[i - 1].spec_next()
    }
}

/// The children of one widget, fixed in number at construction.
pub struct Children<C: Child> {
    active: usize,
    selected: Vec<usize>,
    children: Vec<Box<C>>,
}

impl<C: Child> View for Children<C> {
    type V = ChildrenView<C::V>;

    closed spec fn view(&self) -> ChildrenView<C::V> {
        ChildrenView {
            active: self.active as int,
            selected: Set::new(|k: int| self.selected@.contains(k as usize) && 0 <= k <= usize::MAX),
            children: Seq::new(self.children@.len(), |i: int| self.children@[i]@),
        }
    }
}

impl<C: Child> Children<C> {
    /// With children there is exactly one active child; without, the active
    /// index is 0. Only existing children are selected.
    #[verifier::type_invariant]
    spec fn inv(&self) -> bool {
        &&& self.children@.len() == 0 ==> self.active == 0
        &&& self.children@.len() > 0 ==> self.active < self.children@.len()
        &&& forall|j: int|
            0 <= j < self.selected@.len() ==> (#[trigger] self.selected@[j]) < self.children@.len()
    }

    /// What drawing the children from child `i` on yields, when child `i` is
    /// drawn at `rect` and each further child at the place past the
    /// rectangle its predecessor consumed.
    pub open spec fn drawn_from(
        model: ChildrenView<C::V>,
        i: int,
        rect: Rect,
        parent: SelectionState,
    ) -> Result<DrawnAll, LayoutError>
        decreases model.children.len() - i,
    {
        if i < 0 || i >= model.children.len() {
            Ok(DrawnAll { rects: Seq::empty(), commands: Seq::empty() })
        } else {
            match C::drawn(
                model.children[i],
                rect,
                child_state(model.active, model.selected, i, parent),
            ) {
                Err(e) => Err(e),
                Ok(d) => match d.rect.spec_next() {
                    Err(e) => Err(e),
                    Ok(below) => match Self::drawn_from(model, i + 1, below, parent) {
                        Err(e) => Err(e),
                        Ok(rest) => Ok(
                            DrawnAll {
                                rects: seq![d.rect] + rest.rects,
                                commands: d.commands + rest.commands,
                            },
                        ),
                    },
                },
            }
        }
    }

    /// What drawing all the children yields, the first of them at `rect`.
    pub open spec fn drawn(
        model: ChildrenView<C::V>,
        rect: Rect,
        parent: SelectionState,
    ) -> Result<DrawnAll, LayoutError> {
        Self::drawn_from(model, 0, rect, parent)
    }

    /// What routing `event` to the active child leads to. Without children
    /// nothing changes and the event is handed back.
    pub open spec fn routed(model: ChildrenView<C::V>, event: Event) -> Handled<ChildrenView<C::V>> {
        if 0 <= model.active < model.children.len() {
            let h = C::handled(model.children[model.active], event);
            Handled {
                after: ChildrenView {
                    active: model.active,
                    selected: model.selected,
                    children: model.children.update(model.active, h.after),
                },
                reply: h.reply,
                cues: h.cues,
            }
        } else {
            Handled { after: model, reply: Some(event), cues: Seq::empty() }
        }
    }

    /// Takes ownership of `children`. The first child is active and none is
    /// selected.
    pub fn new(children: Vec<Box<C>>) -> (r: Self)
        ensures
            r@.active == 0,
            r@.selected == Set::<int>::empty(),
            r@.children.len() == children@.len(),
            forall|i: int| 0 <= i < children@.len() ==> #[trigger] r@.children[i] == children@[i]@,
    {
        let r = Children { active: 0, selected: Vec::new(), children };
        assert(r@.selected =~= Set::<int>::empty());
        r
    }

    /// The number of children.
    pub fn len(&self) -> (n: usize)
        ensures
            n == self@.children.len(),
    {
        self.children.len()
    }

    /// Child `index`, if there is one.
    pub fn get(&self, index: usize) -> (r: Option<&C>)
        ensures
            index < self@.children.len() ==> (r matches Some(child) && child@
                == self@.children[index as int]),
            index >= self@.children.len() ==> r is None,
    {
        if index < self.children.len() {
            Some(&*self.children[index])
        } else {
            None
        }
    }

    /// The index of the active child, which is the index of a child
    /// whenever there are children.
    pub fn active_index(&self) -> (k: usize)
        ensures
            k == self@.active,
            self@.children.len() > 0 ==> k < self@.children.len(),
            self@.children.len() == 0 ==> k == 0,
    {
        proof {
            use_type_invariant(self);
        }
        self.active
    }

    /// Whether child `index` is selected.
    pub fn is_selected(&self, index: usize) -> (r: bool)
        ensures
            r == self@.selected.contains(index as int),
    {
        let mut j: usize = 0;
        while j < self.selected.len()
            invariant
                j <= self.selected@.len(),
                forall|k: int| 0 <= k < j ==> self.selected@[k] != index,
            decreases self.selected@.len() - j,
        {
            if self.selected[j] == index {
                return true;
            }
            j = j + 1;
        }
        false
    }

    /// The emphasis child `index` is drawn with when this widget is drawn
    /// with `parent`.
    pub fn emphasis(&self, index: usize, parent: SelectionState) -> (r: SelectionState)
        ensures
            r == child_state(self@.active, self@.selected, index as int, parent),
    {
        match parent {
            SelectionState::Active => {
                if index == self.active {
                    SelectionState::Active
                } else if self.is_selected(index) {
                    SelectionState::Selected
                } else {
                    SelectionState::Normal
                }
            },
            _ => SelectionState::Normal,
        }
    }

    /// Makes child `index` the active one. Returns `false`, and changes
    /// nothing, if there is no such child.
    pub fn set_active(&mut self, index: usize) -> (done: bool)
        ensures
            done == (index < old(self)@.children.len()),
            done ==> final(self)@ == (ChildrenView {
                active: index as int,
                selected: old(self)@.selected,
                children: old(self)@.children,
            }),
            !done ==> final(self)@ == old(self)@,
    {
        proof {
            use_type_invariant(&*self);
        }
        if index < self.children.len() {
            self.active = index;
            true
        } else {
            false
        }
    }

    /// Adds child `index` to the selected ones. Returns `false`, and changes
    /// nothing, if there is no such child.
    pub fn select(&mut self, index: usize) -> (done: bool)
        ensures
            done == (index < old(self)@.children.len()),
            done ==> final(self)@ == (ChildrenView {
                active: old(self)@.active,
                selected: old(self)@.selected.insert(index as int),
                children: old(self)@.children,
            }),
            !done ==> final(self)@ == old(self)@,
    {
        proof {
            use_type_invariant(&*self);
        }
        if index < self.children.len() {
            let mut selected: Vec<usize> = Vec::new();
            core::mem::swap(&mut self.selected, &mut selected);
            selected.push(index);
            self.selected = selected;
            assert(self@.selected =~= old(self)@.selected.insert(index as int)) by {
                assert forall|k: int| self@.selected.contains(k) <==> old(self)@.selected.insert(
                    index as int,
                ).contains(k) by {
                    if 0 <= k <= usize::MAX {
                        if old(self).selected@.contains(k as usize) {
                            let w = choose|w: int|
                                0 <= w < old(self).selected@.len() && old(self).selected@[w]
                                    == k as usize;
                            assert(self.selected@[w] == k as usize);
                        }
                        if k == index {
                            assert(self.selected@[self.selected@.len() - 1] == index);
                        }
                    }
                }
            }
            true
        } else {
            false
        }
    }

    /// Draws the children one below the other, the first at `rect`, and
    /// returns the rectangle each of them consumed, in order.
    ///
    /// Under an active parent the active child is drawn as active and the
    /// selected ones as selected; under any other parent all children are
    /// drawn without emphasis. Fails when a child fails or when the place
    /// past a child lies beyond the grid; the frame is then left as it was.
    pub fn draw(&self, rect: Rect, state: SelectionState, frame: &mut Frame) -> (r: Result<
        Vec<Rect>,
        LayoutError,
    >)
        ensures
            match Self::drawn(self@, rect, state) {
                Ok(all) => r matches Ok(rects) && rects@ == all.rects && final(frame)@ == old(
                    frame,
                )@ + all.commands,
                Err(e) => r matches Err(x) && x == e && final(frame)@ == old(frame)@,
            },
    {
        let mark = frame.len();
        let mut ret: Vec<Rect> = Vec::new();
        let mut cursor = rect;
        let mut i: usize = 0;
        while i < self.children.len()
            invariant
                i <= self.children@.len(),
                mark == old(frame)@.len(),
                mark <= frame@.len(),
                frame@.take(mark as int) == old(frame)@,
                match Self::drawn_from(self@, i as int, cursor, state) {
                    Ok(rest) => Self::drawn(self@, rect, state) == Ok::<DrawnAll, LayoutError>(
                        DrawnAll {
                            rects: ret@ + rest.rects,
                            commands: frame@.skip(mark as int) + rest.commands,
                        },
                    ),
                    Err(e) => Self::drawn(self@, rect, state) == Err::<DrawnAll, LayoutError>(e),
                },
            decreases self.children@.len() - i,
        {
            let emphasis = self.emphasis(i, state);
            let ghost before = frame@;
            let ghost earlier = ret@;
            let ghost first = C::drawn(self@.children[i as int], cursor, emphasis);
            match self.children[i].draw(cursor, emphasis, frame) {
                Err(e) => {
                    frame.rewind(mark);
                    return Err(e);
                },
                Ok(consumed) => {
                    ret.push(consumed);
                    match consumed.next() {
                        Err(e) => {
                            frame.rewind(mark);
                            return Err(e);
                        },
                        Ok(below) => {
                            proof {
                                let d = first->Ok_0;
                                assert(first is Ok);
                                assert(d.rect == consumed);
                                assert(frame@ == before + d.commands);
                                assert(frame@.skip(mark as int) =~= before.skip(mark as int)
                                    + d.commands);
                                assert(frame@.take(mark as int) =~= before.take(mark as int));
                                match Self::drawn_from(self@, i + 1, below, state) {
                                    Ok(rest) => {
                                        assert(Self::drawn_from(self@, i as int, cursor, state)
                                            == Ok::<DrawnAll, LayoutError>(
                                            DrawnAll {
                                                rects: seq![consumed] + rest.rects,
                                                commands: d.commands + rest.commands,
                                            },
                                        ));
                                        assert(earlier + (seq![consumed] + rest.rects) =~= ret@
                                            + rest.rects);
                                        assert(before.skip(mark as int) + (d.commands
                                            + rest.commands) =~= frame@.skip(mark as int)
                                            + rest.commands);
                                    },
                                    Err(e) => {
                                        assert(Self::drawn_from(self@, i as int, cursor, state)
                                            == Err::<DrawnAll, LayoutError>(e));
                                    },
                                }
                            }
                            cursor = below;
                        },
                    }
                },
            }
            i = i + 1;
        }
        proof {
            assert(ret@ + Seq::<Rect>::empty() =~= ret@);
            assert(frame@ =~= frame@.take(mark as int) + frame@.skip(mark as int));
            assert(frame@.skip(mark as int) + Seq::<CommandView>::empty() =~= frame@.skip(
                mark as int,
            ));
        }
        Ok(ret)
    }

    /// The active child, to hand it an event.
    pub fn active(&mut self) -> (r: &mut C)
        requires
            old(self)@.children.len() > 0,
        ensures
            r@ == old(self)@.children[old(self)@.active],
            final(self)@ == (ChildrenView {
                active: old(self)@.active,
                selected: old(self)@.selected,
                children: old(self)@.children.update(old(self)@.active, final(r)@),
            }),
    {
        proof {
            use_type_invariant(&*self);
        }
        let k = self.active;
        &mut *self.children[k]
    }

    /// Hands `event` to the active child and to no other. Without children
    /// nothing happens and the event is handed back.
    pub fn route_input(&mut self, event: Event, cues: &mut Cues) -> (r: Option<Event>)
        ensures
            final(self)@ == Self::routed(old(self)@, event).after,
            r == Self::routed(old(self)@, event).reply,
            final(cues)@ == old(cues)@ + Self::routed(old(self)@, event).cues,
    {
        proof {
            use_type_invariant(&*self);
        }
        if self.children.len() == 0 {
            assert(cues@ + Seq::<Seq<char>>::empty() =~= cues@);
            return Some(event);
        }
        self.active().handle_input(event, cues)
    }
}

/// Under an active parent exactly the active child is drawn as active,
/// every other selected child as selected, and the rest without emphasis.
pub proof fn lemma_active_parent_shows_selection(active: int, selected: Set<int>, i: int)
    ensures
        child_state(active, selected, i, SelectionState::Active) == SelectionState::Active <==> i
            == active,
        child_state(active, selected, i, SelectionState::Active) == SelectionState::Selected <==> i
            != active && selected.contains(i),
        child_state(active, selected, i, SelectionState::Active) == SelectionState::Normal <==> i
            != active && !selected.contains(i),
{
}

/// Under a parent that is not active every child is drawn without emphasis,
/// whichever child is active and whichever are selected.
pub proof fn lemma_other_parent_hides_selection(
    active: int,
    selected: Set<int>,
    i: int,
    parent: SelectionState,
)
    requires
        parent != SelectionState::Active,
    ensures
        child_state(active, selected, i, parent) == SelectionState::Normal,
{
}

impl<C: Child> Children<C> {
    /// Child `base + j` drawn with its emphasis, at `rect` if `j` is 0 and
    /// else at the place past `rects[j - 1]`, consumes `rects[j]`.
    pub open spec fn placed(
        model: ChildrenView<C::V>,
        base: int,
        rects: Seq<Rect>,
        rect: Rect,
        parent: SelectionState,
        j: int,
    ) -> bool {
        &&& cursor_at(rects, rect, j) is Ok
        &&& C::drawn(
            model.children[base + j],
            cursor_at(rects, rect, j)->Ok_0,
            child_state(model.active, model.selected, base + j, parent),
        ) matches Ok(d) && d.rect == rects[j]
    }

    /// Where drawing the children from child `i` on succeeds, there is one
    /// rectangle per child; each child was drawn with its emphasis at the
    /// place past its predecessor; the rectangles are stacked from the row
    /// of `rect` on and end on the grid; and no command puts the cursor on a
    /// row above that of `rect`.
    pub proof fn lemma_drawn_from(
        model: ChildrenView<C::V>,
        i: int,
        rect: Rect,
        parent: SelectionState,
    )
        requires
            0 <= i <= model.children.len(),
            Self::drawn_from(model, i, rect, parent) is Ok,
        ensures
            ({
                let all = Self::drawn_from(model, i, rect, parent)->Ok_0;
                &&& all.rects.len() == model.children.len() - i
                &&& forall|j: int|
                    0 <= j < all.rects.len() ==> #[trigger] Self::placed(
                        model,
                        i,
                        all.rects,
                        rect,
                        parent,
                        j,
                    )
                &&& stacked(all.rects)
                &&& ordered(all.rects)
                &&& all.rects.len() > 0 ==> all.rects.first().y == rect.y && all.rects.last().bottom()
                    <= u16::MAX
                &&& forall|j: int| 0 <= j < all.rects.len() ==> (#[trigger] all.rects[j]).y >= rect.y
                &&& keep_below(all.commands, rect.y as int)
            }),
        decreases model.children.len() - i,
    {
        if i < model.children.len() {
            let all = Self::drawn_from(model, i, rect, parent)->Ok_0;
            let emphasis = child_state(model.active, model.selected, i, parent);
            let d = C::drawn(model.children[i], rect, emphasis)->Ok_0;
            let below = d.rect.spec_next()->Ok_0;
            let rest = Self::drawn_from(model, i + 1, below, parent)->Ok_0;
            C::lemma_drawn_from_row(model.children[i], rect, emphasis);
            Self::lemma_drawn_from(model, i + 1, below, parent);
            assert(all.rects =~= seq![d.rect] + rest.rects);
            lemma_keep_below_higher(rest.commands, below.y as int, rect.y as int);
            lemma_keep_below_both(d.commands, rest.commands, rect.y as int);
            assert forall|j: int| 0 <= j < all.rects.len() implies #[trigger] Self::placed(
                model,
                i,
                all.rects,
                rect,
                parent,
                j,
            ) by {
                if j > 0 {
                    assert(Self::placed(model, i + 1, rest.rects, below, parent, j - 1));
                    assert(all.rects[j] == rest.rects[j - 1]);
                    if j > 1 {
                        assert(all.rects[j - 1] == rest.rects[j - 2]);
                    }
                }
            }
            assert forall|j: int| 0 <= j < all.rects.len() implies (#[trigger] all.rects[j]).y
                >= rect.y by {
                if j > 0 {
                    assert(all.rects[j] == rest.rects[j - 1]);
                }
            }
            assert forall|a: int, b: int| 0 <= a < b < all.rects.len() implies (
            #[trigger] all.rects[a]).bottom() <= (#[trigger] all.rects[b]).y by {
                assert(all.rects[b] == rest.rects[b - 1]);
                if a > 0 {
                    assert(all.rects[a] == rest.rects[a - 1]);
                }
            }
            assert forall|a: int, b: int| 0 <= a && b == a + 1 && b < all.rects.len() implies (
            #[trigger] all.rects[a]).bottom() == (#[trigger] all.rects[b]).y by {
                assert(all.rects[b] == rest.rects[b - 1]);
                if a > 0 {
                    assert(all.rects[a] == rest.rects[a - 1]);
                }
            }
            if rest.rects.len() > 0 {
                assert(all.rects.last() == rest.rects.last());
            }
        }
    }

    /// Children that are drawn from a rectangle of at least one row on write
    /// on no row but those from the first row of that rectangle through the
    /// last row of the last child's report.
    pub proof fn lemma_drawn_from_within(
        model: ChildrenView<C::V>,
        i: int,
        rect: Rect,
        parent: SelectionState,
    )
        requires
            0 <= i <= model.children.len(),
            rect.height >= 1,
            Self::drawn_from(model, i, rect, parent) is Ok,
        ensures
            ({
                let all = Self::drawn_from(model, i, rect, parent)->Ok_0;
                &&& all.rects.len() == 0 ==> all.commands.len() == 0
                &&& all.rects.len() > 0 ==> write_within(
                    all.commands,
                    None,
                    rect.y as int,
                    all.rects.last().bottom(),
                )
            }),
        decreases model.children.len() - i,
    {
        if i < model.children.len() {
            let all = Self::drawn_from(model, i, rect, parent)->Ok_0;
            let emphasis = child_state(model.active, model.selected, i, parent);
            let d = C::drawn(model.children[i], rect, emphasis)->Ok_0;
            let below = d.rect.spec_next()->Ok_0;
            let rest = Self::drawn_from(model, i + 1, below, parent)->Ok_0;
            let low = rect.y as int;
            C::lemma_drawn_from_row(model.children[i], rect, emphasis);
            C::lemma_drawn_within(model.children[i], rect, emphasis);
            Self::lemma_drawn_from(model, i + 1, below, parent);
            Self::lemma_drawn_from_within(model, i + 1, below, parent);
            assert(all.rects =~= seq![d.rect] + rest.rects);
            if rest.rects.len() == 0 {
                assert(all.commands =~= d.commands);
                assert(all.rects.last() == d.rect);
            } else {
                let high = rest.rects.last().bottom();
                assert(all.rects.last() == rest.rects.last());
                assert(rest.rects.first().y == below.y);
                assert(rest.rects.last().y >= below.y);
                lemma_write_within_wider(d.commands, None, low, d.rect.bottom(), low, high);
                lemma_write_within_wider(rest.commands, None, below.y as int, high, low, high);
                lemma_write_within_then(d.commands, rest.commands, None, low, high);
            }
        }
    }

    /// Where drawing all children succeeds, child `i` was drawn with the
    /// emphasis that [`child_state`] gives it, at `rect` if it is the first
    /// and else at the place past the rectangle of child `i - 1`, and its
    /// rectangle is the `i`-th of the result.
    pub proof fn lemma_draw_all_states(
        model: ChildrenView<C::V>,
        rect: Rect,
        parent: SelectionState,
        i: int,
    )
        requires
            Self::drawn(model, rect, parent) is Ok,
            0 <= i < model.children.len(),
        ensures
            ({
                let all = Self::drawn(model, rect, parent)->Ok_0;
                &&& all.rects.len() == model.children.len()
                &&& Self::placed(model, 0, all.rects, rect, parent, i)
            }),
    {
        Self::lemma_drawn_from(model, 0, rect, parent);
    }

    /// Where drawing all children succeeds, no two of the consumed
    /// rectangles share a row: each starts at or below the row on which its
    /// predecessor ends.
    pub proof fn lemma_siblings_do_not_overlap(
        model: ChildrenView<C::V>,
        rect: Rect,
        parent: SelectionState,
    )
        requires
            Self::drawn(model, rect, parent) is Ok,
        ensures
            ({
                let all = Self::drawn(model, rect, parent)->Ok_0;
                &&& ordered(all.rects)
                &&& forall|i: int, j: int|
                    0 <= i < j < all.rects.len() ==> rows_disjoint(
                        #[trigger] all.rects[i],
                        #[trigger] all.rects[j],
                    )
            }),
    {
        Self::lemma_drawn_from(model, 0, rect, parent);
        lemma_ordered_is_disjoint(Self::drawn(model, rect, parent)->Ok_0.rects);
    }

    /// The rectangles of a successful draw are stacked: the first starts on
    /// the row of `rect` and each further one on the row on which its
    /// predecessor ends. Merged, they give the origin and width of the first
    /// and the sum of all heights.
    pub proof fn lemma_children_are_stacked(
        model: ChildrenView<C::V>,
        rect: Rect,
        parent: SelectionState,
    )
        requires
            Self::drawn(model, rect, parent) is Ok,
        ensures
            ({
                let all = Self::drawn(model, rect, parent)->Ok_0;
                &&& stacked(all.rects)
                &&& all.rects.len() > 0 ==> all.rects.first().y == rect.y
                &&& all.rects.len() > 0 ==> bounding(all.rects) == Ok::<Option<Rect>, LayoutError>(
                    Some(
                        Rect {
                            x: all.rects.first().x,
                            y: rect.y,
                            width: all.rects.first().width,
                            height: total_height(all.rects) as u16,
                        },
                    ),
                )
            }),
    {
        Self::lemma_drawn_from(model, 0, rect, parent);
        let all = Self::drawn(model, rect, parent)->Ok_0;
        if all.rects.len() > 0 {
            lemma_combined_of_stacked(all.rects);
            lemma_stacked_span(all.rects, 0, all.rects.len() - 1);
            assert(all.rects.drop_last() =~= all.rects.subrange(0, all.rects.len() - 1));
        }
    }

    /// Where drawing all children from a rectangle of at least one row on
    /// succeeds, each child writes on no row but those of its own report.
    /// As no two reports share a row, no two children write on the same row.
    pub proof fn lemma_child_writes_on_its_rows(
        model: ChildrenView<C::V>,
        rect: Rect,
        parent: SelectionState,
        i: int,
    )
        requires
            Self::drawn(model, rect, parent) is Ok,
            rect.height >= 1,
            0 <= i < model.children.len(),
        ensures
            ({
                let all = Self::drawn(model, rect, parent)->Ok_0;
                let at = cursor_at(all.rects, rect, i)->Ok_0;
                let emphasis = child_state(model.active, model.selected, i, parent);
                &&& Self::placed(model, 0, all.rects, rect, parent, i)
                &&& write_within(
                    C::drawn(model.children[i], at, emphasis)->Ok_0.commands,
                    None,
                    all.rects[i].y as int,
                    all.rects[i].bottom(),
                )
            }),
    {
        Self::lemma_drawn_from(model, 0, rect, parent);
        let all = Self::drawn(model, rect, parent)->Ok_0;
        let at = cursor_at(all.rects, rect, i)->Ok_0;
        let emphasis = child_state(model.active, model.selected, i, parent);
        assert(Self::placed(model, 0, all.rects, rect, parent, i));
        C::lemma_drawn_within(model.children[i], at, emphasis);
        C::lemma_drawn_from_row(model.children[i], at, emphasis);
    }

    /// Where drawing all children from the row past a rectangle on succeeds,
    /// that rectangle can be extended through the last row of the last
    /// child's report.
    pub proof fn lemma_parent_extent_exists(
        model: ChildrenView<C::V>,
        over: Rect,
        rect: Rect,
        parent: SelectionState,
    )
        requires
            Self::drawn(model, rect, parent) is Ok,
            rect.y == over.bottom(),
        ensures
            over.spec_spanning(Self::drawn(model, rect, parent)->Ok_0.rects) is Ok,
    {
        Self::lemma_drawn_from(model, 0, rect, parent);
        let all = Self::drawn(model, rect, parent)->Ok_0;
        if all.rects.len() > 0 {
            lemma_spanning_stacked(over, all.rects);
        }
    }

    /// Routing an event changes no child but the active one, and moves
    /// neither the active index nor the selection.
    pub proof fn lemma_route_touches_active_only(model: ChildrenView<C::V>, event: Event, i: int)
        requires
            0 <= i < model.children.len(),
            i != model.active,
        ensures
            Self::routed(model, event).after.children[i] == model.children[i],
            Self::routed(model, event).after.children.len() == model.children.len(),
            Self::routed(model, event).after.active == model.active,
            Self::routed(model, event).after.selected == model.selected,
    {
    }

    /// Routing hands back either nothing or the very event that came in.
    pub proof fn lemma_route_reply(model: ChildrenView<C::V>, event: Event)
        ensures
            Self::routed(model, event).reply matches Some(e) ==> e == event,
    {
        if 0 <= model.active < model.children.len() {
            C::lemma_reply(model.children[model.active], event);
        }
    }
}

} // verus!
