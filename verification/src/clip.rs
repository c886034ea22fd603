//! A sound clip: a title with the clip's effects below it, joined by a bar
//! down the left side.

use vstd::prelude::*;

use crate::children::{child_state, Child, Children, ChildrenView};
use crate::cues::Cues;
use crate::frame::{
    lemma_write_within_both, lemma_write_within_then, lemma_write_within_wider, row_after_all,
    write_within, CommandView, Frame,
};
use crate::helpers::action::{Action, Event, IsEvent};
use crate::helpers::style::{style_of, StateStyle};
use crate::helpers::{
    byte_width, column, lemma_spanning_stacked, total_height, LayoutError, Rect, SelectionState,
    VerticalRepeat,
};
use crate::slider::SliderState;
use crate::strs;
use crate::traits::{
    keep_below, lemma_keep_below_both, lemma_keep_below_higher, Draw, Drawn, Effect, Handled,
    Input,
};
use crate::volume::{lemma_volume_reports_from_origin, Volume};

verus! {

/// A clip with its effects.
pub struct Clip<E: Effect = Volume> {
    name: String,
    effects: Children<E>,
}

/// The state of a [`Clip`]: its name and the state of its effects.
#[verifier::ext_equal]
pub ghost struct ClipView<V> {
    pub name: Seq<char>,
    pub effects: ChildrenView<V>,
}

impl<E: Effect> View for Clip<E> {
    type V = ClipView<E::V>;

    closed spec fn view(&self) -> ClipView<E::V> {
        ClipView { name: self.name@, effects: self.effects@ }
    }
}

/// The title of the clip called `name`: the bar, the speaker sign and the
/// name, with a blank between them.
pub open spec fn title_of(name: Seq<char>) -> Seq<char> {
    strs::BAR@ + " "@ + strs::SPEAKER@ + " "@ + name
}

/// The piece of the bar that runs along an effect that consumed `rect`: a
/// branch in the column left of the effect's first row, and the bar on the
/// effect's other rows below it.
///
/// There is none when the effect stands in column 0, when its first row is
/// the last of the grid, or when it consumed no row.
pub open spec fn rail(rect: Rect, state: SelectionState) -> Result<Seq<CommandView>, LayoutError> {
    match rect.spec_left() {
        Err(e) => Err(e),
        Ok(edge) => match (Rect { x: edge.x, y: edge.y, width: edge.width, height: 1 }).spec_down() {
            Err(e) => Err(e),
            Ok(below) => if rect.height == 0 {
                Err(LayoutError::Underflow)
            } else {
                Ok(
                    seq![
                        CommandView::MoveTo { x: edge.x, y: edge.y },
                        CommandView::Print { text: strs::BRANCH@, style: style_of(state) },
                        CommandView::MoveTo { x: below.x, y: below.y },
                    ] + column(
                        CommandView::Print { text: strs::BAR@, style: style_of(state) },
                        byte_width(strs::BAR@),
                        (rect.height - 1) as nat,
                    ),
                )
            },
        },
    }
}

/// The pieces of the bar along the effects that consumed `rects[i]` and the
/// following, one after the other.
pub open spec fn rails_from(rects: Seq<Rect>, i: int, state: SelectionState) -> Result<
    Seq<CommandView>,
    LayoutError,
>
    decreases rects.len() - i,
{
    if i < 0 || i >= rects.len() {
        Ok(Seq::empty())
    } else {
        match rail(rects[i], state) {
            Err(e) => Err(e),
            Ok(piece) => match rails_from(rects, i + 1, state) {
                Err(e) => Err(e),
                Ok(rest) => Ok(piece + rest),
            },
        }
    }
}

/// Writing a text on several rows moves the cursor by steps only, never to
/// a row given by its number.
pub proof fn lemma_column_keeps_below(shown: CommandView, back: u16, n: nat, row: int)
    requires
        shown is Print,
    ensures
        keep_below(column(shown, back, n), row),
    decreases n,
{
    if n > 0 {
        lemma_column_keeps_below(shown, back, (n - 1) as nat, row);
        lemma_keep_below_both(
            column(shown, back, (n - 1) as nat),
            seq![shown, CommandView::MoveDown(1), CommandView::MoveLeft(back)],
            row,
        );
    }
}

/// The bar along effects that lie at or below a row puts the cursor on no
/// row above it.
pub proof fn lemma_rails_keep_below(rects: Seq<Rect>, i: int, state: SelectionState, row: int)
    requires
        0 <= i <= rects.len(),
        rails_from(rects, i, state) is Ok,
        forall|j: int| i <= j < rects.len() ==> (#[trigger] rects[j]).y >= row,
    ensures
        keep_below(rails_from(rects, i, state)->Ok_0, row),
    decreases rects.len() - i,
{
    if i < rects.len() {
        let piece = rail(rects[i], state)->Ok_0;
        let rest = rails_from(rects, i + 1, state)->Ok_0;
        lemma_rails_keep_below(rects, i + 1, state, row);
        let edge = rects[i].spec_left()->Ok_0;
        let below = (Rect { x: edge.x, y: edge.y, width: edge.width, height: 1 }).spec_down()->Ok_0;
        let head = seq![
            CommandView::MoveTo { x: edge.x, y: edge.y },
            CommandView::Print { text: strs::BRANCH@, style: style_of(state) },
            CommandView::MoveTo { x: below.x, y: below.y },
        ];
        let bars = column(
            CommandView::Print { text: strs::BAR@, style: style_of(state) },
            byte_width(strs::BAR@),
            (rects[i].height - 1) as nat,
        );
        lemma_column_keeps_below(
            CommandView::Print { text: strs::BAR@, style: style_of(state) },
            byte_width(strs::BAR@),
            (rects[i].height - 1) as nat,
            row,
        );
        assert(rects[i].y >= row);
        lemma_keep_below_both(head, bars, row);
        lemma_keep_below_both(piece, rest, row);
    }
}

/// A text written on several rows from the cursor's row on is written on
/// these rows and leaves the cursor on the row past the last of them.
pub proof fn lemma_column_within(
    shown: CommandView,
    back: u16,
    n: nat,
    row: int,
    low: int,
    high: int,
)
    requires
        shown is Print,
        low <= row,
        row + n <= high,
    ensures
        write_within(column(shown, back, n), Some(row), low, high),
        row_after_all(column(shown, back, n), Some(row)) == Some(row + n),
    decreases n,
{
    if n > 0 {
        let before = column(shown, back, (n - 1) as nat);
        let step = seq![shown, CommandView::MoveDown(1), CommandView::MoveLeft(back)];
        lemma_column_within(shown, back, (n - 1) as nat, row, low, high);
        assert(step.drop_first() =~= seq![CommandView::MoveDown(1), CommandView::MoveLeft(back)]);
        assert(step.drop_first().drop_first() =~= seq![CommandView::MoveLeft(back)]);
        assert(step.drop_first().drop_first().drop_first() =~= Seq::<CommandView>::empty());
        reveal_with_fuel(write_within, 4);
        reveal_with_fuel(row_after_all, 4);
        assert(write_within(step, Some(row + n - 1), low, high));
        assert(row_after_all(step, Some(row + n - 1)) == Some(row + n));
        lemma_write_within_both(before, step, Some(row), low, high);
    }
}

/// The piece of the bar along an effect is written on the rows that the
/// effect consumed.
pub proof fn lemma_rail_within(rect: Rect, state: SelectionState)
    requires
        rail(rect, state) is Ok,
    ensures
        write_within(rail(rect, state)->Ok_0, None, rect.y as int, rect.bottom()),
{
    let edge = rect.spec_left()->Ok_0;
    let below = (Rect { x: edge.x, y: edge.y, width: edge.width, height: 1 }).spec_down()->Ok_0;
    let branch = CommandView::Print { text: strs::BRANCH@, style: style_of(state) };
    let bar = CommandView::Print { text: strs::BAR@, style: style_of(state) };
    let head = seq![
        CommandView::MoveTo { x: edge.x, y: edge.y },
        branch,
        CommandView::MoveTo { x: below.x, y: below.y },
    ];
    let bars = column(bar, byte_width(strs::BAR@), (rect.height - 1) as nat);
    assert(head.drop_first() =~= seq![branch, CommandView::MoveTo { x: below.x, y: below.y }]);
    assert(head.drop_first().drop_first() =~= seq![
        CommandView::MoveTo { x: below.x, y: below.y },
    ]);
    assert(head.drop_first().drop_first().drop_first() =~= Seq::<CommandView>::empty());
    reveal_with_fuel(write_within, 4);
    reveal_with_fuel(row_after_all, 4);
    assert(write_within(head, None, rect.y as int, rect.bottom()));
    assert(row_after_all(head, None) == Some(rect.y + 1));
    lemma_column_within(
        bar,
        byte_width(strs::BAR@),
        (rect.height - 1) as nat,
        rect.y + 1,
        rect.y as int,
        rect.bottom(),
    );
    lemma_write_within_both(head, bars, None, rect.y as int, rect.bottom());
}

/// The bar along effects whose rows lie within some rows is written on
/// these rows.
pub proof fn lemma_rails_within(
    rects: Seq<Rect>,
    i: int,
    state: SelectionState,
    low: int,
    high: int,
)
    requires
        0 <= i <= rects.len(),
        rails_from(rects, i, state) is Ok,
        forall|j: int|
            i <= j < rects.len() ==> low <= (#[trigger] rects[j]).y && rects[j].bottom() <= high,
    ensures
        write_within(rails_from(rects, i, state)->Ok_0, None, low, high),
    decreases rects.len() - i,
{
    if i < rects.len() {
        let piece = rail(rects[i], state)->Ok_0;
        let rest = rails_from(rects, i + 1, state)->Ok_0;
        lemma_rails_within(rects, i + 1, state, low, high);
        lemma_rail_within(rects[i], state);
        lemma_write_within_wider(piece, None, rects[i].y as int, rects[i].bottom(), low, high);
        lemma_write_within_then(piece, rest, None, low, high);
    }
}

/// A clip that was just made: both of its volumes from 0.3 to 0.5, the first
/// of them active and none selected.
pub open spec fn fresh_clip(name: Seq<char>) -> ClipView<SliderState> {
    ClipView {
        name,
        effects: ChildrenView {
            active: 0,
            selected: Set::empty(),
            children: seq![SliderState::MinMax(300, 500), SliderState::MinMax(300, 500)],
        },
    }
}

impl Clip<Volume> {
    /// The clip called `name`, with two volume effects.
    pub fn new(name: String) -> (r: Self)
        ensures
            r@ == fresh_clip(name@),
    {
        let mut effects: Vec<Box<Volume>> = Vec::new();
        effects.push(Box::new(Volume::new()));
        effects.push(Box::new(Volume::new()));
        let r = Clip::with_effects(name, Children::new(effects));
        assert(r@.effects.children =~= fresh_clip(name@).effects.children);
        r
    }
}

impl<E: Effect> Clip<E> {
    /// The clip called `name` with the given effects.
    pub fn with_effects(name: String, effects: Children<E>) -> (r: Self)
        ensures
            r@ == (ClipView { name: name@, effects: effects@ }),
    {
        Clip { name, effects }
    }

    /// The clip's name.
    pub fn name(&self) -> (r: &String)
        ensures
            r@ == self@.name,
    {
        &self.name
    }

    /// The clip's effects.
    pub fn effects(&self) -> (r: &Children<E>)
        ensures
            r@ == self@.effects,
    {
        &self.effects
    }
}

/// Appends to `frame` the pieces of the bar along the effects that consumed
/// `rects`. On failure the frame is left as it was.
fn draw_rails(rects: &Vec<Rect>, state: SelectionState, frame: &mut Frame) -> (r: Result<
    (),
    LayoutError,
>)
    ensures
        match rails_from(rects@, 0, state) {
            Ok(rails) => r is Ok && final(frame)@ == old(frame)@ + rails,
            Err(e) => r == Err::<(), LayoutError>(e) && final(frame)@ == old(frame)@,
        },
{
    let mark = frame.len();
    let bar = strs::BAR.state(state);
    let mut i: usize = 0;
    while i < rects.len()
        invariant
            i <= rects@.len(),
            mark == old(frame)@.len(),
            mark <= frame@.len(),
            frame@.take(mark as int) == old(frame)@,
            bar@ == (CommandView::Print { text: strs::BAR@, style: style_of(state) }),
            match rails_from(rects@, i as int, state) {
                Ok(rest) => rails_from(rects@, 0, state) == Ok::<Seq<CommandView>, LayoutError>(
                    frame@.skip(mark as int) + rest,
                ),
                Err(e) => rails_from(rects@, 0, state) == Err::<Seq<CommandView>, LayoutError>(e),
            },
        decreases rects@.len() - i,
    {
        let consumed = rects[i];
        let ghost before = frame@;
        let edge = match consumed.left() {
            Ok(edge) => edge,
            Err(e) => {
                frame.rewind(mark);
                return Err(e);
            },
        };
        let below = match Rect::new(edge.x, edge.y, edge.width, 1).down() {
            Ok(below) => below,
            Err(e) => {
                frame.rewind(mark);
                return Err(e);
            },
        };
        if consumed.height == 0 {
            frame.rewind(mark);
            return Err(LayoutError::Underflow);
        }
        frame.push(edge.pos());
        frame.print_styled(strs::BRANCH.state(state));
        frame.push(below.pos());
        bar.v_repeat(consumed.height - 1, frame);
        proof {
            let piece = rail(consumed, state)->Ok_0;
            assert(frame@ =~= before + piece);
            assert(frame@.take(mark as int) =~= before.take(mark as int));
            assert(frame@.skip(mark as int) =~= before.skip(mark as int) + piece);
            match rails_from(rects@, i + 1, state) {
                Ok(rest) => {
                    assert(before.skip(mark as int) + (piece + rest) =~= frame@.skip(mark as int)
                        + rest);
                },
                Err(e) => {},
            }
        }
        i = i + 1;
    }
    proof {
        assert(frame@.skip(mark as int) + Seq::<CommandView>::empty() =~= frame@.skip(mark as int));
        assert(frame@ =~= frame@.take(mark as int) + frame@.skip(mark as int));
    }
    Ok(())
}

impl<E: Effect> Child for Clip<E> {

}

impl<E: Effect> Draw for Clip<E> {
    /// The title stands at the origin of the rectangle, in the look of the
    /// clip's emphasis. The effects follow below the rectangle, one column
    /// to the right, drawn with the same emphasis handed on; the bar runs
    /// along them in the title's column. The clip reports the rectangle it
    /// was given, extended downwards through the last row of its last
    /// effect.
    open spec fn drawn(model: ClipView<E::V>, rect: Rect, state: SelectionState) -> Result<
        Drawn,
        LayoutError,
    > {
        match rect.spec_right() {
            Err(e) => Err(e),
            Ok(inner) => match inner.spec_down() {
                Err(e) => Err(e),
                Ok(start) => match Children::<E>::drawn(model.effects, start, state) {
                    Err(e) => Err(e),
                    Ok(all) => match rails_from(all.rects, 0, state) {
                        Err(e) => Err(e),
                        Ok(rails) => match rect.spec_spanning(all.rects) {
                            Err(e) => Err(e),
                            Ok(whole) => Ok(
                                Drawn {
                                    rect: whole,
                                    commands: seq![
                                        CommandView::MoveTo { x: rect.x, y: rect.y },
                                        CommandView::Print {
                                            text: title_of(model.name),
                                            style: style_of(state),
                                        },
                                    ] + all.commands + rails,
                                },
                            ),
                        },
                    },
                },
            },
        }
    }

    proof fn lemma_drawn_from_row(model: ClipView<E::V>, rect: Rect, state: SelectionState) {
        if Self::drawn(model, rect, state) is Ok {
            let inner = rect.spec_right()->Ok_0;
            let start = inner.spec_down()->Ok_0;
            Children::<E>::lemma_drawn_from(model.effects, 0, start, state);
            let all = Children::<E>::drawn(model.effects, start, state)->Ok_0;
            let rails = rails_from(all.rects, 0, state)->Ok_0;
            let title = seq![
                CommandView::MoveTo { x: rect.x, y: rect.y },
                CommandView::Print { text: title_of(model.name), style: style_of(state) },
            ];
            lemma_rails_keep_below(all.rects, 0, state, rect.y as int);
            lemma_keep_below_higher(all.commands, start.y as int, rect.y as int);
            lemma_keep_below_both(title, all.commands, rect.y as int);
            lemma_keep_below_both(title + all.commands, rails, rect.y as int);
        }
    }

    proof fn lemma_drawn_within(model: ClipView<E::V>, rect: Rect, state: SelectionState) {
        if Self::drawn(model, rect, state) is Ok {
            let start = rect.spec_right()->Ok_0.spec_down()->Ok_0;
            let all = Children::<E>::drawn(model.effects, start, state)->Ok_0;
            let rails = rails_from(all.rects, 0, state)->Ok_0;
            let whole = rect.spec_spanning(all.rects)->Ok_0;
            let title = seq![
                CommandView::MoveTo { x: rect.x, y: rect.y },
                CommandView::Print { text: title_of(model.name), style: style_of(state) },
            ];
            let low = rect.y as int;
            let high = whole.bottom();
            Children::<E>::lemma_drawn_from(model.effects, 0, start, state);
            Children::<E>::lemma_drawn_from_within(model.effects, 0, start, state);
            assert(title.drop_first() =~= seq![
                CommandView::Print { text: title_of(model.name), style: style_of(state) },
            ]);
            assert(title.drop_first().drop_first() =~= Seq::<CommandView>::empty());
            reveal_with_fuel(write_within, 3);
            if all.rects.len() > 0 {
                lemma_spanning_stacked(rect, all.rects);
                assert(write_within(title, None, low, high));
                lemma_write_within_wider(
                    all.commands,
                    None,
                    start.y as int,
                    all.rects.last().bottom(),
                    low,
                    high,
                );
                assert forall|j: int| 0 <= j < all.rects.len() implies low <= (
                #[trigger] all.rects[j]).y && all.rects[j].bottom() <= high by {
                    if j < all.rects.len() - 1 {
                        assert(all.rects[j].bottom() <= all.rects[all.rects.len() - 1].y);
                    }
                }
                lemma_rails_within(all.rects, 0, state, low, high);
                lemma_write_within_then(title, all.commands, None, low, high);
                lemma_write_within_then(title + all.commands, rails, None, low, high);
            } else {
                assert(title + all.commands + rails =~= title);
            }
        }
    }

    fn draw(&self, rect: Rect, state: SelectionState, frame: &mut Frame) -> (r: Result<
        Rect,
        LayoutError,
    >) {
        let mark = frame.len();
        let mut title = String::from_str(strs::BAR);
        title.append(" ");
        title.append(strs::SPEAKER);
        title.append(" ");
        title.append(self.name.as_str());
        frame.push(rect.pos());
        frame.print_styled(title.state(state));
        let inner = match rect.right() {
            Ok(inner) => inner,
            Err(e) => {
                frame.rewind(mark);
                assert(frame@ =~= old(frame)@);
                return Err(e);
            },
        };
        let start = match inner.down() {
            Ok(start) => start,
            Err(e) => {
                frame.rewind(mark);
                assert(frame@ =~= old(frame)@);
                return Err(e);
            },
        };
        let rects = match self.effects.draw(start, state, frame) {
            Ok(rects) => rects,
            Err(e) => {
                frame.rewind(mark);
                assert(frame@ =~= old(frame)@);
                return Err(e);
            },
        };
        match draw_rails(&rects, state, frame) {
            Ok(()) => {},
            Err(e) => {
                frame.rewind(mark);
                assert(frame@ =~= old(frame)@);
                return Err(e);
            },
        }
        match rect.spanning(&rects) {
            Ok(whole) => {
                assert(frame@ =~= old(frame)@ + Self::drawn(self@, rect, state)->Ok_0.commands);
                Ok(whole)
            },
            Err(e) => {
                frame.rewind(mark);
                assert(frame@ =~= old(frame)@);
                Err(e)
            },
        }
    }
}

/// A clip can be drawn exactly when its effects have a place to start,
/// they can be drawn there and the bar can be drawn along them: once that
/// is so, extending the clip's rectangle through its effects cannot fail.
pub proof fn lemma_clip_fits_when_its_parts_fit<E: Effect>(
    model: ClipView<E::V>,
    rect: Rect,
    state: SelectionState,
)
    ensures
        Clip::<E>::drawn(model, rect, state) is Ok <==> {
            &&& rect.spec_right() matches Ok(inner)
            &&& inner.spec_down() matches Ok(start)
            &&& Children::<E>::drawn(model.effects, start, state) matches Ok(all)
            &&& rails_from(all.rects, 0, state) is Ok
        },
{
    if rect.spec_right() is Ok {
        let inner = rect.spec_right()->Ok_0;
        if inner.spec_down() is Ok {
            let start = inner.spec_down()->Ok_0;
            if Children::<E>::drawn(model.effects, start, state) is Ok {
                Children::<E>::lemma_parent_extent_exists(model.effects, rect, start, state);
            }
        }
    }
}

/// A clip that was drawn reports the column, the first row and the width of
/// the rectangle it was given. Without effects it reports that rectangle;
/// with effects its report ends on the row on which the report of its last
/// effect ends, and is as high as the given rectangle and the reports of its
/// effects together.
pub proof fn lemma_clip_reports_its_extent<E: Effect>(
    model: ClipView<E::V>,
    rect: Rect,
    state: SelectionState,
)
    requires
        Clip::<E>::drawn(model, rect, state) is Ok,
    ensures
        ({
            let d = Clip::<E>::drawn(model, rect, state)->Ok_0;
            let start = rect.spec_right()->Ok_0.spec_down()->Ok_0;
            let rects = Children::<E>::drawn(model.effects, start, state)->Ok_0.rects;
            &&& d.rect.x == rect.x
            &&& d.rect.y == rect.y
            &&& d.rect.width == rect.width
            &&& rects.len() == model.effects.children.len()
            &&& rects.len() == 0 ==> d.rect == rect
            &&& rects.len() > 0 ==> d.rect.bottom() == rects.last().bottom()
            &&& d.rect.height == rect.height + total_height(rects)
        }),
{
    let start = rect.spec_right()->Ok_0.spec_down()->Ok_0;
    Children::<E>::lemma_drawn_from(model.effects, 0, start, state);
    let rects = Children::<E>::drawn(model.effects, start, state)->Ok_0.rects;
    if rects.len() > 0 {
        lemma_spanning_stacked(rect, rects);
    }
}

/// A clip that was just made and is drawn on a rectangle reports that
/// rectangle made four rows higher: two rows for each of its two volumes.
pub proof fn lemma_fresh_clip_extent(name: Seq<char>, rect: Rect, state: SelectionState)
    requires
        Clip::<Volume>::drawn(fresh_clip(name), rect, state) is Ok,
    ensures
        Clip::<Volume>::drawn(fresh_clip(name), rect, state)->Ok_0.rect == (Rect {
            x: rect.x,
            y: rect.y,
            width: rect.width,
            height: (rect.height + 4) as u16,
        }),
{
    let model = fresh_clip(name);
    let start = rect.spec_right()->Ok_0.spec_down()->Ok_0;
    lemma_clip_reports_its_extent::<Volume>(model, rect, state);
    Children::<Volume>::lemma_drawn_from(model.effects, 0, start, state);
    let rects = Children::<Volume>::drawn(model.effects, start, state)->Ok_0.rects;
    assert(Children::<Volume>::placed(model.effects, 0, rects, start, state, 0));
    assert(Children::<Volume>::placed(model.effects, 0, rects, start, state, 1));
    lemma_volume_reports_from_origin(
        model.effects.children[0],
        start,
        child_state(model.effects.active, model.effects.selected, 0, state),
    );
    lemma_volume_reports_from_origin(
        model.effects.children[1],
        rects[0].spec_next()->Ok_0,
        child_state(model.effects.active, model.effects.selected, 1, state),
    );
    assert(rects.drop_last() =~= seq![rects[0]]);
    assert(rects.drop_last().drop_last() =~= Seq::<Rect>::empty());
    reveal_with_fuel(total_height, 3);
}

impl<E: Effect> Input for Clip<E> {
    /// The event that stands for playing asks for this clip to be played.
    /// Every event, that one too, then goes to the active effect.
    open spec fn handled(model: ClipView<E::V>, event: Event) -> Handled<ClipView<E::V>> {
        let routed = Children::<E>::routed(model.effects, event);
        Handled {
            after: ClipView { name: model.name, effects: routed.after },
            reply: routed.reply,
            cues: if event.stands_for(Action::Play) {
                seq![model.name] + routed.cues
            } else {
                routed.cues
            },
        }
    }

    proof fn lemma_reply(model: ClipView<E::V>, event: Event) {
        Children::<E>::lemma_route_reply(model.effects, event);
    }

    fn handle_input(&mut self, event: Event, cues: &mut Cues) -> (r: Option<Event>) {
        if event.is(Action::Play) {
            cues.push(self.name.clone());
        }
        let ghost asked = cues@;
        let r = self.effects.route_input(event, cues);
        proof {
            let routed = Children::<E>::routed(old(self)@.effects, event);
            if event.stands_for(Action::Play) {
                assert(asked + routed.cues =~= old(cues)@ + (seq![old(self)@.name] + routed.cues));
            }
        }
        r
    }
}

} // verus!
