//! Rectangles on the terminal grid and the emphasis a widget is drawn with.

use vstd::prelude::*;

use vstd::utf8::encode_utf8;

use crate::frame::{Command, CommandView, Frame, Style, Styled};

pub mod action;
pub mod style;

verus! {

/// The emphasis a parent hands to a child for one draw call.
#[derive(Clone, Copy, Debug, PartialEq, Eq, Structural)]
pub enum SelectionState {
    /// No emphasis.
    Normal,
    /// The widget on the path that receives input.
    Active,
    /// A sibling that is marked, but does not receive input.
    Selected,
}

/// Why a rectangle could not be computed.
#[derive(Clone, Copy, Debug, PartialEq, Eq, Structural)]
pub enum LayoutError {
    /// A coordinate or an extent would exceed `u16::MAX`.
    Overflow,
    /// A coordinate or an extent would fall below zero.
    Underflow,
}

/// A region of terminal cells: `width` columns from column `x` and `height`
/// rows from row `y`. It serves both as the place a widget is asked to draw
/// at and as the report of what it consumed.
#[derive(Clone, Copy, Debug, PartialEq, Eq, Structural)]
pub struct Rect {
    pub x: u16,
    pub y: u16,
    pub width: u16,
    pub height: u16,
}

impl Rect {
    /// The first row below the rectangle.
    pub open spec fn bottom(&self) -> int {
        self.y + self.height
    }

    /// The first column right of the rectangle.
    pub open spec fn right_edge(&self) -> int {
        self.x + self.width
    }

    /// What [`Rect::down`] returns.
    pub open spec fn spec_down(&self) -> Result<Rect, LayoutError> {
        if self.bottom() > u16::MAX {
            Err(LayoutError::Overflow)
        } else {
            Ok(Rect { x: self.x, y: self.bottom() as u16, width: self.width, height: 1 })
        }
    }

    /// What [`Rect::right_n`] returns.
    pub open spec fn spec_right_n(&self, n: u16) -> Result<Rect, LayoutError> {
        if self.x + n > u16::MAX {
            Err(LayoutError::Overflow)
        } else if n > self.width {
            Err(LayoutError::Underflow)
        } else {
            Ok(
                Rect {
                    x: (self.x + n) as u16,
                    y: self.y,
                    width: (self.width - n) as u16,
                    height: self.height,
                },
            )
        }
    }

    /// What [`Rect::right`] returns.
    pub open spec fn spec_right(&self) -> Result<Rect, LayoutError> {
        self.spec_right_n(1)
    }

    /// What [`Rect::left`] returns.
    pub open spec fn spec_left(&self) -> Result<Rect, LayoutError> {
        if self.x == 0 {
            Err(LayoutError::Underflow)
        } else if self.width == u16::MAX {
            Err(LayoutError::Overflow)
        } else {
            Ok(
                Rect {
                    x: (self.x - 1) as u16,
                    y: self.y,
                    width: (self.width + 1) as u16,
                    height: self.height,
                },
            )
        }
    }

    /// What [`Rect::to`] returns.
    pub open spec fn spec_to(&self, rect: Rect) -> Result<Rect, LayoutError> {
        if self.height + rect.height > u16::MAX {
            Err(LayoutError::Overflow)
        } else {
            Ok(
                Rect {
                    x: self.x,
                    y: self.y,
                    width: rect.width,
                    height: (self.height + rect.height) as u16,
                },
            )
        }
    }

    /// What [`Rect::next`] returns.
    pub open spec fn spec_next(&self) -> Result<Rect, LayoutError> {
        if self.bottom() > u16::MAX {
            Err(LayoutError::Overflow)
        } else {
            Ok(Rect { x: self.x, y: self.bottom() as u16, width: self.width, height: 1 })
        }
    }

    /// What [`Rect::end`] returns.
    pub open spec fn spec_end(&self) -> Result<Rect, LayoutError> {
        if self.height == 0 {
            Err(LayoutError::Underflow)
        } else if self.bottom() - 1 > u16::MAX {
            Err(LayoutError::Overflow)
        } else {
            Ok(Rect { x: self.x, y: (self.bottom() - 1) as u16, width: self.width, height: 1 })
        }
    }

    /// What [`Rect::spanning`] returns.
    pub open spec fn spec_spanning(&self, rects: Seq<Rect>) -> Result<Rect, LayoutError> {
        match bounding(rects) {
            Err(e) => Err(e),
            Ok(None) => Ok(*self),
            Ok(Some(span)) => match self.spec_to(span) {
                Err(e) => Err(e),
                Ok(whole) => Ok(
                    Rect { x: self.x, y: self.y, width: self.width, height: whole.height },
                ),
            },
        }
    }

    pub fn new(x: u16, y: u16, width: u16, height: u16) -> (r: Rect)
        ensures
            r == (Rect { x, y, width, height }),
    {
        Rect { x, y, width, height }
    }

    /// A fresh single row directly below this rectangle.
    ///
    /// Fails with `Overflow` when that row lies beyond row `u16::MAX`.
    #[verifier::when_used_as_spec(spec_down)]
    pub fn down(&self) -> (r: Result<Rect, LayoutError>)
        ensures
            r == self.spec_down(),
    {
        match self.y.checked_add(self.height) {
            Some(y) => Ok(Rect { x: self.x, y, width: self.width, height: 1 }),
            None => Err(LayoutError::Overflow),
        }
    }

    /// The rectangle without its first column.
    ///
    /// Fails with `Overflow` when column `x + 1` does not exist and with
    /// `Underflow` when the rectangle has no column to give up.
    #[verifier::when_used_as_spec(spec_right)]
    pub fn right(&self) -> (r: Result<Rect, LayoutError>)
        ensures
            r == self.spec_right(),
    {
        self.right_n(1)
    }

    /// The rectangle without its first `n` columns.
    ///
    /// Fails with `Overflow` when column `x + n` does not exist and with
    /// `Underflow` when `n` exceeds the width.
    #[verifier::when_used_as_spec(spec_right_n)]
    pub fn right_n(&self, n: u16) -> (r: Result<Rect, LayoutError>)
        ensures
            r == self.spec_right_n(n),
    {
        match self.x.checked_add(n) {
            None => Err(LayoutError::Overflow),
            Some(x) => {
                if n > self.width {
                    Err(LayoutError::Underflow)
                } else {
                    Ok(Rect { x, y: self.y, width: self.width - n, height: self.height })
                }
            },
        }
    }

    /// The cursor move to the rectangle's origin.
    pub fn pos(&self) -> (c: Command)
        ensures
            c == (Command::MoveTo { x: self.x, y: self.y }),
    {
        Command::MoveTo { x: self.x, y: self.y }
    }

    /// The rectangle grown by one column on its left: the inverse of
    /// [`Rect::right`].
    ///
    /// Fails with `Underflow` at column 0 and with `Overflow` when the width
    /// is already `u16::MAX`.
    #[verifier::when_used_as_spec(spec_left)]
    pub fn left(&self) -> (r: Result<Rect, LayoutError>)
        ensures
            r == self.spec_left(),
    {
        if self.x == 0 {
            Err(LayoutError::Underflow)
        } else if self.width == u16::MAX {
            Err(LayoutError::Overflow)
        } else {
            Ok(Rect { x: self.x - 1, y: self.y, width: self.width + 1, height: self.height })
        }
    }

    /// This rectangle extended downwards by the height of `rect`, with the
    /// width of `rect`. Where `rect` lies directly below, the result covers
    /// the rows of both.
    ///
    /// Fails with `Overflow` when the two heights together exceed `u16::MAX`.
    #[verifier::when_used_as_spec(spec_to)]
    pub fn to(&self, rect: Rect) -> (r: Result<Rect, LayoutError>)
        ensures
            r == self.spec_to(rect),
    {
        match self.height.checked_add(rect.height) {
            Some(height) => Ok(Rect { x: self.x, y: self.y, width: rect.width, height }),
            None => Err(LayoutError::Overflow),
        }
    }

    /// This rectangle extended downwards by the rows that `rects` span
    /// together, with its own column and width; the rectangle itself for no
    /// `rects`. Where `rects` are stacked from the row past this rectangle
    /// on, the result reaches from this rectangle's first row through the
    /// last row of the last of them.
    ///
    /// Fails where merging `rects` fails, and with `Overflow` when the rows
    /// of this rectangle and their span together exceed `u16::MAX`.
    pub fn spanning(&self, rects: &Vec<Rect>) -> (r: Result<Rect, LayoutError>)
        ensures
            r == self.spec_spanning(rects@),
    {
        match rects.combined() {
            Err(e) => Err(e),
            Ok(None) => Ok(*self),
            Ok(Some(span)) => match self.to(span) {
                Err(e) => Err(e),
                Ok(whole) => Ok(
                    Rect { x: self.x, y: self.y, width: self.width, height: whole.height },
                ),
            },
        }
    }

    /// The place of the next sibling: a single row past this rectangle's
    /// full height.
    ///
    /// Fails with `Overflow` when that row lies beyond row `u16::MAX`.
    #[verifier::when_used_as_spec(spec_next)]
    pub fn next(&self) -> (r: Result<Rect, LayoutError>)
        ensures
            r == self.spec_next(),
    {
        match self.y.checked_add(self.height) {
            Some(y) => Ok(Rect { x: self.x, y, width: self.width, height: 1 }),
            None => Err(LayoutError::Overflow),
        }
    }

    /// The last row of this rectangle, as a rectangle of height 1.
    ///
    /// Fails with `Underflow` when the rectangle has no row and with
    /// `Overflow` when its last row lies beyond row `u16::MAX`.
    #[verifier::when_used_as_spec(spec_end)]
    pub fn end(&self) -> (r: Result<Rect, LayoutError>)
        ensures
            r == self.spec_end(),
    {
        let bottom: u32 = self.y as u32 + self.height as u32;
        if self.height == 0 {
            Err(LayoutError::Underflow)
        } else if bottom - 1 > u16::MAX as u32 {
            Err(LayoutError::Overflow)
        } else {
            Ok(Rect { x: self.x, y: (bottom - 1) as u16, width: self.width, height: 1 })
        }
    }
}

/// `text` written `n` times in a row.
pub open spec fn repeated(text: Seq<char>, n: nat) -> Seq<char>
    decreases n,
{
    if n == 0 {
        Seq::empty()
    } else {
        repeated(text, (n - 1) as nat) + text
    }
}

/// Text that can be written several times side by side.
pub trait HorizontalRepeat {
    /// The characters of the text.
    spec fn chars(&self) -> Seq<char>;

    /// Appends to `frame` the writing of the text `n` times in a row, in the
    /// default look.
    fn h_repeat(&self, n: u16, frame: &mut Frame)
        ensures
            final(frame)@ == old(frame)@.push(
                CommandView::Print { text: repeated(self.chars(), n as nat), style: Style::Plain },
            ),
    ;
}

impl HorizontalRepeat for &str {
    open spec fn chars(&self) -> Seq<char> {
        self@
    }

    fn h_repeat(&self, n: u16, frame: &mut Frame) {
        let mut text = String::new();
        let mut i: u16 = 0;
        while i < n
            invariant
                i <= n,
                text@ == repeated(self@, i as nat),
            decreases n - i,
        {
            text.append(*self);
            i = i + 1;
        }
        frame.print_styled(Styled { text, style: Style::Plain });
    }
}

/// The number of bytes that `text` takes, cut to 16 bits.
pub open spec fn byte_width(text: Seq<char>) -> u16 {
    (encode_utf8(text).len() as usize) as u16
}

/// The commands that write `shown` on `n` rows, one below the other: after
/// each writing the cursor goes down one row and `back` columns to the left.
pub open spec fn column(shown: CommandView, back: u16, n: nat) -> Seq<CommandView>
    decreases n,
{
    if n == 0 {
        Seq::empty()
    } else {
        column(shown, back, (n - 1) as nat) + seq![
            shown,
            CommandView::MoveDown(1),
            CommandView::MoveLeft(back),
        ]
    }
}

/// Text that can be written several times one below the other.
pub trait VerticalRepeat {
    /// The writing of the text, once.
    spec fn shown(&self) -> CommandView;

    /// How far the cursor goes back after each writing: the text's length in
    /// bytes.
    spec fn back(&self) -> u16;

    /// Appends to `frame` the writing of the text on `n` rows, from the
    /// cursor downwards.
    fn v_repeat(&self, n: u16, frame: &mut Frame)
        ensures
            final(frame)@ == old(frame)@ + column(self.shown(), self.back(), n as nat),
    ;
}

impl VerticalRepeat for &str {
    open spec fn shown(&self) -> CommandView {
        CommandView::Print { text: self@, style: Style::Plain }
    }

    open spec fn back(&self) -> u16 {
        byte_width(self@)
    }

    fn v_repeat(&self, n: u16, frame: &mut Frame) {
        let back: u16 = #[verifier::truncate] (self.len() as u16);
        let mut i: u16 = 0;
        while i < n
            invariant
                i <= n,
                back == byte_width(self@),
                frame@ == old(frame)@ + column(self.shown(), back, i as nat),
            decreases n - i,
        {
            frame.print(*self);
            frame.push(Command::MoveDown(1));
            frame.push(Command::MoveLeft(back));
            i = i + 1;
        }
    }
}

impl VerticalRepeat for Styled {
    open spec fn shown(&self) -> CommandView {
        self@
    }

    open spec fn back(&self) -> u16 {
        byte_width(self.text@)
    }

    fn v_repeat(&self, n: u16, frame: &mut Frame) {
        let back: u16 = #[verifier::truncate] (self.text.as_str().len() as u16);
        let mut i: u16 = 0;
        while i < n
            invariant
                i <= n,
                back == byte_width(self.text@),
                frame@ == old(frame)@ + column(self@, back, i as nat),
            decreases n - i,
        {
            frame.print_styled(self.clone());
            frame.push(Command::MoveDown(1));
            frame.push(Command::MoveLeft(back));
            i = i + 1;
        }
    }
}

/// Each rectangle starts on the row on which the one before it ends.
pub open spec fn stacked(rects: Seq<Rect>) -> bool {
    forall|i: int, j: int|
        0 <= i && j == i + 1 && j < rects.len() ==> (#[trigger] rects[i]).bottom() == (
        #[trigger] rects[j]).y
}

/// No rectangle starts above the row on which an earlier one ends.
pub open spec fn ordered(rects: Seq<Rect>) -> bool {
    forall|i: int, j: int|
        0 <= i < j < rects.len() ==> (#[trigger] rects[i]).bottom() <= (#[trigger] rects[j]).y
}

/// Row `row` is one of the rows of `rect`.
pub open spec fn has_row(rect: Rect, row: int) -> bool {
    rect.y <= row < rect.bottom()
}

/// The rows of `a` and the rows of `b` have no row in common.
pub open spec fn rows_disjoint(a: Rect, b: Rect) -> bool {
    forall|row: int| !(#[trigger] has_row(a, row) && #[trigger] has_row(b, row))
}

/// The heights of all the rectangles, added up.
pub open spec fn total_height(rects: Seq<Rect>) -> int
    decreases rects.len(),
{
    if rects.len() == 0 {
        0
    } else {
        total_height(rects.drop_last()) + rects.last().height
    }
}

/// The rectangle from the origin of the first of `rects` through the last
/// row of the last, with the width of the first; nothing for no rectangles.
pub open spec fn bounding(rects: Seq<Rect>) -> Result<Option<Rect>, LayoutError> {
    if rects.len() == 0 {
        Ok(None)
    } else {
        let first = rects.first();
        let last = rects.last();
        if last.y < first.y {
            Err(LayoutError::Underflow)
        } else if last.y - first.y + last.height > u16::MAX {
            Err(LayoutError::Overflow)
        } else {
            Ok(
                Some(
                    Rect {
                        x: first.x,
                        y: first.y,
                        width: first.width,
                        height: (last.y - first.y + last.height) as u16,
                    },
                ),
            )
        }
    }
}

/// A list of consumed rectangles that can be merged into one.
pub trait CombinedRect {
    /// The rectangles, in order.
    spec fn rects(&self) -> Seq<Rect>;

    /// The rectangle that spans from the first to the last of the list.
    ///
    /// Returns `Ok(None)` for an empty list. Fails with `Underflow` when the
    /// last rectangle starts above the first, and with `Overflow` when the
    /// span is higher than `u16::MAX` rows.
    fn combined(&self) -> (r: Result<Option<Rect>, LayoutError>)
        ensures
            r == bounding(self.rects()),
    ;
}

impl CombinedRect for Vec<Rect> {
    open spec fn rects(&self) -> Seq<Rect> {
        self@
    }

    fn combined(&self) -> (r: Result<Option<Rect>, LayoutError>) {
        if self.len() == 0 {
            return Ok(None);
        }
        let first = self[0];
        let last = self[self.len() - 1];
        if last.y < first.y {
            return Err(LayoutError::Underflow);
        }
        let height: u32 = (last.y - first.y) as u32 + last.height as u32;
        if height > u16::MAX as u32 {
            return Err(LayoutError::Overflow);
        }
        Ok(Some(Rect { x: first.x, y: first.y, width: first.width, height: height as u16 }))
    }
}

/// In an ordered list no two rectangles share a row.
pub proof fn lemma_ordered_is_disjoint(rects: Seq<Rect>)
    requires
        ordered(rects),
    ensures
        forall|i: int, j: int|
            0 <= i < j < rects.len() ==> rows_disjoint(#[trigger] rects[i], #[trigger] rects[j]),
{
}

/// Rectangles that are stacked are also ordered, so no two of them share a
/// row.
pub proof fn lemma_stacked_is_ordered(rects: Seq<Rect>)
    requires
        stacked(rects),
    ensures
        ordered(rects),
        forall|i: int, j: int|
            0 <= i < j < rects.len() ==> rows_disjoint(#[trigger] rects[i], #[trigger] rects[j]),
{
    assert forall|i: int, j: int| 0 <= i < j < rects.len() implies (#[trigger] rects[i]).bottom()
        <= (#[trigger] rects[j]).y by {
        lemma_stacked_span(rects, i, j);
    }
}

/// In a stacked list, a later rectangle starts exactly as far below an
/// earlier one as the heights in between add up to.
pub proof fn lemma_stacked_span(rects: Seq<Rect>, i: int, j: int)
    requires
        stacked(rects),
        0 <= i <= j < rects.len(),
    ensures
        rects[j].y - rects[i].y == total_height(rects.subrange(i, j)),
        i < j ==> rects[i].bottom() <= rects[j].y,
    decreases j - i,
{
    if i == j {
        assert(rects.subrange(i, j) =~= Seq::<Rect>::empty());
    } else {
        lemma_stacked_span(rects, i, j - 1);
        assert(rects.subrange(i, j).drop_last() =~= rects.subrange(i, j - 1));
        assert(rects.subrange(i, j).last() == rects[j - 1]);
        assert(rects[j - 1].bottom() == rects[j].y);
    }
}

/// Merging a non-empty stacked list gives the origin and width of its first
/// rectangle and the sum of all heights, provided that sum fits in `u16`.
pub proof fn lemma_combined_of_stacked(rects: Seq<Rect>)
    requires
        rects.len() > 0,
        stacked(rects),
    ensures
        bounding(rects) == if total_height(rects) > u16::MAX {
            Err::<Option<Rect>, LayoutError>(LayoutError::Overflow)
        } else {
            Ok(
                Some(
                    Rect {
                        x: rects.first().x,
                        y: rects.first().y,
                        width: rects.first().width,
                        height: total_height(rects) as u16,
                    },
                ),
            )
        },
{
    let n = rects.len() as int;
    lemma_stacked_span(rects, 0, n - 1);
    assert(rects.drop_last() =~= rects.subrange(0, n - 1));
}

/// Taking a column away and giving it back changes nothing, and neither
/// does giving one and taking it away.
pub proof fn lemma_left_inverts_right(rect: Rect)
    ensures
        rect.spec_right() matches Ok(shrunk) ==> shrunk.spec_left() == Ok::<Rect, LayoutError>(rect),
        rect.spec_left() matches Ok(grown) ==> grown.spec_right() == Ok::<Rect, LayoutError>(rect),
{
}

/// Moving the origin to the right leaves the right edge, the rows and the
/// height where they are; so does moving it to the left.
pub proof fn lemma_right_edge_stays(rect: Rect, n: u16)
    ensures
        rect.spec_right_n(n) matches Ok(shrunk) ==> shrunk.right_edge() == rect.right_edge()
            && shrunk.x == rect.x + n && shrunk.y == rect.y && shrunk.height == rect.height,
        rect.spec_left() matches Ok(grown) ==> grown.right_edge() == rect.right_edge() && grown.x
            == rect.x - 1 && grown.y == rect.y && grown.height == rect.height,
{
}

/// Moving the origin to the right in two steps is moving it by both at once,
/// and fails with `Overflow` where the two steps together exceed `u16::MAX`.
pub proof fn lemma_right_n_adds_up(rect: Rect, a: u16, b: u16)
    ensures
        rect.spec_right_n(a) matches Ok(first) ==> first.spec_right_n(b) == if a + b > u16::MAX {
            Err::<Rect, LayoutError>(LayoutError::Overflow)
        } else {
            rect.spec_right_n((a + b) as u16)
        },
{
}

/// A rectangle extended by rectangles that are stacked from the row past it
/// on reaches from its own first row through the last row of the last of
/// them, and keeps its column and width. Its height is its own and theirs
/// added up, and it fails with `Overflow` where that exceeds `u16::MAX`.
pub proof fn lemma_spanning_stacked(rect: Rect, rects: Seq<Rect>)
    requires
        rects.len() > 0,
        stacked(rects),
        rects.first().y == rect.bottom(),
    ensures
        rects.last().bottom() - rect.y == rect.height + total_height(rects),
        rect.spec_spanning(rects) == if rects.last().bottom() - rect.y > u16::MAX {
            Err::<Rect, LayoutError>(LayoutError::Overflow)
        } else {
            Ok(
                Rect {
                    x: rect.x,
                    y: rect.y,
                    width: rect.width,
                    height: (rects.last().bottom() - rect.y) as u16,
                },
            )
        },
{
    let n = rects.len() as int;
    lemma_stacked_span(rects, 0, n - 1);
    assert(rects.drop_last() =~= rects.subrange(0, n - 1));
}

/// A rectangle extended by one that lies directly below it covers exactly
/// the rows of both.
pub proof fn lemma_to_covers_both(upper: Rect, lower: Rect)
    requires
        upper.bottom() == lower.y,
    ensures
        upper.spec_to(lower) matches Ok(whole) ==> whole.y == upper.y && whole.bottom()
            == lower.bottom(),
{
}

} // verus!
