//! The root of the screen: the clips whose path matches a query.

use vstd::prelude::*;

use crate::children::{Children, ChildrenView};
use crate::clip::{fresh_clip, Clip, ClipView};
use crate::cues::Cues;
use crate::frame::{lemma_write_within_then, lemma_write_within_wider, Frame};
use crate::helpers::action::Event;
use crate::helpers::{lemma_spanning_stacked, total_height, LayoutError, Rect, SelectionState};
use crate::slider::{lemma_text_at_within, text_at, SliderState};
use crate::traits::{
    lemma_keep_below_both, lemma_keep_below_higher, Draw, Drawn, Handled, Input,
};

verus! {

/// The lowercase form of a text, as `str::to_lowercase` gives it.
pub uninterp spec fn lowercase(text: Seq<char>) -> Seq<char>;

/// `str::to_lowercase` of the standard library: the result is the lowercase
/// form of `text`, which depends on the characters of `text` alone.
#[verifier::external_body]
fn to_lowercase(text: &str) -> (r: String)
    ensures
        r@ == lowercase(text@),
{
    text.to_lowercase()
}

/// `needle` stands in `hay` from position `i` on.
pub open spec fn occurs_at(hay: Seq<char>, needle: Seq<char>, i: int) -> bool {
    0 <= i && i + needle.len() <= hay.len() && hay.subrange(i, i + needle.len()) == needle
}

/// `needle` stands somewhere in `hay`.
pub open spec fn occurs_in(hay: Seq<char>, needle: Seq<char>) -> bool {
    exists|i: int| #[trigger] occurs_at(hay, needle, i)
}

/// `str::contains` of the standard library, with a string as the pattern:
/// the result tells whether `needle` is a part of `hay`.
#[verifier::external_body]
fn contains(hay: &str, needle: &str) -> (r: bool)
    ensures
        r == occurs_in(hay@, needle@),
{
    hay.contains(needle)
}

/// The path matches the query: without regard to case, the query is a part
/// of the path.
pub open spec fn matches_query(path: Seq<char>, query: Seq<char>) -> bool {
    occurs_in(lowercase(path), lowercase(query))
}

/// Of `paths`, each given as the path itself and the text to search in,
/// those whose text holds `wanted`, in their order.
pub open spec fn picked(paths: Seq<(Seq<char>, Seq<char>)>, wanted: Seq<char>) -> Seq<Seq<char>> {
    paths.filter(|pair: (Seq<char>, Seq<char>)| occurs_in(pair.1, wanted)).map_values(
        |pair: (Seq<char>, Seq<char>)| pair.0,
    )
}

/// Those of `paths` that match `query`, in their order.
pub open spec fn found(paths: Seq<Seq<char>>, query: Seq<char>) -> Seq<Seq<char>> {
    paths.filter(|path: Seq<char>| matches_query(path, query))
}

/// Each path together with its lowercase form.
pub open spec fn with_lowercase(paths: Seq<Seq<char>>) -> Seq<(Seq<char>, Seq<char>)> {
    paths.map_values(|path: Seq<char>| (path, lowercase(path)))
}

/// What is picked from a list is what is picked from the list without its
/// last path, followed by the last path if its text holds what is wanted.
pub proof fn lemma_picked_step(paths: Seq<(Seq<char>, Seq<char>)>, wanted: Seq<char>)
    requires
        paths.len() > 0,
    ensures
        picked(paths, wanted) == if occurs_in(paths.last().1, wanted) {
            picked(paths.drop_last(), wanted).push(paths.last().0)
        } else {
            picked(paths.drop_last(), wanted)
        },
{
    reveal_with_fuel(Seq::filter, 2);
    let holds = |pair: (Seq<char>, Seq<char>)| occurs_in(pair.1, wanted);
    let path_of = |pair: (Seq<char>, Seq<char>)| pair.0;
    let before = paths.drop_last().filter(holds);
    if occurs_in(paths.last().1, wanted) {
        assert(paths.filter(holds) == before.push(paths.last()));
        assert(before.push(paths.last()).map_values(path_of) =~= before.map_values(path_of).push(
            paths.last().0,
        ));
    } else {
        assert(paths.filter(holds) == before);
    }
}

/// Looking for the lowercase query in the lowercase form of each path finds
/// the paths that match the query.
pub proof fn lemma_found_by_lowercase(paths: Seq<Seq<char>>, query: Seq<char>)
    ensures
        found(paths, query) == picked(with_lowercase(paths), lowercase(query)),
    decreases paths.len(),
{
    reveal_with_fuel(Seq::filter, 2);
    if paths.len() == 0 {
        assert(picked(with_lowercase(paths), lowercase(query)) =~= Seq::<Seq<char>>::empty());
        assert(found(paths, query) =~= Seq::<Seq<char>>::empty());
    } else {
        lemma_found_by_lowercase(paths.drop_last(), query);
        lemma_picked_step(with_lowercase(paths), lowercase(query));
        assert(with_lowercase(paths).drop_last() =~= with_lowercase(paths.drop_last()));
    }
}

/// The texts of `paths`.
pub open spec fn texts(paths: Seq<String>) -> Seq<Seq<char>> {
    Seq::new(paths.len(), |i: int| paths[i]@)
}

/// The texts of `paths`, pair by pair.
pub open spec fn text_pairs(paths: Seq<(String, String)>) -> Seq<(Seq<char>, Seq<char>)> {
    Seq::new(paths.len(), |i: int| (paths[i].0@, paths[i].1@))
}

/// The clips found for a query.
pub struct Search {
    query: String,
    clips: Children<Clip>,
}

/// The state of a [`Search`]: the query and the state of the clips.
#[verifier::ext_equal]
pub ghost struct SearchView {
    pub query: Seq<char>,
    pub clips: ChildrenView<ClipView<SliderState>>,
}

impl View for Search {
    type V = SearchView;

    closed spec fn view(&self) -> SearchView {
        SearchView { query: self.query@, clips: self.clips@ }
    }
}

impl Search {
    /// The search for `query` among `paths`: one fresh clip, named by its
    /// path, for each path that matches the query, in the order of `paths`.
    /// The first clip is active and none is selected.
    pub fn query(query: String, paths: Vec<String>) -> (r: Search)
        ensures
            r@.query == query@,
            r@.clips.active == 0,
            r@.clips.selected == Set::<int>::empty(),
            r@.clips.children == found(texts(paths@), query@).map_values(
                |name: Seq<char>| fresh_clip(name),
            ),
    {
        let wanted = to_lowercase(query.as_str());
        let mut lowered: Vec<(String, String)> = Vec::new();
        let mut i: usize = 0;
        while i < paths.len()
            invariant
                i <= paths@.len(),
                lowered@.len() == i,
                forall|j: int|
                    0 <= j < i ==> (#[trigger] lowered@[j]).0@ == paths@[j]@ && lowered@[j].1@
                        == lowercase(paths@[j]@),
            decreases paths@.len() - i,
        {
            let path = paths[i].clone();
            let low = to_lowercase(path.as_str());
            lowered.push((path, low));
            i = i + 1;
        }
        proof {
            assert(text_pairs(lowered@) =~= with_lowercase(texts(paths@)));
            lemma_found_by_lowercase(texts(paths@), query@);
        }
        Search::among(query, wanted.as_str(), lowered)
    }

    /// The search for `query` among `paths`, where each path comes with the
    /// text to search in and `wanted` is the text to search for: one fresh
    /// clip, named by its path, for each path whose text holds `wanted`, in
    /// the order of `paths`. The first clip is active and none is selected.
    pub fn among(query: String, wanted: &str, paths: Vec<(String, String)>) -> (r: Search)
        ensures
            r@.query == query@,
            r@.clips.active == 0,
            r@.clips.selected == Set::<int>::empty(),
            r@.clips.children == picked(text_pairs(paths@), wanted@).map_values(
                |name: Seq<char>| fresh_clip(name),
            ),
    {
        let mut clips: Vec<Box<Clip>> = Vec::new();
        let mut i: usize = 0;
        proof {
            reveal_with_fuel(Seq::filter, 1);
            assert(picked(text_pairs(paths@).take(0), wanted@) =~= Seq::<Seq<char>>::empty());
        }
        while i < paths.len()
            invariant
                i <= paths@.len(),
                clips@.len() == picked(text_pairs(paths@).take(i as int), wanted@).len(),
                forall|j: int|
                    0 <= j < clips@.len() ==> (#[trigger] clips@[j])@ == fresh_clip(
                        picked(text_pairs(paths@).take(i as int), wanted@)[j],
                    ),
            decreases paths@.len() - i,
        {
            let path = paths[i].0.clone();
            proof {
                let before = text_pairs(paths@).take(i as int);
                let now = text_pairs(paths@).take(i + 1);
                assert(now.drop_last() =~= before);
                assert(now.last() == (path@, paths@[i as int].1@));
                lemma_picked_step(now, wanted@);
            }
            if contains(paths[i].1.as_str(), wanted) {
                clips.push(Box::new(Clip::new(path)));
            }
            i = i + 1;
        }
        assert(text_pairs(paths@).take(paths@.len() as int) =~= text_pairs(paths@));
        let ghost boxes = clips@;
        let r = Search { query, clips: Children::new(clips) };
        assert(r@.clips.children =~= picked(text_pairs(paths@), wanted@).map_values(
            |name: Seq<char>| fresh_clip(name),
        )) by {
            assert forall|j: int| 0 <= j < boxes.len() implies r@.clips.children[j] == fresh_clip(
                picked(text_pairs(paths@), wanted@)[j],
            ) by {
                assert(r@.clips.children[j] == boxes[j]@);
            }
        }
        r
    }

    /// The clips that were found.
    pub fn clips(&self) -> (r: &Children<Clip>)
        ensures
            r@ == self@.clips,
    {
        &self.clips
    }
}

impl Draw for Search {
    /// The word "Search" stands at the origin of the rectangle and the clips
    /// follow from the place past the rectangle, drawn with the emphasis of
    /// the search handed on. The search reports the rectangle it was given,
    /// extended downwards through the last row of its last clip.
    open spec fn drawn(model: SearchView, rect: Rect, state: SelectionState) -> Result<
        Drawn,
        LayoutError,
    > {
        match rect.spec_next() {
            Err(e) => Err(e),
            Ok(below) => match Children::<Clip>::drawn(model.clips, below, state) {
                Err(e) => Err(e),
                Ok(all) => match rect.spec_spanning(all.rects) {
                    Err(e) => Err(e),
                    Ok(whole) => Ok(
                        Drawn { rect: whole, commands: text_at(rect, "Search"@) + all.commands },
                    ),
                },
            },
        }
    }

    proof fn lemma_drawn_from_row(model: SearchView, rect: Rect, state: SelectionState) {
        if Self::drawn(model, rect, state) is Ok {
            let below = rect.spec_next()->Ok_0;
            let all = Children::<Clip>::drawn(model.clips, below, state)->Ok_0;
            Children::<Clip>::lemma_drawn_from(model.clips, 0, below, state);
            lemma_keep_below_higher(all.commands, below.y as int, rect.y as int);
            lemma_keep_below_both(text_at(rect, "Search"@), all.commands, rect.y as int);
        }
    }

    proof fn lemma_drawn_within(model: SearchView, rect: Rect, state: SelectionState) {
        if Self::drawn(model, rect, state) is Ok {
            let below = rect.spec_next()->Ok_0;
            let all = Children::<Clip>::drawn(model.clips, below, state)->Ok_0;
            let whole = rect.spec_spanning(all.rects)->Ok_0;
            let heading = text_at(rect, "Search"@);
            let low = rect.y as int;
            let high = whole.bottom();
            Children::<Clip>::lemma_drawn_from(model.clips, 0, below, state);
            Children::<Clip>::lemma_drawn_from_within(model.clips, 0, below, state);
            if all.rects.len() > 0 {
                lemma_spanning_stacked(rect, all.rects);
                lemma_text_at_within(rect, "Search"@, None, low, high);
                lemma_write_within_wider(
                    all.commands,
                    None,
                    below.y as int,
                    all.rects.last().bottom(),
                    low,
                    high,
                );
                lemma_write_within_then(heading, all.commands, None, low, high);
            } else {
                lemma_text_at_within(rect, "Search"@, None, low, high);
                assert(heading + all.commands =~= heading);
            }
        }
    }

    fn draw(&self, rect: Rect, state: SelectionState, frame: &mut Frame) -> (r: Result<
        Rect,
        LayoutError,
    >) {
        let mark = frame.len();
        frame.push(rect.pos());
        frame.print("Search");
        let below = match rect.next() {
            Ok(below) => below,
            Err(e) => {
                frame.rewind(mark);
                assert(frame@ =~= old(frame)@);
                return Err(e);
            },
        };
        let rects = match self.clips.draw(below, state, frame) {
            Ok(rects) => rects,
            Err(e) => {
                frame.rewind(mark);
                assert(frame@ =~= old(frame)@);
                return Err(e);
            },
        };
        match rect.spanning(&rects) {
            Ok(whole) => {
                assert(frame@ =~= old(frame)@ + Self::drawn(self@, rect, state)->Ok_0.commands);
                Ok(whole)
            },
            Err(e) => {
                frame.rewind(mark);
                assert(frame@ =~= old(frame)@);
                Err(e)
            },
        }
    }
}

/// A search can be drawn exactly when its clips have a place to start and
/// can be drawn there: once that is so, extending the search's rectangle
/// through its clips cannot fail.
pub proof fn lemma_search_fits_when_its_clips_fit(
    model: SearchView,
    rect: Rect,
    state: SelectionState,
)
    ensures
        Search::drawn(model, rect, state) is Ok <==> {
            &&& rect.spec_next() matches Ok(below)
            &&& Children::<Clip>::drawn(model.clips, below, state) is Ok
        },
{
    if rect.spec_next() is Ok {
        let below = rect.spec_next()->Ok_0;
        if Children::<Clip>::drawn(model.clips, below, state) is Ok {
            Children::<Clip>::lemma_parent_extent_exists(model.clips, rect, below, state);
        }
    }
}

/// A search that was drawn reports the column, the first row and the width
/// of the rectangle it was given. Without clips it reports that rectangle;
/// with clips its report ends on the row on which the report of its last
/// clip ends, and is as high as the given rectangle and the reports of its
/// clips together.
pub proof fn lemma_search_reports_its_extent(model: SearchView, rect: Rect, state: SelectionState)
    requires
        Search::drawn(model, rect, state) is Ok,
    ensures
        ({
            let d = Search::drawn(model, rect, state)->Ok_0;
            let below = rect.spec_next()->Ok_0;
            let rects = Children::<Clip>::drawn(model.clips, below, state)->Ok_0.rects;
            &&& d.rect.x == rect.x
            &&& d.rect.y == rect.y
            &&& d.rect.width == rect.width
            &&& rects.len() == model.clips.children.len()
            &&& rects.len() == 0 ==> d.rect == rect
            &&& rects.len() > 0 ==> d.rect.bottom() == rects.last().bottom()
            &&& d.rect.height == rect.height + total_height(rects)
        }),
{
    let below = rect.spec_next()->Ok_0;
    Children::<Clip>::lemma_drawn_from(model.clips, 0, below, state);
    let rects = Children::<Clip>::drawn(model.clips, below, state)->Ok_0.rects;
    if rects.len() > 0 {
        lemma_spanning_stacked(rect, rects);
    }
}

impl Input for Search {
    /// Every event goes to the active clip.
    open spec fn handled(model: SearchView, event: Event) -> Handled<SearchView> {
        let routed = Children::<Clip>::routed(model.clips, event);
        Handled {
            after: SearchView { query: model.query, clips: routed.after },
            reply: routed.reply,
            cues: routed.cues,
        }
    }

    proof fn lemma_reply(model: SearchView, event: Event) {
        Children::<Clip>::lemma_route_reply(model.clips, event);
    }

    fn handle_input(&mut self, event: Event, cues: &mut Cues) -> (r: Option<Event>) {
        self.clips.route_input(event, cues)
    }
}

} // verus!
