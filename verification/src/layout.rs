//! The integer part of the source-relative layout: the box that encloses all
//! selected source windows on the desktop.
use vstd::prelude::*;
use crate::model::WindowInfo;

verus! {

/// The origin and size of the box around the source windows; a size is at
/// least one pixel so that it can divide.
#[derive(Clone, Copy, Debug, PartialEq, Eq, Structural)]
pub struct SourceBounds {
    pub left: i32,
    pub top: i32,
    pub width: i64,
    pub height: i64,
}

/// Bound `k` of the box around `windows`: the smallest left (`k == 0`) or top
/// (`k == 1`) edge, the largest right (`k == 2`) or bottom (`k == 3`) edge.
pub open spec fn is_box_edge(windows: Seq<WindowInfo>, k: int, value: i32) -> bool {
    &&& exists|i: int| 0 <= i < windows.len() && #[trigger] windows[i].rect[k] == value
    &&& forall|i: int|
        0 <= i < windows.len() ==> if k < 2 {
            value <= #[trigger] windows[i].rect[k]
        } else {
            windows[i].rect[k] <= value
        }
}

pub open spec fn at_least_one(span: int) -> int {
    if span >= 1 { span } else { 1 }
}

/// The box enclosing `windows`, or `None` when there is no window.
pub fn source_bounds(windows: &[WindowInfo]) -> (bounds: Option<SourceBounds>)
    ensures
        bounds is None <==> windows@.len() == 0,
        bounds matches Some(b) ==> exists|right: i32, bottom: i32| {
            &&& is_box_edge(windows@, 0, b.left)
            &&& is_box_edge(windows@, 1, b.top)
            &&& is_box_edge(windows@, 2, right)
            &&& is_box_edge(windows@, 3, bottom)
            &&& b.width == at_least_one(right - b.left)
            &&& b.height == at_least_one(bottom - b.top)
        },
{
    if windows.len() == 0 {
        return None;
    }
    let mut left = windows[0].rect[0];
    let mut top = windows[0].rect[1];
    let mut right = windows[0].rect[2];
    let mut bottom = windows[0].rect[3];
    let mut i: usize = 1;
    while i < windows.len()
        invariant
            1 <= i <= windows@.len(),
            exists|j: int| 0 <= j < i && #[trigger] windows@[j].rect[0] == left,
            exists|j: int| 0 <= j < i && #[trigger] windows@[j].rect[1] == top,
            exists|j: int| 0 <= j < i && #[trigger] windows@[j].rect[2] == right,
            exists|j: int| 0 <= j < i && #[trigger] windows@[j].rect[3] == bottom,
            forall|j: int| 0 <= j < i ==> left <= #[trigger] windows@[j].rect[0],
            forall|j: int| 0 <= j < i ==> top <= #[trigger] windows@[j].rect[1],
            forall|j: int| 0 <= j < i ==> #[trigger] windows@[j].rect[2] <= right,
            forall|j: int| 0 <= j < i ==> #[trigger] windows@[j].rect[3] <= bottom,
        decreases windows@.len() - i,
    {
        let rect = windows[i].rect;
        if rect[0] < left {
            left = rect[0];
        }
        if rect[1] < top {
            top = rect[1];
        }
        if rect[2] > right {
            right = rect[2];
        }
        if rect[3] > bottom {
            bottom = rect[3];
        }
        i = i + 1;
    }
    let width_span = right as i64 - left as i64;
    let height_span = bottom as i64 - top as i64;
    let bounds = SourceBounds {
        left,
        top,
        width: if width_span >= 1 { width_span } else { 1 },
        height: if height_span >= 1 { height_span } else { 1 },
    };
    proof {
        assert(is_box_edge(windows@, 0, left));
        assert(is_box_edge(windows@, 1, top));
        assert(is_box_edge(windows@, 2, right));
        assert(is_box_edge(windows@, 3, bottom));
    }
    Some(bounds)
}

} // verus!
