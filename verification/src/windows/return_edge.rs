//! Handing focus back when the cursor leaves the PC.

use vstd::prelude::*;

use crate::screen;
use crate::screen::{steps, Screen, ScreenModel, Side};
use crate::text;

verus! {

/// The edge of the PC's screen whose crossing hands focus back to the
/// server. This is the mirror image of the server's own configured edge:
/// with the PC's monitors above the Mac, the server hands over at the top
/// and the PC hands back at the bottom.
#[derive(Debug, Clone, Copy, PartialEq, Eq, Structural)]
pub enum ReturnEdge {
    Top,
    Bottom,
    Left,
    Right,
}

/// The side of the screen that an edge is.
pub open spec fn side_of(edge: ReturnEdge) -> Side {
    match edge {
        ReturnEdge::Top => Side::Top,
        ReturnEdge::Bottom => Side::Bottom,
        ReturnEdge::Left => Side::Left,
        ReturnEdge::Right => Side::Right,
    }
}

impl From<ReturnEdge> for Side {
    fn from(edge: ReturnEdge) -> (r: Side) {
        match edge {
            ReturnEdge::Top => Side::Top,
            ReturnEdge::Bottom => Side::Bottom,
            ReturnEdge::Left => Side::Left,
            ReturnEdge::Right => Side::Right,
        }
    }
}

impl vstd::std_specs::convert::FromSpecImpl<ReturnEdge> for Side {
    open spec fn obeys_from_spec() -> bool {
        true
    }

    open spec fn from_spec(edge: ReturnEdge) -> Side {
        side_of(edge)
    }
}

/// The edge that a name stands for.
pub open spec fn edge_named(name: Seq<char>) -> Option<ReturnEdge> {
    if name == "top"@ {
        Some(ReturnEdge::Top)
    } else if name == "bottom"@ {
        Some(ReturnEdge::Bottom)
    } else if name == "left"@ {
        Some(ReturnEdge::Left)
    } else if name == "right"@ {
        Some(ReturnEdge::Right)
    } else {
        None
    }
}

impl ReturnEdge {
    /// Parses an edge's name. `None` for anything else, so an unknown name
    /// is a named configuration error rather than a silently ignored typo.
    pub fn parse(raw: &str) -> (r: Option<ReturnEdge>)
        ensures
            r == edge_named(raw@),
    {
        if text::same(raw, "top") {
            Some(ReturnEdge::Top)
        } else if text::same(raw, "bottom") {
            Some(ReturnEdge::Bottom)
        } else if text::same(raw, "left") {
            Some(ReturnEdge::Left)
        } else if text::same(raw, "right") {
            Some(ReturnEdge::Right)
        } else {
            None
        }
    }
}

/// Where the real cursor is. A trait so that what goes by it can be tried
/// without a desktop.
pub trait CursorSource {
    /// The cursor's position in pixels, or `None` if it cannot be read. A
    /// failure is no evidence that the cursor is at an edge.
    fn cursor_position(&self) -> (r: Option<(i32, i32)>);
}

/// Where along the edge, relative to the anchor, the cursor left.
pub open spec fn return_at(
    edge: ReturnEdge,
    anchor: Option<i64>,
    screen: ScreenModel,
    position: Option<(i32, i32)>,
) -> Option<int> {
    match position {
        None => None,
        Some((x, y)) => match screen.crossing(
            side_of(edge),
            screen::in_steps(x as int),
            screen::in_steps(y as int),
        ) {
            None => None,
            Some(along) => Some(along - screen.anchor_on(side_of(edge), anchor)),
        },
    }
}

/// Whether the cursor has reached an outward-facing part of the edge, and
/// if so how far along it is, relative to this machine's anchor.
///
/// Never so if the position could not be read, nor on a seam between two
/// of this PC's own monitors.
pub fn return_crossing(
    edge: ReturnEdge,
    anchor: Option<i64>,
    screen: &Screen,
    position: Option<(i32, i32)>,
) -> (r: Option<i64>)
    ensures
        match r {
            None => return_at(edge, anchor, screen@, position) is None,
            Some(along) => return_at(edge, anchor, screen@, position) == Some(along as int),
        },
{
    match position {
        None => None,
        Some((x, y)) => {
            let side: Side = Side::from(edge);
            match screen.at_outer_edge(side, steps(x), steps(y)) {
                None => None,
                Some(along) => Some(along as i64 - screen.anchor(side, anchor) as i64),
            }
        },
    }
}

/// An edge is named as it is, in lower case, and nothing else names one. It
/// is the side of the same name.
pub proof fn law_an_edge_goes_by_its_name(name: Seq<char>)
    ensures
        (edge_named(name) is Some && side_of(edge_named(name)->0) == Side::Top) <==> name == "top"@,
        (edge_named(name) is Some && side_of(edge_named(name)->0) == Side::Bottom) <==> name == "bottom"@,
        (edge_named(name) is Some && side_of(edge_named(name)->0) == Side::Left) <==> name == "left"@,
        (edge_named(name) is Some && side_of(edge_named(name)->0) == Side::Right) <==> name == "right"@,
        edge_named(name) is Some <==> name == "top"@ || name == "bottom"@ || name == "left"@ || name == "right"@,
        edge_named(name) == Some(ReturnEdge::Top) <==> name == "top"@,
        edge_named(name) == Some(ReturnEdge::Bottom) <==> name == "bottom"@,
        edge_named(name) == Some(ReturnEdge::Left) <==> name == "left"@,
        edge_named(name) == Some(ReturnEdge::Right) <==> name == "right"@,
{
    reveal_strlit("top");
    reveal_strlit("bottom");
    reveal_strlit("left");
    reveal_strlit("right");
    assert("top"@[0] == 't');
    assert("bottom"@[0] == 'b');
    assert("left"@[0] == 'l');
    assert("right"@[0] == 'r');
}

/// A cursor on one of the PC's monitors leaves it exactly if it is in the last
/// row or column of pixels on the edge and none of the PC's own monitors lies
/// beyond it there. The anchor and how far from it the cursor left make up
/// where it left.
pub proof fn law_the_cursor_leaves_where_nothing_lies_beyond(
    edge: ReturnEdge,
    anchor: Option<i64>,
    screen: ScreenModel,
    i: int,
    x: i32,
    y: i32,
)
    requires
        screen.laid_out(),
        0 <= i < screen.monitors.len(),
        screen.monitors[i].has(x * 256, y * 256),
    ensures
        return_at(edge, anchor, screen, None) is None,
        ({
            let m = screen.monitors[i];
            let last = match edge {
                ReturnEdge::Top => y * 256 == m.min_y,
                ReturnEdge::Bottom => y * 256 + 256 >= m.max_y,
                ReturnEdge::Left => x * 256 == m.min_x,
                ReturnEdge::Right => x * 256 + 256 >= m.max_x,
            };
            let blocked = exists|j: int|
                0 <= j < screen.monitors.len() && j != i && screen::covers_beyond(
                    m,
                    #[trigger] screen.monitors[j],
                    side_of(edge),
                    x * 256,
                    y * 256,
                );
            match return_at(edge, anchor, screen, Some((x, y))) {
                None => !last || blocked,
                Some(along) => last && !blocked && along + screen.anchor_on(side_of(edge), anchor) == if edge
                    == ReturnEdge::Top || edge == ReturnEdge::Bottom {
                    x * 256
                } else {
                    y * 256
                },
            }
        }),
{
    screen::law_a_crossing_is_at_the_monitors_own_edge(screen, side_of(edge), i, x * 256, y * 256);
}

} // verus!
