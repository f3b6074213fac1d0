//! The Mac's desktop as a whole.

use vstd::prelude::*;

use crate::screen::Rect;

verus! {

/// The bounds of the whole desktop, in the same steps as a
/// [`crate::screen::Rect`]. A display above or to the left of the main one
/// makes `min_y` or `min_x` negative.
#[derive(Debug, Clone, Copy, PartialEq, Eq, Structural)]
pub struct Bounds {
    pub min_x: i32,
    pub min_y: i32,
    pub max_x: i32,
    pub max_y: i32,
}

impl Bounds {
    /// The bounds of one display.
    pub open spec fn of(rect: Rect) -> Bounds {
        Bounds { min_x: rect.min_x, min_y: rect.min_y, max_x: rect.max_x, max_y: rect.max_y }
    }

    /// The smallest bounds around these and one more display.
    pub open spec fn around(self, rect: Rect) -> Bounds {
        Bounds {
            min_x: if rect.min_x < self.min_x {
                rect.min_x
            } else {
                self.min_x
            },
            min_y: if rect.min_y < self.min_y {
                rect.min_y
            } else {
                self.min_y
            },
            max_x: if rect.max_x > self.max_x {
                rect.max_x
            } else {
                self.max_x
            },
            max_y: if rect.max_y > self.max_y {
                rect.max_y
            } else {
                self.max_y
            },
        }
    }

    /// Whether a display lies within these bounds.
    pub open spec fn hold(self, rect: Rect) -> bool {
        self.min_x <= rect.min_x && self.min_y <= rect.min_y && rect.max_x <= self.max_x && rect.max_y
            <= self.max_y
    }
}

/// The smallest bounds around a number of displays.
pub open spec fn union_of(rects: Seq<Rect>) -> Option<Bounds>
    decreases rects.len(),
{
    if rects.len() == 0 {
        None
    } else {
        match union_of(rects.drop_last()) {
            None => Some(Bounds::of(rects.last())),
            Some(bounds) => Some(bounds.around(rects.last())),
        }
    }
}

/// The smallest bounds around a number of displays. There are none around
/// no display.
pub fn union_rects(rects: &Vec<Rect>) -> (r: Option<Bounds>)
    ensures
        r == union_of(rects@),
{
    let mut all: Option<Bounds> = None;
    let mut i: usize = 0;
    assert(rects@.take(0) =~= Seq::<Rect>::empty());
    while i < rects.len()
        invariant
            i <= rects@.len(),
            all == union_of(rects@.take(i as int)),
        decreases rects@.len() - i,
    {
        assert(rects@.take(i + 1).drop_last() =~= rects@.take(i as int));
        let rect: Rect = rects[i];
        let mut next = Bounds {
            min_x: rect.min_x,
            min_y: rect.min_y,
            max_x: rect.max_x,
            max_y: rect.max_y,
        };
        if let Some(bounds) = all {
            if bounds.min_x <= next.min_x {
                next.min_x = bounds.min_x;
            }
            if bounds.min_y <= next.min_y {
                next.min_y = bounds.min_y;
            }
            if bounds.max_x >= next.max_x {
                next.max_x = bounds.max_x;
            }
            if bounds.max_y >= next.max_y {
                next.max_y = bounds.max_y;
            }
        }
        all = Some(next);
        i = i + 1;
    }
    assert(rects@.take(i as int) =~= rects@);
    all
}

/// The bounds hold every display.
pub proof fn law_every_display_is_held(rects: Seq<Rect>)
    ensures
        rects.len() > 0 <==> union_of(rects) is Some,
        forall|i: int| 0 <= i < rects.len() ==> union_of(rects)->0.hold(#[trigger] rects[i]),
    decreases rects.len(),
{
    if rects.len() > 0 {
        law_every_display_is_held(rects.drop_last());
        assert forall|i: int| 0 <= i < rects.len() implies union_of(rects)->0.hold(#[trigger] rects[i]) by {
            if i < rects.len() - 1 {
                assert(rects.drop_last()[i] == rects[i]);
                assert(union_of(rects.drop_last())->0.hold(rects.drop_last()[i]));
            }
        }
    }
}

/// No smaller bounds would do, so the order in which the displays are
/// listed makes no difference.
pub proof fn law_the_bounds_are_the_smallest(rects: Seq<Rect>, other: Bounds)
    requires
        rects.len() > 0,
        forall|i: int| 0 <= i < rects.len() ==> other.hold(#[trigger] rects[i]),
    ensures
        other.min_x <= union_of(rects)->0.min_x,
        other.min_y <= union_of(rects)->0.min_y,
        union_of(rects)->0.max_x <= other.max_x,
        union_of(rects)->0.max_y <= other.max_y,
    decreases rects.len(),
{
    let front = rects.drop_last();
    assert(rects[rects.len() - 1] == rects.last());
    if front.len() > 0 {
        assert forall|i: int| 0 <= i < front.len() implies other.hold(#[trigger] front[i]) by {
            assert(front[i] == rects[i]);
        }
        law_the_bounds_are_the_smallest(front, other);
    }
    law_every_display_is_held(front);
}

} // verus!
