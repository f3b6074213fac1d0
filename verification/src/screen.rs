//! Where the cursor goes when it crosses between the two machines.
//!
//! Every display is a rectangle in its machine's own logical units, and the
//! two machines are placed next to each other along one configured edge at
//! one-to-one scale. The only fact neither system can supply is how far
//! along that edge the machines line up, and that is one number: the
//! anchor.
//!
//! Coordinates are counted in steps of a 256th of a logical unit.

use vstd::prelude::*;

use crate::text;

verus! {

/// One logical unit: a macOS point, a Windows pixel.
pub const UNIT: i32 = 256;

/// The whole of an edge, of which a fraction is counted in parts.
pub const WHOLE: i64 = 0x1_0000_0000;

/// Which side of a machine's desktop faces the peer.
#[derive(Debug, Clone, Copy, PartialEq, Eq, Structural)]
pub enum Side {
    Top,
    Bottom,
    Left,
    Right,
}

/// The side that a name stands for.
pub open spec fn side_named(name: Seq<char>) -> Option<Side> {
    if name == "top"@ {
        Some(Side::Top)
    } else if name == "bottom"@ {
        Some(Side::Bottom)
    } else if name == "left"@ {
        Some(Side::Left)
    } else if name == "right"@ {
        Some(Side::Right)
    } else {
        None
    }
}

impl Side {
    /// Parses a side's name. `None` for anything else, so a typo is a named
    /// configuration error rather than a silently wrong direction.
    pub fn parse(raw: &str) -> (r: Option<Side>)
        ensures
            r == side_named(raw@),
    {
        if text::same(raw, "top") {
            Some(Side::Top)
        } else if text::same(raw, "bottom") {
            Some(Side::Bottom)
        } else if text::same(raw, "left") {
            Some(Side::Left)
        } else if text::same(raw, "right") {
            Some(Side::Right)
        } else {
            None
        }
    }

    /// Whether position along this side is measured from left to right.
    pub open spec fn is_horizontal(self) -> bool {
        self == Side::Top || self == Side::Bottom
    }

    fn horizontal(self) -> (r: bool)
        ensures
            r == self.is_horizontal(),
    {
        match self {
            Side::Top | Side::Bottom => true,
            Side::Left | Side::Right => false,
        }
    }
}

/// The value within `lo..=hi` that is nearest to `v`.
pub open spec fn clamped(v: int, lo: int, hi: int) -> int {
    if v < lo {
        lo
    } else if v > hi {
        hi
    } else {
        v
    }
}

/// The last addressable coordinate of a range whose end is exclusive, or
/// its start if the range has none.
pub open spec fn last_of(min: int, max: int) -> int {
    if max - UNIT > min {
        max - UNIT
    } else {
        min
    }
}

fn last(min: i32, max: i32) -> (r: i32)
    ensures
        r == last_of(min as int, max as int),
{
    let end: i64 = max as i64 - UNIT as i64;
    if end > min as i64 {
        end as i32
    } else {
        min
    }
}

fn clamp(v: i64, lo: i32, hi: i32) -> (r: i32)
    requires
        lo <= hi,
    ensures
        r == clamped(v as int, lo as int, hi as int),
{
    if v < lo as i64 {
        lo
    } else if v > hi as i64 {
        hi
    } else {
        v as i32
    }
}

/// A coordinate in whole units. What lies beyond the largest coordinate
/// counts as the largest.
pub open spec fn in_steps(units: int) -> int {
    clamped(units * UNIT, i32::MIN as int, i32::MAX as int)
}

/// A coordinate in whole units.
pub fn steps(units: i32) -> (r: i32)
    ensures
        r == in_steps(units as int),
{
    clamp(units as i64 * UNIT as i64, i32::MIN, i32::MAX)
}

/// The whole units in a coordinate, towards the top and the left.
pub fn whole(steps: i32) -> (r: i32)
    ensures
        r == steps as int / (UNIT as int),
{
    if steps >= 0 {
        steps / UNIT
    } else {
        (-((UNIT as i64 - 1 - steps as i64) / UNIT as i64)) as i32
    }
}

/// One monitor. `max_x` and `max_y` are exclusive, so the last addressable
/// column of a 1920 wide monitor at the origin is 1919.
#[derive(Debug, Clone, Copy, PartialEq, Eq, Structural)]
pub struct Rect {
    pub min_x: i32,
    pub min_y: i32,
    pub max_x: i32,
    pub max_y: i32,
}

impl Rect {
    pub fn new(min_x: i32, min_y: i32, max_x: i32, max_y: i32) -> (r: Rect)
        ensures
            r == (Rect { min_x, min_y, max_x, max_y }),
    {
        Rect { min_x, min_y, max_x, max_y }
    }

    /// From an origin and a size, which is the shape in which platforms
    /// report a monitor. What lies beyond the largest coordinate is cut
    /// off.
    pub fn from_origin_size(x: i32, y: i32, width: i32, height: i32) -> (r: Rect)
        ensures
            r.min_x == x,
            r.min_y == y,
            r.max_x == clamped(x + width, i32::MIN as int, i32::MAX as int),
            r.max_y == clamped(y + height, i32::MIN as int, i32::MAX as int),
    {
        Rect {
            min_x: x,
            min_y: y,
            max_x: clamp(x as i64 + width as i64, i32::MIN, i32::MAX),
            max_y: clamp(y as i64 + height as i64, i32::MIN, i32::MAX),
        }
    }

    /// Whether a point lies on this monitor.
    pub open spec fn has(self, x: int, y: int) -> bool {
        self.min_x <= x < self.max_x && self.min_y <= y < self.max_y
    }

    /// Whether any point lies on this monitor.
    pub open spec fn proper(self) -> bool {
        self.min_x < self.max_x && self.min_y < self.max_y
    }

    pub fn contains(&self, x: i32, y: i32) -> (r: bool)
        ensures
            r == self.has(x as int, y as int),
    {
        x >= self.min_x && x < self.max_x && y >= self.min_y && y < self.max_y
    }

    /// The addressable point of this monitor that is nearest to a point.
    pub open spec fn nearest_to(self, x: int, y: int) -> (int, int) {
        (
            clamped(x, self.min_x as int, last_of(self.min_x as int, self.max_x as int)),
            clamped(y, self.min_y as int, last_of(self.min_y as int, self.max_y as int)),
        )
    }

    fn nearest(&self, x: i64, y: i64) -> (r: (i32, i32))
        ensures
            (r.0 as int, r.1 as int) == self.nearest_to(x as int, y as int),
    {
        (
            clamp(x, self.min_x, last(self.min_x, self.max_x)),
            clamp(y, self.min_y, last(self.min_y, self.max_y)),
        )
    }

    /// How far this monitor is from a point: the square of the distance to
    /// its nearest addressable point.
    pub open spec fn distance_from(self, x: int, y: int) -> int {
        let (nx, ny) = self.nearest_to(x, y);
        (nx - x) * (nx - x) + (ny - y) * (ny - y)
    }

    fn distance(&self, x: i32, y: i32) -> (r: i128)
        ensures
            r == self.distance_from(x as int, y as int),
    {
        let (nx, ny) = self.nearest(x as i64, y as i64);
        let dx: i128 = nx as i128 - x as i128;
        let dy: i128 = ny as i128 - y as i128;
        assert(0 <= dx * dx <= 0x1_0000_0000 * 0x1_0000_0000) by (nonlinear_arith)
            requires
                -0x1_0000_0000 <= dx <= 0x1_0000_0000,
        ;
        assert(0 <= dy * dy <= 0x1_0000_0000 * 0x1_0000_0000) by (nonlinear_arith)
            requires
                -0x1_0000_0000 <= dy <= 0x1_0000_0000,
        ;
        dx * dx + dy * dy
    }

    /// Where this monitor's extent along a side begins.
    pub open spec fn span_lo(self, side: Side) -> int {
        if side.is_horizontal() {
            self.min_x as int
        } else {
            self.min_y as int
        }
    }

    /// Where this monitor's extent along a side ends; exclusive.
    pub open spec fn span_hi(self, side: Side) -> int {
        if side.is_horizontal() {
            self.max_x as int
        } else {
            self.max_y as int
        }
    }

    fn span(&self, side: Side) -> (r: (i32, i32))
        ensures
            r.0 == self.span_lo(side),
            r.1 == self.span_hi(side),
    {
        if side.horizontal() {
            (self.min_x, self.max_x)
        } else {
            (self.min_y, self.max_y)
        }
    }

    /// Where the row or column along a side lies: the last addressable one
    /// at a far side, the first at a near one, so it is always a place
    /// that the cursor can be in.
    pub open spec fn edge_at(self, side: Side) -> int {
        match side {
            Side::Top => self.min_y as int,
            Side::Bottom => last_of(self.min_y as int, self.max_y as int),
            Side::Left => self.min_x as int,
            Side::Right => last_of(self.min_x as int, self.max_x as int),
        }
    }

    fn edge(&self, side: Side) -> (r: i32)
        ensures
            r == self.edge_at(side),
    {
        match side {
            Side::Top => self.min_y,
            Side::Bottom => last(self.min_y, self.max_y),
            Side::Left => self.min_x,
            Side::Right => last(self.min_x, self.max_x),
        }
    }

    /// Whether a point of this monitor lies in the row or column along a
    /// side.
    pub open spec fn on_edge_row(self, side: Side, x: int, y: int) -> bool {
        match side {
            Side::Top => y <= self.min_y,
            Side::Bottom => y >= self.max_y - UNIT,
            Side::Left => x <= self.min_x,
            Side::Right => x >= self.max_x - UNIT,
        }
    }

    fn at_edge(&self, side: Side, x: i32, y: i32) -> (r: bool)
        ensures
            r == self.on_edge_row(side, x as int, y as int),
    {
        match side {
            Side::Top => y <= self.min_y,
            Side::Bottom => y as i64 >= self.max_y as i64 - UNIT as i64,
            Side::Left => x <= self.min_x,
            Side::Right => x as i64 >= self.max_x as i64 - UNIT as i64,
        }
    }
}

/// How far apart two coordinates are.
pub open spec fn apart(a: int, b: int) -> int {
    if a >= b {
        a - b
    } else {
        b - a
    }
}

/// Whether `n` lies immediately beyond a side of `m`, so that the part of
/// that side which `n` covers is a seam between two monitors of the same
/// machine. Monitors within a unit of each other count as touching.
pub open spec fn lies_beyond(m: Rect, n: Rect, side: Side) -> bool {
    match side {
        Side::Top => apart(n.max_y as int, m.min_y as int) <= UNIT,
        Side::Bottom => apart(n.min_y as int, m.max_y as int) <= UNIT,
        Side::Left => apart(n.max_x as int, m.min_x as int) <= UNIT,
        Side::Right => apart(n.min_x as int, m.max_x as int) <= UNIT,
    }
}

fn touching(a: i32, b: i32) -> (r: bool)
    ensures
        r == (apart(a as int, b as int) <= UNIT),
{
    let d: i64 = a as i64 - b as i64;
    -(UNIT as i64) <= d && d <= UNIT as i64
}

fn beyond(m: &Rect, n: &Rect, side: Side) -> (r: bool)
    ensures
        r == lies_beyond(*m, *n, side),
{
    match side {
        Side::Top => touching(n.max_y, m.min_y),
        Side::Bottom => touching(n.min_y, m.max_y),
        Side::Left => touching(n.max_x, m.min_x),
        Side::Right => touching(n.min_x, m.max_x),
    }
}

/// What is left of a range once another is taken out of it: nothing, one
/// range, or one on each side.
pub open spec fn cut(piece: (i32, i32), lo: int, hi: int) -> Seq<(i32, i32)> {
    if hi <= piece.0 || lo >= piece.1 {
        seq![piece]
    } else {
        (if lo > piece.0 {
            seq![(piece.0, lo as i32)]
        } else {
            Seq::empty()
        }) + (if hi < piece.1 {
            seq![(hi as i32, piece.1)]
        } else {
            Seq::empty()
        })
    }
}

/// What is left of several ranges once another is taken out of them.
pub open spec fn subtracted(pieces: Seq<(i32, i32)>, lo: int, hi: int) -> Seq<(i32, i32)>
    decreases pieces.len(),
{
    if pieces.len() == 0 {
        Seq::empty()
    } else {
        subtracted(pieces.drop_last(), lo, hi) + cut(pieces.last(), lo, hi)
    }
}

/// Removes `lo..hi` from a number of ranges.
fn subtract(pieces: &Vec<(i32, i32)>, lo: i32, hi: i32) -> (r: Vec<(i32, i32)>)
    ensures
        r@ == subtracted(pieces@, lo as int, hi as int),
{
    let mut out: Vec<(i32, i32)> = Vec::new();
    let mut i: usize = 0;
    assert(pieces@.take(0) =~= Seq::<(i32, i32)>::empty());
    while i < pieces.len()
        invariant
            i <= pieces@.len(),
            out@ == subtracted(pieces@.take(i as int), lo as int, hi as int),
        decreases pieces@.len() - i,
    {
        let ghost before = out@;
        let (a, b) = pieces[i];
        assert(pieces@.take(i + 1).drop_last() =~= pieces@.take(i as int));
        if hi <= a || lo >= b {
            out.push((a, b));
        } else {
            if lo > a {
                out.push((a, lo));
            }
            if hi < b {
                out.push((hi, b));
            }
        }
        assert(out@ =~= before + cut(pieces@[i as int], lo as int, hi as int));
        i = i + 1;
    }
    assert(pieces@.take(i as int) =~= pieces@);
    out
}

/// Whether a place lies in one of several ranges.
pub open spec fn within(pieces: Seq<(i32, i32)>, at: int) -> bool {
    exists|k: int| 0 <= k < pieces.len() && (#[trigger] pieces[k]).0 <= at < pieces[k].1
}

proof fn lemma_within_sum(a: Seq<(i32, i32)>, b: Seq<(i32, i32)>, at: int)
    ensures
        within(a + b, at) <==> within(a, at) || within(b, at),
{
    if within(a, at) {
        let k = choose|k: int| 0 <= k < a.len() && (#[trigger] a[k]).0 <= at < a[k].1;
        assert((a + b)[k] == a[k]);
    }
    if within(b, at) {
        let k = choose|k: int| 0 <= k < b.len() && (#[trigger] b[k]).0 <= at < b[k].1;
        assert((a + b)[a.len() + k] == b[k]);
    }
    if within(a + b, at) {
        let k = choose|k: int| 0 <= k < (a + b).len() && (#[trigger] (a + b)[k]).0 <= at < (a + b)[k].1;
        if k < a.len() {
            assert(a[k] == (a + b)[k]);
        } else {
            assert(b[k - a.len()] == (a + b)[k]);
        }
    }
}

proof fn lemma_within_cut(piece: (i32, i32), lo: i32, hi: i32, at: int)
    ensures
        within(cut(piece, lo as int, hi as int), at) <==> piece.0 <= at < piece.1 && !(lo <= at < hi),
{
    let left = if lo > piece.0 {
        seq![(piece.0, lo)]
    } else {
        Seq::empty()
    };
    let right = if hi < piece.1 {
        seq![(hi, piece.1)]
    } else {
        Seq::empty()
    };
    if hi <= piece.0 || lo >= piece.1 {
        assert(seq![piece][0] == piece);
    } else {
        lemma_within_sum(left, right, at);
        if lo > piece.0 {
            assert(left[0] == (piece.0, lo));
        }
        if hi < piece.1 {
            assert(right[0] == (hi, piece.1));
        }
    }
}

/// A range that is taken out is gone, and nothing else is.
proof fn lemma_within_subtracted(pieces: Seq<(i32, i32)>, lo: i32, hi: i32, at: int)
    ensures
        within(subtracted(pieces, lo as int, hi as int), at) <==> within(pieces, at) && !(lo <= at < hi),
    decreases pieces.len(),
{
    if pieces.len() > 0 {
        lemma_within_subtracted(pieces.drop_last(), lo, hi, at);
        lemma_within_cut(pieces.last(), lo, hi, at);
        lemma_within_sum(
            subtracted(pieces.drop_last(), lo as int, hi as int),
            cut(pieces.last(), lo as int, hi as int),
            at,
        );
        lemma_within_sum(pieces.drop_last(), seq![pieces.last()], at);
        assert(pieces =~= pieces.drop_last() + seq![pieces.last()]);
        assert(seq![pieces.last()][0] == pieces.last());
    }
}

/// A stretch of one monitor's edge with no other monitor of the same
/// machine beyond it: the part of the edge that faces the peer.
#[derive(Debug, Clone, Copy, PartialEq, Eq, Structural)]
pub struct Segment {
    /// Which monitor of the screen it belongs to.
    pub monitor: usize,
    /// Where it begins along the edge.
    pub lo: i32,
    /// Where it ends along the edge; exclusive.
    pub hi: i32,
    /// Where the edge lies on the other axis.
    pub edge: i32,
}

/// Everything known about one machine's monitors.
#[derive(Debug)]
pub struct Screen {
    monitors: Vec<Rect>,
    primary: usize,
}

/// What a [`Screen`] holds.
#[verifier::ext_equal]
pub struct ScreenModel {
    pub monitors: Seq<Rect>,
    pub primary: int,
}

/// What is left of a monitor's side once the first `n` monitors that lie
/// beyond it are taken out.
pub open spec fn faces(monitors: Seq<Rect>, i: int, side: Side, n: nat) -> Seq<(i32, i32)>
    decreases n,
{
    if n == 0 {
        seq![(monitors[i].span_lo(side) as i32, monitors[i].span_hi(side) as i32)]
    } else {
        let before = faces(monitors, i, side, (n - 1) as nat);
        let other = monitors[n - 1];
        if n - 1 == i || !lies_beyond(monitors[i], other, side) {
            before
        } else {
            subtracted(before, other.span_lo(side), other.span_hi(side))
        }
    }
}

/// The segments of a monitor's side that given ranges make.
pub open spec fn segments_along(m: Rect, i: int, side: Side, pieces: Seq<(i32, i32)>) -> Seq<Segment> {
    pieces.map_values(
        |piece: (i32, i32)|
            Segment {
                monitor: i as usize,
                lo: piece.0,
                hi: piece.1,
                edge: m.edge_at(side) as i32,
            },
    )
}

/// The segments of the first `n` monitors, monitor by monitor.
pub open spec fn collected(monitors: Seq<Rect>, side: Side, n: nat) -> Seq<Segment>
    decreases n,
{
    if n == 0 {
        Seq::empty()
    } else {
        collected(monitors, side, (n - 1) as nat) + segments_along(
            monitors[n - 1],
            n - 1,
            side,
            faces(monitors, n - 1, side, monitors.len()),
        )
    }
}

/// Segments in ascending order, with one more put in its place: behind
/// those that begin at the same place.
pub open spec fn placed(segments: Seq<Segment>, one: Segment) -> Seq<Segment>
    decreases segments.len(),
{
    if segments.len() == 0 || segments.last().lo <= one.lo {
        segments.push(one)
    } else {
        placed(segments.drop_last(), one).push(segments.last())
    }
}

/// Segments in ascending order of where they begin. Those that begin at
/// the same place stay in the order they were in.
pub open spec fn in_order(segments: Seq<Segment>) -> Seq<Segment>
    decreases segments.len(),
{
    if segments.len() == 0 {
        Seq::empty()
    } else {
        placed(in_order(segments.drop_last()), segments.last())
    }
}

proof fn lemma_placed(segments: Seq<Segment>, one: Segment, at: int)
    requires
        0 <= at <= segments.len(),
        at > 0 ==> segments[at - 1].lo <= one.lo,
        forall|k: int| at <= k < segments.len() ==> (#[trigger] segments[k]).lo > one.lo,
    ensures
        placed(segments, one) == segments.insert(at, one),
    decreases segments.len(),
{
    if at == segments.len() {
        assert(segments.push(one) =~= segments.insert(at, one));
    } else {
        assert(segments.last() == segments[segments.len() - 1]);
        lemma_placed(segments.drop_last(), one, at);
        assert(segments.drop_last().insert(at, one).push(segments.last()) =~= segments.insert(at, one));
    }
}

/// Puts a segment in its place.
fn place(segments: &mut Vec<Segment>, one: Segment)
    ensures
        final(segments)@ == placed(old(segments)@, one),
{
    let mut at: usize = segments.len();
    while at > 0 && segments[at - 1].lo > one.lo
        invariant
            at <= segments@.len(),
            segments@ == old(segments)@,
            forall|k: int| at <= k < segments@.len() ==> (#[trigger] segments@[k]).lo > one.lo,
        decreases at,
    {
        at = at - 1;
    }
    proof {
        lemma_placed(segments@, one, at as int);
    }
    segments.insert(at, one);
}

impl ScreenModel {
    /// The parts of a side that face the peer, in ascending order.
    pub open spec fn segments(self, side: Side) -> Seq<Segment> {
        in_order(collected(self.monitors, side, self.monitors.len()))
    }

    /// Whether a place along a side of a monitor faces the peer: it lies
    /// on the monitor, and no other monitor lies beyond it there.
    pub open spec fn outward(self, i: int, side: Side, at: int) -> bool {
        &&& 0 <= i < self.monitors.len()
        &&& self.monitors[i].span_lo(side) <= at < self.monitors[i].span_hi(side)
        &&& forall|j: int|
            0 <= j < self.monitors.len() && j != i && #[trigger] lies_beyond(
                self.monitors[i],
                self.monitors[j],
                side,
            ) ==> !(self.monitors[j].span_lo(side) <= at < self.monitors[j].span_hi(side))
    }
}

/// Whether a place lies in a segment of a monitor.
pub open spec fn covered(segments: Seq<Segment>, i: int, at: int) -> bool {
    exists|k: int|
        0 <= k < segments.len() && (#[trigger] segments[k]).monitor == i && segments[k].lo <= at
            < segments[k].hi
}

proof fn lemma_covered_insert(segments: Seq<Segment>, pos: int, one: Segment, i: int, at: int)
    requires
        0 <= pos <= segments.len(),
    ensures
        covered(segments.insert(pos, one), i, at) <==> covered(segments, i, at) || (one.monitor == i
            && one.lo <= at < one.hi),
{
    let more = segments.insert(pos, one);
    if covered(segments, i, at) {
        let k = choose|k: int|
            0 <= k < segments.len() && (#[trigger] segments[k]).monitor == i && segments[k].lo <= at
                < segments[k].hi;
        assert(more[if k < pos {
            k
        } else {
            k + 1
        }] == segments[k]);
    }
    assert(more[pos] == one);
    if covered(more, i, at) {
        let k = choose|k: int|
            0 <= k < more.len() && (#[trigger] more[k]).monitor == i && more[k].lo <= at < more[k].hi;
        if k != pos {
            assert(segments[if k < pos {
                k
            } else {
                k - 1
            }] == more[k]);
        }
    }
}

proof fn lemma_covered_placed(segments: Seq<Segment>, one: Segment, i: int, at: int)
    ensures
        covered(placed(segments, one), i, at) <==> covered(segments, i, at) || (one.monitor == i && one.lo
            <= at < one.hi),
    decreases segments.len(),
{
    if segments.len() == 0 || segments.last().lo <= one.lo {
        assert(segments.push(one) =~= segments.insert(segments.len() as int, one));
        lemma_covered_insert(segments, segments.len() as int, one, i, at);
    } else {
        let front = segments.drop_last();
        lemma_covered_placed(front, one, i, at);
        let moved = placed(front, one);
        assert(moved.push(segments.last()) =~= moved.insert(moved.len() as int, segments.last()));
        lemma_covered_insert(moved, moved.len() as int, segments.last(), i, at);
        lemma_covered_insert(front, front.len() as int, segments.last(), i, at);
        assert(front.insert(front.len() as int, segments.last()) =~= segments);
    }
}

/// Ordering segments neither adds nor drops any.
proof fn lemma_covered_in_order(segments: Seq<Segment>, i: int, at: int)
    ensures
        covered(in_order(segments), i, at) <==> covered(segments, i, at),
    decreases segments.len(),
{
    if segments.len() > 0 {
        let front = segments.drop_last();
        lemma_covered_in_order(front, i, at);
        lemma_covered_placed(in_order(front), segments.last(), i, at);
        lemma_covered_insert(front, front.len() as int, segments.last(), i, at);
        assert(front.insert(front.len() as int, segments.last()) =~= segments);
    }
}

/// What is left of a side is what no monitor beyond it covers.
proof fn lemma_faces(monitors: Seq<Rect>, i: int, side: Side, n: nat, at: int)
    requires
        0 <= i < monitors.len(),
        n <= monitors.len(),
    ensures
        within(faces(monitors, i, side, n), at) <==> {
            &&& monitors[i].span_lo(side) <= at < monitors[i].span_hi(side)
            &&& forall|j: int|
                0 <= j < n && j != i && #[trigger] lies_beyond(monitors[i], monitors[j], side) ==> !(
                monitors[j].span_lo(side) <= at < monitors[j].span_hi(side))
        },
    decreases n,
{
    if n == 0 {
        let whole = seq![(monitors[i].span_lo(side) as i32, monitors[i].span_hi(side) as i32)];
        assert(whole[0] == (monitors[i].span_lo(side) as i32, monitors[i].span_hi(side) as i32));
    } else {
        lemma_faces(monitors, i, side, (n - 1) as nat, at);
        let other = monitors[n - 1];
        if n - 1 != i && lies_beyond(monitors[i], other, side) {
            lemma_within_subtracted(
                faces(monitors, i, side, (n - 1) as nat),
                other.span_lo(side) as i32,
                other.span_hi(side) as i32,
                at,
            );
        }
    }
}

proof fn lemma_collected(monitors: Seq<Rect>, side: Side, n: nat, i: int, at: int)
    requires
        n <= monitors.len() <= usize::MAX,
    ensures
        covered(collected(monitors, side, n), i, at) <==> 0 <= i < n && within(
            faces(monitors, i, side, monitors.len()),
            at,
        ),
    decreases n,
{
    if n > 0 {
        let before = collected(monitors, side, (n - 1) as nat);
        let pieces = faces(monitors, n - 1, side, monitors.len());
        let mine = segments_along(monitors[n - 1], n - 1, side, pieces);
        lemma_collected(monitors, side, (n - 1) as nat, i, at);
        let all = before + mine;
        if covered(before, i, at) {
            let k = choose|k: int|
                0 <= k < before.len() && (#[trigger] before[k]).monitor == i && before[k].lo <= at
                    < before[k].hi;
            assert(all[k] == before[k]);
        }
        if i == n - 1 && within(pieces, at) {
            let k = choose|k: int|
                0 <= k < pieces.len() && (#[trigger] pieces[k]).0 <= at < pieces[k].1;
            assert(all[before.len() + k] == mine[k]);
            assert(mine[k].monitor == i);
        }
        if covered(all, i, at) {
            let k = choose|k: int|
                0 <= k < all.len() && (#[trigger] all[k]).monitor == i && all[k].lo <= at < all[k].hi;
            if k < before.len() {
                assert(before[k] == all[k]);
            } else {
                assert(mine[k - before.len()] == all[k]);
                assert(pieces[k - before.len()].0 <= at < pieces[k - before.len()].1);
            }
        }
    }
}

/// The segments of a side are exactly its outward parts: a place on a
/// monitor's side lies in a segment of that monitor if and only if no
/// other monitor of the machine lies beyond it there.
pub proof fn law_segments_face_outward(screen: ScreenModel, side: Side, i: int, at: int)
    requires
        screen.monitors.len() <= usize::MAX,
    ensures
        covered(screen.segments(side), i, at) <==> screen.outward(i, side, at),
{
    let all = collected(screen.monitors, side, screen.monitors.len());
    lemma_covered_in_order(all, i, at);
    lemma_collected(screen.monitors, side, screen.monitors.len(), i, at);
    if 0 <= i < screen.monitors.len() {
        lemma_faces(screen.monitors, i, side, screen.monitors.len(), at);
    }
}

impl View for Screen {
    type V = ScreenModel;

    closed spec fn view(&self) -> ScreenModel {
        ScreenModel { monitors: self.monitors@, primary: self.primary as int }
    }
}

impl Clone for Screen {
    fn clone(&self) -> (r: Screen)
        ensures
            r@ == self@,
    {
        proof {
            use_type_invariant(self);
        }
        let mut monitors: Vec<Rect> = Vec::new();
        let mut i: usize = 0;
        while i < self.monitors.len()
            invariant
                i <= self.monitors@.len(),
                monitors@ == self.monitors@.take(i as int),
            decreases self.monitors@.len() - i,
        {
            monitors.push(self.monitors[i]);
            i = i + 1;
            assert(monitors@ =~= self.monitors@.take(i as int));
        }
        assert(monitors@ =~= self.monitors@);
        Screen { monitors, primary: self.primary }
    }
}

impl Screen {
    #[verifier::type_invariant]
    spec fn primary_in_range(self) -> bool {
        self.monitors@.len() == 0 || self.primary < self.monitors@.len()
    }

    /// `primary` is brought into range rather than rejected: a platform
    /// that reports no primary monitor should degrade to the first one.
    pub fn new(monitors: Vec<Rect>, primary: usize) -> (r: Screen)
        ensures
            r@ == (ScreenModel {
                monitors: monitors@,
                primary: if primary < monitors@.len() {
                    primary as int
                } else {
                    0
                },
            }),
    {
        let primary: usize = if primary < monitors.len() {
            primary
        } else {
            0
        };
        Screen { monitors, primary }
    }

    /// The fallback for a platform whose monitors cannot be listed: one
    /// monitor covering the whole desktop.
    pub fn single(bounds: Rect) -> (r: Screen)
        ensures
            r@ == (ScreenModel { monitors: seq![bounds], primary: 0 }),
    {
        let mut monitors: Vec<Rect> = Vec::new();
        monitors.push(bounds);
        assert(monitors@ =~= seq![bounds]);
        Screen { monitors, primary: 0 }
    }

    pub fn monitors(&self) -> (r: &Vec<Rect>)
        ensures
            r@ == self@.monitors,
    {
        &self.monitors
    }

    pub fn primary(&self) -> (r: usize)
        ensures
            r == self@.primary,
    {
        self.primary
    }

    pub fn is_empty(&self) -> (r: bool)
        ensures
            r == (self@.monitors.len() == 0),
    {
        self.monitors.len() == 0
    }

    /// What is left of a monitor's side once every monitor beyond it is
    /// taken out.
    fn face(&self, i: usize, side: Side) -> (r: Vec<(i32, i32)>)
        requires
            i < self@.monitors.len(),
        ensures
            r@ == faces(self@.monitors, i as int, side, self@.monitors.len()),
    {
        let m: Rect = self.monitors[i];
        let mut pieces: Vec<(i32, i32)> = Vec::new();
        pieces.push(m.span(side));
        let mut j: usize = 0;
        assert(pieces@ =~= faces(self.monitors@, i as int, side, 0));
        while j < self.monitors.len()
            invariant
                i < self.monitors@.len(),
                m == self.monitors@[i as int],
                j <= self.monitors@.len(),
                pieces@ == faces(self.monitors@, i as int, side, j as nat),
            decreases self.monitors@.len() - j,
        {
            let n: Rect = self.monitors[j];
            if i != j && beyond(&m, &n, side) {
                let (lo, hi) = n.span(side);
                pieces = subtract(&pieces, lo, hi);
            }
            j = j + 1;
        }
        pieces
    }

    /// The parts of a side that face the peer rather than another of this
    /// machine's own monitors.
    ///
    /// A seam between two of a machine's monitors is not an edge: a cursor
    /// pressed against it is just a cursor moving between monitors.
    pub fn outward_segments(&self, side: Side) -> (r: Vec<Segment>)
        ensures
            r@ == self@.segments(side),
    {
        let ghost monitors = self.monitors@;
        let mut out: Vec<Segment> = Vec::new();
        let mut i: usize = 0;
        assert(in_order(collected(monitors, side, 0)) =~= Seq::<Segment>::empty());
        while i < self.monitors.len()
            invariant
                monitors == self.monitors@,
                i <= monitors.len(),
                out@ == in_order(collected(monitors, side, i as nat)),
            decreases monitors.len() - i,
        {
            let m: Rect = self.monitors[i];
            let pieces: Vec<(i32, i32)> = self.face(i, side);
            let edge: i32 = m.edge(side);
            let ghost before = collected(monitors, side, i as nat);
            let ghost mine = segments_along(m, i as int, side, pieces@);
            let mut k: usize = 0;
            assert(before + mine.take(0) =~= before);
            while k < pieces.len()
                invariant
                    k <= pieces@.len(),
                    mine == segments_along(m, i as int, side, pieces@),
                    edge == m.edge_at(side),
                    out@ == in_order(before + mine.take(k as int)),
                decreases pieces@.len() - k,
            {
                let (lo, hi) = pieces[k];
                let one = Segment { monitor: i, lo, hi, edge };
                proof {
                    let more = before + mine.take(k + 1);
                    assert(one == mine[k as int]);
                    assert(more.drop_last() =~= before + mine.take(k as int));
                    assert(more.last() == one);
                }
                place(&mut out, one);
                k = k + 1;
            }
            assert(mine.take(k as int) =~= mine);
            i = i + 1;
        }
        out
    }
}

/// Where the first of several segments begins.
pub open spec fn lowest(segments: Seq<Segment>) -> int
    decreases segments.len(),
{
    if segments.len() <= 1 {
        segments[0].lo as int
    } else {
        let before = lowest(segments.drop_last());
        if segments.last().lo < before {
            segments.last().lo as int
        } else {
            before
        }
    }
}

/// Where the last of several segments ends.
pub open spec fn highest(segments: Seq<Segment>) -> int
    decreases segments.len(),
{
    if segments.len() <= 1 {
        segments[0].hi as int
    } else {
        let before = highest(segments.drop_last());
        if segments.last().hi > before {
            segments.last().hi as int
        } else {
            before
        }
    }
}

proof fn lemma_lowest_highest(segments: Seq<Segment>, k: int)
    requires
        0 <= k < segments.len(),
    ensures
        lowest(segments) <= segments[k].lo,
        segments[k].hi <= highest(segments),
    decreases segments.len(),
{
    if segments.len() > 1 && k < segments.len() - 1 {
        lemma_lowest_highest(segments.drop_last(), k);
    }
}

/// Where the segments begin and end.
fn extent_of(segments: &Vec<Segment>) -> (r: (i32, i32))
    requires
        segments@.len() > 0,
    ensures
        r.0 == lowest(segments@),
        r.1 == highest(segments@),
{
    let mut lo: i32 = segments[0].lo;
    let mut hi: i32 = segments[0].hi;
    let mut i: usize = 1;
    while i < segments.len()
        invariant
            1 <= i <= segments@.len(),
            lo == lowest(segments@.take(i as int)),
            hi == highest(segments@.take(i as int)),
        decreases segments@.len() - i,
    {
        assert(segments@.take(i + 1).drop_last() =~= segments@.take(i as int));
        if segments[i].lo < lo {
            lo = segments[i].lo;
        }
        if segments[i].hi > hi {
            hi = segments[i].hi;
        }
        i = i + 1;
    }
    assert(segments@.take(i as int) =~= segments@);
    (lo, hi)
}

/// The first monitor at or after `from` on which a point lies.
pub open spec fn first_with(monitors: Seq<Rect>, x: int, y: int, from: int) -> Option<int>
    decreases monitors.len() - from,
{
    if from < 0 || from >= monitors.len() {
        None
    } else if monitors[from].has(x, y) {
        Some(from)
    } else {
        first_with(monitors, x, y, from + 1)
    }
}

proof fn lemma_first_with(monitors: Seq<Rect>, x: int, y: int, from: int)
    requires
        0 <= from <= monitors.len(),
    ensures
        match first_with(monitors, x, y, from) {
            None => forall|i: int| from <= i < monitors.len() ==> !(#[trigger] monitors[i]).has(x, y),
            Some(i) => from <= i < monitors.len() && monitors[i].has(x, y),
        },
    decreases monitors.len() - from,
{
    if from < monitors.len() && !monitors[from].has(x, y) {
        lemma_first_with(monitors, x, y, from + 1);
    }
}

/// Which of the first `n` monitors is nearest to a point: the first of
/// them, where several are.
pub open spec fn nearest_of(monitors: Seq<Rect>, x: int, y: int, n: nat) -> int
    decreases n,
{
    if n <= 1 {
        0
    } else {
        let before = nearest_of(monitors, x, y, (n - 1) as nat);
        if monitors[n - 1].distance_from(x, y) < monitors[before].distance_from(x, y) {
            n - 1
        } else {
            before
        }
    }
}

proof fn lemma_nearest_of(monitors: Seq<Rect>, x: int, y: int, n: nat)
    requires
        1 <= n <= monitors.len(),
    ensures
        0 <= nearest_of(monitors, x, y, n) < n,
        forall|i: int|
            0 <= i < n ==> monitors[nearest_of(monitors, x, y, n)].distance_from(x, y) <= (
            #[trigger] monitors[i]).distance_from(x, y),
    decreases n,
{
    if n > 1 {
        lemma_nearest_of(monitors, x, y, (n - 1) as nat);
    }
}

/// The middle of two coordinates.
fn middle(a: i32, b: i32) -> (r: i32)
    ensures
        r == (a + b) / 2,
{
    let sum: i64 = a as i64 + b as i64;
    if sum >= 0 {
        (sum / 2) as i32
    } else {
        (-((1 - sum) / 2)) as i32
    }
}

/// A fraction, at least none and at most the whole.
pub open spec fn limited(fraction: int) -> int {
    clamped(fraction, 0, WHOLE as int)
}

/// The place that lies a fraction of the way from `lo` to `hi`.
pub open spec fn part_way(lo: int, hi: int, fraction: int) -> int {
    lo + limited(fraction) * (hi - lo) / (WHOLE as int)
}

proof fn lemma_part_way(lo: int, hi: int, fraction: int)
    ensures
        lo <= hi ==> lo <= part_way(lo, hi, fraction) <= hi,
        hi <= lo ==> hi <= part_way(lo, hi, fraction) <= lo,
{
    let f = limited(fraction);
    let d = hi - lo;
    let q = f * d / (WHOLE as int);
    assert(0 <= d ==> 0 <= q <= d) by (nonlinear_arith)
        requires
            0 <= f <= 0x1_0000_0000,
            q == f * d / 0x1_0000_0000,
    ;
    assert(d <= 0 ==> d <= q <= 0) by (nonlinear_arith)
        requires
            0 <= f <= 0x1_0000_0000,
            q == f * d / 0x1_0000_0000,
    ;
}

fn along_part(lo: i32, hi: i32, fraction: i64) -> (r: i32)
    ensures
        r == part_way(lo as int, hi as int, fraction as int),
{
    let f: i128 = if fraction < 0 {
        0
    } else if fraction > WHOLE {
        WHOLE as i128
    } else {
        fraction as i128
    };
    let d: i128 = hi as i128 - lo as i128;
    proof {
        lemma_part_way(lo as int, hi as int, fraction as int);
    }
    assert(-0x1_0000_0000 * 0x1_0000_0000 <= f * d <= 0x1_0000_0000 * 0x1_0000_0000) by (nonlinear_arith)
        requires
            0 <= f <= 0x1_0000_0000,
            -0x1_0000_0000 <= d <= 0x1_0000_0000,
    ;
    let product: i128 = f * d;
    let parts: i128 = if product >= 0 {
        product / WHOLE as i128
    } else {
        -((WHOLE as i128 - 1 - product) / WHOLE as i128)
    };
    assert(parts == product as int / (WHOLE as int));
    (lo as i128 + parts) as i32
}

/// Which of the first `n` segments that belong to a monitor is the widest:
/// the last of them, where several are.
pub open spec fn widest(segments: Seq<Segment>, monitor: int, n: nat) -> Option<int>
    decreases n,
{
    if n == 0 {
        None
    } else {
        let before = widest(segments, monitor, (n - 1) as nat);
        let one = segments[n - 1];
        if one.monitor != monitor {
            before
        } else {
            match before {
                None => Some(n - 1),
                Some(k) => if one.hi - one.lo >= segments[k].hi - segments[k].lo {
                    Some(n - 1)
                } else {
                    before
                },
            }
        }
    }
}

fn widest_of(segments: &Vec<Segment>, monitor: usize) -> (r: Option<usize>)
    ensures
        match r {
            None => widest(segments@, monitor as int, segments@.len()) is None,
            Some(k) => k < segments@.len() && widest(segments@, monitor as int, segments@.len()) == Some(
                k as int,
            ),
        },
{
    let mut best: Option<usize> = None;
    let mut i: usize = 0;
    while i < segments.len()
        invariant
            i <= segments@.len(),
            match best {
                None => widest(segments@, monitor as int, i as nat) is None,
                Some(k) => k < i && widest(segments@, monitor as int, i as nat) == Some(k as int),
            },
        decreases segments@.len() - i,
    {
        if segments[i].monitor == monitor {
            best = match best {
                None => Some(i),
                Some(k) => {
                    let new: i64 = segments[i].hi as i64 - segments[i].lo as i64;
                    let old: i64 = segments[k].hi as i64 - segments[k].lo as i64;
                    if new >= old {
                        Some(i)
                    } else {
                        Some(k)
                    }
                },
            };
        }
        i = i + 1;
    }
    best
}

/// The first segment at or after `from` in which a place lies.
pub open spec fn first_holding(segments: Seq<Segment>, at: int, from: int) -> Option<int>
    decreases segments.len() - from,
{
    if from < 0 || from >= segments.len() {
        None
    } else if segments[from].lo <= at < segments[from].hi {
        Some(from)
    } else {
        first_holding(segments, at, from + 1)
    }
}

proof fn lemma_first_holding(segments: Seq<Segment>, at: int, from: int)
    requires
        0 <= from <= segments.len(),
    ensures
        match first_holding(segments, at, from) {
            None => forall|k: int|
                from <= k < segments.len() ==> !((#[trigger] segments[k]).lo <= at < segments[k].hi),
            Some(k) => from <= k < segments.len() && segments[k].lo <= at < segments[k].hi,
        },
    decreases segments.len() - from,
{
    if from < segments.len() && !(segments[from].lo <= at < segments[from].hi) {
        lemma_first_holding(segments, at, from + 1);
    }
}

/// How far a place is from a segment.
pub open spec fn off_segment(segment: Segment, at: int) -> int {
    if at < segment.lo {
        segment.lo - at
    } else if at >= segment.hi {
        at - segment.hi
    } else {
        0
    }
}

fn distance_to(segment: &Segment, at: i32) -> (r: i64)
    ensures
        r == off_segment(*segment, at as int),
{
    if at < segment.lo {
        segment.lo as i64 - at as i64
    } else if at >= segment.hi {
        at as i64 - segment.hi as i64
    } else {
        0
    }
}

/// Which of the first `n` segments is nearest to a place: the first of
/// them, where several are.
pub open spec fn closest(segments: Seq<Segment>, at: int, n: nat) -> int
    decreases n,
{
    if n <= 1 {
        0
    } else {
        let before = closest(segments, at, (n - 1) as nat);
        if off_segment(segments[n - 1], at) < off_segment(segments[before], at) {
            n - 1
        } else {
            before
        }
    }
}

proof fn lemma_closest(segments: Seq<Segment>, at: int, n: nat)
    requires
        1 <= n <= segments.len(),
    ensures
        0 <= closest(segments, at, n) < n,
    decreases n,
{
    if n > 1 {
        lemma_closest(segments, at, (n - 1) as nat);
    }
}

/// Which segment a place belongs to: the first in which it lies, else the
/// nearest.
pub open spec fn segment_for(segments: Seq<Segment>, at: int) -> int {
    match first_holding(segments, at, 0) {
        Some(k) => k,
        None => closest(segments, at, segments.len()),
    }
}

proof fn lemma_segment_for(segments: Seq<Segment>, at: int)
    requires
        segments.len() > 0,
    ensures
        0 <= segment_for(segments, at) < segments.len(),
{
    lemma_first_holding(segments, at, 0);
    lemma_closest(segments, at, segments.len());
}

fn choose_segment(segments: &Vec<Segment>, at: i32) -> (r: usize)
    requires
        segments@.len() > 0,
    ensures
        r == segment_for(segments@, at as int),
        r < segments@.len(),
{
    let mut i: usize = 0;
    while i < segments.len()
        invariant
            i <= segments@.len(),
            first_holding(segments@, at as int, 0) == first_holding(segments@, at as int, i as int),
        decreases segments@.len() - i,
    {
        if segments[i].lo <= at && at < segments[i].hi {
            return i;
        }
        i = i + 1;
    }
    let mut best: usize = 0;
    let mut k: usize = 1;
    while k < segments.len()
        invariant
            1 <= k <= segments@.len(),
            best < k,
            best == closest(segments@, at as int, k as nat),
        decreases segments@.len() - k,
    {
        if distance_to(&segments[k], at) < distance_to(&segments[best], at) {
            best = k;
        }
        k = k + 1;
    }
    best
}

impl ScreenModel {
    /// The range that a side's outward segments cover.
    pub open spec fn extent_along(self, side: Side) -> Option<(int, int)> {
        let segments = self.segments(side);
        if segments.len() == 0 {
            None
        } else {
            Some((lowest(segments), highest(segments)))
        }
    }

    /// The monitor on which a point lies, or the nearest one.
    pub open spec fn monitor_of(self, x: int, y: int) -> Option<int> {
        if self.monitors.len() == 0 {
            None
        } else {
            match first_with(self.monitors, x, y, 0) {
                Some(i) => Some(i),
                None => Some(nearest_of(self.monitors, x, y, self.monitors.len())),
            }
        }
    }

    /// How far along a side a point is that lies on an outward part of it.
    pub open spec fn crossing(self, side: Side, x: int, y: int) -> Option<int> {
        let along = if side.is_horizontal() {
            x
        } else {
            y
        };
        match self.monitor_of(x, y) {
            None => None,
            Some(i) => if self.monitors[i].on_edge_row(side, x, y) && self.outward(i, side, along) {
                Some(along)
            } else {
                None
            },
        }
    }

    /// The point on a side that counts as the same physical place as the
    /// peer's anchor.
    pub open spec fn anchor_on(self, side: Side, fraction: Option<i64>) -> int {
        let segments = self.segments(side);
        match self.extent_along(side) {
            None => 0,
            Some((lo, hi)) => match fraction {
                Some(f) => part_way(lo, hi, f as int),
                None => match widest(segments, self.primary, segments.len()) {
                    Some(k) => (segments[k].lo + segments[k].hi) / 2,
                    None => (lo + hi) / 2,
                },
            },
        }
    }

    /// The segment at which focus arrives for a place along a side, and
    /// the place on it.
    pub open spec fn arrival(self, side: Side, along: int) -> (Segment, int) {
        let segments = self.segments(side);
        let (lo, hi) = self.extent_along(side)->0;
        let at = clamped(along, lo, last_of(lo, hi));
        let segment = segments[segment_for(segments, at)];
        (segment, clamped(at, segment.lo as int, last_of(segment.lo as int, segment.hi as int)))
    }

    /// Where the cursor goes when focus arrives.
    pub open spec fn landing_at(self, side: Side, along: int, margin: int) -> Option<(int, int)> {
        if self.extent_along(side) is None {
            None
        } else {
            let (segment, at) = self.arrival(side, along);
            let inward = if side == Side::Top || side == Side::Left {
                segment.edge + margin
            } else {
                segment.edge - margin
            };
            let m = self.monitors[segment.monitor as int];
            Some(
                if side.is_horizontal() {
                    m.nearest_to(at, inward)
                } else {
                    m.nearest_to(inward, at)
                },
            )
        }
    }

    /// The point of the machine's monitors that is nearest to a point.
    pub open spec fn kept_on(self, x: int, y: int) -> (int, int) {
        if self.monitors.len() == 0 || first_with(self.monitors, x, y, 0) is Some {
            (x, y)
        } else {
            self.monitors[nearest_of(self.monitors, x, y, self.monitors.len())].nearest_to(x, y)
        }
    }

    /// Where the cursor is left while focus is on the peer: the middle of
    /// the primary monitor.
    pub open spec fn rest(self) -> Option<(int, int)> {
        if self.monitors.len() == 0 {
            None
        } else {
            let m = self.monitors[self.primary];
            Some(((m.min_x + m.max_x) / 2, (m.min_y + m.max_y) / 2))
        }
    }
}

/// Whether a segment is one of a side of one of the monitors.
pub open spec fn belongs(monitors: Seq<Rect>, side: Side, segment: Segment) -> bool {
    segment.monitor < monitors.len() && segment.edge == monitors[segment.monitor as int].edge_at(side)
}

/// What holds of every segment holds of them in order.
proof fn lemma_placed_all(segments: Seq<Segment>, one: Segment, p: spec_fn(Segment) -> bool)
    requires
        forall|k: int| 0 <= k < segments.len() ==> p(#[trigger] segments[k]),
        p(one),
    ensures
        forall|k: int| 0 <= k < placed(segments, one).len() ==> p(#[trigger] placed(segments, one)[k]),
    decreases segments.len(),
{
    if !(segments.len() == 0 || segments.last().lo <= one.lo) {
        let front = segments.drop_last();
        assert(p(segments[segments.len() - 1]));
        assert forall|k: int| 0 <= k < front.len() implies p(#[trigger] front[k]) by {
            assert(front[k] == segments[k]);
        }
        lemma_placed_all(front, one, p);
        let moved = placed(front, one);
        assert forall|k: int| 0 <= k < placed(segments, one).len() implies p(
            #[trigger] placed(segments, one)[k],
        ) by {
            if k < moved.len() {
                assert(placed(segments, one)[k] == moved[k]);
            }
        }
    } else {
        assert forall|k: int| 0 <= k < placed(segments, one).len() implies p(
            #[trigger] placed(segments, one)[k],
        ) by {
            if k < segments.len() {
                assert(placed(segments, one)[k] == segments[k]);
            }
        }
    }
}

proof fn lemma_in_order_all(segments: Seq<Segment>, p: spec_fn(Segment) -> bool)
    requires
        forall|k: int| 0 <= k < segments.len() ==> p(#[trigger] segments[k]),
    ensures
        forall|k: int| 0 <= k < in_order(segments).len() ==> p(#[trigger] in_order(segments)[k]),
    decreases segments.len(),
{
    if segments.len() > 0 {
        let front = segments.drop_last();
        assert(p(segments[segments.len() - 1]));
        assert forall|k: int| 0 <= k < front.len() implies p(#[trigger] front[k]) by {
            assert(front[k] == segments[k]);
        }
        lemma_in_order_all(front, p);
        lemma_placed_all(in_order(front), segments.last(), p);
    }
}

proof fn lemma_collected_belongs(monitors: Seq<Rect>, side: Side, n: nat)
    requires
        n <= monitors.len() <= usize::MAX,
    ensures
        forall|k: int|
            0 <= k < collected(monitors, side, n).len() ==> belongs(
                monitors,
                side,
                #[trigger] collected(monitors, side, n)[k],
            ),
    decreases n,
{
    if n > 0 {
        lemma_collected_belongs(monitors, side, (n - 1) as nat);
        let before = collected(monitors, side, (n - 1) as nat);
        let mine = segments_along(
            monitors[n - 1],
            n - 1,
            side,
            faces(monitors, n - 1, side, monitors.len()),
        );
        assert forall|k: int| 0 <= k < (before + mine).len() implies belongs(
            monitors,
            side,
            #[trigger] (before + mine)[k],
        ) by {
            if k < before.len() {
                assert((before + mine)[k] == before[k]);
            } else {
                assert((before + mine)[k] == mine[k - before.len()]);
            }
        }
    }
}

/// Every segment of a side belongs to a monitor of the screen.
proof fn lemma_segments_belong(screen: ScreenModel, side: Side)
    requires
        screen.monitors.len() <= usize::MAX,
    ensures
        forall|k: int|
            0 <= k < screen.segments(side).len() ==> belongs(
                screen.monitors,
                side,
                #[trigger] screen.segments(side)[k],
            ),
{
    lemma_collected_belongs(screen.monitors, side, screen.monitors.len());
    let all = collected(screen.monitors, side, screen.monitors.len());
    let p = |segment: Segment| belongs(screen.monitors, side, segment);
    assert forall|k: int| 0 <= k < all.len() implies p(#[trigger] all[k]) by {
        assert(belongs(screen.monitors, side, all[k]));
    }
    lemma_in_order_all(all, p);
    assert forall|k: int| 0 <= k < screen.segments(side).len() implies belongs(
        screen.monitors,
        side,
        #[trigger] screen.segments(side)[k],
    ) by {
        assert(p(in_order(all)[k]));
    }
}

impl Screen {
    /// The range that a side's outward segments cover, its end exclusive.
    /// `None` if the side has no outward part at all.
    pub fn extent(&self, side: Side) -> (r: Option<(i32, i32)>)
        ensures
            match r {
                None => self@.extent_along(side) is None,
                Some((lo, hi)) => self@.extent_along(side) == Some((lo as int, hi as int)),
            },
    {
        let segments: Vec<Segment> = self.outward_segments(side);
        if segments.len() == 0 {
            None
        } else {
            Some(extent_of(&segments))
        }
    }

    /// The monitor on which a point lies, or the nearest one: a system can
    /// report a cursor between monitors, and a decision still has to be
    /// made about it.
    fn monitor_at(&self, x: i32, y: i32) -> (r: Option<usize>)
        ensures
            match r {
                None => self@.monitor_of(x as int, y as int) is None,
                Some(i) => self@.monitor_of(x as int, y as int) == Some(i as int) && i
                    < self@.monitors.len(),
            },
    {
        if self.monitors.len() == 0 {
            return None;
        }
        let mut i: usize = 0;
        while i < self.monitors.len()
            invariant
                i <= self.monitors@.len(),
                first_with(self.monitors@, x as int, y as int, 0) == first_with(
                    self.monitors@,
                    x as int,
                    y as int,
                    i as int,
                ),
            decreases self.monitors@.len() - i,
        {
            if self.monitors[i].contains(x, y) {
                return Some(i);
            }
            i = i + 1;
        }
        Some(self.nearest_monitor(x, y))
    }

    /// The monitor that is nearest to a point.
    fn nearest_monitor(&self, x: i32, y: i32) -> (r: usize)
        requires
            self@.monitors.len() > 0,
        ensures
            r == nearest_of(self@.monitors, x as int, y as int, self@.monitors.len()),
            r < self@.monitors.len(),
    {
        let mut best: usize = 0;
        let mut i: usize = 1;
        while i < self.monitors.len()
            invariant
                1 <= i <= self.monitors@.len(),
                best < i,
                best == nearest_of(self.monitors@, x as int, y as int, i as nat),
            decreases self.monitors@.len() - i,
        {
            if self.monitors[i].distance(x, y) < self.monitors[best].distance(x, y) {
                best = i;
            }
            i = i + 1;
        }
        best
    }

    /// Whether a point is on an outward-facing part of a side, and if so
    /// how far along that side it is.
    ///
    /// This goes by the monitor that the point is on, not by the whole
    /// desktop: a cursor on the bottom row of the shorter of two monitors
    /// is at the bottom of its own monitor.
    pub fn at_outer_edge(&self, side: Side, x: i32, y: i32) -> (r: Option<i32>)
        ensures
            match r {
                None => self@.crossing(side, x as int, y as int) is None,
                Some(along) => self@.crossing(side, x as int, y as int) == Some(along as int),
            },
    {
        match self.monitor_at(x, y) {
            None => None,
            Some(index) => {
                if !self.monitors[index].at_edge(side, x, y) {
                    return None;
                }
                let along: i32 = if side.horizontal() {
                    x
                } else {
                    y
                };
                let segments: Vec<Segment> = self.outward_segments(side);
                proof {
                    assert(self.monitors@.len() == self.monitors.len());
                    law_segments_face_outward(self@, side, index as int, along as int);
                }
                let mut k: usize = 0;
                while k < segments.len()
                    invariant
                        k <= segments@.len(),
                        forall|l: int|
                            0 <= l < k ==> !((#[trigger] segments@[l]).monitor == index && segments@[l].lo
                                <= along < segments@[l].hi),
                        covered(segments@, index as int, along as int) <==> self@.outward(
                            index as int,
                            side,
                            along as int,
                        ),
                        self@.monitor_of(x as int, y as int) == Some(index as int),
                        self@.monitors[index as int].on_edge_row(side, x as int, y as int),
                        along == (if side.is_horizontal() {
                            x
                        } else {
                            y
                        }),
                    decreases segments@.len() - k,
                {
                    if segments[k].monitor == index && along >= segments[k].lo && along < segments[k].hi {
                        assert(segments@[k as int].monitor == index);
                        return Some(along);
                    }
                    k = k + 1;
                }
                None
            },
        }
    }

    /// The point on a side that counts as the same physical place as the
    /// peer's anchor. Positions travel on the wire relative to it, which
    /// makes the mapping a translation rather than a stretch.
    ///
    /// By default that is the middle of the primary monitor's widest
    /// outward segment. A fraction moves it along the side's extent.
    pub fn anchor(&self, side: Side, fraction: Option<i64>) -> (r: i32)
        ensures
            r == self@.anchor_on(side, fraction),
    {
        let segments: Vec<Segment> = self.outward_segments(side);
        if segments.len() == 0 {
            return 0;
        }
        let (lo, hi) = extent_of(&segments);
        match fraction {
            Some(f) => along_part(lo, hi, f),
            None => match widest_of(&segments, self.primary) {
                Some(k) => middle(segments[k].lo, segments[k].hi),
                None => middle(lo, hi),
            },
        }
    }

    /// Where the cursor should be placed when focus arrives at `along` on
    /// a side, nudged `margin` inward. A cursor placed on the very row it
    /// arrived at would hand focus straight back with the next motion.
    ///
    /// `along` may be anywhere, including off the ends: then the nearest
    /// end is taken.
    pub fn landing(&self, side: Side, along: i64, margin: i32) -> (r: Option<(i32, i32)>)
        ensures
            match r {
                None => self@.landing_at(side, along as int, margin as int) is None,
                Some((x, y)) => self@.landing_at(side, along as int, margin as int) == Some(
                    (x as int, y as int),
                ),
            },
    {
        let segments: Vec<Segment> = self.outward_segments(side);
        if segments.len() == 0 {
            return None;
        }
        let (lo, hi) = extent_of(&segments);
        let at: i32 = clamp(along, lo, last(lo, hi));
        let k: usize = choose_segment(&segments, at);
        let segment: Segment = segments[k];
        proof {
            assert(self.monitors@.len() == self.monitors.len());
            lemma_segments_belong(self@, side);
            assert(belongs(self@.monitors, side, segments@[k as int]));
        }
        let at: i32 = clamp(at as i64, segment.lo, last(segment.lo, segment.hi));
        let inward: i64 = match side {
            Side::Top | Side::Left => segment.edge as i64 + margin as i64,
            Side::Bottom | Side::Right => segment.edge as i64 - margin as i64,
        };
        let m: Rect = self.monitors[segment.monitor];
        if side.horizontal() {
            Some(m.nearest(at as i64, inward))
        } else {
            Some(m.nearest(inward, at as i64))
        }
    }

    /// The point of this machine's monitors that is nearest to a point.
    /// Clamping to the whole desktop could leave the cursor in a place
    /// that belongs to no monitor.
    pub fn clamp_to_monitors(&self, x: i32, y: i32) -> (r: (i32, i32))
        ensures
            (r.0 as int, r.1 as int) == self@.kept_on(x as int, y as int),
    {
        if self.monitors.len() == 0 {
            return (x, y);
        }
        let mut i: usize = 0;
        while i < self.monitors.len()
            invariant
                i <= self.monitors@.len(),
                first_with(self.monitors@, x as int, y as int, 0) == first_with(
                    self.monitors@,
                    x as int,
                    y as int,
                    i as int,
                ),
            decreases self.monitors@.len() - i,
        {
            if self.monitors[i].contains(x, y) {
                return (x, y);
            }
            i = i + 1;
        }
        let best: usize = self.nearest_monitor(x, y);
        self.monitors[best].nearest(x as i64, y as i64)
    }

    /// Where to leave the real cursor while focus is on the peer: away
    /// from the edge it crossed, which is where a system shows things that
    /// react to a cursor resting on them.
    pub fn resting_point(&self) -> (r: Option<(i32, i32)>)
        ensures
            match r {
                None => self@.rest() is None,
                Some((x, y)) => self@.rest() == Some((x as int, y as int)),
            },
    {
        proof {
            use_type_invariant(&*self);
        }
        if self.monitors.len() == 0 {
            None
        } else {
            let m: Rect = self.monitors[self.primary];
            Some((middle(m.min_x, m.max_x), middle(m.min_y, m.max_y)))
        }
    }
}

impl ScreenModel {
    /// Whether every monitor is more than a unit wide and high, and no two
    /// of them share a point.
    pub open spec fn laid_out(self) -> bool {
        &&& forall|i: int|
            0 <= i < self.monitors.len() ==> (#[trigger] self.monitors[i]).max_x - self.monitors[i].min_x
                > UNIT && self.monitors[i].max_y - self.monitors[i].min_y > UNIT
        &&& forall|i: int, j: int, x: int, y: int|
            0 <= i < self.monitors.len() && 0 <= j < self.monitors.len() && (
            #[trigger] self.monitors[i].has(x, y)) && (#[trigger] self.monitors[j].has(x, y)) ==> i == j
    }
}

/// Where monitors do not overlap, a point of one belongs to that one.
proof fn lemma_monitor_of(screen: ScreenModel, i: int, x: int, y: int)
    requires
        screen.laid_out(),
        0 <= i < screen.monitors.len(),
        screen.monitors[i].has(x, y),
    ensures
        screen.monitor_of(x, y) == Some(i),
{
    lemma_first_with(screen.monitors, x, y, 0);
}

/// A seam between two monitors of the same machine is not an edge.
pub proof fn law_a_seam_is_not_an_edge(screen: ScreenModel, side: Side, x: int, y: int, i: int, j: int)
    requires
        screen.monitor_of(x, y) == Some(i),
        0 <= j < screen.monitors.len(),
        j != i,
        lies_beyond(screen.monitors[i], screen.monitors[j], side),
        screen.monitors[j].span_lo(side) <= (if side.is_horizontal() {
            x
        } else {
            y
        }) < screen.monitors[j].span_hi(side),
    ensures
        screen.crossing(side, x, y) is None,
{
}

impl Rect {
    /// How far this monitor reaches inward from a side.
    pub open spec fn thickness(self, side: Side) -> int {
        if side.is_horizontal() {
            self.max_y - self.min_y
        } else {
            self.max_x - self.min_x
        }
    }

    /// How far inward of the row or column along a side a point lies.
    pub open spec fn depth(self, side: Side, x: int, y: int) -> int {
        match side {
            Side::Top => y - self.edge_at(side),
            Side::Bottom => self.edge_at(side) - y,
            Side::Left => x - self.edge_at(side),
            Side::Right => self.edge_at(side) - x,
        }
    }

    /// How far this monitor is from being the outermost one on a side.
    pub open spec fn inset(self, side: Side) -> int {
        match side {
            Side::Top => self.min_y as int,
            Side::Bottom => -self.max_y,
            Side::Left => self.min_x as int,
            Side::Right => -self.max_x,
        }
    }
}

/// Some monitor is outermost on a side.
proof fn lemma_outermost(monitors: Seq<Rect>, side: Side) -> (i: int)
    requires
        monitors.len() > 0,
    ensures
        0 <= i < monitors.len(),
        forall|j: int|
            0 <= j < monitors.len() ==> monitors[i].inset(side) <= (#[trigger] monitors[j]).inset(side),
    decreases monitors.len(),
{
    let end = monitors.len() - 1;
    if end == 0 {
        0
    } else {
        let front = monitors.drop_last();
        let i = lemma_outermost(front, side);
        assert forall|j: int| 0 <= j < end implies monitors[i].inset(side) <= (#[trigger] monitors[j]).inset(
            side,
        ) by {
            assert(front[j] == monitors[j]);
        }
        if monitors[end].inset(side) < monitors[i].inset(side) {
            end
        } else {
            i
        }
    }
}

/// A machine with a monitor faces its peer somewhere, on every side.
pub proof fn law_every_side_has_an_outward_part(screen: ScreenModel, side: Side)
    requires
        screen.laid_out(),
        0 < screen.monitors.len() <= usize::MAX,
    ensures
        screen.extent_along(side) is Some,
        exists|i: int| #[trigger] screen.outward(i, side, screen.monitors[i].span_lo(side)),
{
    let i = lemma_outermost(screen.monitors, side);
    let m = screen.monitors[i];
    assert(m.max_x - m.min_x > UNIT && m.max_y - m.min_y > UNIT);
    assert forall|j: int| 0 <= j < screen.monitors.len() && j != i implies !(#[trigger] lies_beyond(
        m,
        screen.monitors[j],
        side,
    )) by {
        let n = screen.monitors[j];
        assert(n.max_x - n.min_x > UNIT && n.max_y - n.min_y > UNIT);
        assert(m.inset(side) <= screen.monitors[j].inset(side));
    }
    assert(screen.outward(i, side, m.span_lo(side)));
    law_segments_face_outward(screen, side, i, m.span_lo(side));
    assert(covered(screen.segments(side), i, m.span_lo(side)));
}

/// Whether a range is not empty, and in whole units if that is asked.
pub open spec fn firm(lo: int, hi: int, whole: bool) -> bool {
    lo < hi && (whole ==> lo % UNIT as int == 0 && hi % UNIT as int == 0)
}

proof fn lemma_subtracted_firm(pieces: Seq<(i32, i32)>, lo: i32, hi: i32, whole: bool)
    requires
        forall|k: int|
            0 <= k < pieces.len() ==> firm((#[trigger] pieces[k]).0 as int, pieces[k].1 as int, whole),
        whole ==> lo % UNIT == 0 && hi % UNIT == 0,
    ensures
        forall|k: int|
            0 <= k < subtracted(pieces, lo as int, hi as int).len() ==> firm(
                (#[trigger] subtracted(pieces, lo as int, hi as int)[k]).0 as int,
                subtracted(pieces, lo as int, hi as int)[k].1 as int,
                whole,
            ),
    decreases pieces.len(),
{
    if pieces.len() > 0 {
        let front = pieces.drop_last();
        assert forall|k: int| 0 <= k < front.len() implies firm(
            (#[trigger] front[k]).0 as int,
            front[k].1 as int,
            whole,
        ) by {
            assert(front[k] == pieces[k]);
        }
        lemma_subtracted_firm(front, lo, hi, whole);
        let last = pieces[pieces.len() - 1];
        let a = subtracted(front, lo as int, hi as int);
        let b = cut(last, lo as int, hi as int);
        assert(firm(last.0 as int, last.1 as int, whole));
        assert forall|k: int| 0 <= k < (a + b).len() implies firm(
            (#[trigger] (a + b)[k]).0 as int,
            (a + b)[k].1 as int,
            whole,
        ) by {
            if k < a.len() {
                assert((a + b)[k] == a[k]);
            } else {
                assert((a + b)[k] == b[k - a.len()]);
            }
        }
    }
}

/// Whether every monitor begins and ends at whole units along a side, as
/// both systems report them.
pub open spec fn in_whole_units(monitors: Seq<Rect>, side: Side) -> bool {
    forall|i: int|
        0 <= i < monitors.len() ==> (#[trigger] monitors[i]).span_lo(side) % UNIT as int == 0
            && monitors[i].span_hi(side) % UNIT as int == 0
}

proof fn lemma_faces_firm(monitors: Seq<Rect>, i: int, side: Side, n: nat, whole: bool)
    requires
        0 <= i < monitors.len(),
        n <= monitors.len(),
        monitors[i].proper(),
        whole ==> in_whole_units(monitors, side),
    ensures
        forall|k: int|
            0 <= k < faces(monitors, i, side, n).len() ==> firm(
                (#[trigger] faces(monitors, i, side, n)[k]).0 as int,
                faces(monitors, i, side, n)[k].1 as int,
                whole,
            ),
    decreases n,
{
    if n > 0 {
        lemma_faces_firm(monitors, i, side, (n - 1) as nat, whole);
        let other = monitors[n - 1];
        if n - 1 != i && lies_beyond(monitors[i], other, side) {
            lemma_subtracted_firm(
                faces(monitors, i, side, (n - 1) as nat),
                other.span_lo(side) as i32,
                other.span_hi(side) as i32,
                whole,
            );
        }
    } else {
        assert(monitors[i].span_lo(side) < monitors[i].span_hi(side));
    }
}

proof fn lemma_collected_firm(monitors: Seq<Rect>, side: Side, n: nat, whole: bool)
    requires
        n <= monitors.len() <= usize::MAX,
        forall|i: int| 0 <= i < monitors.len() ==> (#[trigger] monitors[i]).proper(),
        whole ==> in_whole_units(monitors, side),
    ensures
        forall|k: int|
            0 <= k < collected(monitors, side, n).len() ==> firm(
                (#[trigger] collected(monitors, side, n)[k]).lo as int,
                collected(monitors, side, n)[k].hi as int,
                whole,
            ),
    decreases n,
{
    if n > 0 {
        lemma_collected_firm(monitors, side, (n - 1) as nat, whole);
        assert(monitors[n - 1].proper());
        lemma_faces_firm(monitors, n - 1, side, monitors.len(), whole);
        let before = collected(monitors, side, (n - 1) as nat);
        let pieces = faces(monitors, n - 1, side, monitors.len());
        let mine = segments_along(monitors[n - 1], n - 1, side, pieces);
        assert forall|k: int| 0 <= k < (before + mine).len() implies firm(
            (#[trigger] (before + mine)[k]).lo as int,
            (before + mine)[k].hi as int,
            whole,
        ) by {
            if k < before.len() {
                assert((before + mine)[k] == before[k]);
            } else {
                assert((before + mine)[k] == mine[k - before.len()]);
                assert(firm(
                    pieces[k - before.len()].0 as int,
                    pieces[k - before.len()].1 as int,
                    whole,
                ));
            }
        }
    }
}

proof fn lemma_segments_firm(screen: ScreenModel, side: Side, k: int, whole: bool)
    requires
        screen.laid_out(),
        screen.monitors.len() <= usize::MAX,
        0 <= k < screen.segments(side).len(),
        whole ==> in_whole_units(screen.monitors, side),
    ensures
        firm(screen.segments(side)[k].lo as int, screen.segments(side)[k].hi as int, whole),
{
    let all = collected(screen.monitors, side, screen.monitors.len());
    let p = |segment: Segment| firm(segment.lo as int, segment.hi as int, whole);
    assert forall|i: int| 0 <= i < screen.monitors.len() implies (#[trigger] screen.monitors[i]).proper() by {
        assert(screen.monitors[i].max_x - screen.monitors[i].min_x > UNIT);
    }
    lemma_collected_firm(screen.monitors, side, screen.monitors.len(), whole);
    assert forall|j: int| 0 <= j < all.len() implies p(#[trigger] all[j]) by {
        assert(firm(all[j].lo as int, all[j].hi as int, whole));
    }
    lemma_in_order_all(all, p);
    assert(p(in_order(all)[k]));
}

/// Where along a side a point is.
pub open spec fn along_of(side: Side, x: int, y: int) -> int {
    if side.is_horizontal() {
        x
    } else {
        y
    }
}

/// A machine with a monitor always has a place for focus to arrive at. It
/// lies on a monitor, exactly the margin inward of that monitor's edge
/// where the monitor is thick enough, and never where the next motion would
/// hand focus straight back. It is at a part of the edge that faces the
/// peer, unless that part begins within the last unit of the monitor.
pub proof fn law_a_landing_is_never_at_the_edge(screen: ScreenModel, side: Side, along: int, margin: int)
    requires
        screen.laid_out(),
        0 < screen.monitors.len() <= usize::MAX,
        margin > 0,
    ensures
        screen.landing_at(side, along, margin) is Some,
        ({
            let (x, y) = screen.landing_at(side, along, margin)->0;
            let segment = screen.arrival(side, along).0;
            let m = screen.monitors[segment.monitor as int];
            &&& segment.monitor < screen.monitors.len()
            &&& m.has(x, y)
            &&& m.thickness(side) >= margin + UNIT ==> m.depth(side, x, y) == margin
            &&& !m.on_edge_row(side, x, y)
            &&& screen.crossing(side, x, y) is None
            &&& segment.lo <= m.span_hi(side) - UNIT ==> screen.outward(
                segment.monitor as int,
                side,
                along_of(side, x, y),
            )
        }),
{
    law_every_side_has_an_outward_part(screen, side);
    let segments = screen.segments(side);
    let (lo, hi) = screen.extent_along(side)->0;
    let at = clamped(along, lo, last_of(lo, hi));
    lemma_segment_for(segments, at);
    lemma_segments_belong(screen, side);
    let k = segment_for(segments, at);
    let (segment, place) = screen.arrival(side, along);
    assert(belongs(screen.monitors, side, segments[k]));
    lemma_segments_firm(screen, side, k, false);
    let i = segment.monitor as int;
    let m = screen.monitors[i];
    let (x, y) = screen.landing_at(side, along, margin)->0;
    assert(m.max_x - m.min_x > UNIT && m.max_y - m.min_y > UNIT);
    assert(screen.monitors[i].has(x, y));
    lemma_monitor_of(screen, i, x, y);
    assert(!m.on_edge_row(side, x, y));
    assert(segments[k].lo <= place < segments[k].hi);
    assert(covered(segments, i, place));
    law_segments_face_outward(screen, side, i, place);
    let last = segments[k].hi - 1;
    assert(covered(segments, i, last));
    law_segments_face_outward(screen, side, i, last);
    if segment.lo <= m.span_hi(side) - UNIT {
        assert(along_of(side, x, y) == place);
    }
}

/// Where monitors begin and end at whole units, focus always arrives at a
/// part of the edge that faces the peer.
pub proof fn law_a_landing_faces_the_peer(screen: ScreenModel, side: Side, along: int, margin: int)
    requires
        screen.laid_out(),
        in_whole_units(screen.monitors, side),
        0 < screen.monitors.len() <= usize::MAX,
        margin > 0,
    ensures
        screen.landing_at(side, along, margin) matches Some((x, y)) && exists|i: int|
            #[trigger] screen.outward(i, side, along_of(side, x, y)) && screen.monitors[i].has(x, y),
{
    law_a_landing_is_never_at_the_edge(screen, side, along, margin);
    let segments = screen.segments(side);
    let (lo, hi) = screen.extent_along(side)->0;
    let at = clamped(along, lo, last_of(lo, hi));
    lemma_segment_for(segments, at);
    lemma_segments_belong(screen, side);
    let k = segment_for(segments, at);
    let segment = screen.arrival(side, along).0;
    assert(belongs(screen.monitors, side, segments[k]));
    lemma_segments_firm(screen, side, k, true);
    let i = segment.monitor as int;
    let last = segments[k].hi - 1;
    assert(covered(segments, i, last));
    law_segments_face_outward(screen, side, i, last);
    assert(segment.lo <= screen.monitors[i].span_hi(side) - UNIT);
    let (x, y) = screen.landing_at(side, along, margin)->0;
    assert(screen.outward(i, side, along_of(side, x, y)));
}

/// On a single monitor focus arrives at the place itself, or at the nearest
/// corner if the place is beyond the end.
pub proof fn law_a_single_monitor_is_landed_on_in_place(m: Rect, side: Side, along: int, margin: int)
    requires
        m.max_x - m.min_x > UNIT,
        m.max_y - m.min_y > UNIT,
    ensures
        (ScreenModel { monitors: seq![m], primary: 0 }).landing_at(side, along, margin) matches Some((x, y))
            && along_of(side, x, y) == clamped(along, m.span_lo(side), m.span_hi(side) - UNIT),
{
    let monitors = seq![m];
    let screen = ScreenModel { monitors, primary: 0 };
    let piece = (m.span_lo(side) as i32, m.span_hi(side) as i32);
    let only = Segment { monitor: 0, lo: piece.0, hi: piece.1, edge: m.edge_at(side) as i32 };
    reveal_with_fuel(faces, 2);
    reveal_with_fuel(collected, 2);
    reveal_with_fuel(in_order, 2);
    assert(faces(monitors, 0, side, 1) =~= seq![piece]);
    assert(segments_along(m, 0, side, seq![piece]) =~= seq![only]);
    assert(collected(monitors, side, 1) =~= seq![only]);
    assert(seq![only].drop_last() =~= Seq::<Segment>::empty());
    assert(screen.segments(side) =~= seq![only]);
    reveal_with_fuel(first_holding, 2);
    assert(segment_for(seq![only], clamped(along, only.lo as int, only.hi - UNIT)) == 0);
}

/// Crossing is a translation: a place that the edge has room for is
/// arrived at exactly, neither stretched nor moved.
pub proof fn law_a_place_on_the_edge_is_kept(screen: ScreenModel, side: Side, along: int, margin: int, k: int)
    requires
        screen.monitors.len() <= usize::MAX,
        first_holding(screen.segments(side), along, 0) == Some(k),
        along <= screen.segments(side)[k].hi - UNIT,
    ensures
        screen.landing_at(side, along, margin) is Some,
        ({
            let (x, y) = screen.landing_at(side, along, margin)->0;
            along == if side.is_horizontal() {
                x
            } else {
                y
            }
        }),
{
    let segments = screen.segments(side);
    lemma_first_holding(segments, along, 0);
    lemma_lowest_highest(segments, k);
    lemma_segments_belong(screen, side);
    let segment = segments[k];
    assert(belongs(screen.monitors, side, segments[k]));
    let i = segment.monitor as int;
    assert(covered(segments, i, along));
    assert(segments[k].lo <= along + UNIT - 1 < segments[k].hi);
    assert(covered(segments, i, along + UNIT - 1));
    law_segments_face_outward(screen, side, i, along);
    law_segments_face_outward(screen, side, i, along + UNIT - 1);
    assert(screen.arrival(side, along) == (segment, along));
}

proof fn lemma_extent_is_small(segments: Seq<Segment>)
    requires
        segments.len() > 0,
    ensures
        i32::MIN <= lowest(segments) <= i32::MAX,
        i32::MIN <= highest(segments) <= i32::MAX,
    decreases segments.len(),
{
    if segments.len() > 1 {
        lemma_extent_is_small(segments.drop_last());
    }
}

/// Two places that are further along than any coordinate land alike.
pub proof fn lemma_far_places_land_alike(screen: ScreenModel, side: Side, a: int, b: int, margin: int)
    requires
        (a > i32::MAX && b > i32::MAX) || (a < i32::MIN && b < i32::MIN),
    ensures
        screen.landing_at(side, a, margin) == screen.landing_at(side, b, margin),
{
    let segments = screen.segments(side);
    if segments.len() > 0 {
        lemma_extent_is_small(segments);
    }
}

/// A crossing further along than the side reaches lands at its nearest end.
pub proof fn law_a_crossing_past_the_end_lands_at_the_corner(screen: ScreenModel, side: Side, along: int, margin: int, lo: int, hi: int)
    requires
        screen.extent_along(side) == Some((lo, hi)),
    ensures
        along < lo ==> screen.landing_at(side, along, margin) == screen.landing_at(side, lo, margin),
        along > last_of(lo, hi) ==> screen.landing_at(side, along, margin) == screen.landing_at(
            side,
            last_of(lo, hi),
            margin,
        ),
{
}

/// A place survives the way to the other machine and back: what is at
/// `along` on one machine's side is as far from that machine's anchor as
/// its landing is from the other's, so the way back leads to `along` again.
pub proof fn law_a_position_survives_a_round_trip(
    one: ScreenModel,
    side: Side,
    one_fraction: Option<i64>,
    other: ScreenModel,
    back: Side,
    other_fraction: Option<i64>,
    along: int,
    margin: int,
    k: int,
)
    requires
        other.monitors.len() <= usize::MAX,
        ({
            let there = along - one.anchor_on(side, one_fraction) + other.anchor_on(back, other_fraction);
            &&& first_holding(other.segments(back), there, 0) == Some(k)
            &&& there <= other.segments(back)[k].hi - UNIT
        }),
    ensures
        ({
            let there = along - one.anchor_on(side, one_fraction) + other.anchor_on(back, other_fraction);
            &&& other.landing_at(back, there, margin) matches Some((x, y))
            &&& along == (if back.is_horizontal() {
                x
            } else {
                y
            }) - other.anchor_on(back, other_fraction) + one.anchor_on(side, one_fraction)
        }),
{
    let there = along - one.anchor_on(side, one_fraction) + other.anchor_on(back, other_fraction);
    law_a_place_on_the_edge_is_kept(other, back, there, margin, k);
}

/// The cursor is not left on any edge while focus is on the peer, if the
/// primary monitor is more than two units wide and high.
pub proof fn law_the_resting_point_is_clear_of_every_edge(screen: ScreenModel, side: Side)
    requires
        screen.laid_out(),
        0 <= screen.primary < screen.monitors.len(),
        screen.monitors[screen.primary].max_x - screen.monitors[screen.primary].min_x > 2 * UNIT,
        screen.monitors[screen.primary].max_y - screen.monitors[screen.primary].min_y > 2 * UNIT,
    ensures
        screen.rest() is Some,
        ({
            let (x, y) = screen.rest()->0;
            screen.crossing(side, x, y) is None
        }),
{
    let (x, y) = screen.rest()->0;
    let m = screen.monitors[screen.primary];
    assert(screen.monitors[screen.primary].has(x, y));
    lemma_monitor_of(screen, screen.primary, x, y);
    assert(!m.on_edge_row(side, x, y));
}

/// The cursor is never left in a place that belongs to no monitor, and a
/// point that is on a monitor is left alone.
pub proof fn law_a_clamped_point_is_on_a_monitor(screen: ScreenModel, x: int, y: int)
    requires
        screen.monitors.len() > 0,
        forall|i: int| 0 <= i < screen.monitors.len() ==> (#[trigger] screen.monitors[i]).proper(),
    ensures
        ({
            let (kx, ky) = screen.kept_on(x, y);
            exists|i: int| 0 <= i < screen.monitors.len() && (#[trigger] screen.monitors[i]).has(kx, ky)
        }),
        forall|i: int|
            0 <= i < screen.monitors.len() && (#[trigger] screen.monitors[i]).has(x, y)
                ==> screen.kept_on(x, y) == (x, y),
{
    lemma_first_with(screen.monitors, x, y, 0);
    lemma_nearest_of(screen.monitors, x, y, screen.monitors.len());
    let (kx, ky) = screen.kept_on(x, y);
    match first_with(screen.monitors, x, y, 0) {
        Some(i) => {
            assert(screen.monitors[i].has(kx, ky));
        },
        None => {
            let i = nearest_of(screen.monitors, x, y, screen.monitors.len());
            assert(screen.monitors[i].proper());
            assert(screen.monitors[i].has(kx, ky));
        },
    }
}

proof fn lemma_widest(segments: Seq<Segment>, monitor: int, n: nat)
    requires
        n <= segments.len(),
    ensures
        match widest(segments, monitor, n) {
            None => forall|j: int| 0 <= j < n ==> (#[trigger] segments[j]).monitor != monitor,
            Some(k) => {
                &&& 0 <= k < n
                &&& segments[k].monitor == monitor
                &&& forall|j: int|
                    0 <= j < n && (#[trigger] segments[j]).monitor == monitor ==> segments[j].hi - segments[j].lo
                        <= segments[k].hi - segments[k].lo
            },
        },
    decreases n,
{
    if n > 0 {
        lemma_widest(segments, monitor, (n - 1) as nat);
    }
}

proof fn lemma_ends(segments: Seq<Segment>)
    requires
        segments.len() > 0,
    ensures
        exists|a: int| 0 <= a < segments.len() && (#[trigger] segments[a]).lo == lowest(segments),
        exists|b: int| 0 <= b < segments.len() && (#[trigger] segments[b]).hi == highest(segments),
    decreases segments.len(),
{
    if segments.len() == 1 {
        assert(segments[0].lo == lowest(segments));
        assert(segments[0].hi == highest(segments));
    } else {
        let front = segments.drop_last();
        lemma_ends(front);
        let a = choose|a: int| 0 <= a < front.len() && (#[trigger] front[a]).lo == lowest(front);
        let b = choose|b: int| 0 <= b < front.len() && (#[trigger] front[b]).hi == highest(front);
        assert(segments[a] == front[a]);
        assert(segments[b] == front[b]);
        let end = segments.len() - 1;
        assert(segments[end] == segments.last());
    }
}

/// Whether two of several segments are the ones at the ends: none begins
/// before the first, and none ends behind the second.
pub open spec fn at_the_ends(segments: Seq<Segment>, a: int, b: int) -> bool {
    &&& 0 <= a < segments.len()
    &&& 0 <= b < segments.len()
    &&& forall|k: int|
        0 <= k < segments.len() ==> segments[a].lo <= (#[trigger] segments[k]).lo && segments[k].hi
            <= segments[b].hi
}

/// The extent of a side reaches from the first of its segments to the last:
/// no segment sticks out of it, and it is no larger than that takes.
pub proof fn law_the_extent_is_as_large_as_the_segments(screen: ScreenModel, side: Side) -> (ends: (int, int))
    requires
        screen.segments(side).len() > 0,
    ensures
        at_the_ends(screen.segments(side), ends.0, ends.1),
        screen.extent_along(side) == Some(
            (screen.segments(side)[ends.0].lo as int, screen.segments(side)[ends.1].hi as int),
        ),
{
    let segments = screen.segments(side);
    lemma_ends(segments);
    let a = choose|a: int| 0 <= a < segments.len() && (#[trigger] segments[a]).lo == lowest(segments);
    let b = choose|b: int| 0 <= b < segments.len() && (#[trigger] segments[b]).hi == highest(segments);
    assert forall|k: int| 0 <= k < segments.len() implies segments[a].lo <= (#[trigger] segments[k]).lo
        && segments[k].hi <= segments[b].hi by {
        lemma_lowest_highest(segments, k);
    }
    (a, b)
}

/// Where nothing is configured, the anchor is the middle of an outward
/// segment of the primary monitor, and of none that is narrower than another
/// one of it.
pub proof fn law_the_anchor_is_the_middle_of_a_widest_part_of_the_primary_monitor(
    screen: ScreenModel,
    side: Side,
    k: int,
) -> (m: int)
    requires
        0 <= k < screen.segments(side).len(),
        screen.segments(side)[k].monitor == screen.primary,
    ensures
        0 <= m < screen.segments(side).len(),
        screen.segments(side)[m].monitor == screen.primary,
        forall|j: int|
            0 <= j < screen.segments(side).len() && (#[trigger] screen.segments(side)[j]).monitor == screen.primary
                ==> screen.segments(side)[j].hi - screen.segments(side)[j].lo <= screen.segments(side)[m].hi
                - screen.segments(side)[m].lo,
        2 * screen.anchor_on(side, None) <= screen.segments(side)[m].lo + screen.segments(side)[m].hi,
        screen.segments(side)[m].lo + screen.segments(side)[m].hi <= 2 * screen.anchor_on(side, None) + 1,
{
    let segments = screen.segments(side);
    lemma_widest(segments, screen.primary, segments.len());
    widest(segments, screen.primary, segments.len())->0
}

/// Where no outward segment belongs to the primary monitor, the anchor is
/// the middle of the whole extent.
pub proof fn law_without_the_primary_monitor_the_anchor_is_the_middle_of_the_extent(
    screen: ScreenModel,
    side: Side,
    a: int,
    b: int,
)
    requires
        at_the_ends(screen.segments(side), a, b),
        forall|k: int|
            0 <= k < screen.segments(side).len() ==> (#[trigger] screen.segments(side)[k]).monitor
                != screen.primary,
    ensures
        2 * screen.anchor_on(side, None) <= screen.segments(side)[a].lo + screen.segments(side)[b].hi,
        screen.segments(side)[a].lo + screen.segments(side)[b].hi <= 2 * screen.anchor_on(side, None) + 1,
{
    let segments = screen.segments(side);
    lemma_widest(segments, screen.primary, segments.len());
    let ends = law_the_extent_is_as_large_as_the_segments(screen, side);
    assert(segments[a].lo <= segments[ends.0].lo && segments[ends.1].hi <= segments[b].hi);
    assert(segments[ends.0].lo <= segments[a].lo && segments[b].hi <= segments[ends.1].hi);
}

/// A configured fraction puts the anchor that part of the way from one end of
/// the extent to the other: none of the way is one end, all of it the other,
/// and in between the anchor is off by less than a step.
pub proof fn law_a_configured_anchor_lies_part_way_along_the_extent(
    screen: ScreenModel,
    side: Side,
    fraction: i64,
    a: int,
    b: int,
)
    requires
        at_the_ends(screen.segments(side), a, b),
    ensures
        ({
            let lo = screen.segments(side)[a].lo as int;
            let hi = screen.segments(side)[b].hi as int;
            let anchor = screen.anchor_on(side, Some(fraction));
            &&& fraction <= 0 ==> anchor == lo
            &&& fraction >= 0x1_0000_0000 ==> anchor == hi
            &&& 0 <= fraction <= 0x1_0000_0000 ==> 0 <= fraction * (hi - lo) - (anchor - lo) * 0x1_0000_0000
                < 0x1_0000_0000
        }),
{
    let segments = screen.segments(side);
    let ends = law_the_extent_is_as_large_as_the_segments(screen, side);
    assert(segments[a].lo <= segments[ends.0].lo && segments[ends.1].hi <= segments[b].hi);
    assert(segments[ends.0].lo <= segments[a].lo && segments[b].hi <= segments[ends.1].hi);
    let d = segments[b].hi - segments[a].lo;
    assert(0 * d == 0);
    assert(WHOLE * d == d * WHOLE);
}

/// Whether a monitor covers no part of another one's side: it begins and ends
/// beside it, or does not lie within a unit of that side.
pub open spec fn leaves_open(m: Rect, n: Rect, side: Side) -> bool {
    match side {
        Side::Top => n.max_x <= m.min_x || m.max_x <= n.min_x || n.max_y < m.min_y - 256 || n.max_y > m.min_y
            + 256,
        Side::Bottom => n.max_x <= m.min_x || m.max_x <= n.min_x || n.min_y < m.max_y - 256 || n.min_y
            > m.max_y + 256,
        Side::Left => n.max_y <= m.min_y || m.max_y <= n.min_y || n.max_x < m.min_x - 256 || n.max_x > m.min_x
            + 256,
        Side::Right => n.max_y <= m.min_y || m.max_y <= n.min_y || n.min_x < m.max_x - 256 || n.min_x > m.max_x
            + 256,
    }
}

proof fn lemma_open_face(monitors: Seq<Rect>, i: int, side: Side, n: nat)
    requires
        0 <= i < monitors.len(),
        n <= monitors.len(),
        forall|j: int| 0 <= j < monitors.len() && j != i ==> leaves_open(monitors[i], #[trigger] monitors[j], side),
    ensures
        faces(monitors, i, side, n) == seq![
            (monitors[i].span_lo(side) as i32, monitors[i].span_hi(side) as i32),
        ],
    decreases n,
{
    if n > 0 {
        lemma_open_face(monitors, i, side, (n - 1) as nat);
        let whole = (monitors[i].span_lo(side) as i32, monitors[i].span_hi(side) as i32);
        let before = seq![whole];
        let other = monitors[n - 1];
        if n - 1 != i && lies_beyond(monitors[i], other, side) {
            assert(leaves_open(monitors[i], monitors[n - 1], side));
            assert(before.drop_last() =~= Seq::<(i32, i32)>::empty());
            assert(cut(whole, other.span_lo(side), other.span_hi(side)) =~= before);
            assert(subtracted(before, other.span_lo(side), other.span_hi(side)) =~= before) by {
                reveal_with_fuel(subtracted, 2);
            }
        }
    }
}

/// The segments that belong to a monitor are what is left of its side.
proof fn lemma_collected_of(monitors: Seq<Rect>, side: Side, n: nat, i: int)
    requires
        n <= monitors.len() <= usize::MAX,
        0 <= i < monitors.len(),
    ensures
        forall|k: int|
            0 <= k < collected(monitors, side, n).len() && (#[trigger] collected(monitors, side, n)[k]).monitor == i
                ==> faces(monitors, i, side, monitors.len()).contains(
                (collected(monitors, side, n)[k].lo, collected(monitors, side, n)[k].hi),
            ),
    decreases n,
{
    if n > 0 {
        lemma_collected_of(monitors, side, (n - 1) as nat, i);
        let before = collected(monitors, side, (n - 1) as nat);
        let pieces = faces(monitors, n - 1, side, monitors.len());
        let mine = segments_along(monitors[n - 1], n - 1, side, pieces);
        assert forall|k: int|
            0 <= k < (before + mine).len() && (#[trigger] (before + mine)[k]).monitor == i implies faces(
            monitors,
            i,
            side,
            monitors.len(),
        ).contains(((before + mine)[k].lo, (before + mine)[k].hi)) by {
            if k < before.len() {
                assert((before + mine)[k] == before[k]);
            } else {
                assert((before + mine)[k] == mine[k - before.len()]);
                assert(pieces[k - before.len()] == (mine[k - before.len()].lo, mine[k - before.len()].hi));
            }
        }
    }
}

/// With nothing configured, and no monitor beyond the primary one's edge, the
/// anchor is the middle of the primary monitor, whichever of the monitors
/// that is and in whatever order they are listed.
pub proof fn law_the_anchor_is_the_middle_of_an_open_primary_monitor(screen: ScreenModel, side: Side)
    requires
        0 <= screen.primary < screen.monitors.len() <= usize::MAX,
        screen.monitors[screen.primary].proper(),
        forall|j: int|
            0 <= j < screen.monitors.len() && j != screen.primary ==> leaves_open(
                screen.monitors[screen.primary],
                #[trigger] screen.monitors[j],
                side,
            ),
    ensures
        ({
            let m = screen.monitors[screen.primary];
            screen.anchor_on(side, None) == match side {
                Side::Top | Side::Bottom => (m.min_x + m.max_x) / 2,
                Side::Left | Side::Right => (m.min_y + m.max_y) / 2,
            }
        }),
{
    let i = screen.primary;
    let m = screen.monitors[i];
    let whole = (m.span_lo(side) as i32, m.span_hi(side) as i32);
    let all = collected(screen.monitors, side, screen.monitors.len());
    lemma_open_face(screen.monitors, i, side, screen.monitors.len());
    lemma_collected_of(screen.monitors, side, screen.monitors.len(), i);
    let p = |segment: Segment| segment.monitor == i ==> (segment.lo, segment.hi) == whole;
    assert forall|k: int| 0 <= k < all.len() implies p(#[trigger] all[k]) by {
        if all[k].monitor == i {
            assert(seq![whole].contains((all[k].lo, all[k].hi)));
        }
    }
    lemma_in_order_all(all, p);
    assert(screen.outward(i, side, m.span_lo(side))) by {
        assert forall|j: int|
            0 <= j < screen.monitors.len() && j != i && #[trigger] lies_beyond(m, screen.monitors[j], side) implies !(
        screen.monitors[j].span_lo(side) <= m.span_lo(side) < screen.monitors[j].span_hi(side)) by {
            assert(leaves_open(m, screen.monitors[j], side));
        }
    }
    law_segments_face_outward(screen, side, i, m.span_lo(side));
    let segments = screen.segments(side);
    let k = choose|k: int|
        0 <= k < segments.len() && (#[trigger] segments[k]).monitor == i && segments[k].lo <= m.span_lo(side)
            < segments[k].hi;
    let w = law_the_anchor_is_the_middle_of_a_widest_part_of_the_primary_monitor(screen, side, k);
    assert(p(segments[w]));
}

proof fn lemma_squares(a: int, b: int)
    requires
        -b <= a <= b || b <= a <= -b,
    ensures
        a * a <= b * b,
{
    assert(a * a <= b * b) by (nonlinear_arith)
        requires
            -b <= a <= b || b <= a <= -b,
    ;
}

/// No place of a monitor at which the cursor can be is nearer to a point
/// than the one that the monitor offers.
proof fn lemma_nearest_place(m: Rect, x: int, y: int, px: int, py: int)
    requires
        m.min_x <= px <= m.max_x - UNIT,
        m.min_y <= py <= m.max_y - UNIT,
    ensures
        m.distance_from(x, y) <= (px - x) * (px - x) + (py - y) * (py - y),
{
    let (nx, ny) = m.nearest_to(x, y);
    lemma_squares(nx - x, px - x);
    lemma_squares(ny - y, py - y);
}

/// A point that is on no monitor goes to a place of a monitor at which the
/// cursor can be, and to the nearest one: no such place of any monitor is
/// nearer.
pub proof fn law_a_lost_point_goes_to_the_nearest_place(screen: ScreenModel, x: int, y: int, i: int, px: int, py: int)
    requires
        0 <= i < screen.monitors.len(),
        screen.monitors[i].min_x <= px <= screen.monitors[i].max_x - 256,
        screen.monitors[i].min_y <= py <= screen.monitors[i].max_y - 256,
        forall|j: int| 0 <= j < screen.monitors.len() ==> !(#[trigger] screen.monitors[j]).has(x, y),
    ensures
        ({
            let (kx, ky) = screen.kept_on(x, y);
            &&& (kx - x) * (kx - x) + (ky - y) * (ky - y) <= (px - x) * (px - x) + (py - y) * (py - y)
            &&& exists|j: int|
                {
                    &&& 0 <= j < screen.monitors.len()
                    &&& (#[trigger] screen.monitors[j]).min_x <= kx
                    &&& kx <= screen.monitors[j].max_x - 256 || kx == screen.monitors[j].min_x
                    &&& screen.monitors[j].min_y <= ky
                    &&& ky <= screen.monitors[j].max_y - 256 || ky == screen.monitors[j].min_y
                }
        }),
{
    lemma_first_with(screen.monitors, x, y, 0);
    lemma_nearest_of(screen.monitors, x, y, screen.monitors.len());
    lemma_nearest_place(screen.monitors[i], x, y, px, py);
    let j = nearest_of(screen.monitors, x, y, screen.monitors.len());
    assert(screen.monitors[j].distance_from(x, y) <= screen.monitors[i].distance_from(x, y));
    let (kx, ky) = screen.kept_on(x, y);
    assert(screen.monitors[j].min_x <= kx);
}

/// Whether a monitor lies within a unit beyond a place of another one's side.
pub open spec fn covers_beyond(m: Rect, n: Rect, side: Side, x: int, y: int) -> bool {
    match side {
        Side::Top => n.min_x <= x < n.max_x && m.min_y - 256 <= n.max_y <= m.min_y + 256,
        Side::Bottom => n.min_x <= x < n.max_x && m.max_y - 256 <= n.min_y <= m.max_y + 256,
        Side::Left => n.min_y <= y < n.max_y && m.min_x - 256 <= n.max_x <= m.min_x + 256,
        Side::Right => n.min_y <= y < n.max_y && m.max_x - 256 <= n.min_x <= m.max_x + 256,
    }
}

/// A cursor on a monitor crosses a side exactly if it is in the last row or
/// column of its own monitor on that side and no other monitor lies beyond it
/// there. How far along it crosses is where it is.
pub proof fn law_a_crossing_is_at_the_monitors_own_edge(screen: ScreenModel, side: Side, i: int, x: int, y: int)
    requires
        screen.laid_out(),
        0 <= i < screen.monitors.len(),
        screen.monitors[i].has(x, y),
    ensures
        ({
            let m = screen.monitors[i];
            let last = match side {
                Side::Top => y == m.min_y,
                Side::Bottom => y + 256 >= m.max_y,
                Side::Left => x == m.min_x,
                Side::Right => x + 256 >= m.max_x,
            };
            let blocked = exists|j: int|
                0 <= j < screen.monitors.len() && j != i && covers_beyond(m, #[trigger] screen.monitors[j], side, x, y);
            screen.crossing(side, x, y) == if last && !blocked {
                Some(if side == Side::Top || side == Side::Bottom { x } else { y })
            } else {
                None
            }
        }),
{
    lemma_monitor_of(screen, i, x, y);
    let m = screen.monitors[i];
    let along = if side.is_horizontal() { x } else { y };
    assert forall|j: int| 0 <= j < screen.monitors.len() && j != i implies covers_beyond(
        m,
        #[trigger] screen.monitors[j],
        side,
        x,
        y,
    ) == (lies_beyond(m, screen.monitors[j], side) && screen.monitors[j].span_lo(side) <= along
        < screen.monitors[j].span_hi(side)) by {}
    if !screen.outward(i, side, along) {
        let j = choose|j: int|
            0 <= j < screen.monitors.len() && j != i && #[trigger] lies_beyond(m, screen.monitors[j], side)
                && screen.monitors[j].span_lo(side) <= along < screen.monitors[j].span_hi(side);
        assert(covers_beyond(m, screen.monitors[j], side, x, y));
    } else if exists|j: int|
        0 <= j < screen.monitors.len() && j != i && covers_beyond(m, #[trigger] screen.monitors[j], side, x, y) {
        let j = choose|j: int|
            0 <= j < screen.monitors.len() && j != i && covers_beyond(m, #[trigger] screen.monitors[j], side, x, y);
        assert(lies_beyond(m, screen.monitors[j], side));
    }
}

/// A point on no monitor counts as being on the one that offers the nearest
/// place.
pub proof fn law_a_lost_point_counts_with_the_nearest_monitor(
    screen: ScreenModel,
    x: int,
    y: int,
    i: int,
    px: int,
    py: int,
) -> (place: (int, int))
    requires
        0 <= i < screen.monitors.len(),
        screen.monitors[i].min_x <= px <= screen.monitors[i].max_x - 256,
        screen.monitors[i].min_y <= py <= screen.monitors[i].max_y - 256,
        forall|j: int| 0 <= j < screen.monitors.len() ==> !(#[trigger] screen.monitors[j]).has(x, y),
        forall|j: int| 0 <= j < screen.monitors.len() ==> (#[trigger] screen.monitors[j]).proper(),
    ensures
        ({
            &&& screen.monitor_of(x, y) matches Some(k)
            &&& 0 <= k < screen.monitors.len()
            &&& screen.monitors[k].has(place.0, place.1)
            &&& (place.0 - x) * (place.0 - x) + (place.1 - y) * (place.1 - y) <= (px - x) * (px - x) + (py - y) * (
            py - y)
        }),
{
    lemma_first_with(screen.monitors, x, y, 0);
    lemma_nearest_of(screen.monitors, x, y, screen.monitors.len());
    lemma_nearest_place(screen.monitors[i], x, y, px, py);
    let k = nearest_of(screen.monitors, x, y, screen.monitors.len());
    assert(screen.monitors[k].proper());
    assert(screen.monitors[k].distance_from(x, y) <= screen.monitors[i].distance_from(x, y));
    screen.monitors[k].nearest_to(x, y)
}

proof fn lemma_placed_ascends(segments: Seq<Segment>, one: Segment)
    requires
        forall|i: int, j: int| 0 <= i < j < segments.len() ==> (#[trigger] segments[i]).lo <= (#[trigger] segments[j]).lo,
    ensures
        forall|i: int, j: int|
            0 <= i < j < placed(segments, one).len() ==> (#[trigger] placed(segments, one)[i]).lo <= (
            #[trigger] placed(segments, one)[j]).lo,
    decreases segments.len(),
{
    if !(segments.len() == 0 || segments.last().lo <= one.lo) {
        let front = segments.drop_last();
        assert forall|i: int, j: int| 0 <= i < j < front.len() implies (#[trigger] front[i]).lo <= (
        #[trigger] front[j]).lo by {
            assert(front[i] == segments[i] && front[j] == segments[j]);
        }
        lemma_placed_ascends(front, one);
        let moved = placed(front, one);
        let p = |segment: Segment| segment.lo <= segments.last().lo;
        assert forall|k: int| 0 <= k < front.len() implies p(#[trigger] front[k]) by {
            assert(front[k] == segments[k]);
            assert(segments[k].lo <= segments[segments.len() - 1].lo);
        }
        lemma_placed_all(front, one, p);
        let all = placed(segments, one);
        assert(all == moved.push(segments.last()));
        assert forall|i: int, j: int| 0 <= i < j < all.len() implies (#[trigger] all[i]).lo <= (
        #[trigger] all[j]).lo by {
            assert(all[i] == moved[i]);
            if j == moved.len() {
                assert(p(moved[i]));
            } else {
                assert(all[j] == moved[j]);
            }
        }
    } else {
        let all = placed(segments, one);
        assert forall|i: int, j: int| 0 <= i < j < all.len() implies (#[trigger] all[i]).lo <= (
        #[trigger] all[j]).lo by {
            assert(all[i] == segments[i]);
            if j < segments.len() {
                assert(all[j] == segments[j]);
            } else {
                assert(segments[i].lo <= segments[segments.len() - 1].lo);
            }
        }
    }
}

proof fn lemma_in_order_ascends(segments: Seq<Segment>)
    ensures
        forall|i: int, j: int|
            0 <= i < j < in_order(segments).len() ==> (#[trigger] in_order(segments)[i]).lo <= (
            #[trigger] in_order(segments)[j]).lo,
    decreases segments.len(),
{
    if segments.len() > 0 {
        lemma_in_order_ascends(segments.drop_last());
        lemma_placed_ascends(in_order(segments.drop_last()), segments.last());
    }
}

/// The segments of a side ascend, and each lies at the row or column of its
/// own monitor's edge.
pub proof fn law_segments_ascend_along_their_monitors_edges(screen: ScreenModel, side: Side, k: int)
    requires
        0 <= k < screen.segments(side).len(),
        screen.monitors.len() <= usize::MAX,
        screen.laid_out(),
    ensures
        screen.segments(side)[k].monitor < screen.monitors.len(),
        ({
            let m = screen.monitors[screen.segments(side)[k].monitor as int];
            screen.segments(side)[k].edge == match side {
                Side::Top => m.min_y as int,
                Side::Bottom => m.max_y - 256,
                Side::Left => m.min_x as int,
                Side::Right => m.max_x - 256,
            }
        }),
        screen.segments(side)[k].lo < screen.segments(side)[k].hi,
        k > 0 ==> screen.segments(side)[k - 1].lo <= screen.segments(side)[k].lo,
{
    lemma_segments_belong(screen, side);
    lemma_segments_firm(screen, side, k, false);
    assert(belongs(screen.monitors, side, screen.segments(side)[k]));
    let m = screen.monitors[screen.segments(side)[k].monitor as int];
    assert(m.max_x - m.min_x > UNIT && m.max_y - m.min_y > UNIT);
    lemma_in_order_ascends(collected(screen.monitors, side, screen.monitors.len()));
}

/// The resting point is as far from the left of the primary monitor as from
/// its right, and as far from its top as from its bottom.
pub proof fn law_the_resting_point_is_in_the_middle_of_the_primary_monitor(screen: ScreenModel)
    requires
        0 <= screen.primary < screen.monitors.len(),
    ensures
        ({
            let m = screen.monitors[screen.primary];
            &&& screen.rest() matches Some((x, y))
            &&& 0 <= (m.max_x - x) - (x - m.min_x) <= 1
            &&& 0 <= (m.max_y - y) - (y - m.min_y) <= 1
        }),
{
}

proof fn lemma_closest_is_closest(segments: Seq<Segment>, at: int, n: nat)
    requires
        1 <= n <= segments.len(),
    ensures
        0 <= closest(segments, at, n) < n,
        forall|k: int|
            0 <= k < n ==> off_segment(segments[closest(segments, at, n)], at) <= off_segment(
                #[trigger] segments[k],
                at,
            ),
    decreases n,
{
    if n > 1 {
        lemma_closest_is_closest(segments, at, (n - 1) as nat);
    }
}

proof fn lemma_landed_near(c: Segment, k: Segment, lo: int, hi: int, along: int, place: int)
    requires
        c.lo % 256 == 0,
        c.hi % 256 == 0,
        lo % 256 == 0,
        hi % 256 == 0,
        lo <= c.lo < c.hi <= hi,
        lo <= k.lo <= place < k.hi <= hi,
        ({
            let at = clamped(along, lo, last_of(lo, hi));
            c.lo <= at < c.hi || (at == along && off_segment(c, at) <= off_segment(k, at))
        }),
    ensures
        ({
            let at = clamped(along, lo, last_of(lo, hi));
            apart(clamped(at, c.lo as int, last_of(c.lo as int, c.hi as int)), along) <= apart(place, along) + 256
        }),
{
}

/// Where monitors are in whole units, a landing lies at the place along the
/// side that was chosen for it.
#[verifier::spinoff_prover]
proof fn lemma_landed_along(screen: ScreenModel, side: Side, along: int, margin: int) -> (c: int)
    requires
        screen.laid_out(),
        in_whole_units(screen.monitors, side),
        0 < screen.monitors.len() <= usize::MAX,
        margin > 0,
    ensures
        0 <= c < screen.segments(side).len(),
        ({
            let (lo, hi) = screen.extent_along(side)->0;
            let at = clamped(along, lo, last_of(lo, hi));
            let segment = screen.segments(side)[c];
            &&& c == segment_for(screen.segments(side), at)
            &&& screen.landing_at(side, along, margin) matches Some((x, y))
            &&& along_of(side, x, y) == clamped(at, segment.lo as int, last_of(segment.lo as int, segment.hi as int))
        }),
{
    law_a_landing_is_never_at_the_edge(screen, side, along, margin);
    let segments = screen.segments(side);
    let (lo, hi) = screen.extent_along(side)->0;
    let at = clamped(along, lo, last_of(lo, hi));
    lemma_segment_for(segments, at);
    lemma_segments_belong(screen, side);
    let c = segment_for(segments, at);
    lemma_segments_firm(screen, side, c, true);
    assert(belongs(screen.monitors, side, segments[c]));
    let i = segments[c].monitor as int;
    let m = screen.monitors[i];
    assert(m.max_x - m.min_x > UNIT && m.max_y - m.min_y > UNIT);
    assert(covered(segments, i, segments[c].hi - 1));
    law_segments_face_outward(screen, side, i, segments[c].hi - 1);
    assert(covered(segments, i, segments[c].lo as int));
    law_segments_face_outward(screen, side, i, segments[c].lo as int);
    assert(m.span_lo(side) <= segments[c].lo);
    lemma_whole_gap(segments[c].lo as int, segments[c].hi as int);
    assert(segments[c].hi <= m.span_hi(side));
    c
}

proof fn lemma_whole_gap(lo: int, hi: int)
    requires
        firm(lo, hi, true),
    ensures
        lo + UNIT <= hi,
{
}

/// Focus arrives as near to where the motion was heading as there is a place
/// for it: no place that faces the peer is nearer by more than a unit.
#[verifier::spinoff_prover]
pub proof fn law_no_outward_place_is_nearer_than_the_landing(
    screen: ScreenModel,
    side: Side,
    along: int,
    margin: int,
    i: int,
    place: int,
)
    requires
        screen.laid_out(),
        in_whole_units(screen.monitors, side),
        0 < screen.monitors.len() <= usize::MAX,
        margin > 0,
        screen.outward(i, side, place),
    ensures
        screen.landing_at(side, along, margin) matches Some((x, y)) && apart(along_of(side, x, y), along) <= apart(
            place,
            along,
        ) + 256,
{
    let c = lemma_landed_along(screen, side, along, margin);
    let segments = screen.segments(side);
    law_segments_face_outward(screen, side, i, place);
    let k = choose|k: int|
        0 <= k < segments.len() && (#[trigger] segments[k]).monitor == i && segments[k].lo <= place
            < segments[k].hi;
    let ends = law_the_extent_is_as_large_as_the_segments(screen, side);
    lemma_segments_firm(screen, side, c, true);
    lemma_segments_firm(screen, side, ends.0, true);
    lemma_segments_firm(screen, side, ends.1, true);
    lemma_nearest_segment(segments, ends.0, ends.1, c, k, along, place);
}

#[verifier::spinoff_prover]
proof fn lemma_nearest_segment(segments: Seq<Segment>, a: int, b: int, c: int, k: int, along: int, place: int)
    requires
        at_the_ends(segments, a, b),
        0 <= c < segments.len(),
        0 <= k < segments.len(),
        firm(segments[a].lo as int, segments[a].hi as int, true),
        firm(segments[b].lo as int, segments[b].hi as int, true),
        firm(segments[c].lo as int, segments[c].hi as int, true),
        segments[k].lo <= place < segments[k].hi,
        c == segment_for(segments, clamped(along, segments[a].lo as int, last_of(segments[a].lo as int, segments[b].hi as int))),
    ensures
        ({
            let lo = segments[a].lo as int;
            let hi = segments[b].hi as int;
            let at = clamped(along, lo, last_of(lo, hi));
            apart(clamped(at, segments[c].lo as int, last_of(segments[c].lo as int, segments[c].hi as int)), along)
                <= apart(place, along) + 256
        }),
{
    let lo = segments[a].lo as int;
    let hi = segments[b].hi as int;
    let at = clamped(along, lo, last_of(lo, hi));
    lemma_first_holding(segments, at, 0);
    assert(segments[a].lo <= segments[k].lo && segments[k].hi <= segments[b].hi);
    assert(segments[c].hi <= segments[b].hi && segments[a].lo <= segments[c].lo);
    assert(segments[a].hi <= segments[b].hi && segments[a].lo <= segments[b].lo);
    if first_holding(segments, at, 0) is None {
        lemma_closest_is_closest(segments, at, segments.len());
        assert(!(segments[a].lo <= at < segments[a].hi));
        assert(!(segments[b].lo <= at < segments[b].hi));
        lemma_clamped_to_an_end(along, lo, hi, segments[a].hi as int, segments[b].lo as int);
        assert(off_segment(segments[c], at) <= off_segment(segments[k], at));
    }
    lemma_landed_near(segments[c], segments[k], lo, hi, along, place);
}

/// What is brought to an end of a range that is in whole units is in what
/// lies at that end.
proof fn lemma_clamped_to_an_end(along: int, lo: int, hi: int, first_hi: int, last_lo: int)
    requires
        lo % 256 == 0,
        hi % 256 == 0,
        first_hi % 256 == 0,
        last_lo % 256 == 0,
        lo < first_hi <= hi,
        lo <= last_lo < hi,
        !(lo <= clamped(along, lo, last_of(lo, hi)) < first_hi),
        !(last_lo <= clamped(along, lo, last_of(lo, hi)) < hi),
    ensures
        clamped(along, lo, last_of(lo, hi)) == along,
{
}

/// A point on a monitor is left where it is.
pub proof fn lemma_kept_in_place(screen: ScreenModel, x: int, y: int, i: int)
    requires
        0 <= i < screen.monitors.len(),
        screen.monitors[i].has(x, y),
    ensures
        screen.kept_on(x, y) == (x, y),
{
    lemma_first_with(screen.monitors, x, y, 0);
}

/// The anchor is never beyond the largest coordinate.
pub proof fn lemma_anchor_is_a_coordinate(screen: ScreenModel, side: Side, fraction: Option<i64>)
    ensures
        i32::MIN <= screen.anchor_on(side, fraction) <= i32::MAX,
{
    let segments = screen.segments(side);
    if segments.len() > 0 {
        lemma_extent_is_small(segments);
        lemma_widest(segments, screen.primary, segments.len());
        if let Some(f) = fraction {
            lemma_part_way(lowest(segments), highest(segments), f as int);
        }
    }
}

/// A point that is not in the last row or column of its monitor does not
/// cross.
pub proof fn lemma_off_the_row_there_is_no_crossing(screen: ScreenModel, side: Side, i: int, x: int, y: int)
    requires
        screen.laid_out(),
        0 <= i < screen.monitors.len(),
        screen.monitors[i].has(x, y),
        !screen.monitors[i].on_edge_row(side, x, y),
    ensures
        screen.crossing(side, x, y) is None,
{
    lemma_monitor_of(screen, i, x, y);
}

/// Whether a monitor begins and ends at whole units.
pub open spec fn whole_rect(m: Rect) -> bool {
    m.min_x % 256 == 0 && m.max_x % 256 == 0 && m.min_y % 256 == 0 && m.max_y % 256 == 0
}

proof fn lemma_clamped_whole(v: int, lo: int, hi: int)
    requires
        v % 256 == 0,
        lo % 256 == 0,
        hi % 256 == 0,
    ensures
        clamped(v, lo, last_of(lo, hi)) % 256 == 0,
        last_of(lo, hi) % 256 == 0,
{
}

/// Where monitors are in whole units, a landing lies a whole number of units
/// in from the edge.
pub proof fn lemma_a_landing_is_whole_units_in(screen: ScreenModel, side: Side, along: int, margin: int)
    requires
        screen.laid_out(),
        forall|i: int| 0 <= i < screen.monitors.len() ==> whole_rect(#[trigger] screen.monitors[i]),
        0 < screen.monitors.len() <= usize::MAX,
        margin > 0,
        margin % 256 == 0,
    ensures
        screen.landing_at(side, along, margin) matches Some((x, y)) && (if side == Side::Top || side == Side::Bottom {
            y
        } else {
            x
        }) % 256 == 0,
{
    law_a_landing_is_never_at_the_edge(screen, side, along, margin);
    let segments = screen.segments(side);
    let (lo, hi) = screen.extent_along(side)->0;
    let at = clamped(along, lo, last_of(lo, hi));
    lemma_segment_for(segments, at);
    lemma_segments_belong(screen, side);
    let segment = segments[segment_for(segments, at)];
    assert(belongs(screen.monitors, side, segments[segment_for(segments, at)]));
    let m = screen.monitors[segment.monitor as int];
    assert(whole_rect(screen.monitors[segment.monitor as int]));
    lemma_nearest_is_whole(m, side, margin, screen.arrival(side, along).1);
}

proof fn lemma_nearest_is_whole(m: Rect, side: Side, margin: int, at: int)
    requires
        whole_rect(m),
        margin % 256 == 0,
    ensures
        ({
            let inward = if side == Side::Top || side == Side::Left {
                m.edge_at(side) + margin
            } else {
                m.edge_at(side) - margin
            };
            if side == Side::Top || side == Side::Bottom {
                m.nearest_to(at, inward).1 % 256 == 0
            } else {
                m.nearest_to(inward, at).0 % 256 == 0
            }
        }),
{
    lemma_clamped_whole(0, m.min_x as int, m.max_x as int);
    lemma_clamped_whole(0, m.min_y as int, m.max_y as int);
    let inward = if side == Side::Top || side == Side::Left {
        m.edge_at(side) + margin
    } else {
        m.edge_at(side) - margin
    };
    assert(inward % 256 == 0);
    lemma_clamped_whole(inward, m.min_x as int, m.max_x as int);
    lemma_clamped_whole(inward, m.min_y as int, m.max_y as int);
}

/// What is left of a place of a monitor in whole units once it is cut to
/// whole units itself: it stays on the monitor, and off the edge.
pub proof fn lemma_cut_to_units(m: Rect, side: Side, x: int, y: int)
    requires
        whole_rect(m),
        m.has(x, y),
        !m.on_edge_row(side, x, y),
        (if side == Side::Top || side == Side::Bottom { y } else { x }) % 256 == 0,
    ensures
        m.has(256 * (x / 256), 256 * (y / 256)),
        !m.on_edge_row(side, 256 * (x / 256), 256 * (y / 256)),
{
}

proof fn lemma_whole_place(at: int, c_lo: int, c_hi: int, lo: int, hi: int)
    requires
        at % 256 == 0,
        firm(c_lo, c_hi, true),
        lo % 256 == 0,
        hi % 256 == 0,
        lo <= c_lo <= at < c_hi <= hi,
    ensures
        clamped(at, lo, last_of(lo, hi)) == at,
        clamped(at, c_lo, last_of(c_lo, c_hi)) == at,
{
}

/// A place that faces the peer is arrived at exactly: in whole units nothing
/// is moved along the side.
#[verifier::spinoff_prover]
pub proof fn law_an_outward_place_is_arrived_at_exactly(screen: ScreenModel, side: Side, along: int, margin: int, i: int)
    requires
        screen.laid_out(),
        in_whole_units(screen.monitors, side),
        0 < screen.monitors.len() <= usize::MAX,
        margin > 0,
        along % 256 == 0,
        screen.outward(i, side, along),
    ensures
        screen.landing_at(side, along, margin) matches Some((x, y)) && along == if side == Side::Top || side
            == Side::Bottom {
            x
        } else {
            y
        },
{
    let c = lemma_landed_along(screen, side, along, margin);
    let segments = screen.segments(side);
    law_segments_face_outward(screen, side, i, along);
    let k = choose|k: int|
        0 <= k < segments.len() && (#[trigger] segments[k]).monitor == i && segments[k].lo <= along
            < segments[k].hi;
    let ends = law_the_extent_is_as_large_as_the_segments(screen, side);
    lemma_segments_firm(screen, side, c, true);
    lemma_segments_firm(screen, side, k, true);
    lemma_segments_firm(screen, side, ends.0, true);
    lemma_segments_firm(screen, side, ends.1, true);
    assert(segments[ends.0].lo <= segments[k].lo && segments[k].hi <= segments[ends.1].hi);
    assert(segments[ends.0].lo <= segments[c].lo && segments[c].hi <= segments[ends.1].hi);
    let lo = segments[ends.0].lo as int;
    let hi = segments[ends.1].hi as int;
    lemma_whole_place(along, segments[k].lo as int, segments[k].hi as int, lo, hi);
    lemma_first_holding(segments, along, 0);
    assert(segments[c].lo <= along < segments[c].hi);
    lemma_whole_place(along, segments[c].lo as int, segments[c].hi as int, lo, hi);
}

/// A side goes by its name, in lower case, and nothing else names one.
pub proof fn law_a_side_goes_by_its_name(name: Seq<char>)
    ensures
        side_named(name) == Some(Side::Top) <==> name == "top"@,
        side_named(name) == Some(Side::Bottom) <==> name == "bottom"@,
        side_named(name) == Some(Side::Left) <==> name == "left"@,
        side_named(name) == Some(Side::Right) <==> name == "right"@,
        side_named(name) is Some ==> name == "top"@ || name == "bottom"@ || name == "left"@ || name == "right"@,
{
    reveal_strlit("top");
    reveal_strlit("bottom");
    reveal_strlit("left");
    reveal_strlit("right");
    assert("top"@[0] == 't');
    assert("bottom"@[0] == 'b');
    assert("left"@[0] == 'l');
    assert("right"@[0] == 'r');
}

/// The points of a monitor are those from its first row and column on, up to
/// its bounds, which belong to it no more. A whole unit is 256 steps, and what
/// no coordinate can say counts as the furthest.
pub proof fn law_a_monitor_ends_before_its_bounds(m: Rect, x: int, y: int, units: int)
    ensures
        m.has(x, y) <==> m.min_x <= x && x < m.max_x && m.min_y <= y && y < m.max_y,
        -8_388_608 <= units <= 8_388_607 ==> in_steps(units) == 256 * units,
        units > 8_388_607 ==> in_steps(units) == 0x7FFF_FFFF,
        units < -8_388_608 ==> in_steps(units) == -0x8000_0000,
{
}

/// Without monitors there is nowhere to cross, to arrive or to rest, and
/// nothing holds a cursor.
pub proof fn law_without_monitors_there_is_nowhere_to_go(screen: ScreenModel, side: Side, x: int, y: int, fraction: Option<i64>)
    requires
        screen.monitors.len() == 0,
    ensures
        screen.crossing(side, x, y) is None,
        screen.landing_at(side, x, y) is None,
        screen.rest() is None,
        screen.anchor_on(side, fraction) == 0,
        screen.extent_along(side) is None,
        screen.kept_on(x, y) == (x, y),
{
    assert(collected(screen.monitors, side, 0) =~= Seq::<Segment>::empty());
}

/// A point on no monitor crosses where its nearest monitor would be left: at
/// or beyond the last row or column on that side, and at a place along it
/// that nothing else lies beyond.
pub proof fn law_a_lost_point_crosses_beyond_the_edge(screen: ScreenModel, side: Side, x: int, y: int, i: int)
    requires
        screen.monitor_of(x, y) == Some(i),
        0 <= i < screen.monitors.len(),
    ensures
        ({
            let m = screen.monitors[i];
            let at_or_beyond = match side {
                Side::Top => y <= m.min_y,
                Side::Bottom => y + 256 >= m.max_y,
                Side::Left => x <= m.min_x,
                Side::Right => x + 256 >= m.max_x,
            };
            let beside = match side {
                Side::Top => m.min_x <= x < m.max_x,
                Side::Bottom => m.min_x <= x < m.max_x,
                Side::Left => m.min_y <= y < m.max_y,
                Side::Right => m.min_y <= y < m.max_y,
            };
            let blocked = exists|j: int|
                0 <= j < screen.monitors.len() && j != i && covers_beyond(m, #[trigger] screen.monitors[j], side, x, y);
            screen.crossing(side, x, y) == if at_or_beyond && beside && !blocked {
                Some(if side == Side::Top || side == Side::Bottom { x } else { y })
            } else {
                None
            }
        }),
{
    let m = screen.monitors[i];
    let along = if side.is_horizontal() { x } else { y };
    assert forall|j: int| 0 <= j < screen.monitors.len() && j != i implies covers_beyond(
        m,
        #[trigger] screen.monitors[j],
        side,
        x,
        y,
    ) == (lies_beyond(m, screen.monitors[j], side) && screen.monitors[j].span_lo(side) <= along
        < screen.monitors[j].span_hi(side)) by {}
    let blocked = exists|j: int|
        0 <= j < screen.monitors.len() && j != i && covers_beyond(m, #[trigger] screen.monitors[j], side, x, y);
    if blocked {
        let j = choose|j: int|
            0 <= j < screen.monitors.len() && j != i && covers_beyond(m, #[trigger] screen.monitors[j], side, x, y);
        assert(lies_beyond(m, screen.monitors[j], side));
    } else if m.span_lo(side) <= along < m.span_hi(side) && !screen.outward(i, side, along) {
        let j = choose|j: int|
            0 <= j < screen.monitors.len() && j != i && #[trigger] lies_beyond(m, screen.monitors[j], side)
                && screen.monitors[j].span_lo(side) <= along < screen.monitors[j].span_hi(side);
        assert(covers_beyond(m, screen.monitors[j], side, x, y));
    }
}

proof fn lemma_first_nearest(monitors: Seq<Rect>, x: int, y: int, n: nat)
    requires
        1 <= n <= monitors.len(),
    ensures
        forall|i: int|
            0 <= i < nearest_of(monitors, x, y, n) ==> monitors[nearest_of(monitors, x, y, n)].distance_from(x, y) < (
            #[trigger] monitors[i]).distance_from(x, y),
    decreases n,
{
    if n > 1 {
        lemma_first_nearest(monitors, x, y, (n - 1) as nat);
        lemma_nearest_of(monitors, x, y, (n - 1) as nat);
    }
}

/// Of several monitors that are equally near to a lost point the first
/// counts: every place of an earlier one is further off than the place to
/// which the point goes.
pub proof fn law_of_equally_near_monitors_the_first_counts(screen: ScreenModel, x: int, y: int) -> (k: int)
    requires
        screen.monitors.len() > 0,
        forall|j: int| 0 <= j < screen.monitors.len() ==> !(#[trigger] screen.monitors[j]).has(x, y),
    ensures
        0 <= k < screen.monitors.len(),
        ({
            let m = screen.monitors[k];
            let (kx, ky) = screen.kept_on(x, y);
            &&& m.min_x <= kx && (kx <= m.max_x - 256 || kx == m.min_x)
            &&& m.min_y <= ky && (ky <= m.max_y - 256 || ky == m.min_y)
            &&& screen.monitor_of(x, y) == Some(k)
            &&& forall|i: int, px: int, py: int|
                0 <= i < k && (#[trigger] screen.monitors[i]).min_x <= px <= screen.monitors[i].max_x - 256
                    && screen.monitors[i].min_y <= py <= screen.monitors[i].max_y - 256 ==> (kx - x) * (kx - x) + (ky
                    - y) * (ky - y) < #[trigger] off(px, py, x, y)
        }),
{
    lemma_first_with(screen.monitors, x, y, 0);
    lemma_nearest_of(screen.monitors, x, y, screen.monitors.len());
    lemma_first_nearest(screen.monitors, x, y, screen.monitors.len());
    let k = nearest_of(screen.monitors, x, y, screen.monitors.len());
    let (kx, ky) = screen.kept_on(x, y);
    assert forall|i: int, px: int, py: int|
        0 <= i < k && (#[trigger] screen.monitors[i]).min_x <= px <= screen.monitors[i].max_x - 256
            && screen.monitors[i].min_y <= py <= screen.monitors[i].max_y - 256 implies (kx - x) * (kx - x) + (ky - y) * (
    ky - y) < #[trigger] off(px, py, x, y) by {
        lemma_nearest_place(screen.monitors[i], x, y, px, py);
        assert(screen.monitors[k].distance_from(x, y) < screen.monitors[i].distance_from(x, y));
    }
    k
}

/// The square of how far a place is from a point.
pub open spec fn off(px: int, py: int, x: int, y: int) -> int {
    (px - x) * (px - x) + (py - y) * (py - y)
}

proof fn lemma_last_widest(segments: Seq<Segment>, monitor: int, n: nat)
    requires
        n <= segments.len(),
    ensures
        widest(segments, monitor, n) matches Some(k) ==> forall|j: int|
            k < j < n && (#[trigger] segments[j]).monitor == monitor ==> segments[j].hi - segments[j].lo < segments[k].hi
                - segments[k].lo,
    decreases n,
{
    if n > 0 {
        lemma_last_widest(segments, monitor, (n - 1) as nat);
        lemma_widest(segments, monitor, (n - 1) as nat);
    }
}

/// Of several equally wide parts of the primary monitor the anchor is on the
/// last: every part that lies further along is narrower.
pub proof fn law_of_equally_wide_parts_the_last_counts(screen: ScreenModel, side: Side, k: int) -> (m: int)
    requires
        0 <= k < screen.segments(side).len(),
        screen.segments(side)[k].monitor == screen.primary,
    ensures
        0 <= m < screen.segments(side).len(),
        screen.segments(side)[m].monitor == screen.primary,
        screen.segments(side)[k].hi - screen.segments(side)[k].lo <= screen.segments(side)[m].hi
            - screen.segments(side)[m].lo,
        k > m ==> screen.segments(side)[k].hi - screen.segments(side)[k].lo < screen.segments(side)[m].hi
            - screen.segments(side)[m].lo,
        2 * screen.anchor_on(side, None) <= screen.segments(side)[m].lo + screen.segments(side)[m].hi,
        screen.segments(side)[m].lo + screen.segments(side)[m].hi <= 2 * screen.anchor_on(side, None) + 1,
{
    let segments = screen.segments(side);
    lemma_widest(segments, screen.primary, segments.len());
    lemma_last_widest(segments, screen.primary, segments.len());
    widest(segments, screen.primary, segments.len())->0
}

proof fn lemma_holding_first(segments: Seq<Segment>, at: int, from: int)
    requires
        0 <= from <= segments.len(),
    ensures
        first_holding(segments, at, from) matches Some(k) ==> forall|j: int|
            from <= j < k ==> !((#[trigger] segments[j]).lo <= at < segments[j].hi),
    decreases segments.len() - from,
{
    if from < segments.len() && !(segments[from].lo <= at < segments[from].hi) {
        lemma_holding_first(segments, at, from + 1);
    }
}

proof fn lemma_closest_first(segments: Seq<Segment>, at: int, n: nat)
    requires
        1 <= n <= segments.len(),
    ensures
        forall|j: int|
            0 <= j < closest(segments, at, n) ==> off_segment(segments[closest(segments, at, n)], at) < off_segment(
                #[trigger] segments[j],
                at,
            ),
        forall|j: int|
            0 <= j < n ==> off_segment(segments[closest(segments, at, n)], at) <= off_segment(
                #[trigger] segments[j],
                at,
            ),
    decreases n,
{
    if n > 1 {
        lemma_closest_first(segments, at, (n - 1) as nat);
        lemma_closest(segments, at, (n - 1) as nat);
    }
}

/// Focus arrives on the first of the parts of a side that hold the place it
/// heads for. Where none does it arrives on the nearest, and of several that
/// are the first: counted from the end of a part, or to its beginning.
pub proof fn law_focus_arrives_on_the_first_part_that_holds_its_place(screen: ScreenModel, side: Side, at: int) -> (k: int)
    requires
        screen.segments(side).len() > 0,
        screen.extent_along(side) matches Some((lo, hi)) && lo <= at <= hi - 256,
    ensures
        0 <= k < screen.segments(side).len(),
        screen.arrival(side, at).0 == screen.segments(side)[k],
        ({
            let segments = screen.segments(side);
            ||| segments[k].lo <= at < segments[k].hi && screen.arrival(side, at).1 <= at && (at <= segments[k].hi - 256
                ==> screen.arrival(side, at).1 == at) && forall|j: int|
                0 <= j < k ==> !((#[trigger] segments[j]).lo <= at < segments[j].hi)
            ||| (forall|j: int| 0 <= j < segments.len() ==> !((#[trigger] segments[j]).lo <= at < segments[j].hi))
                && forall|j: int|
                0 <= j < segments.len() ==> {
                    let here = if at < segments[k].lo { segments[k].lo - at } else { at - segments[k].hi };
                    let there = if at < (#[trigger] segments[j]).lo { segments[j].lo - at } else { at - segments[j].hi };
                    here <= there && (j < k ==> here < there)
                }
        }),
{
    let segments = screen.segments(side);
    lemma_first_holding(segments, at, 0);
    lemma_holding_first(segments, at, 0);
    lemma_closest_first(segments, at, segments.len());
    lemma_closest(segments, at, segments.len());
    segment_for(segments, at)
}

} // verus!
