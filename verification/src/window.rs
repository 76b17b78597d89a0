use vstd::prelude::*;
use crate::constants::{CHUNK_SIZE, DRAW_MARGIN, WINDOW_HEIGHT, WINDOW_WIDTH};

verus! {

/// One of the two axes of the grid. Columns run along the horizontal axis,
/// rows along the vertical one.
#[derive(Debug, Clone, Copy, PartialEq, Eq, Structural)]
pub enum Axis {
    Horizontal,
    Vertical,
}

/// The way the viewpoint went when it crossed a chunk boundary. `Up` and
/// `Left` lead to smaller rows and columns, `Down` and `Right` to larger ones.
#[derive(Debug, Clone, Copy, PartialEq, Eq, Structural)]
pub enum Direction {
    Up,
    Down,
    Left,
    Right,
}

impl Direction {
    /// The axis along which the direction moves.
    pub open spec fn axis_of(self) -> Axis {
        match self {
            Direction::Up | Direction::Down => Axis::Vertical,
            Direction::Left | Direction::Right => Axis::Horizontal,
        }
    }

    /// The step along that axis: `-1` or `1`.
    pub open spec fn sign_of(self) -> int {
        match self {
            Direction::Up | Direction::Left => -1,
            Direction::Down | Direction::Right => 1,
        }
    }

    /// The direction that steps by `delta` along `axis`, for a step of one.
    pub open spec fn along(axis: Axis, delta: int) -> Direction {
        match axis {
            Axis::Horizontal => if delta < 0 {
                Direction::Left
            } else {
                Direction::Right
            },
            Axis::Vertical => if delta < 0 {
                Direction::Up
            } else {
                Direction::Down
            },
        }
    }

    pub fn axis(&self) -> (axis: Axis)
        ensures
            axis == self.axis_of(),
    {
        match self {
            Direction::Up | Direction::Down => Axis::Vertical,
            Direction::Left | Direction::Right => Axis::Horizontal,
        }
    }

    pub fn sign(&self) -> (delta: i32)
        ensures
            delta == self.sign_of(),
    {
        match self {
            Direction::Up | Direction::Left => -1,
            Direction::Down | Direction::Right => 1,
        }
    }
}

/// A rectangle of chunk coordinates over the unbounded integer plane: the
/// mathematical value of a `VisibleMap`.
pub struct Bounds {
    pub min_col: int,
    pub max_col: int,
    pub min_row: int,
    pub max_row: int,
}

impl Bounds {
    pub open spec fn wf(self) -> bool {
        self.min_col <= self.max_col && self.min_row <= self.max_row
    }

    /// The rectangle that reaches `cols` columns and `rows` rows to either
    /// side of the origin.
    pub open spec fn centered(cols: int, rows: int) -> Bounds {
        Bounds { min_col: -cols, max_col: cols, min_row: -rows, max_row: rows }
    }

    /// Both bounds on `axis` moved by `delta`; the other axis untouched.
    pub open spec fn shifted(self, axis: Axis, delta: int) -> Bounds {
        match axis {
            Axis::Horizontal => Bounds {
                min_col: self.min_col + delta,
                max_col: self.max_col + delta,
                ..self
            },
            Axis::Vertical => Bounds {
                min_row: self.min_row + delta,
                max_row: self.max_row + delta,
                ..self
            },
        }
    }

    /// The rectangle after one boundary crossing in `direction`.
    pub open spec fn moved(self, direction: Direction) -> Bounds {
        self.shifted(direction.axis_of(), direction.sign_of())
    }

    /// The rectangle after the boundary crossings `events`, taken in order.
    pub open spec fn after(self, events: Seq<Direction>) -> Bounds
        decreases events.len(),
    {
        if events.len() == 0 {
            self
        } else {
            self.after(events.drop_last()).moved(events.last())
        }
    }

    /// The rectangle grown by `margin` on all four sides.
    pub open spec fn expanded(self, margin: int) -> Bounds {
        Bounds {
            min_col: self.min_col - margin,
            max_col: self.max_col + margin,
            min_row: self.min_row - margin,
            max_row: self.max_row + margin,
        }
    }

    /// True for the coordinates inside the rectangle, its bounds included.
    pub open spec fn contains(self, col: int, row: int) -> bool {
        self.min_col <= col <= self.max_col && self.min_row <= row <= self.max_row
    }

    /// True when all four bounds are coordinates that a chunk can have.
    pub open spec fn fits(self) -> bool {
        &&& i32::MIN <= self.min_col <= i32::MAX
        &&& i32::MIN <= self.max_col <= i32::MAX
        &&& i32::MIN <= self.min_row <= i32::MAX
        &&& i32::MIN <= self.max_row <= i32::MAX
    }
}

/// Any number of boundary crossings in one direction move the bounds on that
/// direction's axis by the number of crossings times the direction's step,
/// and leave the bounds on the other axis where they were.
pub proof fn lemma_repeated_crossings(start: Bounds, events: Seq<Direction>, direction: Direction)
    requires
        forall|i: int| 0 <= i < events.len() ==> events[i] == direction,
    ensures
        start.after(events) == start.shifted(
            direction.axis_of(),
            events.len() * direction.sign_of(),
        ),
        direction.axis_of() == Axis::Horizontal ==> {
            &&& start.after(events).min_row == start.min_row
            &&& start.after(events).max_row == start.max_row
        },
        direction.axis_of() == Axis::Vertical ==> {
            &&& start.after(events).min_col == start.min_col
            &&& start.after(events).max_col == start.max_col
        },
    decreases events.len(),
{
    let step = direction.sign_of();
    if events.len() == 0 {
        assert(events.len() * step == 0);
    } else {
        let earlier = events.drop_last();
        lemma_repeated_crossings(start, earlier, direction);
        assert(events.last() == direction);
        assert(earlier.len() * step + step == events.len() * step) by (nonlinear_arith)
            requires
                earlier.len() + 1 == events.len(),
        ;
    }
}

/// Boundary crossings keep the size of the rectangle.
pub proof fn lemma_crossings_keep_size(start: Bounds, events: Seq<Direction>)
    ensures
        start.after(events).max_col - start.after(events).min_col == start.max_col
            - start.min_col,
        start.after(events).max_row - start.after(events).min_row == start.max_row
            - start.min_row,
        start.wf() ==> start.after(events).wf(),
    decreases events.len(),
{
    if events.len() > 0 {
        lemma_crossings_keep_size(start, events.drop_last());
    }
}

/// How far the drawn window reaches to either side of the origin along an
/// axis on which the viewport measures `pixel_magnitude` world units: half
/// the viewport in whole chunks, and the draw margin.
pub open spec fn initial_draw_magnitude(pixel_magnitude: int) -> int {
    pixel_magnitude / (CHUNK_SIZE as int) / 2 + DRAW_MARGIN
}

/// Computes `initial_draw_magnitude`: the exact value of
/// `pixel_magnitude / CHUNK_SIZE / 2 + DRAW_MARGIN` with its fraction cut off.
pub fn get_initial_draw_magnitude(pixel_magnitude: u32) -> (magnitude: i32)
    ensures
        magnitude == initial_draw_magnitude(pixel_magnitude as int),
        2 * CHUNK_SIZE * (magnitude - DRAW_MARGIN) <= pixel_magnitude < 2 * CHUNK_SIZE * (magnitude
            - DRAW_MARGIN + 1),
{
    let size: u32 = CHUNK_SIZE as u32;
    assert(size == 64);
    let chunks: u32 = pixel_magnitude / size;
    assert(chunks <= 0x0400_0000);
    let half: u32 = chunks / 2;
    assert(128 * half <= pixel_magnitude < 128 * (half + 1));
    assert(CHUNK_SIZE == 64 && DRAW_MARGIN == 2);
    (half as i32) + DRAW_MARGIN
}

/// The window of the standard viewport: twelve columns and seven rows to
/// either side of the origin.
pub open spec fn standard_window() -> Bounds {
    Bounds::centered(
        initial_draw_magnitude(WINDOW_WIDTH as int),
        initial_draw_magnitude(WINDOW_HEIGHT as int),
    )
}

/// The range of chunk coordinates that is on screen.
#[derive(Debug, Clone, Copy, PartialEq, Eq, Structural)]
pub struct VisibleMap {
    pub minx: i32,
    pub miny: i32,
    pub maxx: i32,
    pub maxy: i32,
}

impl VisibleMap {
    pub open spec fn view(&self) -> Bounds {
        Bounds {
            min_col: self.minx as int,
            max_col: self.maxx as int,
            min_row: self.miny as int,
            max_row: self.maxy as int,
        }
    }

    pub open spec fn wf(&self) -> bool {
        self@.wf()
    }

    /// The window of a viewport of the given size, centred on chunk `(0, 0)`.
    pub fn initialize(viewport_width: u32, viewport_height: u32) -> (window: VisibleMap)
        ensures
            window@ == Bounds::centered(
                initial_draw_magnitude(viewport_width as int),
                initial_draw_magnitude(viewport_height as int),
            ),
            window.wf(),
    {
        let cols: i32 = get_initial_draw_magnitude(viewport_width);
        let rows: i32 = get_initial_draw_magnitude(viewport_height);
        VisibleMap { minx: 0 - cols, miny: 0 - rows, maxx: cols, maxy: rows }
    }

    /// The window of the standard viewport.
    pub fn new() -> (window: VisibleMap)
        ensures
            window@ == standard_window(),
            window@ == Bounds::centered(12, 7),
            window.wf(),
    {
        VisibleMap::initialize(WINDOW_WIDTH, WINDOW_HEIGHT)
    }

    /// True when the window can move one chunk in `direction` with a margin
    /// of `margin` chunks around it and stay among the coordinates that a
    /// chunk can have.
    pub fn has_room(&self, direction: &Direction, margin: i32) -> (room: bool)
        ensures
            room == self@.moved(*direction).expanded(margin as int).fits(),
    {
        let reach: i64 = margin as i64;
        let (dx, dy): (i64, i64) = match direction.axis() {
            Axis::Horizontal => (direction.sign() as i64, 0),
            Axis::Vertical => (0, direction.sign() as i64),
        };
        let lo: i64 = i32::MIN as i64;
        let hi: i64 = i32::MAX as i64;
        lo <= self.minx as i64 + dx - reach && self.minx as i64 + dx - reach <= hi
            && lo <= self.maxx as i64 + dx + reach && self.maxx as i64 + dx + reach <= hi
            && lo <= self.miny as i64 + dy - reach && self.miny as i64 + dy - reach <= hi
            && lo <= self.maxy as i64 + dy + reach && self.maxy as i64 + dy + reach <= hi
    }

    /// Moves both bounds on `axis` by `delta`, which is one step either way.
    pub fn shift(&mut self, axis: Axis, delta: i32)
        requires
            delta == 1 || delta == -1,
            old(self)@.shifted(axis, delta as int).fits(),
        ensures
            final(self)@ == old(self)@.shifted(axis, delta as int),
            final(self)@ == old(self)@.moved(Direction::along(axis, delta as int)),
            old(self).wf() ==> final(self).wf(),
    {
        match axis {
            Axis::Horizontal => {
                self.minx = self.minx + delta;
                self.maxx = self.maxx + delta;
            },
            Axis::Vertical => {
                self.miny = self.miny + delta;
                self.maxy = self.maxy + delta;
            },
        }
    }
}

} // verus!
