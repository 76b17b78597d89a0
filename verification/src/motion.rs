use vstd::prelude::*;
use crate::constants::CHUNK_SIZE;
use crate::window::{Axis, Direction};

verus! {

/// A point of the world, in whole world units.
#[derive(Debug, Clone, Copy, PartialEq, Eq, Structural)]
pub struct Position {
    pub x: i64,
    pub y: i64,
}

/// The chunk coordinate under the world coordinate `pos` on one axis:
/// `pos / CHUNK_SIZE`, rounded down.
pub open spec fn chunk_coordinate(pos: int) -> int {
    pos / (CHUNK_SIZE as int)
}

/// The boundary crossing on `axis` of a move from world coordinate `from`
/// to `to`: none while the chunk coordinate stays, else one crossing towards
/// the new chunk, however many chunks lie between.
pub open spec fn crossing_on(axis: Axis, from: int, to: int) -> Option<Direction> {
    if chunk_coordinate(from) < chunk_coordinate(to) {
        Some(Direction::along(axis, 1))
    } else if chunk_coordinate(from) > chunk_coordinate(to) {
        Some(Direction::along(axis, -1))
    } else {
        None
    }
}

/// The crossing, if any, as a sequence of at most one event.
pub open spec fn as_events(crossing: Option<Direction>) -> Seq<Direction> {
    match crossing {
        Some(direction) => seq![direction],
        None => Seq::empty(),
    }
}

/// The boundary crossings of a move between two points: the vertical one
/// first, then the horizontal one.
pub open spec fn crossings(from: Position, to: Position) -> Seq<Direction> {
    as_events(crossing_on(Axis::Vertical, from.y as int, to.y as int)) + as_events(
        crossing_on(Axis::Horizontal, from.x as int, to.x as int),
    )
}

/// A move crosses at most one boundary on each axis, however far it goes.
pub proof fn lemma_one_crossing_per_axis(from: Position, to: Position)
    ensures
        crossings(from, to).len() <= 2,
        forall|i: int, j: int|
            0 <= i < j < crossings(from, to).len() ==> crossings(from, to)[i].axis_of()
                != crossings(from, to)[j].axis_of(),
{
}

pub fn chunk_index(pos: i64) -> (index: i64)
    ensures
        index == chunk_coordinate(pos as int),
{
    let size: i64 = CHUNK_SIZE as i64;
    if pos >= 0 {
        pos / size
    } else {
        (pos + 1) / size - 1
    }
}

/// The boundary crossing on one axis; see `crossing_on`.
pub fn axis_crossing(axis: Axis, from: i64, to: i64) -> (crossing: Option<Direction>)
    ensures
        crossing == crossing_on(axis, from as int, to as int),
{
    let before: i64 = chunk_index(from);
    let after: i64 = chunk_index(to);
    if before < after {
        match axis {
            Axis::Horizontal => Some(Direction::Right),
            Axis::Vertical => Some(Direction::Down),
        }
    } else if before > after {
        match axis {
            Axis::Horizontal => Some(Direction::Left),
            Axis::Vertical => Some(Direction::Up),
        }
    } else {
        None
    }
}

/// The boundary crossings of one tick's move, in the order in which they are
/// to be handled.
pub fn boundary_crossings(from: &Position, to: &Position) -> (events: Vec<Direction>)
    ensures
        events@ == crossings(*from, *to),
        events.len() <= 2,
        forall|i: int, j: int|
            0 <= i < j < events.len() ==> events[i].axis_of() != events[j].axis_of(),
{
    let mut events: Vec<Direction> = Vec::new();
    if let Some(direction) = axis_crossing(Axis::Vertical, from.y, to.y) {
        events.push(direction);
    }
    if let Some(direction) = axis_crossing(Axis::Horizontal, from.x, to.x) {
        events.push(direction);
    }
    proof {
        assert(events@ =~= crossings(*from, *to));
        lemma_one_crossing_per_axis(*from, *to);
    }
    events
}

} // verus!
