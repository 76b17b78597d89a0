use vstd::prelude::*;
use crate::chunk::Chunk;
use crate::constants::LOAD_MARGIN;
use crate::grid::{cells_before, grown, lemma_grown_twice, stopped, ChunkGrid};
use crate::motion::{boundary_crossings, crossings, lemma_one_crossing_per_axis, Position};
use crate::window::{standard_window, Bounds, Direction, VisibleMap};

verus! {

/// The line of chunks that comes into reach with a boundary crossing in
/// `direction`, for the window `window` as it stands after the crossing: the
/// far side, in that direction, of the window grown by the load margin.
pub open spec fn far_edge(window: Bounds, direction: Direction) -> Bounds {
    let reach = window.expanded(LOAD_MARGIN as int);
    match direction {
        Direction::Up => Bounds { max_row: reach.min_row, ..reach },
        Direction::Down => Bounds { min_row: reach.max_row, ..reach },
        Direction::Left => Bounds { max_col: reach.min_col, ..reach },
        Direction::Right => Bounds { min_col: reach.max_col, ..reach },
    }
}

/// The coordinates made sure of while the boundary crossings `events` are
/// handled in order, for a window that stands at `window` before the first:
/// the far edge of each crossing, taken where the window stands after it.
pub open spec fn backfill(window: Bounds, events: Seq<Direction>) -> Set<(i32, i32)>
    decreases events.len(),
{
    if events.len() == 0 {
        Set::empty()
    } else {
        backfill(window, events.drop_last()).union(
            cells_before(far_edge(window.after(events), events.last()), None),
        )
    }
}

/// True when a window at `window` can take the boundary crossings `events`
/// one after the other, and after each of them the load margin around it
/// stays among the coordinates that a chunk can have.
pub open spec fn has_room_for(window: Bounds, events: Seq<Direction>) -> bool {
    forall|n: int|
        0 < n <= events.len() ==> (#[trigger] window.after(events.take(n))).expanded(
            LOAD_MARGIN as int,
        ).fits()
}

/// What is made sure of for the first crossings is made sure of for all.
pub proof fn lemma_backfill_grows(window: Bounds, events: Seq<Direction>, n: int)
    requires
        0 <= n <= events.len(),
    ensures
        backfill(window, events.take(n)).subset_of(backfill(window, events)),
    decreases events.len() - n,
{
    if n == events.len() {
        assert(events.take(n) =~= events);
    } else {
        lemma_backfill_grows(window, events, n + 1);
        assert(events.take(n + 1).drop_last() =~= events.take(n));
    }
}

/// Crossings on different axes, at most one on each, move no bound of the
/// window by more than one chunk.
pub proof fn lemma_bounded_shift(window: Bounds, events: Seq<Direction>)
    requires
        forall|i: int, j: int|
            0 <= i < j < events.len() ==> events[i].axis_of() != events[j].axis_of(),
    ensures
        events.len() <= 2,
        -1 <= window.after(events).min_col - window.min_col <= 1,
        -1 <= window.after(events).max_col - window.max_col <= 1,
        -1 <= window.after(events).min_row - window.min_row <= 1,
        -1 <= window.after(events).max_row - window.max_row <= 1,
{
    if events.len() >= 3 {
        assert(events[0].axis_of() != events[1].axis_of());
        assert(events[0].axis_of() != events[2].axis_of());
        assert(events[1].axis_of() != events[2].axis_of());
    }
    reveal_with_fuel(Bounds::after, 3);
    if events.len() == 2 {
        assert(events.drop_last().len() == 1);
        assert(events.drop_last().last() == events[0]);
        assert(events[0].axis_of() != events[1].axis_of());
    }
}

/// What holds of a tick that ended early: crossing number `n` of `events`
/// failed with `e` when the factory was asked for the coordinate `at` on its
/// far edge. The window stands where the crossings before it left it, and
/// the grid has grown by their backfill and by the part of the far edge that
/// comes before `at`.
pub open spec fn halted<P, E, F: Fn(i32, i32) -> Result<P, E>>(
    window: Bounds,
    cells: Map<(i32, i32), Chunk<P>>,
    window_after: Bounds,
    cells_after: Map<(i32, i32), Chunk<P>>,
    events: Seq<Direction>,
    n: int,
    at: (i32, i32),
    e: E,
    factory: F,
) -> bool {
    let edge = far_edge(window.after(events.take(n + 1)), events[n]);
    &&& 0 <= n < events.len()
    &&& window_after == window.after(events.take(n))
    &&& edge.contains(at.0 as int, at.1 as int)
    &&& !cells_after.contains_key(at)
    &&& call_ensures(factory, at, Err::<P, E>(e))
    &&& grown(
        cells,
        cells_after,
        backfill(window, events.take(n)).union(
            cells_before(edge, Some((at.0 as int, at.1 as int))),
        ),
        factory,
    )
}

/// The number of coordinates from `min` up to, but without, `max`.
pub open spec fn span(min: int, max: int) -> int {
    if min <= max {
        max - min
    } else {
        0
    }
}

/// True when every coordinate of `region` has a chunk in `cells`.
pub open spec fn covers<P>(cells: Map<(i32, i32), Chunk<P>>, region: Bounds) -> bool {
    forall|col: i32, row: i32|
        region.contains(col as int, row as int) ==> #[trigger] cells.contains_key((col, row))
}

/// A grid that has a chunk everywhere within the load margin of the window
/// still has one everywhere within the load margin of the window after a
/// boundary crossing, once the far edge of the crossing is made sure of.
pub proof fn lemma_crossing_keeps_cover<P, E, F: Fn(i32, i32) -> Result<P, E>>(
    cells: Map<(i32, i32), Chunk<P>>,
    cells_after: Map<(i32, i32), Chunk<P>>,
    window: Bounds,
    direction: Direction,
    factory: F,
)
    requires
        covers(cells, window.expanded(LOAD_MARGIN as int)),
        grown(
            cells,
            cells_after,
            cells_before(far_edge(window.moved(direction), direction), None),
            factory,
        ),
    ensures
        covers(cells_after, window.moved(direction).expanded(LOAD_MARGIN as int)),
{
    let edge = far_edge(window.moved(direction), direction);
    assert forall|col: i32, row: i32|
        window.moved(direction).expanded(LOAD_MARGIN as int).contains(
            col as int,
            row as int,
        ) implies #[trigger] cells_after.contains_key((col, row)) by {
        if window.expanded(LOAD_MARGIN as int).contains(col as int, row as int) {
            assert(cells.contains_key((col, row)));
        } else {
            assert(cells_before(edge, None).contains((col, row)));
        }
    }
}

/// Wherever the window goes, what lies within the load margin of it lay
/// within the load margin of where it started, or is part of the backfill
/// of the crossings that took it there.
pub proof fn lemma_backfill_reaches(window: Bounds, events: Seq<Direction>)
    ensures
        forall|col: i32, row: i32|
            window.after(events).expanded(LOAD_MARGIN as int).contains(col as int, row as int)
                ==> window.expanded(LOAD_MARGIN as int).contains(col as int, row as int)
                || #[trigger] backfill(window, events).contains((col, row)),
    decreases events.len(),
{
    if events.len() > 0 {
        let earlier = events.drop_last();
        let edge = far_edge(window.after(events), events.last());
        lemma_backfill_reaches(window, earlier);
        assert forall|col: i32, row: i32|
            window.after(events).expanded(LOAD_MARGIN as int).contains(
                col as int,
                row as int,
            ) implies window.expanded(LOAD_MARGIN as int).contains(col as int, row as int)
            || #[trigger] backfill(window, events).contains((col, row)) by {
            if window.after(earlier).expanded(LOAD_MARGIN as int).contains(
                col as int,
                row as int,
            ) {
                if !window.expanded(LOAD_MARGIN as int).contains(col as int, row as int) {
                    assert(backfill(window, earlier).contains((col, row)));
                }
            } else {
                assert(cells_before(edge, None).contains((col, row)));
            }
        }
    }
}

/// The same holds of any number of boundary crossings handled in a row:
/// however the window has wandered, no chunk is missing within the load
/// margin of where it stands.
pub proof fn lemma_cover_follows_window<P, E, F: Fn(i32, i32) -> Result<P, E>>(
    cells: Map<(i32, i32), Chunk<P>>,
    cells_after: Map<(i32, i32), Chunk<P>>,
    window: Bounds,
    events: Seq<Direction>,
    factory: F,
)
    requires
        covers(cells, window.expanded(LOAD_MARGIN as int)),
        grown(cells, cells_after, backfill(window, events), factory),
    ensures
        covers(cells_after, window.after(events).expanded(LOAD_MARGIN as int)),
{
    lemma_backfill_reaches(window, events);
    assert forall|col: i32, row: i32|
        window.after(events).expanded(LOAD_MARGIN as int).contains(
            col as int,
            row as int,
        ) implies #[trigger] cells_after.contains_key((col, row)) by {
        if window.expanded(LOAD_MARGIN as int).contains(col as int, row as int) {
            assert(cells.contains_key((col, row)));
        } else {
            assert(backfill(window, events).contains((col, row)));
        }
    }
}

/// The window and the load margin around it, as a range of coordinates.
fn reach_of(window: &VisibleMap) -> (reach: VisibleMap)
    requires
        window@.expanded(LOAD_MARGIN as int).fits(),
    ensures
        reach@ == window@.expanded(LOAD_MARGIN as int),
{
    VisibleMap {
        minx: window.minx - LOAD_MARGIN,
        miny: window.miny - LOAD_MARGIN,
        maxx: window.maxx + LOAD_MARGIN,
        maxy: window.maxy + LOAD_MARGIN,
    }
}

/// The far edge as a range of coordinates.
fn edge_of(window: &VisibleMap, direction: &Direction) -> (edge: VisibleMap)
    requires
        window@.expanded(LOAD_MARGIN as int).fits(),
    ensures
        edge@ == far_edge(window@, *direction),
{
    let reach = reach_of(window);
    match direction {
        Direction::Up => VisibleMap { maxy: reach.miny, ..reach },
        Direction::Down => VisibleMap { miny: reach.maxy, ..reach },
        Direction::Left => VisibleMap { maxx: reach.minx, ..reach },
        Direction::Right => VisibleMap { minx: reach.maxx, ..reach },
    }
}

/// The loaded chunks of the world and the window on them that is drawn.
///
/// Chunks are loaded ahead of the window and never unloaded: the grid only
/// grows while the viewpoint roams.
pub struct WorldMap<P> {
    pub chunks: ChunkGrid<P>,
    pub drawn: VisibleMap,
}

impl<P> WorldMap<P> {
    pub open spec fn wf(&self) -> bool {
        self.chunks.wf() && self.drawn.wf()
    }

    /// The drawn window and the load margin around it.
    pub open spec fn loaded_region(&self) -> Bounds {
        self.drawn@.expanded(LOAD_MARGIN as int)
    }

    /// True when no chunk is missing within the load margin of the window.
    pub open spec fn covered(&self) -> bool {
        covers(self.chunks@, self.loaded_region())
    }

    /// A world around the given window, with every chunk within the load
    /// margin of it built by the factory.
    pub fn with_window<E, F: Fn(i32, i32) -> Result<P, E>>(drawn: VisibleMap, factory: &F) -> (r:
        Result<WorldMap<P>, E>)
        requires
            drawn.wf(),
            drawn@.expanded(LOAD_MARGIN as int).fits(),
            forall|col: i32, row: i32|
                drawn@.expanded(LOAD_MARGIN as int).contains(col as int, row as int)
                    ==> call_requires(*factory, (col, row)),
        ensures
            match r {
                Ok(world) => {
                    &&& world.drawn == drawn
                    &&& world.wf()
                    &&& world.covered()
                    &&& grown(
                        Map::<(i32, i32), Chunk<P>>::empty(),
                        world.chunks@,
                        cells_before(world.loaded_region(), None),
                        *factory,
                    )
                },
                Err(e) => exists|at: (i32, i32), partial: Map<(i32, i32), Chunk<P>>|
                    stopped(
                        Map::<(i32, i32), Chunk<P>>::empty(),
                        partial,
                        drawn@.expanded(LOAD_MARGIN as int),
                        at,
                        e,
                        *factory,
                    ),
            },
    {
        let region = reach_of(&drawn);
        let mut chunks: ChunkGrid<P> = ChunkGrid::new();
        match chunks.fill(&region, factory) {
            Ok(()) => {
                let world = WorldMap { chunks, drawn };
                assert(world.covered()) by {
                    assert forall|col: i32, row: i32|
                        world.loaded_region().contains(
                            col as int,
                            row as int,
                        ) implies #[trigger] world.chunks@.contains_key((col, row)) by {
                        assert(cells_before(region@, None).contains((col, row)));
                    }
                }
                Ok(world)
            },
            Err(e) => {
                let failure: Result<WorldMap<P>, E> = Err(e);
                proof {
                    let at = choose|at: (i32, i32)|
                        stopped(
                            Map::<(i32, i32), Chunk<P>>::empty(),
                            chunks@,
                            region@,
                            at,
                            e,
                            *factory,
                        );
                    assert(failure matches Err(cause) ==> stopped(
                        Map::<(i32, i32), Chunk<P>>::empty(),
                        chunks@,
                        region@,
                        at,
                        cause,
                        *factory,
                    ));
                }
                failure
            },
        }
    }

    /// The world at the start: the window of the standard viewport, and
    /// every chunk within the load margin of it.
    pub fn new<E, F: Fn(i32, i32) -> Result<P, E>>(factory: &F) -> (r: Result<WorldMap<P>, E>)
        requires
            forall|col: i32, row: i32|
                standard_window().expanded(LOAD_MARGIN as int).contains(col as int, row as int)
                    ==> call_requires(*factory, (col, row)),
        ensures
            match r {
                Ok(world) => {
                    &&& world.drawn@ == standard_window()
                    &&& world.wf()
                    &&& world.covered()
                    &&& grown(
                        Map::<(i32, i32), Chunk<P>>::empty(),
                        world.chunks@,
                        cells_before(world.loaded_region(), None),
                        *factory,
                    )
                },
                Err(e) => exists|at: (i32, i32), partial: Map<(i32, i32), Chunk<P>>|
                    stopped(
                        Map::<(i32, i32), Chunk<P>>::empty(),
                        partial,
                        standard_window().expanded(LOAD_MARGIN as int),
                        at,
                        e,
                        *factory,
                    ),
            },
    {
        WorldMap::with_window(VisibleMap::new(), factory)
    }

    /// Looks a coordinate up. Within the load margin of the window of a
    /// covered world the chunk is there.
    pub fn get(&self, col: i32, row: i32) -> (found: Option<&Chunk<P>>)
        ensures
            found is Some <==> self.chunks@.contains_key((col, row)),
            found matches Some(chunk) ==> *chunk == self.chunks@[(col, row)],
            self.covered() && self.loaded_region().contains(col as int, row as int)
                ==> found is Some,
    {
        self.chunks.get(col, row)
    }

    /// True when the window can cross a boundary in `direction` and the
    /// load margin around it stays among the coordinates a chunk can have.
    pub fn can_move(&self, direction: &Direction) -> (room: bool)
        ensures
            room == self.drawn@.moved(*direction).expanded(LOAD_MARGIN as int).fits(),
    {
        self.drawn.has_room(direction, LOAD_MARGIN)
    }

    /// Handles one boundary crossing: the window moves one chunk in
    /// `direction`, and the line of chunks that comes into reach on the far
    /// side is made sure of.
    ///
    /// The window moves only if the whole line could be loaded. When the
    /// factory fails the window stays where it was, the chunks built before
    /// the failure stay loaded, and the failure is returned. Nothing is
    /// tried again by itself; a later crossing asks the factory anew for
    /// what is still missing on its far edge.
    pub fn move_map<E, F: Fn(i32, i32) -> Result<P, E>>(
        &mut self,
        direction: &Direction,
        factory: &F,
    ) -> (r: Result<(), E>)
        requires
            old(self).wf(),
            old(self).drawn@.moved(*direction).expanded(LOAD_MARGIN as int).fits(),
            forall|col: i32, row: i32|
                far_edge(old(self).drawn@.moved(*direction), *direction).contains(
                    col as int,
                    row as int,
                ) && !old(self).chunks@.contains_key((col, row)) ==> call_requires(
                    *factory,
                    (col, row),
                ),
        ensures
            final(self).wf(),
            old(self).covered() ==> final(self).covered(),
            match r {
                Ok(()) => {
                    &&& final(self).drawn@ == old(self).drawn@.moved(*direction)
                    &&& grown(
                        old(self).chunks@,
                        final(self).chunks@,
                        cells_before(far_edge(final(self).drawn@, *direction), None),
                        *factory,
                    )
                },
                Err(e) => {
                    &&& final(self).drawn == old(self).drawn
                    &&& exists|at: (i32, i32)|
                        stopped(
                            old(self).chunks@,
                            final(self).chunks@,
                            far_edge(old(self).drawn@.moved(*direction), *direction),
                            at,
                            e,
                            *factory,
                        )
                },
            },
    {
        let mut target = self.drawn;
        target.shift(direction.axis(), direction.sign());
        let edge = edge_of(&target, direction);
        match self.chunks.fill(&edge, factory) {
            Ok(()) => {
                self.drawn = target;
                proof {
                    if old(self).covered() {
                        lemma_crossing_keeps_cover(
                            old(self).chunks@,
                            self.chunks@,
                            old(self).drawn@,
                            *direction,
                            *factory,
                        );
                    }
                }
                Ok(())
            },
            Err(e) => {
                proof {
                    if old(self).covered() {
                        assert forall|col: i32, row: i32|
                            self.loaded_region().contains(
                                col as int,
                                row as int,
                            ) implies #[trigger] self.chunks@.contains_key((col, row)) by {
                            assert(old(self).chunks@.contains_key((col, row)));
                        }
                    }
                }
                Err(e)
            },
        }
    }

    /// True when the moves that `follow` makes for this tick have room; see
    /// `has_room_for`.
    pub fn can_follow(&self, from: &Position, to: &Position) -> (room: bool)
        requires
            self.wf(),
        ensures
            room == has_room_for(self.drawn@, crossings(*from, *to)),
    {
        let events = boundary_crossings(from, to);
        let mut window = self.drawn;
        let mut i: usize = 0;
        while i < events.len()
            invariant
                i <= events.len(),
                events@ == crossings(*from, *to),
                window.wf(),
                window@ == self.drawn@.after(events@.take(i as int)),
                forall|n: int|
                    0 < n <= i ==> (#[trigger] self.drawn@.after(events@.take(n))).expanded(
                        LOAD_MARGIN as int,
                    ).fits(),
            decreases events.len() - i,
        {
            let direction = events[i];
            proof {
                let next = events@.take(i + 1);
                assert(next.drop_last() =~= events@.take(i as int));
                assert(next.last() == direction);
                assert(self.drawn@.after(next) == window@.moved(direction));
            }
            if !window.has_room(&direction, LOAD_MARGIN) {
                return false;
            }
            window.shift(direction.axis(), direction.sign());
            i = i + 1;
        }
        true
    }

    /// Follows the viewpoint through one tick, in which it went from `from`
    /// to `to`: each boundary that the move crossed is handled as `move_map`
    /// does, the vertical crossing before the horizontal one.
    ///
    /// No axis is moved by more than one chunk, however far the viewpoint
    /// went. The first failure of the factory ends the tick: the crossings
    /// handled before it stay in effect, and the failure is returned.
    pub fn follow<E, F: Fn(i32, i32) -> Result<P, E>>(
        &mut self,
        from: &Position,
        to: &Position,
        factory: &F,
    ) -> (r: Result<(), E>)
        requires
            old(self).wf(),
            has_room_for(old(self).drawn@, crossings(*from, *to)),
            forall|col: i32, row: i32|
                backfill(old(self).drawn@, crossings(*from, *to)).contains((col, row)) && !old(
                    self,
                ).chunks@.contains_key((col, row)) ==> call_requires(*factory, (col, row)),
        ensures
            final(self).wf(),
            old(self).covered() ==> final(self).covered(),
            -1 <= final(self).drawn.minx - old(self).drawn.minx <= 1,
            -1 <= final(self).drawn.maxx - old(self).drawn.maxx <= 1,
            -1 <= final(self).drawn.miny - old(self).drawn.miny <= 1,
            -1 <= final(self).drawn.maxy - old(self).drawn.maxy <= 1,
            match r {
                Ok(()) => {
                    &&& final(self).drawn@ == old(self).drawn@.after(crossings(*from, *to))
                    &&& grown(
                        old(self).chunks@,
                        final(self).chunks@,
                        backfill(old(self).drawn@, crossings(*from, *to)),
                        *factory,
                    )
                },
                Err(e) => exists|n: int, at: (i32, i32)|
                    halted(
                        old(self).drawn@,
                        old(self).chunks@,
                        final(self).drawn@,
                        final(self).chunks@,
                        crossings(*from, *to),
                        n,
                        at,
                        e,
                        *factory,
                    ),
            },
    {
        let events = boundary_crossings(from, to);
        let ghost start = self.drawn@;
        let ghost before = self.chunks@;
        let mut i: usize = 0;
        while i < events.len()
            invariant
                i <= events.len(),
                events@ == crossings(*from, *to),
                start == old(self).drawn@,
                before == old(self).chunks@,
                self.wf(),
                old(self).covered() ==> self.covered(),
                has_room_for(start, events@),
                forall|col: i32, row: i32|
                    backfill(start, events@).contains((col, row)) && !before.contains_key(
                        (col, row),
                    ) ==> call_requires(*factory, (col, row)),
                self.drawn@ == start.after(events@.take(i as int)),
                grown(before, self.chunks@, backfill(start, events@.take(i as int)), *factory),
            decreases events.len() - i,
        {
            let direction = events[i];
            let ghost current = self.chunks@;
            let ghost done = events@.take(i as int);
            let ghost next = events@.take(i + 1);
            proof {
                assert(next.drop_last() =~= done);
                assert(next.last() == direction);
                assert(start.after(next) == start.after(done).moved(direction));
                lemma_backfill_grows(start, events@, i + 1);
                assert forall|col: i32, row: i32|
                    far_edge(self.drawn@.moved(direction), direction).contains(
                        col as int,
                        row as int,
                    ) && !current.contains_key((col, row)) implies call_requires(
                    *factory,
                    (col, row),
                ) by {
                    assert(cells_before(far_edge(start.after(next), direction), None).contains(
                        (col, row),
                    ));
                    assert(backfill(start, next).contains((col, row)));
                    assert(backfill(start, events@).contains((col, row)));
                    assert(!before.contains_key((col, row)));
                }
            }
            match self.move_map(&direction, factory) {
                Ok(()) => {},
                Err(e) => {
                    proof {
                        lemma_one_crossing_per_axis(*from, *to);
                        assert forall|a: int, b: int| 0 <= a < b < done.len() implies done[a].axis_of()
                            != done[b].axis_of() by {
                            assert(done[a] == events@[a] && done[b] == events@[b]);
                        }
                        lemma_bounded_shift(start, done);
                        let edge = far_edge(start.after(next), direction);
                        let at = choose|at: (i32, i32)|
                            stopped(current, self.chunks@, edge, at, e, *factory);
                        lemma_grown_twice(
                            before,
                            current,
                            self.chunks@,
                            backfill(start, done),
                            cells_before(edge, Some((at.0 as int, at.1 as int))),
                            *factory,
                        );
                        assert(halted(
                            start,
                            before,
                            self.drawn@,
                            self.chunks@,
                            events@,
                            i as int,
                            at,
                            e,
                            *factory,
                        ));
                    }
                    return Err(e);
                },
            }
            proof {
                lemma_grown_twice(
                    before,
                    current,
                    self.chunks@,
                    backfill(start, done),
                    cells_before(far_edge(start.after(next), direction), None),
                    *factory,
                );
            }
            i = i + 1;
        }
        proof {
            assert(events@.take(i as int) =~= events@);
            lemma_one_crossing_per_axis(*from, *to);
            lemma_bounded_shift(start, events@);
        }
        Ok(())
    }

    /// The render query: what there is to draw at each coordinate of the
    /// window, one list for each column from `minx` up to, but without,
    /// `maxx`, and in each list one entry for each row from `miny` up to,
    /// but without, `maxy`. A chunk that is not loaded shows as `None` and is
    /// to be skipped.
    pub fn visible(&self) -> (cells: Vec<Vec<Option<&Chunk<P>>>>)
        ensures
            cells.len() == span(self.drawn.minx as int, self.drawn.maxx as int),
            forall|c: int|
                0 <= c < cells.len() ==> (#[trigger] cells[c]).len() == span(
                    self.drawn.miny as int,
                    self.drawn.maxy as int,
                ),
            forall|c: int, r: int|
                0 <= c < cells.len() && 0 <= r < cells[c].len() ==> {
                    let at = ((self.drawn.minx + c) as i32, (self.drawn.miny + r) as i32);
                    match #[trigger] cells[c][r] {
                        Some(chunk) => self.chunks@.contains_key(at) && *chunk == self.chunks@[at],
                        None => !self.chunks@.contains_key(at),
                    }
                },
    {
        let mut cells: Vec<Vec<Option<&Chunk<P>>>> = Vec::new();
        let mut col: i32 = self.drawn.minx;
        while col < self.drawn.maxx
            invariant
                self.drawn.minx <= col,
                col <= self.drawn.maxx || col == self.drawn.minx,
                cells.len() == span(self.drawn.minx as int, col as int),
                forall|c: int|
                    0 <= c < cells.len() ==> (#[trigger] cells[c]).len() == span(
                        self.drawn.miny as int,
                        self.drawn.maxy as int,
                    ),
                forall|c: int, r: int|
                    0 <= c < cells.len() && 0 <= r < cells[c].len() ==> {
                        let at = ((self.drawn.minx + c) as i32, (self.drawn.miny + r) as i32);
                        match #[trigger] cells[c][r] {
                            Some(chunk) => self.chunks@.contains_key(at) && *chunk
                                == self.chunks@[at],
                            None => !self.chunks@.contains_key(at),
                        }
                    },
            decreases self.drawn.maxx - col,
        {
            let mut column: Vec<Option<&Chunk<P>>> = Vec::new();
            let mut row: i32 = self.drawn.miny;
            while row < self.drawn.maxy
                invariant
                    self.drawn.minx <= col < self.drawn.maxx,
                    self.drawn.miny <= row,
                    row <= self.drawn.maxy || row == self.drawn.miny,
                    column.len() == span(self.drawn.miny as int, row as int),
                    forall|r: int|
                        0 <= r < column.len() ==> {
                            let at = (col, (self.drawn.miny + r) as i32);
                            match #[trigger] column[r] {
                                Some(chunk) => self.chunks@.contains_key(at) && *chunk
                                    == self.chunks@[at],
                                None => !self.chunks@.contains_key(at),
                            }
                        },
                decreases self.drawn.maxy - row,
            {
                column.push(self.chunks.get(col, row));
                row = row + 1;
            }
            let ghost earlier = cells@;
            cells.push(column);
            proof {
                assert forall|c: int| 0 <= c < cells.len() implies (#[trigger] cells[c]).len()
                    == span(self.drawn.miny as int, self.drawn.maxy as int) by {
                    if c < earlier.len() {
                        assert(cells[c] == earlier[c]);
                    }
                }
                assert forall|c: int, r: int| 0 <= c < cells.len() && 0 <= r < cells[c].len() implies {
                    let at = ((self.drawn.minx + c) as i32, (self.drawn.miny + r) as i32);
                    match #[trigger] cells[c][r] {
                        Some(chunk) => self.chunks@.contains_key(at) && *chunk == self.chunks@[at],
                        None => !self.chunks@.contains_key(at),
                    }
                } by {
                    if c < earlier.len() {
                        assert(cells[c] == earlier[c]);
                    }
                }
            }
            col = col + 1;
        }
        cells
    }
}

} // verus!
