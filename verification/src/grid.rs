use vstd::prelude::*;
use std::collections::HashMap;
use crate::chunk::Chunk;
use crate::window::{Bounds, VisibleMap};

verus! {

/// A sparse grid of chunks, addressed by column and then by row.
///
/// A chunk is built once, when its coordinate is first asked for, and from
/// then on neither changed nor removed.
pub struct ChunkGrid<P> {
    pub columns: HashMap<i32, HashMap<i32, Chunk<P>>>,
}

/// The grid that `ensure` leaves behind when the coordinate `(col, row)` is
/// asked for and `fresh` is the chunk that would be built for it: a chunk
/// that is already there stays, and `fresh` is stored only where none was.
pub open spec fn ensured<P>(
    cells: Map<(i32, i32), Chunk<P>>,
    col: i32,
    row: i32,
    fresh: Chunk<P>,
) -> Map<(i32, i32), Chunk<P>> {
    if cells.contains_key((col, row)) {
        cells
    } else {
        cells.insert((col, row), fresh)
    }
}

/// Asking twice for one coordinate changes nothing the second time: the grid
/// and the chunk found at the coordinate are those of the first request,
/// whatever chunk the second request would have built.
pub proof fn lemma_ensure_idempotent<P>(
    cells: Map<(i32, i32), Chunk<P>>,
    col: i32,
    row: i32,
    first: Chunk<P>,
    second: Chunk<P>,
)
    ensures
        ensured(ensured(cells, col, row, first), col, row, second) == ensured(
            cells,
            col,
            row,
            first,
        ),
        ensured(ensured(cells, col, row, first), col, row, second)[(col, row)] == ensured(
            cells,
            col,
            row,
            first,
        )[(col, row)],
        ensured(cells, col, row, first).contains_key((col, row)),
{
}

/// The order in which a region is filled: column by column, and within a
/// column row by row.
pub open spec fn precedes(key: (int, int), stop: (int, int)) -> bool {
    key.0 < stop.0 || (key.0 == stop.0 && key.1 < stop.1)
}

/// The coordinates of `region` that a fill reaches before it arrives at
/// `stop`; all of them where there is no `stop`.
pub open spec fn cells_before(region: Bounds, stop: Option<(int, int)>) -> Set<(i32, i32)> {
    Set::new(
        |key: (i32, i32)|
            {
                &&& region.contains(key.0 as int, key.1 as int)
                &&& stop matches Some(s) ==> precedes((key.0 as int, key.1 as int), s)
            },
    )
}

/// What it means that `after` is `before` with the coordinates `due` made
/// sure of through `factory`: the grid holds what it held and the coordinates
/// of `due`, nothing else; no chunk that was there has changed; and each new
/// chunk carries its coordinate and a payload that the factory gave for it.
pub open spec fn grown<P, E, F: Fn(i32, i32) -> Result<P, E>>(
    before: Map<(i32, i32), Chunk<P>>,
    after: Map<(i32, i32), Chunk<P>>,
    due: Set<(i32, i32)>,
    factory: F,
) -> bool {
    &&& forall|key: (i32, i32)| #[trigger]
        after.contains_key(key) ==> before.contains_key(key) || due.contains(key)
    &&& forall|key: (i32, i32)| #[trigger]
        before.contains_key(key) ==> after.contains_key(key) && after[key] == before[key]
    &&& forall|key: (i32, i32)| #[trigger]
        due.contains(key) ==> {
            &&& after.contains_key(key)
            &&& !before.contains_key(key) ==> {
                &&& after[key].sits_at(key.0, key.1)
                &&& call_ensures(factory, key, Ok::<P, E>(after[key].payload))
            }
        }
}

/// What holds of a fill of `region` that the factory ended with the failure
/// `e` at the coordinate `at`: the factory was asked there because no chunk
/// was, none is there now, and the grid has grown by the coordinates that the
/// fill reached before it.
pub open spec fn stopped<P, E, F: Fn(i32, i32) -> Result<P, E>>(
    before: Map<(i32, i32), Chunk<P>>,
    after: Map<(i32, i32), Chunk<P>>,
    region: Bounds,
    at: (i32, i32),
    e: E,
    factory: F,
) -> bool {
    &&& region.contains(at.0 as int, at.1 as int)
    &&& !after.contains_key(at)
    &&& call_ensures(factory, at, Err::<P, E>(e))
    &&& grown(before, after, cells_before(region, Some((at.0 as int, at.1 as int))), factory)
}

/// Growing a grid twice is growing it once by both sets of coordinates.
pub proof fn lemma_grown_twice<P, E, F: Fn(i32, i32) -> Result<P, E>>(
    first: Map<(i32, i32), Chunk<P>>,
    second: Map<(i32, i32), Chunk<P>>,
    third: Map<(i32, i32), Chunk<P>>,
    early: Set<(i32, i32)>,
    late: Set<(i32, i32)>,
    factory: F,
)
    requires
        grown(first, second, early, factory),
        grown(second, third, late, factory),
    ensures
        grown(first, third, early.union(late), factory),
{
    assert forall|key: (i32, i32)| #[trigger] early.union(late).contains(key) implies {
        &&& third.contains_key(key)
        &&& !first.contains_key(key) ==> {
            &&& third[key].sits_at(key.0, key.1)
            &&& call_ensures(factory, key, Ok::<P, E>(third[key].payload))
        }
    } by {
        if early.contains(key) {
            assert(second.contains_key(key));
        } else {
            assert(late.contains(key));
            if second.contains_key(key) && !first.contains_key(key) {
                assert(early.contains(key));
            }
        }
    }
}

impl<P> ChunkGrid<P> {
    /// The chunks of the grid by coordinate `(column, row)`.
    pub open spec fn view(&self) -> Map<(i32, i32), Chunk<P>> {
        Map::new(
            |k: (i32, i32)|
                self.columns@.contains_key(k.0) && self.columns@[k.0]@.contains_key(k.1),
            |k: (i32, i32)| self.columns@[k.0]@[k.1],
        )
    }

    /// Every chunk carries the coordinate under which it is stored.
    pub open spec fn wf(&self) -> bool {
        forall|k: (i32, i32)| #[trigger]
            self@.contains_key(k) ==> self@[k].sits_at(k.0, k.1)
    }

    /// A grid without chunks.
    pub fn new() -> (grid: Self)
        ensures
            grid@ == Map::<(i32, i32), Chunk<P>>::empty(),
            grid.wf(),
    {
        let grid = ChunkGrid { columns: HashMap::new() };
        assert(grid@ =~= Map::<(i32, i32), Chunk<P>>::empty());
        grid
    }

    /// Looks a coordinate up. A coordinate that was never populated gives
    /// `None`.
    pub fn get(&self, col: i32, row: i32) -> (found: Option<&Chunk<P>>)
        ensures
            found is Some <==> self@.contains_key((col, row)),
            found matches Some(chunk) ==> *chunk == self@[(col, row)],
    {
        broadcast use vstd::std_specs::hash::group_hash_axioms;

        match self.columns.get(&col) {
            Some(column) => column.get(&row),
            None => None,
        }
    }

    /// True when a chunk is stored at the coordinate.
    pub fn contains(&self, col: i32, row: i32) -> (present: bool)
        ensures
            present == self@.contains_key((col, row)),
    {
        self.get(col, row).is_some()
    }

    /// Stores the outcome of one construction attempt for `(col, row)`.
    /// A payload is wrapped into a chunk and kept unless the coordinate is
    /// taken already; a failure is handed back and the grid stays as it was.
    pub fn place<E>(&mut self, col: i32, row: i32, built: Result<P, E>) -> (placed: Result<
        &Chunk<P>,
        E,
    >)
        requires
            old(self).wf(),
        ensures
            final(self).wf(),
            match (built, placed) {
                (Ok(payload), Ok(chunk)) => {
                    &&& final(self)@ == ensured(
                        old(self)@,
                        col,
                        row,
                        Chunk { x: col, y: row, payload },
                    )
                    &&& *chunk == final(self)@[(col, row)]
                },
                (Err(cause), Err(e)) => e == cause && final(self)@ == old(self)@,
                _ => false,
            },
    {
        broadcast use vstd::std_specs::hash::group_hash_axioms;

        let payload = match built {
            Ok(payload) => payload,
            Err(cause) => {
                return Err(cause);
            },
        };
        let ghost before = self@;
        let ghost fresh = Chunk { x: col, y: row, payload };
        let column = self.columns.entry(col).or_insert(HashMap::new());
        if !column.contains_key(&row) {
            column.insert(row, Chunk::new(col, row, payload));
        }
        proof {
            assert(self@ =~= ensured(before, col, row, fresh));
        }
        Ok(self.get(col, row).unwrap())
    }

    /// Makes sure that a chunk exists at `(col, row)` and returns it.
    ///
    /// A chunk that is there already is returned as it is and the factory is
    /// not consulted. Where none is, the factory is called once: its payload
    /// becomes the new chunk, and its failure is returned with the grid
    /// untouched.
    pub fn ensure<E, F: Fn(i32, i32) -> Result<P, E>>(
        &mut self,
        col: i32,
        row: i32,
        factory: &F,
    ) -> (r: Result<&Chunk<P>, E>)
        requires
            old(self).wf(),
            !old(self)@.contains_key((col, row)) ==> call_requires(*factory, (col, row)),
        ensures
            final(self).wf(),
            old(self)@.contains_key((col, row)) ==> r is Ok && final(self)@ == old(self)@,
            match r {
                Ok(chunk) => {
                    &&& final(self)@ == ensured(old(self)@, col, row, *chunk)
                    &&& *chunk == final(self)@[(col, row)]
                    &&& chunk.sits_at(col, row)
                    &&& !old(self)@.contains_key((col, row)) ==> call_ensures(
                        *factory,
                        (col, row),
                        Ok::<P, E>(chunk.payload),
                    )
                },
                Err(e) => {
                    &&& !old(self)@.contains_key((col, row))
                    &&& call_ensures(*factory, (col, row), Err::<P, E>(e))
                    &&& final(self)@ == old(self)@
                },
            },
    {
        if self.contains(col, row) {
            let chunk = self.get(col, row).unwrap();
            Ok(chunk)
        } else {
            let built = factory(col, row);
            self.place(col, row, built)
        }
    }

    /// Makes sure of every coordinate of `region`, column by column and
    /// within a column row by row, and stops at the first coordinate for
    /// which the factory fails. What was made sure of before that stays.
    pub fn fill<E, F: Fn(i32, i32) -> Result<P, E>>(
        &mut self,
        region: &VisibleMap,
        factory: &F,
    ) -> (r: Result<(), E>)
        requires
            old(self).wf(),
            forall|col: i32, row: i32|
                region@.contains(col as int, row as int) && !old(self)@.contains_key((col, row))
                    ==> call_requires(*factory, (col, row)),
        ensures
            final(self).wf(),
            r is Ok ==> grown(old(self)@, final(self)@, cells_before(region@, None), *factory),
            r matches Err(e) ==> exists|at: (i32, i32)|
                stopped(old(self)@, final(self)@, region@, at, e, *factory),
    {
        let ghost before = self@;
        let mut col: i64 = region.minx as i64;
        while col <= region.maxx as i64
            invariant
                before == old(self)@,
                region.minx <= col,
                col <= region.maxx + 1 || region.maxx < region.minx,
                self.wf(),
                forall|c: i32, r: i32|
                    region@.contains(c as int, r as int) && !before.contains_key((c, r))
                        ==> call_requires(*factory, (c, r)),
                grown(
                    before,
                    self@,
                    cells_before(region@, Some((col as int, region.miny as int))),
                    *factory,
                ),
            decreases region.maxx + 1 - col,
        {
            let mut row: i64 = region.miny as i64;
            while row <= region.maxy as i64
                invariant
                    before == old(self)@,
                    region.minx <= col <= region.maxx,
                    region.miny <= row,
                    row <= region.maxy + 1 || region.maxy < region.miny,
                    self.wf(),
                    forall|c: i32, r: i32|
                        region@.contains(c as int, r as int) && !before.contains_key((c, r))
                            ==> call_requires(*factory, (c, r)),
                    grown(
                        before,
                        self@,
                        cells_before(region@, Some((col as int, row as int))),
                        *factory,
                    ),
                decreases region.maxy + 1 - row,
            {
                let ghost current = self@;
                let ghost reached = cells_before(region@, Some((col as int, row as int)));
                let c: i32 = col as i32;
                let r: i32 = row as i32;
                proof {
                    assert(region@.contains(c as int, r as int));
                    if !current.contains_key((c, r)) {
                        assert(!before.contains_key((c, r)));
                    }
                }
                match self.ensure(c, r, factory) {
                    Ok(_) => {},
                    Err(e) => {
                        let failure: Result<(), E> = Err(e);
                        proof {
                            assert(self@ == current);
                            assert(failure matches Err(cause) ==> stopped(
                                old(self)@,
                                self@,
                                region@,
                                (c, r),
                                cause,
                                *factory,
                            ));
                        }
                        return failure;
                    },
                }
                proof {
                    let next = cells_before(region@, Some((col as int, row + 1)));
                    assert(grown(current, self@, set![(c, r)], *factory));
                    lemma_grown_twice(before, current, self@, reached, set![(c, r)], *factory);
                    assert(reached.union(set![(c, r)]) =~= next);
                }
                row = row + 1;
            }
            proof {
                assert(cells_before(region@, Some((col as int, row as int))) =~= cells_before(
                    region@,
                    Some((col + 1, region.miny as int)),
                ));
            }
            col = col + 1;
        }
        proof {
            assert(cells_before(region@, Some((col as int, region.miny as int))) =~= cells_before(
                region@,
                None,
            ));
        }
        Ok(())
    }
}

} // verus!
