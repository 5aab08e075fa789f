use vstd::prelude::*;
use vstd::math::{abs, max, min};
use crate::rect::Rect;

verus! {

/// Chebyshev distance: two cells at distance 1 touch, diagonals included.
pub open spec fn chebyshev(a: (int, int), b: (int, int)) -> int {
    max(abs(a.0 - b.0) as int, abs(a.1 - b.1) as int)
}

/// The integer line that `bresenham::Bresenham` walks from `start` (included)
/// toward `end` (excluded); a fixed function of the two endpoints.
pub uninterp spec fn bres_line(start: (int, int), end: (int, int)) -> Seq<(int, int)>;

pub open spec fn as_int_pair(p: (i32, i32)) -> (int, int) {
    (p.0 as int, p.1 as int)
}

/// Relies on bresenham::Bresenham::new and its Iterator impl: the fast integer
/// line variant yields one point per unit of Chebyshev distance, starting at
/// `start`, stepping to a touching cell each time, staying inside the bounding
/// box of the endpoints, and stopping on a cell touching `end`.
#[verifier::external_body]
fn line_points(start: (i32, i32), end: (i32, i32)) -> (r: Vec<(i32, i32)>)
    requires
        -0x100000 <= start.0 <= 0x100000,
        -0x100000 <= start.1 <= 0x100000,
        -0x100000 <= end.0 <= 0x100000,
        -0x100000 <= end.1 <= 0x100000,
    ensures
        r@.map_values(|p: (i32, i32)| as_int_pair(p)) == bres_line(
            as_int_pair(start),
            as_int_pair(end),
        ),
        r@.len() == chebyshev(as_int_pair(start), as_int_pair(end)),
        r@.len() > 0 ==> r@[0] == start,
        forall|i: int|
            0 <= i < r@.len() - 1 ==> chebyshev(
                as_int_pair(#[trigger] r@[i]),
                as_int_pair(r@[i + 1]),
            ) == 1,
        r@.len() > 0 ==> chebyshev(as_int_pair(r@[r@.len() - 1]), as_int_pair(end)) == 1,
        forall|i: int|
            0 <= i < r@.len() ==> min(start.0 as int, end.0 as int) <= (#[trigger] r@[i]).0 <= max(
                start.0 as int,
                end.0 as int,
            ) && min(start.1 as int, end.1 as int) <= r@[i].1 <= max(
                start.1 as int,
                end.1 as int,
            ),
{
    bresenham::Bresenham::new((start.0 as isize, start.1 as isize), (end.0 as isize, end.1 as isize))
        .map(|p: (isize, isize)| (p.0 as i32, p.1 as i32))
        .collect()
}

/// One cell of the dungeon grid. A wall blocks both movement and sight; a
/// floor blocks neither; a tile occupied by a blocking entity blocks movement
/// only. `explored` is owned by the visibility tracker.
#[derive(Clone, Copy, Debug, PartialEq, Eq, Structural)]
pub struct Tile {
    pub blocks_movement: bool,
    pub blocks_sight: bool,
    pub explored: bool,
}

impl Tile {
    pub fn empty() -> (t: Tile)
        ensures
            t == (Tile { blocks_movement: false, blocks_sight: false, explored: false }),
    {
        Tile { blocks_movement: false, blocks_sight: false, explored: false }
    }

    pub fn wall() -> (t: Tile)
        ensures
            t == (Tile { blocks_movement: true, blocks_sight: true, explored: false }),
    {
        Tile { blocks_movement: true, blocks_sight: true, explored: false }
    }

    pub fn entity() -> (t: Tile)
        ensures
            t == (Tile { blocks_movement: true, blocks_sight: false, explored: false }),
    {
        Tile { blocks_movement: true, blocks_sight: false, explored: false }
    }

    pub open spec fn is_wall_spec(self) -> bool {
        self.blocks_movement && self.blocks_sight
    }

    pub fn is_wall(&self) -> (r: bool)
        ensures
            r == self.is_wall_spec(),
    {
        self.blocks_movement && self.blocks_sight
    }
}

/// A tile as a blocking entity's overlay leaves it: movement blocked, sight
/// clear, exploration kept.
pub open spec fn occupied_mark(t: Tile) -> Tile {
    Tile { blocks_movement: true, blocks_sight: false, explored: t.explored }
}

/// A tile as vacating restores it: plain floor, exploration kept.
pub open spec fn vacant_mark(t: Tile) -> Tile {
    Tile { blocks_movement: false, blocks_sight: false, explored: t.explored }
}

/// Fixed-size grid of tiles, indexed by `(x, y)` with the origin at the top
/// left, column-major storage.
pub struct TileGrid {
    pub width: i32,
    pub height: i32,
    pub data: Vec<Vec<Tile>>,
}

impl TileGrid {
    pub open spec fn wf(self) -> bool {
        &&& 0 <= self.width
        &&& 0 <= self.height
        &&& self.data@.len() == self.width as int
        &&& forall|i: int|
            0 <= i < self.data@.len() ==> #[trigger] self.data@[i]@.len() == self.height as int
    }

    pub open spec fn in_bounds(self, x: int, y: int) -> bool {
        0 <= x < self.width && 0 <= y < self.height
    }

    pub open spec fn tile(self, x: int, y: int) -> Tile {
        self.data@[x]@[y]
    }

    /// Both maps have the same size and every tile outside `skip` agrees.
    pub open spec fn same_outside(self, other: TileGrid, skip: Set<(int, int)>) -> bool {
        &&& other.width == self.width
        &&& other.height == self.height
        &&& forall|x: int, y: int|
            self.in_bounds(x, y) && !skip.contains((x, y)) ==> #[trigger] other.tile(x, y)
                == self.tile(x, y)
    }

    pub fn new(width: i32, height: i32, default_tile: Tile) -> (m: TileGrid)
        requires
            0 <= width,
            0 <= height,
        ensures
            m.wf(),
            m.width == width,
            m.height == height,
            forall|x: int, y: int| m.in_bounds(x, y) ==> #[trigger] m.tile(x, y) == default_tile,
    {
        let mut data: Vec<Vec<Tile>> = Vec::new();
        let mut x: i32 = 0;
        while x < width
            invariant
                0 <= x <= width,
                0 <= height,
                data@.len() == x as int,
                forall|i: int| 0 <= i < x as int ==> #[trigger] data@[i]@.len() == height as int,
                forall|i: int, j: int|
                    0 <= i < x as int && 0 <= j < height as int ==> #[trigger] data@[i]@[j]
                        == default_tile,
            decreases width - x,
        {
            let mut col: Vec<Tile> = Vec::new();
            let mut y: i32 = 0;
            while y < height
                invariant
                    0 <= y <= height,
                    col@.len() == y as int,
                    forall|j: int| 0 <= j < y as int ==> #[trigger] col@[j] == default_tile,
                decreases height - y,
            {
                col.push(default_tile);
                y = y + 1;
            }
            data.push(col);
            x = x + 1;
        }
        TileGrid { width, height, data }
    }

    pub fn get(&self, x: i32, y: i32) -> (t: Tile)
        requires
            self.wf(),
            self.in_bounds(x as int, y as int),
        ensures
            t == self.tile(x as int, y as int),
    {
        self.data[x as usize][y as usize]
    }

    pub fn get_mut(&mut self, x: i32, y: i32) -> (t: &mut Tile)
        requires
            old(self).wf(),
            old(self).in_bounds(x as int, y as int),
        ensures
            *t == old(self).tile(x as int, y as int),
            final(self).wf(),
            final(self).tile(x as int, y as int) == *final(t),
            old(self).same_outside(*final(self), set![(x as int, y as int)]),
    {
        let col = &mut self.data[x as usize];
        &mut col[y as usize]
    }

    pub fn set(&mut self, x: i32, y: i32, tile: Tile)
        requires
            old(self).wf(),
            old(self).in_bounds(x as int, y as int),
        ensures
            final(self).wf(),
            final(self).tile(x as int, y as int) == tile,
            old(self).same_outside(*final(self), set![(x as int, y as int)]),
    {
        let col = &mut self.data[x as usize];
        col[y as usize] = tile;
    }

    /// The half-open carve window that `set_rect` writes: `rect` shrunk by one
    /// on the low side when `inclusive` is false, widened by one on the high
    /// side when it is true, then clipped to the grid minus its last column
    /// and row.
    pub open spec fn in_carve(self, rect: Rect, inclusive: bool, x: int, y: int) -> bool {
        let x_lo = max(0, rect.x1 + if inclusive { 0int } else { 1int });
        let y_lo = max(0, rect.y1 + if inclusive { 0int } else { 1int });
        let x_hi = min(self.width - 1, rect.x2 + if inclusive { 1int } else { 0int });
        let y_hi = min(self.height - 1, rect.y2 + if inclusive { 1int } else { 0int });
        x_lo <= x < x_hi && y_lo <= y < y_hi
    }

    /// Write `tile` over the carve window of `rect`.
    pub fn set_rect(&mut self, rect: Rect, tile: Tile, inclusive: bool)
        requires
            old(self).wf(),
            i32::MIN < rect.x1 < i32::MAX,
            i32::MIN < rect.y1 < i32::MAX,
            rect.x2 < i32::MAX,
            rect.y2 < i32::MAX,
        ensures
            final(self).wf(),
            final(self).width == old(self).width,
            final(self).height == old(self).height,
            forall|x: int, y: int|
                old(self).in_bounds(x, y) ==> #[trigger] final(self).tile(x, y) == (if old(
                    self,
                ).in_carve(rect, inclusive, x, y) {
                    tile
                } else {
                    old(self).tile(x, y)
                }),
    {
        let initial_add: i32 = if inclusive {
            0
        } else {
            1
        };
        let after_add: i32 = if inclusive {
            1
        } else {
            0
        };
        let x_start = max_i32(0, rect.x1 + initial_add);
        let x_end = min_i32(self.width - 1, rect.x2 + after_add);
        let y_start = max_i32(0, rect.y1 + initial_add);
        let y_end = min_i32(self.height - 1, rect.y2 + after_add);
        let mut x = x_start;
        while x < x_end
            invariant
                self.wf(),
                self.width == old(self).width,
                self.height == old(self).height,
                x_start <= x <= x_end || x == x_start,
                x_start == max(0, rect.x1 + if inclusive { 0int } else { 1int }),
                x_end == min(self.width - 1, rect.x2 + if inclusive { 1int } else { 0int }),
                y_start == max(0, rect.y1 + if inclusive { 0int } else { 1int }),
                y_end == min(self.height - 1, rect.y2 + if inclusive { 1int } else { 0int }),
                forall|i: int, j: int|
                    old(self).in_bounds(i, j) ==> #[trigger] self.tile(i, j) == (if old(
                        self,
                    ).in_carve(rect, inclusive, i, j) && i < x {
                        tile
                    } else {
                        old(self).tile(i, j)
                    }),
            decreases x_end - x,
        {
            let mut y = y_start;
            while y < y_end
                invariant
                    self.wf(),
                    self.width == old(self).width,
                    self.height == old(self).height,
                    x_start <= x < x_end,
                    y_start <= y <= y_end || y == y_start,
                    x_start == max(0, rect.x1 + if inclusive { 0int } else { 1int }),
                    x_end == min(self.width - 1, rect.x2 + if inclusive { 1int } else { 0int }),
                    y_start == max(0, rect.y1 + if inclusive { 0int } else { 1int }),
                    y_end == min(self.height - 1, rect.y2 + if inclusive { 1int } else { 0int }),
                    forall|i: int, j: int|
                        old(self).in_bounds(i, j) ==> #[trigger] self.tile(i, j) == (if old(
                            self,
                        ).in_carve(rect, inclusive, i, j) && (i < x || (i == x && j < y)) {
                            tile
                        } else {
                            old(self).tile(i, j)
                        }),
                decreases y_end - y,
            {
                self.set(x, y, tile);
                y = y + 1;
            }
            x = x + 1;
        }
    }

    /// Overlay a blocking entity on `(x, y)`, keeping the explored flag.
    pub fn set_occupied(&mut self, x: i32, y: i32)
        requires
            old(self).wf(),
            old(self).in_bounds(x as int, y as int),
        ensures
            final(self).wf(),
            final(self).tile(x as int, y as int) == occupied_mark(old(self).tile(x as int, y as int)),
            old(self).same_outside(*final(self), set![(x as int, y as int)]),
    {
        let t = self.get(x, y);
        self.set(x, y, Tile { blocks_movement: true, blocks_sight: false, explored: t.explored });
    }

    /// Restore `(x, y)` to plain floor, keeping the explored flag.
    pub fn set_vacant(&mut self, x: i32, y: i32)
        requires
            old(self).wf(),
            old(self).in_bounds(x as int, y as int),
        ensures
            final(self).wf(),
            final(self).tile(x as int, y as int) == vacant_mark(old(self).tile(x as int, y as int)),
            old(self).same_outside(*final(self), set![(x as int, y as int)]),
    {
        let t = self.get(x, y);
        self.set(x, y, Tile { blocks_movement: false, blocks_sight: false, explored: t.explored });
    }

    /// The carve window of the square stamp of half-width `radius` centred at
    /// `c`: the same clipping as an inclusive `set_rect` of that square.
    pub open spec fn stamp_at(self, c: (int, int), radius: int, x: int, y: int) -> bool {
        &&& max(0, c.0 - radius) <= x < min(self.width - 1, c.0 + radius + 1)
        &&& max(0, c.1 - radius) <= y < min(self.height - 1, c.1 + radius + 1)
    }

    /// Some point of `line` has `(x, y)` under its stamp.
    pub open spec fn tunnel_covers(
        self,
        line: Seq<(int, int)>,
        radius: int,
        x: int,
        y: int,
    ) -> bool {
        exists|i: int| 0 <= i < line.len() && #[trigger] self.stamp_at(line[i], radius, x, y)
    }

    /// Carve an organic tunnel: stamp a square of half-width `radius` at every
    /// point of the integer line from `start` (included) toward `end`
    /// (excluded).
    pub fn set_tunnel(&mut self, start: (i32, i32), end: (i32, i32), radius: i32, tile: Tile)
        requires
            old(self).wf(),
            -0x100000 <= start.0 <= 0x100000,
            -0x100000 <= start.1 <= 0x100000,
            -0x100000 <= end.0 <= 0x100000,
            -0x100000 <= end.1 <= 0x100000,
            0 <= radius <= 0x100000,
        ensures
            final(self).wf(),
            final(self).width == old(self).width,
            final(self).height == old(self).height,
            ({
                let line = bres_line(as_int_pair(start), as_int_pair(end));
                &&& line.len() == chebyshev(as_int_pair(start), as_int_pair(end))
                &&& line.len() > 0 ==> line[0] == as_int_pair(start)
                &&& forall|i: int|
                    0 <= i < line.len() - 1 ==> chebyshev(#[trigger] line[i], line[i + 1]) == 1
                &&& line.len() > 0 ==> chebyshev(line[line.len() - 1], as_int_pair(end)) == 1
                &&& forall|i: int|
                    0 <= i < line.len() ==> min(start.0 as int, end.0 as int) <= (
                    #[trigger] line[i]).0 <= max(start.0 as int, end.0 as int) && min(
                        start.1 as int,
                        end.1 as int,
                    ) <= line[i].1 <= max(start.1 as int, end.1 as int)
            }),
            forall|x: int, y: int|
                old(self).in_bounds(x, y) ==> #[trigger] final(self).tile(x, y) == (if old(
                    self,
                ).tunnel_covers(
                    bres_line(as_int_pair(start), as_int_pair(end)),
                    radius as int,
                    x,
                    y,
                ) {
                    tile
                } else {
                    old(self).tile(x, y)
                }),
    {
        let ghost line = bres_line(as_int_pair(start), as_int_pair(end));
        let points = line_points(start, end);
        proof {
            assert forall|i: int| 0 <= i < line.len() implies line[i] == as_int_pair(
                points@[i],
            ) by {
                assert(line[i] == points@.map_values(|p: (i32, i32)| as_int_pair(p))[i]);
            }
        }
        let mut k: usize = 0;
        while k < points.len()
            invariant
                self.wf(),
                self.width == old(self).width,
                self.height == old(self).height,
                0 <= k <= points.len(),
                points@.map_values(|p: (i32, i32)| as_int_pair(p)) == line,
                forall|i: int|
                    0 <= i < points@.len() ==> -0x200000 < (#[trigger] points@[i]).0 < 0x200000
                        && -0x200000 < points@[i].1 < 0x200000,
                0 <= radius <= 0x100000,
                forall|x: int, y: int|
                    old(self).in_bounds(x, y) ==> #[trigger] self.tile(x, y) == (if exists|i: int|
                        0 <= i < k as int && #[trigger] old(self).stamp_at(
                            line[i],
                            radius as int,
                            x,
                            y,
                        ) {
                        tile
                    } else {
                        old(self).tile(x, y)
                    }),
            decreases points.len() - k,
        {
            let p = points[k];
            let stamp = Rect::new(p.0 - radius, p.1 - radius, radius * 2, radius * 2);
            assert(line[k as int] == as_int_pair(points@[k as int]));
            let ghost prev = *self;
            self.set_rect(stamp, tile, true);
            proof {
                assert forall|x: int, y: int| old(self).in_bounds(x, y) implies #[trigger] self.tile(
                    x,
                    y,
                ) == (if exists|i: int|
                    0 <= i < k + 1 && #[trigger] old(self).stamp_at(line[i], radius as int, x, y) {
                    tile
                } else {
                    old(self).tile(x, y)
                }) by {
                    assert(prev.in_carve(stamp, true, x, y) == old(self).stamp_at(
                        line[k as int],
                        radius as int,
                        x,
                        y,
                    ));
                    if exists|i: int|
                        0 <= i < k + 1 && #[trigger] old(self).stamp_at(
                            line[i],
                            radius as int,
                            x,
                            y,
                        ) {
                        let i = choose|i: int|
                            0 <= i < k + 1 && #[trigger] old(self).stamp_at(
                                line[i],
                                radius as int,
                                x,
                                y,
                            );
                        if i < k {
                            assert(prev.tile(x, y) == tile);
                        }
                        assert(self.tile(x, y) == tile);
                    } else {
                        assert(!old(self).stamp_at(line[k as int], radius as int, x, y));
                        assert(self.tile(x, y) == prev.tile(x, y));
                    }
                }
            }
            k = k + 1;
        }
    }
}

pub fn max_i32(a: i32, b: i32) -> (r: i32)
    ensures
        r == max(a as int, b as int),
{
    if a >= b {
        a
    } else {
        b
    }
}

pub fn min_i32(a: i32, b: i32) -> (r: i32)
    ensures
        r == min(a as int, b as int),
{
    if a <= b {
        a
    } else {
        b
    }
}

} // verus!
