use vstd::prelude::*;
use vstd::math::{max, min};
use vstd::string::StringExecFns;
use crate::entity::{Ai, Chest, DeathCallback, Entity, Fighter, Item};
use crate::reach::{
    is_floor, lemma_chain_reach, lemma_hseg_reach, lemma_reach_mono, lemma_reach_refl,
    lemma_reach_trans, lemma_vseg_reach, path_ok, reachable, step_ok,
};
use crate::rect::Rect;
use crate::tile::{as_int_pair, bres_line, chebyshev, occupied_mark, Tile, TileGrid};

verus! {

pub const SCREEN_WIDTH: i32 = 32;

pub const SCREEN_HEIGHT: i32 = 24;

pub const ROOM_MAX_SIZE: i32 = 12;

pub const ROOM_MIN_SIZE: i32 = 6;

pub const MAX_ROOMS: i32 = 30;

pub const MAX_ROOM_MONSTERS: i32 = 3;

pub const MAX_ROOM_ITEMS: i32 = 1;

/// How many whole candidate dungeons the generator is willing to discard
/// before giving up; rejection sampling all but surely accepts long before.
pub const MAX_GENERATION_TRIES: u32 = 10000;

/// Relies on rand's thread_rng and Rng::gen_range: a uniform sample in
/// [lo, hi); the call panics iff lo >= hi, which the precondition excludes.
#[verifier::external_body]
pub fn rand_range(lo: i32, hi: i32) -> (r: i32)
    requires
        lo < hi,
    ensures
        lo <= r < hi,
{
    rand::Rng::gen_range(&mut rand::thread_rng(), lo, hi)
}

/// Relies on rand's thread_rng and Rng::gen for bool: either value can come
/// back, and nothing more is assumed.
#[verifier::external_body]
pub fn rand_bool() -> bool {
    rand::Rng::gen::<bool>(&mut rand::thread_rng())
}

/// An accepted room: fully inside the grid's interior margin, with both side
/// lengths between the configured minimum and maximum.
pub open spec fn room_ok(r: Rect, width: int, height: int) -> bool {
    &&& 0 <= r.x1
    &&& 0 <= r.y1
    &&& r.x2 < width
    &&& r.y2 < height
    &&& r.x1 + ROOM_MIN_SIZE as int <= r.x2 <= r.x1 + ROOM_MAX_SIZE as int
    &&& r.y1 + ROOM_MIN_SIZE as int <= r.y2 <= r.y1 + ROOM_MAX_SIZE as int
}

/// No two accepted rooms intersect, boundary included.
pub open spec fn pairwise_separated(rooms: Seq<Rect>) -> bool {
    forall|i: int, j: int|
        0 <= i < j < rooms.len() ==> !(#[trigger] rooms[i].touches(rooms[j]))
}

/// Every tile strictly inside `r` is carved floor: it blocks neither
/// movement nor sight.
pub open spec fn interior_floor(m: TileGrid, r: Rect) -> bool {
    forall|x: int, y: int|
        r.x1 < x < r.x2 && r.y1 < y < r.y2 ==> !(#[trigger] m.tile(x, y)).blocks_movement && !m.tile(
            x,
            y,
        ).blocks_sight
}

/// The outermost ring of the grid blocks movement.
pub open spec fn border_blocked(m: TileGrid) -> bool {
    forall|x: int, y: int|
        m.in_bounds(x, y) && (x == 0 || y == 0 || x == m.width - 1 || y == m.height - 1)
            ==> (#[trigger] m.tile(x, y)).blocks_movement
}

/// Walls in the column `x` below row `y_end`.
pub open spec fn col_walls(m: TileGrid, x: int, y_end: int) -> int
    decreases y_end,
{
    if y_end <= 0 {
        0
    } else {
        col_walls(m, x, y_end - 1) + if m.tile(x, y_end - 1).is_wall_spec() {
            1int
        } else {
            0int
        }
    }
}

/// Walls in the columns left of `x_end`, below row `y_end`.
pub open spec fn wall_count(m: TileGrid, x_end: int, y_end: int) -> int
    decreases x_end,
{
    if x_end <= 0 {
        0
    } else {
        wall_count(m, x_end - 1, y_end) + col_walls(m, x_end - 1, y_end)
    }
}

/// The acceptance band: the wall share of the full area lies in [0.4, 0.6].
pub open spec fn density_ok(walls: int, total: int) -> bool {
    2 * total <= 5 * walls && 5 * walls <= 3 * total
}

/// Count the walls over the grid minus its last column and row.
fn count_walls(m: &TileGrid) -> (full: i64)
    requires
        m.wf(),
        1 <= m.width <= 0x10000,
        1 <= m.height <= 0x10000,
    ensures
        full == wall_count(*m, m.width - 1, m.height - 1),
        0 <= full <= 0x100000000i64,
{
    let mut full: i64 = 0;
    let mut x: i32 = 0;
    while x < m.width - 1
        invariant
            m.wf(),
            1 <= m.width <= 0x10000,
            1 <= m.height <= 0x10000,
            0 <= x <= m.width - 1,
            full == wall_count(*m, x as int, m.height - 1),
            0 <= full <= (x as i64) * 0x10000,
        decreases m.width - 1 - x,
    {
        let mut y: i32 = 0;
        while y < m.height - 1
            invariant
                m.wf(),
                1 <= m.width <= 0x10000,
                1 <= m.height <= 0x10000,
                0 <= x < m.width - 1,
                0 <= y <= m.height - 1,
                full == wall_count(*m, x as int, m.height - 1) + col_walls(*m, x as int, y as int),
                0 <= full <= (x as i64) * 0x10000 + (y as i64),
            decreases m.height - 1 - y,
        {
            if m.get(x, y).is_wall() {
                full = full + 1;
            }
            y = y + 1;
        }
        x = x + 1;
    }
    full
}

/// Carve an organic tunnel between two centres: a square stamp at every
/// point of the integer line between them. Only floor is added, the border
/// ring is never touched, and the two centres end up joined by carved floor.
#[verifier::rlimit(100)]
fn carve_tunnel(map: &mut TileGrid, px: i32, py: i32, nx: i32, ny: i32, width: i32, height: i32)
    requires
        old(map).wf(),
        old(map).width == width,
        old(map).height == height,
        ROOM_MAX_SIZE < width <= 0x10000,
        ROOM_MAX_SIZE < height <= 0x10000,
        3 <= px <= width - 4,
        3 <= py <= height - 4,
        3 <= nx <= width - 4,
        3 <= ny <= height - 4,
        px != nx || py != ny,
    ensures
        final(map).wf(),
        final(map).width == width,
        final(map).height == height,
        forall|x: int, y: int|
            old(map).in_bounds(x, y) ==> #[trigger] final(map).tile(x, y) == old(map).tile(x, y)
                || final(map).tile(x, y) == (Tile {
                blocks_movement: false,
                blocks_sight: false,
                explored: false,
            }),
        forall|x: int, y: int|
            old(map).in_bounds(x, y) && (x == 0 || y == 0 || x == width - 1 || y == height - 1)
                ==> #[trigger] final(map).tile(x, y) == old(map).tile(x, y),
        reachable(*final(map), (px as int, py as int), (nx as int, ny as int)),
{
    let ghost pre = map;
    map.set_tunnel((px, py), (nx, ny), 1, Tile::empty());
    proof {
        let pc = (px as int, py as int);
        let nc = (nx as int, ny as int);
        let line = bres_line(as_int_pair((px, py)), as_int_pair((nx, ny)));
        assert forall|x: int, y: int|
            pre.in_bounds(x, y) && (x == 0 || y == 0 || x == pre.width - 1 || y == pre.height
                - 1) implies !pre.tunnel_covers(line, 1, x, y) by {
            assert forall|i: int| 0 <= i < line.len() implies !pre.stamp_at(line[i], 1, x, y) by {
                assert(3 <= line[i].0 <= width - 4);
                assert(3 <= line[i].1 <= height - 4);
            }
        }
        assert(chebyshev(pc, nc) >= 1);
        if line.len() == 0 {
            assert(false);
        } else {
            assert forall|i: int| 0 <= i < line.len() implies #[trigger] is_floor(
                *map,
                line[i],
            ) by {
                assert(3 <= line[i].0 <= width - 4);
                assert(3 <= line[i].1 <= height - 4);
                assert(pre.stamp_at(line[i], 1, line[i].0, line[i].1));
                assert(pre.tunnel_covers(line, 1, line[i].0, line[i].1));
            }
            assert forall|i: int| 0 <= i < line.len() - 1 implies is_floor(
                *map,
                ((#[trigger] line[i + 1]).0, line[i].1),
            ) by {
                assert(chebyshev(line[i], line[i + 1]) == 1);
                assert(3 <= line[i].0 <= width - 4);
                assert(3 <= line[i].1 <= height - 4);
                assert(3 <= line[i + 1].0 <= width - 4);
                assert(pre.stamp_at(line[i], 1, line[i + 1].0, line[i].1));
                assert(pre.tunnel_covers(line, 1, line[i + 1].0, line[i].1));
            }
            lemma_chain_reach(*map, line, line.len() - 1);
            let last = line[line.len() - 1];
            assert(chebyshev(last, nc) == 1);
            let c2 = (nc.0, last.1);
            assert(3 <= last.0 <= width - 4);
            assert(3 <= last.1 <= height - 4);
            assert(pre.stamp_at(last, 1, c2.0, c2.1));
            assert(pre.tunnel_covers(line, 1, c2.0, c2.1));
            assert(is_floor(*map, c2));
            assert(pre.stamp_at(last, 1, nc.0, nc.1));
            assert(pre.tunnel_covers(line, 1, nc.0, nc.1));
            assert(is_floor(*map, nc));
            let hop = seq![last, c2, nc];
            assert(step_ok(last, c2));
            assert(step_ok(c2, nc));
            assert(path_ok(*map, hop));
            assert(reachable(*map, last, nc));
            assert(line[0] == pc);
            lemma_reach_trans(*map, pc, last, nc);
        }
    }
}

/// Carve an elbow corridor between two centres: a horizontal then a
/// vertical carved segment. Only floor is added, the border ring is never
/// touched, and the two centres end up joined by carved floor.
#[verifier::rlimit(100)]
fn carve_elbow(map: &mut TileGrid, px: i32, py: i32, nx: i32, ny: i32, width: i32, height: i32)
    requires
        old(map).wf(),
        old(map).width == width,
        old(map).height == height,
        ROOM_MAX_SIZE < width <= 0x10000,
        ROOM_MAX_SIZE < height <= 0x10000,
        3 <= px <= width - 4,
        3 <= py <= height - 4,
        3 <= nx <= width - 4,
        3 <= ny <= height - 4,
    ensures
        final(map).wf(),
        final(map).width == width,
        final(map).height == height,
        forall|x: int, y: int|
            old(map).in_bounds(x, y) ==> #[trigger] final(map).tile(x, y) == old(map).tile(x, y)
                || final(map).tile(x, y) == (Tile {
                blocks_movement: false,
                blocks_sight: false,
                explored: false,
            }),
        forall|x: int, y: int|
            old(map).in_bounds(x, y) && (x == 0 || y == 0 || x == width - 1 || y == height - 1)
                ==> #[trigger] final(map).tile(x, y) == old(map).tile(x, y),
        reachable(*final(map), (px as int, py as int), (nx as int, ny as int)),
{
    let r1 = Rect { x1: min_i32_local(px, nx), y1: py, x2: max_i32_local(px, nx), y2: py };
    let r2 = Rect { x1: nx, y1: min_i32_local(py, ny), x2: nx, y2: max_i32_local(py, ny) };
    let ghost pre1 = map;
    map.set_rect(r1, Tile::empty(), true);
    let ghost pre2 = map;
    map.set_rect(r2, Tile::empty(), true);
    proof {
        let pc = (px as int, py as int);
        let nc = (nx as int, ny as int);
        assert forall|x: int|
            min(px as int, nx as int) <= x <= max(px as int, nx as int)
            implies #[trigger] is_floor(*map, (x, py as int)) by {
            assert(pre1.in_carve(r1, true, x, py as int));
            assert(!pre2.tile(x, py as int).blocks_movement);
            assert(!map.tile(x, py as int).blocks_movement);
        }
        lemma_hseg_reach(*map, px as int, nx as int, py as int);
        assert forall|y: int|
            min(py as int, ny as int) <= y <= max(py as int, ny as int)
            implies #[trigger] is_floor(*map, (nx as int, y)) by {
            assert(pre2.in_carve(r2, true, nx as int, y));
            assert(!map.tile(nx as int, y).blocks_movement);
        }
        lemma_vseg_reach(*map, nx as int, py as int, ny as int);
        lemma_reach_trans(*map, pc, (nx as int, py as int), nc);
    }
}

/// Link two accepted rooms' centres: with small probability an organic
/// tunnel, otherwise an elbow corridor.
fn connect_rooms(map: &mut TileGrid, prev_room: Rect, new_room: Rect, width: i32, height: i32)
    requires
        old(map).wf(),
        old(map).width == width,
        old(map).height == height,
        ROOM_MAX_SIZE < width <= 0x10000,
        ROOM_MAX_SIZE < height <= 0x10000,
        room_ok(prev_room, width as int, height as int),
        room_ok(new_room, width as int, height as int),
        !new_room.touches(prev_room),
    ensures
        final(map).wf(),
        final(map).width == width,
        final(map).height == height,
        forall|x: int, y: int|
            old(map).in_bounds(x, y) ==> #[trigger] final(map).tile(x, y) == old(map).tile(x, y)
                || final(map).tile(x, y) == (Tile {
                blocks_movement: false,
                blocks_sight: false,
                explored: false,
            }),
        forall|x: int, y: int|
            old(map).in_bounds(x, y) && (x == 0 || y == 0 || x == width - 1 || y == height - 1)
                ==> #[trigger] final(map).tile(x, y) == old(map).tile(x, y),
        reachable(*final(map), prev_room.center_spec(), new_room.center_spec()),
{
    proof {
        lemma_center_bounds(prev_room, width as int, height as int);
        lemma_center_bounds(new_room, width as int, height as int);
    }
    let prev = prev_room.center();
    let px = prev.0;
    let py = prev.1;
    let center = new_room.center();
    let nx = center.0;
    let ny = center.1;
    proof {
        if px == nx && py == ny {
            assert(!new_room.touches(prev_room));
            assert(false);
        }
    }
    if rand_range(0, 100) <= 10 {
        carve_tunnel(map, px, py, nx, ny, width, height);
    } else {
        carve_elbow(map, px, py, nx, ny, width, height);
    }
}

/// Build one candidate dungeon: up to MAX_ROOMS rejection-sampled rooms
/// carved into a wall-filled grid, each room after the first linked to its
/// predecessor's centre. The first room's centre is the start position, and
/// every accepted room is joined to it by carved floor.
#[verifier::rlimit(100)]
fn build_candidate(width: i32, height: i32) -> (r: (TileGrid, Vec<Rect>, (i32, i32)))
    requires
        ROOM_MAX_SIZE < width <= 0x10000,
        ROOM_MAX_SIZE < height <= 0x10000,
    ensures
        r.0.wf(),
        r.0.width == width,
        r.0.height == height,
        1 <= r.1@.len() <= MAX_ROOMS,
        pairwise_separated(r.1@),
        forall|i: int|
            0 <= i < r.1@.len() ==> room_ok(#[trigger] r.1@[i], width as int, height as int),
        forall|i: int| 0 <= i < r.1@.len() ==> interior_floor(r.0, #[trigger] r.1@[i]),
        border_blocked(r.0),
        (r.2.0 as int, r.2.1 as int) == r.1@[0].center_spec(),
        forall|i: int|
            0 <= i < r.1@.len() ==> reachable(
                r.0,
                r.1@[0].center_spec(),
                (#[trigger] r.1@[i]).center_spec(),
            ),
{
    let mut map = TileGrid::new(width, height, Tile::wall());
    let mut rooms: Vec<Rect> = Vec::new();
    let mut starting_position: (i32, i32) = (0, 0);
    let mut attempt: i32 = 0;
    while attempt < MAX_ROOMS
        invariant
            ROOM_MAX_SIZE < width <= 0x10000,
            ROOM_MAX_SIZE < height <= 0x10000,
            map.wf(),
            map.width == width,
            map.height == height,
            0 <= attempt <= MAX_ROOMS,
            rooms@.len() <= attempt,
            attempt >= 1 ==> rooms@.len() >= 1,
            pairwise_separated(rooms@),
            forall|i: int|
                0 <= i < rooms@.len() ==> room_ok(#[trigger] rooms@[i], width as int, height as int),
            forall|i: int| 0 <= i < rooms@.len() ==> interior_floor(map, #[trigger] rooms@[i]),
            border_blocked(map),
            rooms@.len() >= 1 ==> (starting_position.0 as int, starting_position.1 as int)
                == rooms@[0].center_spec(),
            forall|i: int|
                0 <= i < rooms@.len() ==> reachable(
                    map,
                    rooms@[0].center_spec(),
                    (#[trigger] rooms@[i]).center_spec(),
                ),
        decreases MAX_ROOMS - attempt,
    {
        let w = rand_range(ROOM_MIN_SIZE, ROOM_MAX_SIZE + 1);
        let h = rand_range(ROOM_MIN_SIZE, ROOM_MAX_SIZE + 1);
        let x = rand_range(0, width - w);
        let y = rand_range(0, height - h);
        let new_room = Rect::new(x, y, w, h);

        let mut failed = false;
        let mut k: usize = 0;
        while k < rooms.len()
            invariant
                0 <= k <= rooms@.len(),
                rooms@.len() == 0 ==> !failed,
                !failed ==> forall|j: int| 0 <= j < k as int ==> !new_room.touches(#[trigger] rooms@[j]),
            decreases rooms@.len() - k,
        {
            if new_room.intersects_with(&rooms[k]) {
                failed = true;
            }
            k = k + 1;
        }

        if !failed {
            let ghost pre_room = map;
            map.set_rect(new_room, Tile::empty(), false);
            proof {
                assert forall|i: int, j: int|
                    new_room.x1 < i < new_room.x2 && new_room.y1 < j < new_room.y2 implies !(
                #[trigger] map.tile(i, j)).blocks_movement && !map.tile(i, j).blocks_sight by {
                    assert(map.tile(i, j) == (Tile {
                        blocks_movement: false,
                        blocks_sight: false,
                        explored: false,
                    }));
                }
                assert forall|i: int| 0 <= i < rooms@.len() implies reachable(
                    map,
                    rooms@[0].center_spec(),
                    (#[trigger] rooms@[i]).center_spec(),
                ) by {
                    lemma_reach_mono(
                        pre_room,
                        map,
                        rooms@[0].center_spec(),
                        rooms@[i].center_spec(),
                    );
                }
                lemma_center_bounds(new_room, width as int, height as int);
            }
            let center = new_room.center();
            let nx = center.0;
            let ny = center.1;
            if rooms.len() == 0 {
                starting_position = (nx, ny);
                proof {
                    lemma_reach_refl(map, new_room.center_spec());
                }
            } else {
                let prev_room = rooms[rooms.len() - 1];
                let ghost pre_conn = map;
                connect_rooms(&mut map, prev_room, new_room, width, height);
                proof {
                    assert forall|i: int| 0 <= i < rooms@.len() implies reachable(
                        map,
                        rooms@[0].center_spec(),
                        (#[trigger] rooms@[i]).center_spec(),
                    ) by {
                        lemma_reach_mono(
                            pre_conn,
                            map,
                            rooms@[0].center_spec(),
                            rooms@[i].center_spec(),
                        );
                    }
                    lemma_reach_trans(
                        map,
                        rooms@[0].center_spec(),
                        prev_room.center_spec(),
                        new_room.center_spec(),
                    );
                }
            }
            rooms.push(new_room);
        }
        attempt = attempt + 1;
    }
    (map, rooms, starting_position)
}


/// An accepted room's centre sits at least three tiles inside the room, so
/// corridors between centres keep clear of the grid border.
pub proof fn lemma_center_bounds(r: Rect, width: int, height: int)
    requires
        room_ok(r, width, height),
    ensures
        r.x1 + 3 <= r.center_spec().0 <= r.x2 - 3,
        r.y1 + 3 <= r.center_spec().1 <= r.y2 - 3,
        3 <= r.center_spec().0 <= width - 4,
        3 <= r.center_spec().1 <= height - 4,
{
    assert(r.x1 + 3 <= (r.x1 + r.x2) / 2 <= r.x2 - 3) by (nonlinear_arith)
        requires
            r.x1 + 6 <= r.x2,
    ;
    assert(r.y1 + 3 <= (r.y1 + r.y2) / 2 <= r.y2 - 3) by (nonlinear_arith)
        requires
            r.y1 + 6 <= r.y2,
    ;
}

fn min_i32_local(a: i32, b: i32) -> (r: i32)
    ensures
        r == min(a as int, b as int),
{
    if a <= b {
        a
    } else {
        b
    }
}

fn max_i32_local(a: i32, b: i32) -> (r: i32)
    ensures
        r == max(a as int, b as int),
{
    if a >= b {
        a
    } else {
        b
    }
}

/// A monster as the generator makes it: alive, blocking, willing to act,
/// with the goblin or the troll fighter sheet.
pub open spec fn monster_shape(e: Entity) -> bool {
    &&& e.alive
    &&& e.blocks
    &&& e.ai == Some(Ai)
    &&& e.item is None
    &&& e.chest is None
    &&& (e.glyph == 'g' && e.fighter == Some(
        Fighter { max_hp: 10, hp: 10, defense: 0, power: 3, on_death: DeathCallback::Monster },
    )) || (e.glyph == 'T' && e.fighter == Some(
        Fighter { max_hp: 16, hp: 16, defense: 1, power: 4, on_death: DeathCallback::Monster },
    ))
}

/// An object as the generator makes it: inert, either a pickup or the chest.
pub open spec fn object_shape(e: Entity) -> bool {
    &&& e.fighter is None
    &&& e.ai is None
    &&& !e.alive
    &&& ((e.item == Some(Item::Heal) && !e.blocks && e.chest is None) || (e.item == Some(
        Item::Key,
    ) && !e.blocks && e.chest is None) || (e.chest == Some(Chest) && e.blocks && e.item is None))
}

/// The entity sits strictly inside the grid's border ring.
pub open spec fn interior_pos(e: Entity, m: TileGrid) -> bool {
    1 <= e.x < m.width - 1 && 1 <= e.y < m.height - 1
}

/// The entity stands strictly inside `r`, shifted by the screen offset the
/// placement applies.
pub open spec fn in_room_interior(r: Rect, e: Entity) -> bool {
    &&& r.x1 < e.x - SCREEN_WIDTH as int / 2 < r.x2
    &&& r.y1 < e.y - SCREEN_HEIGHT as int / 2 < r.y2
}

/// The entity stands inside one of the rooms `rooms[lo..]`.
pub open spec fn in_some_room(rooms: Seq<Rect>, lo: int, e: Entity) -> bool {
    exists|k: int| lo <= k < rooms.len() && #[trigger] in_room_interior(rooms[k], e)
}

/// How many entities of `s` stand inside `r`.
pub open spec fn count_in_room(s: Seq<Entity>, r: Rect) -> int
    decreases s.len(),
{
    if s.len() == 0 {
        0
    } else {
        count_in_room(s.drop_last(), r) + if in_room_interior(r, s.last()) {
            1int
        } else {
            0int
        }
    }
}

/// How many healing potions of `s` stand inside `r`.
pub open spec fn count_heal_in_room(s: Seq<Entity>, r: Rect) -> int
    decreases s.len(),
{
    if s.len() == 0 {
        0
    } else {
        count_heal_in_room(s.drop_last(), r) + if s.last().item == Some(Item::Heal)
            && in_room_interior(r, s.last()) {
            1int
        } else {
            0int
        }
    }
}

proof fn lemma_count_push(s: Seq<Entity>, e: Entity, r: Rect)
    ensures
        count_in_room(s.push(e), r) == count_in_room(s, r) + if in_room_interior(r, e) {
            1int
        } else {
            0int
        },
        count_heal_in_room(s.push(e), r) == count_heal_in_room(s, r) + if e.item == Some(
            Item::Heal,
        ) && in_room_interior(r, e) {
            1int
        } else {
            0int
        },
{
    assert(s.push(e).drop_last() =~= s);
    assert(s.push(e).last() == e);
}

/// Rooms that do not touch have disjoint interiors: an entity inside one is
/// outside the other.
pub proof fn lemma_rooms_exclusive(a: Rect, b: Rect, e: Entity)
    requires
        !a.touches(b),
        in_room_interior(a, e),
    ensures
        !in_room_interior(b, e),
{
}

/// Squared Euclidean distance between two cell coordinates.
pub open spec fn dist2(a: (int, int), b: (int, int)) -> int {
    (a.0 - b.0) * (a.0 - b.0) + (a.1 - b.1) * (a.1 - b.1)
}

/// `f` is the first room whose centre lies farthest (by squared distance)
/// from the first room's centre.
pub open spec fn furthest_room(rooms: Seq<Rect>, f: int) -> bool {
    &&& 0 <= f < rooms.len()
    &&& forall|k: int|
        0 <= k < rooms.len() ==> dist2(
            (#[trigger] rooms[k]).center_spec(),
            rooms[0].center_spec(),
        ) <= dist2(rooms[f].center_spec(), rooms[0].center_spec())
    &&& forall|k: int|
        0 <= k < f ==> dist2((#[trigger] rooms[k]).center_spec(), rooms[0].center_spec()) < dist2(
            rooms[f].center_spec(),
            rooms[0].center_spec(),
        )
}

/// Try up to a small fixed number of samples to place one monster inside
/// `room` (shifted by the screen offset); an exhausted budget abandons the
/// placement.
fn place_monster(room: &Rect, map: &mut TileGrid) -> (r: Option<Entity>)
    requires
        old(map).wf(),
        old(map).width <= 0x10000,
        old(map).height <= 0x10000,
        room_ok(
            *room,
            old(map).width - SCREEN_WIDTH as int / 2,
            old(map).height - SCREEN_HEIGHT as int / 2,
        ),
    ensures
        final(map).wf(),
        final(map).width == old(map).width,
        final(map).height == old(map).height,
        r is None ==> *final(map) == *old(map),
        r matches Some(m) ==> {
            &&& monster_shape(m)
            &&& interior_pos(m, *final(map))
            &&& in_room_interior(*room, m)
            &&& !old(map).tile(m.x as int, m.y as int).blocks_movement
            &&& final(map).tile(m.x as int, m.y as int) == occupied_mark(
                old(map).tile(m.x as int, m.y as int),
            )
            &&& old(map).same_outside(*final(map), set![(m.x as int, m.y as int)])
        },
{
    let mut tries: i32 = 0;
    let mut result: Option<Entity> = None;
    while result.is_none() && tries <= 40
        invariant
            map.wf(),
            map.width == old(map).width,
            map.height == old(map).height,
            map.width <= 0x10000,
            map.height <= 0x10000,
            room_ok(
                *room,
                map.width - SCREEN_WIDTH as int / 2,
                map.height - SCREEN_HEIGHT as int / 2,
            ),
            0 <= tries <= 41,
            result is None ==> *map == *old(map),
            result matches Some(m) ==> {
                &&& monster_shape(m)
                &&& interior_pos(m, *map)
                &&& in_room_interior(*room, m)
                &&& !old(map).tile(m.x as int, m.y as int).blocks_movement
                &&& map.tile(m.x as int, m.y as int) == occupied_mark(
                    old(map).tile(m.x as int, m.y as int),
                )
                &&& old(map).same_outside(*map, set![(m.x as int, m.y as int)])
            },
        decreases 41 - tries, (if result is None { 1int } else { 0int }),
    {
        let x = rand_range(room.x1 + 1, room.x2);
        let y = rand_range(room.y1 + 1, room.y2);
        let is_goblin = rand_range(0, 10) < 8;
        let glyph = if is_goblin {
            'g'
        } else {
            'T'
        };
        let name = if is_goblin {
            String::from_str("Goblin")
        } else {
            String::from_str("Troll")
        };
        let cand = Entity::new(
            x + SCREEN_WIDTH / 2,
            y + SCREEN_HEIGHT / 2,
            glyph,
            name,
            map,
            true,
            true,
        );
        match cand {
            Some(mut m) => {
                if is_goblin {
                    m.fighter = Some(
                        Fighter {
                            max_hp: 10,
                            hp: 10,
                            defense: 0,
                            power: 3,
                            on_death: DeathCallback::Monster,
                        },
                    );
                } else {
                    m.fighter = Some(
                        Fighter {
                            max_hp: 16,
                            hp: 16,
                            defense: 1,
                            power: 4,
                            on_death: DeathCallback::Monster,
                        },
                    );
                }
                m.ai = Some(Ai);
                result = Some(m);
            },
            None => {
                tries = tries + 1;
            },
        }
    }
    result
}

/// Populate every room but the first with monsters: up to three per room,
/// with a coin-flip chance of one where the roll said zero.
pub fn generate_monsters(rooms: &Vec<Rect>, map: &mut TileGrid) -> (npcs: Vec<Entity>)
    requires
        old(map).wf(),
        old(map).width <= 0x10000,
        old(map).height <= 0x10000,
        forall|k: int|
            1 <= k < rooms@.len() ==> room_ok(
                #[trigger] rooms@[k],
                old(map).width - SCREEN_WIDTH as int / 2,
                old(map).height - SCREEN_HEIGHT as int / 2,
            ),
        pairwise_separated(rooms@),
    ensures
        final(map).wf(),
        final(map).width == old(map).width,
        final(map).height == old(map).height,
        forall|x: int, y: int|
            old(map).in_bounds(x, y) && old(map).tile(x, y).blocks_movement
                ==> #[trigger] final(map).tile(x, y) == old(map).tile(x, y),
        forall|x: int, y: int|
            old(map).in_bounds(x, y) ==> #[trigger] final(map).tile(x, y) == old(map).tile(x, y)
                || (!old(map).tile(x, y).blocks_movement && final(map).tile(x, y) == occupied_mark(
                old(map).tile(x, y),
            )),
        forall|i: int|
            0 <= i < npcs@.len() ==> monster_shape(#[trigger] npcs@[i]) && interior_pos(
                npcs@[i],
                *final(map),
            ) && !old(map).tile(npcs@[i].x as int, npcs@[i].y as int).blocks_movement
                && final(map).tile(npcs@[i].x as int, npcs@[i].y as int).blocks_movement
                && !final(map).tile(
                npcs@[i].x as int,
                npcs@[i].y as int,
            ).blocks_sight,
        forall|i: int, j: int|
            0 <= i < j < npcs@.len() ==> !((#[trigger] npcs@[i]).x == (#[trigger] npcs@[j]).x
                && npcs@[i].y == npcs@[j].y),
        forall|i: int| 0 <= i < npcs@.len() ==> in_some_room(rooms@, 1, #[trigger] npcs@[i]),
        forall|k: int|
            1 <= k < rooms@.len() ==> count_in_room(npcs@, #[trigger] rooms@[k])
                <= MAX_ROOM_MONSTERS,
{
    let mut npcs: Vec<Entity> = Vec::new();
    let mut ri: usize = 1;
    while ri < rooms.len()
        invariant
            map.wf(),
            map.width == old(map).width,
            map.height == old(map).height,
            map.width <= 0x10000,
            map.height <= 0x10000,
            1 <= ri,
            forall|k: int|
                1 <= k < rooms@.len() ==> room_ok(
                    #[trigger] rooms@[k],
                    map.width - SCREEN_WIDTH as int / 2,
                    map.height - SCREEN_HEIGHT as int / 2,
                ),
            forall|x: int, y: int|
                old(map).in_bounds(x, y) && old(map).tile(x, y).blocks_movement ==> #[trigger] map.tile(
                    x,
                    y,
                ) == old(map).tile(x, y),
            forall|x: int, y: int|
                old(map).in_bounds(x, y) ==> #[trigger] map.tile(x, y) == old(map).tile(x, y) || (
                !old(map).tile(x, y).blocks_movement && map.tile(x, y) == occupied_mark(
                    old(map).tile(x, y),
                )),
            forall|i: int|
                0 <= i < npcs@.len() ==> monster_shape(#[trigger] npcs@[i]) && interior_pos(
                    npcs@[i],
                    *map,
                ) && !old(map).tile(npcs@[i].x as int, npcs@[i].y as int).blocks_movement
                    && map.tile(npcs@[i].x as int, npcs@[i].y as int).blocks_movement && !map.tile(
                    npcs@[i].x as int,
                    npcs@[i].y as int,
                ).blocks_sight,
            forall|i: int, j: int|
                0 <= i < j < npcs@.len() ==> !((#[trigger] npcs@[i]).x == (#[trigger] npcs@[j]).x
                    && npcs@[i].y == npcs@[j].y),
            pairwise_separated(rooms@),
            forall|i: int| 0 <= i < npcs@.len() ==> in_some_room(rooms@, 1, #[trigger] npcs@[i]),
            forall|k: int|
                1 <= k < ri as int ==> count_in_room(npcs@, #[trigger] rooms@[k])
                    <= MAX_ROOM_MONSTERS,
            forall|k: int|
                ri as int <= k < rooms@.len() ==> count_in_room(npcs@, #[trigger] rooms@[k]) == 0,
        decreases rooms@.len() - ri,
    {
        let mut num_monsters = rand_range(0, MAX_ROOM_MONSTERS + 1);
        if num_monsters == 0 {
            if rand_bool() {
                num_monsters = 1;
            }
        }
        let mut n: i32 = 0;
        while n < num_monsters
            invariant
                map.wf(),
                map.width == old(map).width,
                map.height == old(map).height,
                map.width <= 0x10000,
                map.height <= 0x10000,
                1 <= ri < rooms@.len(),
                forall|k: int|
                    1 <= k < rooms@.len() ==> room_ok(
                        #[trigger] rooms@[k],
                        map.width - SCREEN_WIDTH as int / 2,
                        map.height - SCREEN_HEIGHT as int / 2,
                    ),
                forall|x: int, y: int|
                    old(map).in_bounds(x, y) && old(map).tile(x, y).blocks_movement
                        ==> #[trigger] map.tile(x, y) == old(map).tile(x, y),
                forall|x: int, y: int|
                    old(map).in_bounds(x, y) ==> #[trigger] map.tile(x, y) == old(map).tile(x, y)
                        || (!old(map).tile(x, y).blocks_movement && map.tile(x, y)
                        == occupied_mark(old(map).tile(x, y))),
                forall|i: int|
                    0 <= i < npcs@.len() ==> monster_shape(#[trigger] npcs@[i]) && interior_pos(
                        npcs@[i],
                        *map,
                    ) && !old(map).tile(npcs@[i].x as int, npcs@[i].y as int).blocks_movement
                        && map.tile(npcs@[i].x as int, npcs@[i].y as int).blocks_movement
                        && !map.tile(npcs@[i].x as int, npcs@[i].y as int).blocks_sight,
                forall|i: int, j: int|
                    0 <= i < j < npcs@.len() ==> !((#[trigger] npcs@[i]).x
                        == (#[trigger] npcs@[j]).x && npcs@[i].y == npcs@[j].y),
                pairwise_separated(rooms@),
                0 <= n <= num_monsters,
                num_monsters <= MAX_ROOM_MONSTERS,
                forall|i: int|
                    0 <= i < npcs@.len() ==> in_some_room(rooms@, 1, #[trigger] npcs@[i]),
                forall|k: int|
                    1 <= k < ri as int ==> count_in_room(npcs@, #[trigger] rooms@[k])
                        <= MAX_ROOM_MONSTERS,
                count_in_room(npcs@, rooms@[ri as int]) <= n as int,
                forall|k: int|
                    (ri as int) < k < rooms@.len() ==> count_in_room(npcs@, #[trigger] rooms@[k])
                        == 0,
            decreases num_monsters - n,
        {
            let placed = place_monster(&rooms[ri], map);
            match placed {
                Some(m) => {
                    let ghost pre_npcs = npcs@;
                    let ghost mm = m;
                    npcs.push(m);
                    proof {
                        assert(in_room_interior(rooms@[ri as int], mm));
                        assert(in_some_room(rooms@, 1, mm));
                        lemma_count_push(pre_npcs, mm, rooms@[ri as int]);
                        assert forall|k: int|
                            1 <= k < rooms@.len() && k != ri as int implies count_in_room(
                            npcs@,
                            #[trigger] rooms@[k],
                        ) == count_in_room(pre_npcs, rooms@[k]) by {
                            if k < ri as int {
                                assert(!rooms@[k].touches(rooms@[ri as int]));
                            }
                            assert(!rooms@[ri as int].touches(rooms@[k]));
                            lemma_rooms_exclusive(rooms@[ri as int], rooms@[k], mm);
                            lemma_count_push(pre_npcs, mm, rooms@[k]);
                        }
                    }
                },
                None => {},
            }
            n = n + 1;
        }
        ri = ri + 1;
    }
    npcs
}

/// Try up to a small fixed number of samples to place one non-blocking
/// pickup inside `room` (shifted by the screen offset); an exhausted budget
/// abandons the placement. The grid is never touched.
fn place_item(room: &Rect, glyph: char, name: String, kind: Item, map: &mut TileGrid) -> (r:
    Option<Entity>)
    requires
        old(map).wf(),
        old(map).width <= 0x10000,
        old(map).height <= 0x10000,
        room_ok(
            *room,
            old(map).width - SCREEN_WIDTH as int / 2,
            old(map).height - SCREEN_HEIGHT as int / 2,
        ),
    ensures
        *final(map) == *old(map),
        r matches Some(m) ==> {
            &&& object_shape(m)
            &&& m.item == Some(kind)
            &&& !m.blocks
            &&& m.chest is None
            &&& interior_pos(m, *final(map))
            &&& in_room_interior(*room, m)
            &&& !old(map).tile(m.x as int, m.y as int).blocks_movement
        },
{
    let mut tries: i32 = 0;
    let mut result: Option<Entity> = None;
    while result.is_none() && tries <= 40
        invariant
            map.wf(),
            *map == *old(map),
            map.width <= 0x10000,
            map.height <= 0x10000,
            room_ok(
                *room,
                map.width - SCREEN_WIDTH as int / 2,
                map.height - SCREEN_HEIGHT as int / 2,
            ),
            0 <= tries <= 41,
            result matches Some(m) ==> {
                &&& object_shape(m)
                &&& m.item == Some(kind)
                &&& !m.blocks
                &&& m.chest is None
                &&& interior_pos(m, *map)
                &&& in_room_interior(*room, m)
                &&& !old(map).tile(m.x as int, m.y as int).blocks_movement
            },
        decreases 41 - tries, (if result is None { 1int } else { 0int }),
    {
        let x = rand_range(room.x1 + 1, room.x2);
        let y = rand_range(room.y1 + 1, room.y2);
        let cand = Entity::new(
            x + SCREEN_WIDTH / 2,
            y + SCREEN_HEIGHT / 2,
            glyph,
            name.clone(),
            map,
            false,
            false,
        );
        match cand {
            Some(mut m) => {
                m.item = Some(kind);
                result = Some(m);
            },
            None => {
                tries = tries + 1;
            },
        }
    }
    result
}

/// Scatter healing potions over the rooms (at most one per room), put the
/// key in the room whose centre is furthest from the start, and stand the
/// chest one tile above the start room's centre, as the last object. None
/// exactly when the chest's tile is already taken, in which place the grid
/// is left untouched.
#[verifier::rlimit(100)]
pub fn generate_objects(rooms: &Vec<Rect>, map: &mut TileGrid) -> (r: Option<Vec<Entity>>)
    requires
        old(map).wf(),
        old(map).width <= 0x10000,
        old(map).height <= 0x10000,
        rooms@.len() >= 1,
        forall|k: int|
            0 <= k < rooms@.len() ==> room_ok(
                #[trigger] rooms@[k],
                old(map).width - SCREEN_WIDTH as int / 2,
                old(map).height - SCREEN_HEIGHT as int / 2,
            ),
        pairwise_separated(rooms@),
    ensures
        final(map).wf(),
        final(map).width == old(map).width,
        final(map).height == old(map).height,
        forall|x: int, y: int|
            old(map).in_bounds(x, y) && old(map).tile(x, y).blocks_movement
                ==> #[trigger] final(map).tile(x, y) == old(map).tile(x, y),
        forall|x: int, y: int|
            old(map).in_bounds(x, y) ==> #[trigger] final(map).tile(x, y) == old(map).tile(x, y)
                || (!old(map).tile(x, y).blocks_movement && final(map).tile(x, y) == occupied_mark(
                old(map).tile(x, y),
            )),
        (r is None) <==> old(map).tile(
            rooms@[0].center_spec().0 + SCREEN_WIDTH as int / 2,
            rooms@[0].center_spec().1 - 1 + SCREEN_HEIGHT as int / 2,
        ).blocks_movement,
        r is None ==> *final(map) == *old(map),
        r matches Some(objs) ==> {
            &&& 1 <= objs@.len() <= rooms@.len() + 2
            &&& forall|i: int| 0 <= i < objs@.len() - 1 ==> !(#[trigger] objs@[i]).blocks
            &&& forall|i: int| 0 <= i < objs@.len() - 1 ==> (#[trigger] objs@[i]).chest is None
            &&& forall|i: int|
                0 <= i < objs@.len() ==> object_shape(#[trigger] objs@[i]) && interior_pos(
                    objs@[i],
                    *final(map),
                )
            &&& forall|i: int|
                0 <= i < objs@.len() && (#[trigger] objs@[i]).item is Some ==> in_some_room(
                    rooms@,
                    0,
                    objs@[i],
                ) && !old(map).tile(objs@[i].x as int, objs@[i].y as int).blocks_movement
            &&& forall|i: int, j: int|
                0 <= i < j < objs@.len() ==> !((#[trigger] objs@[i]).item == Some(Item::Key) && (
                #[trigger] objs@[j]).item == Some(Item::Key))
            &&& forall|i: int, f: int|
                0 <= i < objs@.len() && (#[trigger] objs@[i]).item == Some(Item::Key)
                    && furthest_room(rooms@, f) ==> in_room_interior(#[trigger] rooms@[f], objs@[i])
            &&& forall|k: int|
                0 <= k < rooms@.len() ==> count_heal_in_room(objs@, #[trigger] rooms@[k])
                    <= MAX_ROOM_ITEMS
            &&& ({
                let c = objs@[objs@.len() - 1];
                &&& c.chest == Some(Chest)
                &&& c.blocks
                &&& !c.alive
                &&& c.item is None
                &&& c.x as int == rooms@[0].center_spec().0 + SCREEN_WIDTH as int / 2
                &&& c.y as int == rooms@[0].center_spec().1 - 1 + SCREEN_HEIGHT as int / 2
            })
            &&& forall|i: int|
                0 <= i < objs@.len() && (#[trigger] objs@[i]).blocks ==> !old(map).tile(
                    objs@[i].x as int,
                    objs@[i].y as int,
                ).blocks_movement && final(map).tile(
                    objs@[i].x as int,
                    objs@[i].y as int,
                ).blocks_movement && !final(map).tile(
                    objs@[i].x as int,
                    objs@[i].y as int,
                ).blocks_sight
        },
{
    let mut objects: Vec<Entity> = Vec::new();
    let start = rooms[0].center();
    let mut furthest_idx: usize = 0;
    let mut furthest_dist: i64 = 0;
    proof {
        lemma_center_bounds(
            rooms@[0],
            map.width - SCREEN_WIDTH as int / 2,
            map.height - SCREEN_HEIGHT as int / 2,
        );
    }
    let mut ri: usize = 0;
    while ri < rooms.len()
        invariant
            map.wf(),
            *map == *old(map),
            map.width <= 0x10000,
            map.height <= 0x10000,
            rooms@.len() >= 1,
            pairwise_separated(rooms@),
            forall|k: int|
                0 <= k < rooms@.len() ==> room_ok(
                    #[trigger] rooms@[k],
                    map.width - SCREEN_WIDTH as int / 2,
                    map.height - SCREEN_HEIGHT as int / 2,
                ),
            0 <= ri <= rooms@.len(),
            objects@.len() <= ri as int,
            furthest_idx < rooms@.len(),
            furthest_idx == 0 || (furthest_idx as int) < (ri as int),
            0 <= furthest_dist <= 0x100000000000i64,
            furthest_dist as int == dist2(
                rooms@[furthest_idx as int].center_spec(),
                rooms@[0].center_spec(),
            ),
            forall|k: int|
                0 <= k < ri as int ==> dist2(
                    (#[trigger] rooms@[k]).center_spec(),
                    rooms@[0].center_spec(),
                ) <= furthest_dist as int,
            forall|k: int|
                0 <= k < furthest_idx as int ==> dist2(
                    (#[trigger] rooms@[k]).center_spec(),
                    rooms@[0].center_spec(),
                ) < furthest_dist as int,
            0 <= start.0 <= 0x10000,
            0 <= start.1 <= 0x10000,
            (start.0 as int, start.1 as int) == rooms@[0].center_spec(),
            forall|i: int|
                0 <= i < objects@.len() ==> object_shape(#[trigger] objects@[i])
                    && !objects@[i].blocks && objects@[i].item == Some(Item::Heal)
                    && objects@[i].chest is None && interior_pos(objects@[i], *map)
                    && in_some_room(rooms@, 0, objects@[i]) && !old(map).tile(
                    objects@[i].x as int,
                    objects@[i].y as int,
                ).blocks_movement,
            forall|k: int|
                0 <= k < rooms@.len() ==> count_heal_in_room(objects@, #[trigger] rooms@[k])
                    <= MAX_ROOM_ITEMS,
            forall|k: int|
                ri as int <= k < rooms@.len() ==> count_heal_in_room(
                    objects@,
                    #[trigger] rooms@[k],
                ) == 0,
        decreases rooms@.len() - ri,
    {
        let num_items = rand_range(0, MAX_ROOM_ITEMS + 1);
        let mut n: i32 = 0;
        while n < num_items
            invariant
                map.wf(),
                *map == *old(map),
                map.width <= 0x10000,
                map.height <= 0x10000,
                rooms@.len() >= 1,
                pairwise_separated(rooms@),
                0 <= ri < rooms@.len(),
                0 <= n <= num_items,
                num_items <= 1,
                objects@.len() <= ri as int + n as int,
                forall|k: int|
                    0 <= k < rooms@.len() ==> room_ok(
                        #[trigger] rooms@[k],
                        map.width - SCREEN_WIDTH as int / 2,
                        map.height - SCREEN_HEIGHT as int / 2,
                    ),
                forall|i: int|
                    0 <= i < objects@.len() ==> object_shape(#[trigger] objects@[i])
                        && !objects@[i].blocks && objects@[i].item == Some(Item::Heal)
                        && objects@[i].chest is None && interior_pos(objects@[i], *map)
                        && in_some_room(rooms@, 0, objects@[i]) && !old(map).tile(
                        objects@[i].x as int,
                        objects@[i].y as int,
                    ).blocks_movement,
                forall|k: int|
                    0 <= k < rooms@.len() && k != ri as int ==> count_heal_in_room(
                        objects@,
                        #[trigger] rooms@[k],
                    ) <= MAX_ROOM_ITEMS,
                count_heal_in_room(objects@, rooms@[ri as int]) <= n as int,
                forall|k: int|
                    (ri as int) < k < rooms@.len() ==> count_heal_in_room(
                        objects@,
                        #[trigger] rooms@[k],
                    ) == 0,
            decreases num_items - n,
        {
            match place_item(
                &rooms[ri],
                '^',
                String::from_str("healing potion"),
                Item::Heal,
                map,
            ) {
                Some(m) => {
                    let ghost pre_objs = objects@;
                    let ghost mm = m;
                    objects.push(m);
                    proof {
                        assert(in_room_interior(rooms@[ri as int], mm));
                        assert(in_some_room(rooms@, 0, mm));
                        lemma_count_push(pre_objs, mm, rooms@[ri as int]);
                        assert forall|k: int|
                            0 <= k < rooms@.len() && k != ri as int implies count_heal_in_room(
                            objects@,
                            #[trigger] rooms@[k],
                        ) == count_heal_in_room(pre_objs, rooms@[k]) by {
                            if k < ri as int {
                                assert(!rooms@[k].touches(rooms@[ri as int]));
                            }
                            assert(!rooms@[ri as int].touches(rooms@[k]));
                            lemma_rooms_exclusive(rooms@[ri as int], rooms@[k], mm);
                            lemma_count_push(pre_objs, mm, rooms@[k]);
                        }
                    }
                },
                None => {},
            }
            n = n + 1;
        }
        proof {
            lemma_center_bounds(
                rooms@[ri as int],
                map.width - SCREEN_WIDTH as int / 2,
                map.height - SCREEN_HEIGHT as int / 2,
            );
        }
        let c = rooms[ri].center();
        let ddx = (c.0 - start.0) as i64;
        let ddy = (c.1 - start.1) as i64;
        proof {
            assert(0 <= ddx * ddx <= 0x400000000) by (nonlinear_arith)
                requires
                    -0x20000 <= ddx <= 0x20000,
            ;
            assert(0 <= ddy * ddy <= 0x400000000) by (nonlinear_arith)
                requires
                    -0x20000 <= ddy <= 0x20000,
            ;
        }
        let dist = ddx * ddx + ddy * ddy;
        proof {
            assert(dist as int == dist2(rooms@[ri as int].center_spec(), rooms@[0].center_spec()));
        }
        if dist > furthest_dist {
            furthest_idx = ri;
            furthest_dist = dist;
        }
        ri = ri + 1;
    }
    let ghost pre_key = objects@;
    match place_item(&rooms[furthest_idx], '!', String::from_str("key"), Item::Key, map) {
        Some(m) => {
            let ghost km = m;
            objects.push(m);
            proof {
                assert(in_room_interior(rooms@[furthest_idx as int], km));
                assert(in_some_room(rooms@, 0, km));
                assert forall|k: int| 0 <= k < rooms@.len() implies count_heal_in_room(
                    objects@,
                    #[trigger] rooms@[k],
                ) == count_heal_in_room(pre_key, rooms@[k]) by {
                    lemma_count_push(pre_key, km, rooms@[k]);
                }
            }
        },
        None => {},
    }
    proof {
        lemma_center_bounds(
            rooms@[0],
            map.width - SCREEN_WIDTH as int / 2,
            map.height - SCREEN_HEIGHT as int / 2,
        );
        assert(furthest_room(rooms@, furthest_idx as int));
        assert forall|f: int| furthest_room(rooms@, f) implies f == furthest_idx as int by {
            let fi = furthest_idx as int;
            if f < fi {
                assert(dist2(rooms@[f].center_spec(), rooms@[0].center_spec()) < dist2(
                    rooms@[fi].center_spec(),
                    rooms@[0].center_spec(),
                ));
                assert(dist2(rooms@[fi].center_spec(), rooms@[0].center_spec()) <= dist2(
                    rooms@[f].center_spec(),
                    rooms@[0].center_spec(),
                ));
            } else if f > fi {
                assert(dist2(rooms@[fi].center_spec(), rooms@[0].center_spec()) < dist2(
                    rooms@[f].center_spec(),
                    rooms@[0].center_spec(),
                ));
                assert(dist2(rooms@[f].center_spec(), rooms@[0].center_spec())
                    <= furthest_dist as int);
            }
        }
    }
    let cx = start.0 + SCREEN_WIDTH / 2;
    let cy = start.1 - 1 + SCREEN_HEIGHT / 2;
    let ghost pre_chest = objects@;
    let chest_cand = Entity::new(cx, cy, '&', String::from_str("chest"), map, true, false);
    match chest_cand {
        Some(mut chest) => {
            chest.chest = Some(Chest);
            objects.push(chest);
            proof {
                assert forall|k: int| 0 <= k < rooms@.len() implies count_heal_in_room(
                    objects@,
                    #[trigger] rooms@[k],
                ) == count_heal_in_room(pre_chest, rooms@[k]) by {
                    lemma_count_push(pre_chest, objects@.last(), rooms@[k]);
                }
            }
            Some(objects)
        },
        None => None,
    }
}

/// Generate a dungeon: whole candidates are discarded until one lands in the
/// wall-density acceptance band. Returns None only when the (generous) retry
/// budget runs out.
pub fn generate_map(width: i32, height: i32) -> (r: Option<(TileGrid, Vec<Rect>, (i32, i32))>)
    requires
        ROOM_MAX_SIZE < width <= 0x10000,
        ROOM_MAX_SIZE < height <= 0x10000,
        width * height <= i32::MAX,
    ensures
        r matches Some(g) ==> {
            &&& g.0.wf()
            &&& g.0.width == width
            &&& g.0.height == height
            &&& density_ok(
                wall_count(g.0, width - 1, height - 1),
                (width - 1) as int * (height - 1) as int,
            )
            &&& 1 <= g.1@.len() <= MAX_ROOMS
            &&& pairwise_separated(g.1@)
            &&& forall|i: int|
                0 <= i < g.1@.len() ==> room_ok(#[trigger] g.1@[i], width as int, height as int)
            &&& forall|i: int| 0 <= i < g.1@.len() ==> interior_floor(g.0, #[trigger] g.1@[i])
            &&& border_blocked(g.0)
            &&& (g.2.0 as int, g.2.1 as int) == g.1@[0].center_spec()
            &&& forall|i: int|
                0 <= i < g.1@.len() ==> reachable(
                    g.0,
                    g.1@[0].center_spec(),
                    (#[trigger] g.1@[i]).center_spec(),
                )
        },
{
    let mut tries: u32 = 0;
    while tries < MAX_GENERATION_TRIES
        invariant
            ROOM_MAX_SIZE < width <= 0x10000,
            ROOM_MAX_SIZE < height <= 0x10000,
            width * height <= i32::MAX,
        decreases MAX_GENERATION_TRIES - tries,
    {
        let candidate = build_candidate(width, height);
        let full = count_walls(&candidate.0);
        proof {
            assert(0 <= (width - 1) as int * (height - 1) as int <= 0x100000000) by (nonlinear_arith)
                requires
                    12 < width <= 0x10000,
                    12 < height <= 0x10000,
            ;
        }
        let total: i64 = ((width - 1) as i64) * ((height - 1) as i64);
        if full * 5 >= total * 2 && full * 5 <= total * 3 {
            return Some(candidate);
        }
        tries = tries + 1;
    }
    None
}

} // verus!
