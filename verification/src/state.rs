use vstd::prelude::*;
use crate::entity::{fighter_bounds, Ai, DeathCallback, Entity, Inventory};
use crate::gen::{border_blocked, interior_pos, object_shape};
use crate::stage::GameStage;
use crate::tile::{Tile, TileGrid};

verus! {

/// All mutable world state of one run, threaded explicitly through every
/// operation.
pub struct GameState {
    pub player: Entity,
    pub npcs: Vec<Entity>,
    pub objects: Vec<Entity>,
    pub map: TileGrid,
    pub camera_pos: (i32, i32),
    pub visible: Vec<Vec<bool>>,
    pub prev_player_pos: (i32, i32),
    pub stage: GameStage,
    pub recent_enemy_id: Option<usize>,
    pub inventory: Inventory,
}

/// The visibility grid mirrors the map's dimensions.
pub open spec fn vis_ok(st: GameState) -> bool {
    &&& st.visible@.len() == st.map.width as int
    &&& forall|i: int|
        0 <= i < st.visible@.len() ==> (#[trigger] st.visible@[i])@.len() == st.map.height as int
}

pub open spec fn visible_at(st: GameState, x: int, y: int) -> bool {
    st.visible@[x]@[y]
}

/// The player: a fighter strictly inside the border, blocking and standing
/// on its own occupancy overlay while alive, with at least one hit point;
/// dead, it blocks nothing.
pub open spec fn player_wf(st: GameState) -> bool {
    let p = st.player;
    &&& interior_pos(p, st.map)
    &&& (p.alive ==> p.blocks)
    &&& (!p.alive ==> !p.blocks)
    &&& fighter_bounds(p)
    &&& p.fighter is Some
    &&& p.fighter.unwrap().on_death == DeathCallback::Player
    &&& (p.alive ==> p.fighter.unwrap().hp >= 1)
    &&& (p.blocks ==> st.map.tile(p.x as int, p.y as int).blocks_movement && !st.map.tile(
        p.x as int,
        p.y as int,
    ).blocks_sight)
    &&& p.item is None
    &&& p.chest is None
    &&& p.ai is None
}

/// A monster: while alive it blocks, acts and fights with at least one hit
/// point; once dead it is inert for good. Blocking monsters stand on their
/// own occupancy overlay.
pub open spec fn npc_wf(e: Entity, m: TileGrid) -> bool {
    &&& interior_pos(e, m)
    &&& fighter_bounds(e)
    &&& (e.alive ==> e.blocks && e.ai == Some(Ai) && e.fighter is Some
        && e.fighter.unwrap().hp >= 1)
    &&& (!e.alive ==> !e.blocks && e.ai is None && e.fighter is None)
    &&& (e.fighter matches Some(f) ==> f.on_death == DeathCallback::Monster)
    &&& (e.blocks ==> m.tile(e.x as int, e.y as int).blocks_movement && !m.tile(
        e.x as int,
        e.y as int,
    ).blocks_sight)
    &&& e.item is None
    &&& e.chest is None
}

/// An object: an inert pickup or the chest, the chest on its own overlay.
pub open spec fn obj_wf(e: Entity, m: TileGrid) -> bool {
    &&& interior_pos(e, m)
    &&& object_shape(e)
    &&& (e.blocks ==> m.tile(e.x as int, e.y as int).blocks_movement && !m.tile(
        e.x as int,
        e.y as int,
    ).blocks_sight)
}

/// No two blocking entities share a tile, across the player, the monsters
/// and the objects.
pub open spec fn blockers_distinct(st: GameState) -> bool {
    &&& forall|i: int|
        0 <= i < st.npcs@.len() && (#[trigger] st.npcs@[i]).blocks && st.player.blocks ==> !(
        st.npcs@[i].x == st.player.x && st.npcs@[i].y == st.player.y)
    &&& forall|i: int|
        0 <= i < st.objects@.len() && (#[trigger] st.objects@[i]).blocks && st.player.blocks
            ==> !(st.objects@[i].x == st.player.x && st.objects@[i].y == st.player.y)
    &&& forall|i: int, j: int|
        0 <= i < j < st.npcs@.len() && (#[trigger] st.npcs@[i]).blocks
            && (#[trigger] st.npcs@[j]).blocks ==> !(st.npcs@[i].x == st.npcs@[j].x
            && st.npcs@[i].y == st.npcs@[j].y)
    &&& forall|i: int, j: int|
        0 <= i < st.npcs@.len() && 0 <= j < st.objects@.len() && (#[trigger] st.npcs@[i]).blocks
            && (#[trigger] st.objects@[j]).blocks ==> !(st.npcs@[i].x == st.objects@[j].x
            && st.npcs@[i].y == st.objects@[j].y)
    &&& forall|i: int, j: int|
        0 <= i < j < st.objects@.len() && (#[trigger] st.objects@[i]).blocks
            && (#[trigger] st.objects@[j]).blocks ==> !(st.objects@[i].x == st.objects@[j].x
            && st.objects@[i].y == st.objects@[j].y)
}

/// The world invariant: every operation of the turn resolver keeps it.
pub open spec fn st_wf(st: GameState) -> bool {
    &&& st.map.wf()
    &&& 3 <= st.map.width <= 0x10000
    &&& 3 <= st.map.height <= 0x10000
    &&& border_blocked(st.map)
    &&& player_wf(st)
    &&& forall|i: int| 0 <= i < st.npcs@.len() ==> npc_wf(#[trigger] st.npcs@[i], st.map)
    &&& forall|i: int| 0 <= i < st.objects@.len() ==> obj_wf(#[trigger] st.objects@[i], st.map)
    &&& blockers_distinct(st)
    &&& vis_ok(st)
    &&& (st.recent_enemy_id matches Some(i) ==> i < st.npcs@.len())
    &&& 0 <= st.inventory.healing_potions
    &&& st.inventory.healing_potions + st.objects@.len() <= 0x10000000
    &&& -0x40000000 <= st.camera_pos.0 <= 0x40000000
    &&& -0x40000000 <= st.camera_pos.1 <= 0x40000000
}

impl GameState {
    /// Query the visibility set computed by the field-of-view capability.
    pub fn is_in_fov(&self, x: i32, y: i32) -> (r: bool)
        requires
            vis_ok(*self),
            self.map.in_bounds(x as int, y as int),
        ensures
            r == visible_at(*self, x as int, y as int),
    {
        self.visible[x as usize][y as usize]
    }

    /// The tracker recomputes only when the player's position differs from
    /// the one used for the previous computation, or when forced.
    pub fn needs_fov_recompute(&self, force: bool) -> (r: bool)
        ensures
            r == (force || self.prev_player_pos != (self.player.x, self.player.y)),
    {
        force || self.prev_player_pos.0 != self.player.x || self.prev_player_pos.1 != self.player.y
    }

    /// Install a freshly computed visibility set: every visible tile becomes
    /// explored (and stays so for good), and the most recent opponent is
    /// dropped the moment its tile is no longer visible.
    pub fn apply_fov(&mut self, vis: Vec<Vec<bool>>)
        requires
            st_wf(*old(self)),
            vis@.len() == old(self).map.width as int,
            forall|i: int|
                0 <= i < vis@.len() ==> (#[trigger] vis@[i])@.len() == old(self).map.height as int,
        ensures
            st_wf(*final(self)),
            final(self).visible == vis,
            final(self).map.width == old(self).map.width,
            final(self).map.height == old(self).map.height,
            forall|x: int, y: int|
                old(self).map.in_bounds(x, y) ==> {
                    let t0 = old(self).map.tile(x, y);
                    #[trigger] final(self).map.tile(x, y) == (if x < old(self).map.width - 1 && y
                        < old(self).map.height - 1 && vis@[x]@[y] {
                        Tile {
                            blocks_movement: t0.blocks_movement,
                            blocks_sight: t0.blocks_sight,
                            explored: true,
                        }
                    } else {
                        t0
                    })
                },
            forall|x: int, y: int|
                old(self).map.in_bounds(x, y) && old(self).map.tile(x, y).explored
                    ==> final(self).map.tile(x, y).explored,
            final(self).recent_enemy_id == (match old(self).recent_enemy_id {
                Some(id) => {
                    let e = old(self).npcs@[id as int];
                    if vis@[e.x as int]@[e.y as int] {
                        Some(id)
                    } else {
                        None
                    }
                },
                None => None,
            }),
            final(self).player == old(self).player,
            final(self).npcs@ == old(self).npcs@,
            final(self).objects@ == old(self).objects@,
            final(self).stage == old(self).stage,
            final(self).inventory == old(self).inventory,
            final(self).prev_player_pos == old(self).prev_player_pos,
            final(self).camera_pos == old(self).camera_pos,
    {
        let width = self.map.width;
        let height = self.map.height;
        let mut x: i32 = 0;
        while x < width - 1
            invariant
                self.map.wf(),
                self.map.width == width,
                self.map.height == height,
                3 <= width <= 0x10000,
                3 <= height <= 0x10000,
                old(self).map.width == width,
                old(self).map.height == height,
                0 <= x <= width - 1,
                vis@.len() == width as int,
                forall|i: int| 0 <= i < vis@.len() ==> (#[trigger] vis@[i])@.len() == height as int,
                forall|i: int, j: int|
                    old(self).map.in_bounds(i, j) ==> {
                        let t0 = old(self).map.tile(i, j);
                        #[trigger] self.map.tile(i, j) == (if i < x as int && j < height - 1
                            && vis@[i]@[j] {
                            Tile {
                                blocks_movement: t0.blocks_movement,
                                blocks_sight: t0.blocks_sight,
                                explored: true,
                            }
                        } else {
                            t0
                        })
                    },
                self.player == old(self).player,
                self.npcs@ == old(self).npcs@,
                self.objects@ == old(self).objects@,
                self.stage == old(self).stage,
                self.inventory == old(self).inventory,
                self.prev_player_pos == old(self).prev_player_pos,
                self.camera_pos == old(self).camera_pos,
                self.recent_enemy_id == old(self).recent_enemy_id,
                self.visible == old(self).visible,
            decreases width - 1 - x,
        {
            let mut y: i32 = 0;
            while y < height - 1
                invariant
                    self.map.wf(),
                    self.map.width == width,
                    self.map.height == height,
                    3 <= width <= 0x10000,
                    3 <= height <= 0x10000,
                    old(self).map.width == width,
                    old(self).map.height == height,
                    0 <= x < width - 1,
                    0 <= y <= height - 1,
                    vis@.len() == width as int,
                    forall|i: int|
                        0 <= i < vis@.len() ==> (#[trigger] vis@[i])@.len() == height as int,
                    forall|i: int, j: int|
                        old(self).map.in_bounds(i, j) ==> {
                            let t0 = old(self).map.tile(i, j);
                            #[trigger] self.map.tile(i, j) == (if (i < x as int || (i == x as int
                                && j < y as int)) && j < height - 1 && vis@[i]@[j] {
                                Tile {
                                    blocks_movement: t0.blocks_movement,
                                    blocks_sight: t0.blocks_sight,
                                    explored: true,
                                }
                            } else {
                                t0
                            })
                        },
                    self.player == old(self).player,
                    self.npcs@ == old(self).npcs@,
                    self.objects@ == old(self).objects@,
                    self.stage == old(self).stage,
                    self.inventory == old(self).inventory,
                    self.prev_player_pos == old(self).prev_player_pos,
                    self.camera_pos == old(self).camera_pos,
                    self.recent_enemy_id == old(self).recent_enemy_id,
                    self.visible == old(self).visible,
                decreases height - 1 - y,
            {
                let vcell = self.visible_cell(&vis, x, y);
                let ghost pre = *self;
                if vcell {
                    let t = self.map.get(x, y);
                    self.map.set(
                        x,
                        y,
                        Tile {
                            blocks_movement: t.blocks_movement,
                            blocks_sight: t.blocks_sight,
                            explored: true,
                        },
                    );
                }
                proof {
                    assert forall|i: int, j: int|
                        old(self).map.in_bounds(i, j) implies #[trigger] self.map.tile(i, j) == (if (
                    i < x as int || (i == x as int && j < y as int + 1)) && j < height - 1
                        && vis@[i]@[j] {
                        let t0 = old(self).map.tile(i, j);
                        Tile {
                            blocks_movement: t0.blocks_movement,
                            blocks_sight: t0.blocks_sight,
                            explored: true,
                        }
                    } else {
                        old(self).map.tile(i, j)
                    }) by {
                        if i == x as int && j == y as int {
                            assert(pre.map.tile(i, j) == old(self).map.tile(i, j));
                        } else {
                            assert(pre.map.in_bounds(i, j));
                            assert(!set![(x as int, y as int)].contains((i, j)));
                            if vcell {
                                assert(pre.map.same_outside(self.map, set![(x as int, y as int)]));
                            }
                            assert(self.map.tile(i, j) == pre.map.tile(i, j));
                        }
                    }
                }
                y = y + 1;
            }
            x = x + 1;
        }
        self.visible = vis;
        match self.recent_enemy_id {
            Some(id) => {
                let e_x = self.npcs[id].x;
                let e_y = self.npcs[id].y;
                if !self.is_in_fov(e_x, e_y) {
                    self.recent_enemy_id = None;
                }
            },
            None => {},
        }
    }

    fn visible_cell(&self, vis: &Vec<Vec<bool>>, x: i32, y: i32) -> (r: bool)
        requires
            0 <= x < vis@.len(),
            vis@[x as int]@.len() > y >= 0,
        ensures
            r == vis@[x as int]@[y as int],
    {
        vis[x as usize][y as usize]
    }

    /// Slide the camera one tile per axis toward the player, with the same
    /// off-by-one bias the display uses.
    pub fn handle_camera(&mut self)
        requires
            st_wf(*old(self)),
        ensures
            st_wf(*final(self)),
            final(self).camera_pos.0 == (if old(self).player.x - old(self).camera_pos.0 < -1 {
                old(self).camera_pos.0 - 1
            } else if old(self).player.x - old(self).camera_pos.0 > 0 {
                old(self).camera_pos.0 + 1
            } else {
                old(self).camera_pos.0 as int
            }),
            final(self).camera_pos.1 == (if old(self).player.y - old(self).camera_pos.1 < -1 {
                old(self).camera_pos.1 - 1
            } else if old(self).player.y - old(self).camera_pos.1 > 0 {
                old(self).camera_pos.1 + 1
            } else {
                old(self).camera_pos.1 as int
            }),
            final(self).player == old(self).player,
            final(self).npcs@ == old(self).npcs@,
            final(self).objects@ == old(self).objects@,
            final(self).map == old(self).map,
            final(self).stage == old(self).stage,
            final(self).inventory == old(self).inventory,
            final(self).visible == old(self).visible,
            final(self).prev_player_pos == old(self).prev_player_pos,
            final(self).recent_enemy_id == old(self).recent_enemy_id,
    {
        if self.player.x - self.camera_pos.0 < -1 {
            self.camera_pos.0 = self.camera_pos.0 - 1;
        } else if self.player.x - self.camera_pos.0 > 0 {
            self.camera_pos.0 = self.camera_pos.0 + 1;
        }
        if self.player.y - self.camera_pos.1 < -1 {
            self.camera_pos.1 = self.camera_pos.1 - 1;
        } else if self.player.y - self.camera_pos.1 > 0 {
            self.camera_pos.1 = self.camera_pos.1 + 1;
        }
    }

    /// A dead player ends the run: the stage becomes GameOver.
    pub fn check_player_death(&mut self)
        ensures
            final(self).stage == (if !old(self).player.alive {
                GameStage::GameOver
            } else {
                old(self).stage
            }),
            final(self).player == old(self).player,
            final(self).npcs@ == old(self).npcs@,
            final(self).objects@ == old(self).objects@,
            final(self).map == old(self).map,
            final(self).inventory == old(self).inventory,
            final(self).visible == old(self).visible,
            final(self).prev_player_pos == old(self).prev_player_pos,
            final(self).camera_pos == old(self).camera_pos,
            final(self).recent_enemy_id == old(self).recent_enemy_id,
            st_wf(*old(self)) ==> st_wf(*final(self)),
    {
        if !self.player.alive {
            self.stage = GameStage::GameOver;
        }
    }

    /// Close out a turn: remember where the player stood for the visibility
    /// tracker's memoization.
    pub fn end_turn(&mut self)
        ensures
            final(self).prev_player_pos == (old(self).player.x, old(self).player.y),
            final(self).player == old(self).player,
            final(self).npcs@ == old(self).npcs@,
            final(self).objects@ == old(self).objects@,
            final(self).map == old(self).map,
            final(self).stage == old(self).stage,
            final(self).inventory == old(self).inventory,
            final(self).visible == old(self).visible,
            final(self).camera_pos == old(self).camera_pos,
            final(self).recent_enemy_id == old(self).recent_enemy_id,
            st_wf(*old(self)) ==> st_wf(*final(self)),
    {
        self.prev_player_pos = (self.player.x, self.player.y);
    }
}

} // verus!
