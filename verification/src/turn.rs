use vstd::prelude::*;
use vstd::string::StringExecFns;
use crate::entity::{
    adjacent4, after_damage, damage_msgs, is_first_at, lemma_first_total, melee_msgs,
    melee_outcome, moved_map, none_at, step_toward, with_pos, Ai, Chest, DeathCallback, Entity,
    Fighter, Inventory, Item,
};
use crate::gen::{
    border_blocked, generate_map, generate_monsters, generate_objects, lemma_center_bounds,
    SCREEN_HEIGHT, SCREEN_WIDTH,
};
use crate::msg::{log_push, MessageLog, Msg};
use crate::stage::GameStage;
use crate::state::{
    blockers_distinct, npc_wf, obj_wf, player_wf, st_wf, visible_at, GameState,
};
use crate::tile::{vacant_mark, Tile, TileGrid};

verus! {

/// Full map size: the generated grid plus the screen-sized margin the
/// display scrolls over.
pub const MAP_WIDTH: i32 = 80 + SCREEN_WIDTH + 1;

pub const MAP_HEIGHT: i32 = 45 + SCREEN_HEIGHT + 1;

/// What one accepted input did with the turn.
#[derive(Clone, Copy, Debug, PartialEq, Eq, Structural)]
pub enum PlayerAction {
    TookTurn,
    DidntTakeTurn,
    Exit,
}

/// One semantic input, already decoded by the input device.
#[derive(Clone, Copy, Debug, PartialEq, Eq, Structural)]
pub enum Command {
    MoveUp,
    MoveDown,
    MoveLeft,
    MoveRight,
    UsePotion,
    Wait,
    Confirm,
    Exit,
}

/// What the surrounding program owes after one command: fire the external
/// win hook exactly when `fire_win_hook` says so, and rebuild its
/// field-of-view state when `regenerated` says so.
#[derive(Clone, Copy, Debug, PartialEq, Eq, Structural)]
pub struct CommandOutcome {
    pub action: PlayerAction,
    pub fire_win_hook: bool,
    pub regenerated: bool,
}

/// Visibility grid lookup.
pub open spec fn vis_at(vis: Seq<Vec<bool>>, x: int, y: int) -> bool {
    vis[x]@[y]
}

/// One monster's turn as a relation between the world before and after:
/// exactly the policy `Ai::take_turn` resolves for monster `id`. A monster
/// acts only while visible; adjacent to a living player it attacks through
/// the ordinary melee path, else it steps one tile toward the player,
/// losing the step when that tile is blocked.
pub open spec fn monster_acts(
    vis: Seq<Vec<bool>>,
    pre_npcs: Seq<Entity>,
    pre_player: Entity,
    pre_map: TileGrid,
    pre_msgs: Seq<Msg>,
    post_npcs: Seq<Entity>,
    post_player: Entity,
    post_map: TileGrid,
    post_msgs: Seq<Msg>,
    id: int,
) -> bool {
    let m = pre_npcs[id];
    let p = pre_player;
    &&& post_npcs.len() == pre_npcs.len()
    &&& forall|i: int| 0 <= i < pre_npcs.len() && i != id ==> post_npcs[i] == pre_npcs[i]
    &&& post_map.width == pre_map.width
    &&& post_map.height == pre_map.height
    &&& if vis_at(vis, m.x as int, m.y as int) {
        if !adjacent4(m.x as int, m.y as int, p.x as int, p.y as int) {
            let step = step_toward(m.x as int, m.y as int, p.x as int, p.y as int);
            let nx = m.x + step.0;
            let ny = m.y + step.1;
            &&& post_player == p
            &&& post_msgs == pre_msgs
            &&& (if !pre_map.tile(nx, ny).blocks_movement {
                post_npcs == pre_npcs.update(id, with_pos(m, nx, ny)) && (if m.blocks {
                    moved_map(pre_map, post_map, m.x as int, m.y as int, nx, ny)
                } else {
                    post_map == pre_map
                })
            } else {
                post_npcs == pre_npcs && post_map == pre_map
            })
        } else if p.fighter is Some && p.fighter.unwrap().hp > 0 {
            &&& post_npcs == pre_npcs
            &&& post_player == melee_outcome(m, p)
            &&& post_msgs == melee_msgs(m, p, pre_msgs)
            &&& (if p.blocks && !melee_outcome(m, p).blocks {
                post_map.tile(p.x as int, p.y as int) == vacant_mark(
                    pre_map.tile(p.x as int, p.y as int),
                ) && pre_map.same_outside(post_map, set![(p.x as int, p.y as int)])
            } else {
                post_map == pre_map
            })
        } else {
            &&& post_npcs == pre_npcs
            &&& post_player == p
            &&& post_msgs == pre_msgs
            &&& post_map == pre_map
        }
    } else {
        &&& post_npcs == pre_npcs
        &&& post_player == p
        &&& post_msgs == pre_msgs
        &&& post_map == pre_map
    }
}

/// One slot of the phase: the monster at `k1` acts if its will to act is
/// present when its turn comes, else the world is untouched.
pub open spec fn ai_step(
    vis: Seq<Vec<bool>>,
    npcs_m: Seq<Entity>,
    p_m: Entity,
    m_m: TileGrid,
    s_m: Seq<Msg>,
    npcs1: Seq<Entity>,
    p1: Entity,
    m1: TileGrid,
    s1: Seq<Msg>,
    k1: int,
) -> bool {
    if 0 <= k1 < npcs_m.len() && npcs_m[k1].ai is Some {
        monster_acts(vis, npcs_m, p_m, m_m, s_m, npcs1, p1, m1, s1, k1)
    } else {
        npcs1 == npcs_m && p1 == p_m && m1 == m_m && s1 == s_m
    }
}

/// The in-order fold of one-monster turns over the indices below `k`.
pub open spec fn ai_phase_rel(
    vis: Seq<Vec<bool>>,
    npcs0: Seq<Entity>,
    p0: Entity,
    m0: TileGrid,
    s0: Seq<Msg>,
    npcs1: Seq<Entity>,
    p1: Entity,
    m1: TileGrid,
    s1: Seq<Msg>,
    k: int,
) -> bool
    decreases k,
{
    if k <= 0 {
        npcs1 == npcs0 && p1 == p0 && m1 == m0 && s1 == s0
    } else {
        exists|npcs_m: Seq<Entity>, p_m: Entity, m_m: TileGrid, s_m: Seq<Msg>|
            #[trigger] ai_step(vis, npcs_m, p_m, m_m, s_m, npcs1, p1, m1, s1, k - 1)
                && ai_phase_rel(vis, npcs0, p0, m0, s0, npcs_m, p_m, m_m, s_m, k - 1)
    }
}

/// Chaining one more monster turn onto a prefix of the fold.
proof fn lemma_ai_phase_step(
    vis: Seq<Vec<bool>>,
    npcs0: Seq<Entity>,
    p0: Entity,
    m0: TileGrid,
    s0: Seq<Msg>,
    npcs_m: Seq<Entity>,
    p_m: Entity,
    m_m: TileGrid,
    s_m: Seq<Msg>,
    npcs1: Seq<Entity>,
    p1: Entity,
    m1: TileGrid,
    s1: Seq<Msg>,
    k: int,
)
    requires
        k >= 1,
        ai_phase_rel(vis, npcs0, p0, m0, s0, npcs_m, p_m, m_m, s_m, k - 1),
        ai_step(vis, npcs_m, p_m, m_m, s_m, npcs1, p1, m1, s1, k - 1),
    ensures
        ai_phase_rel(vis, npcs0, p0, m0, s0, npcs1, p1, m1, s1, k),
{
}

impl Ai {
    /// One monster's turn: a monster acts only while the player's field of
    /// view covers its tile. Adjacent to a living player it attacks through
    /// the ordinary melee path, and a slain player's tile is restored to
    /// floor; otherwise it steps one tile toward the player along the axis
    /// with the larger delta, losing the step when that tile is blocked.
    pub fn take_turn(monster_id: usize, state: &mut GameState, messages: &mut MessageLog)
        requires
            st_wf(*old(state)),
            monster_id < old(state).npcs@.len(),
        ensures
            st_wf(*final(state)),
            final(state).npcs@.len() == old(state).npcs@.len(),
            forall|i: int|
                0 <= i < old(state).npcs@.len() && i != monster_id as int ==> final(state).npcs@[i] == old(state).npcs@[i],
            final(state).objects@ == old(state).objects@,
            final(state).stage == old(state).stage,
            final(state).inventory == old(state).inventory,
            final(state).visible@ == old(state).visible@,
            final(state).recent_enemy_id == old(state).recent_enemy_id,
            final(state).prev_player_pos == old(state).prev_player_pos,
            final(state).camera_pos == old(state).camera_pos,
            final(state).map.width == old(state).map.width,
            final(state).map.height == old(state).map.height,
            forall|x: int, y: int|
                old(state).map.in_bounds(x, y) && old(state).map.tile(x, y).explored
                    ==> final(state).map.tile(x, y).explored,
            final(state).player.x == old(state).player.x,
            final(state).player.y == old(state).player.y,
            final(state).player.alive ==> old(state).player.alive,
            monster_acts(
                old(state).visible@,
                old(state).npcs@,
                old(state).player,
                old(state).map,
                old(messages).entries@,
                final(state).npcs@,
                final(state).player,
                final(state).map,
                final(messages).entries@,
                monster_id as int,
            ),
    {
        let m_x = state.npcs[monster_id].x;
        let m_y = state.npcs[monster_id].y;
        if state.is_in_fov(m_x, m_y) {
            let mut monster = state.npcs.remove(monster_id);
            let adjacent = monster.next_to(&state.player);
            if !adjacent {
                monster.move_towards(state.player.x, state.player.y, &mut state.map);
            } else {
                let player_can_fight = match state.player.fighter {
                    Some(f) => f.hp > 0,
                    None => false,
                };
                if player_can_fight {
                    let was_blocks = state.player.blocks;
                    monster.attack(&mut state.player, messages);
                    if was_blocks && !state.player.blocks {
                        let px = state.player.x;
                        let py = state.player.y;
                        state.map.set_vacant(px, py);
                    }
                }
            }
            state.npcs.insert(monster_id, monster);
            proof {
                let m = old(state).npcs@[monster_id as int];
                let p = old(state).player;
                if !adjacent4(m.x as int, m.y as int, p.x as int, p.y as int) {
                    let step = step_toward(m.x as int, m.y as int, p.x as int, p.y as int);
                    let nx = m.x + step.0;
                    let ny = m.y + step.1;
                    if !old(state).map.tile(nx, ny).blocks_movement {
                        assert(state.npcs@ =~= old(state).npcs@.update(
                            monster_id as int,
                            with_pos(m, nx, ny),
                        ));
                    } else {
                        assert(state.npcs@ =~= old(state).npcs@);
                    }
                } else {
                    assert(state.npcs@ =~= old(state).npcs@);
                }
                if !adjacent4(m.x as int, m.y as int, p.x as int, p.y as int) {
                    let step = step_toward(m.x as int, m.y as int, p.x as int, p.y as int);
                    let nx = m.x + step.0;
                    let ny = m.y + step.1;
                    if !old(state).map.tile(nx, ny).blocks_movement && m.blocks {
                        assert(!(p.x == m.x && p.y == m.y));
                        assert(!(p.x as int == nx && p.y as int == ny));
                        assert(state.map.tile(p.x as int, p.y as int) == old(state).map.tile(
                            p.x as int,
                            p.y as int,
                        ));
                    }
                } else if p.fighter is Some && p.fighter.unwrap().hp > 0 {
                    assert(state.player == melee_outcome(m, p));
                    assert(state.player.x == p.x && state.player.y == p.y);
                    assert(state.player.fighter is Some);
                }
                assert(player_wf(*state));
                assert forall|i: int| 0 <= i < state.npcs@.len() implies npc_wf(
                    #[trigger] state.npcs@[i],
                    state.map,
                ) by {
                    assert(npc_wf(old(state).npcs@[i], old(state).map));
                    if old(state).npcs@[i].blocks && p.blocks {
                        assert(!(old(state).npcs@[i].x == p.x && old(state).npcs@[i].y == p.y));
                    }
                }
                assert forall|j: int| 0 <= j < state.objects@.len() implies obj_wf(
                    #[trigger] state.objects@[j],
                    state.map,
                ) by {
                    assert(obj_wf(old(state).objects@[j], old(state).map));
                    if old(state).objects@[j].blocks && p.blocks {
                        assert(!(old(state).objects@[j].x == p.x && old(state).objects@[j].y
                            == p.y));
                    }
                }
                assert(border_blocked(state.map));
                assert(blockers_distinct(*state));
            }
        }
    }
}

/// Run the monster policy once for every monster, in list order. Dead
/// monsters have lost their will to act and are left untouched for good.
pub fn ai_phase(state: &mut GameState, messages: &mut MessageLog)
    requires
        st_wf(*old(state)),
    ensures
        st_wf(*final(state)),
        final(state).npcs@.len() == old(state).npcs@.len(),
        forall|i: int|
            0 <= i < old(state).npcs@.len() && !(#[trigger] old(state).npcs@[i]).alive ==> final(state).npcs@[i] == old(state).npcs@[i],
        final(state).objects@ == old(state).objects@,
        final(state).stage == old(state).stage,
        final(state).inventory == old(state).inventory,
        final(state).visible@ == old(state).visible@,
        final(state).recent_enemy_id == old(state).recent_enemy_id,
        final(state).prev_player_pos == old(state).prev_player_pos,
        final(state).camera_pos == old(state).camera_pos,
        final(state).map.width == old(state).map.width,
        final(state).map.height == old(state).map.height,
        forall|x: int, y: int|
            old(state).map.in_bounds(x, y) && old(state).map.tile(x, y).explored ==> final(state).map.tile(x, y).explored,
        final(state).player.x == old(state).player.x,
        final(state).player.y == old(state).player.y,
        final(state).player.alive ==> old(state).player.alive,
        ai_phase_rel(
            old(state).visible@,
            old(state).npcs@,
            old(state).player,
            old(state).map,
            old(messages).entries@,
            final(state).npcs@,
            final(state).player,
            final(state).map,
            final(messages).entries@,
            old(state).npcs@.len() as int,
        ),
{
    let mut id: usize = 0;
    while id < state.npcs.len()
        invariant
            st_wf(*state),
            state.npcs@.len() == old(state).npcs@.len(),
            0 <= id <= state.npcs@.len(),
            forall|i: int|
                0 <= i < old(state).npcs@.len() && !(#[trigger] old(state).npcs@[i]).alive
                    ==> state.npcs@[i] == old(state).npcs@[i],
            state.objects@ == old(state).objects@,
            state.stage == old(state).stage,
            state.inventory == old(state).inventory,
            state.visible@ == old(state).visible@,
            state.recent_enemy_id == old(state).recent_enemy_id,
            state.prev_player_pos == old(state).prev_player_pos,
            state.camera_pos == old(state).camera_pos,
            state.map.width == old(state).map.width,
            state.map.height == old(state).map.height,
            forall|x: int, y: int|
                old(state).map.in_bounds(x, y) && old(state).map.tile(x, y).explored
                    ==> state.map.tile(x, y).explored,
            state.player.x == old(state).player.x,
            state.player.y == old(state).player.y,
            state.player.alive ==> old(state).player.alive,
            ai_phase_rel(
                old(state).visible@,
                old(state).npcs@,
                old(state).player,
                old(state).map,
                old(messages).entries@,
                state.npcs@,
                state.player,
                state.map,
                messages.entries@,
                id as int,
            ),
        decreases state.npcs@.len() - id,
    {
        let ghost pre_npcs = state.npcs@;
        let ghost pre_p = state.player;
        let ghost pre_m = state.map;
        let ghost pre_s = messages.entries@;
        if state.npcs[id].ai.is_some() {
            Ai::take_turn(id, state, messages);
        }
        proof {
            assert(ai_phase_rel(
                old(state).visible@,
                old(state).npcs@,
                old(state).player,
                old(state).map,
                old(messages).entries@,
                pre_npcs,
                pre_p,
                pre_m,
                pre_s,
                id as int,
            ));
            assert(state.visible@ == old(state).visible@);
            if 0 <= (id as int) < pre_npcs.len() && pre_npcs[id as int].ai is Some {
                assert(monster_acts(
                    old(state).visible@,
                    pre_npcs,
                    pre_p,
                    pre_m,
                    pre_s,
                    state.npcs@,
                    state.player,
                    state.map,
                    messages.entries@,
                    id as int,
                ));
            } else {
                assert(state.npcs@ == pre_npcs && state.player == pre_p && state.map == pre_m
                    && messages.entries@ == pre_s);
            }
            assert(ai_step(
                old(state).visible@,
                pre_npcs,
                pre_p,
                pre_m,
                pre_s,
                state.npcs@,
                state.player,
                state.map,
                messages.entries@,
                id as int,
            ));
            lemma_ai_phase_step(
                old(state).visible@,
                old(state).npcs@,
                old(state).player,
                old(state).map,
                old(messages).entries@,
                pre_npcs,
                pre_p,
                pre_m,
                pre_s,
                state.npcs@,
                state.player,
                state.map,
                messages.entries@,
                id as int + 1,
            );
        }
        id = id + 1;
    }
}

/// An object the player is standing on and can pocket.
pub open spec fn picked(e: Entity, px: int, py: int) -> bool {
    e.x == px && e.y == py && e.item is Some
}

/// The objects that survive a pickup pass over `objs[k..]`, in order.
pub open spec fn kept_from(objs: Seq<Entity>, k: int, px: int, py: int) -> Seq<Entity>
    decreases objs.len() - k,
{
    if k < 0 || k >= objs.len() {
        Seq::empty()
    } else if picked(objs[k], px, py) {
        kept_from(objs, k + 1, px, py)
    } else {
        seq![objs[k]] + kept_from(objs, k + 1, px, py)
    }
}

/// How many objects of `objs[k..]` the pass collects.
pub open spec fn picked_count_from(objs: Seq<Entity>, k: int, px: int, py: int) -> int
    decreases objs.len() - k,
{
    if k < 0 || k >= objs.len() {
        0
    } else {
        (if picked(objs[k], px, py) {
            1int
        } else {
            0int
        }) + picked_count_from(objs, k + 1, px, py)
    }
}

/// How many healing potions the pass collects.
pub open spec fn heal_count_from(objs: Seq<Entity>, k: int, px: int, py: int) -> int
    decreases objs.len() - k,
{
    if k < 0 || k >= objs.len() {
        0
    } else {
        (if picked(objs[k], px, py) && objs[k].item == Some(Item::Heal) {
            1int
        } else {
            0int
        }) + heal_count_from(objs, k + 1, px, py)
    }
}

/// Whether the pass collects the key.
pub open spec fn key_from(objs: Seq<Entity>, k: int, px: int, py: int) -> bool
    decreases objs.len() - k,
{
    if k < 0 || k >= objs.len() {
        false
    } else {
        (picked(objs[k], px, py) && objs[k].item == Some(Item::Key)) || key_from(
            objs,
            k + 1,
            px,
            py,
        )
    }
}

/// The announcements the pass appends, one per collected item, in scan
/// order.
pub open spec fn pickup_msgs_from(
    objs: Seq<Entity>,
    k: int,
    px: int,
    py: int,
    s: Seq<Msg>,
) -> Seq<Msg>
    decreases objs.len() - k,
{
    if k < 0 || k >= objs.len() {
        s
    } else {
        let s2 = if picked(objs[k], px, py) {
            log_push(
                s,
                if objs[k].item == Some(Item::Heal) {
                    Msg::PickedPotion
                } else {
                    Msg::PickedKey
                },
            )
        } else {
            s
        };
        pickup_msgs_from(objs, k + 1, px, py, s2)
    }
}

/// Law: a pickup pass removes exactly the collected items from the object
/// list: what is kept plus what is pocketed accounts for every object.
pub proof fn lemma_pickup_counts(objs: Seq<Entity>, k: int, px: int, py: int)
    requires
        0 <= k <= objs.len(),
    ensures
        kept_from(objs, k, px, py).len() + picked_count_from(objs, k, px, py) == objs.len() - k,
        0 <= heal_count_from(objs, k, px, py) <= picked_count_from(objs, k, px, py),
        0 <= picked_count_from(objs, k, px, py) <= objs.len() - k,
    decreases objs.len() - k,
{
    if k < objs.len() {
        lemma_pickup_counts(objs, k + 1, px, py);
    }
}

/// Collect every item object on the player's tile in one pass: potions
/// raise the potion count, a key sets the key flag, and each collected
/// object leaves the list.
pub fn resolve_pickups(state: &mut GameState, messages: &mut MessageLog)
    requires
        st_wf(*old(state)),
    ensures
        st_wf(*final(state)),
        final(state).objects@ == kept_from(
            old(state).objects@,
            0,
            old(state).player.x as int,
            old(state).player.y as int,
        ),
        final(state).inventory.healing_potions == old(state).inventory.healing_potions
            + heal_count_from(
            old(state).objects@,
            0,
            old(state).player.x as int,
            old(state).player.y as int,
        ),
        final(state).inventory.has_key == (old(state).inventory.has_key || key_from(
            old(state).objects@,
            0,
            old(state).player.x as int,
            old(state).player.y as int,
        )),
        final(messages).entries@ == pickup_msgs_from(
            old(state).objects@,
            0,
            old(state).player.x as int,
            old(state).player.y as int,
            old(messages).entries@,
        ),
        final(state).player == old(state).player,
        final(state).npcs@ == old(state).npcs@,
        final(state).map == old(state).map,
        final(state).stage == old(state).stage,
        final(state).visible@ == old(state).visible@,
        final(state).recent_enemy_id == old(state).recent_enemy_id,
        final(state).prev_player_pos == old(state).prev_player_pos,
        final(state).camera_pos == old(state).camera_pos,
{
    let px = state.player.x;
    let py = state.player.y;
    let ghost objs0 = state.objects@;
    let mut drained: Vec<Entity> = Vec::new();
    core::mem::swap(&mut drained, &mut state.objects);
    let mut kept: Vec<Entity> = Vec::new();
    let ghost mut kept_idx: Seq<int> = Seq::empty();
    let mut heal_acc: i32 = 0;
    let mut got_key: bool = false;
    let ghost n = objs0.len();
    let ghost mut idx: int = 0;
    while drained.len() > 0
        invariant
            0 <= idx <= n,
            n == objs0.len(),
            drained@ =~= objs0.subrange(idx, n as int),
            px == old(state).player.x,
            py == old(state).player.y,
            kept@ + kept_from(objs0, idx, px as int, py as int) =~= kept_from(
                objs0,
                0,
                px as int,
                py as int,
            ),
            heal_acc + heal_count_from(objs0, idx, px as int, py as int) == heal_count_from(
                objs0,
                0,
                px as int,
                py as int,
            ),
            (got_key || key_from(objs0, idx, px as int, py as int)) == key_from(
                objs0,
                0,
                px as int,
                py as int,
            ),
            pickup_msgs_from(objs0, idx, px as int, py as int, messages.entries@)
                == pickup_msgs_from(objs0, 0, px as int, py as int, old(messages).entries@),
            kept_idx.len() == kept@.len(),
            forall|a: int|
                0 <= a < kept@.len() ==> 0 <= #[trigger] kept_idx[a] < idx && kept@[a]
                    == objs0[kept_idx[a]],
            forall|a: int, b: int| 0 <= a < b < kept_idx.len() ==> kept_idx[a] < kept_idx[b],
            0 <= heal_acc,
            heal_acc + kept@.len() <= idx,
            n <= 0x10000000,
        decreases drained@.len(),
    {
        let o = drained.remove(0);
        proof {
            assert(o == objs0[idx]);
            assert(drained@ =~= objs0.subrange(idx + 1, n as int));
        }
        if o.x == px && o.y == py && o.item.is_some() {
            match o.item {
                Some(Item::Heal) => {
                    heal_acc = heal_acc + 1;
                    messages.print_message(Msg::PickedPotion);
                },
                Some(Item::Key) => {
                    got_key = true;
                    messages.print_message(Msg::PickedKey);
                },
                None => {},
            }
        } else {
            kept.push(o);
            proof {
                kept_idx = kept_idx.push(idx);
            }
        }
        proof {
            idx = idx + 1;
        }
    }
    state.objects = kept;
    proof {
        lemma_pickup_counts(objs0, 0, px as int, py as int);
        assert(state.objects@ =~= kept_from(objs0, 0, px as int, py as int));
    }
    if heal_acc > 0 {
        state.inventory.healing_potions = state.inventory.healing_potions + heal_acc;
    }
    if got_key {
        state.inventory.has_key = true;
    }
    proof {
        assert forall|a: int| 0 <= a < state.objects@.len() implies obj_wf(
            #[trigger] state.objects@[a],
            state.map,
        ) by {
            assert(obj_wf(objs0[kept_idx[a]], old(state).map));
        }
        assert forall|j: int|
            0 <= j < state.objects@.len() && (#[trigger] state.objects@[j]).blocks
            && state.player.blocks implies !(state.objects@[j].x == state.player.x
            && state.objects@[j].y == state.player.y) by {
            assert(state.objects@[j] == objs0[kept_idx[j]]);
        }
        assert forall|i: int, j: int|
            0 <= i < state.npcs@.len() && 0 <= j < state.objects@.len() && (
            #[trigger] state.npcs@[i]).blocks && (#[trigger] state.objects@[j]).blocks implies !(
        state.npcs@[i].x == state.objects@[j].x && state.npcs@[i].y == state.objects@[j].y) by {
            assert(state.objects@[j] == objs0[kept_idx[j]]);
        }
        assert forall|i: int, j: int|
            0 <= i < j < state.objects@.len() && (#[trigger] state.objects@[i]).blocks && (
            #[trigger] state.objects@[j]).blocks implies !(state.objects@[i].x
            == state.objects@[j].x && state.objects@[i].y == state.objects@[j].y) by {
            assert(kept_idx[i] < kept_idx[j]);
            assert(state.objects@[i] == objs0[kept_idx[i]]);
            assert(state.objects@[j] == objs0[kept_idx[j]]);
        }
        assert(blockers_distinct(*state));
    }
}


/// What drinking a potion does: one potion heals three through the clamped
/// damage path, an empty flask only complains; nothing else of the world
/// moves.
pub open spec fn potion_post(
    pre: GameState,
    post: GameState,
    pre_msgs: Seq<Msg>,
    post_msgs: Seq<Msg>,
) -> bool {
    &&& post.npcs@ == pre.npcs@
    &&& post.objects@ == pre.objects@
    &&& post.map == pre.map
    &&& post.stage == pre.stage
    &&& post.visible@ == pre.visible@
    &&& post.recent_enemy_id == pre.recent_enemy_id
    &&& post.prev_player_pos == pre.prev_player_pos
    &&& post.camera_pos == pre.camera_pos
    &&& post.inventory.has_key == pre.inventory.has_key
    &&& if pre.inventory.healing_potions > 0 {
        &&& post.inventory.healing_potions == pre.inventory.healing_potions - 1
        &&& post.player == after_damage(pre.player, -3)
        &&& post_msgs == log_push(
            damage_msgs(pre.player, -3, pre_msgs),
            Msg::UsedPotion { left: (pre.inventory.healing_potions - 1) as i32 },
        )
    } else {
        &&& post.inventory.healing_potions == pre.inventory.healing_potions
        &&& post.player == pre.player
        &&& post_msgs == log_push(pre_msgs, Msg::NoPotionsLeft)
    }
}

/// What one move command does to the world, as `move_or_attack` resolves it
/// for the player: onto a free tile the player steps there and nothing else
/// changes; onto a blocked tile the player stays put (melee, the chest or a
/// complaint resolve there), the stage moving only to Won and only with the
/// key in hand.
pub open spec fn move_command_post(
    pre: GameState,
    post: GameState,
    pre_msgs: Seq<Msg>,
    post_msgs: Seq<Msg>,
    dx: int,
    dy: int,
) -> bool {
    &&& post.stage == pre.stage || (post.stage == GameStage::Won && pre.inventory.has_key)
    &&& post.inventory == pre.inventory
    &&& post.visible@ == pre.visible@
    &&& post.prev_player_pos == pre.prev_player_pos
    &&& post.camera_pos == pre.camera_pos
    &&& (pre.map.tile(pre.player.x + dx, pre.player.y + dy).blocks_movement ==> post.player.x
        == pre.player.x && post.player.y == pre.player.y && post.objects@ == pre.objects@)
    &&& (!pre.map.tile(pre.player.x + dx, pre.player.y + dy).blocks_movement ==> post.player
        == with_pos(pre.player, pre.player.x + dx, pre.player.y + dy) && post.stage == pre.stage
        && post.npcs@ == pre.npcs@ && post.objects@ == pre.objects@ && post_msgs == pre_msgs)
}

/// Drink a healing potion if one is left: three points of healing through
/// the same clamped damage path, never past max_hp. With none left the turn
/// is still consumed and only a complaint is logged.
pub fn use_potion(state: &mut GameState, messages: &mut MessageLog)
    requires
        st_wf(*old(state)),
    ensures
        st_wf(*final(state)),
        potion_post(*old(state), *final(state), old(messages).entries@, final(messages).entries@),
{
    if state.inventory.healing_potions > 0 {
        state.inventory.healing_potions = state.inventory.healing_potions - 1;
        state.player.take_damage(-3, messages);
        messages.print_message(Msg::UsedPotion { left: state.inventory.healing_potions });
    } else {
        messages.print_message(Msg::NoPotionsLeft);
    }
}

/// One player move or attack toward `(dx, dy)`, with the most recent
/// opponent updated when melee leaves one alive; the world invariant is
/// kept, and the stage can only change to Won, through the chest with the
/// key in hand.
fn player_move(state: &mut GameState, dx: i32, dy: i32, messages: &mut MessageLog)
    requires
        st_wf(*old(state)),
        -1 <= dx <= 1,
        -1 <= dy <= 1,
    ensures
        st_wf(*final(state)),
        move_command_post(
            *old(state),
            *final(state),
            old(messages).entries@,
            final(messages).entries@,
            dx as int,
            dy as int,
        ),
{
    let has_key = state.inventory.has_key;
    let r = state.player.move_or_attack(
        dx,
        dy,
        &mut state.map,
        &mut state.npcs,
        &mut state.objects,
        has_key,
        &mut state.stage,
        messages,
    );
    match r {
        Some(id) => {
            state.recent_enemy_id = Some(id);
        },
        None => {},
    }
    proof {
        let p = old(state).player;
        let nx = p.x + dx;
        let ny = p.y + dy;
        if !old(state).map.tile(nx, ny).blocks_movement {
            if p.blocks {
                assert(moved_map(old(state).map, state.map, p.x as int, p.y as int, nx, ny));
                assert(state.map.tile(nx, ny).blocks_movement);
            } else {
                assert(state.map == old(state).map);
            }
            assert forall|i: int| 0 <= i < state.npcs@.len() implies npc_wf(
                #[trigger] state.npcs@[i],
                state.map,
            ) by {
                assert(npc_wf(old(state).npcs@[i], old(state).map));
            }
            assert forall|j: int| 0 <= j < state.objects@.len() implies obj_wf(
                #[trigger] state.objects@[j],
                state.map,
            ) by {
                assert(obj_wf(old(state).objects@[j], old(state).map));
            }
        } else {
            assert(state.player == p);
            lemma_first_total(old(state).npcs@, nx, ny);
            if none_at(old(state).npcs@, nx, ny) {
                assert(state.npcs@ == old(state).npcs@);
                assert(state.map == old(state).map);
                lemma_first_total(old(state).objects@, nx, ny);
            } else {
                let i = choose|i: int| is_first_at(old(state).npcs@, nx, ny, i);
                let a = old(state).npcs@[i];
                let out = melee_outcome(p, a);
                assert(state.npcs@ == old(state).npcs@.update(i, out));
                assert(npc_wf(a, old(state).map));
                if a.blocks && !out.blocks {
                    assert(state.map.tile(nx, ny) == vacant_mark(old(state).map.tile(nx, ny)));
                } else {
                    assert(state.map == old(state).map);
                }
                assert(npc_wf(out, state.map));
                assert forall|k: int| 0 <= k < state.npcs@.len() implies npc_wf(
                    #[trigger] state.npcs@[k],
                    state.map,
                ) by {
                    assert(npc_wf(old(state).npcs@[k], old(state).map));
                    if k != i && old(state).npcs@[k].blocks && a.blocks {
                        assert(!(old(state).npcs@[k].x == a.x && old(state).npcs@[k].y == a.y));
                    }
                }
                assert forall|k: int| 0 <= k < state.objects@.len() implies obj_wf(
                    #[trigger] state.objects@[k],
                    state.map,
                ) by {
                    assert(obj_wf(old(state).objects@[k], old(state).map));
                    if old(state).objects@[k].blocks && a.blocks {
                        assert(!(old(state).objects@[k].x == a.x && old(state).objects@[k].y
                            == a.y));
                    }
                }
            }
        }
        assert(border_blocked(state.map));
        assert(blockers_distinct(*state));
        assert(player_wf(*state));
    }
}

/// Law: a blocking monster's tile blocks movement, so by `move_or_attack`'s
/// contract a move onto an adjacent monster resolves as an attack and never
/// changes the actor's position.
pub proof fn lemma_adjacent_npc_blocks(st: GameState, i: int, dx: int, dy: int)
    requires
        st_wf(st),
        0 <= i < st.npcs@.len(),
        st.npcs@[i].blocks,
        st.npcs@[i].x == st.player.x + dx,
        st.npcs@[i].y == st.player.y + dy,
    ensures
        st.map.tile(st.player.x + dx, st.player.y + dy).blocks_movement,
{
    assert(npc_wf(st.npcs@[i], st.map));
}

/// Start a fresh run: generate the dungeon, embed it in the scroll margin,
/// populate monsters and objects, and stand the player on the start room's
/// centre. None only when a placement or the density budget fails, which
/// the caller may simply retry.
pub fn new_game() -> (r: Option<GameState>)
    ensures
        r matches Some(st) ==> {
            &&& st_wf(st)
            &&& st.stage == GameStage::Title
            &&& st.inventory.healing_potions == 0
            &&& !st.inventory.has_key
            &&& st.recent_enemy_id is None
            &&& st.player.alive
            &&& exists|i: int|
                0 <= i < st.objects@.len() && (#[trigger] st.objects@[i]).chest == Some(Chest)
            &&& forall|i: int, j: int|
                0 <= i < j < st.objects@.len() ==> !((#[trigger] st.objects@[i]).item == Some(
                    Item::Key,
                ) && (#[trigger] st.objects@[j]).item == Some(Item::Key))
        },
{
    let gen_w = MAP_WIDTH - SCREEN_WIDTH - 1;
    let gen_h = MAP_HEIGHT - SCREEN_HEIGHT - 1;
    let generated = generate_map(gen_w, gen_h);
    let (initial_map, rooms, start) = match generated {
        Some(g) => g,
        None => {
            return None;
        },
    };
    let ox = SCREEN_WIDTH / 2;
    let oy = SCREEN_HEIGHT / 2;
    let px = start.0 + ox;
    let py = start.1 + oy;
    proof {
        lemma_center_bounds(rooms@[0], gen_w as int, gen_h as int);
    }
    let mut map = TileGrid::new(MAP_WIDTH, MAP_HEIGHT, Tile::wall());
    let mut y: i32 = 0;
    while y < gen_h
        invariant
            map.wf(),
            map.width == MAP_WIDTH,
            map.height == MAP_HEIGHT,
            initial_map.wf(),
            initial_map.width == gen_w,
            initial_map.height == gen_h,
            gen_w == MAP_WIDTH - SCREEN_WIDTH - 1,
            gen_h == MAP_HEIGHT - SCREEN_HEIGHT - 1,
            ox == 16,
            oy == 12,
            0 <= y <= gen_h,
            forall|i: int, j: int|
                0 <= i < gen_w as int && 0 <= j < y as int ==> #[trigger] map.tile(
                    i + 16,
                    j + 12,
                ) == initial_map.tile(i, j),
            forall|i: int, j: int|
                map.in_bounds(i, j) && !(16 <= i < 16 + gen_w as int && 12 <= j < 12 + y as int)
                    ==> #[trigger] map.tile(i, j) == (Tile {
                    blocks_movement: true,
                    blocks_sight: true,
                    explored: false,
                }),
        decreases gen_h - y,
    {
        let mut x: i32 = 0;
        while x < gen_w
            invariant
                map.wf(),
                map.width == MAP_WIDTH,
                map.height == MAP_HEIGHT,
                initial_map.wf(),
                initial_map.width == gen_w,
                initial_map.height == gen_h,
                gen_w == MAP_WIDTH - SCREEN_WIDTH - 1,
                gen_h == MAP_HEIGHT - SCREEN_HEIGHT - 1,
                ox == 16,
                oy == 12,
                0 <= y < gen_h,
                0 <= x <= gen_w,
                forall|i: int, j: int|
                    0 <= i < gen_w as int && (0 <= j < y as int || (j == y as int && 0 <= i
                        < x as int)) ==> #[trigger] map.tile(i + 16, j + 12) == initial_map.tile(
                        i,
                        j,
                    ),
                forall|i: int, j: int|
                    map.in_bounds(i, j) && !(16 <= i < 16 + gen_w as int && 12 <= j < 12
                        + y as int) && !(12 + y as int == j && 16 <= i < 16 + x as int)
                        ==> #[trigger] map.tile(i, j) == (Tile {
                        blocks_movement: true,
                        blocks_sight: true,
                        explored: false,
                    }),
            decreases gen_w - x,
        {
            let t = initial_map.get(x, y);
            map.set(x + ox, y + oy, t);
            x = x + 1;
        }
        y = y + 1;
    }
    let npcs = generate_monsters(&rooms, &mut map);
    let ghost m2 = map;
    let objects = match generate_objects(&rooms, &mut map) {
        Some(o) => o,
        None => {
            return None;
        },
    };
    let ghost m3 = map;
    let player_cand = Entity::new(px, py, '@', String::from_str("James"), &mut map, true, true);
    let mut player = match player_cand {
        Some(p) => p,
        None => {
            return None;
        },
    };
    player.fighter = Some(
        Fighter { max_hp: 30, hp: 30, defense: 2, power: 5, on_death: DeathCallback::Player },
    );
    let mut visible: Vec<Vec<bool>> = Vec::new();
    let mut vx: i32 = 0;
    while vx < MAP_WIDTH
        invariant
            0 <= vx <= MAP_WIDTH,
            visible@.len() == vx as int,
            forall|i: int|
                0 <= i < vx as int ==> (#[trigger] visible@[i])@.len() == MAP_HEIGHT as int,
        decreases MAP_WIDTH - vx,
    {
        let mut col: Vec<bool> = Vec::new();
        let mut vy: i32 = 0;
        while vy < MAP_HEIGHT
            invariant
                0 <= vy <= MAP_HEIGHT,
                col@.len() == vy as int,
            decreases MAP_HEIGHT - vy,
        {
            col.push(false);
            vy = vy + 1;
        }
        visible.push(col);
        vx = vx + 1;
    }
    let state = GameState {
        player,
        npcs,
        objects,
        map,
        camera_pos: (px, py),
        visible,
        prev_player_pos: (px, py),
        stage: GameStage::Title,
        recent_enemy_id: None,
        inventory: Inventory { healing_potions: 0, has_key: false },
    };
    proof {
        assert(border_blocked(state.map));
        assert forall|i: int| 0 <= i < state.npcs@.len() implies npc_wf(
            #[trigger] state.npcs@[i],
            state.map,
        ) by {
            let e = state.npcs@[i];
            assert(m2.tile(e.x as int, e.y as int).blocks_movement && !m2.tile(
                e.x as int,
                e.y as int,
            ).blocks_sight);
            assert(m3.tile(e.x as int, e.y as int) == m2.tile(e.x as int, e.y as int));
        }
        assert forall|j: int| 0 <= j < state.objects@.len() implies obj_wf(
            #[trigger] state.objects@[j],
            state.map,
        ) by {
            let o = state.objects@[j];
            if o.blocks {
                assert(m3.tile(o.x as int, o.y as int).blocks_movement && !m3.tile(
                    o.x as int,
                    o.y as int,
                ).blocks_sight);
            }
        }
        assert(blockers_distinct(state));
        assert(player_wf(state));
        assert(st_wf(state));
        assert(state.objects@[state.objects@.len() - 1].chest == Some(Chest));
    }
    Some(state)
}

/// Resolve one decoded input against the current stage: movement, potion
/// use and waiting consume a turn while Playing; Confirm starts the run
/// from the title, restarts it after a game over, and leaves after a win.
/// The external win hook is owed exactly when `fire_win_hook` comes back
/// true: on the one transition from Playing to Won.
pub fn apply_command(state: &mut GameState, cmd: Command, messages: &mut MessageLog) -> (out:
    CommandOutcome)
    requires
        st_wf(*old(state)),
    ensures
        st_wf(*final(state)),
        final(state).stage == old(state).stage || (old(state).stage == GameStage::Playing && final(state).stage == GameStage::Won) || (old(state).stage == GameStage::Title && final(state).stage
            == GameStage::Playing && cmd == Command::Confirm) || (old(state).stage
            == GameStage::GameOver && final(state).stage == GameStage::Title && cmd
            == Command::Confirm),
        out.fire_win_hook == (old(state).stage == GameStage::Playing && final(state).stage
            == GameStage::Won),
        old(state).stage == GameStage::Won ==> final(state).stage == GameStage::Won,
        cmd == Command::Exit ==> out.action == PlayerAction::Exit,
        out.regenerated ==> old(state).stage == GameStage::GameOver && cmd == Command::Confirm
            && final(state).stage == GameStage::Title,
        old(state).stage == GameStage::Playing && (cmd == Command::MoveUp || cmd
            == Command::MoveDown || cmd == Command::MoveLeft || cmd == Command::MoveRight || cmd
            == Command::UsePotion || cmd == Command::Wait) ==> out.action == PlayerAction::TookTurn,
        old(state).stage == GameStage::Playing ==> {
            &&& (cmd == Command::MoveUp ==> move_command_post(
                *old(state),
                *final(state),
                old(messages).entries@,
                final(messages).entries@,
                0,
                -1,
            ))
            &&& (cmd == Command::MoveDown ==> move_command_post(
                *old(state),
                *final(state),
                old(messages).entries@,
                final(messages).entries@,
                0,
                1,
            ))
            &&& (cmd == Command::MoveLeft ==> move_command_post(
                *old(state),
                *final(state),
                old(messages).entries@,
                final(messages).entries@,
                -1,
                0,
            ))
            &&& (cmd == Command::MoveRight ==> move_command_post(
                *old(state),
                *final(state),
                old(messages).entries@,
                final(messages).entries@,
                1,
                0,
            ))
            &&& (cmd == Command::UsePotion ==> potion_post(
                *old(state),
                *final(state),
                old(messages).entries@,
                final(messages).entries@,
            ))
            &&& (cmd == Command::Wait ==> *final(state) == *old(state) && final(messages).entries@ == log_push(old(messages).entries@, Msg::Waited))
            &&& (cmd == Command::Confirm ==> *final(state) == *old(state) && final(messages).entries@ == old(messages).entries@)
        },
        old(state).stage == GameStage::Title && cmd == Command::Confirm ==> {
            &&& final(state).stage == GameStage::Playing
            &&& final(messages).entries@ == Seq::<Msg>::empty()
            &&& final(state).player == old(state).player
            &&& final(state).npcs@ == old(state).npcs@
            &&& final(state).objects@ == old(state).objects@
            &&& final(state).map == old(state).map
            &&& final(state).inventory == old(state).inventory
            &&& final(state).visible@ == old(state).visible@
            &&& final(state).recent_enemy_id == old(state).recent_enemy_id
            &&& final(state).prev_player_pos == old(state).prev_player_pos
            &&& final(state).camera_pos == old(state).camera_pos
        },
        out.regenerated ==> final(state).inventory.healing_potions == 0 && !final(state).inventory.has_key && final(state).recent_enemy_id is None && final(state).player.alive
            && final(messages).entries@ == log_push(Seq::<Msg>::empty(), Msg::NewGameIntro),
        out.action == PlayerAction::DidntTakeTurn && !out.regenerated ==> *final(state) == *old(state) && final(messages).entries@ == old(messages).entries@,
        out.action == PlayerAction::Exit ==> *final(state) == *old(state) && final(messages).entries@ == old(messages).entries@,
{
    match cmd {
        Command::Exit => CommandOutcome {
            action: PlayerAction::Exit,
            fire_win_hook: false,
            regenerated: false,
        },
        _ => {
            match state.stage {
                GameStage::Playing => {
                    match cmd {
                        Command::MoveUp | Command::MoveDown | Command::MoveLeft
                            | Command::MoveRight => {
                            let (dx, dy): (i32, i32) = match cmd {
                                Command::MoveUp => (0, -1),
                                Command::MoveDown => (0, 1),
                                Command::MoveLeft => (-1, 0),
                                _ => (1, 0),
                            };
                            player_move(state, dx, dy, messages);
                            let won = matches!(state.stage, GameStage::Won);
                            CommandOutcome {
                                action: PlayerAction::TookTurn,
                                fire_win_hook: won,
                                regenerated: false,
                            }
                        },
                        Command::UsePotion => {
                            use_potion(state, messages);
                            CommandOutcome {
                                action: PlayerAction::TookTurn,
                                fire_win_hook: false,
                                regenerated: false,
                            }
                        },
                        Command::Wait => {
                            messages.print_message(Msg::Waited);
                            CommandOutcome {
                                action: PlayerAction::TookTurn,
                                fire_win_hook: false,
                                regenerated: false,
                            }
                        },
                        _ => CommandOutcome {
                            action: PlayerAction::DidntTakeTurn,
                            fire_win_hook: false,
                            regenerated: false,
                        },
                    }
                },
                GameStage::Title => {
                    if matches!(cmd, Command::Confirm) {
                        state.stage = GameStage::Playing;
                        messages.clear();
                        CommandOutcome {
                            action: PlayerAction::TookTurn,
                            fire_win_hook: false,
                            regenerated: false,
                        }
                    } else {
                        CommandOutcome {
                            action: PlayerAction::DidntTakeTurn,
                            fire_win_hook: false,
                            regenerated: false,
                        }
                    }
                },
                GameStage::GameOver => {
                    if matches!(cmd, Command::Confirm) {
                        match new_game() {
                            Some(fresh) => {
                                *state = fresh;
                                messages.clear();
                                messages.print_message(Msg::NewGameIntro);
                                CommandOutcome {
                                    action: PlayerAction::TookTurn,
                                    fire_win_hook: false,
                                    regenerated: true,
                                }
                            },
                            None => CommandOutcome {
                                action: PlayerAction::DidntTakeTurn,
                                fire_win_hook: false,
                                regenerated: false,
                            },
                        }
                    } else {
                        CommandOutcome {
                            action: PlayerAction::DidntTakeTurn,
                            fire_win_hook: false,
                            regenerated: false,
                        }
                    }
                },
                GameStage::Won => {
                    if matches!(cmd, Command::Confirm) {
                        CommandOutcome {
                            action: PlayerAction::Exit,
                            fire_win_hook: false,
                            regenerated: false,
                        }
                    } else {
                        CommandOutcome {
                            action: PlayerAction::DidntTakeTurn,
                            fire_win_hook: false,
                            regenerated: false,
                        }
                    }
                },
            }
        },
    }
}

} // verus!
