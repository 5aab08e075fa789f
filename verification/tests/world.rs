use dungeon_core::entity::{DeathCallback, Entity, Fighter, Inventory, Item};
use dungeon_core::gen::generate_map;
use dungeon_core::msg::{MessageLog, Msg, MSG_CAP};
use dungeon_core::rect::Rect;
use dungeon_core::stage::GameStage;
use dungeon_core::state::GameState;
use dungeon_core::tile::{Tile, TileGrid};
use dungeon_core::turn::{apply_command, new_game, resolve_pickups, use_potion, Command, PlayerAction};

fn small_state() -> GameState {
    let mut map = TileGrid::new(12, 12, Tile::wall());
    // carve a floor room in the middle, keep the border walled
    map.set_rect(Rect { x1: 0, y1: 0, x2: 11, y2: 11 }, Tile::empty(), false);
    let mut player = Entity::new(5, 5, '@', "James".to_string(), &mut map, true, true).unwrap();
    player.fighter = Some(Fighter { max_hp: 30, hp: 30, defense: 2, power: 5, on_death: DeathCallback::Player });
    let visible = vec![vec![true; 12]; 12];
    GameState {
        player,
        npcs: Vec::new(),
        objects: Vec::new(),
        map,
        camera_pos: (5, 5),
        visible,
        prev_player_pos: (5, 5),
        stage: GameStage::Playing,
        recent_enemy_id: None,
        inventory: Inventory { healing_potions: 0, has_key: false },
    }
}

fn item_at(x: i32, y: i32, kind: Item) -> Entity {
    let glyph = if kind == Item::Heal { '^' } else { '!' };
    Entity {
        blocks: false,
        x,
        y,
        glyph,
        name: "item".to_string(),
        alive: false,
        fighter: None,
        ai: None,
        item: Some(kind),
        chest: None,
    }
}

#[test]
fn pickups_collect_every_colocated_item() {
    let mut st = small_state();
    let p1 = item_at(5, 5, Item::Heal);
    let p2 = item_at(5, 5, Item::Heal);
    let key = item_at(5, 5, Item::Key);
    let far = item_at(7, 7, Item::Heal);
    st.objects = vec![p1, p2, key, far];
    let mut log = MessageLog::new();
    resolve_pickups(&mut st, &mut log);
    // three items collected in one pass, the list shrinks by three
    assert_eq!(st.objects.len(), 1);
    assert_eq!((st.objects[0].x, st.objects[0].y), (7, 7));
    assert_eq!(st.inventory.healing_potions, 2);
    assert!(st.inventory.has_key);
    assert_eq!(log.entries.len(), 3);
    assert_eq!(log.entries[0], Msg::PickedPotion);
    assert_eq!(log.entries[1], Msg::PickedPotion);
    assert_eq!(log.entries[2], Msg::PickedKey);
}

#[test]
fn pickups_leave_everything_when_nothing_is_underfoot() {
    let mut st = small_state();
    let far = item_at(7, 7, Item::Heal);
    st.objects = vec![far];
    let mut log = MessageLog::new();
    resolve_pickups(&mut st, &mut log);
    assert_eq!(st.objects.len(), 1);
    assert_eq!(st.inventory.healing_potions, 0);
    assert!(!st.inventory.has_key);
    assert!(log.entries.is_empty());
}

#[test]
fn potion_heals_three_clamped() {
    let mut st = small_state();
    st.inventory.healing_potions = 2;
    if let Some(f) = st.player.fighter.as_mut() {
        f.hp = 25;
    }
    let mut log = MessageLog::new();
    use_potion(&mut st, &mut log);
    assert_eq!(st.inventory.healing_potions, 1);
    assert_eq!(st.player.fighter.unwrap().hp, 28);
    assert_eq!(log.entries[0], Msg::UsedPotion { left: 1 });
    use_potion(&mut st, &mut log);
    // 28 + 3 clamps at max_hp 30
    assert_eq!(st.player.fighter.unwrap().hp, 30);
}

#[test]
fn empty_flask_still_costs_the_turn() {
    let mut st = small_state();
    let mut log = MessageLog::new();
    let out = apply_command(&mut st, Command::UsePotion, &mut log);
    assert_eq!(out.action, PlayerAction::TookTurn);
    assert_eq!(log.entries[0], Msg::NoPotionsLeft);
}

#[test]
fn message_log_drops_oldest_at_cap() {
    let mut log = MessageLog::new();
    for i in 0..(MSG_CAP as i32 + 2) {
        log.print_message(Msg::UsedPotion { left: i });
    }
    assert_eq!(log.entries.len(), MSG_CAP);
    assert_eq!(log.entries[0], Msg::UsedPotion { left: 2 });
}

#[test]
fn explored_set_grows_monotonically() {
    let mut st = small_state();
    let mut vis1 = vec![vec![false; 12]; 12];
    vis1[5][5] = true;
    vis1[5][6] = true;
    st.apply_fov(vis1);
    assert!(st.map.get(5, 5).explored);
    assert!(st.map.get(5, 6).explored);
    assert!(!st.map.get(2, 2).explored);
    // a later recompute that no longer sees (5,6) keeps it explored
    let mut vis2 = vec![vec![false; 12]; 12];
    vis2[2][2] = true;
    st.apply_fov(vis2);
    assert!(st.map.get(5, 6).explored);
    assert!(st.map.get(2, 2).explored);
    assert!(!st.is_in_fov(5, 6));
    assert!(st.is_in_fov(2, 2));
}

#[test]
fn recent_opponent_cleared_when_out_of_sight() {
    let mut st = small_state();
    let mut map_ref = &mut st.map;
    let mut g = Entity::new(5, 6, 'g', "Goblin".to_string(), &mut map_ref, true, true).unwrap();
    g.fighter = Some(Fighter { max_hp: 10, hp: 10, defense: 0, power: 3, on_death: DeathCallback::Monster });
    g.ai = Some(dungeon_core::entity::Ai);
    st.npcs = vec![g];
    st.recent_enemy_id = Some(0);
    let mut vis = vec![vec![false; 12]; 12];
    vis[5][5] = true; // the goblin's tile (5,6) is not visible
    st.apply_fov(vis);
    assert_eq!(st.recent_enemy_id, None);
}

#[test]
fn fov_memoization_tracks_player_position() {
    let st = small_state();
    assert!(!st.needs_fov_recompute(false));
    assert!(st.needs_fov_recompute(true));
    let mut st2 = small_state();
    st2.prev_player_pos = (4, 5);
    assert!(st2.needs_fov_recompute(false));
}

#[test]
fn camera_slides_one_tile_toward_player() {
    let mut st = small_state();
    st.camera_pos = (2, 9);
    st.handle_camera();
    assert_eq!(st.camera_pos, (3, 8));
}

#[test]
fn stage_machine_runs_title_to_game_over() {
    let mut st = small_state();
    st.stage = GameStage::Title;
    let mut log = MessageLog::new();
    let out = apply_command(&mut st, Command::Confirm, &mut log);
    assert_eq!(st.stage, GameStage::Playing);
    assert_eq!(out.action, PlayerAction::TookTurn);
    assert!(!out.fire_win_hook);
    // kill the player, the death check flips the stage
    st.player.alive = false;
    st.check_player_death();
    assert_eq!(st.stage, GameStage::GameOver);
}

#[test]
fn win_hook_fires_exactly_on_the_won_transition() {
    let mut st = small_state();
    st.inventory.has_key = true;
    let mut chest = Entity::new(5, 4, '&', "chest".to_string(), &mut st.map, true, false).unwrap();
    chest.chest = Some(dungeon_core::entity::Chest);
    st.objects = vec![chest];
    let mut log = MessageLog::new();
    let out = apply_command(&mut st, Command::MoveUp, &mut log);
    assert_eq!(st.stage, GameStage::Won);
    assert!(out.fire_win_hook);
    // Won is terminal: another command neither re-fires nor leaves it
    let out2 = apply_command(&mut st, Command::MoveUp, &mut log);
    assert_eq!(st.stage, GameStage::Won);
    assert!(!out2.fire_win_hook);
    let out3 = apply_command(&mut st, Command::Confirm, &mut log);
    assert_eq!(out3.action, PlayerAction::Exit);
}

#[test]
fn escape_always_exits() {
    let mut st = small_state();
    let mut log = MessageLog::new();
    let out = apply_command(&mut st, Command::Exit, &mut log);
    assert_eq!(out.action, PlayerAction::Exit);
}

#[test]
fn generated_dungeon_meets_its_acceptance_bounds() {
    let g = generate_map(40, 30).expect("generation within budget");
    let (map, rooms, start) = g;
    // density lies in the acceptance band [0.4, 0.6] of the full area
    let mut walls: i64 = 0;
    for x in 0..39 {
        for y in 0..29 {
            if map.get(x, y).is_wall() {
                walls += 1;
            }
        }
    }
    let total: i64 = 39 * 29;
    assert!(5 * walls >= 2 * total && 5 * walls <= 3 * total);
    // no two accepted rooms intersect, boundary included
    assert!(!rooms.is_empty());
    for i in 0..rooms.len() {
        for j in (i + 1)..rooms.len() {
            assert!(!rooms[i].intersects_with(&rooms[j]));
        }
    }
    // the start position is the first room's centre, on carved floor
    assert_eq!(start, rooms[0].center());
    assert!(!map.get(start.0, start.1).blocks_movement);
    // every room centre is reachable from the start over carved floor
    let mut seen = vec![vec![false; 30]; 40];
    let mut queue = vec![start];
    seen[start.0 as usize][start.1 as usize] = true;
    while let Some((cx, cy)) = queue.pop() {
        for (dx, dy) in [(0, 1), (0, -1), (1, 0), (-1, 0)] {
            let (mx, my) = (cx + dx, cy + dy);
            if mx >= 0 && mx < 40 && my >= 0 && my < 30
                && !seen[mx as usize][my as usize]
                && !map.get(mx, my).blocks_movement
            {
                seen[mx as usize][my as usize] = true;
                queue.push((mx, my));
            }
        }
    }
    for room in &rooms {
        let c = room.center();
        assert!(seen[c.0 as usize][c.1 as usize], "room centre cut off from start");
    }
}

#[test]
fn new_game_builds_a_playable_world() {
    let st = new_game().expect("a fresh run within budget");
    assert_eq!(st.stage, GameStage::Title);
    assert!(st.player.alive);
    assert_eq!(st.inventory.healing_potions, 0);
    assert!(!st.inventory.has_key);
    assert!(st.recent_enemy_id.is_none());
    // the player stands on its own occupancy overlay
    let t = st.map.get(st.player.x, st.player.y);
    assert!(t.blocks_movement && !t.blocks_sight);
    // the object list holds the chest
    assert!(st.objects.iter().any(|o| o.chest.is_some()));
}

#[test]
fn visible_monster_chases_then_attacks() {
    let mut st = small_state();
    let mut g = Entity::new(5, 8, 'g', "Goblin".to_string(), &mut st.map, true, true).unwrap();
    g.fighter = Some(Fighter { max_hp: 10, hp: 10, defense: 0, power: 3, on_death: DeathCallback::Monster });
    g.ai = Some(dungeon_core::entity::Ai);
    st.npcs = vec![g];
    let mut log = MessageLog::new();
    // two tiles below the player: one chase step along the y axis
    dungeon_core::turn::ai_phase(&mut st, &mut log);
    assert_eq!((st.npcs[0].x, st.npcs[0].y), (5, 7));
    dungeon_core::turn::ai_phase(&mut st, &mut log);
    assert_eq!((st.npcs[0].x, st.npcs[0].y), (5, 6));
    // adjacent now: melee through the ordinary path, damage 3 - 2 = 1
    dungeon_core::turn::ai_phase(&mut st, &mut log);
    assert_eq!((st.npcs[0].x, st.npcs[0].y), (5, 6));
    assert_eq!(st.player.fighter.unwrap().hp, 29);
}

#[test]
fn unseen_monster_stays_put() {
    let mut st = small_state();
    st.visible = vec![vec![false; 12]; 12];
    let mut g = Entity::new(5, 8, 'g', "Goblin".to_string(), &mut st.map, true, true).unwrap();
    g.fighter = Some(Fighter { max_hp: 10, hp: 10, defense: 0, power: 3, on_death: DeathCallback::Monster });
    g.ai = Some(dungeon_core::entity::Ai);
    st.npcs = vec![g];
    let mut log = MessageLog::new();
    dungeon_core::turn::ai_phase(&mut st, &mut log);
    assert_eq!((st.npcs[0].x, st.npcs[0].y), (5, 8));
    assert_eq!(st.player.fighter.unwrap().hp, 30);
}

#[test]
fn slain_player_stops_blocking_its_tile() {
    let mut st = small_state();
    if let Some(f) = st.player.fighter.as_mut() {
        f.hp = 1;
        f.defense = 0;
    }
    let mut g = Entity::new(5, 6, 'g', "Goblin".to_string(), &mut st.map, true, true).unwrap();
    g.fighter = Some(Fighter { max_hp: 10, hp: 10, defense: 0, power: 3, on_death: DeathCallback::Monster });
    g.ai = Some(dungeon_core::entity::Ai);
    st.npcs = vec![g];
    let mut log = MessageLog::new();
    // the adjacent goblin's turn kills the player
    dungeon_core::turn::ai_phase(&mut st, &mut log);
    assert!(!st.player.alive);
    assert!(!st.player.blocks);
    assert_eq!(st.player.glyph, '%');
    // the corpse tile is restored to floor
    assert!(!st.map.get(5, 5).blocks_movement);
}

#[test]
fn dead_monster_never_acts_again() {
    let mut st = small_state();
    let mut g = Entity::new(5, 6, 'g', "Goblin".to_string(), &mut st.map, true, true).unwrap();
    g.fighter = Some(Fighter { max_hp: 10, hp: 2, defense: 0, power: 3, on_death: DeathCallback::Monster });
    g.ai = Some(dungeon_core::entity::Ai);
    st.npcs = vec![g];
    let mut log = MessageLog::new();
    // kill it with one downward attack
    let out = apply_command(&mut st, Command::MoveDown, &mut log);
    assert_eq!(out.action, PlayerAction::TookTurn);
    assert!(!st.npcs[0].alive);
    let corpse_pos = (st.npcs[0].x, st.npcs[0].y);
    // the corpse takes no turns and never blocks or revives
    dungeon_core::turn::ai_phase(&mut st, &mut log);
    dungeon_core::turn::ai_phase(&mut st, &mut log);
    assert!(!st.npcs[0].alive);
    assert!(!st.npcs[0].blocks);
    assert!(st.npcs[0].ai.is_none());
    assert_eq!((st.npcs[0].x, st.npcs[0].y), corpse_pos);
    assert_eq!(st.player.fighter.unwrap().hp, 30);
}
