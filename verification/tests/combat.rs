use dungeon_core::entity::{DeathCallback, Entity, Fighter};
use dungeon_core::msg::{MessageLog, Msg};
use dungeon_core::stage::GameStage;
use dungeon_core::tile::{Tile, TileGrid};

fn fighter(max_hp: i32, hp: i32, defense: i32, power: i32, cb: DeathCallback) -> Fighter {
    Fighter { max_hp, hp, defense, power, on_death: cb }
}

fn spawn(map: &mut TileGrid, x: i32, y: i32, glyph: char, name: &str, blocks: bool, alive: bool) -> Entity {
    Entity::new(x, y, glyph, name.to_string(), map, blocks, alive).unwrap()
}

#[test]
fn scenario_player_kills_goblin() {
    // player at (5,5), hp 10/10, power 5, defense 0; goblin at (5,6), hp 10/10,
    // power 3, defense 0
    let mut map = TileGrid::new(12, 12, Tile::empty());
    let mut player = spawn(&mut map, 5, 5, '@', "James", true, true);
    player.fighter = Some(fighter(10, 10, 0, 5, DeathCallback::Player));
    let mut goblin = spawn(&mut map, 5, 6, 'g', "Goblin", true, true);
    goblin.fighter = Some(fighter(10, 10, 0, 3, DeathCallback::Monster));
    goblin.ai = Some(dungeon_core::entity::Ai);
    let mut enemies = vec![goblin];
    let mut objects: Vec<Entity> = Vec::new();
    let mut stage = GameStage::Playing;
    let mut log = MessageLog::new();

    // player attacks downward: damage 5, goblin hp -> 5, still alive
    let r = player.move_or_attack(0, 1, &mut map, &mut enemies, &mut objects, false, &mut stage, &mut log);
    assert_eq!(r, Some(0));
    assert_eq!(enemies[0].fighter.unwrap().hp, 5);
    assert!(enemies[0].alive);
    assert_eq!((player.x, player.y), (5, 5));

    // goblin's turn (adjacent): damage 3, player hp -> 7
    let mut g = enemies.remove(0);
    g.attack(&mut player, &mut log);
    enemies.insert(0, g);
    assert_eq!(player.fighter.unwrap().hp, 7);

    // player attacks again: damage 5, goblin hp -> 0, death transition fires
    let r2 = player.move_or_attack(0, 1, &mut map, &mut enemies, &mut objects, false, &mut stage, &mut log);
    assert_eq!(r2, None);
    assert!(!enemies[0].alive);
    assert!(!enemies[0].blocks);
    assert!(enemies[0].ai.is_none());
    assert!(enemies[0].fighter.is_none());
    assert_eq!(enemies[0].glyph, '.');
    // the corpse's tile is walkable again
    assert!(!map.get(5, 6).blocks_movement);
}

#[test]
fn troll_corpse_glyph() {
    let mut map = TileGrid::new(8, 8, Tile::empty());
    let mut troll = spawn(&mut map, 3, 3, 'T', "Troll", true, true);
    troll.fighter = Some(fighter(16, 1, 0, 4, DeathCallback::Monster));
    let mut log = MessageLog::new();
    troll.take_damage(5, &mut log);
    assert_eq!(troll.glyph, '%');
    assert!(!troll.alive);
}

#[test]
fn damage_is_power_minus_defense_clamped_at_zero() {
    let mut map = TileGrid::new(8, 8, Tile::empty());
    let mut a = spawn(&mut map, 1, 1, '@', "a", true, true);
    a.fighter = Some(fighter(10, 10, 0, 2, DeathCallback::Player));
    let mut d = spawn(&mut map, 1, 2, 'g', "d", true, true);
    d.fighter = Some(fighter(10, 10, 5, 0, DeathCallback::Monster));
    let mut log = MessageLog::new();
    // power 2 - defense 5 <= 0: no effect, no state change
    a.attack(&mut d, &mut log);
    assert_eq!(d.fighter.unwrap().hp, 10);
    assert!(matches!(log.entries[0], Msg::NoEffect { .. }));
}

#[test]
fn healing_never_exceeds_max_hp() {
    let mut map = TileGrid::new(8, 8, Tile::empty());
    let mut p = spawn(&mut map, 1, 1, '@', "p", true, true);
    p.fighter = Some(fighter(10, 8, 0, 5, DeathCallback::Player));
    let mut log = MessageLog::new();
    // healing goes through the same clamped path as damage
    p.take_damage(-5, &mut log);
    assert_eq!(p.fighter.unwrap().hp, 10);
}

#[test]
fn player_death_keeps_fighter_and_marks_corpse() {
    let mut map = TileGrid::new(8, 8, Tile::empty());
    let mut p = spawn(&mut map, 1, 1, '@', "James", true, true);
    p.fighter = Some(fighter(10, 2, 0, 5, DeathCallback::Player));
    let mut log = MessageLog::new();
    p.take_damage(7, &mut log);
    assert!(!p.alive);
    assert!(!p.blocks);
    assert_eq!(p.glyph, '%');
    assert!(p.fighter.is_some());
    assert_eq!(p.fighter.unwrap().hp, -5);
    assert_eq!(log.entries[0], Msg::PlayerDied);
}

#[test]
fn dead_entity_is_inert_under_further_damage() {
    let mut map = TileGrid::new(8, 8, Tile::empty());
    let mut g = spawn(&mut map, 2, 2, 'g', "Goblin", true, true);
    g.fighter = Some(fighter(10, 1, 0, 3, DeathCallback::Monster));
    let mut log = MessageLog::new();
    g.take_damage(4, &mut log);
    assert!(!g.alive);
    let snapshot_glyph = g.glyph;
    // a dead monster has no fighter: more damage changes nothing
    g.take_damage(100, &mut log);
    assert!(!g.alive);
    assert!(!g.blocks);
    assert_eq!(g.glyph, snapshot_glyph);
    assert!(g.fighter.is_none());
}

#[test]
fn attack_into_wall_only_complains() {
    let mut map = TileGrid::new(8, 8, Tile::empty());
    map.set(4, 3, Tile::wall());
    let mut p = spawn(&mut map, 3, 3, '@', "p", true, true);
    p.fighter = Some(fighter(10, 10, 0, 5, DeathCallback::Player));
    let mut enemies: Vec<Entity> = Vec::new();
    let mut objects: Vec<Entity> = Vec::new();
    let mut stage = GameStage::Playing;
    let mut log = MessageLog::new();
    let r = p.move_or_attack(1, 0, &mut map, &mut enemies, &mut objects, false, &mut stage, &mut log);
    assert_eq!(r, None);
    assert_eq!((p.x, p.y), (3, 3));
    assert_eq!(log.entries[0], Msg::AttackWall);
}

#[test]
fn move_onto_free_tile_updates_overlay() {
    let mut map = TileGrid::new(8, 8, Tile::empty());
    let mut p = spawn(&mut map, 3, 3, '@', "p", true, true);
    assert!(map.get(3, 3).blocks_movement);
    let mut enemies: Vec<Entity> = Vec::new();
    let mut objects: Vec<Entity> = Vec::new();
    let mut stage = GameStage::Playing;
    let mut log = MessageLog::new();
    let r = p.move_or_attack(1, 0, &mut map, &mut enemies, &mut objects, false, &mut stage, &mut log);
    assert_eq!(r, None);
    assert_eq!((p.x, p.y), (4, 3));
    assert!(!map.get(3, 3).blocks_movement);
    assert!(map.get(4, 3).blocks_movement);
    assert!(!map.get(4, 3).blocks_sight);
}

#[test]
fn move_preserves_explored_flag() {
    let mut map = TileGrid::new(8, 8, Tile::empty());
    let mut p = spawn(&mut map, 3, 3, '@', "p", true, true);
    map.get_mut(3, 3).explored = true;
    map.get_mut(4, 3).explored = true;
    let mut log = MessageLog::new();
    let mut enemies: Vec<Entity> = Vec::new();
    let mut objects: Vec<Entity> = Vec::new();
    let mut stage = GameStage::Playing;
    p.move_or_attack(1, 0, &mut map, &mut enemies, &mut objects, false, &mut stage, &mut log);
    assert!(map.get(3, 3).explored);
    assert!(map.get(4, 3).explored);
}

#[test]
fn chest_needs_the_key() {
    let mut map = TileGrid::new(8, 8, Tile::empty());
    let mut p = spawn(&mut map, 3, 3, '@', "p", true, true);
    p.fighter = Some(fighter(10, 10, 0, 5, DeathCallback::Player));
    let mut chest = spawn(&mut map, 3, 2, '&', "chest", true, false);
    chest.chest = Some(dungeon_core::entity::Chest);
    let mut enemies: Vec<Entity> = Vec::new();
    let mut objects = vec![chest];
    let mut stage = GameStage::Playing;
    let mut log = MessageLog::new();

    // without the key: a flavour message, stage stays Playing
    let r = p.move_or_attack(0, -1, &mut map, &mut enemies, &mut objects, false, &mut stage, &mut log);
    assert_eq!(r, None);
    assert_eq!(stage, GameStage::Playing);
    assert_eq!(log.entries[0], Msg::NeedKey);

    // with the key: the stage becomes Won
    let r2 = p.move_or_attack(0, -1, &mut map, &mut enemies, &mut objects, true, &mut stage, &mut log);
    assert_eq!(r2, None);
    assert_eq!(stage, GameStage::Won);
    assert_eq!(log.entries[1], Msg::ChestOpening);
    assert_eq!(log.entries[2], Msg::PressStartGift);
}

#[test]
fn move_towards_prefers_larger_axis_and_x_on_ties() {
    let mut map = TileGrid::new(12, 12, Tile::empty());
    let mut m = spawn(&mut map, 2, 2, 'g', "g", true, true);
    m.move_towards(6, 4, &mut map);
    assert_eq!((m.x, m.y), (3, 2));
    let mut m2 = spawn(&mut map, 8, 8, 'g', "g", true, true);
    m2.move_towards(6, 6, &mut map);
    assert_eq!((m2.x, m2.y), (7, 8));
}

#[test]
fn blocked_chase_step_is_lost() {
    let mut map = TileGrid::new(12, 12, Tile::empty());
    map.set(3, 2, Tile::wall());
    let mut m = spawn(&mut map, 2, 2, 'g', "g", true, true);
    m.move_towards(6, 2, &mut map);
    assert_eq!((m.x, m.y), (2, 2));
}

#[test]
fn next_to_is_axis_adjacency_only() {
    let mut map = TileGrid::new(8, 8, Tile::empty());
    let a = spawn(&mut map, 3, 3, '@', "a", false, true);
    let b = spawn(&mut map, 3, 4, 'g', "b", false, true);
    let c = spawn(&mut map, 4, 4, 'g', "c", false, true);
    assert!(a.next_to(&b));
    assert!(!a.next_to(&c)); // diagonal does not count
    assert!(!a.next_to(&a));
}
