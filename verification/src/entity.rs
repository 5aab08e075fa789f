use vstd::prelude::*;
use vstd::math::{abs, max, min};
use crate::msg::{log_push, MessageLog, Msg};
use crate::stage::{open_chest, GameStage};
use crate::tile::{occupied_mark, vacant_mark, Tile, TileGrid};

verus! {

/// Which death transition a fighter gets when its hp reaches zero.
#[derive(Clone, Copy, Debug, PartialEq, Eq, Structural)]
pub enum DeathCallback {
    Player,
    Monster,
}

/// Combat capability. `hp` never ends above `max_hp`; both directions of
/// damage go through the same clamped path.
#[derive(Clone, Copy, Debug, PartialEq, Eq, Structural)]
pub struct Fighter {
    pub max_hp: i32,
    pub hp: i32,
    pub defense: i32,
    pub power: i32,
    pub on_death: DeathCallback,
}

#[derive(Clone, Copy, Debug, PartialEq, Eq, Structural)]
pub struct Chest;

#[derive(Clone, Copy, Debug, PartialEq, Eq, Structural)]
pub enum Item {
    Heal,
    Key,
}

/// What the player carries: a potion count and the chest key flag.
pub struct Inventory {
    pub healing_potions: i32,
    pub has_key: bool,
}

/// Marker for entities that act on their own turn.
#[derive(Clone, Copy, Debug, PartialEq, Eq, Structural)]
pub struct Ai;

/// One thing in the world: the player, a monster, an item or the chest.
pub struct Entity {
    pub blocks: bool,
    pub x: i32,
    pub y: i32,
    pub glyph: char,
    pub name: String,
    pub alive: bool,
    pub fighter: Option<Fighter>,
    pub ai: Option<Ai>,
    pub item: Option<Item>,
    pub chest: Option<Chest>,
}

/// Machine-size bounds on fighter numbers, so combat arithmetic fits in i32.
pub open spec fn fighter_bounds(e: Entity) -> bool {
    e.fighter matches Some(f) ==> {
        &&& -0x20000000 <= f.hp <= 0x10000000
        &&& 0 <= f.max_hp <= 0x10000000
        &&& 0 <= f.defense <= 0x10000000
        &&& 0 <= f.power <= 0x10000000
        &&& f.hp <= f.max_hp
    }
}

/// Attack strength, zero without a fighter.
pub open spec fn power0(e: Entity) -> int {
    match e.fighter {
        Some(f) => f.power as int,
        None => 0,
    }
}

/// Damage reduction, zero without a fighter.
pub open spec fn defense0(e: Entity) -> int {
    match e.fighter {
        Some(f) => f.defense as int,
        None => 0,
    }
}

pub open spec fn with_pos(e: Entity, x: int, y: int) -> Entity {
    Entity {
        blocks: e.blocks,
        x: x as i32,
        y: y as i32,
        glyph: e.glyph,
        name: e.name,
        alive: e.alive,
        fighter: e.fighter,
        ai: e.ai,
        item: e.item,
        chest: e.chest,
    }
}

pub open spec fn with_hp(e: Entity, hp: int) -> Entity {
    Entity {
        blocks: e.blocks,
        x: e.x,
        y: e.y,
        glyph: e.glyph,
        name: e.name,
        alive: e.alive,
        fighter: Some(
            Fighter {
                max_hp: e.fighter.unwrap().max_hp,
                hp: hp as i32,
                defense: e.fighter.unwrap().defense,
                power: e.fighter.unwrap().power,
                on_death: e.fighter.unwrap().on_death,
            },
        ),
        ai: e.ai,
        item: e.item,
        chest: e.chest,
    }
}

/// The player's death transition: a corpse glyph, no longer alive and no
/// longer blocking its tile. The fighter record stays.
pub open spec fn player_dead_spec(e: Entity) -> Entity {
    Entity {
        blocks: false,
        x: e.x,
        y: e.y,
        glyph: '%',
        name: e.name,
        alive: false,
        fighter: e.fighter,
        ai: e.ai,
        item: e.item,
        chest: e.chest,
    }
}

/// A monster's death transition: corpse glyph, stops blocking, loses its
/// fighter and its will to act. Irreversible and idempotent.
pub open spec fn monster_dead_spec(e: Entity) -> Entity {
    Entity {
        blocks: false,
        x: e.x,
        y: e.y,
        glyph: if e.glyph == 'T' {
            '%'
        } else {
            '.'
        },
        name: e.name,
        alive: false,
        fighter: None,
        ai: None,
        item: e.item,
        chest: e.chest,
    }
}

/// What `take_damage` leaves of an entity: hp drops by `damage`, clamped so
/// it never exceeds max_hp; at zero or below, the configured death
/// transition fires. Without a fighter nothing happens.
pub open spec fn after_damage(e: Entity, damage: int) -> Entity {
    match e.fighter {
        Some(f) => {
            let hp2 = min(f.hp - damage, f.max_hp as int);
            let e2 = with_hp(e, hp2);
            if hp2 <= 0 {
                match f.on_death {
                    DeathCallback::Player => player_dead_spec(e2),
                    DeathCallback::Monster => monster_dead_spec(e2),
                }
            } else {
                e2
            }
        },
        None => e,
    }
}

/// The messages `take_damage` appends to `s` (the death announcements).
pub open spec fn damage_msgs(e: Entity, damage: int, s: Seq<Msg>) -> Seq<Msg> {
    match e.fighter {
        Some(f) => {
            if min(f.hp - damage, f.max_hp as int) <= 0 {
                match f.on_death {
                    DeathCallback::Player => log_push(
                        log_push(s, Msg::PlayerDied),
                        Msg::PressStartNewGame,
                    ),
                    DeathCallback::Monster => log_push(s, Msg::MonsterDied { name: e.name }),
                }
            } else {
                s
            }
        },
        None => s,
    }
}

/// Raw melee damage before clamping at zero.
pub open spec fn melee_damage(attacker: Entity, defender: Entity) -> int {
    power0(attacker) - defense0(defender)
}

/// What melee leaves of the defender: positive raw damage goes through the
/// clamped damage path, zero or negative raw damage changes nothing.
pub open spec fn melee_outcome(attacker: Entity, defender: Entity) -> Entity {
    if melee_damage(attacker, defender) > 0 {
        after_damage(defender, melee_damage(attacker, defender))
    } else {
        defender
    }
}

/// The messages melee appends: the attack line, then any death lines.
pub open spec fn melee_msgs(attacker: Entity, defender: Entity, s: Seq<Msg>) -> Seq<Msg> {
    let dmg = melee_damage(attacker, defender);
    if dmg > 0 {
        damage_msgs(
            defender,
            dmg,
            log_push(
                s,
                Msg::Attack {
                    attacker: attacker.name,
                    target: defender.name,
                    damage: dmg as i32,
                },
            ),
        )
    } else {
        log_push(s, Msg::NoEffect { attacker: attacker.name, target: defender.name })
    }
}

pub fn player_death(player: &mut Entity, messages: &mut MessageLog)
    ensures
        *final(player) == player_dead_spec(*old(player)),
        final(messages).entries@ == log_push(
            log_push(old(messages).entries@, Msg::PlayerDied),
            Msg::PressStartNewGame,
        ),
{
    messages.print_message(Msg::PlayerDied);
    messages.print_message(Msg::PressStartNewGame);
    player.glyph = '%';
    player.blocks = false;
    player.alive = false;
}

pub fn monster_death(monster: &mut Entity, messages: &mut MessageLog)
    ensures
        *final(monster) == monster_dead_spec(*old(monster)),
        final(messages).entries@ == log_push(
            old(messages).entries@,
            Msg::MonsterDied { name: old(monster).name },
        ),
{
    messages.print_message(Msg::MonsterDied { name: monster.name.clone() });
    if monster.glyph == 'T' {
        monster.glyph = '%';
    } else {
        monster.glyph = '.';
    }
    monster.blocks = false;
    monster.ai = None;
    monster.fighter = None;
    monster.alive = false;
}

impl DeathCallback {
    /// Dispatch the configured death transition.
    pub fn callback(self, entity: &mut Entity, messages: &mut MessageLog)
        ensures
            *final(entity) == (match self {
                DeathCallback::Player => player_dead_spec(*old(entity)),
                DeathCallback::Monster => monster_dead_spec(*old(entity)),
            }),
            final(messages).entries@ == (match self {
                DeathCallback::Player => log_push(
                    log_push(old(messages).entries@, Msg::PlayerDied),
                    Msg::PressStartNewGame,
                ),
                DeathCallback::Monster => log_push(
                    old(messages).entries@,
                    Msg::MonsterDied { name: old(entity).name },
                ),
            }),
    {
        match self {
            DeathCallback::Player => player_death(entity, messages),
            DeathCallback::Monster => monster_death(entity, messages),
        }
    }
}

impl Entity {
    /// Place a new entity, refused on a movement-blocking tile; a blocking
    /// entity marks its tile as occupied.
    pub fn new(
        x: i32,
        y: i32,
        glyph: char,
        name: String,
        map: &mut TileGrid,
        blocks: bool,
        alive: bool,
    ) -> (r: Option<Entity>)
        requires
            old(map).wf(),
            old(map).in_bounds(x as int, y as int),
        ensures
            final(map).wf(),
            final(map).width == old(map).width,
            final(map).height == old(map).height,
            old(map).tile(x as int, y as int).blocks_movement ==> r is None && *final(map) == *old(
                map,
            ),
            !old(map).tile(x as int, y as int).blocks_movement ==> (r matches Some(e) && e == (Entity {
                blocks,
                x,
                y,
                glyph,
                name,
                alive,
                fighter: None,
                ai: None,
                item: None,
                chest: None,
            })),
            !old(map).tile(x as int, y as int).blocks_movement && blocks ==> final(map).tile(
                x as int,
                y as int,
            ) == occupied_mark(old(map).tile(x as int, y as int)) && old(map).same_outside(
                *final(map),
                set![(x as int, y as int)],
            ),
            !old(map).tile(x as int, y as int).blocks_movement && !blocks ==> *final(map) == *old(
                map,
            ),
    {
        let blocked = map.get(x, y).blocks_movement;
        if blocked {
            None
        } else {
            if blocks {
                map.set_occupied(x, y);
            }
            Some(
                Entity {
                    blocks,
                    x,
                    y,
                    glyph,
                    name,
                    alive,
                    fighter: None,
                    ai: None,
                    item: None,
                    chest: None,
                },
            )
        }
    }

    /// Apply `damage` through the clamped path; fire the death transition at
    /// zero or below.
    pub fn take_damage(&mut self, damage: i32, messages: &mut MessageLog)
        requires
            old(self).fighter matches Some(f) ==> i32::MIN <= f.hp - damage
                <= i32::MAX,
        ensures
            *final(self) == after_damage(*old(self), damage as int),
            final(messages).entries@ == damage_msgs(
                *old(self),
                damage as int,
                old(messages).entries@,
            ),
    {
        if self.fighter.is_some() {
            let f = self.fighter.unwrap();
            let mut hp = f.hp - damage;
            if hp > f.max_hp {
                hp = f.max_hp;
            }
            self.fighter = Some(
                Fighter {
                    max_hp: f.max_hp,
                    hp,
                    defense: f.defense,
                    power: f.power,
                    on_death: f.on_death,
                },
            );
            if hp <= 0 {
                f.on_death.callback(self, messages);
            }
        }
    }

    /// Melee: raw damage is the attacker's power minus the defender's
    /// defense; only positive raw damage is applied.
    pub fn attack(&mut self, target: &mut Entity, messages: &mut MessageLog)
        requires
            fighter_bounds(*old(self)),
            fighter_bounds(*old(target)),
        ensures
            *final(self) == *old(self),
            *final(target) == melee_outcome(*old(self), *old(target)),
            final(messages).entries@ == melee_msgs(
                *old(self),
                *old(target),
                old(messages).entries@,
            ),
    {
        let power = match self.fighter {
            Some(f) => f.power,
            None => 0,
        };
        let defense = match target.fighter {
            Some(f) => f.defense,
            None => 0,
        };
        let damage = power - defense;
        if damage > 0 {
            messages.print_message(
                Msg::Attack {
                    attacker: self.name.clone(),
                    target: target.name.clone(),
                    damage,
                },
            );
            target.take_damage(damage, messages);
        } else {
            messages.print_message(
                Msg::NoEffect { attacker: self.name.clone(), target: target.name.clone() },
            );
        }
    }
}

/// One step of axis sign.
pub open spec fn sign(v: int) -> int {
    if v > 0 {
        1
    } else if v < 0 {
        -1
    } else {
        0
    }
}

/// The single-tile step a chaser takes: along the axis with the larger
/// absolute delta, the x axis preferred on ties.
pub open spec fn step_toward(sx: int, sy: int, tx: int, ty: int) -> (int, int) {
    let dx = tx - sx;
    let dy = ty - sy;
    if abs(dx) >= abs(dy) {
        (sign(dx), 0)
    } else {
        (0, sign(dy))
    }
}

/// Exactly one tile away along a single axis; diagonals do not count.
pub open spec fn adjacent4(ax: int, ay: int, bx: int, by: int) -> bool {
    (ax == bx && abs(ay - by) == 1) || (ay == by && abs(ax - bx) == 1)
}

pub open spec fn at_cell(e: Entity, x: int, y: int) -> bool {
    e.x == x && e.y == y
}

/// `i` is the first index of `s` standing on `(x, y)`.
pub open spec fn is_first_at(s: Seq<Entity>, x: int, y: int, i: int) -> bool {
    &&& 0 <= i < s.len()
    &&& at_cell(s[i], x, y)
    &&& forall|j: int| 0 <= j < i ==> !(#[trigger] at_cell(s[j], x, y))
}

/// Nothing in `s` stands on `(x, y)`.
pub open spec fn none_at(s: Seq<Entity>, x: int, y: int) -> bool {
    forall|j: int| 0 <= j < s.len() ==> !(#[trigger] at_cell(s[j], x, y))
}

/// Either nothing stands on `(x, y)` or some index is the first to.
pub proof fn lemma_first_total(s: Seq<Entity>, x: int, y: int)
    ensures
        none_at(s, x, y) || exists|i: int| is_first_at(s, x, y, i),
    decreases s.len(),
{
    if s.len() > 0 {
        if at_cell(s[0], x, y) {
            assert(is_first_at(s, x, y, 0));
        } else {
            let t = s.drop_first();
            lemma_first_total(t, x, y);
            if none_at(t, x, y) {
                assert forall|j: int| 0 <= j < s.len() implies !(#[trigger] at_cell(
                    s[j],
                    x,
                    y,
                )) by {
                    if j > 0 {
                        assert(s[j] == t[j - 1]);
                        assert(!at_cell(t[j - 1], x, y));
                    }
                }
            } else {
                let i = choose|i: int| is_first_at(t, x, y, i);
                assert forall|j: int| 0 <= j < i + 1 implies !(#[trigger] at_cell(
                    s[j],
                    x,
                    y,
                )) by {
                    if j > 0 {
                        assert(s[j] == t[j - 1]);
                        assert(!at_cell(t[j - 1], x, y));
                    }
                }
                assert(s[i + 1] == t[i]);
                assert(is_first_at(s, x, y, i + 1));
            }
        }
    }
}

/// How a blocking entity's move from `(ox, oy)` to `(nx, ny)` rewrites the
/// grid: the old tile is restored to floor, the new one overlaid, exploration
/// kept, nothing else touched.
pub open spec fn moved_map(
    m0: TileGrid,
    m1: TileGrid,
    ox: int,
    oy: int,
    nx: int,
    ny: int,
) -> bool {
    &&& m1.width == m0.width
    &&& m1.height == m0.height
    &&& m1.tile(nx, ny) == occupied_mark(m0.tile(nx, ny))
    &&& (ox != nx || oy != ny) ==> m1.tile(ox, oy) == vacant_mark(m0.tile(ox, oy))
    &&& forall|x: int, y: int|
        m0.in_bounds(x, y) && !(x == nx && y == ny) && !(x == ox && y == oy)
            ==> #[trigger] m1.tile(x, y) == m0.tile(x, y)
}

/// First index in `v` standing on `(x, y)`, if any.
pub fn position_at(v: &Vec<Entity>, x: i32, y: i32) -> (r: Option<usize>)
    ensures
        match r {
            Some(i) => is_first_at(v@, x as int, y as int, i as int),
            None => none_at(v@, x as int, y as int),
        },
{
    let mut i: usize = 0;
    while i < v.len()
        invariant
            0 <= i <= v@.len(),
            forall|j: int| 0 <= j < i as int ==> !(#[trigger] at_cell(v@[j], x as int, y as int)),
        decreases v@.len() - i,
    {
        if v[i].x == x && v[i].y == y {
            return Some(i);
        }
        i = i + 1;
    }
    None
}

impl Entity {
    pub fn next_to(&self, other: &Entity) -> (r: bool)
        requires
            -0x10000000 <= self.x <= 0x10000000,
            -0x10000000 <= self.y <= 0x10000000,
            -0x10000000 <= other.x <= 0x10000000,
            -0x10000000 <= other.y <= 0x10000000,
        ensures
            r == adjacent4(self.x as int, self.y as int, other.x as int, other.y as int),
    {
        let dx = if other.x >= self.x {
            other.x - self.x
        } else {
            self.x - other.x
        };
        let dy = if other.y >= self.y {
            other.y - self.y
        } else {
            self.y - other.y
        };
        (dx == 0 && dy == 1) || (dy == 0 && dx == 1)
    }

    /// Step to the destination when its tile does not block movement; a
    /// blocking mover carries its occupancy overlay along.
    pub fn move_by(&mut self, dx: i32, dy: i32, map: &mut TileGrid)
        requires
            old(map).wf(),
            old(map).in_bounds(old(self).x as int, old(self).y as int),
            old(map).in_bounds(old(self).x + dx, old(self).y + dy),
        ensures
            final(map).wf(),
            final(map).width == old(map).width,
            final(map).height == old(map).height,
            ({
                let nx = old(self).x + dx;
                let ny = old(self).y + dy;
                if !old(map).tile(nx, ny).blocks_movement {
                    &&& *final(self) == with_pos(*old(self), nx, ny)
                    &&& (if old(self).blocks {
                        moved_map(
                            *old(map),
                            *final(map),
                            old(self).x as int,
                            old(self).y as int,
                            nx,
                            ny,
                        )
                    } else {
                        *final(map) == *old(map)
                    })
                } else {
                    &&& *final(self) == *old(self)
                    &&& *final(map) == *old(map)
                }
            }),
    {
        let nx = self.x + dx;
        let ny = self.y + dy;
        if !map.get(nx, ny).blocks_movement {
            if self.blocks {
                map.set_vacant(self.x, self.y);
            }
            self.x = nx;
            self.y = ny;
            if self.blocks {
                map.set_occupied(nx, ny);
            }
        }
    }

    /// Chase one tile toward the target, along the axis with the larger
    /// absolute delta (x preferred on ties); a blocked step is simply lost.
    pub fn move_towards(&mut self, target_x: i32, target_y: i32, map: &mut TileGrid)
        requires
            old(map).wf(),
            old(map).in_bounds(old(self).x as int, old(self).y as int),
            old(map).in_bounds(target_x as int, target_y as int),
            old(map).in_bounds(
                old(self).x + step_toward(
                    old(self).x as int,
                    old(self).y as int,
                    target_x as int,
                    target_y as int,
                ).0,
                old(self).y + step_toward(
                    old(self).x as int,
                    old(self).y as int,
                    target_x as int,
                    target_y as int,
                ).1,
            ),
        ensures
            final(map).wf(),
            final(map).width == old(map).width,
            final(map).height == old(map).height,
            ({
                let step = step_toward(
                    old(self).x as int,
                    old(self).y as int,
                    target_x as int,
                    target_y as int,
                );
                let nx = old(self).x + step.0;
                let ny = old(self).y + step.1;
                if !old(map).tile(nx, ny).blocks_movement {
                    &&& *final(self) == with_pos(*old(self), nx, ny)
                    &&& (if old(self).blocks {
                        moved_map(
                            *old(map),
                            *final(map),
                            old(self).x as int,
                            old(self).y as int,
                            nx,
                            ny,
                        )
                    } else {
                        *final(map) == *old(map)
                    })
                } else {
                    &&& *final(self) == *old(self)
                    &&& *final(map) == *old(map)
                }
            }),
    {
        let dx = target_x - self.x;
        let dy = target_y - self.y;
        let adx = if dx >= 0 {
            dx
        } else {
            -dx
        };
        let ady = if dy >= 0 {
            dy
        } else {
            -dy
        };
        let sx: i32 = if dx > 0 {
            1
        } else if dx < 0 {
            -1
        } else {
            0
        };
        let sy: i32 = if dy > 0 {
            1
        } else if dy < 0 {
            -1
        } else {
            0
        };
        if adx >= ady {
            self.move_by(sx, 0, map);
        } else {
            self.move_by(0, sy, map);
        }
    }

    /// Resolve one player action toward `(dx, dy)`, in strict precedence:
    /// move onto a free tile; else melee the first enemy there; else try the
    /// chest there (the key decides); else complain about the wall. Returns
    /// the index of a surviving melee opponent.
    pub fn move_or_attack(
        &mut self,
        dx: i32,
        dy: i32,
        map: &mut TileGrid,
        enemies: &mut Vec<Entity>,
        objects: &mut Vec<Entity>,
        has_key: bool,
        stage: &mut GameStage,
        messages: &mut MessageLog,
    ) -> (r: Option<usize>)
        requires
            old(map).wf(),
            old(map).in_bounds(old(self).x as int, old(self).y as int),
            old(map).in_bounds(old(self).x + dx, old(self).y + dy),
            fighter_bounds(*old(self)),
            forall|i: int|
                0 <= i < old(enemies)@.len() ==> fighter_bounds(#[trigger] old(enemies)@[i]),
        ensures
            final(map).wf(),
            final(map).width == old(map).width,
            final(map).height == old(map).height,
            final(enemies)@.len() == old(enemies)@.len(),
            ({
                let nx = old(self).x + dx;
                let ny = old(self).y + dy;
                if !old(map).tile(nx, ny).blocks_movement {
                    &&& *final(self) == with_pos(*old(self), nx, ny)
                    &&& (if old(self).blocks {
                        moved_map(
                            *old(map),
                            *final(map),
                            old(self).x as int,
                            old(self).y as int,
                            nx,
                            ny,
                        )
                    } else {
                        *final(map) == *old(map)
                    })
                    &&& final(enemies)@ == old(enemies)@
                    &&& final(objects)@ == old(objects)@
                    &&& *final(stage) == *old(stage)
                    &&& final(messages).entries@ == old(messages).entries@
                    &&& r is None
                } else {
                    &&& *final(self) == *old(self)
                    &&& final(objects)@ == old(objects)@
                    &&& (forall|i: int|
                        #[trigger] is_first_at(old(enemies)@, nx, ny, i) ==> {
                            let a = old(enemies)@[i];
                            let out = melee_outcome(*old(self), a);
                            &&& final(enemies)@ == old(enemies)@.update(i, out)
                            &&& final(messages).entries@ == melee_msgs(
                                *old(self),
                                a,
                                old(messages).entries@,
                            )
                            &&& *final(stage) == *old(stage)
                            &&& (if a.blocks && !out.blocks {
                                final(map).tile(nx, ny) == vacant_mark(old(map).tile(nx, ny))
                                    && old(map).same_outside(*final(map), set![(nx, ny)])
                            } else {
                                *final(map) == *old(map)
                            })
                            &&& (if out.alive {
                                r matches Some(ri) && ri as int == i
                            } else {
                                r is None
                            })
                        })
                    &&& (none_at(old(enemies)@, nx, ny) ==> {
                        &&& final(enemies)@ == old(enemies)@
                        &&& *final(map) == *old(map)
                        &&& r is None
                        &&& (forall|j: int|
                            #[trigger] is_first_at(old(objects)@, nx, ny, j) ==> {
                                let o = old(objects)@[j];
                                if o.chest is Some {
                                    if has_key {
                                        &&& *final(stage) == GameStage::Won
                                        &&& final(messages).entries@ == log_push(
                                            log_push(old(messages).entries@, Msg::ChestOpening),
                                            Msg::PressStartGift,
                                        )
                                    } else {
                                        &&& *final(stage) == *old(stage)
                                        &&& final(messages).entries@ == log_push(
                                            old(messages).entries@,
                                            Msg::NeedKey,
                                        )
                                    }
                                } else {
                                    &&& *final(stage) == *old(stage)
                                    &&& final(messages).entries@ == old(messages).entries@
                                }
                            })
                        &&& (none_at(old(objects)@, nx, ny) ==> {
                            &&& *final(stage) == *old(stage)
                            &&& final(messages).entries@ == log_push(
                                old(messages).entries@,
                                Msg::AttackWall,
                            )
                        })
                    })
                }
            }),
    {
        let nx = self.x + dx;
        let ny = self.y + dy;
        if !map.get(nx, ny).blocks_movement {
            if self.blocks {
                map.set_vacant(self.x, self.y);
            }
            self.x = nx;
            self.y = ny;
            if self.blocks {
                map.set_occupied(nx, ny);
            }
            None
        } else {
            match position_at(enemies, nx, ny) {
                Some(id) => {
                    let mut enemy = enemies.remove(id);
                    let was_blocks = enemy.blocks;
                    self.attack(&mut enemy, messages);
                    if was_blocks && !enemy.blocks {
                        map.set_vacant(enemy.x, enemy.y);
                    }
                    let still_alive = enemy.alive;
                    enemies.insert(id, enemy);
                    proof {
                        assert(enemies@ =~= old(enemies)@.update(
                            id as int,
                            melee_outcome(*old(self), old(enemies)@[id as int]),
                        ));
                    }
                    if still_alive {
                        Some(id)
                    } else {
                        None
                    }
                },
                None => {
                    match position_at(objects, nx, ny) {
                        Some(id) => {
                            if objects[id].chest.is_some() {
                                if has_key {
                                    open_chest(messages, stage);
                                } else {
                                    messages.print_message(Msg::NeedKey);
                                }
                            }
                            None
                        },
                        None => {
                            messages.print_message(Msg::AttackWall);
                            None
                        },
                    }
                },
            }
        }
    }
}

/// Law: hp is clamped from above by max_hp after any damage application that
/// leaves a fighter in place, whatever the damage's sign.
pub proof fn lemma_hp_clamped(e: Entity, damage: int)
    requires
        e.fighter matches Some(f) ==> i32::MIN <= f.hp - damage <= i32::MAX,
    ensures
        after_damage(e, damage).fighter matches Some(f) ==> f.hp <= f.max_hp,
{
}

/// Law: melee applies exactly max(power - defense, 0) damage: the defender's
/// hp drops by that much, clamped from above by max_hp, and a cleared
/// fighter only happens on the death transition at zero or below.
pub proof fn lemma_melee_damage(attacker: Entity, defender: Entity)
    requires
        fighter_bounds(attacker),
        fighter_bounds(defender),
        defender.fighter is Some,
    ensures
        ({
            let f = defender.fighter.unwrap();
            let dmg = max(melee_damage(attacker, defender), 0);
            let out = melee_outcome(attacker, defender);
            &&& out.fighter matches Some(g) ==> g.max_hp == f.max_hp && g.hp == min(
                f.hp - dmg,
                f.max_hp as int,
            ) && g.hp <= g.max_hp
            &&& out.fighter is None ==> f.on_death == DeathCallback::Monster && min(
                f.hp - dmg,
                f.max_hp as int,
            ) <= 0
        }),
{
}

/// Law: an entity with no fighter is inert under damage: nothing changes.
pub proof fn lemma_dead_is_inert(e: Entity, damage: int)
    requires
        e.fighter is None,
    ensures
        after_damage(e, damage) == e,
{
}

} // verus!
