use vstd::prelude::*;
use crate::arith::abs;
use crate::coord::{dist_sq, Coord, Offset, WorldPosition, UNIT};
use crate::currency::Currency;
use crate::enemy::{find_enemy, resolves_to, Enemy};
use crate::projectile::SpawnProjectile;

verus! {

/// How far a tower reaches: 64 world units.
pub const MAX_DISTANCE: u32 = 64_000_000;

/// A full turn, in thousandths of a degree.
pub const FULL_TURN: i64 = 360_000;

/// Half a turn.
pub const HALF_TURN: i64 = 180_000;

/// How far a tower turns in one tick: a two-hundredth of a full turn.
pub const ANGULAR_SPEED: i64 = 1_800;

/// Time that has to pass between two shots of a tower, in milliseconds.
pub const FIRE_COOLDOWN: u64 = 1_000;

/// Price of a tower, in coins.
pub const TOWER_COST: u16 = 5;

/// A tower: where it stands, which enemy it tracks, where its barrel
/// points and when it last fired.
#[derive(Clone, Copy, Debug, PartialEq, Eq, Structural)]
pub struct Tower {
    pub cell: Coord,
    pub position: WorldPosition,
    /// Key of the tracked enemy. It is only a key: the enemy may be gone.
    pub target: Option<u64>,
    /// Direction of the barrel, counter-clockwise from the x axis.
    pub facing: i64,
    pub last_projectile_time: u64,
}

/// What a tower is doing.
#[derive(Clone, Copy, Debug, PartialEq, Eq, Structural)]
pub enum TowerState {
    /// The tower has no target.
    Idle,
    /// The tower has a target and turns towards it.
    Tracking,
    /// The barrel is on the target: the tower shoots when it has cooled
    /// down.
    Locked,
}

/// The enemy lies within reach of a tower at `from`.
pub open spec fn in_range(from: WorldPosition, enemy: Enemy) -> bool {
    dist_sq(from, enemy.position) <= MAX_DISTANCE * MAX_DISTANCE
}

/// Enemy `i` is the one that a scan from `from` picks: it is within reach,
/// no enemy within reach is closer, and those before it are further away,
/// so that of several closest enemies the first one wins.
pub open spec fn is_nearest(from: WorldPosition, enemies: Seq<Enemy>, i: int) -> bool {
    &&& 0 <= i < enemies.len()
    &&& in_range(from, enemies[i])
    &&& forall|j: int|
        0 <= j < enemies.len() && in_range(from, enemies[j]) ==> dist_sq(from, enemies[j].position)
            >= dist_sq(from, enemies[i].position)
    &&& forall|j: int|
        0 <= j < i && in_range(from, enemies[j]) ==> dist_sq(from, enemies[j].position) > dist_sq(
            from,
            enemies[i].position,
        )
}

/// The angle brought into the range from zero up to, not including, a full
/// turn.
pub open spec fn normalized(angle: int) -> int {
    angle % (FULL_TURN as int)
}

/// A turn from `current` towards `target` goes counter-clockwise: the
/// target lies ahead by at most half a turn, or behind by more than half a
/// turn. Both angles are normalized.
pub open spec fn turns_counter_clockwise(current: int, target: int) -> bool {
    if target > current {
        target - current <= HALF_TURN
    } else {
        current - target > HALF_TURN
    }
}

/// Number of ticks after which a tower locks onto a target that lies `gap`
/// away from its barrel: one tick for each `ANGULAR_SPEED` in `gap`, a
/// started one counted in full, and one tick at least.
pub open spec fn ticks_to_lock(gap: int) -> int {
    if gap <= ANGULAR_SPEED {
        1
    } else {
        (gap + ANGULAR_SPEED - 1) / (ANGULAR_SPEED as int)
    }
}

/// Brings an angle into the range from zero up to, not including, a full
/// turn.
pub fn normalize_angle(angle: i64) -> (a: i64)
    ensures
        a == normalized(angle as int),
        0 <= a < FULL_TURN,
{
    ((angle % FULL_TURN) + FULL_TURN) % FULL_TURN
}

/// Finds the enemy that a tower at `from` should pick up: the closest one
/// within reach, the first of them where several are equally close. Comes
/// with the way that leads to it, at its full length.
pub fn nearest_enemy(from: WorldPosition, enemies: &Vec<Enemy>) -> (found: Option<(usize, Offset)>)
    ensures
        found matches Some((i, d)) ==> is_nearest(from, enemies@, i as int) && d == from.offset_to(
            enemies[i as int].position,
        ),
        found.is_none() ==> forall|j: int| 0 <= j < enemies.len() ==> !in_range(from, enemies[j]),
{
    let mut closest: Option<(usize, Offset)> = None;
    let mut i: usize = 0;
    while i < enemies.len()
        invariant
            i <= enemies.len(),
            closest matches Some((k, d)) ==> k < i && is_nearest(
                from,
                enemies@.take(i as int),
                k as int,
            ) && d == from.offset_to(enemies[k as int].position) && d.length_squared_spec()
                == dist_sq(from, enemies[k as int].position),
            closest.is_none() ==> forall|j: int| 0 <= j < i ==> !in_range(from, enemies[j]),
        decreases enemies.len() - i,
    {
        let ghost before = enemies@.take(i as int);
        let ghost after = enemies@.take(i + 1);
        assert(forall|j: int| 0 <= j < i ==> before[j] == after[j]);
        assert(after[i as int] == enemies[i as int]);
        match from.offset_within(enemies[i].position, MAX_DISTANCE) {
            None => {},
            Some(direction) => {
                let closer = match closest {
                    None => true,
                    Some((_, best)) => direction.length_squared() < best.length_squared(),
                };
                if closer {
                    closest = Some((i, direction));
                }
            },
        }
        i += 1;
    }
    assert(enemies@.take(enemies.len() as int) =~= enemies@);
    closest
}

impl Tower {
    /// The tower keeps its target: the key still resolves, to enemy `i`,
    /// and that enemy is within reach.
    pub open spec fn retains(self, enemies: Seq<Enemy>, i: int) -> bool {
        &&& self.target matches Some(id)
        &&& resolves_to(enemies, id, i)
        &&& in_range(self.position, enemies[i])
    }

    /// The enemy that the tower tracks after it has looked at `enemies`:
    /// the one it tracked before, if it can keep it, else the nearest one
    /// within reach, else none.
    pub open spec fn selected(self, enemies: Seq<Enemy>) -> Option<int> {
        if exists|i: int| self.retains(enemies, i) {
            Some(choose|i: int| self.retains(enemies, i))
        } else if exists|i: int| is_nearest(self.position, enemies, i) {
            Some(choose|i: int| is_nearest(self.position, enemies, i))
        } else {
            None
        }
    }

    /// The tower after it has looked at `enemies`.
    pub open spec fn after_select(self, enemies: Seq<Enemy>) -> Tower {
        Tower {
            target: match self.selected(enemies) {
                Some(i) => Some(enemies[i].id),
                None => None,
            },
            ..self
        }
    }

    /// The way from the tower to the enemy that it tracks after it has
    /// looked at `enemies`, at its full length.
    pub open spec fn direction(self, enemies: Seq<Enemy>) -> Option<Offset> {
        match self.selected(enemies) {
            Some(i) => Some(self.position.offset_to(enemies[i].position)),
            None => None,
        }
    }

    /// The barrel is close enough to `target_angle` to snap onto it.
    pub open spec fn locks(self, target_angle: int) -> bool {
        abs(normalized(target_angle) - normalized(self.facing as int)) <= ANGULAR_SPEED
    }

    /// What the tower is doing in a tick in which the angle of the
    /// direction to its target, if it has one, is `bearing`.
    pub open spec fn state_spec(self, bearing: int) -> TowerState {
        if self.target.is_none() {
            TowerState::Idle
        } else if self.locks(bearing) {
            TowerState::Locked
        } else {
            TowerState::Tracking
        }
    }

    /// What the tower is doing in a tick in which the angle of the
    /// direction to its target, if it has one, is `bearing`.
    pub fn state(&self, bearing: i64) -> (state: TowerState)
        ensures
            state == self.state_spec(bearing as int),
    {
        if self.target.is_none() {
            return TowerState::Idle;
        }
        let gap = normalize_angle(bearing) - normalize_angle(self.facing);
        if gap > ANGULAR_SPEED || gap < -ANGULAR_SPEED {
            TowerState::Tracking
        } else {
            TowerState::Locked
        }
    }

    /// The tower shoots at time `now`: it locks, and its last shot is more
    /// than `FIRE_COOLDOWN` ago.
    pub open spec fn fires(self, target_angle: int, now: int) -> bool {
        self.locks(target_angle) && now - self.last_projectile_time > FIRE_COOLDOWN
    }

    /// The tower after one tick of aiming at `target_angle` at time `now`.
    /// Off the target by more than `ANGULAR_SPEED`, the barrel turns by
    /// `ANGULAR_SPEED` the shorter way round. Otherwise it snaps onto the
    /// target, and the time of the last shot becomes `now` if the tower
    /// shoots.
    pub open spec fn aimed(self, target_angle: int, now: int) -> Tower {
        let target = normalized(target_angle);
        let current = normalized(self.facing as int);
        if !self.locks(target_angle) {
            let turn = if turns_counter_clockwise(current, target) {
                ANGULAR_SPEED as int
            } else {
                -ANGULAR_SPEED as int
            };
            Tower { facing: normalized(current + turn) as i64, ..self }
        } else if self.fires(target_angle, now) {
            Tower { facing: target as i64, last_projectile_time: now as u64, ..self }
        } else {
            Tower { facing: target as i64, ..self }
        }
    }

    /// The tower after one tick of aiming at `target_angle` for each of
    /// the times in `times`.
    pub open spec fn aimed_at_times(self, target_angle: int, times: Seq<u64>) -> Tower
        decreases times.len(),
    {
        if times.len() == 0 {
            self
        } else {
            self.aimed_at_times(target_angle, times.drop_last()).aimed(target_angle, times.last() as int)
        }
    }

    /// The tower after a whole tick among `enemies` at time `now`: it has
    /// decided on its target and, if it has one, aimed at `bearing`, the
    /// angle of the direction to the target.
    pub open spec fn ticked(self, enemies: Seq<Enemy>, bearing: int, now: int) -> Tower {
        if self.selected(enemies).is_some() {
            self.after_select(enemies).aimed(bearing, now)
        } else {
            self.after_select(enemies)
        }
    }

    /// The projectile that the tower asks for in such a tick: from where
    /// the tower stands, in the direction of its target, of the length of
    /// one world unit.
    pub open spec fn shot(
        self,
        enemies: Seq<Enemy>,
        bearing: int,
        now: int,
    ) -> Option<SpawnProjectile> {
        match self.direction(enemies) {
            Some(direction) => if self.after_select(enemies).fires(bearing, now) {
                Some(
                    SpawnProjectile {
                        position: self.position,
                        direction: direction.normalized_spec(),
                    },
                )
            } else {
                None
            },
            None => None,
        }
    }

    /// A new tower on `cell`: idle, its barrel along the x axis.
    pub open spec fn new_spec(cell: Coord) -> Tower {
        Tower {
            cell,
            position: cell.world_spec(),
            target: None,
            facing: 0,
            last_projectile_time: 0,
        }
    }

    /// A new tower on `cell`: idle, its barrel along the x axis.
    pub fn new(cell: Coord) -> (t: Tower)
        ensures
            t == Tower::new_spec(cell),
    {
        Tower { cell, position: cell.world(), target: None, facing: 0, last_projectile_time: 0 }
    }

    /// At most one enemy can be the one that the tower keeps.
    pub proof fn lemma_retains_unique(self, enemies: Seq<Enemy>, i: int, k: int)
        requires
            self.retains(enemies, i),
            self.retains(enemies, k),
        ensures
            i == k,
    {
    }

    /// First half of a tick: decides which enemy the tower tracks. A
    /// target that still exists and is within `MAX_DISTANCE` is kept.
    /// Otherwise the nearest enemy within `MAX_DISTANCE` becomes the
    /// target, the first of them where several are equally near, and the
    /// tower is left without target where no enemy is within reach.
    /// Returns the way from the tower to its target, at its full length.
    pub fn select_target(&mut self, enemies: &Vec<Enemy>) -> (direction: Option<Offset>)
        ensures
            *final(self) == old(self).after_select(enemies@),
            direction == old(self).direction(enemies@),
            direction.is_some() <==> exists|j: int|
                0 <= j < enemies.len() && in_range(old(self).position, enemies[j]),
            direction.is_none() ==> final(self).target.is_none(),
    {
        if let Some(id) = self.target {
            if let Some(i) = find_enemy(enemies, id) {
                if let Some(d) = self.position.offset_within(enemies[i].position, MAX_DISTANCE) {
                    proof {
                        assert(self.retains(enemies@, i as int));
                        let k = choose|k: int| self.retains(enemies@, k);
                        self.lemma_retains_unique(enemies@, i as int, k);
                    }
                    return Some(d);
                }
            }
        }
        assert(forall|k: int| !self.retains(enemies@, k));
        match nearest_enemy(self.position, enemies) {
            Some((i, d)) => {
                proof {
                    let k = choose|k: int| is_nearest(self.position, enemies@, k);
                    lemma_nearest_unique(self.position, enemies@, i as int, k);
                }
                self.target = Some(enemies[i].id);
                Some(d)
            },
            None => {
                assert(forall|k: int| !is_nearest(self.position, enemies@, k));
                self.target = None;
                None
            },
        }
    }

    /// Second half of a tick, for a tower with a target: turns the barrel
    /// towards `target_angle`, the angle of `direction`, and shoots once
    /// the barrel is on the target and the tower has cooled down. Returns
    /// the request for the projectile if the tower shoots: it carries the
    /// tower's position and `direction`, brought to the length of one
    /// world unit.
    pub fn aim(
        &mut self,
        target_angle: i64,
        direction: Offset,
        now: u64,
    ) -> (shot: Option<SpawnProjectile>)
        ensures
            *final(self) == old(self).aimed(target_angle as int, now as int),
            shot == if old(self).fires(target_angle as int, now as int) {
                Some(
                    SpawnProjectile {
                        position: old(self).position,
                        direction: direction.normalized_spec(),
                    },
                )
            } else {
                None
            },
            shot matches Some(request) ==> request.direction.length_squared_spec() <= UNIT * UNIT,
    {
        let target = normalize_angle(target_angle);
        let current = normalize_angle(self.facing);
        let gap = target - current;
        if gap > ANGULAR_SPEED || gap < -ANGULAR_SPEED {
            let counter_clockwise = if target > current {
                gap <= HALF_TURN
            } else {
                -gap > HALF_TURN
            };
            if counter_clockwise {
                self.facing = normalize_angle(current + ANGULAR_SPEED);
            } else {
                self.facing = normalize_angle(current - ANGULAR_SPEED);
            }
            return None;
        }
        self.facing = target;
        if now > self.last_projectile_time && now - self.last_projectile_time > FIRE_COOLDOWN {
            self.last_projectile_time = now;
            Some(SpawnProjectile { position: self.position, direction: direction.normalized() })
        } else {
            None
        }
    }
}

/// The requests for projectiles that `towers` make in a tick among
/// `enemies` at time `now`, in the order of the towers. Tower `i` aims at
/// `bearings[i]`; a tower without bearing does not aim.
pub open spec fn shots_of(
    towers: Seq<Tower>,
    enemies: Seq<Enemy>,
    bearings: Seq<i64>,
    now: int,
) -> Seq<SpawnProjectile>
    decreases towers.len(),
{
    if towers.len() == 0 {
        Seq::empty()
    } else {
        let before = shots_of(towers.drop_last(), enemies, bearings, now);
        let i = towers.len() - 1;
        if i < bearings.len() {
            match towers[i].shot(enemies, bearings[i] as int, now) {
                Some(request) => before.push(request),
                None => before,
            }
        } else {
            before
        }
    }
}

/// The tower in place `i` of `towers` after a tick among `enemies` in
/// which tower `i` aims at `bearings[i]`; a tower without bearing only
/// decides on its target.
pub open spec fn tower_after_tick(
    tower: Tower,
    i: int,
    enemies: Seq<Enemy>,
    bearings: Seq<i64>,
    now: int,
) -> Tower {
    if i < bearings.len() {
        tower.ticked(enemies, bearings[i] as int, now)
    } else {
        tower.after_select(enemies)
    }
}

/// For each tower the way to the enemy that it is going to track in
/// this tick, for the caller to take the bearings of. The towers are left
/// as they are.
pub fn tower_directions(
    towers: &Vec<Tower>,
    enemies: &Vec<Enemy>,
) -> (directions: Vec<Option<Offset>>)
    ensures
        directions.len() == towers.len(),
        forall|i: int|
            0 <= i < towers.len() ==> directions[i] == towers[i].direction(enemies@),
{
    let mut directions: Vec<Option<Offset>> = Vec::new();
    let mut i: usize = 0;
    while i < towers.len()
        invariant
            i <= towers.len(),
            directions.len() == i,
            forall|k: int| 0 <= k < i ==> directions[k] == towers[k].direction(enemies@),
        decreases towers.len() - i,
    {
        let mut tower = towers[i];
        directions.push(tower.select_target(enemies));
        i += 1;
    }
    directions
}

/// The tick of all towers among `enemies` at time `now`. Each tower
/// decides on its target; one that has a target aims at its bearing, the
/// angle of the direction that `tower_directions` gave for it, and shoots
/// when it is on target and has cooled down. Returns the requests for
/// projectiles, in the order of the towers.
pub fn tower_shoot(
    towers: &mut Vec<Tower>,
    enemies: &Vec<Enemy>,
    bearings: &Vec<i64>,
    now: u64,
) -> (shots: Vec<SpawnProjectile>)
    ensures
        final(towers)@.len() == old(towers)@.len(),
        forall|i: int|
            0 <= i < old(towers)@.len() ==> final(towers)@[i] == tower_after_tick(
                old(towers)@[i],
                i,
                enemies@,
                bearings@,
                now as int,
            ),
        shots@ == shots_of(old(towers)@, enemies@, bearings@, now as int),
        forall|k: int|
            0 <= k < shots.len() ==> (#[trigger] shots[k]).direction.length_squared_spec() <= UNIT
                * UNIT,
{
    let ghost start = towers@;
    let mut shots: Vec<SpawnProjectile> = Vec::new();
    let mut i: usize = 0;
    while i < towers.len()
        invariant
            i <= towers.len(),
            towers.len() == start.len(),
            forall|k: int|
                0 <= k < i ==> towers[k] == tower_after_tick(
                    start[k],
                    k,
                    enemies@,
                    bearings@,
                    now as int,
                ),
            forall|k: int| i <= k < towers.len() ==> towers[k] == start[k],
            shots@ == shots_of(start.take(i as int), enemies@, bearings@, now as int),
            forall|k: int|
                0 <= k < shots.len() ==> (#[trigger] shots[k]).direction.length_squared_spec()
                    <= UNIT * UNIT,
        decreases towers.len() - i,
    {
        assert(start.take(i + 1).drop_last() =~= start.take(i as int));
        let mut tower = towers[i];
        match tower.select_target(enemies) {
            Some(direction) => {
                if i < bearings.len() {
                    match tower.aim(bearings[i], direction, now) {
                        Some(request) => {
                            shots.push(request);
                        },
                        None => {},
                    }
                }
            },
            None => {},
        }
        towers.set(i, tower);
        i += 1;
    }
    assert(start.take(start.len() as int) =~= start);
    shots
}

/// At most one enemy can be the one that a scan picks.
pub proof fn lemma_nearest_unique(from: WorldPosition, enemies: Seq<Enemy>, i: int, k: int)
    requires
        is_nearest(from, enemies, i),
        is_nearest(from, enemies, k),
    ensures
        i == k,
{
}

/// With no enemy within reach a tower is idle and stays so: looking at the
/// enemies leaves it without target, gives no direction, moves nothing else
/// of the tower, the barrel included, and a second look changes nothing
/// more.
pub proof fn lemma_idle_without_enemy_in_range(tower: Tower, enemies: Seq<Enemy>)
    requires
        forall|j: int| 0 <= j < enemies.len() ==> !in_range(tower.position, enemies[j]),
    ensures
        tower.selected(enemies).is_none(),
        tower.direction(enemies).is_none(),
        tower.after_select(enemies) == (Tower { target: None, ..tower }),
        tower.after_select(enemies).facing == tower.facing,
        tower.after_select(enemies).after_select(enemies) == tower.after_select(enemies),
{
    assert(forall|k: int| !tower.retains(enemies, k));
    assert(forall|k: int| !is_nearest(tower.position, enemies, k));
    let idle = tower.after_select(enemies);
    assert(forall|k: int| !idle.retains(enemies, k));
    assert(forall|k: int| !is_nearest(idle.position, enemies, k));
}

/// Among enemies of which one is within reach, a scan finds one: the
/// index that is returned. With none within reach it finds none.
pub proof fn lemma_scan_finds(from: WorldPosition, enemies: Seq<Enemy>) -> (found: Option<int>)
    ensures
        found matches Some(i) ==> is_nearest(from, enemies, i),
        found.is_none() ==> forall|j: int| 0 <= j < enemies.len() ==> !in_range(from, enemies[j]),
    decreases enemies.len(),
{
    if enemies.len() == 0 {
        None
    } else {
        let head = enemies.drop_last();
        let last = enemies.len() - 1;
        let before = lemma_scan_finds(from, head);
        assert(forall|j: int| 0 <= j < last ==> head[j] == enemies[j]);
        if !in_range(from, enemies[last]) {
            before
        } else {
            match before {
                Some(i) => if dist_sq(from, enemies[last].position) < dist_sq(
                    from,
                    enemies[i].position,
                ) {
                    Some(last)
                } else {
                    Some(i)
                },
                None => Some(last),
            }
        }
    }
}

/// A tower never tracks an enemy that is gone or out of reach: after it
/// has looked at the enemies, its target is the key of an enemy among them
/// that is within reach, and it is without target only if no enemy is
/// within reach.
pub proof fn lemma_target_is_live(tower: Tower, enemies: Seq<Enemy>)
    ensures
        match tower.after_select(enemies).target {
            Some(id) => exists|i: int|
                0 <= i < enemies.len() && enemies[i].id == id && in_range(
                    tower.position,
                    enemies[i],
                ),
            None => forall|j: int| 0 <= j < enemies.len() ==> !in_range(tower.position, enemies[j]),
        },
{
    if exists|i: int| tower.retains(enemies, i) {
        let i = choose|i: int| tower.retains(enemies, i);
        assert(enemies[i].id == tower.after_select(enemies).target->0);
    } else {
        match lemma_scan_finds(tower.position, enemies) {
            Some(k) => {
                let i = choose|i: int| is_nearest(tower.position, enemies, i);
                assert(enemies[i].id == tower.after_select(enemies).target->0);
            },
            None => {
                assert(forall|k: int| !is_nearest(tower.position, enemies, k));
            },
        }
    }
}

/// An angle within the first turn is normalized already.
pub proof fn lemma_normalized_within_turn(angle: int)
    requires
        0 <= angle < FULL_TURN,
    ensures
        normalized(angle) == angle,
{
}

/// One tick of a tower whose barrel, at `facing`, is off the target by more
/// than `ANGULAR_SPEED` and at most half a turn, with no passage through
/// zero on the way: the barrel turns towards the target by `ANGULAR_SPEED`,
/// and nothing else changes.
proof fn lemma_slews_once(tower: Tower, target_angle: int, now: int)
    requires
        0 <= tower.facing < FULL_TURN,
        0 <= target_angle < FULL_TURN,
        ANGULAR_SPEED < abs(target_angle - tower.facing) <= HALF_TURN,
    ensures
        tower.aimed(target_angle, now) == (Tower {
            facing: if target_angle > tower.facing {
                (tower.facing + ANGULAR_SPEED) as i64
            } else {
                (tower.facing - ANGULAR_SPEED) as i64
            },
            ..tower
        }),
        !tower.locks(target_angle),
{
    lemma_normalized_within_turn(target_angle);
    lemma_normalized_within_turn(tower.facing as int);
    if target_angle > tower.facing {
        lemma_normalized_within_turn(tower.facing + ANGULAR_SPEED);
    } else {
        lemma_normalized_within_turn(tower.facing - ANGULAR_SPEED);
    }
}

/// One tick of a tower whose barrel is off the target by `ANGULAR_SPEED`
/// at most: the barrel snaps onto the target, and the tower shoots if it
/// has cooled down.
proof fn lemma_locks_once(tower: Tower, target_angle: int, now: int)
    requires
        0 <= tower.facing < FULL_TURN,
        0 <= target_angle < FULL_TURN,
        abs(target_angle - tower.facing) <= ANGULAR_SPEED,
    ensures
        tower.aimed(target_angle, now) == (Tower {
            facing: target_angle as i64,
            last_projectile_time: if now - tower.last_projectile_time > FIRE_COOLDOWN {
                now as u64
            } else {
                tower.last_projectile_time
            },
            ..tower
        }),
        tower.locks(target_angle),
{
    lemma_normalized_within_turn(target_angle);
    lemma_normalized_within_turn(tower.facing as int);
}

/// A tower whose barrel is off the target by `gap`, at most half a turn
/// and with no passage through zero on the way, turns towards it by
/// `ANGULAR_SPEED` in each tick for as long as the ticks, taken times
/// `ANGULAR_SPEED`, stay below `gap`. In these ticks it does not shoot.
pub proof fn lemma_slews_steadily(tower: Tower, target_angle: int, times: Seq<u64>)
    requires
        0 <= tower.facing < FULL_TURN,
        0 <= target_angle < FULL_TURN,
        abs(target_angle - tower.facing) <= HALF_TURN,
        times.len() * ANGULAR_SPEED < abs(target_angle - tower.facing),
    ensures
        tower.aimed_at_times(target_angle, times) == (Tower {
            facing: if target_angle > tower.facing {
                (tower.facing + times.len() * ANGULAR_SPEED) as i64
            } else {
                (tower.facing - times.len() * ANGULAR_SPEED) as i64
            },
            ..tower
        }),
    decreases times.len(),
{
    if times.len() > 0 {
        let head = times.drop_last();
        lemma_slews_steadily(tower, target_angle, head);
        let before = tower.aimed_at_times(target_angle, head);
        assert(tower.aimed_at_times(target_angle, times) == before.aimed(
            target_angle,
            times.last() as int,
        ));
        lemma_slews_once(before, target_angle, times.last() as int);
    }
}

/// Under the conditions of `lemma_slews_steadily`, the tower locks onto
/// its target in tick number `ticks_to_lock(gap)` and in none before. In
/// that tick it shoots if it has cooled down.
pub proof fn lemma_locks_after_ticks(tower: Tower, target_angle: int, times: Seq<u64>)
    requires
        0 <= tower.facing < FULL_TURN,
        0 <= target_angle < FULL_TURN,
        abs(target_angle - tower.facing) <= HALF_TURN,
        times.len() == ticks_to_lock(abs(target_angle - tower.facing)),
    ensures
        tower.aimed_at_times(target_angle, times) == (Tower {
            facing: target_angle as i64,
            last_projectile_time: if times.last() - tower.last_projectile_time > FIRE_COOLDOWN {
                times.last()
            } else {
                tower.last_projectile_time
            },
            ..tower
        }),
        tower.aimed_at_times(target_angle, times.drop_last()).locks(target_angle),
        forall|n: int|
            0 <= n < times.len() - 1 ==> !(#[trigger] tower.aimed_at_times(
                target_angle,
                times.take(n),
            )).locks(target_angle),
{
    let gap = abs(target_angle - tower.facing);
    let ticks = times.len() as int;
    let head = times.drop_last();
    assert(ticks * ANGULAR_SPEED >= gap && (ticks - 1) * ANGULAR_SPEED < gap || gap == 0);
    if head.len() > 0 {
        lemma_slews_steadily(tower, target_angle, head);
    }
    let before = tower.aimed_at_times(target_angle, head);
    assert(tower.aimed_at_times(target_angle, times) == before.aimed(
        target_angle,
        times.last() as int,
    ));
    lemma_locks_once(before, target_angle, times.last() as int);
    assert forall|n: int| 0 <= n < times.len() - 1 implies !(#[trigger] tower.aimed_at_times(
        target_angle,
        times.take(n),
    )).locks(target_angle) by {
        let part = times.take(n);
        lemma_slews_steadily(tower, target_angle, part);
        let then = tower.aimed_at_times(target_angle, part);
        lemma_slews_once(then, target_angle, 0);
    }
}

/// A tower stands on `cell`.
pub open spec fn occupied(towers: Seq<Tower>, cell: Coord) -> bool {
    exists|i: int| 0 <= i < towers.len() && towers[i].cell == cell
}

/// A tower may be built on `cell`: the purse holds its price, the cell is
/// a build spot, and no tower stands there.
pub open spec fn can_place(
    currency: Currency,
    build_spots: Seq<Coord>,
    towers: Seq<Tower>,
    cell: Coord,
) -> bool {
    &&& currency.coins >= TOWER_COST
    &&& build_spots.contains(cell)
    &&& !occupied(towers, cell)
}

/// The first tower that stands on `cell`.
pub fn tower_at(towers: &Vec<Tower>, cell: Coord) -> (found: Option<usize>)
    ensures
        found matches Some(i) ==> i < towers.len() && towers[i as int].cell == cell && forall|
            j: int,
        |
            0 <= j < i ==> towers[j].cell != cell,
        found.is_none() <==> !occupied(towers@, cell),
{
    let mut i: usize = 0;
    while i < towers.len()
        invariant
            i <= towers.len(),
            forall|j: int| 0 <= j < i ==> towers[j].cell != cell,
        decreases towers.len() - i,
    {
        if towers[i].cell == cell {
            return Some(i);
        }
        i += 1;
    }
    None
}

/// Builds a tower on `cell` if `can_place` allows it: takes `TOWER_COST`
/// coins and returns the new tower. Where the request is refused, the
/// purse is left as it is.
pub fn tower_place(
    currency: &mut Currency,
    build_spots: &Vec<Coord>,
    towers: &Vec<Tower>,
    cell: Coord,
) -> (built: Option<Tower>)
    ensures
        can_place(*old(currency), build_spots@, towers@, cell) ==> built == Some(
            Tower::new_spec(cell),
        ) && final(currency).coins == old(currency).coins - TOWER_COST,
        !can_place(*old(currency), build_spots@, towers@, cell) ==> built.is_none()
            && *final(currency) == *old(currency),
{
    let mut is_build_spot = false;
    let mut i: usize = 0;
    while i < build_spots.len()
        invariant
            i <= build_spots.len(),
            is_build_spot <==> exists|j: int| 0 <= j < i && build_spots[j] == cell,
        decreases build_spots.len() - i,
    {
        if build_spots[i] == cell {
            is_build_spot = true;
        }
        i += 1;
    }
    if !is_build_spot || tower_at(towers, cell).is_some() {
        return None;
    }
    if currency.spend(TOWER_COST) {
        Some(Tower::new(cell))
    } else {
        None
    }
}

} // verus!
