use vstd::prelude::*;
use crate::coord::{Coord, WorldPosition};
use crate::currency::Currency;
use crate::health::Health;
use crate::path::{lerp_spec, Path, FULL_PROGRESS};
use crate::sequences::{lemma_filter_next, lemma_filter_none, lemma_filter_split};

verus! {

/// Time between two enemies of one spawner, in milliseconds.
pub const SPAWN_INTERVAL: u64 = 2_000;

/// Hit points of a new enemy.
pub const ENEMY_HEALTH: i32 = 6;

/// Progress that an enemy makes in a millisecond: a fortieth of the path
/// in a second.
pub const ENEMY_SPEED: u64 = 25;

/// Damage that an enemy does to the base when it arrives.
pub const ARRIVAL_DAMAGE: i32 = 1;

/// Coins paid for an enemy that was shot down.
pub const BOUNTY: usize = 1;

/// An enemy on its way along the path.
#[derive(Clone, Copy, Debug, PartialEq, Eq, Structural)]
pub struct Enemy {
    /// The key by which towers remember this enemy.
    pub id: u64,
    pub health: Health,
    /// How much of the path lies behind the enemy, in millionths.
    pub progress: u64,
    pub position: WorldPosition,
}

/// A lookup of `id` among `enemies` ends at `i`: the first enemy that
/// bears the key.
pub open spec fn resolves_to(enemies: Seq<Enemy>, id: u64, i: int) -> bool {
    &&& 0 <= i < enemies.len()
    &&& enemies[i].id == id
    &&& forall|j: int| 0 <= j < i ==> enemies[j].id != id
}

/// Looks up the enemy that bears `id`. The key of an enemy that has been
/// removed resolves to nothing.
pub fn find_enemy(enemies: &Vec<Enemy>, id: u64) -> (found: Option<usize>)
    ensures
        found matches Some(i) ==> resolves_to(enemies@, id, i as int),
        found.is_none() ==> forall|j: int| 0 <= j < enemies.len() ==> enemies[j].id != id,
{
    let mut i: usize = 0;
    while i < enemies.len()
        invariant
            i <= enemies.len(),
            forall|j: int| 0 <= j < i ==> enemies[j].id != id,
        decreases enemies.len() - i,
    {
        if enemies[i].id == id {
            return Some(i);
        }
        i += 1;
    }
    None
}

impl Enemy {
    /// The enemy has walked the whole path.
    pub open spec fn arrived(self) -> bool {
        self.progress >= FULL_PROGRESS
    }

    /// The enemy after `dt` milliseconds on the path through `nodes`. Its
    /// progress stops at `u64::MAX`.
    pub open spec fn advanced(self, nodes: Seq<Coord>, dt: int) -> Enemy {
        let progress = if self.progress + ENEMY_SPEED * dt > u64::MAX {
            u64::MAX
        } else {
            (self.progress + ENEMY_SPEED * dt) as u64
        };
        Enemy { progress, position: lerp_spec(nodes, progress as int), ..self }
    }

    /// Moves the enemy along `path` for `dt` milliseconds.
    pub fn advance(&mut self, path: &Path, dt: u32)
        ensures
            *final(self) == old(self).advanced(path@, dt as int),
    {
        let step: u64 = ENEMY_SPEED * (dt as u64);
        self.progress = if step > u64::MAX - self.progress {
            u64::MAX
        } else {
            self.progress + step
        };
        self.position = path.lerp(self.progress);
    }
}

/// The enemies that have walked the whole path.
pub open spec fn arrived() -> spec_fn(Enemy) -> bool {
    |e: Enemy| e.arrived()
}

/// The enemies that are still on the path.
pub open spec fn on_the_way() -> spec_fn(Enemy) -> bool {
    |e: Enemy| !e.arrived()
}

/// The enemies that have no hit points left.
pub open spec fn dead() -> spec_fn(Enemy) -> bool {
    |e: Enemy| e.health.depleted()
}

/// The enemies that have hit points left.
pub open spec fn alive() -> spec_fn(Enemy) -> bool {
    |e: Enemy| !e.health.depleted()
}

/// The enemies after `dt` milliseconds on the path through `nodes`, those
/// that arrive included.
pub open spec fn all_advanced(enemies: Seq<Enemy>, nodes: Seq<Coord>, dt: int) -> Seq<Enemy> {
    enemies.map_values(|e: Enemy| e.advanced(nodes, dt))
}

/// Moves every enemy along `path` for `dt` milliseconds. An enemy that
/// reaches the end of the path is taken out and does `ARRIVAL_DAMAGE` to
/// the base; the others stay, in their order. Returns the number of the
/// enemies that arrived: each enemy either stays or is counted.
pub fn enemy_path_follow(
    enemies: &mut Vec<Enemy>,
    base: &mut Health,
    path: &Path,
    dt: u32,
) -> (arrivals: usize)
    ensures
        final(enemies)@ == all_advanced(old(enemies)@, path@, dt as int).filter(on_the_way()),
        arrivals == all_advanced(old(enemies)@, path@, dt as int).filter(arrived()).len(),
        *final(base) == old(base).after_hits(arrivals as nat),
        final(enemies)@.len() + arrivals == old(enemies)@.len(),
{
    let ghost moved = all_advanced(enemies@, path@, dt as int);
    let ghost before = *base;
    let mut kept: Vec<Enemy> = Vec::new();
    let mut arrivals: usize = 0;
    let mut i: usize = 0;
    proof {
        lemma_filter_none(moved, on_the_way());
        lemma_filter_none(moved, arrived());
    }
    while i < enemies.len()
        invariant
            i <= enemies.len(),
            moved == all_advanced(enemies@, path@, dt as int),
            kept@ == moved.take(i as int).filter(on_the_way()),
            arrivals == moved.take(i as int).filter(arrived()).len(),
            arrivals <= i,
            *base == before.after_hits(arrivals as nat),
        decreases enemies.len() - i,
    {
        proof {
            lemma_filter_next(moved, on_the_way(), i as int);
            lemma_filter_next(moved, arrived(), i as int);
            before.lemma_after_hits_step(arrivals as nat);
        }
        let mut enemy = enemies[i];
        enemy.advance(path, dt);
        if enemy.progress >= FULL_PROGRESS {
            base.damage(ARRIVAL_DAMAGE);
            arrivals += 1;
        } else {
            kept.push(enemy);
        }
        i += 1;
    }
    proof {
        lemma_filter_split(moved, on_the_way(), arrived());
    }
    *enemies = kept;
    arrivals
}

/// Takes out the enemies that have no hit points left and pays `BOUNTY`
/// for each of them; the others stay, in their order. Returns the number
/// of the enemies that were taken out: each enemy either stays or is
/// counted.
pub fn enemy_destroy(enemies: &mut Vec<Enemy>, currency: &mut Currency) -> (kills: usize)
    ensures
        final(enemies)@ == old(enemies)@.filter(alive()),
        kills == old(enemies)@.filter(dead()).len(),
        *final(currency) == old(currency).earned(kills * BOUNTY),
        final(enemies)@.len() + kills == old(enemies)@.len(),
{
    let ghost all = enemies@;
    let ghost purse = *currency;
    let mut kept: Vec<Enemy> = Vec::new();
    let mut kills: usize = 0;
    let mut i: usize = 0;
    proof {
        lemma_filter_none(all, alive());
        lemma_filter_none(all, dead());
    }
    while i < enemies.len()
        invariant
            i <= enemies.len(),
            enemies@ == all,
            kept@ == all.take(i as int).filter(alive()),
            kills == all.take(i as int).filter(dead()).len(),
            kills <= i,
            *currency == purse.earned(kills * BOUNTY),
        decreases enemies.len() - i,
    {
        proof {
            lemma_filter_next(all, alive(), i as int);
            lemma_filter_next(all, dead(), i as int);
        }
        let enemy = enemies[i];
        if enemy.health.current <= 0 {
            currency.earn(BOUNTY);
            kills += 1;
        } else {
            kept.push(enemy);
        }
        i += 1;
    }
    proof {
        lemma_filter_split(all, alive(), dead());
    }
    *enemies = kept;
    kills
}

/// A place where enemies enter the world.
#[derive(Clone, Copy, Debug, PartialEq, Eq, Structural)]
pub struct EnemySpawner {
    pub position: WorldPosition,
    pub last_spawn_time: u64,
}

impl EnemySpawner {
    /// A spawner on `cell` that has not spawned yet.
    pub fn new(cell: Coord) -> (s: EnemySpawner)
        ensures
            s.position == cell.world_spec(),
            s.last_spawn_time == 0,
    {
        EnemySpawner { position: cell.world(), last_spawn_time: 0 }
    }

    /// At time `now` the next enemy is due: the last one was spawned
    /// `SPAWN_INTERVAL` ago or longer.
    pub open spec fn due(self, now: int) -> bool {
        now - self.last_spawn_time >= SPAWN_INTERVAL
    }

    /// The spawner after time `now` has come: it counts from `now` if its
    /// enemy was due.
    pub open spec fn after_spawn(self, now: int) -> EnemySpawner {
        if self.due(now) {
            EnemySpawner { last_spawn_time: now as u64, ..self }
        } else {
            self
        }
    }

    /// The enemy that the spawner puts out under the key `id`: at the
    /// spawner's position, in full health, at the start of the path.
    pub open spec fn newcomer(self, id: u64) -> Enemy {
        Enemy {
            id,
            health: Health { max: ENEMY_HEALTH, current: ENEMY_HEALTH },
            progress: 0,
            position: self.position,
        }
    }

    /// Spawns an enemy if one is due: at the spawner's position, in full
    /// health, at the start of the path and with the key `id`. The spawner
    /// then counts from `now`.
    pub fn spawn(&mut self, now: u64, id: u64) -> (enemy: Option<Enemy>)
        ensures
            *final(self) == old(self).after_spawn(now as int),
            enemy == if old(self).due(now as int) {
                Some(old(self).newcomer(id))
            } else {
                None
            },
    {
        if now < self.last_spawn_time || now - self.last_spawn_time < SPAWN_INTERVAL {
            return None;
        }
        self.last_spawn_time = now;
        Some(Enemy { id, health: Health::new(ENEMY_HEALTH), progress: 0, position: self.position })
    }
}

/// The spawners whose next enemy is due at time `now`.
pub open spec fn due_at(now: int) -> spec_fn(EnemySpawner) -> bool {
    |s: EnemySpawner| s.due(now)
}

/// The key that follows `n` keys after the first one; the keys stop at
/// `u64::MAX`.
pub open spec fn key(n: int) -> u64 {
    if n > u64::MAX {
        u64::MAX
    } else {
        n as u64
    }
}

/// The enemies that `spawners` put out at time `now`: one for each spawner
/// whose enemy is due, in the order of the spawners, with the keys
/// `first_id`, `first_id + 1` and so on.
pub open spec fn newcomers(spawners: Seq<EnemySpawner>, now: int, first_id: int) -> Seq<Enemy> {
    let due = spawners.filter(due_at(now));
    Seq::new(due.len(), |k: int| due[k].newcomer(key(first_id + k)))
}

/// Lets every spawner spawn the enemy that is due. The new enemies join
/// `enemies` at the end, and `next_id` moves on by one for each of them.
pub fn enemy_spawn(
    spawners: &mut Vec<EnemySpawner>,
    enemies: &mut Vec<Enemy>,
    next_id: &mut u64,
    now: u64,
)
    ensures
        final(spawners)@ == old(spawners)@.map_values(
            |s: EnemySpawner| s.after_spawn(now as int),
        ),
        final(enemies)@ == old(enemies)@ + newcomers(
            old(spawners)@,
            now as int,
            *old(next_id) as int,
        ),
        *final(next_id) == key(
            *old(next_id) + newcomers(old(spawners)@, now as int, *old(next_id) as int).len(),
        ),
{
    let ghost all = spawners@;
    let ghost crowd = enemies@;
    let ghost first = *next_id as int;
    let mut i: usize = 0;
    proof {
        lemma_filter_none(all, due_at(now as int));
        assert(crowd + newcomers(all.take(0), now as int, first) =~= crowd);
    }
    while i < spawners.len()
        invariant
            i <= spawners.len(),
            spawners.len() == all.len(),
            0 <= first,
            forall|k: int| 0 <= k < i ==> spawners[k] == all[k].after_spawn(now as int),
            forall|k: int| i <= k < spawners.len() ==> spawners[k] == all[k],
            enemies@ == crowd + newcomers(all.take(i as int), now as int, first),
            *next_id == key(first + newcomers(all.take(i as int), now as int, first).len()),
        decreases spawners.len() - i,
    {
        proof {
            lemma_filter_next(all, due_at(now as int), i as int);
        }
        let ghost before = newcomers(all.take(i as int), now as int, first);
        let mut spawner = spawners[i];
        let id = *next_id;
        match spawner.spawn(now, id) {
            Some(enemy) => {
                enemies.push(enemy);
                if id < u64::MAX {
                    *next_id = id + 1;
                }
                assert(newcomers(all.take(i + 1), now as int, first) =~= before.push(enemy));
                assert(enemies@ =~= crowd + newcomers(all.take(i + 1), now as int, first));

            },
            None => {
                assert(newcomers(all.take(i + 1), now as int, first) =~= before);
            },
        }
        spawners.set(i, spawner);
        i += 1;
    }
    proof {
        lemma_filter_none(all, due_at(now as int));
        assert(spawners@ =~= all.map_values(|s: EnemySpawner| s.after_spawn(now as int)));
    }
}

/// The time for which the game has been played, in milliseconds.
#[derive(Clone, Copy, Debug, PartialEq, Eq, Structural)]
pub struct PlayTime {
    pub millis: u64,
}

impl PlayTime {
    /// The clock after `dt` more milliseconds; it stops at `u64::MAX`.
    pub open spec fn advanced(self, dt: int) -> PlayTime {
        if self.millis + dt > u64::MAX {
            PlayTime { millis: u64::MAX }
        } else {
            PlayTime { millis: (self.millis + dt) as u64 }
        }
    }

    /// Lets `dt` milliseconds pass.
    pub fn advance(&mut self, dt: u32)
        ensures
            *final(self) == old(self).advanced(dt as int),
    {
        self.millis = self.millis.saturating_add(dt as u64);
    }
}

} // verus!
