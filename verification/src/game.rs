use vstd::prelude::*;
use crate::base::{base_destroy, BASE_HEALTH};
use crate::coord::{Coord, Offset, UNIT};
use crate::currency::{Currency, STARTING_COINS};
use crate::enemy::{
    alive, all_advanced, arrived, dead, enemy_destroy, enemy_path_follow, enemy_spawn, key,
    newcomers, on_the_way, Enemy, EnemySpawner, PlayTime, BOUNTY,
};
use crate::game_state::GameState;
use crate::health::Health;
use crate::path::{valid_nodes, Path, PathError};
use crate::projectile::{
    apply_velocity, flying_on, hits_on, in_flight, projectile_destroy, projectile_hit,
    projectile_spawn, struck, Projectile, SpawnProjectile,
};
use crate::tower::{
    can_place, shots_of, tower_after_tick, tower_directions, tower_place, tower_shoot, Tower,
    TOWER_COST,
};

verus! {

/// The whole state of a level. A tick has two halves, `begin_tick` and
/// `end_tick`; between them the caller takes the bearings of the directions
/// in which the towers are to aim.
pub struct Game {
    pub path: Path,
    pub build_spots: Vec<Coord>,
    pub spawners: Vec<EnemySpawner>,
    pub enemies: Vec<Enemy>,
    pub towers: Vec<Tower>,
    pub projectiles: Vec<Projectile>,
    pub base: Health,
    pub currency: Currency,
    pub play_time: PlayTime,
    /// The key that the next enemy gets.
    pub next_id: u64,
}

/// What the first half of a tick did, and what the caller has to take the
/// bearings of.
pub struct Movement {
    /// Number of the enemies that reached the base.
    pub arrivals: usize,
    /// For each tower the way, at its full length, to the enemy that it
    /// is going to track.
    pub directions: Vec<Option<Offset>>,
}

/// What the second half of a tick did.
pub struct Combat {
    /// The projectiles that the towers asked for, in the order of the
    /// towers.
    pub shots: Vec<SpawnProjectile>,
    /// Number of the enemies that were shot down.
    pub kills: usize,
}

/// The enemies after each has taken the hits that `projectiles` land on
/// it.
pub open spec fn all_struck(enemies: Seq<Enemy>, projectiles: Seq<Projectile>) -> Seq<Enemy> {
    Seq::new(enemies.len(), |i: int| struck(enemies[i], hits_on(projectiles, enemies, i)))
}

/// The projectiles after the requests `shots` were launched at time `now`
/// and all have flown for `dt` milliseconds.
pub open spec fn all_flown(
    projectiles: Seq<Projectile>,
    shots: Seq<SpawnProjectile>,
    now: u64,
    dt: int,
) -> Seq<Projectile> {
    (projectiles + shots.map_values(|r: SpawnProjectile| Projectile::launched(r, now))).map_values(
        |p: Projectile| p.advanced(dt),
    )
}

impl Game {
    /// A level at its start: a spawner on the first node of the path, the
    /// base in full health, the purse with its first coins, and nothing
    /// else on the map. Fails where `nodes` make no path.
    pub fn new(nodes: Vec<Coord>, build_spots: Vec<Coord>) -> (r: Result<Game, PathError>)
        ensures
            r.is_ok() <==> valid_nodes(nodes@),
            r matches Err(e) ==> (e == PathError::TooFewNodes <==> nodes.len() < 2),
            r matches Ok(game) ==> {
                &&& game.path@ == nodes@
                &&& game.build_spots == build_spots
                &&& game.spawners@ == seq![
                    EnemySpawner { position: nodes[0].world_spec(), last_spawn_time: 0 },
                ]
                &&& game.enemies@.len() == 0
                &&& game.towers@.len() == 0
                &&& game.projectiles@.len() == 0
                &&& game.base == (Health { max: BASE_HEALTH, current: BASE_HEALTH })
                &&& game.currency.coins == STARTING_COINS
                &&& game.play_time.millis == 0
                &&& game.next_id == 0
            },
    {
        match Path::try_new(nodes) {
            Err(e) => Err(e),
            Ok(path) => {
                let mut spawners: Vec<EnemySpawner> = Vec::new();
                spawners.push(EnemySpawner::new(path.start()));
                assert(spawners@ =~= seq![
                    EnemySpawner { position: nodes[0].world_spec(), last_spawn_time: 0 },
                ]);
                Ok(
                    Game {
                        path,
                        build_spots,
                        spawners,
                        enemies: Vec::new(),
                        towers: Vec::new(),
                        projectiles: Vec::new(),
                        base: Health::new(BASE_HEALTH),
                        currency: Currency::new(),
                        play_time: PlayTime { millis: 0 },
                        next_id: 0,
                    },
                )
            },
        }
    }

    /// First half of a tick of `dt` milliseconds. The clock moves on. The
    /// enemies move along the path; those that arrive leave and damage the
    /// base. Then the spawners put out the enemies that are due. Towers
    /// and projectiles wait for the second half.
    pub fn begin_tick(&mut self, dt: u32) -> (moved: Movement)
        ensures
            final(self).path == old(self).path,
            final(self).build_spots == old(self).build_spots,
            final(self).towers == old(self).towers,
            final(self).projectiles == old(self).projectiles,
            final(self).currency == old(self).currency,
            final(self).play_time == old(self).play_time.advanced(dt as int),
            final(self).spawners@ == old(self).spawners@.map_values(
                |s: EnemySpawner| s.after_spawn(final(self).play_time.millis as int),
            ),
            final(self).enemies@ == all_advanced(
                old(self).enemies@,
                old(self).path@,
                dt as int,
            ).filter(on_the_way()) + newcomers(
                old(self).spawners@,
                final(self).play_time.millis as int,
                old(self).next_id as int,
            ),
            final(self).next_id == key(
                old(self).next_id + newcomers(
                    old(self).spawners@,
                    final(self).play_time.millis as int,
                    old(self).next_id as int,
                ).len(),
            ),
            moved.arrivals == all_advanced(old(self).enemies@, old(self).path@, dt as int).filter(
                arrived(),
            ).len(),
            final(self).base == old(self).base.after_hits(moved.arrivals as nat),
            moved.directions.len() == old(self).towers.len(),
            forall|i: int|
                0 <= i < moved.directions.len() ==> moved.directions[i] == old(
                    self,
                ).towers[i].direction(final(self).enemies@),
    {
        self.play_time.advance(dt);
        let arrivals = enemy_path_follow(&mut self.enemies, &mut self.base, &self.path, dt);
        enemy_spawn(
            &mut self.spawners,
            &mut self.enemies,
            &mut self.next_id,
            self.play_time.millis,
        );
        Movement { arrivals, directions: tower_directions(&self.towers, &self.enemies) }
    }

    /// Second half of a tick of `dt` milliseconds. `bearings[i]` is the
    /// angle of the direction that `begin_tick` gave for tower `i`. The
    /// towers decide on their targets, aim and shoot. The projectiles,
    /// the new ones among them, fly on and hit; those that hit, and those
    /// that are too old, leave. Last, the enemies that were shot down leave,
    /// and each pays its bounty.
    pub fn end_tick(&mut self, dt: u32, bearings: &Vec<i64>) -> (report: Combat)
        ensures
            final(self).path == old(self).path,
            final(self).build_spots == old(self).build_spots,
            final(self).spawners == old(self).spawners,
            final(self).base == old(self).base,
            final(self).play_time == old(self).play_time,
            final(self).next_id == old(self).next_id,
            final(self).towers@.len() == old(self).towers@.len(),
            forall|i: int|
                0 <= i < old(self).towers@.len() ==> final(self).towers@[i] == tower_after_tick(
                    old(self).towers@[i],
                    i,
                    old(self).enemies@,
                    bearings@,
                    old(self).play_time.millis as int,
                ),
            report.shots@ == shots_of(
                old(self).towers@,
                old(self).enemies@,
                bearings@,
                old(self).play_time.millis as int,
            ),
            forall|k: int|
                0 <= k < report.shots.len() ==> (
                #[trigger] report.shots[k]).direction.length_squared_spec() <= UNIT * UNIT,
            final(self).projectiles@ == all_flown(
                old(self).projectiles@,
                report.shots@,
                old(self).play_time.millis,
                dt as int,
            ).filter(flying_on(old(self).enemies@)).filter(
                in_flight(old(self).play_time.millis as int),
            ),
            final(self).enemies@ == all_struck(
                old(self).enemies@,
                all_flown(
                    old(self).projectiles@,
                    report.shots@,
                    old(self).play_time.millis,
                    dt as int,
                ),
            ).filter(alive()),
            report.kills == all_struck(
                old(self).enemies@,
                all_flown(
                    old(self).projectiles@,
                    report.shots@,
                    old(self).play_time.millis,
                    dt as int,
                ),
            ).filter(dead()).len(),
            final(self).currency == old(self).currency.earned(report.kills * BOUNTY),
            final(self).enemies@.len() + report.kills == old(self).enemies@.len(),
    {
        let now = self.play_time.millis;
        let shots = tower_shoot(&mut self.towers, &self.enemies, bearings, now);
        projectile_spawn(&mut self.projectiles, &shots, now);
        apply_velocity(&mut self.projectiles, dt);
        let ghost flown = self.projectiles@;
        let ghost targets = self.enemies@;
        projectile_hit(&mut self.projectiles, &mut self.enemies);
        assert(self.enemies@ =~= all_struck(targets, flown));
        projectile_destroy(&mut self.projectiles, now);
        let kills = enemy_destroy(&mut self.enemies, &mut self.currency);
        Combat { shots, kills }
    }

    /// What becomes of the game: it is over once the base has no hit
    /// points left.
    pub fn outcome(&self) -> (next: Option<GameState>)
        ensures
            next == if self.base.depleted() {
                Some(GameState::GameOver)
            } else {
                None
            },
    {
        base_destroy(&self.base)
    }

    /// Builds a tower on `cell` if the purse holds `TOWER_COST`, the cell
    /// is a build spot and no tower stands on it; says whether it did.
    /// A request that is refused changes nothing.
    pub fn place_tower(&mut self, cell: Coord) -> (placed: bool)
        ensures
            placed <==> can_place(
                old(self).currency,
                old(self).build_spots@,
                old(self).towers@,
                cell,
            ),
            placed ==> final(self).towers@ == old(self).towers@.push(Tower::new_spec(cell))
                && final(self).currency.coins == old(self).currency.coins - TOWER_COST,
            !placed ==> final(self).towers == old(self).towers && final(self).currency == old(
                self,
            ).currency,
            final(self).path == old(self).path,
            final(self).build_spots == old(self).build_spots,
            final(self).spawners == old(self).spawners,
            final(self).enemies == old(self).enemies,
            final(self).projectiles == old(self).projectiles,
            final(self).base == old(self).base,
            final(self).play_time == old(self).play_time,
            final(self).next_id == old(self).next_id,
    {
        match tower_place(&mut self.currency, &self.build_spots, &self.towers, cell) {
            Some(tower) => {
                self.towers.push(tower);
                true
            },
            None => false,
        }
    }
}

} // verus!
