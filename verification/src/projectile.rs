use vstd::prelude::*;
use crate::arith::{abs, clamped, integer_sqrt_up};
use crate::coord::{dist_sq, lemma_scaled_length, Offset, WorldPosition};
use crate::enemy::Enemy;
use crate::sequences::{lemma_filter_next, lemma_filter_none};

verus! {

/// Speed of a projectile, for one millisecond: 200 world units in a second.
pub const PROJECTILE_SPEED: i64 = 200_000;

/// A projectile closer than this to an enemy hits it: 20 world units.
pub const HIT_RADIUS: u32 = 20_000_000;

/// Time after which a projectile is taken out, in milliseconds.
pub const LIFETIME: u64 = 2_000;

/// Damage that a projectile does to the enemy it hits.
pub const PROJECTILE_DAMAGE: i32 = 1;

/// A request to launch a projectile from `position` towards `direction`.
#[derive(Clone, Copy, Debug, PartialEq, Eq, Structural)]
pub struct SpawnProjectile {
    pub position: WorldPosition,
    /// Where the projectile is to fly. A tower gives the direction to its
    /// target, of the length of one world unit; a request is served
    /// whatever the length, as only the direction counts.
    pub direction: Offset,
}

/// A projectile in flight.
#[derive(Clone, Copy, Debug, PartialEq, Eq, Structural)]
pub struct Projectile {
    pub position: WorldPosition,
    /// Way made in one millisecond.
    pub velocity: Offset,
    pub creation_time: u64,
}

/// The velocity of a projectile that flies towards `direction`: the
/// direction brought to the length `PROJECTILE_SPEED`. Without a direction
/// the projectile stands still.
pub open spec fn velocity_towards(direction: Offset) -> Offset {
    direction.scaled_to_spec(PROJECTILE_SPEED as int)
}

/// The projectile is close enough to the enemy to hit it.
pub open spec fn touches(projectile: Projectile, enemy: Enemy) -> bool {
    dist_sq(projectile.position, enemy.position) < HIT_RADIUS * HIT_RADIUS
}

/// The projectile hits enemy `i`: the first enemy that it touches.
pub open spec fn strikes(projectile: Projectile, enemies: Seq<Enemy>, i: int) -> bool {
    &&& 0 <= i < enemies.len()
    &&& touches(projectile, enemies[i])
    &&& forall|j: int| 0 <= j < i ==> !touches(projectile, enemies[j])
}

/// The projectiles that touch none of `enemies`.
pub open spec fn flying_on(enemies: Seq<Enemy>) -> spec_fn(Projectile) -> bool {
    |p: Projectile| forall|j: int| 0 <= j < enemies.len() ==> !touches(p, enemies[j])
}

/// The projectiles that hit enemy `i`.
pub open spec fn striking(enemies: Seq<Enemy>, i: int) -> spec_fn(Projectile) -> bool {
    |p: Projectile| strikes(p, enemies, i)
}

/// Number of the projectiles that hit enemy `i`.
pub open spec fn hits_on(projectiles: Seq<Projectile>, enemies: Seq<Enemy>, i: int) -> nat {
    projectiles.filter(striking(enemies, i)).len()
}

/// The enemy after `hits` projectiles have hit it.
pub open spec fn struck(enemy: Enemy, hits: nat) -> Enemy {
    Enemy { health: enemy.health.after_hits(hits), ..enemy }
}

/// The projectiles that are not older than `LIFETIME` at time `now`.
pub open spec fn in_flight(now: int) -> spec_fn(Projectile) -> bool {
    |p: Projectile| !p.expired(now)
}

/// A projectile is never faster than `PROJECTILE_SPEED`. Each component
/// of its velocity has the sign of the direction's, and falls short of the
/// direction's component, brought to `PROJECTILE_SPEED` by the rounded
/// length of the direction, by less than one.
pub proof fn lemma_speed_bounded(direction: Offset)
    ensures
        ({
            let length = integer_sqrt_up(direction.length_squared_spec());
            let velocity = velocity_towards(direction);
            &&& velocity.length_squared_spec() <= PROJECTILE_SPEED * PROJECTILE_SPEED
            &&& -PROJECTILE_SPEED <= velocity.dx <= PROJECTILE_SPEED
            &&& -PROJECTILE_SPEED <= velocity.dy <= PROJECTILE_SPEED
            &&& direction.dx >= 0 ==> velocity.dx >= 0
            &&& direction.dx <= 0 ==> velocity.dx <= 0
            &&& direction.dy >= 0 ==> velocity.dy >= 0
            &&& direction.dy <= 0 ==> velocity.dy <= 0
            &&& length > 0 ==> (abs(velocity.dx as int) + 1) * length > abs(direction.dx as int)
                * PROJECTILE_SPEED
            &&& length > 0 ==> (abs(velocity.dy as int) + 1) * length > abs(direction.dy as int)
                * PROJECTILE_SPEED
            &&& length == 0 <==> direction.dx == 0 && direction.dy == 0
        }),
{
    lemma_scaled_length(direction, PROJECTILE_SPEED as int);
}

impl Projectile {
    /// At time `now` the projectile is older than `LIFETIME`.
    pub open spec fn expired(self, now: int) -> bool {
        now - self.creation_time > LIFETIME
    }

    /// The projectile after `dt` milliseconds of flight in a straight
    /// line. A position stops at the ends of the range of `i64`.
    pub open spec fn advanced(self, dt: int) -> Projectile {
        Projectile {
            position: WorldPosition {
                x: clamped(self.position.x + self.velocity.dx * dt),
                y: clamped(self.position.y + self.velocity.dy * dt),
            },
            ..self
        }
    }

    /// The projectile that `request` asks for, launched at time `now`.
    pub open spec fn launched(request: SpawnProjectile, now: u64) -> Projectile {
        Projectile {
            position: request.position,
            velocity: velocity_towards(request.direction),
            creation_time: now,
        }
    }

    /// The projectile that `request` asks for, launched at time `now`.
    pub fn spawn(request: SpawnProjectile, now: u64) -> (p: Projectile)
        ensures
            p == Projectile::launched(request, now),
            p.velocity.length_squared_spec() <= PROJECTILE_SPEED * PROJECTILE_SPEED,
            -PROJECTILE_SPEED <= p.velocity.dx <= PROJECTILE_SPEED,
            -PROJECTILE_SPEED <= p.velocity.dy <= PROJECTILE_SPEED,
            request.direction.dx == 0 ==> p.velocity.dx == 0,
            request.direction.dy == 0 ==> p.velocity.dy == 0,
    {
        proof {
            lemma_scaled_length(request.direction, PROJECTILE_SPEED as int);
        }
        Projectile {
            position: request.position,
            velocity: request.direction.scaled_to(PROJECTILE_SPEED as u32),
            creation_time: now,
        }
    }

    /// Lets the projectile fly on for `dt` milliseconds.
    pub fn advance(&mut self, dt: u32)
        ensures
            *final(self) == old(self).advanced(dt as int),
    {
        self.position = WorldPosition {
            x: moved(self.position.x, self.velocity.dx, dt),
            y: moved(self.position.y, self.velocity.dy, dt),
        };
    }
}

/// A coordinate after `dt` milliseconds at the given speed.
fn moved(from: i64, speed: i64, dt: u32) -> (to: i64)
    ensures
        to == clamped(from + speed * dt),
{
    assert(-0x8000_0000_0000_0000 * 0x1_0000_0000 <= speed * dt <= 0x8000_0000_0000_0000
        * 0x1_0000_0000) by (nonlinear_arith)
        requires
            -0x8000_0000_0000_0000 <= speed <= 0x8000_0000_0000_0000,
            0 <= dt <= 0x1_0000_0000,
    ;
    let to: i128 = from as i128 + speed as i128 * (dt as i128);
    if to > i64::MAX as i128 {
        i64::MAX
    } else if to < i64::MIN as i128 {
        i64::MIN
    } else {
        to as i64
    }
}

/// Launches a projectile for each of `requests` at time `now`. The new
/// projectiles join `projectiles` at the end, in the order of the requests.
pub fn projectile_spawn(
    projectiles: &mut Vec<Projectile>,
    requests: &Vec<SpawnProjectile>,
    now: u64,
)
    ensures
        final(projectiles)@ == old(projectiles)@ + requests@.map_values(
            |r: SpawnProjectile| Projectile::launched(r, now),
        ),
{
    let ghost start = projectiles@;
    let ghost launched = requests@.map_values(|r: SpawnProjectile| Projectile::launched(r, now));
    let mut i: usize = 0;
    assert(start + launched.take(0) =~= start);
    while i < requests.len()
        invariant
            i <= requests.len(),
            launched == requests@.map_values(|r: SpawnProjectile| Projectile::launched(r, now)),
            projectiles@ == start + launched.take(i as int),
        decreases requests.len() - i,
    {
        projectiles.push(Projectile::spawn(requests[i], now));
        assert(launched.take(i + 1) =~= launched.take(i as int).push(launched[i as int]));
        assert(projectiles@ =~= start + launched.take(i + 1));
        i += 1;
    }
    assert(launched.take(requests.len() as int) =~= launched);
}

/// Lets every projectile fly on for `dt` milliseconds.
pub fn apply_velocity(projectiles: &mut Vec<Projectile>, dt: u32)
    ensures
        final(projectiles)@ == old(projectiles)@.map_values(
            |p: Projectile| p.advanced(dt as int),
        ),
{
    let ghost start = projectiles@;
    let mut i: usize = 0;
    while i < projectiles.len()
        invariant
            i <= projectiles.len(),
            projectiles.len() == start.len(),
            forall|k: int| 0 <= k < i ==> projectiles[k] == start[k].advanced(dt as int),
            forall|k: int| i <= k < projectiles.len() ==> projectiles[k] == start[k],
        decreases projectiles.len() - i,
    {
        let mut projectile = projectiles[i];
        projectile.advance(dt);
        projectiles.set(i, projectile);
        i += 1;
    }
    assert(projectiles@ =~= start.map_values(|p: Projectile| p.advanced(dt as int)));
}

/// The first enemy that the projectile touches.
pub fn first_touched(projectile: &Projectile, enemies: &Vec<Enemy>) -> (hit: Option<usize>)
    ensures
        hit matches Some(i) ==> strikes(*projectile, enemies@, i as int),
        hit.is_none() ==> forall|j: int|
            0 <= j < enemies.len() ==> !touches(*projectile, enemies[j]),
{
    let mut i: usize = 0;
    while i < enemies.len()
        invariant
            i <= enemies.len(),
            forall|j: int| 0 <= j < i ==> !touches(*projectile, enemies[j]),
        decreases enemies.len() - i,
    {
        match projectile.position.offset_within(enemies[i].position, HIT_RADIUS) {
            Some(offset) => {
                if offset.length_squared() < HIT_RADIUS as u128 * HIT_RADIUS as u128 {
                    return Some(i);
                }
            },
            None => {},
        }
        i += 1;
    }
    None
}

/// Resolves the hits of a tick. Each projectile, in order, hits the first
/// enemy that it touches: that enemy takes `PROJECTILE_DAMAGE`, unless it
/// has no hit points left, and the projectile is taken out. A projectile
/// hits one enemy at most; those that touch none fly on, in their order.
/// No enemy is taken out here.
pub fn projectile_hit(projectiles: &mut Vec<Projectile>, enemies: &mut Vec<Enemy>)
    ensures
        final(projectiles)@ == old(projectiles)@.filter(flying_on(old(enemies)@)),
        final(enemies)@.len() == old(enemies)@.len(),
        forall|i: int|
            0 <= i < old(enemies)@.len() ==> final(enemies)@[i] == struck(
                old(enemies)@[i],
                hits_on(old(projectiles)@, old(enemies)@, i),
            ),
{
    let ghost shots = projectiles@;
    let ghost start = enemies@;
    let mut kept: Vec<Projectile> = Vec::new();
    let mut k: usize = 0;
    proof {
        lemma_filter_none(shots, flying_on(start));
        assert forall|i: int| 0 <= i < start.len() implies start[i] == struck(
            start[i],
            hits_on(shots.take(0), start, i),
        ) by {
            lemma_filter_none(shots, striking(start, i));
        }
    }
    while k < projectiles.len()
        invariant
            k <= projectiles.len(),
            projectiles@ == shots,
            enemies@.len() == start.len(),
            kept@ == shots.take(k as int).filter(flying_on(start)),
            forall|i: int|
                0 <= i < start.len() ==> enemies@[i] == struck(
                    start[i],
                    hits_on(shots.take(k as int), start, i),
                ),
        decreases projectiles.len() - k,
    {
        let projectile = projectiles[k];
        let ghost before = enemies@;
        assert(forall|j: int|
            0 <= j < start.len() ==> touches(projectile, before[j]) == touches(
                projectile,
                start[j],
            ));
        proof {
            lemma_filter_next(shots, flying_on(start), k as int);
        }
        match first_touched(&projectile, enemies) {
            Some(hit) => {
                let mut enemy = enemies[hit];
                enemy.health.damage(PROJECTILE_DAMAGE);
                enemies.set(hit, enemy);
                proof {
                    assert(strikes(projectile, start, hit as int));
                    assert forall|i: int| 0 <= i < start.len() implies enemies@[i] == struck(
                        start[i],
                        hits_on(shots.take(k + 1), start, i),
                    ) by {
                        lemma_filter_next(shots, striking(start, i), k as int);
                        if i == hit {
                            start[i].health.lemma_after_hits_step(
                                hits_on(shots.take(k as int), start, i),
                            );
                        }
                    }
                }
            },
            None => {
                proof {
                    assert forall|i: int| 0 <= i < start.len() implies enemies@[i] == struck(
                        start[i],
                        hits_on(shots.take(k + 1), start, i),
                    ) by {
                        lemma_filter_next(shots, striking(start, i), k as int);
                    }
                }
                kept.push(projectile);
            },
        }
        k += 1;
    }
    proof {
        assert(shots.take(shots.len() as int) =~= shots);
    }
    *projectiles = kept;
}

/// Takes out the projectiles that are older than `LIFETIME`, whether they
/// have hit or not; the others stay, in their order.
pub fn projectile_destroy(projectiles: &mut Vec<Projectile>, now: u64)
    ensures
        final(projectiles)@ == old(projectiles)@.filter(in_flight(now as int)),
{
    let ghost all = projectiles@;
    let mut kept: Vec<Projectile> = Vec::new();
    let mut i: usize = 0;
    proof {
        lemma_filter_none(all, in_flight(now as int));
    }
    while i < projectiles.len()
        invariant
            i <= projectiles.len(),
            projectiles@ == all,
            kept@ == all.take(i as int).filter(in_flight(now as int)),
        decreases projectiles.len() - i,
    {
        proof {
            lemma_filter_next(all, in_flight(now as int), i as int);
        }
        let projectile = projectiles[i];
        if !(now > projectile.creation_time && now - projectile.creation_time > LIFETIME) {
            kept.push(projectile);
        }
        i += 1;
    }
    *projectiles = kept;
}

} // verus!
