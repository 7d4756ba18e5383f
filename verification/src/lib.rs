//! Deterministic core of a grid tower-defense game: enemies walk a path
//! towards a base, towers track and shoot them, projectiles fly and hit.
//!
//! Every quantity is an integer, so that a run can be repeated bit for bit:
//! lengths are counted in millionths of a world unit, time in
//! milliseconds, angles in thousandths of a degree and progress along the
//! path in millionths of the whole path. The one thing that the library
//! leaves to its caller is the angle of a direction: a tick has two halves,
//! and between them the caller takes the bearings in which the towers are
//! to aim.
//!
//! - `coord`: grid cells, world positions, displacements
//! - `path`: the polyline that the enemies walk, and where a walker is on it
//! - `health`, `currency`: hit points and coins
//! - `enemy`: enemies, their spawners, their way along the path, their end
//! - `tower`: choice of a target, turning of the barrel, shooting, building
//! - `projectile`: launch, flight, hits, expiry
//! - `base`: the base and the end of the game
//! - `game`: a whole level and its tick
//! - `arith`, `sequences`: arithmetic and sequences behind the proofs

pub mod arith;
pub mod base;
pub mod coord;
pub mod currency;
pub mod enemy;
pub mod game;
pub mod game_state;
pub mod health;
pub mod path;
pub mod projectile;
pub mod sequences;
pub mod tower;
