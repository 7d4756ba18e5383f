[package]
name = "tower_defense"
version = "0.1.0"
edition = "2021"
publish = false

[dependencies]
# Nothing calls async-trait. It is built as a macro crate, which switches on
# the feature `full` of syn 1 for all macro crates; those of bevy 0.7 need it
# and no longer get it from another crate.
async-trait = "=0.1.60"
bevy = { version = "=0.7.0", default-features = false, features = ["render", "bevy_winit", "x11"] }
bevy_egui = { version = "=0.14.0", default-features = false }
bevy_kira_audio = { version = "=0.10.0", default-features = false, features = ["flac"] }
iyes_loopless = "=0.5.1"
