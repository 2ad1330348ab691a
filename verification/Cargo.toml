[package]
name = "particle_sim"
version = "0.1.0"
edition = "2021"
publish = false

[dependencies]
rayon = "*"
static_aabb2d_index = "*"
