[package]
name = "rubiks_cube_solver"
version = "0.1.0"
edition = "2021"

[dependencies]
bincode = "1"
rand = "0.9"
serde = { version = "1", features = ["derive"] }
