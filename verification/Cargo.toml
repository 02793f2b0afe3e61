[package]
name = "movie_recommender"
version = "0.1.0"
edition = "2021"
publish = false

[dependencies]
csv = "1"
nalgebra = { version = "*", default-features = false, features = ["std"] }
serde = { version = "1", features = ["derive"] }
