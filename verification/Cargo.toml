[package]
name = "river_graph"
version = "0.1.0"
edition = "2021"
publish = false

[dependencies]
coordinate-transformer = "*"
hilbert_index = "*"
image = "*"
clap = { version = "*", features = ["derive"] }
csv = "*"
futures = "*"
geojson = "*"
moka = { version = "*", features = ["future"] }
reqwest = { version = "*", default-features = false }
spade = "*"
tokio = { version = "*", features = ["macros", "rt-multi-thread", "fs", "io-util"] }
