[package]
name = "racetrack"
version = "0.2.1"
edition = "2021"
publish = false

[dependencies]
axum = "=0.8.9"
board-game-traits = "=0.4.0"
bpci = "=0.1.0"
chrono = "=0.4.45"
clap = "=4.6.7"
color-print = "=0.3.7"
ctrlc = "=3.5.2"
fern = "=0.7.1"
futures = "=0.3.34"
json = "=0.12.4"
json-patch = "=4.2.0"
log = "=0.4.34"
pgn-traits = "=0.5.0"
rand = { version = "=0.8.8", features = ["small_rng"] }
rand_distr = "=0.4.3"
serde = { version = "=1.0.229", features = ["derive"] }
serde_json = "=1.0.154"
tokio = { version = "=1.54.1", features = ["rt", "net"] }
tokio-stream = "=0.1.19"
tower-http = { version = "=0.6.11", features = ["cors"] }
tungstenite = "=0.26.2"
