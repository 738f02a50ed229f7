[package]
name = "farsight"
version = "0.1.0"
edition = "2021"
publish = false

[dependencies]
strength_reduce = "=0.2.4"
perfect_rand = "=0.3.0"
ttlhashmap = "=0.1.0"
rand = "=0.9.5"
rand_xorshift = "=0.4.0"
anyhow = "=1.0.104"
aya = "=0.13.1"
aya-log = "=0.2.1"
crossbeam-queue = "=0.3.14"
env_logger = "=0.11.11"
libc = "=0.2.191"
log = "=0.4.34"
mongodb = { version = "=3.9.1", features = ["sync"] }
serde = { version = "=1.0.229", features = ["derive"] }
serde_json = "=1.0.154"
tokio = { version = "=1.54.1", features = ["macros", "rt-multi-thread", "time"] }
toml = "=0.8.23"
