[package]
name = "obadgen"
version = "0.1.0"
edition = "2021"
publish = false

[dependencies]
biscuit = "0.7"
chrono = "0.4"
clap = { version = "4", features = ["cargo", "derive"] }
const_format = "0.2"
git-version = "0.3"
lazy_static = "1"
log = "0.4"
monostate = "0.1"
png = "0.18"
rcgen = "0.13"
ring = "0.17"
serde = { version = "1", features = ["derive"] }
serde_json = "1"
sha2 = "0.10"
strum = "0.26"
strum_macros = "0.26"
thiserror = "1"
tracing = "0.1"
tracing-subscriber = "0.3"
typed-builder = "0.20"
xml-rs = "0.8"
