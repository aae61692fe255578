[package]
name = "neuropipe"
version = "0.1.0"
edition = "2021"
publish = false

[dependencies]
unicode-normalization = "=0.1.26"
whatlang = "=0.16.4"
fancy-regex = "=0.14.0"
sha2 = "=0.10.9"
serde = { version = "=1.0.229", features = ["derive"] }
serde_json = "=1.0.154"
toml = "=0.8.23"
anyhow = "=1.0.104"
chrono = "=0.4.45"
uuid = { version = "=1.29.0", features = ["v4"] }
zmq = "=0.10.0"
clap = { version = "=4.6.7", default-features = false, features = ["std", "derive", "help", "usage", "error-context", "suggestions"] }
reqwest = { version = "=0.12.28", default-features = false, features = ["blocking", "json"] }
rand = "=0.9.5"
rand_distr = "=0.5.1"
ndarray = "=0.16.1"
realfft = "=3.5.1"
libc = "=0.2.191"
zip = { version = "=7.4.0", default-features = false }
safetensors = "=0.4.5"
ndarray-npy = "=0.9.1"
ort = "=2.0.0-rc.15"
cpal = "=0.15.3"
rodio = "=0.21.1"
gtk4 = "=0.11.5"
libadwaita = "=0.9.2"
espeak-ng = "*"
sentencepiece-model = "*"
