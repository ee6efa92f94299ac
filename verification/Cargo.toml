[package]
name = "cashttpd"
version = "0.1.0"
edition = "2021"
publish = false

[dependencies]
base64 = "0.22"
bcrypt = "0.15"
brotli = "7"
bytes = "1"
clap = { version = "4", features = ["derive"] }
flate2 = "1"
h3 = "0.0.8"
h3-quinn = "0.0.10"
http = "1"
http-body-util = "0.1"
hyper = { version = "1", features = ["full"] }
hyper-util = { version = "0.1", features = ["tokio"] }
md-5 = "0.10"
mime_guess = "2"
nix = { version = "0.29", features = ["signal", "user", "process"] }
quinn = { version = "0.11", default-features = false, features = ["runtime-tokio", "rustls-ring"] }
rcgen = "0.13"
regex = "1"
ring = "0.17"
rustls = { version = "0.23", default-features = false, features = ["ring", "std", "tls12"] }
rustls-pemfile = "2"
serde_json = "1"
serde_yaml = "0.9"
sha1 = "0.10"
signal-hook = "0.3"
time = { version = "0.3", features = ["formatting", "parsing"] }
tokio = { version = "1", features = ["full"] }
webpki-roots = "0.26"
