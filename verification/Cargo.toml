[package]
name = "bazmail-core"
version = "0.1.0"
edition = "2021"
publish = false

[dependencies]
anyhow = "1"
async-imap = { version = "=0.12.0", default-features = false, features = ["runtime-tokio"] }
base64 = "=0.22.1"
futures = "0.3"
getrandom = "=0.3.4"
keyring = { version = "=3.6.3", features = ["apple-native", "windows-native"] }
mail-parser = "=0.11.9"
mail-send = { version = "=0.7.0", default-features = false, features = ["builder", "ring", "tls12"] }
reqwest = { version = "=0.12.28", default-features = false, features = ["json", "rustls-tls"] }
roxmltree = "=0.21.2"
rusqlite = { version = "=0.41.1", features = ["bundled"] }
serde = { version = "1", features = ["derive"] }
serde_json = "1"
sha2 = "=0.10.9"
time = { version = "=0.3.55", features = ["formatting"] }
tokio = { version = "=1.54.1", features = ["full"] }
tokio-rustls = { version = "=0.26.6", default-features = false, features = ["ring", "logging", "tls12"] }
webpki-roots = "=1.0.10"
